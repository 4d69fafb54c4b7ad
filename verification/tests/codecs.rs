use hls_playlist::codecs::fourcc::Fourcc;
use hls_playlist::codecs::parse::parse_codecs_attr;
use hls_playlist::codecs::{
    AvcCodec, AvcProfile, Codec, HevcProfile, HevcTier, Mp4aCodec, Mp4vCodec, Vp9, Vp9Profile, VpChromaSubsampling,
};

#[test]
fn avc_constrained_baseline_3_0() {
    let s = "avc1.42401e";
    let c: Codec = s.parse().unwrap();
    assert_eq!(
        c,
        Codec::Avc(AvcCodec { fourcc: Fourcc::new(b"avc1"), profile: AvcProfile::ConstrainedBaseline, level: 30 })
    );
    assert_eq!(c.to_string(), s);
}

#[test]
fn avc_high_4_0() {
    let s = "avc1.640028";
    let c: Codec = s.parse().unwrap();
    assert_eq!(c, Codec::Avc(AvcCodec { fourcc: Fourcc::new(b"avc1"), profile: AvcProfile::High, level: 40 }));
    assert_eq!(c.to_string(), s);
}

#[test]
fn avc_constrained_high() {
    let c: Codec = "avc1.640c1f".parse().unwrap();
    assert_eq!(
        c,
        Codec::Avc(AvcCodec { fourcc: Fourcc::new(b"avc1"), profile: AvcProfile::ConstrainedHigh, level: 31 })
    );
}

#[test]
fn avc_alt_fourcc() {
    let c: Codec = "avc3.640028".parse().unwrap();
    if let Codec::Avc(avc) = c {
        assert_eq!(avc.fourcc, Fourcc::new(b"avc3"));
        assert_eq!(avc.profile, AvcProfile::High);
    } else {
        panic!("expected Avc");
    }
}

#[test]
fn avc_wrong_hex_length() {
    assert!("avc1.4d40".parse::<Codec>().is_err());
    assert!("avc1.4d401e00".parse::<Codec>().is_err());
}

#[test]
fn mp4a_aac_lc() {
    let s = "mp4a.40.2";
    let c: Codec = s.parse().unwrap();
    assert_eq!(c, Codec::Mp4a(Mp4aCodec { oti: 0x40, audio_object_type: Some(2) }));
    assert_eq!(c.to_string(), s);
}

#[test]
fn mp4a_no_aot() {
    let s = "mp4a.40";
    let c: Codec = s.parse().unwrap();
    assert_eq!(c, Codec::Mp4a(Mp4aCodec { oti: 0x40, audio_object_type: None }));
    assert_eq!(c.to_string(), s);
}

#[test]
fn vp9_profile0_level31() {
    let c: Codec = "vp09.00.31.08.01".parse().unwrap();
    assert_eq!(
        c,
        Codec::Vp9(Vp9 {
            profile: Vp9Profile::Profile0,
            level: 31,
            bit_depth: 8,
            chroma: VpChromaSubsampling::Horizontal,
        })
    );
}

#[test]
fn vp9_profile2_10bit() {
    let c: Codec = "vp09.02.51.10.00".parse().unwrap();
    if let Codec::Vp9(v) = c {
        assert_eq!(v.profile, Vp9Profile::Profile2);
        assert_eq!(v.bit_depth, 10);
        assert_eq!(v.chroma, VpChromaSubsampling::Vertical);
    } else {
        panic!("expected Vp9");
    }
}

#[test]
fn vp9_bad_profile() {
    assert!("vp09.09.31.08.01".parse::<Codec>().is_err());
}

#[test]
fn vp9_bad_chroma() {
    assert!("vp09.00.31.08.09".parse::<Codec>().is_err());
}

#[test]
fn hevc_main_main_tier() {
    let c: Codec = "hev1.01.5d".parse().unwrap();
    if let Codec::Hevc(h) = c {
        assert_eq!(h.profile, HevcProfile::Main);
        assert_eq!(h.tier, HevcTier::Main);
        assert!(((h.level as f32 / 30.0) - 3.1).abs() < 0.01, "level was {}", h.level);
        assert!(h.constraint.is_none());
    } else {
        panic!("expected Hevc");
    }
}

#[test]
fn hevc_main10_high_tier() {
    let c: Codec = "hvc1.02.dd".parse().unwrap();
    if let Codec::Hevc(h) = c {
        assert_eq!(h.profile, HevcProfile::Main10);
        assert_eq!(h.tier, HevcTier::High);
        let level_float = h.level as f32 / 30.0;
        assert!((level_float - 3.1).abs() < 0.01, "level was {}, expected = {}", h.level, level_float);
    } else {
        panic!("expected Hevc");
    }
}

#[test]
fn hevc_unknown_profile() {
    assert!("hev1.ff.5d".parse::<Codec>().is_err());
}

#[test]
fn mp4v_with_level() {
    let c: Codec = "mp4v.20.9".parse().unwrap();
    assert_eq!(c, Codec::Mp4v(Mp4vCodec { oti: 0x20, profile_level_indication: Some(9) }));
}

#[test]
fn mp4v_no_level() {
    let c: Codec = "mp4v.20".parse().unwrap();
    assert_eq!(c, Codec::Mp4v(Mp4vCodec { oti: 0x20, profile_level_indication: None }));
}

#[test]
fn generic() {
    let c: Codec = "ec-3.some.thing".parse().unwrap();
    assert!(matches!(c, Codec::Unknown(_)));
}

#[test]
fn empty_is_err() {
    assert!("".parse::<Codec>().is_err());
}

#[test]
fn case_insensitive_dispatch() {
    let lower: Codec = "mp4a.40.2".parse().unwrap();
    let upper: Codec = "MP4A.40.2".parse().unwrap();
    assert_eq!(lower, upper);
}

#[test]
fn codecs_attr_avc_aac() {
    let codecs = parse_codecs_attr("avc1.640028,mp4a.40.2").unwrap();
    assert_eq!(codecs.len(), 2);
    assert!(matches!(codecs[0], Codec::Avc(_)));
    assert!(matches!(codecs[1], Codec::Mp4a(_)));
}

#[test]
fn codecs_attr_trims_whitespace() {
    let codecs = parse_codecs_attr("avc1.640028 , mp4a.40.2").unwrap();
    assert_eq!(codecs.len(), 2);
}

#[test]
fn codec_text_reads_back_as_the_codec() {
    for s in ["MP4A.40.2", "mp4v.20.9", "AVC1.4d401f", "hev1.1.96", "hvc1.2.4.ABCD.1f", "vp9.0.31.8.1", "dvh1.5.6", "opus", "x..y"] {
        let c: Codec = s.parse().unwrap();
        let text = c.to_string();
        let again: Codec = text.parse().unwrap();
        assert_eq!(again, c);
    }
    let c: Codec = "vp9.0.31.8.1".parse().unwrap();
    assert_eq!(c.to_string(), "vp09.00.31.08.01");
    let c: Codec = "AVC1.4d401f".parse().unwrap();
    assert_eq!(c.to_string(), "AVC1.4d001f");
}
