use hls_playlist::attribute_list::{AttributeList, AttributeValue};
use hls_playlist::codecs::{AvcProfile, HevcProfile, Vp9Profile, VpChromaSubsampling};
use hls_playlist::error::{ParseError, ValidationError};
use hls_playlist::key::{decrypt_aes_128, decrypt_aes_256_gcm, encrypt_aes_128, encrypt_aes_256_gcm};
use hls_playlist::media::{parse_media_playlist, MediaPlaylist};
use hls_playlist::parser::Playlist;
use hls_playlist::playlist::SharedTag;
use hls_playlist::read_write::{decode_playlist_text, parse_bytes_into_playlist, validate_playlist_text, PlaylistReadError};
use hls_playlist::segment::DurationValue;
use hls_playlist::uri::{decode, encode};

fn parse(text: &str) -> Playlist {
    Playlist::parse(text).unwrap()
}

#[test]
fn attribute_list_insert_then_get() {
    let mut attrs = AttributeList::new();
    attrs.insert("A".to_string(), AttributeValue::DecimalInteger(1));
    attrs.insert("B".to_string(), AttributeValue::DecimalInteger(2));
    attrs.insert("A".to_string(), AttributeValue::DecimalInteger(3));
    assert!(matches!(attrs.get("A"), Some(AttributeValue::DecimalInteger(3))));
    assert!(matches!(attrs.get("B"), Some(AttributeValue::DecimalInteger(2))));
    assert!(matches!(attrs.remove("A"), Some(AttributeValue::DecimalInteger(3))));
    assert!(attrs.get("A").is_none());
    assert!(attrs.contains_key("B"));
}

#[test]
fn uri_encode_then_decode() {
    let raw = "a b/ç?&=#%";
    assert_eq!(decode(&encode(raw)).unwrap(), raw);
}

#[test]
fn profile_codes_round_trip() {
    let (p, c) = AvcProfile::High.hex_codes();
    assert_eq!(AvcProfile::from_idc(p, c).unwrap(), AvcProfile::High);
    assert_eq!(HevcProfile::from_idc(HevcProfile::Main10.profile_idc()).unwrap(), HevcProfile::Main10);
    assert_eq!(Vp9Profile::from_number(Vp9Profile::Profile2.number()).unwrap(), Vp9Profile::Profile2);
    assert_eq!(
        VpChromaSubsampling::from_number(VpChromaSubsampling::Vertical.number()).unwrap(),
        VpChromaSubsampling::Vertical
    );
}

#[test]
fn duplicate_shared_tag_leaves_playlist_unchanged() {
    let mut playlist = MediaPlaylist::default();
    playlist.apply_shared_tag(SharedTag::Version(3)).unwrap();
    assert!(playlist.apply_shared_tag(SharedTag::Version(3)).is_err());
    assert_eq!(playlist.get_shared_tags(), vec![&SharedTag::Version(3)]);
}

#[test]
fn first_line_must_be_extm3u() {
    let e = Playlist::parse("#EXT-X-VERSION:3\n").unwrap_err();
    assert!(matches!(e, ParseError::InvalidLine(_)));
}

#[test]
fn mixed_playlist_types_refused() {
    let e = Playlist::parse("#EXTM3U\n#EXT-X-TARGETDURATION:10\n#EXT-X-MEDIA:TYPE=AUDIO,GROUP-ID=\"a\",NAME=\"x\"\n");
    assert!(matches!(e, Err(ParseError::MixedPlaylistTypes)));
}

#[test]
fn media_sequence_after_segment_accepted() {
    // The order check only counts segments it is told about, and the parser tells it of none.
    let p = Playlist::parse("#EXTM3U\n#EXTINF:4,\na.ts\n#EXT-X-MEDIA-SEQUENCE:3\n");
    assert!(p.is_ok());
}

#[test]
fn unknown_tag_reports_its_line() {
    let e = Playlist::parse("#EXTM3U\n#EXT-X-NOPE\n").unwrap_err();
    match e {
        ParseError::UnknownTag { tag, span } => {
            assert_eq!(tag, "#EXT-X-NOPE");
            assert_eq!(span.line, 2);
        },
        other => panic!("unexpected {:?}", other),
    }
}

#[test]
fn segments_take_media_sequence_numbers() {
    let p = parse("#EXTM3U\n#EXT-X-MEDIA-SEQUENCE:7\n#EXTINF:4,\na.ts\n#EXTINF:4,\nb.ts\n");
    let m = p.as_media().unwrap();
    let segs = m.get_segments();
    assert_eq!(segs[0].get_media_sequence(), 7);
    assert_eq!(segs[1].get_media_sequence(), 8);
}

#[test]
fn validate_missing_version() {
    let p = parse("#EXTM3U\n#EXT-X-TARGETDURATION:10\n#EXTINF:4,\na.ts\n");
    assert!(matches!(p.validate(), Err(ValidationError::MissingRequiredTag(t)) if t == "#EXT-X-VERSION"));
}

#[test]
fn validate_fractional_duration_needs_version_3() {
    let p = parse("#EXTM3U\n#EXT-X-VERSION:2\n#EXT-X-TARGETDURATION:10\n#EXTINF:4.5,\na.ts\n");
    match p.validate() {
        Err(ValidationError::InvalidSharedTag(SharedTag::Version(2), msg)) => {
            assert!(msg.contains("3 or higher"));
        },
        other => panic!("unexpected {:?}", other),
    }
}

#[test]
fn validate_target_duration_exceeded() {
    let p = parse("#EXTM3U\n#EXT-X-VERSION:3\n#EXT-X-TARGETDURATION:4\n#EXTINF:4.6,\na.ts\n");
    assert!(matches!(p.validate(), Err(ValidationError::InvalidTargetDuration)));
}

#[test]
fn validate_missing_target_duration() {
    let p = parse("#EXTM3U\n#EXT-X-VERSION:3\n#EXTINF:4,\na.ts\n");
    assert!(matches!(p.validate(), Err(ValidationError::MissingRequiredTag(t)) if t == "#EXT-X-TARGETDURATION"));
}

#[test]
fn playlist_version_is_first_version_tag() {
    let p = parse("#EXTM3U\n#EXT-X-VERSION:6\n#EXT-X-TARGETDURATION:4\n");
    assert_eq!(p.version(), Some(&6));
    assert_eq!(p.get_shared_tags().len(), 1);
}

#[test]
fn text_with_control_character_refused() {
    assert!(validate_playlist_text("#EXTM3U\r\n#EXTINF:4,\n").is_ok());
    assert!(matches!(validate_playlist_text("#EXTM3U\u{7}\n"), Err(PlaylistReadError::InvalidControlCharacter('\u{7}'))));
    assert!(matches!(validate_playlist_text("a\u{85}b"), Err(PlaylistReadError::InvalidControlCharacter('\u{85}'))));
}

#[test]
fn bytes_with_bom_or_bad_utf8_refused() {
    assert!(matches!(decode_playlist_text(vec![0xef, 0xbb, 0xbf, b'#']), Err(PlaylistReadError::BomPresent)));
    assert!(matches!(decode_playlist_text(vec![b'#', 0xff]), Err(PlaylistReadError::Utf8)));
    assert_eq!(decode_playlist_text(b"#EXTM3U\n".to_vec()).unwrap(), "#EXTM3U\n");
    let p = parse_bytes_into_playlist(b"#EXTM3U\n#EXT-X-TARGETDURATION:5\n".to_vec()).unwrap();
    assert!(p.as_media().is_some());
    assert!(matches!(parse_bytes_into_playlist(b"nope\n".to_vec()), Err(PlaylistReadError::Parse(_))));
}

#[test]
fn media_playlist_renders_its_lines() {
    let text = "#EXTM3U\n#EXT-X-VERSION:3\n#EXT-X-TARGETDURATION:10\n#EXTINF:9.009,first\nhttp://media.example.com/first.ts\n#EXT-X-ENDLIST\n";
    let p = parse(text);
    assert_eq!(p.to_string(), text);
}

#[test]
fn segment_renders_its_tags() {
    let text = "#EXTM3U\n#EXTINF:4,\n#EXT-X-BYTERANGE:100@5\n#EXT-X-DISCONTINUITY\n#EXT-X-GAP\n#EXT-X-BITRATE:800\nseg.ts\n";
    let p = parse(text);
    let seg = p.as_media().unwrap().get_segments()[0];
    assert_eq!(
        seg.to_string(),
        "#EXTINF:4,\n#EXT-X-BYTERANGE:100@5\n#EXT-X-DISCONTINUITY\n#EXT-X-GAP\n#EXT-X-BITRATE:800\nseg.ts\n"
    );
}

#[test]
fn start_tag_renders_precise_as_bool() {
    let tag = hls_playlist::playlist::parse_shared_tag("#EXT-X-START:TIME-OFFSET=10.5,PRECISE=YES", 1).unwrap();
    assert_eq!(tag.to_string(), "#EXT-X-START:PRECISE=true,TIME-OFFSET=10.5");
}

#[test]
fn error_messages() {
    assert_eq!(ParseError::NoPendingSegment.to_string(), "No pending segment");
    assert_eq!(ParseError::DuplicateTag("#EXT-X-VERSION".to_string()).to_string(), "Duplicate tag: #EXT-X-VERSION");
    assert_eq!(ValidationError::InvalidTargetDuration.to_string(), "Invalid target duration");
    assert_eq!(
        ValidationError::InvalidSharedTag(SharedTag::Version(2), "why".to_string()).to_string(),
        "Invalid Shared Tag (#EXT-X-VERSION:2): why"
    );
}

#[test]
fn media_playlist_lines_are_read_into_nothing() {
    let p = parse_media_playlist(&["#EXT-X-MEDIA-SEQUENCE:1".to_string()]).unwrap();
    assert!(p.items.is_empty());
}

#[test]
fn aes_128_key_and_iv_lengths_checked() {
    let e = encrypt_aes_128(b"x", &[0u8; 15], &[0u8; 16]).unwrap_err();
    assert_eq!(e.message, "AES-128 key must be 16 bytes");
    let e = encrypt_aes_128(b"x", &[0u8; 16], &[0u8; 3]).unwrap_err();
    assert_eq!(e.message, "AES-128 IV must be 16 bytes");
    let c = encrypt_aes_128(b"0123456789abcdef", &[1u8; 16], &[2u8; 16]).unwrap();
    assert_eq!(c.len(), 32);
    assert_eq!(decrypt_aes_128(&c[..31], &[1u8; 16], &[2u8; 16]).unwrap_err().message, "Padding error");
}

#[test]
fn aes_256_gcm_refuses_short_and_tampered_input() {
    assert_eq!(decrypt_aes_256_gcm(&[0u8; 31], &[1u8; 32]).unwrap_err().message, "Cipher text too short");
    let mut c = encrypt_aes_256_gcm(b"hello", &[1u8; 32], &[2u8; 16]).unwrap();
    assert_eq!(c.len(), 5 + 32);
    assert_eq!(&c[..16], &[2u8; 16]);
    c[20] ^= 1;
    assert_eq!(decrypt_aes_256_gcm(&c, &[1u8; 32]).unwrap_err().message, "aead::Error");
}

#[test]
fn decryption_needs_a_supported_key() {
    let p = parse("#EXTM3U\n#EXTINF:4,\na.ts\n");
    let seg = p.as_media().unwrap().get_segments()[0];
    assert_eq!(seg.decryption_key().unwrap_err(), "No encryption key found");
    let p = parse("#EXTM3U\n#EXT-X-MEDIA-SEQUENCE:258\n#EXT-X-KEY:METHOD=AES-128,URI=\"k.bin\"\n#EXTINF:4,\na.ts\n");
    let seg = p.as_media().unwrap().get_segments()[0];
    assert!(seg.decryption_key().is_ok());
    assert_eq!(seg.decryption_iv(), vec![0, 0, 0, 0, 0, 0, 1, 2]);
}

#[test]
fn version_tag_reads_back() {
    let tag = SharedTag::Version(7);
    let text = tag.to_string();
    assert_eq!(text, "#EXT-X-VERSION:7");
    assert_eq!(hls_playlist::playlist::parse_shared_tag(&text, 1).unwrap(), tag);
}

#[test]
fn target_duration_tag_reads_back() {
    let p = parse("#EXTM3U\n#EXT-X-TARGETDURATION:6\n");
    let text = p.to_string();
    assert_eq!(text, "#EXTM3U\n#EXT-X-TARGETDURATION:6\n");
    let again = parse(&text);
    assert_eq!(again.as_media().unwrap().get_exclusive_tags(), p.as_media().unwrap().get_exclusive_tags());
}

#[test]
fn program_date_time_renders_as_chrono_shows_it() {
    let p = parse("#EXTM3U\n#EXTINF:4,\n#EXT-X-PROGRAM-DATE-TIME:2010-02-19T14:54:23.031+08:00\na.ts\n");
    let seg = p.as_media().unwrap().get_segments()[0];
    assert_eq!(seg.to_string(), "#EXTINF:4,\n#EXT-X-PROGRAM-DATE-TIME:2010-02-19 14:54:23.031 +08:00\na.ts\n");
}

#[test]
fn date_range_renders_its_attributes() {
    // Metadata alone does not make a playlist a media playlist; a media tag does.
    let only_metadata = parse("#EXTM3U\n#EXT-X-DATERANGE:ID=\"ad\",START-DATE=\"2014-03-05T11:15:00Z\"\n");
    assert_eq!(only_metadata.to_string(), "#EXTM3U\n");
    let p = parse(
        "#EXTM3U\n#EXT-X-TARGETDURATION:6\n#EXT-X-DATERANGE:ID=\"ad\",START-DATE=\"2014-03-05T11:15:00Z\",DURATION=59.993,X-COM=\"v\"\n",
    );
    // An extension attribute keeps its name with its value, and both are written.
    assert_eq!(
        p.to_string(),
        "#EXTM3U\n#EXT-X-TARGETDURATION:6\n#EXT-X-DATERANGE:ID=ad,START-DATE=\"2014-03-05 11:15:00 +00:00\",CUE=\"\",DURATION=59.993,X-COM=\"X-COM=v\"\n"
    );
}

#[test]
fn key_iv_reads_and_writes_as_hexadecimal() {
    let p = parse("#EXTM3U\n#EXT-X-KEY:METHOD=AES-128,URI=\"k.bin\",IV=0x0102ABcd\n#EXTINF:4,\na.ts\n");
    let seg = p.as_media().unwrap().get_segments()[0];
    let key = seg.get_key().unwrap();
    assert_eq!(key.get_iv(), Some(&vec![0x01, 0x02, 0xab, 0xcd]));
    // The key format versions (by default `1`) follow the IV without an attribute name.
    assert_eq!(
        seg.to_string(),
        "#EXTINF:4,\n#EXT-X-KEY:METHOD=AES-128,URI=\"k.bin\",IV=0x0102abcd1\"\na.ts\n"
    );
    assert_eq!(seg.decryption_iv(), vec![0x01, 0x02, 0xab, 0xcd]);
}

#[test]
fn date_without_offset_is_utc() {
    let p = parse("#EXTM3U\n#EXTINF:4,\n#EXT-X-PROGRAM-DATE-TIME:2010-02-19T14:54:23.031\na.ts\n");
    let seg = p.as_media().unwrap().get_segments()[0];
    assert_eq!(seg.to_string(), "#EXTINF:4,\n#EXT-X-PROGRAM-DATE-TIME:2010-02-19 14:54:23.031 +00:00\na.ts\n");
}

#[test]
fn fourcc_error_message_quotes_the_text() {
    let e = hls_playlist::codecs::fourcc::Fourcc::of("abc").unwrap_err();
    assert_eq!(e.to_string(), "FourCC must be 4 ASCII bytes, got \"abc\"");
    assert_eq!(
        hls_playlist::codecs::fourcc::Fourcc::try_from_str("avc1x").unwrap_err(),
        "FourCC must be exactly 4 bytes"
    );
    assert_eq!(hls_playlist::codecs::fourcc::Fourcc::new(b"hvc1").to_string(), "hvc1");
}

#[test]
fn durations_round_half_away_from_zero() {
    assert_eq!(DurationValue::parse("2.5").unwrap().round(), 3);
    assert_eq!(DurationValue::parse("-2.5").unwrap().round(), -3);
    assert_eq!(DurationValue::parse("2.49").unwrap().round(), 2);
    assert_eq!(DurationValue::parse("7").unwrap().round(), 7);
    assert_eq!(DurationValue::parse("9.6").unwrap().round_u64(), 10);
    assert_eq!(DurationValue::parse("-9.6").unwrap().round_u64(), 0);
}

#[test]
fn media_playlist_reads_back_what_was_written() {
    let text = "#EXTM3U\n#EXT-X-VERSION:4\n#EXT-X-INDEPENDENT-SEGMENTS\n#EXT-X-TARGETDURATION:10\n#EXT-X-MEDIA-SEQUENCE:7\n#EXT-X-DISCONTINUITY-SEQUENCE:2\n#EXT-X-PLAYLIST-TYPE:VOD\n#EXT-X-I-FRAMES-ONLY\n#EXTINF:9.009,first\nfirst.ts\n#EXTINF:10,\n#EXT-X-BYTERANGE:500@20\n#EXT-X-DISCONTINUITY\n#EXT-X-GAP\n#EXT-X-BITRATE:900\nhttp://media.example.com:8080/second.ts\n#EXTINF:3.5\nthird.ts?token=abc\n#EXTINF:2,\nhttps://cdn.example.com\n#EXTINF:2,\nhttps://cdn.example.com/a/b.ts?t=1:2\n#EXT-X-ENDLIST\n";
    let p = parse(text);
    let written = p.to_string();
    assert_eq!(written, text);
    let again = parse(&written);
    assert_eq!(again, p);
    let segments = again.as_media().unwrap().get_segments();
    assert_eq!(segments.len(), 5);
    assert_eq!(segments[2].to_string(), "#EXTINF:3.5\nthird.ts?token=abc\n");
    assert_eq!(segments[1].uri.to_string(), "http://media.example.com:8080/second.ts");
}

#[test]
fn empty_playlist_reads_back_as_empty_media_playlist() {
    let p = parse("#EXTM3U\n");
    assert_eq!(p.to_string(), "#EXTM3U\n");
    assert_eq!(parse(&p.to_string()), p);
}

#[test]
fn shared_tags_alone_read_back_as_empty_playlist() {
    let p = parse("#EXTM3U\n#EXT-X-VERSION:3\n");
    assert_eq!(p.as_media().unwrap().get_segments().len(), 0);
    assert_eq!(p.to_string(), "#EXTM3U\n");
}

#[test]
fn media_playlist_with_part_info_reads_back() {
    let text = "#EXTM3U\n#EXT-X-TARGETDURATION:4\n#EXT-X-PART-INF:PART-TARGET=1.004\n#EXTINF:4,\nseg.ts\n";
    let p = parse(text);
    let written = p.to_string();
    assert_eq!(written, text);
    assert_eq!(parse(&written), p);
}

#[test]
fn media_playlist_with_server_control_reads_back() {
    for line in [
        "#EXT-X-SERVER-CONTROL:CAN-SKIP-UNTIL=24",
        "#EXT-X-SERVER-CONTROL:CAN-SKIP-UNTIL=24,HOLD-BACK=12.5",
        "#EXT-X-SERVER-CONTROL:CAN-SKIP-UNTIL=24,PART-HOLD-BACK=3.1",
        "#EXT-X-SERVER-CONTROL:CAN-SKIP-UNTIL=24.0,HOLD-BACK=12,PART-HOLD-BACK=3.1",
    ] {
        let text = format!("#EXTM3U\n#EXT-X-TARGETDURATION:4\n{}\n#EXTINF:4,\nseg.ts\n", line);
        let p = parse(&text);
        let written = p.to_string();
        assert_eq!(written, text);
        assert_eq!(parse(&written), p);
    }
}
