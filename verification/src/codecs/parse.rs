//! Parsing of codec strings.
use vstd::prelude::*;
use vstd::string::*;
use vstd::slice::slice_subrange;
use crate::codecs::fourcc::{Fourcc, fourcc_of_spec};
use crate::codecs::{
    AvcCodec, AvcProfile, Codec, CodecV, DolbyVision, DolbyVisionBase, GenericCodec, Hevc,
    HevcProfile, HevcTier, Mp4aCodec, Mp4vCodec, SupplementalCodecEntry, SupplementalCodecEntryV,
    Vp9, Vp9Profile, VpChromaSubsampling, strings_bytes,
};
use crate::error::{CodecErr, CodecParseError, SupplementalCodecParseError, SupplementalErr};
use crate::num::{IntErrorKind, parse_uint, parse_uint_spec};
use crate::text::{bytes, owned, split, split_once, split_once_str, split_str, trim, trim_spec, utf8};

verus! {

/* Specification */

/// ASCII lowercase of a byte.
pub open spec fn lower_byte(b: u8) -> u8 {
    if 0x41 <= b <= 0x5a {
        (b + 32) as u8
    } else {
        b
    }
}

/// ASCII lowercase of a byte string.
pub open spec fn lower(s: Seq<u8>) -> Seq<u8> {
    Seq::new(s.len(), |i: int| lower_byte(s[i]))
}

/// A hexadecimal field of at most `max`.
pub open spec fn hex_field(s: Seq<u8>, field: Seq<char>, max: nat) -> Result<nat, CodecErr> {
    match parse_uint_spec(s, true, max) {
        Ok(v) => Ok(v),
        Err(k) => Err(CodecErr::InvalidHex { field, inner: k }),
    }
}

/// A decimal field of at most `max`.
pub open spec fn dec_field(s: Seq<u8>, field: Seq<char>, max: nat) -> Result<nat, CodecErr> {
    match parse_uint_spec(s, false, max) {
        Ok(v) => Ok(v),
        Err(k) => Err(CodecErr::InvalidDecimal { field, inner: k }),
    }
}

/// The AVC profile of a (profile_idc, constraint byte) pair; constraint flags in
/// precedence order per ITU-T H.264 Annex A.
pub open spec fn avc_profile_from_idc_spec(p: u8, c: u8) -> Result<AvcProfile, CodecErr> {
    if p == 0x42 && c & 0x40 != 0 {
        Ok(AvcProfile::ConstrainedBaseline)
    } else if p == 0x42 {
        Ok(AvcProfile::Baseline)
    } else if p == 0x4D {
        Ok(AvcProfile::Main)
    } else if p == 0x58 {
        Ok(AvcProfile::Extended)
    } else if p == 0x64 && c & 0x0C == 0x0C {
        Ok(AvcProfile::ConstrainedHigh)
    } else if p == 0x64 && c & 0x08 != 0 {
        Ok(AvcProfile::ProgressiveHigh)
    } else if p == 0x64 {
        Ok(AvcProfile::High)
    } else if p == 0x6E && c & 0x10 != 0 {
        Ok(AvcProfile::High10Intra)
    } else if p == 0x6E {
        Ok(AvcProfile::High10)
    } else if p == 0x7A && c & 0x10 != 0 {
        Ok(AvcProfile::High422Intra)
    } else if p == 0x7A {
        Ok(AvcProfile::High422)
    } else if p == 0xF4 && c & 0x10 != 0 {
        Ok(AvcProfile::High444Intra)
    } else if p == 0xF4 {
        Ok(AvcProfile::High444Predictive)
    } else if p == 0x2C {
        Ok(AvcProfile::CAVLC444Intra)
    } else if p == 0x53 && c & 0x04 != 0 {
        Ok(AvcProfile::ScalableConstrainedBaseline)
    } else if p == 0x53 {
        Ok(AvcProfile::ScalableBaseline)
    } else if p == 0x56 && c & 0x10 != 0 {
        Ok(AvcProfile::ScalableHighIntra)
    } else if p == 0x56 && c & 0x04 != 0 {
        Ok(AvcProfile::ScalableConstrainedHigh)
    } else if p == 0x56 {
        Ok(AvcProfile::ScalableHigh)
    } else if p == 0x80 {
        Ok(AvcProfile::StereoHigh)
    } else if p == 0x76 {
        Ok(AvcProfile::MultiviewHigh)
    } else if p == 0x8A {
        Ok(AvcProfile::MultiviewDepthHigh)
    } else {
        Err(CodecErr::UnknownAvcProfile(p))
    }
}

/// The HEVC profile of a `general_profile_idc`.
pub open spec fn hevc_profile_from_idc_spec(idc: u8) -> Result<HevcProfile, CodecErr> {
    if idc == 1 {
        Ok(HevcProfile::Main)
    } else if idc == 2 {
        Ok(HevcProfile::Main10)
    } else if idc == 3 {
        Ok(HevcProfile::MainStillPicture)
    } else if idc == 4 {
        Ok(HevcProfile::RangeExtensions)
    } else if idc == 5 {
        Ok(HevcProfile::HighThroughput)
    } else if idc == 6 {
        Ok(HevcProfile::MultiviewMain)
    } else if idc == 7 {
        Ok(HevcProfile::ScalableMain)
    } else if idc == 8 {
        Ok(HevcProfile::ThreeDMain)
    } else if idc == 9 {
        Ok(HevcProfile::ScreenExtended)
    } else if idc == 10 {
        Ok(HevcProfile::ScalableRangeExtensions)
    } else if idc == 11 {
        Ok(HevcProfile::HighThroughputScreenExtended)
    } else {
        Err(CodecErr::UnknownHevcProfile(idc))
    }
}

/// The VP9 profile of a number.
pub open spec fn vp9_profile_spec(n: u8) -> Result<Vp9Profile, CodecErr> {
    if n == 0 {
        Ok(Vp9Profile::Profile0)
    } else if n == 1 {
        Ok(Vp9Profile::Profile1)
    } else if n == 2 {
        Ok(Vp9Profile::Profile2)
    } else if n == 3 {
        Ok(Vp9Profile::Profile3)
    } else {
        Err(CodecErr::UnknownVp9Profile(n))
    }
}

/// The chroma subsampling of a number.
pub open spec fn chroma_spec(n: u8) -> Result<VpChromaSubsampling, CodecErr> {
    if n == 0 {
        Ok(VpChromaSubsampling::Vertical)
    } else if n == 1 {
        Ok(VpChromaSubsampling::Horizontal)
    } else if n == 2 {
        Ok(VpChromaSubsampling::Reserved)
    } else if n == 3 {
        Ok(VpChromaSubsampling::Full)
    } else {
        Err(CodecErr::InvalidChroma(n))
    }
}

/// `mp4a.[hex oti].[decimal audio object type]`: the third part is the rest of the string.
pub open spec fn mp4a_spec(s: Seq<u8>) -> Result<Mp4aCodec, CodecErr> {
    match split_once(s, 0x2e) {
        None => Err(CodecErr::MissingField("oti"@)),
        Some((_, rest)) => {
            let (oti_s, aot_s) = match split_once(rest, 0x2e) {
                Some((a, b)) => (a, Some(b)),
                None => (rest, None),
            };
            match hex_field(oti_s, "oti"@, 0xffff) {
                Err(e) => Err(e),
                Ok(oti) => match aot_s {
                    None => Ok(Mp4aCodec { oti: oti as u16, audio_object_type: None }),
                    Some(a) => match dec_field(a, "audio_object_type"@, 0xffff) {
                        Err(e) => Err(e),
                        Ok(aot) => Ok(
                            Mp4aCodec { oti: oti as u16, audio_object_type: Some(aot as u16) },
                        ),
                    },
                },
            }
        },
    }
}

/// `mp4v.[hex oti].[decimal profile-level]`: the third part is the rest of the string.
pub open spec fn mp4v_spec(s: Seq<u8>) -> Result<Mp4vCodec, CodecErr> {
    match split_once(s, 0x2e) {
        None => Err(CodecErr::MissingField("oti"@)),
        Some((_, rest)) => {
            let (oti_s, pl_s) = match split_once(rest, 0x2e) {
                Some((a, b)) => (a, Some(b)),
                None => (rest, None),
            };
            match hex_field(oti_s, "oti"@, 0xffff) {
                Err(e) => Err(e),
                Ok(oti) => match pl_s {
                    None => Ok(Mp4vCodec { oti: oti as u16, profile_level_indication: None }),
                    Some(a) => match dec_field(a, "profile_level_indication"@, 0xffff) {
                        Err(e) => Err(e),
                        Ok(pl) => Ok(
                            Mp4vCodec {
                                oti: oti as u16,
                                profile_level_indication: Some(pl as u16),
                            },
                        ),
                    },
                },
            }
        },
    }
}

/// `[fourcc].PPCCLL`, three hexadecimal bytes.
pub open spec fn avc_spec(s: Seq<u8>) -> Result<AvcCodec, CodecErr> {
    match split_once(s, 0x2e) {
        None => Err(CodecErr::MissingField("profile+constraint+level"@)),
        Some((f, h)) => if h.len() != 6 {
            Err(
                CodecErr::WrongHexLength {
                    field: "avc profile+constraint+level"@,
                    expected: 6,
                    got: h.len(),
                },
            )
        } else {
            match fourcc_of_spec(f) {
                Err(e) => Err(e),
                Ok(fourcc) => match hex_field(h.subrange(0, 2), "profile_idc"@, 0xff) {
                    Err(e) => Err(e),
                    Ok(p) => match hex_field(h.subrange(2, 4), "constraint_byte"@, 0xff) {
                        Err(e) => Err(e),
                        Ok(c) => match hex_field(h.subrange(4, 6), "level"@, 0xff) {
                            Err(e) => Err(e),
                            Ok(l) => match avc_profile_from_idc_spec(p as u8, c as u8) {
                                Err(e) => Err(e),
                                Ok(profile) => Ok(
                                    AvcCodec { fourcc, profile, level: l as u8 },
                                ),
                            },
                        },
                    },
                },
            }
        },
    }
}

/// The constraint pair of an HEVC string, from its fourth and fifth parts.
pub open spec fn hevc_constraint_spec(parts: Seq<Seq<u8>>) -> Result<Option<(Fourcc, u32)>, CodecErr> {
    if parts.len() >= 5 {
        match fourcc_of_spec(parts[3]) {
            Err(e) => Err(e),
            Ok(c) => match hex_field(parts[4], "constraint_val"@, 0xffff_ffff) {
                Err(e) => Err(e),
                Ok(v) => Ok(Some((c, v as u32))),
            },
        }
    } else if parts.len() == 4 {
        Err(CodecErr::MissingField("constraint requires both a 4CC and a value"@))
    } else {
        Ok(None)
    }
}

/// `[fourcc].[hex profile_idc].[hex tier+level][.[constraint 4CC].[hex constraint value]]`
pub open spec fn hevc_spec(s: Seq<u8>) -> Result<Hevc, CodecErr> {
    let parts = split(s, 0x2e);
    if parts.len() < 2 {
        Err(CodecErr::MissingField("profile_idc"@))
    } else if parts.len() < 3 {
        Err(CodecErr::MissingField("tier+level"@))
    } else {
        match fourcc_of_spec(parts[0]) {
            Err(e) => Err(e),
            Ok(fourcc) => match hex_field(parts[1], "profile_idc"@, 0xff) {
                Err(e) => Err(e),
                Ok(idc) => match hevc_profile_from_idc_spec(idc as u8) {
                    Err(e) => Err(e),
                    Ok(profile) => match hex_field(parts[2], "tier+level"@, 0xff) {
                        Err(e) => Err(e),
                        Ok(lb) => match hevc_constraint_spec(parts) {
                            Err(e) => Err(e),
                            Ok(constraint) => Ok(
                                Hevc {
                                    profile,
                                    tier: if (lb as u8) & 0x80 != 0 {
                                        HevcTier::High
                                    } else {
                                        HevcTier::Main
                                    },
                                    level: (lb as u8) & 0x7f,
                                    constraint,
                                    fourcc,
                                },
                            ),
                        },
                    },
                },
            },
        }
    }
}

/// `vp09.[profile].[level].[bit depth].[chroma]`, all decimal.
pub open spec fn vp9_spec(s: Seq<u8>) -> Result<Vp9, CodecErr> {
    let parts = split(s, 0x2e);
    if parts.len() < 2 {
        Err(CodecErr::MissingField("profile"@))
    } else {
        match dec_field(parts[1], "profile"@, 0xff) {
            Err(e) => Err(e),
            Ok(pn) => match vp9_profile_spec(pn as u8) {
                Err(e) => Err(e),
                Ok(profile) => if parts.len() < 3 {
                    Err(CodecErr::MissingField("level"@))
                } else {
                    match dec_field(parts[2], "level"@, 0xff) {
                        Err(e) => Err(e),
                        Ok(level) => if parts.len() < 4 {
                            Err(CodecErr::MissingField("bit_depth"@))
                        } else {
                            match dec_field(parts[3], "bit_depth"@, 0xff) {
                                Err(e) => Err(e),
                                Ok(bd) => if parts.len() < 5 {
                                    Err(CodecErr::MissingField("chroma"@))
                                } else {
                                    match dec_field(parts[4], "chroma"@, 0xff) {
                                        Err(e) => Err(e),
                                        Ok(cn) => match chroma_spec(cn as u8) {
                                            Err(e) => Err(e),
                                            Ok(chroma) => Ok(
                                                Vp9 {
                                                    profile,
                                                    level: level as u8,
                                                    bit_depth: bd as u8,
                                                    chroma,
                                                },
                                            ),
                                        },
                                    }
                                },
                            }
                        },
                    }
                },
            },
        }
    }
}

/// The Dolby Vision kind of a four-character code, if it is one.
pub open spec fn dolby_base_spec(f: Seq<u8>) -> Option<DolbyVisionBase> {
    if f == seq![0x64u8, 0x76, 0x68, 0x31] {
        Some(DolbyVisionBase::Dvh1)
    } else if f == seq![0x64u8, 0x76, 0x68, 0x65] {
        Some(DolbyVisionBase::Dvhe)
    } else if f == seq![0x64u8, 0x76, 0x61, 0x31] {
        Some(DolbyVisionBase::Dva1)
    } else if f == seq![0x64u8, 0x76, 0x61, 0x76] {
        Some(DolbyVisionBase::Dvav)
    } else {
        None
    }
}

/// `[dvh1|dvhe|dva1|dvav].[decimal profile].[decimal level]`
pub open spec fn dolby_spec(s: Seq<u8>) -> Result<DolbyVision, CodecErr> {
    let parts = split(s, 0x2e);
    match dolby_base_spec(parts[0]) {
        None => Err(CodecErr::InvalidFourcc(parts[0])),
        Some(base) => if parts.len() < 2 {
            Err(CodecErr::MissingField("dv_profile"@))
        } else {
            match dec_field(parts[1], "dv_profile"@, 0xff) {
                Err(e) => Err(e),
                Ok(profile) => if parts.len() < 3 {
                    Err(CodecErr::MissingField("dv_level"@))
                } else {
                    match dec_field(parts[2], "dv_level"@, 0xff) {
                        Err(e) => Err(e),
                        Ok(level) => Ok(
                            DolbyVision { base, profile: profile as u8, level: level as u8 },
                        ),
                    }
                },
            }
        },
    }
}

/// The kinds dispatched on (compared after ASCII lowercasing of the first part).
pub open spec fn kind_mp4a() -> Seq<u8> {
    seq![0x6du8, 0x70, 0x34, 0x61]
}

pub open spec fn kind_mp4v() -> Seq<u8> {
    seq![0x6du8, 0x70, 0x34, 0x76]
}

pub open spec fn kind_avc_prefix() -> Seq<u8> {
    seq![0x61u8, 0x76, 0x63]
}

pub open spec fn is_hevc_kind(k: Seq<u8>) -> bool {
    k == seq![0x68u8, 0x65, 0x76, 0x31] || k == seq![0x68u8, 0x76, 0x63, 0x31] || k == seq![
        0x68u8,
        0x65,
        0x76,
        0x32,
    ]
}

pub open spec fn is_vp9_kind(k: Seq<u8>) -> bool {
    k == seq![0x76u8, 0x70, 0x30, 0x39] || k == seq![0x76u8, 0x70, 0x39]
}

pub open spec fn is_dolby_kind(k: Seq<u8>) -> bool {
    k == seq![0x64u8, 0x76, 0x68, 0x31] || k == seq![0x64u8, 0x76, 0x68, 0x65] || k == seq![
        0x64u8,
        0x76,
        0x61,
        0x76,
    ] || k == seq![0x64u8, 0x76, 0x61, 0x31]
}

/// Wraps a parse result.
pub open spec fn wrap<T>(r: Result<T, CodecErr>, f: spec_fn(T) -> CodecV) -> Result<CodecV, CodecErr> {
    match r {
        Ok(x) => Ok(f(x)),
        Err(e) => Err(e),
    }
}

/// The codec a codec string denotes, dispatched on its first part (ASCII case-insensitively).
pub open spec fn codec_spec(s: Seq<u8>) -> Result<CodecV, CodecErr> {
    if s.len() == 0 {
        Err(CodecErr::Empty)
    } else {
        let kind = lower(split(s, 0x2e)[0]);
        if kind == kind_mp4a() {
            wrap(mp4a_spec(s), |c| CodecV::Mp4a(c))
        } else if kind == kind_mp4v() {
            wrap(mp4v_spec(s), |c| CodecV::Mp4v(c))
        } else if kind.len() >= 3 && kind.subrange(0, 3) == kind_avc_prefix() {
            wrap(avc_spec(s), |c| CodecV::Avc(c))
        } else if is_hevc_kind(kind) {
            wrap(hevc_spec(s), |c| CodecV::Hevc(c))
        } else if is_vp9_kind(kind) {
            wrap(vp9_spec(s), |c| CodecV::Vp9(c))
        } else if is_dolby_kind(kind) {
            wrap(dolby_spec(s), |c| CodecV::DolbyVision(c))
        } else {
            Ok(CodecV::Unknown(split(s, 0x2e)))
        }
    }
}

/// An exec result related to a specified one.
pub open spec fn codec_result(r: Result<Codec, CodecParseError>, s: Result<CodecV, CodecErr>) -> bool {
    match s {
        Ok(c) => r matches Ok(x) && x@ == c,
        Err(e) => r matches Err(x) && x@ == e,
    }
}

/// The codecs of a `CODECS` value: comma-separated, each trimmed; the first failure and its index.
pub open spec fn codecs_attr_spec(s: Seq<u8>) -> Result<Seq<CodecV>, (nat, CodecErr)> {
    codecs_list_spec(split(s, 0x2c), 0)
}

pub open spec fn codecs_list_spec(parts: Seq<Seq<u8>>, i: nat) -> Result<Seq<CodecV>, (nat, CodecErr)>
    decreases parts.len() - i,
{
    if i >= parts.len() {
        Ok(Seq::empty())
    } else {
        match codec_spec(trim_spec(parts[i as int])) {
            Err(e) => Err((i, e)),
            Ok(c) => match codecs_list_spec(parts, i + 1) {
                Ok(rest) => Ok(seq![c] + rest),
                Err(e) => Err(e),
            },
        }
    }
}

/* Exec */

/// Parses a hexadecimal field into a `u8`.
pub fn hex_u8(s: &[u8], field: &'static str) -> (r: Result<u8, CodecParseError>)
    ensures
        match hex_field(s@, field@, 0xff) {
            Ok(v) => r == Ok::<u8, CodecParseError>(v as u8),
            Err(e) => r matches Err(x) && x@ == e,
        },
{
    match parse_uint(s, true, 0xff) {
        Ok(v) => Ok(v as u8),
        Err(inner) => Err(CodecParseError::InvalidHex { field, inner }),
    }
}

/// Parses a hexadecimal field into a `u16`.
pub fn hex_u16(s: &[u8], field: &'static str) -> (r: Result<u16, CodecParseError>)
    ensures
        match hex_field(s@, field@, 0xffff) {
            Ok(v) => r == Ok::<u16, CodecParseError>(v as u16),
            Err(e) => r matches Err(x) && x@ == e,
        },
{
    match parse_uint(s, true, 0xffff) {
        Ok(v) => Ok(v as u16),
        Err(inner) => Err(CodecParseError::InvalidHex { field, inner }),
    }
}

/// Parses a hexadecimal field into a `u32`.
pub fn hex_u32(s: &[u8], field: &'static str) -> (r: Result<u32, CodecParseError>)
    ensures
        match hex_field(s@, field@, 0xffff_ffff) {
            Ok(v) => r == Ok::<u32, CodecParseError>(v as u32),
            Err(e) => r matches Err(x) && x@ == e,
        },
{
    match parse_uint(s, true, 0xffff_ffff) {
        Ok(v) => Ok(v as u32),
        Err(inner) => Err(CodecParseError::InvalidHex { field, inner }),
    }
}

/// Parses a decimal field into a `u8`.
pub fn dec_u8(s: &[u8], field: &'static str) -> (r: Result<u8, CodecParseError>)
    ensures
        match dec_field(s@, field@, 0xff) {
            Ok(v) => r == Ok::<u8, CodecParseError>(v as u8),
            Err(e) => r matches Err(x) && x@ == e,
        },
{
    match parse_uint(s, false, 0xff) {
        Ok(v) => Ok(v as u8),
        Err(inner) => Err(CodecParseError::InvalidDecimal { field, inner }),
    }
}

/// Parses a decimal field into a `u16`.
pub fn dec_u16(s: &[u8], field: &'static str) -> (r: Result<u16, CodecParseError>)
    ensures
        match dec_field(s@, field@, 0xffff) {
            Ok(v) => r == Ok::<u16, CodecParseError>(v as u16),
            Err(e) => r matches Err(x) && x@ == e,
        },
{
    match parse_uint(s, false, 0xffff) {
        Ok(v) => Ok(v as u16),
        Err(inner) => Err(CodecParseError::InvalidDecimal { field, inner }),
    }
}

/// Parses a decimal field into a `u32`.
pub fn dec_u32(s: &[u8], field: &'static str) -> (r: Result<u32, CodecParseError>)
    ensures
        match dec_field(s@, field@, 0xffff_ffff) {
            Ok(v) => r == Ok::<u32, CodecParseError>(v as u32),
            Err(e) => r matches Err(x) && x@ == e,
        },
{
    match parse_uint(s, false, 0xffff_ffff) {
        Ok(v) => Ok(v as u32),
        Err(inner) => Err(CodecParseError::InvalidDecimal { field, inner }),
    }
}

impl AvcProfile {
    /// The profile of a raw (profile_idc, constraint byte) pair.
    pub fn from_idc(p: u8, c: u8) -> (r: Result<Self, CodecParseError>)
        ensures
            match avc_profile_from_idc_spec(p, c) {
                Ok(v) => r == Ok::<AvcProfile, CodecParseError>(v),
                Err(e) => r matches Err(x) && x@ == e,
            },
    {
        if p == 0x42 && c & 0x40 != 0 {
            Ok(AvcProfile::ConstrainedBaseline)
        } else if p == 0x42 {
            Ok(AvcProfile::Baseline)
        } else if p == 0x4D {
            Ok(AvcProfile::Main)
        } else if p == 0x58 {
            Ok(AvcProfile::Extended)
        } else if p == 0x64 && c & 0x0C == 0x0C {
            Ok(AvcProfile::ConstrainedHigh)
        } else if p == 0x64 && c & 0x08 != 0 {
            Ok(AvcProfile::ProgressiveHigh)
        } else if p == 0x64 {
            Ok(AvcProfile::High)
        } else if p == 0x6E && c & 0x10 != 0 {
            Ok(AvcProfile::High10Intra)
        } else if p == 0x6E {
            Ok(AvcProfile::High10)
        } else if p == 0x7A && c & 0x10 != 0 {
            Ok(AvcProfile::High422Intra)
        } else if p == 0x7A {
            Ok(AvcProfile::High422)
        } else if p == 0xF4 && c & 0x10 != 0 {
            Ok(AvcProfile::High444Intra)
        } else if p == 0xF4 {
            Ok(AvcProfile::High444Predictive)
        } else if p == 0x2C {
            Ok(AvcProfile::CAVLC444Intra)
        } else if p == 0x53 && c & 0x04 != 0 {
            Ok(AvcProfile::ScalableConstrainedBaseline)
        } else if p == 0x53 {
            Ok(AvcProfile::ScalableBaseline)
        } else if p == 0x56 && c & 0x10 != 0 {
            Ok(AvcProfile::ScalableHighIntra)
        } else if p == 0x56 && c & 0x04 != 0 {
            Ok(AvcProfile::ScalableConstrainedHigh)
        } else if p == 0x56 {
            Ok(AvcProfile::ScalableHigh)
        } else if p == 0x80 {
            Ok(AvcProfile::StereoHigh)
        } else if p == 0x76 {
            Ok(AvcProfile::MultiviewHigh)
        } else if p == 0x8A {
            Ok(AvcProfile::MultiviewDepthHigh)
        } else {
            Err(CodecParseError::UnknownAvcProfile(p))
        }
    }
}

impl HevcProfile {
    /// The profile of a `general_profile_idc`.
    pub fn from_idc(idc: u8) -> (r: Result<Self, CodecParseError>)
        ensures
            match hevc_profile_from_idc_spec(idc) {
                Ok(v) => r == Ok::<HevcProfile, CodecParseError>(v),
                Err(e) => r matches Err(x) && x@ == e,
            },
    {
        if idc == 1 {
            Ok(HevcProfile::Main)
        } else if idc == 2 {
            Ok(HevcProfile::Main10)
        } else if idc == 3 {
            Ok(HevcProfile::MainStillPicture)
        } else if idc == 4 {
            Ok(HevcProfile::RangeExtensions)
        } else if idc == 5 {
            Ok(HevcProfile::HighThroughput)
        } else if idc == 6 {
            Ok(HevcProfile::MultiviewMain)
        } else if idc == 7 {
            Ok(HevcProfile::ScalableMain)
        } else if idc == 8 {
            Ok(HevcProfile::ThreeDMain)
        } else if idc == 9 {
            Ok(HevcProfile::ScreenExtended)
        } else if idc == 10 {
            Ok(HevcProfile::ScalableRangeExtensions)
        } else if idc == 11 {
            Ok(HevcProfile::HighThroughputScreenExtended)
        } else {
            Err(CodecParseError::UnknownHevcProfile(idc))
        }
    }
}

impl Vp9Profile {
    /// The profile of a number.
    pub fn from_number(n: u8) -> (r: Result<Self, CodecParseError>)
        ensures
            match vp9_profile_spec(n) {
                Ok(v) => r == Ok::<Vp9Profile, CodecParseError>(v),
                Err(e) => r matches Err(x) && x@ == e,
            },
    {
        if n == 0 {
            Ok(Vp9Profile::Profile0)
        } else if n == 1 {
            Ok(Vp9Profile::Profile1)
        } else if n == 2 {
            Ok(Vp9Profile::Profile2)
        } else if n == 3 {
            Ok(Vp9Profile::Profile3)
        } else {
            Err(CodecParseError::UnknownVp9Profile(n))
        }
    }
}

impl VpChromaSubsampling {
    /// The subsampling of a number.
    pub fn from_number(n: u8) -> (r: Result<Self, CodecParseError>)
        ensures
            match chroma_spec(n) {
                Ok(v) => r == Ok::<VpChromaSubsampling, CodecParseError>(v),
                Err(e) => r matches Err(x) && x@ == e,
            },
    {
        if n == 0 {
            Ok(VpChromaSubsampling::Vertical)
        } else if n == 1 {
            Ok(VpChromaSubsampling::Horizontal)
        } else if n == 2 {
            Ok(VpChromaSubsampling::Reserved)
        } else if n == 3 {
            Ok(VpChromaSubsampling::Full)
        } else {
            Err(CodecParseError::InvalidChroma(n))
        }
    }
}

/// The first part of a codec string and the rest after its first `.`, if any.
fn first_part(s: &str) -> (r: (&str, Option<&str>))
    ensures
        match split_once(s.spec_bytes(), 0x2e) {
            Some((a, b)) => r.0.spec_bytes() == a && (r.1 matches Some(x) && x.spec_bytes() == b),
            None => r.0.spec_bytes() == s.spec_bytes() && r.1 is None,
        },
{
    match split_once_str(s, 0x2e) {
        Some((a, b)) => (a, Some(b)),
        None => (s, None),
    }
}

/// Parses `mp4a.[hex oti].[decimal audio object type]`.
pub fn parse_mp4a(s: &str) -> (r: Result<Mp4aCodec, CodecParseError>)
    ensures
        match mp4a_spec(s.spec_bytes()) {
            Ok(v) => r == Ok::<Mp4aCodec, CodecParseError>(v),
            Err(e) => r matches Err(x) && x@ == e,
        },
{
    let rest = match first_part(s).1 {
        Some(rest) => rest,
        None => {
            return Err(CodecParseError::MissingField("oti"));
        },
    };
    let (oti_s, aot_s) = first_part(rest);
    let oti = match hex_u16(bytes(oti_s), "oti") {
        Ok(v) => v,
        Err(e) => {
            return Err(e);
        },
    };
    match aot_s {
        None => Ok(Mp4aCodec { oti, audio_object_type: None }),
        Some(a) => match dec_u16(bytes(a), "audio_object_type") {
            Ok(aot) => Ok(Mp4aCodec { oti, audio_object_type: Some(aot) }),
            Err(e) => Err(e),
        },
    }
}

/// Parses `mp4v.[hex oti].[decimal profile-level]`.
pub fn parse_mp4v(s: &str) -> (r: Result<Mp4vCodec, CodecParseError>)
    ensures
        match mp4v_spec(s.spec_bytes()) {
            Ok(v) => r == Ok::<Mp4vCodec, CodecParseError>(v),
            Err(e) => r matches Err(x) && x@ == e,
        },
{
    let rest = match first_part(s).1 {
        Some(rest) => rest,
        None => {
            return Err(CodecParseError::MissingField("oti"));
        },
    };
    let (oti_s, pl_s) = first_part(rest);
    let oti = match hex_u16(bytes(oti_s), "oti") {
        Ok(v) => v,
        Err(e) => {
            return Err(e);
        },
    };
    match pl_s {
        None => Ok(Mp4vCodec { oti, profile_level_indication: None }),
        Some(a) => match dec_u16(bytes(a), "profile_level_indication") {
            Ok(pl) => Ok(Mp4vCodec { oti, profile_level_indication: Some(pl) }),
            Err(e) => Err(e),
        },
    }
}

/// Parses `[fourcc].PPCCLL`.
pub fn parse_avc(s: &str) -> (r: Result<AvcCodec, CodecParseError>)
    ensures
        match avc_spec(s.spec_bytes()) {
            Ok(v) => r == Ok::<AvcCodec, CodecParseError>(v),
            Err(e) => r matches Err(x) && x@ == e,
        },
{
    let (f, h) = match split_once_str(s, 0x2e) {
        Some(p) => p,
        None => {
            return Err(CodecParseError::MissingField("profile+constraint+level"));
        },
    };
    let hb = bytes(h);
    if hb.len() != 6 {
        return Err(
            CodecParseError::WrongHexLength {
                field: "avc profile+constraint+level",
                expected: 6,
                got: hb.len(),
            },
        );
    }
    let fourcc = match Fourcc::of(f) {
        Ok(x) => x,
        Err(e) => {
            return Err(e);
        },
    };
    let p = match hex_u8(slice_subrange(hb, 0, 2), "profile_idc") {
        Ok(x) => x,
        Err(e) => {
            return Err(e);
        },
    };
    let c = match hex_u8(slice_subrange(hb, 2, 4), "constraint_byte") {
        Ok(x) => x,
        Err(e) => {
            return Err(e);
        },
    };
    let level = match hex_u8(slice_subrange(hb, 4, 6), "level") {
        Ok(x) => x,
        Err(e) => {
            return Err(e);
        },
    };
    match AvcProfile::from_idc(p, c) {
        Ok(profile) => Ok(AvcCodec { fourcc, profile, level }),
        Err(e) => Err(e),
    }
}

/// Parses `[fourcc].[profile_idc].[tier+level][.[constraint 4CC].[constraint value]]`.
pub fn parse_hevc(s: &str) -> (r: Result<Hevc, CodecParseError>)
    ensures
        match hevc_spec(s.spec_bytes()) {
            Ok(v) => r == Ok::<Hevc, CodecParseError>(v),
            Err(e) => r matches Err(x) && x@ == e,
        },
{
    let parts = split_str(s, 0x2e);
    let ghost ps = split(s.spec_bytes(), 0x2e);
    if parts.len() < 2 {
        return Err(CodecParseError::MissingField("profile_idc"));
    }
    if parts.len() < 3 {
        return Err(CodecParseError::MissingField("tier+level"));
    }
    let fourcc = match Fourcc::of(parts[0]) {
        Ok(x) => x,
        Err(e) => {
            return Err(e);
        },
    };
    let idc = match hex_u8(bytes(parts[1]), "profile_idc") {
        Ok(x) => x,
        Err(e) => {
            return Err(e);
        },
    };
    let profile = match HevcProfile::from_idc(idc) {
        Ok(x) => x,
        Err(e) => {
            return Err(e);
        },
    };
    let level_byte = match hex_u8(bytes(parts[2]), "tier+level") {
        Ok(x) => x,
        Err(e) => {
            return Err(e);
        },
    };
    let tier = if level_byte & 0x80 != 0 {
        HevcTier::High
    } else {
        HevcTier::Main
    };
    let level = level_byte & 0x7f;
    let constraint = if parts.len() >= 5 {
        let c = match Fourcc::of(parts[3]) {
            Ok(x) => x,
            Err(e) => {
                return Err(e);
            },
        };
        let v = match hex_u32(bytes(parts[4]), "constraint_val") {
            Ok(x) => x,
            Err(e) => {
                return Err(e);
            },
        };
        Some((c, v))
    } else if parts.len() == 4 {
        return Err(CodecParseError::MissingField("constraint requires both a 4CC and a value"));
    } else {
        None
    };
    Ok(Hevc { profile, tier, level, constraint, fourcc })
}

/// Parses `vp09.[profile].[level].[bit depth].[chroma]`.
pub fn parse_vp9(s: &str) -> (r: Result<Vp9, CodecParseError>)
    ensures
        match vp9_spec(s.spec_bytes()) {
            Ok(v) => r == Ok::<Vp9, CodecParseError>(v),
            Err(e) => r matches Err(x) && x@ == e,
        },
{
    let parts = split_str(s, 0x2e);
    if parts.len() < 2 {
        return Err(CodecParseError::MissingField("profile"));
    }
    let pn = match dec_u8(bytes(parts[1]), "profile") {
        Ok(x) => x,
        Err(e) => {
            return Err(e);
        },
    };
    let profile = match Vp9Profile::from_number(pn) {
        Ok(x) => x,
        Err(e) => {
            return Err(e);
        },
    };
    if parts.len() < 3 {
        return Err(CodecParseError::MissingField("level"));
    }
    let level = match dec_u8(bytes(parts[2]), "level") {
        Ok(x) => x,
        Err(e) => {
            return Err(e);
        },
    };
    if parts.len() < 4 {
        return Err(CodecParseError::MissingField("bit_depth"));
    }
    let bit_depth = match dec_u8(bytes(parts[3]), "bit_depth") {
        Ok(x) => x,
        Err(e) => {
            return Err(e);
        },
    };
    if parts.len() < 5 {
        return Err(CodecParseError::MissingField("chroma"));
    }
    let cn = match dec_u8(bytes(parts[4]), "chroma") {
        Ok(x) => x,
        Err(e) => {
            return Err(e);
        },
    };
    match VpChromaSubsampling::from_number(cn) {
        Ok(chroma) => Ok(Vp9 { profile, level, bit_depth, chroma }),
        Err(e) => Err(e),
    }
}

/// Whether two byte strings are equal.
pub fn bytes_eq(a: &[u8], b: &[u8]) -> (r: bool)
    ensures
        r == (a@ == b@),
{
    if a.len() != b.len() {
        return false;
    }
    let mut i: usize = 0;
    while i < a.len()
        invariant
            a.len() == b.len(),
            i <= a.len(),
            forall|j: int| 0 <= j < i ==> a@[j] == b@[j],
        decreases a.len() - i,
    {
        if a[i] != b[i] {
            return false;
        }
        i = i + 1;
    }
    proof {
        assert(a@ =~= b@);
    }
    true
}

impl DolbyVisionBase {
    /// The kind of a four-character code (`dvh1`, `dvhe`, `dva1`, `dvav`), if it is one.
    pub fn from_fourcc(s: &str) -> (r: Option<Self>)
        ensures
            r == dolby_base_spec(s.spec_bytes()),
    {
        let b = bytes(s);
        if bytes_eq(b, &[0x64u8, 0x76, 0x68, 0x31]) {
            Some(DolbyVisionBase::Dvh1)
        } else if bytes_eq(b, &[0x64u8, 0x76, 0x68, 0x65]) {
            Some(DolbyVisionBase::Dvhe)
        } else if bytes_eq(b, &[0x64u8, 0x76, 0x61, 0x31]) {
            Some(DolbyVisionBase::Dva1)
        } else if bytes_eq(b, &[0x64u8, 0x76, 0x61, 0x76]) {
            Some(DolbyVisionBase::Dvav)
        } else {
            None
        }
    }
}

/// Parses `[dvh1|dvhe|dva1|dvav].[profile].[level]`.
pub fn parse_dolby_vision(s: &str) -> (r: Result<DolbyVision, CodecParseError>)
    ensures
        match dolby_spec(s.spec_bytes()) {
            Ok(v) => r == Ok::<DolbyVision, CodecParseError>(v),
            Err(e) => r matches Err(x) && x@ == e,
        },
{
    let parts = split_str(s, 0x2e);
    let base = match DolbyVisionBase::from_fourcc(parts[0]) {
        Some(b) => b,
        None => {
            return Err(CodecParseError::InvalidFourcc(owned(parts[0])));
        },
    };
    if parts.len() < 2 {
        return Err(CodecParseError::MissingField("dv_profile"));
    }
    let profile = match dec_u8(bytes(parts[1]), "dv_profile") {
        Ok(x) => x,
        Err(e) => {
            return Err(e);
        },
    };
    if parts.len() < 3 {
        return Err(CodecParseError::MissingField("dv_level"));
    }
    match dec_u8(bytes(parts[2]), "dv_level") {
        Ok(level) => Ok(DolbyVision { base, profile, level }),
        Err(e) => Err(e),
    }
}

/// The dot-separated parts of a codec of unknown kind.
pub fn parse_generic(s: &str) -> (r: Result<GenericCodec, CodecParseError>)
    ensures
        s.spec_bytes().len() == 0 ==> r matches Err(CodecParseError::Empty),
        s.spec_bytes().len() != 0 ==> (r matches Ok(g) && strings_bytes(g.parts@) == split(
            s.spec_bytes(),
            0x2e,
        )),
{
    if bytes(s).len() == 0 {
        return Err(CodecParseError::Empty);
    }
    let parts = split_str(s, 0x2e);
    let mut out: Vec<String> = Vec::new();
    let mut i: usize = 0;
    while i < parts.len()
        invariant
            i <= parts@.len(),
            out@.len() == i,
            forall|k: int| 0 <= k < i ==> utf8(#[trigger] out@[k]@) == parts@[k].spec_bytes(),
        decreases parts.len() - i,
    {
        out.push(owned(parts[i]));
        i = i + 1;
    }
    proof {
        assert(strings_bytes(out@) =~= split(s.spec_bytes(), 0x2e));
    }
    Ok(GenericCodec { parts: out })
}

/// ASCII lowercase of the first part of a codec string.
fn kind_of(s: &str) -> (r: Vec<u8>)
    ensures
        r@ == lower(split(s.spec_bytes(), 0x2e)[0]),
{
    let (k, _) = first_part(s);
    proof {
        lemma_split_first(s.spec_bytes(), 0x2e);
    }
    let kb = bytes(k);
    let mut out: Vec<u8> = Vec::new();
    let mut i: usize = 0;
    while i < kb.len()
        invariant
            i <= kb.len(),
            out@ =~= lower(kb@.subrange(0, i as int)),
        decreases kb.len() - i,
    {
        let c = kb[i];
        let l = if 0x41 <= c && c <= 0x5a {
            c + 32
        } else {
            c
        };
        out.push(l);
        i = i + 1;
    }
    proof {
        assert(kb@.subrange(0, kb@.len() as int) =~= kb@);
    }
    out
}

/// The first piece of a split is the text before the first separator.
pub proof fn lemma_split_first(s: Seq<u8>, c: u8)
    ensures
        split(s, c)[0] == match split_once(s, c) {
            Some((a, _)) => a,
            None => s,
        },
{
    if exists|i: int| crate::text::first_at(s, c, i) {
        let i = choose|i: int| crate::text::first_at(s, c, i);
        crate::text::lemma_find_some(s, c, i);
    }
}

/// Parses a codec string, dispatching on its first part (ASCII case-insensitively).
pub fn parse_codec(s: &str) -> (r: Result<Codec, CodecParseError>)
    ensures
        codec_result(r, codec_spec(s.spec_bytes())),
{
    if bytes(s).len() == 0 {
        return Err(CodecParseError::Empty);
    }
    let kind = kind_of(s);
    let k = kind.as_slice();
    if bytes_eq(k, &[0x6du8, 0x70, 0x34, 0x61]) {
        match parse_mp4a(s) {
            Ok(c) => Ok(Codec::Mp4a(c)),
            Err(e) => Err(e),
        }
    } else if bytes_eq(k, &[0x6du8, 0x70, 0x34, 0x76]) {
        match parse_mp4v(s) {
            Ok(c) => Ok(Codec::Mp4v(c)),
            Err(e) => Err(e),
        }
    } else if k.len() >= 3 && bytes_eq(slice_subrange(k, 0, 3), &[0x61u8, 0x76, 0x63]) {
        match parse_avc(s) {
            Ok(c) => Ok(Codec::Avc(c)),
            Err(e) => Err(e),
        }
    } else if bytes_eq(k, &[0x68u8, 0x65, 0x76, 0x31]) || bytes_eq(k, &[0x68u8, 0x76, 0x63, 0x31])
        || bytes_eq(k, &[0x68u8, 0x65, 0x76, 0x32]) {
        match parse_hevc(s) {
            Ok(c) => Ok(Codec::Hevc(c)),
            Err(e) => Err(e),
        }
    } else if bytes_eq(k, &[0x76u8, 0x70, 0x30, 0x39]) || bytes_eq(k, &[0x76u8, 0x70, 0x39]) {
        match parse_vp9(s) {
            Ok(c) => Ok(Codec::Vp9(c)),
            Err(e) => Err(e),
        }
    } else if bytes_eq(k, &[0x64u8, 0x76, 0x68, 0x31]) || bytes_eq(k, &[0x64u8, 0x76, 0x68, 0x65])
        || bytes_eq(k, &[0x64u8, 0x76, 0x61, 0x76]) || bytes_eq(k, &[0x64u8, 0x76, 0x61, 0x31]) {
        match parse_dolby_vision(s) {
            Ok(c) => Ok(Codec::DolbyVision(c)),
            Err(e) => Err(e),
        }
    } else {
        match parse_generic(s) {
            Ok(g) => Ok(Codec::Unknown(g)),
            Err(e) => Err(e),
        }
    }
}

impl std::str::FromStr for Codec {
    type Err = CodecParseError;

    fn from_str(s: &str) -> (r: Result<Self, Self::Err>)
        ensures
            codec_result(r, codec_spec(s.spec_bytes())),
    {
        parse_codec(s)
    }
}

/// Parses a `CODECS` value: comma-separated codec strings, each trimmed. On failure, the index
/// of the first failing entry and its error.
pub fn parse_codecs_attr(s: &str) -> (r: Result<Vec<Codec>, (usize, CodecParseError)>)
    ensures
        match codecs_attr_spec(s.spec_bytes()) {
            Ok(cs) => r matches Ok(v) && v@.len() == cs.len() && forall|k: int|
                0 <= k < cs.len() ==> (#[trigger] v@[k])@ == cs[k],
            Err((i, e)) => r matches Err((j, x)) && j == i && x@ == e,
        },
{
    let parts = split_str(s, 0x2c);
    let ghost ps = split(s.spec_bytes(), 0x2c);
    let mut out: Vec<Codec> = Vec::new();
    let mut i: usize = 0;
    while i < parts.len()
        invariant
            i <= parts@.len(),
            ps == split(s.spec_bytes(), 0x2c),
            parts@.len() == ps.len(),
            forall|k: int| 0 <= k < parts@.len() ==> #[trigger] parts@[k].spec_bytes() == ps[k],
            out@.len() == i,
            codecs_list_spec(ps, 0) == match codecs_list_spec(ps, i as nat) {
                Ok(rest) => Ok(out@.map_values(|c: Codec| c@) + rest),
                Err(e) => Err::<Seq<CodecV>, (nat, CodecErr)>(e),
            },
        decreases parts.len() - i,
    {
        let t = trim(parts[i]);
        match parse_codec(t) {
            Ok(c) => {
                let ghost before = out@.map_values(|c: Codec| c@);
                out.push(c);
                proof {
                    match codecs_list_spec(ps, (i + 1) as nat) {
                        Ok(rest) => {
                            assert(out@.map_values(|c: Codec| c@) =~= before + seq![c@]);
                            assert(before + (seq![c@] + rest) =~= out@.map_values(
                                |c: Codec| c@,
                            ) + rest);
                        },
                        Err(_) => {},
                    }
                }
            },
            Err(e) => {
                return Err((i, e));
            },
        }
        i = i + 1;
    }
    proof {
        assert(out@.map_values(|c: Codec| c@) + Seq::<CodecV>::empty() =~= out@.map_values(
            |c: Codec| c@,
        ));
    }
    Ok(out)
}

} // verus!

verus! {

/* Laws */

/// Decoding the (profile_idc, constraint byte) pair of an AVC profile gives the profile back.
pub proof fn law_avc_profile_codes_roundtrip(p: AvcProfile)
    ensures
        avc_profile_from_idc_spec(
            crate::codecs::avc_hex_codes(p).0,
            crate::codecs::avc_hex_codes(p).1,
        ) == Ok::<AvcProfile, CodecErr>(p),
{
    assert(0x40u8 & 0x40 != 0) by (bit_vector);
    assert(0x00u8 & 0x40 == 0 && 0x00u8 & 0x0C != 0x0C && 0x00u8 & 0x08 == 0 && 0x00u8 & 0x10 == 0
        && 0x00u8 & 0x04 == 0) by (bit_vector);
    assert(0x08u8 & 0x0C != 0x0C && 0x08u8 & 0x08 != 0) by (bit_vector);
    assert(0x0Cu8 & 0x0C == 0x0C) by (bit_vector);
    assert(0x10u8 & 0x10 != 0) by (bit_vector);
    assert(0x04u8 & 0x04 != 0 && 0x04u8 & 0x10 == 0) by (bit_vector);
}

/// Decoding the `general_profile_idc` of an HEVC profile gives the profile back.
pub proof fn law_hevc_profile_idc_roundtrip(p: HevcProfile)
    ensures
        hevc_profile_from_idc_spec(crate::codecs::hevc_profile_idc(p)) == Ok::<HevcProfile, CodecErr>(p),
{
}

/// Decoding the number of a VP9 profile or of a chroma subsampling gives it back.
pub proof fn law_vp9_numbers_roundtrip(p: Vp9Profile, c: VpChromaSubsampling)
    ensures
        vp9_profile_spec(crate::codecs::vp9_profile_number(p)) == Ok::<Vp9Profile, CodecErr>(p),
        chroma_spec(crate::codecs::chroma_number(c)) == Ok::<VpChromaSubsampling, CodecErr>(c),
{
}

} // verus!
