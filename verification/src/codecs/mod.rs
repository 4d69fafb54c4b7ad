//! Codec strings (RFC 6381) as they appear in `CODECS` attributes.
pub mod fourcc;
pub mod parse;
pub mod render;
pub mod round_trip;
pub mod supplemental;

use vstd::prelude::*;
use crate::codecs::fourcc::Fourcc;
use crate::text::utf8;

verus! {

/// A parsed codec string.
#[derive(Debug, Clone, PartialEq)]
pub enum Codec {
    Mp4a(Mp4aCodec),
    Mp4v(Mp4vCodec),
    Avc(AvcCodec),
    Hevc(Hevc),
    Vp9(Vp9),
    DolbyVision(DolbyVision),
    Unknown(GenericCodec),
}

/// `vp09.[profile].[level].[bit depth].[chroma]`
#[derive(Debug, Clone, Copy, PartialEq)]
pub struct Vp9 {
    pub profile: Vp9Profile,
    /// level * 10 (e.g. 1.0 -> 10, 3.1 -> 31)
    pub level: u8,
    pub bit_depth: u8,
    pub chroma: VpChromaSubsampling,
}

/// `mp4a.[hex object type].[decimal audio object type]`, e.g. `mp4a.40.2`.
#[derive(Debug, Clone, Copy, PartialEq, Eq)]
pub struct Mp4aCodec {
    pub oti: u16,
    pub audio_object_type: Option<u16>,
}

/// `mp4v.[hex object type].[decimal profile-level]`, e.g. `mp4v.20.9`.
#[derive(Debug, Clone, Copy, PartialEq, Eq)]
pub struct Mp4vCodec {
    pub oti: u16,
    pub profile_level_indication: Option<u16>,
}

/// `avc1.PPCCLL` (or `avc2`, `avc3`, ...).
#[derive(Debug, Clone, Copy, PartialEq)]
pub struct AvcCodec {
    pub fourcc: Fourcc,
    pub profile: AvcProfile,
    /// level * 10 (e.g. 1.0 -> 10, 3.1 -> 31)
    pub level: u8,
}

/// A codec of an unknown kind, kept as its dot-separated parts.
#[derive(Debug, Clone, PartialEq, Eq)]
pub struct GenericCodec {
    pub parts: Vec<String>,
}

/// The base-layer kinds of Dolby Vision codec strings.
#[derive(Debug, Clone, Copy, PartialEq, Eq, Structural)]
pub enum DolbyVisionBase {
    /// `dvh1`: HEVC, parameter sets in the sample entry (`hvc1`).
    Dvh1,
    /// `dvhe`: HEVC, parameter sets in band (`hev1`).
    Dvhe,
    /// `dva1`: AVC, parameter sets in the sample entry (`avc1`).
    Dva1,
    /// `dvav`: AVC, parameter sets in band (`avc3`).
    Dvav,
}

/// `dvh1.[profile].[level]` and the other Dolby Vision kinds.
#[derive(Debug, Clone, Copy, PartialEq, Eq)]
pub struct DolbyVision {
    pub base: DolbyVisionBase,
    pub profile: u8,
    pub level: u8,
}

/// One entry of a `SUPPLEMENTAL-CODECS` value: a codec and its compatibility brands.
#[derive(Debug, Clone, PartialEq)]
pub struct SupplementalCodecEntry {
    pub codec: Codec,
    pub brands: Vec<Fourcc>,
}

#[derive(Debug, Clone, Copy, PartialEq, Eq, Structural)]
pub enum AvcProfile {
    ConstrainedBaseline,
    Baseline,
    Main,
    Extended,
    High,
    ProgressiveHigh,
    ConstrainedHigh,
    High10,
    High422,
    High444Predictive,
    High10Intra,
    High422Intra,
    High444Intra,
    CAVLC444Intra,
    ScalableBaseline,
    ScalableConstrainedBaseline,
    ScalableHigh,
    ScalableConstrainedHigh,
    ScalableHighIntra,
    StereoHigh,
    MultiviewHigh,
    MultiviewDepthHigh,
}

#[derive(Debug, Clone, Copy, PartialEq, Eq, Structural)]
pub enum HevcProfile {
    Main,
    Main10,
    MainStillPicture,
    RangeExtensions,
    HighThroughput,
    MultiviewMain,
    ScalableMain,
    ThreeDMain,
    ScreenExtended,
    ScalableRangeExtensions,
    HighThroughputScreenExtended,
}

#[derive(Debug, Clone, Copy, PartialEq, Eq, Structural)]
pub enum HevcTier {
    Main,
    High,
}

/// VP chroma subsampling; its number is 0 to 3 in declaration order.
#[derive(Debug, Clone, Copy, PartialEq, Eq, Structural)]
pub enum VpChromaSubsampling {
    /// 4:0:0 (0)
    Vertical,
    /// 4:2:0 (1)
    Horizontal,
    /// 4:2:2 (2)
    Reserved,
    /// 4:4:4 (3)
    Full,
}

/// `hev1.[profile].[tier+level][.[constraint 4CC].[constraint value]]`
#[derive(Debug, Clone, Copy, PartialEq)]
pub struct Hevc {
    pub profile: HevcProfile,
    pub tier: HevcTier,
    /// level * 30
    pub level: u8,
    pub constraint: Option<(Fourcc, u32)>,
    pub fourcc: Fourcc,
}

/// VP9 profiles; their number is 0 to 3 in declaration order.
#[derive(Debug, Clone, Copy, PartialEq, Eq, Structural)]
pub enum Vp9Profile {
    Profile0,
    Profile1,
    Profile2,
    Profile3,
}

/// A codec with its text parts as bytes.
pub enum CodecV {
    Mp4a(Mp4aCodec),
    Mp4v(Mp4vCodec),
    Avc(AvcCodec),
    Hevc(Hevc),
    Vp9(Vp9),
    DolbyVision(DolbyVision),
    Unknown(Seq<Seq<u8>>),
}

/// The bytes of each string.
pub open spec fn strings_bytes(v: Seq<String>) -> Seq<Seq<u8>> {
    Seq::new(v.len(), |i: int| utf8(v[i]@))
}

impl View for Codec {
    type V = CodecV;

    open spec fn view(&self) -> CodecV {
        match self {
            Codec::Mp4a(c) => CodecV::Mp4a(*c),
            Codec::Mp4v(c) => CodecV::Mp4v(*c),
            Codec::Avc(c) => CodecV::Avc(*c),
            Codec::Hevc(c) => CodecV::Hevc(*c),
            Codec::Vp9(c) => CodecV::Vp9(*c),
            Codec::DolbyVision(c) => CodecV::DolbyVision(*c),
            Codec::Unknown(g) => CodecV::Unknown(strings_bytes(g.parts@)),
        }
    }
}

/// A supplemental entry with its codec viewed.
pub struct SupplementalCodecEntryV {
    pub codec: CodecV,
    pub brands: Seq<Fourcc>,
}

impl View for SupplementalCodecEntry {
    type V = SupplementalCodecEntryV;

    open spec fn view(&self) -> SupplementalCodecEntryV {
        SupplementalCodecEntryV { codec: self.codec@, brands: self.brands@ }
    }
}

/// The (profile_idc, constraint byte) pair of each AVC profile (ITU-T H.264 Annex A).
pub open spec fn avc_hex_codes(p: AvcProfile) -> (u8, u8) {
    match p {
        AvcProfile::ConstrainedBaseline => (0x42, 0x40),
        AvcProfile::Baseline => (0x42, 0x00),
        AvcProfile::Main => (0x4D, 0x00),
        AvcProfile::Extended => (0x58, 0x00),
        AvcProfile::High => (0x64, 0x00),
        AvcProfile::ProgressiveHigh => (0x64, 0x08),
        AvcProfile::ConstrainedHigh => (0x64, 0x0C),
        AvcProfile::High10 => (0x6E, 0x00),
        AvcProfile::High422 => (0x7A, 0x00),
        AvcProfile::High444Predictive => (0xF4, 0x00),
        AvcProfile::High10Intra => (0x6E, 0x10),
        AvcProfile::High422Intra => (0x7A, 0x10),
        AvcProfile::High444Intra => (0xF4, 0x10),
        AvcProfile::CAVLC444Intra => (0x2C, 0x00),
        AvcProfile::ScalableBaseline => (0x53, 0x00),
        AvcProfile::ScalableConstrainedBaseline => (0x53, 0x04),
        AvcProfile::ScalableHigh => (0x56, 0x00),
        AvcProfile::ScalableConstrainedHigh => (0x56, 0x04),
        AvcProfile::ScalableHighIntra => (0x56, 0x10),
        AvcProfile::StereoHigh => (0x80, 0x00),
        AvcProfile::MultiviewHigh => (0x76, 0x00),
        AvcProfile::MultiviewDepthHigh => (0x8A, 0x00),
    }
}

/// The `general_profile_idc` of each HEVC profile.
pub open spec fn hevc_profile_idc(p: HevcProfile) -> u8 {
    match p {
        HevcProfile::Main => 1,
        HevcProfile::Main10 => 2,
        HevcProfile::MainStillPicture => 3,
        HevcProfile::RangeExtensions => 4,
        HevcProfile::HighThroughput => 5,
        HevcProfile::MultiviewMain => 6,
        HevcProfile::ScalableMain => 7,
        HevcProfile::ThreeDMain => 8,
        HevcProfile::ScreenExtended => 9,
        HevcProfile::ScalableRangeExtensions => 10,
        HevcProfile::HighThroughputScreenExtended => 11,
    }
}

/// The number of a VP9 profile.
pub open spec fn vp9_profile_number(p: Vp9Profile) -> u8 {
    match p {
        Vp9Profile::Profile0 => 0,
        Vp9Profile::Profile1 => 1,
        Vp9Profile::Profile2 => 2,
        Vp9Profile::Profile3 => 3,
    }
}

/// The number of a chroma subsampling.
pub open spec fn chroma_number(c: VpChromaSubsampling) -> u8 {
    match c {
        VpChromaSubsampling::Vertical => 0,
        VpChromaSubsampling::Horizontal => 1,
        VpChromaSubsampling::Reserved => 2,
        VpChromaSubsampling::Full => 3,
    }
}

impl AvcProfile {
    /// (profile_idc, constraint byte), based on ITU-T H.264 Annex A.
    pub fn hex_codes(&self) -> (r: (u8, u8))
        ensures
            r == avc_hex_codes(*self),
    {
        match self {
            AvcProfile::ConstrainedBaseline => (0x42, 0x40),
            AvcProfile::Baseline => (0x42, 0x00),
            AvcProfile::Main => (0x4D, 0x00),
            AvcProfile::Extended => (0x58, 0x00),
            AvcProfile::High => (0x64, 0x00),
            AvcProfile::ProgressiveHigh => (0x64, 0x08),
            AvcProfile::ConstrainedHigh => (0x64, 0x0C),
            AvcProfile::High10 => (0x6E, 0x00),
            AvcProfile::High422 => (0x7A, 0x00),
            AvcProfile::High444Predictive => (0xF4, 0x00),
            AvcProfile::High10Intra => (0x6E, 0x10),
            AvcProfile::High422Intra => (0x7A, 0x10),
            AvcProfile::High444Intra => (0xF4, 0x10),
            AvcProfile::CAVLC444Intra => (0x2C, 0x00),
            AvcProfile::ScalableBaseline => (0x53, 0x00),
            AvcProfile::ScalableConstrainedBaseline => (0x53, 0x04),
            AvcProfile::ScalableHigh => (0x56, 0x00),
            AvcProfile::ScalableConstrainedHigh => (0x56, 0x04),
            AvcProfile::ScalableHighIntra => (0x56, 0x10),
            AvcProfile::StereoHigh => (0x80, 0x00),
            AvcProfile::MultiviewHigh => (0x76, 0x00),
            AvcProfile::MultiviewDepthHigh => (0x8A, 0x00),
        }
    }
}

impl HevcProfile {
    /// The `general_profile_idc` of the profile.
    pub fn profile_idc(&self) -> (r: u8)
        ensures
            r == hevc_profile_idc(*self),
    {
        match self {
            HevcProfile::Main => 1,
            HevcProfile::Main10 => 2,
            HevcProfile::MainStillPicture => 3,
            HevcProfile::RangeExtensions => 4,
            HevcProfile::HighThroughput => 5,
            HevcProfile::MultiviewMain => 6,
            HevcProfile::ScalableMain => 7,
            HevcProfile::ThreeDMain => 8,
            HevcProfile::ScreenExtended => 9,
            HevcProfile::ScalableRangeExtensions => 10,
            HevcProfile::HighThroughputScreenExtended => 11,
        }
    }
}

impl Vp9Profile {
    /// The number of the profile.
    pub fn number(&self) -> (r: u8)
        ensures
            r == vp9_profile_number(*self),
    {
        match self {
            Vp9Profile::Profile0 => 0,
            Vp9Profile::Profile1 => 1,
            Vp9Profile::Profile2 => 2,
            Vp9Profile::Profile3 => 3,
        }
    }
}

impl VpChromaSubsampling {
    /// The number of the subsampling.
    pub fn number(&self) -> (r: u8)
        ensures
            r == chroma_number(*self),
    {
        match self {
            VpChromaSubsampling::Vertical => 0,
            VpChromaSubsampling::Horizontal => 1,
            VpChromaSubsampling::Reserved => 2,
            VpChromaSubsampling::Full => 3,
        }
    }
}

/// The four bytes of the code of each Dolby Vision base kind.
pub open spec fn dolby_fourcc(b: DolbyVisionBase) -> Fourcc {
    match b {
        DolbyVisionBase::Dvh1 => Fourcc(0x31687664),
        DolbyVisionBase::Dvhe => Fourcc(0x65687664),
        DolbyVisionBase::Dva1 => Fourcc(0x31617664),
        DolbyVisionBase::Dvav => Fourcc(0x76617664),
    }
}

/// The code of the base layer a Dolby Vision kind implies.
pub open spec fn dolby_base_fourcc(b: DolbyVisionBase) -> Fourcc {
    match b {
        DolbyVisionBase::Dvh1 => Fourcc(0x31637668),
        DolbyVisionBase::Dvhe => Fourcc(0x31766568),
        DolbyVisionBase::Dva1 => Fourcc(0x31637661),
        DolbyVisionBase::Dvav => Fourcc(0x33637661),
    }
}

impl DolbyVisionBase {
    /// The code of this kind (`dvh1`, `dvhe`, `dva1`, `dvav`).
    pub fn fourcc(&self) -> (r: Fourcc)
        ensures
            r == dolby_fourcc(*self),
    {
        match self {
            DolbyVisionBase::Dvh1 => Fourcc(0x31687664),
            DolbyVisionBase::Dvhe => Fourcc(0x65687664),
            DolbyVisionBase::Dva1 => Fourcc(0x31617664),
            DolbyVisionBase::Dvav => Fourcc(0x76617664),
        }
    }
}

impl DolbyVision {
    /// The code of the base layer (`hvc1`, `hev1`, `avc1`, `avc3`) this codec needs.
    pub fn base_codec_fourcc(&self) -> (r: Fourcc)
        ensures
            r == dolby_base_fourcc(self.base),
    {
        match self.base {
            DolbyVisionBase::Dvh1 => Fourcc(0x31637668),
            DolbyVisionBase::Dvhe => Fourcc(0x31766568),
            DolbyVisionBase::Dva1 => Fourcc(0x31637661),
            DolbyVisionBase::Dvav => Fourcc(0x33637661),
        }
    }
}

impl AvcCodec {
    /// The four-character code (`avc1`, `avc3`, ...).
    pub fn get_fourcc(&self) -> (r: Fourcc)
        ensures
            r == self.fourcc,
    {
        self.fourcc
    }
}

impl Hevc {
    /// The four-character code (`hev1`, `hvc1`, ...).
    pub fn get_fourcc(&self) -> (r: Fourcc)
        ensures
            r == self.fourcc,
    {
        self.fourcc
    }
}

impl SupplementalCodecEntry {
    /// An entry of a codec and its brands.
    pub fn new(codec: Codec, brands: Vec<Fourcc>) -> (r: Self)
        ensures
            r.codec == codec,
            r.brands == brands,
    {
        SupplementalCodecEntry { codec, brands }
    }
}

} // verus!
