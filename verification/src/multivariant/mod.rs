//! Multivariant playlists: renditions, variant streams, session data and content steering.
use vstd::prelude::*;
use vstd::string::*;
use crate::error::{PErr, ParseError};
use crate::text::{owned, str_eq, utf8};

pub mod attrs;
pub mod stream;
pub mod rendition;
pub mod playlist;


verus! {

/// The video dynamic range of a variant.
#[derive(Debug, Clone, Copy, PartialEq, Eq, Structural)]
pub enum VideoRange {
    Sdr,
    Hlg,
    Pq,
}

/// The video range an enumerated string names.
pub open spec fn video_range_spec(s: Seq<u8>) -> Result<VideoRange, PErr> {
    if s == "SDR".spec_bytes() {
        Ok(VideoRange::Sdr)
    } else if s == "HLG".spec_bytes() {
        Ok(VideoRange::Hlg)
    } else if s == "PQ".spec_bytes() {
        Ok(VideoRange::Pq)
    } else {
        Err(
            PErr::InvalidAttributeValue {
                attribute: "VIDEO-RANGE".spec_bytes(),
                value: s,
                expected: "a valid video range",
            },
        )
    }
}

/// The name a video range goes by in a `VIDEO-RANGE` attribute.
pub open spec fn video_range_name(r: VideoRange) -> Seq<u8> {
    match r {
        VideoRange::Sdr => "SDR".spec_bytes(),
        VideoRange::Hlg => "HLG".spec_bytes(),
        VideoRange::Pq => "PQ".spec_bytes(),
    }
}

/// A `VIDEO-RANGE` value reads as a range exactly when it is that range's name: `SDR` reads
/// as SDR, `HLG` as HLG and `PQ` as PQ, each name as its own range, and no other text as any.
pub proof fn law_video_range_names(s: Seq<u8>, r: VideoRange)
    ensures
        (video_range_spec(s) == Ok::<VideoRange, PErr>(r)) <==> s == video_range_name(r),
{
    reveal_strlit("SDR");
    reveal_strlit("HLG");
    reveal_strlit("PQ");
    crate::text::lemma_ascii_str("SDR");
    crate::text::lemma_ascii_str("HLG");
    crate::text::lemma_ascii_str("PQ");
    assert("SDR".spec_bytes() != "HLG".spec_bytes()) by {
        assert("SDR".spec_bytes()[0] != "HLG".spec_bytes()[0]);
    }
    assert("SDR".spec_bytes() != "PQ".spec_bytes()) by {
        assert("SDR".spec_bytes().len() != "PQ".spec_bytes().len());
    }
    assert("HLG".spec_bytes() != "PQ".spec_bytes()) by {
        assert("HLG".spec_bytes().len() != "PQ".spec_bytes().len());
    }
}

impl VideoRange {
    /// Reads `SDR`, `HLG` or `PQ`.
    pub fn parse(s: &str) -> (r: Result<VideoRange, ParseError>)
        ensures
            match video_range_spec(s.spec_bytes()) {
                Ok(v) => r == Ok::<VideoRange, ParseError>(v),
                Err(e) => r matches Err(x) && x@ == e,
            },
    {
        if str_eq(s, "SDR") {
            Ok(VideoRange::Sdr)
        } else if str_eq(s, "HLG") {
            Ok(VideoRange::Hlg)
        } else if str_eq(s, "PQ") {
            Ok(VideoRange::Pq)
        } else {
            Err(
                ParseError::InvalidAttributeValue {
                    attribute: owned("VIDEO-RANGE"),
                    value: owned(s),
                    expected: "a valid video range",
                },
            )
        }
    }
}

impl Default for VideoRange {
    fn default() -> (r: Self)
        ensures
            r == VideoRange::Sdr,
    {
        VideoRange::Sdr
    }
}

impl std::str::FromStr for VideoRange {
    type Err = ParseError;

    fn from_str(s: &str) -> (r: Result<Self, Self::Err>)
        ensures
            match video_range_spec(s.spec_bytes()) {
                Ok(v) => r == Ok::<VideoRange, ParseError>(v),
                Err(e) => r matches Err(x) && x@ == e,
            },
    {
        VideoRange::parse(s)
    }
}

/// The HDCP level a variant needs.
#[derive(Debug, Clone, Copy, PartialEq, Eq, Structural)]
pub enum HdcpLevel {
    Type0,
    Type1,
    /// `NONE`: no output protection needed.
    NotRequired,
}

/// The HDCP level an enumerated string names.
pub open spec fn hdcp_level_spec(s: Seq<u8>) -> Result<HdcpLevel, PErr> {
    if s == "TYPE-0".spec_bytes() {
        Ok(HdcpLevel::Type0)
    } else if s == "TYPE-1".spec_bytes() {
        Ok(HdcpLevel::Type1)
    } else if s == "NONE".spec_bytes() {
        Ok(HdcpLevel::NotRequired)
    } else {
        Err(
            PErr::InvalidAttributeValue {
                attribute: "HDCP-LEVEL".spec_bytes(),
                value: s,
                expected: "a valid HDCP level",
            },
        )
    }
}

impl HdcpLevel {
    /// Reads `TYPE-0`, `TYPE-1` or `NONE`.
    pub fn parse(s: &str) -> (r: Result<HdcpLevel, ParseError>)
        ensures
            match hdcp_level_spec(s.spec_bytes()) {
                Ok(v) => r == Ok::<HdcpLevel, ParseError>(v),
                Err(e) => r matches Err(x) && x@ == e,
            },
    {
        if str_eq(s, "TYPE-0") {
            Ok(HdcpLevel::Type0)
        } else if str_eq(s, "TYPE-1") {
            Ok(HdcpLevel::Type1)
        } else if str_eq(s, "NONE") {
            Ok(HdcpLevel::NotRequired)
        } else {
            Err(
                ParseError::InvalidAttributeValue {
                    attribute: owned("HDCP-LEVEL"),
                    value: owned(s),
                    expected: "a valid HDCP level",
                },
            )
        }
    }
}

impl std::str::FromStr for HdcpLevel {
    type Err = ParseError;

    fn from_str(s: &str) -> (r: Result<Self, Self::Err>)
        ensures
            match hdcp_level_spec(s.spec_bytes()) {
                Ok(v) => r == Ok::<HdcpLevel, ParseError>(v),
                Err(e) => r matches Err(x) && x@ == e,
            },
    {
        HdcpLevel::parse(s)
    }
}

/// How the views of a stereo or mono video are laid out.
#[derive(Debug, Clone, Copy, PartialEq, Eq, Structural)]
pub enum VideoChannelSpecifier {
    Stereo,
    Mono,
}

/// The projection of a video.
#[derive(Debug, Clone, Copy, PartialEq, Eq, Structural)]
pub enum ProjectionSpecifier {
    Rect,
    Equi,
    Hequ,
    Prim,
}

/// One specifier of a `REQ-VIDEO-LAYOUT` entry.
#[derive(Debug, Clone, Copy, PartialEq, Eq, Structural)]
pub enum PresentationEntrySpecifier {
    VideoChannelSpecifier(VideoChannelSpecifier),
    ProjectionSpecifier(ProjectionSpecifier),
}

/// The specifier a piece of `REQ-VIDEO-LAYOUT` names.
pub open spec fn specifier_spec(s: Seq<u8>) -> Result<PresentationEntrySpecifier, PErr> {
    if s == "CH-STEREO".spec_bytes() {
        Ok(PresentationEntrySpecifier::VideoChannelSpecifier(VideoChannelSpecifier::Stereo))
    } else if s == "CH-MONO".spec_bytes() {
        Ok(PresentationEntrySpecifier::VideoChannelSpecifier(VideoChannelSpecifier::Mono))
    } else if s == "PROJ-RECT".spec_bytes() {
        Ok(PresentationEntrySpecifier::ProjectionSpecifier(ProjectionSpecifier::Rect))
    } else if s == "PROJ-EQUI".spec_bytes() {
        Ok(PresentationEntrySpecifier::ProjectionSpecifier(ProjectionSpecifier::Equi))
    } else if s == "PROJ-HEQU".spec_bytes() {
        Ok(PresentationEntrySpecifier::ProjectionSpecifier(ProjectionSpecifier::Hequ))
    } else if s == "PROJ-PRIM".spec_bytes() {
        Ok(PresentationEntrySpecifier::ProjectionSpecifier(ProjectionSpecifier::Prim))
    } else {
        Err(
            PErr::InvalidAttributeValue {
                attribute: "REQ-VIDEO-LAYOUT".spec_bytes(),
                value: s,
                expected: "a valid presentation entry",
            },
        )
    }
}

impl PresentationEntrySpecifier {
    /// Reads one specifier (`CH-STEREO`, `CH-MONO`, `PROJ-RECT`, `PROJ-EQUI`, `PROJ-HEQU`,
    /// `PROJ-PRIM`).
    pub fn parse(s: &str) -> (r: Result<PresentationEntrySpecifier, ParseError>)
        ensures
            match specifier_spec(s.spec_bytes()) {
                Ok(v) => r == Ok::<PresentationEntrySpecifier, ParseError>(v),
                Err(e) => r matches Err(x) && x@ == e,
            },
    {
        if str_eq(s, "CH-STEREO") {
            Ok(PresentationEntrySpecifier::VideoChannelSpecifier(VideoChannelSpecifier::Stereo))
        } else if str_eq(s, "CH-MONO") {
            Ok(PresentationEntrySpecifier::VideoChannelSpecifier(VideoChannelSpecifier::Mono))
        } else if str_eq(s, "PROJ-RECT") {
            Ok(PresentationEntrySpecifier::ProjectionSpecifier(ProjectionSpecifier::Rect))
        } else if str_eq(s, "PROJ-EQUI") {
            Ok(PresentationEntrySpecifier::ProjectionSpecifier(ProjectionSpecifier::Equi))
        } else if str_eq(s, "PROJ-HEQU") {
            Ok(PresentationEntrySpecifier::ProjectionSpecifier(ProjectionSpecifier::Hequ))
        } else if str_eq(s, "PROJ-PRIM") {
            Ok(PresentationEntrySpecifier::ProjectionSpecifier(ProjectionSpecifier::Prim))
        } else {
            Err(
                ParseError::InvalidAttributeValue {
                    attribute: owned("REQ-VIDEO-LAYOUT"),
                    value: owned(s),
                    expected: "a valid presentation entry",
                },
            )
        }
    }
}

impl std::str::FromStr for PresentationEntrySpecifier {
    type Err = ParseError;

    fn from_str(s: &str) -> (r: Result<Self, Self::Err>)
        ensures
            match specifier_spec(s.spec_bytes()) {
                Ok(v) => r == Ok::<PresentationEntrySpecifier, ParseError>(v),
                Err(e) => r matches Err(x) && x@ == e,
            },
    {
        PresentationEntrySpecifier::parse(s)
    }
}

/// One `/`-separated entry of `REQ-VIDEO-LAYOUT`.
#[derive(Debug, Clone, PartialEq, Eq)]
pub struct ViewPresentationEntry(pub Vec<PresentationEntrySpecifier>);

/// A content-protection configuration a variant allows: a key format and its labels.
#[derive(Debug, Clone, PartialEq, Eq)]
pub struct AllowedCpcEntry {
    pub keyformat: String,
    pub labels: Vec<String>,
}

/// An allowed-CPC entry with its text as bytes.
pub struct AllowedCpcEntryV {
    pub keyformat: Seq<u8>,
    pub labels: Seq<Seq<u8>>,
}

impl View for AllowedCpcEntry {
    type V = AllowedCpcEntryV;

    open spec fn view(&self) -> AllowedCpcEntryV {
        AllowedCpcEntryV {
            keyformat: utf8(self.keyformat@),
            labels: crate::attribute_list::strings_view(self.labels@),
        }
    }
}

} // verus!
