//! Renditions: the `EXT-X-MEDIA` tag.
use vstd::prelude::*;
use vstd::string::*;
use crate::attribute_list::{AttrV, AttributeList, AttributeValue, attr_text, is_alnum, lookup, strings_view};
use crate::error::{PErr, ParseError};
use crate::multivariant::attrs::{opt_int_spec, opt_int_value, split_owned};
use crate::num::{parse_uint, parse_uint_spec};
use crate::playlist::{after, opt_quoted, opt_quoted_spec, opt_string_view, opt_view};
use crate::text::{bytes, has_prefix, owned, slice_ascii, split, split_once, split_once_str, split_str, str_eq, strip_prefix, utf8};
use crate::uri::{Uri, UriView, parse_spec};

verus! {

/// The kind of a rendition.
#[derive(Debug, Clone, Copy, PartialEq, Eq, Structural)]
pub enum MediaType {
    Audio,
    Video,
    Subtitles,
    ClosedCaptions,
}

/// The media types `TYPE` accepts.
pub open spec fn media_type_names() -> Seq<&'static str> {
    seq!["AUDIO", "VIDEO", "SUBTITLES", "CLOSED-CAPTIONS"]
}

fn media_type_list() -> (r: &'static [&'static str])
    ensures
        r@ == media_type_names(),
{
    let r: &'static [&'static str] = &["AUDIO", "VIDEO", "SUBTITLES", "CLOSED-CAPTIONS"];
    r
}

/// The media type an enumerated string names.
pub open spec fn media_type_spec(s: Seq<u8>) -> Result<MediaType, PErr> {
    if s == "AUDIO".spec_bytes() {
        Ok(MediaType::Audio)
    } else if s == "VIDEO".spec_bytes() {
        Ok(MediaType::Video)
    } else if s == "SUBTITLES".spec_bytes() {
        Ok(MediaType::Subtitles)
    } else if s == "CLOSED-CAPTIONS".spec_bytes() {
        Ok(MediaType::ClosedCaptions)
    } else {
        Err(PErr::InvalidEnumeratedString { value: s, expected: media_type_names() })
    }
}

impl MediaType {
    /// Reads `AUDIO`, `VIDEO`, `SUBTITLES` or `CLOSED-CAPTIONS`.
    pub fn parse(s: &str) -> (r: Result<MediaType, ParseError>)
        ensures
            match media_type_spec(s.spec_bytes()) {
                Ok(t) => r == Ok::<MediaType, ParseError>(t),
                Err(e) => r matches Err(x) && x@ == e,
            },
    {
        if str_eq(s, "AUDIO") {
            Ok(MediaType::Audio)
        } else if str_eq(s, "VIDEO") {
            Ok(MediaType::Video)
        } else if str_eq(s, "SUBTITLES") {
            Ok(MediaType::Subtitles)
        } else if str_eq(s, "CLOSED-CAPTIONS") {
            Ok(MediaType::ClosedCaptions)
        } else {
            Err(ParseError::InvalidEnumeratedString { value: owned(s), expected: media_type_list() })
        }
    }
}

impl std::str::FromStr for MediaType {
    type Err = ParseError;

    fn from_str(s: &str) -> (r: Result<Self, Self::Err>)
        ensures
            match media_type_spec(s.spec_bytes()) {
                Ok(t) => r == Ok::<MediaType, ParseError>(t),
                Err(e) => r matches Err(x) && x@ == e,
            },
    {
        MediaType::parse(s)
    }
}

/// A characteristic that the HLS specification names.
#[derive(Debug, Clone, Copy, PartialEq, Eq, Structural)]
pub enum PublicMediaCharacteristic {
    AuxiliaryContent,
    TranscribesSpokenDialog,
    DescribesMusicAndSound,
    EasyToRead,
    DescribesVideo,
    MachineGenerated,
}

/// A characteristic of a rendition: a public one, or a private one by its text.
#[derive(Debug, Clone, PartialEq, Eq)]
pub enum MediaCharacteristic {
    Public(PublicMediaCharacteristic),
    Private(String),
}

/// A characteristic with its text as bytes.
pub enum CharacteristicV {
    Public(PublicMediaCharacteristic),
    Private(Seq<u8>),
}

impl View for MediaCharacteristic {
    type V = CharacteristicV;

    open spec fn view(&self) -> CharacteristicV {
        match self {
            MediaCharacteristic::Public(p) => CharacteristicV::Public(*p),
            MediaCharacteristic::Private(s) => CharacteristicV::Private(utf8(s@)),
        }
    }
}

/// The characteristic a piece of `CHARACTERISTICS` names.
pub open spec fn characteristic_spec(s: Seq<u8>) -> CharacteristicV {
    if s == "public.accessibility.describes-music-and-sound".spec_bytes() {
        CharacteristicV::Public(PublicMediaCharacteristic::DescribesMusicAndSound)
    } else if s == "public.easy-to-read".spec_bytes() {
        CharacteristicV::Public(PublicMediaCharacteristic::EasyToRead)
    } else if s == "public.accessibility.transcribes-spoken-dialog".spec_bytes() {
        CharacteristicV::Public(PublicMediaCharacteristic::TranscribesSpokenDialog)
    } else if s == "public.accessibility.describes-video".spec_bytes() {
        CharacteristicV::Public(PublicMediaCharacteristic::DescribesVideo)
    } else if s == "public.machine-generated".spec_bytes() {
        CharacteristicV::Public(PublicMediaCharacteristic::MachineGenerated)
    } else {
        CharacteristicV::Private(s)
    }
}

fn characteristic(s: &str) -> (r: MediaCharacteristic)
    ensures
        r@ == characteristic_spec(s.spec_bytes()),
{
    if str_eq(s, "public.accessibility.describes-music-and-sound") {
        MediaCharacteristic::Public(PublicMediaCharacteristic::DescribesMusicAndSound)
    } else if str_eq(s, "public.easy-to-read") {
        MediaCharacteristic::Public(PublicMediaCharacteristic::EasyToRead)
    } else if str_eq(s, "public.accessibility.transcribes-spoken-dialog") {
        MediaCharacteristic::Public(PublicMediaCharacteristic::TranscribesSpokenDialog)
    } else if str_eq(s, "public.accessibility.describes-video") {
        MediaCharacteristic::Public(PublicMediaCharacteristic::DescribesVideo)
    } else if str_eq(s, "public.machine-generated") {
        MediaCharacteristic::Public(PublicMediaCharacteristic::MachineGenerated)
    } else {
        MediaCharacteristic::Private(owned(s))
    }
}

/// An `INSTREAM-ID`: a CEA-608 channel, a CEA-708 service, or another identifier.
#[derive(Debug, Clone, PartialEq, Eq)]
pub enum InStreamId {
    CC(u8),
    Service(u8),
    Other(String),
}

/// An in-stream identifier with its text as bytes.
pub enum InStreamIdV {
    CC(u8),
    Service(u8),
    Other(Seq<u8>),
}

impl View for InStreamId {
    type V = InStreamIdV;

    open spec fn view(&self) -> InStreamIdV {
        match self {
            InStreamId::CC(n) => InStreamIdV::CC(*n),
            InStreamId::Service(n) => InStreamIdV::Service(*n),
            InStreamId::Other(s) => InStreamIdV::Other(utf8(s@)),
        }
    }
}

impl InStreamId {
    /// Whether this is a CEA-708 service.
    pub fn is_service(&self) -> (r: bool)
        ensures
            r == (self@ is Service),
    {
        matches!(self, InStreamId::Service(_))
    }

    /// Whether this is a CEA-608 channel.
    pub fn is_cc(&self) -> (r: bool)
        ensures
            r == (self@ is CC),
    {
        matches!(self, InStreamId::CC(_))
    }

    /// Whether this is another identifier.
    pub fn is_other(&self) -> (r: bool)
        ensures
            r == (self@ is Other),
    {
        matches!(self, InStreamId::Other(_))
    }
}

/// The error for an `INSTREAM-ID` that is not of its form.
pub open spec fn instream_error(t: Seq<u8>, expected: &'static str) -> PErr {
    PErr::InvalidAttributeValue { attribute: "INSTREAM-ID".spec_bytes(), value: t, expected }
}

/// The identifier a quoted `INSTREAM-ID` names: `CC<n>`, `SERVICE<n>` (with `n` a byte), or a
/// non-empty run of letters, digits and `.`.
pub open spec fn instream_id_spec(t: Seq<u8>) -> Result<InStreamIdV, PErr> {
    if has_prefix(t, "CC".spec_bytes()) {
        match parse_uint_spec(after(t, "CC".spec_bytes()), false, u8::MAX as nat) {
            Ok(n) => Ok(InStreamIdV::CC(n as u8)),
            Err(_) => Err(instream_error(t, "a valid CC ID")),
        }
    } else if has_prefix(t, "SERVICE".spec_bytes()) {
        match parse_uint_spec(after(t, "SERVICE".spec_bytes()), false, u8::MAX as nat) {
            Ok(n) => Ok(InStreamIdV::Service(n as u8)),
            Err(_) => Err(instream_error(t, "a valid SERVICE ID")),
        }
    } else if t.len() > 0 && forall|i: int| 0 <= i < t.len() ==> is_alnum(#[trigger] t[i]) || t[i] == 0x2e {
        Ok(InStreamIdV::Other(t))
    } else {
        Err(instream_error(t, "a valid INSTREAM-ID"))
    }
}

fn instream_id(t: &str) -> (r: Result<InStreamId, ParseError>)
    ensures
        match instream_id_spec(t.spec_bytes()) {
            Ok(x) => r matches Ok(y) && y@ == x,
            Err(e) => r matches Err(y) && y@ == e,
        },
{
    if let Some(rest) = strip_prefix(t, "CC") {
        return match parse_uint(bytes(rest), false, u8::MAX as u64) {
            Ok(n) => Ok(InStreamId::CC(n as u8)),
            Err(_) => Err(
                ParseError::InvalidAttributeValue {
                    attribute: owned("INSTREAM-ID"),
                    value: owned(t),
                    expected: "a valid CC ID",
                },
            ),
        };
    }
    if let Some(rest) = strip_prefix(t, "SERVICE") {
        return match parse_uint(bytes(rest), false, u8::MAX as u64) {
            Ok(n) => Ok(InStreamId::Service(n as u8)),
            Err(_) => Err(
                ParseError::InvalidAttributeValue {
                    attribute: owned("INSTREAM-ID"),
                    value: owned(t),
                    expected: "a valid SERVICE ID",
                },
            ),
        };
    }
    let b = bytes(t);
    let mut ok = b.len() > 0;
    let mut i: usize = 0;
    while i < b.len()
        invariant
            i <= b@.len(),
            b@ == t.spec_bytes(),
            ok == (b@.len() > 0 && forall|k: int| 0 <= k < i ==> is_alnum(#[trigger] b@[k]) || b@[k] == 0x2e),
        decreases b.len() - i,
    {
        let c = b[i];
        let good = (0x30 <= c && c <= 0x39) || (0x41 <= c && c <= 0x5a) || (0x61 <= c && c <= 0x7a) || c == 0x2e;
        if !good {
            proof {
                assert(!(is_alnum(b@[i as int]) || b@[i as int] == 0x2e));
            }
        }
        ok = ok && good;
        i = i + 1;
    }
    if ok {
        Ok(InStreamId::Other(owned(t)))
    } else {
        Err(
            ParseError::InvalidAttributeValue {
                attribute: owned("INSTREAM-ID"),
                value: owned(t),
                expected: "a valid INSTREAM-ID",
            },
        )
    }
}

/// A special usage identifier of `CHANNELS`.
#[derive(Debug, Clone, PartialEq, Eq)]
pub enum SpecialUsageIdentifier {
    Binaural,
    Immersive,
    Downmix,
    Bed(u8),
    Dof(u8),
    Unknown(String),
}

/// A special usage identifier with its text as bytes.
pub enum SpecialV {
    Binaural,
    Immersive,
    Downmix,
    Bed(u8),
    Dof(u8),
    Unknown(Seq<u8>),
}

impl View for SpecialUsageIdentifier {
    type V = SpecialV;

    open spec fn view(&self) -> SpecialV {
        match self {
            SpecialUsageIdentifier::Binaural => SpecialV::Binaural,
            SpecialUsageIdentifier::Immersive => SpecialV::Immersive,
            SpecialUsageIdentifier::Downmix => SpecialV::Downmix,
            SpecialUsageIdentifier::Bed(n) => SpecialV::Bed(*n),
            SpecialUsageIdentifier::Dof(n) => SpecialV::Dof(*n),
            SpecialUsageIdentifier::Unknown(s) => SpecialV::Unknown(utf8(s@)),
        }
    }
}

/// The error for a bad part of `CHANNELS`; `text` is the attribute's text.
pub open spec fn channels_error(text: Seq<u8>, expected: &'static str) -> PErr {
    PErr::InvalidAttributeValue { attribute: "CHANNELS".spec_bytes(), value: text, expected }
}

/// One special usage identifier. `BED` and `DOF` are followed by one separator character and
/// a byte number; a `DOF` must be 3 or 6. When no separator character follows, the identifier
/// is refused.
pub open spec fn special_spec(s: Seq<u8>, text: Seq<u8>) -> Result<SpecialV, PErr> {
    if s == "BINAURAL".spec_bytes() {
        Ok(SpecialV::Binaural)
    } else if s == "IMMERSIVE".spec_bytes() {
        Ok(SpecialV::Immersive)
    } else if s == "DOWNMIX".spec_bytes() {
        Ok(SpecialV::Downmix)
    } else if has_prefix(s, "BED".spec_bytes()) {
        if s.len() >= 4 && s[3] < 0x80 {
            match parse_uint_spec(s.skip(4), false, u8::MAX as nat) {
                Ok(n) => Ok(SpecialV::Bed(n as u8)),
                Err(_) => Err(channels_error(text, "a valid bed identifier")),
            }
        } else {
            Err(channels_error(text, "a valid bed identifier"))
        }
    } else if has_prefix(s, "DOF".spec_bytes()) {
        if s.len() >= 4 && s[3] < 0x80 {
            match parse_uint_spec(s.skip(4), false, u8::MAX as nat) {
                Ok(n) => if n == 3 || n == 6 {
                    Ok(SpecialV::Dof(n as u8))
                } else {
                    Err(channels_error(text, "a valid DOF identifier"))
                },
                Err(_) => Err(channels_error(text, "a valid DOF identifier")),
            }
        } else {
            Err(channels_error(text, "a valid DOF identifier"))
        }
    } else {
        Ok(SpecialV::Unknown(s))
    }
}

/// The special usage identifiers from `i` on.
pub open spec fn specials_spec(parts: Seq<Seq<u8>>, i: nat, text: Seq<u8>) -> Result<Seq<SpecialV>, PErr>
    decreases parts.len() - i,
{
    if i >= parts.len() {
        Ok(Seq::empty())
    } else {
        match special_spec(parts[i as int], text) {
            Err(e) => Err(e),
            Ok(x) => match specials_spec(parts, i + 1, text) {
                Err(e) => Err(e),
                Ok(rest) => Ok(seq![x] + rest),
            },
        }
    }
}

/// The channels of an audio rendition.
#[derive(Debug, Clone, PartialEq, Eq)]
pub struct Channels {
    pub count: u64,
    pub coding_identifiers: Vec<String>,
    pub special_usage_identifiers: Vec<SpecialUsageIdentifier>,
}

/// Channels with their text as bytes.
pub struct ChannelsV {
    pub count: u64,
    pub coding_identifiers: Seq<Seq<u8>>,
    pub special_usage_identifiers: Seq<SpecialV>,
}

impl View for Channels {
    type V = ChannelsV;

    open spec fn view(&self) -> ChannelsV {
        ChannelsV {
            count: self.count,
            coding_identifiers: strings_view(self.coding_identifiers@),
            special_usage_identifiers: self.special_usage_identifiers@.map_values(
                |x: SpecialUsageIdentifier| x@,
            ),
        }
    }
}

/// The channels a quoted `CHANNELS` value `t` describes: `count[/codings[/specials]]`, the
/// last two comma-separated. A bad special usage identifier is reported before a bad count.
pub open spec fn channels_spec(t: Seq<u8>) -> Result<ChannelsV, PErr> {
    let (count_text, rest) = match split_once(t, 0x2f) {
        Some((a, b)) => (a, Some(b)),
        None => (t, None),
    };
    let (codings, specials) = match rest {
        None => (None, None),
        Some(r) => match split_once(r, 0x2f) {
            Some((a, b)) => (Some(a), Some(b)),
            None => (Some(r), None),
        },
    };
    let special = match specials {
        None => Ok(Seq::empty()),
        Some(sp) => specials_spec(split(sp, 0x2c), 0, t),
    };
    match special {
        Err(e) => Err(e),
        Ok(special_usage_identifiers) => match parse_uint_spec(count_text, false, u64::MAX as nat) {
            Err(_) => Err(channels_error(t, "a valid channel count")),
            Ok(n) => Ok(
                ChannelsV {
                    count: n as u64,
                    coding_identifiers: match codings {
                        None => Seq::empty(),
                        Some(c) => split(c, 0x2c),
                    },
                    special_usage_identifiers,
                },
            ),
        },
    }
}

fn special(s: &str, text: &str) -> (r: Result<SpecialUsageIdentifier, ParseError>)
    ensures
        match special_spec(s.spec_bytes(), text.spec_bytes()) {
            Ok(x) => r matches Ok(y) && y@ == x,
            Err(e) => r matches Err(y) && y@ == e,
        },
{
    if str_eq(s, "BINAURAL") {
        return Ok(SpecialUsageIdentifier::Binaural);
    }
    if str_eq(s, "IMMERSIVE") {
        return Ok(SpecialUsageIdentifier::Immersive);
    }
    if str_eq(s, "DOWNMIX") {
        return Ok(SpecialUsageIdentifier::Downmix);
    }
    let b = bytes(s);
    let is_bed = crate::text::starts_with(s, "BED");
    let is_dof = !is_bed && crate::text::starts_with(s, "DOF");
    if !is_bed && !is_dof {
        return Ok(SpecialUsageIdentifier::Unknown(owned(s)));
    }
    let expected = if is_bed {
        "a valid bed identifier"
    } else {
        "a valid DOF identifier"
    };
    if !(b.len() >= 4 && b[3] < 0x80) {
        return Err(ParseError::InvalidAttributeValue { attribute: owned("CHANNELS"), value: owned(text), expected });
    }
    let rest = slice_ascii(s, 4, b.len());
    proof {
        assert(rest.spec_bytes() =~= s.spec_bytes().skip(4));
    }
    match parse_uint(bytes(rest), false, u8::MAX as u64) {
        Ok(n) => {
            if is_bed {
                Ok(SpecialUsageIdentifier::Bed(n as u8))
            } else if n == 3 || n == 6 {
                Ok(SpecialUsageIdentifier::Dof(n as u8))
            } else {
                Err(ParseError::InvalidAttributeValue { attribute: owned("CHANNELS"), value: owned(text), expected })
            }
        },
        Err(_) => Err(ParseError::InvalidAttributeValue { attribute: owned("CHANNELS"), value: owned(text), expected }),
    }
}

fn specials(s: &str, text: &str) -> (r: Result<Vec<SpecialUsageIdentifier>, ParseError>)
    ensures
        match specials_spec(split(s.spec_bytes(), 0x2c), 0, text.spec_bytes()) {
            Ok(x) => r matches Ok(y) && y@.map_values(|z: SpecialUsageIdentifier| z@) == x,
            Err(e) => r matches Err(y) && y@ == e,
        },
{
    let parts = split_str(s, 0x2c);
    let ghost ps = split(s.spec_bytes(), 0x2c);
    let ghost t = text.spec_bytes();
    let mut out: Vec<SpecialUsageIdentifier> = Vec::new();
    let mut i: usize = 0;
    while i < parts.len()
        invariant
            i <= parts@.len(),
            parts@.len() == ps.len(),
            ps == split(s.spec_bytes(), 0x2c),
            t == text.spec_bytes(),
            forall|k: int| 0 <= k < parts@.len() ==> #[trigger] parts@[k].spec_bytes() == ps[k],
            specials_spec(ps, 0, t) == match specials_spec(ps, i as nat, t) {
                Ok(rest) => Ok(out@.map_values(|z: SpecialUsageIdentifier| z@) + rest),
                Err(e) => Err::<Seq<SpecialV>, PErr>(e),
            },
        decreases parts.len() - i,
    {
        proof {
            assert(parts@[i as int].spec_bytes() == ps[i as int]);
        }
        match special(parts[i], text) {
            Ok(x) => {
                let ghost o = out@;
                out.push(x);
                proof {
                    assert(out@.map_values(|z: SpecialUsageIdentifier| z@) =~= o.map_values(
                        |z: SpecialUsageIdentifier| z@,
                    ).push(x@));
                    match specials_spec(ps, (i + 1) as nat, t) {
                        Ok(rest) => assert(o.map_values(|z: SpecialUsageIdentifier| z@) + (seq![x@] + rest)
                            =~= out@.map_values(|z: SpecialUsageIdentifier| z@) + rest),
                        Err(_) => {},
                    }
                }
            },
            Err(e) => {
                return Err(e);
            },
        }
        i = i + 1;
    }
    proof {
        assert(out@.map_values(|z: SpecialUsageIdentifier| z@) + Seq::<SpecialV>::empty() =~= out@.map_values(
            |z: SpecialUsageIdentifier| z@,
        ));
    }
    Ok(out)
}

fn channels(t: &str) -> (r: Result<Channels, ParseError>)
    ensures
        match channels_spec(t.spec_bytes()) {
            Ok(x) => r matches Ok(y) && y@ == x,
            Err(e) => r matches Err(y) && y@ == e,
        },
{
    let (count_text, rest) = match split_once_str(t, 0x2f) {
        Some((a, b)) => (a, Some(b)),
        None => (t, None),
    };
    let (codings, specials_text) = match rest {
        None => (None, None),
        Some(r) => match split_once_str(r, 0x2f) {
            Some((a, b)) => (Some(a), Some(b)),
            None => (Some(r), None),
        },
    };
    let special_usage_identifiers = match specials_text {
        None => {
            let v: Vec<SpecialUsageIdentifier> = Vec::new();
            proof {
                assert(v@.map_values(|z: SpecialUsageIdentifier| z@) =~= Seq::<SpecialV>::empty());
            }
            v
        },
        Some(sp) => match specials(sp, t) {
            Ok(v) => v,
            Err(e) => {
                return Err(e);
            },
        },
    };
    let count = match parse_uint(bytes(count_text), false, u64::MAX) {
        Ok(n) => n,
        Err(_) => {
            return Err(
                ParseError::InvalidAttributeValue {
                    attribute: owned("CHANNELS"),
                    value: owned(t),
                    expected: "a valid channel count",
                },
            );
        },
    };
    let coding_identifiers = match codings {
        None => {
            let v: Vec<String> = Vec::new();
            proof {
                assert(strings_view(v@) =~= Seq::<Seq<u8>>::empty());
            }
            v
        },
        Some(c) => split_owned(c, 0x2c),
    };
    Ok(Channels { count, coding_identifiers, special_usage_identifiers })
}

/// An `EXT-X-MEDIA` tag: a rendition.
#[derive(Debug, PartialEq)]
pub struct Media {
    pub media_type: MediaType,
    pub uri: Option<Uri>,
    pub group_id: String,
    pub language: Option<String>,
    pub name: Option<String>,
    pub assoc_language: Option<String>,
    pub stable_rendition_id: Option<String>,
    pub default: bool,
    pub autoselect: bool,
    pub forced: bool,
    pub instream_id: Option<InStreamId>,
    pub bit_depth: Option<u64>,
    pub sample_rate: Option<u64>,
    pub characteristics: Vec<MediaCharacteristic>,
    pub channels: Option<Channels>,
}

/// A rendition with its text as bytes.
pub struct MediaV {
    pub media_type: MediaType,
    pub uri: Option<UriView>,
    pub group_id: Seq<u8>,
    pub language: Option<Seq<u8>>,
    pub name: Option<Seq<u8>>,
    pub assoc_language: Option<Seq<u8>>,
    pub stable_rendition_id: Option<Seq<u8>>,
    pub default: bool,
    pub autoselect: bool,
    pub forced: bool,
    pub instream_id: Option<InStreamIdV>,
    pub bit_depth: Option<u64>,
    pub sample_rate: Option<u64>,
    pub characteristics: Seq<CharacteristicV>,
    pub channels: Option<ChannelsV>,
}

impl View for Media {
    type V = MediaV;

    open spec fn view(&self) -> MediaV {
        MediaV {
            media_type: self.media_type,
            uri: match self.uri {
                Some(u) => Some(u@),
                None => None,
            },
            group_id: utf8(self.group_id@),
            language: opt_string_view(self.language),
            name: opt_string_view(self.name),
            assoc_language: opt_string_view(self.assoc_language),
            stable_rendition_id: opt_string_view(self.stable_rendition_id),
            default: self.default,
            autoselect: self.autoselect,
            forced: self.forced,
            instream_id: match self.instream_id {
                Some(i) => Some(i@),
                None => None,
            },
            bit_depth: self.bit_depth,
            sample_rate: self.sample_rate,
            characteristics: self.characteristics@.map_values(|c: MediaCharacteristic| c@),
            channels: match self.channels {
                Some(c) => Some(c@),
                None => None,
            },
        }
    }
}

/// The required `TYPE`.
pub open spec fn media_type_value_spec(v: Option<AttrV>) -> Result<MediaType, PErr> {
    match v {
        None => Err(
            PErr::InvalidAttributeValue {
                attribute: "TYPE".spec_bytes(),
                value: "NONE".spec_bytes(),
                expected: "an enumerated string",
            },
        ),
        Some(AttrV::EnumeratedString(t)) => media_type_spec(t),
        Some(x) => Err(PErr::InvalidEnumeratedString { value: attr_text(x), expected: media_type_names() }),
    }
}

/// The optional `URI` of a rendition.
pub open spec fn media_uri_spec(v: Option<AttrV>) -> Result<Option<UriView>, PErr> {
    match v {
        None => Ok(None),
        Some(AttrV::QuotedString(t)) => Ok(Some(parse_spec(t))),
        Some(_) => Err(PErr::ExpectedQuotedString),
    }
}

/// The required `GROUP-ID`.
pub open spec fn group_id_spec(v: Option<AttrV>) -> Result<Seq<u8>, PErr> {
    match v {
        None => Err(
            PErr::InvalidAttributeValue {
                attribute: "GROUP-ID".spec_bytes(),
                value: "NONE".spec_bytes(),
                expected: "a valid group ID",
            },
        ),
        Some(AttrV::QuotedString(t)) => Ok(t),
        Some(_) => Err(PErr::ExpectedQuotedString),
    }
}

/// An optional `YES`/`NO` attribute; `NO` when absent.
pub open spec fn flag_spec(v: Option<AttrV>, attribute: &'static str) -> Result<bool, PErr> {
    match v {
        None => Ok(false),
        Some(AttrV::EnumeratedString(t)) => if t == "YES".spec_bytes() {
            Ok(true)
        } else if t == "NO".spec_bytes() {
            Ok(false)
        } else {
            Err(PErr::InvalidAttributeValue { attribute: attribute.spec_bytes(), value: t, expected: "YES or NO" })
        },
        Some(x) => Err(PErr::InvalidEnumeratedString { value: attr_text(x), expected: seq!["YES", "NO"] }),
    }
}

/// The optional `INSTREAM-ID`.
pub open spec fn instream_value_spec(v: Option<AttrV>) -> Result<Option<InStreamIdV>, PErr> {
    match v {
        None => Ok(None),
        Some(AttrV::QuotedString(t)) => match instream_id_spec(t) {
            Ok(i) => Ok(Some(i)),
            Err(e) => Err(e),
        },
        Some(_) => Err(PErr::ExpectedQuotedString),
    }
}

/// The optional `CHARACTERISTICS`; none when absent.
pub open spec fn characteristics_spec(v: Option<AttrV>) -> Result<Seq<CharacteristicV>, PErr> {
    match v {
        None => Ok(Seq::empty()),
        Some(AttrV::QuotedString(t)) => Ok(split(t, 0x2c).map_values(|p: Seq<u8>| characteristic_spec(p))),
        Some(_) => Err(PErr::ExpectedQuotedString),
    }
}

/// The optional `CHANNELS`.
pub open spec fn channels_value_spec(v: Option<AttrV>) -> Result<Option<ChannelsV>, PErr> {
    match v {
        None => Ok(None),
        Some(AttrV::QuotedString(t)) => match channels_spec(t) {
            Ok(c) => Ok(Some(c)),
            Err(e) => Err(e),
        },
        Some(_) => Err(PErr::ExpectedQuotedString),
    }
}

/// The rendition an `EXT-X-MEDIA` attribute list describes. `TYPE` and `GROUP-ID` are
/// required; the attributes are read in the order of the fields, and the first that fails
/// decides the error.
pub open spec fn media_spec(m: Seq<(Seq<u8>, AttrV)>) -> Result<MediaV, PErr> {
    let media_type = media_type_value_spec(lookup(m, "TYPE".spec_bytes()));
    let uri = media_uri_spec(lookup(m, "URI".spec_bytes()));
    let group_id = group_id_spec(lookup(m, "GROUP-ID".spec_bytes()));
    let language = opt_quoted_spec(lookup(m, "LANGUAGE".spec_bytes()));
    let assoc_language = opt_quoted_spec(lookup(m, "ASSOC-LANGUAGE".spec_bytes()));
    let name = opt_quoted_spec(lookup(m, "NAME".spec_bytes()));
    let stable = opt_quoted_spec(lookup(m, "STABLE-RENDITION-ID".spec_bytes()));
    let default = flag_spec(lookup(m, "DEFAULT".spec_bytes()), "DEFAULT");
    let autoselect = flag_spec(lookup(m, "AUTOSELECT".spec_bytes()), "AUTOSELECT");
    let forced = flag_spec(lookup(m, "FORCED".spec_bytes()), "FORCED");
    let instream = instream_value_spec(lookup(m, "INSTREAM-ID".spec_bytes()));
    let bit_depth = opt_int_spec(lookup(m, "BIT-DEPTH".spec_bytes()));
    let sample_rate = opt_int_spec(lookup(m, "SAMPLE-RATE".spec_bytes()));
    let characteristics = characteristics_spec(lookup(m, "CHARACTERISTICS".spec_bytes()));
    let channels = channels_value_spec(lookup(m, "CHANNELS".spec_bytes()));
    if media_type is Err {
        Err(media_type->Err_0)
    } else if uri is Err {
        Err(uri->Err_0)
    } else if group_id is Err {
        Err(group_id->Err_0)
    } else if language is Err {
        Err(language->Err_0)
    } else if assoc_language is Err {
        Err(assoc_language->Err_0)
    } else if name is Err {
        Err(name->Err_0)
    } else if stable is Err {
        Err(stable->Err_0)
    } else if default is Err {
        Err(default->Err_0)
    } else if autoselect is Err {
        Err(autoselect->Err_0)
    } else if forced is Err {
        Err(forced->Err_0)
    } else if instream is Err {
        Err(instream->Err_0)
    } else if bit_depth is Err {
        Err(bit_depth->Err_0)
    } else if sample_rate is Err {
        Err(sample_rate->Err_0)
    } else if characteristics is Err {
        Err(characteristics->Err_0)
    } else if channels is Err {
        Err(channels->Err_0)
    } else {
        Ok(
            MediaV {
                media_type: media_type->Ok_0,
                uri: uri->Ok_0,
                group_id: group_id->Ok_0,
                language: language->Ok_0,
                name: name->Ok_0,
                assoc_language: assoc_language->Ok_0,
                stable_rendition_id: stable->Ok_0,
                default: default->Ok_0,
                autoselect: autoselect->Ok_0,
                forced: forced->Ok_0,
                instream_id: instream->Ok_0,
                bit_depth: bit_depth->Ok_0,
                sample_rate: sample_rate->Ok_0,
                characteristics: characteristics->Ok_0,
                channels: channels->Ok_0,
            },
        )
    }
}

fn yes_no_list() -> (r: &'static [&'static str])
    ensures
        r@ == seq!["YES", "NO"],
{
    crate::error::yes_no()
}

fn media_type_value(v: Option<&AttributeValue>) -> (r: Result<MediaType, ParseError>)
    ensures
        match media_type_value_spec(opt_view(v)) {
            Ok(x) => r == Ok::<MediaType, ParseError>(x),
            Err(e) => r matches Err(y) && y@ == e,
        },
{
    match v {
        None => Err(
            ParseError::InvalidAttributeValue {
                attribute: owned("TYPE"),
                value: owned("NONE"),
                expected: "an enumerated string",
            },
        ),
        Some(x) => match x.as_enumerated_string() {
            Some(t) => MediaType::parse(t),
            None => Err(ParseError::InvalidEnumeratedString { value: x.to_string(), expected: media_type_list() }),
        },
    }
}

fn media_uri(v: Option<&AttributeValue>) -> (r: Result<Option<Uri>, ParseError>)
    ensures
        match media_uri_spec(opt_view(v)) {
            Ok(x) => r matches Ok(y) && match y {
                Some(u) => x == Some(u@),
                None => x is None,
            },
            Err(e) => r matches Err(y) && y@ == e,
        },
{
    match v {
        None => Ok(None),
        Some(x) => match x.as_quoted_string() {
            Some(t) => match Uri::parse(t) {
                Ok(u) => Ok(Some(u)),
                Err(e) => Err(ParseError::InvalidUri { source: e }),
            },
            None => Err(ParseError::ExpectedQuotedString),
        },
    }
}

fn group_id(v: Option<&AttributeValue>) -> (r: Result<String, ParseError>)
    ensures
        match group_id_spec(opt_view(v)) {
            Ok(x) => r matches Ok(y) && utf8(y@) == x,
            Err(e) => r matches Err(y) && y@ == e,
        },
{
    match v {
        None => Err(
            ParseError::InvalidAttributeValue {
                attribute: owned("GROUP-ID"),
                value: owned("NONE"),
                expected: "a valid group ID",
            },
        ),
        Some(x) => match x.as_quoted_string() {
            Some(t) => Ok(owned(t)),
            None => Err(ParseError::ExpectedQuotedString),
        },
    }
}

fn flag(v: Option<&AttributeValue>, attribute: &'static str) -> (r: Result<bool, ParseError>)
    ensures
        match flag_spec(opt_view(v), attribute) {
            Ok(x) => r == Ok::<bool, ParseError>(x),
            Err(e) => r matches Err(y) && y@ == e,
        },
{
    match v {
        None => Ok(false),
        Some(x) => match x.as_enumerated_string() {
            Some(t) => if str_eq(t, "YES") {
                Ok(true)
            } else if str_eq(t, "NO") {
                Ok(false)
            } else {
                Err(ParseError::InvalidAttributeValue { attribute: owned(attribute), value: owned(t), expected: "YES or NO" })
            },
            None => Err(ParseError::InvalidEnumeratedString { value: x.to_string(), expected: yes_no_list() }),
        },
    }
}

fn instream_value(v: Option<&AttributeValue>) -> (r: Result<Option<InStreamId>, ParseError>)
    ensures
        match instream_value_spec(opt_view(v)) {
            Ok(x) => r matches Ok(y) && match y {
                Some(i) => x == Some(i@),
                None => x is None,
            },
            Err(e) => r matches Err(y) && y@ == e,
        },
{
    match v {
        None => Ok(None),
        Some(x) => match x.as_quoted_string() {
            Some(t) => match instream_id(t) {
                Ok(i) => Ok(Some(i)),
                Err(e) => Err(e),
            },
            None => Err(ParseError::ExpectedQuotedString),
        },
    }
}

fn characteristics(v: Option<&AttributeValue>) -> (r: Result<Vec<MediaCharacteristic>, ParseError>)
    ensures
        match characteristics_spec(opt_view(v)) {
            Ok(x) => r matches Ok(y) && y@.map_values(|c: MediaCharacteristic| c@) == x,
            Err(e) => r matches Err(y) && y@ == e,
        },
{
    let t = match v {
        None => {
            let r: Vec<MediaCharacteristic> = Vec::new();
            proof {
                assert(r@.map_values(|c: MediaCharacteristic| c@) =~= Seq::<CharacteristicV>::empty());
            }
            return Ok(r);
        },
        Some(x) => match x.as_quoted_string() {
            Some(t) => t,
            None => {
                return Err(ParseError::ExpectedQuotedString);
            },
        },
    };
    let parts = split_str(t, 0x2c);
    let ghost ps = split(t.spec_bytes(), 0x2c);
    let mut out: Vec<MediaCharacteristic> = Vec::new();
    let mut i: usize = 0;
    while i < parts.len()
        invariant
            i <= parts@.len(),
            parts@.len() == ps.len(),
            forall|k: int| 0 <= k < parts@.len() ==> #[trigger] parts@[k].spec_bytes() == ps[k],
            out@.map_values(|c: MediaCharacteristic| c@) == ps.take(i as int).map_values(
                |p: Seq<u8>| characteristic_spec(p),
            ),
        decreases parts.len() - i,
    {
        let c = characteristic(parts[i]);
        let ghost o = out@;
        out.push(c);
        proof {
            assert(parts@[i as int].spec_bytes() == ps[i as int]);
            assert(out@.map_values(|c: MediaCharacteristic| c@) =~= o.map_values(|c: MediaCharacteristic| c@).push(
                c@,
            ));
            assert(ps.take(i + 1) =~= ps.take(i as int).push(ps[i as int]));
            assert(out@.map_values(|c: MediaCharacteristic| c@) =~= ps.take(i + 1).map_values(
                |p: Seq<u8>| characteristic_spec(p),
            ));
        }
        i = i + 1;
    }
    proof {
        assert(ps.take(ps.len() as int) =~= ps);
    }
    Ok(out)
}

fn channels_value(v: Option<&AttributeValue>) -> (r: Result<Option<Channels>, ParseError>)
    ensures
        match channels_value_spec(opt_view(v)) {
            Ok(x) => r matches Ok(y) && match y {
                Some(c) => x == Some(c@),
                None => x is None,
            },
            Err(e) => r matches Err(y) && y@ == e,
        },
{
    match v {
        None => Ok(None),
        Some(x) => match x.as_quoted_string() {
            Some(t) => match channels(t) {
                Ok(c) => Ok(Some(c)),
                Err(e) => Err(e),
            },
            None => Err(ParseError::ExpectedQuotedString),
        },
    }
}

impl Media {
    /// The rendition an `EXT-X-MEDIA` attribute list describes.
    #[verifier::spinoff_prover]
    pub fn from_attributes(map: AttributeList) -> (r: Result<Self, ParseError>)
        ensures
            match media_spec(map@) {
                Ok(x) => r matches Ok(y) && y@ == x,
                Err(e) => r matches Err(y) && y@ == e,
            },
    {
        let media_type = match media_type_value(map.get("TYPE")) {
            Ok(x) => x,
            Err(e) => {
                return Err(e);
            },
        };
        let uri = match media_uri(map.get("URI")) {
            Ok(x) => x,
            Err(e) => {
                return Err(e);
            },
        };
        let group_id = match group_id(map.get("GROUP-ID")) {
            Ok(x) => x,
            Err(e) => {
                return Err(e);
            },
        };
        let language = match opt_quoted(map.get("LANGUAGE")) {
            Ok(x) => x,
            Err(e) => {
                return Err(e);
            },
        };
        let assoc_language = match opt_quoted(map.get("ASSOC-LANGUAGE")) {
            Ok(x) => x,
            Err(e) => {
                return Err(e);
            },
        };
        let name = match opt_quoted(map.get("NAME")) {
            Ok(x) => x,
            Err(e) => {
                return Err(e);
            },
        };
        let stable_rendition_id = match opt_quoted(map.get("STABLE-RENDITION-ID")) {
            Ok(x) => x,
            Err(e) => {
                return Err(e);
            },
        };
        let default = match flag(map.get("DEFAULT"), "DEFAULT") {
            Ok(x) => x,
            Err(e) => {
                return Err(e);
            },
        };
        let autoselect = match flag(map.get("AUTOSELECT"), "AUTOSELECT") {
            Ok(x) => x,
            Err(e) => {
                return Err(e);
            },
        };
        let forced = match flag(map.get("FORCED"), "FORCED") {
            Ok(x) => x,
            Err(e) => {
                return Err(e);
            },
        };
        let instream_id = match instream_value(map.get("INSTREAM-ID")) {
            Ok(x) => x,
            Err(e) => {
                return Err(e);
            },
        };
        let bit_depth = match opt_int_value(map.get("BIT-DEPTH")) {
            Ok(x) => x,
            Err(e) => {
                return Err(e);
            },
        };
        let sample_rate = match opt_int_value(map.get("SAMPLE-RATE")) {
            Ok(x) => x,
            Err(e) => {
                return Err(e);
            },
        };
        let characteristics = match characteristics(map.get("CHARACTERISTICS")) {
            Ok(x) => x,
            Err(e) => {
                return Err(e);
            },
        };
        let channels = match channels_value(map.get("CHANNELS")) {
            Ok(x) => x,
            Err(e) => {
                return Err(e);
            },
        };
        Ok(Media {
            media_type,
            uri,
            group_id,
            language,
            name,
            assoc_language,
            stable_rendition_id,
            default,
            autoselect,
            forced,
            instream_id,
            bit_depth,
            sample_rate,
            characteristics,
            channels,
        })
    }

    /// The in-stream identifier of a closed-captions rendition.
    pub fn get_instream_id(&self) -> (r: Option<&InStreamId>)
        ensures
            match self.instream_id {
                Some(i) => r matches Some(x) && x@ == i@,
                None => r is None,
            },
    {
        self.instream_id.as_ref()
    }
}


/// A rendition read from an attribute list has its `DEFAULT`, `AUTOSELECT` and `FORCED`
/// flags set exactly when that attribute is the enumerated string `YES`; without the
/// attribute the flag is not set.
#[verifier::rlimit(40)]
pub proof fn law_media_flags(m: Seq<(Seq<u8>, AttrV)>)
    requires
        media_spec(m) is Ok,
    ensures
        media_spec(m)->Ok_0.default <==> lookup(m, "DEFAULT".spec_bytes()) == Some(
            AttrV::EnumeratedString("YES".spec_bytes()),
        ),
        media_spec(m)->Ok_0.autoselect <==> lookup(m, "AUTOSELECT".spec_bytes()) == Some(
            AttrV::EnumeratedString("YES".spec_bytes()),
        ),
        media_spec(m)->Ok_0.forced <==> lookup(m, "FORCED".spec_bytes()) == Some(
            AttrV::EnumeratedString("YES".spec_bytes()),
        ),
        lookup(m, "DEFAULT".spec_bytes()) is None ==> !media_spec(m)->Ok_0.default,
        lookup(m, "AUTOSELECT".spec_bytes()) is None ==> !media_spec(m)->Ok_0.autoselect,
        lookup(m, "FORCED".spec_bytes()) is None ==> !media_spec(m)->Ok_0.forced,
{
    reveal_strlit("YES");
    reveal_strlit("NO");
    crate::text::lemma_ascii_str("YES");
    crate::text::lemma_ascii_str("NO");
    assert("YES".spec_bytes() != "NO".spec_bytes()) by {
        assert("YES".spec_bytes().len() != "NO".spec_bytes().len());
    }
    lemma_flag_value(lookup(m, "DEFAULT".spec_bytes()), "DEFAULT");
    lemma_flag_value(lookup(m, "AUTOSELECT".spec_bytes()), "AUTOSELECT");
    lemma_flag_value(lookup(m, "FORCED".spec_bytes()), "FORCED");
}

/// A flag that reads is set exactly when its attribute is `YES`.
proof fn lemma_flag_value(v: Option<AttrV>, attribute: &'static str)
    requires
        "YES".spec_bytes() != "NO".spec_bytes(),
    ensures
        flag_spec(v, attribute) is Ok ==> (flag_spec(v, attribute)->Ok_0 <==> v == Some(
            AttrV::EnumeratedString("YES".spec_bytes()),
        )),
{
}
} // verus!
