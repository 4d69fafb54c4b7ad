//! Session data, the tags of multivariant playlists, and the multivariant playlist itself.
use vstd::prelude::*;
use vstd::string::*;
use crate::attribute_list::{AttrV, AttributeList, AttributeValue, attr_text, attribute_list_spec, lookup, parse_attribute_list};
use crate::error::{PErr, ParseError, VErr, ValidationError};
use crate::multivariant::rendition::{Media, MediaV, media_spec};
use crate::multivariant::stream::{IFrameStreamInf, IFrameStreamInfV, StreamInf, StreamInfV, iframe_spec, stream_inf_spec};
use crate::playlist::{
    PlayListVariableDefinition, SharedTag, SharedTagV, VarDefV, after, opt_quoted, opt_quoted_spec,
    opt_string_view, opt_view,
};
use crate::segment::{Key, KeyV, Method, key_spec};
use crate::text::{has_prefix, owned, str_eq, strip_prefix, utf8};
use crate::uri::{Uri, UriView, decode, decode_spec, parse_spec};

verus! {

/// The format of session data.
#[derive(Debug, Clone, Copy, PartialEq, Eq, Structural)]
pub enum SessionDataFormat {
    Raw,
    Json,
}

impl Default for SessionDataFormat {
    fn default() -> (r: Self)
        ensures
            r == SessionDataFormat::Json,
    {
        SessionDataFormat::Json
    }
}

/// The formats `FORMAT` accepts.
pub open spec fn format_names() -> Seq<&'static str> {
    seq!["JSON", "RAW"]
}

fn format_list() -> (r: &'static [&'static str])
    ensures
        r@ == format_names(),
{
    let r: &'static [&'static str] = &["JSON", "RAW"];
    r
}

/// The format an enumerated string names.
pub open spec fn format_spec(s: Seq<u8>) -> Result<SessionDataFormat, PErr> {
    if s == "JSON".spec_bytes() {
        Ok(SessionDataFormat::Json)
    } else if s == "RAW".spec_bytes() {
        Ok(SessionDataFormat::Raw)
    } else {
        Err(PErr::InvalidEnumeratedString { value: s, expected: format_names() })
    }
}

impl SessionDataFormat {
    /// Reads `JSON` or `RAW`.
    pub fn parse(s: &str) -> (r: Result<SessionDataFormat, ParseError>)
        ensures
            match format_spec(s.spec_bytes()) {
                Ok(f) => r == Ok::<SessionDataFormat, ParseError>(f),
                Err(e) => r matches Err(x) && x@ == e,
            },
    {
        if str_eq(s, "JSON") {
            Ok(SessionDataFormat::Json)
        } else if str_eq(s, "RAW") {
            Ok(SessionDataFormat::Raw)
        } else {
            Err(ParseError::InvalidEnumeratedString { value: owned(s), expected: format_list() })
        }
    }
}

impl std::str::FromStr for SessionDataFormat {
    type Err = ParseError;

    fn from_str(s: &str) -> (r: Result<Self, Self::Err>)
        ensures
            match format_spec(s.spec_bytes()) {
                Ok(f) => r == Ok::<SessionDataFormat, ParseError>(f),
                Err(e) => r matches Err(x) && x@ == e,
            },
    {
        SessionDataFormat::parse(s)
    }
}

/// What session data carries: a value, or the URI of a JSON document.
#[derive(Debug, PartialEq)]
pub enum SessionDataType {
    Value(String),
    Uri(Uri),
}

/// Session data content with its text as bytes.
pub enum SessionDataTypeV {
    Value(Seq<u8>),
    Uri(UriView),
}

impl View for SessionDataType {
    type V = SessionDataTypeV;

    open spec fn view(&self) -> SessionDataTypeV {
        match self {
            SessionDataType::Value(s) => SessionDataTypeV::Value(utf8(s@)),
            SessionDataType::Uri(u) => SessionDataTypeV::Uri(u@),
        }
    }
}

/// An `EXT-X-SESSION-DATA` tag.
#[derive(Debug, PartialEq)]
pub struct SessionData {
    pub data_id: String,
    pub data_type: SessionDataType,
    pub format: SessionDataFormat,
    pub language: Option<String>,
}

/// Session data with its text as bytes.
pub struct SessionDataV {
    pub data_id: Seq<u8>,
    pub data_type: SessionDataTypeV,
    pub format: SessionDataFormat,
    pub language: Option<Seq<u8>>,
}

impl View for SessionData {
    type V = SessionDataV;

    open spec fn view(&self) -> SessionDataV {
        SessionDataV {
            data_id: utf8(self.data_id@),
            data_type: self.data_type@,
            format: self.format,
            language: opt_string_view(self.language),
        }
    }
}

/// The optional `FORMAT`; `JSON` when absent.
pub open spec fn format_value_spec(v: Option<AttrV>) -> Result<SessionDataFormat, PErr> {
    match v {
        None => Ok(SessionDataFormat::Json),
        Some(AttrV::EnumeratedString(t)) => format_spec(t),
        Some(x) => Err(PErr::InvalidEnumeratedString { value: attr_text(x), expected: format_names() }),
    }
}

/// The session data an `EXT-X-SESSION-DATA` attribute list describes: `DATA-ID` is required,
/// and exactly one of `URI` and `VALUE`.
pub open spec fn session_data_spec(m: Seq<(Seq<u8>, AttrV)>) -> Result<SessionDataV, PErr> {
    match opt_quoted_spec(lookup(m, "DATA-ID".spec_bytes())) {
        Err(e) => Err(e),
        Ok(None) => Err(PErr::MissingAttribute { attribute: "DATA-ID".spec_bytes() }),
        Ok(Some(data_id)) => match format_value_spec(lookup(m, "FORMAT".spec_bytes())) {
            Err(e) => Err(e),
            Ok(format) => match opt_quoted_spec(lookup(m, "LANGUAGE".spec_bytes())) {
                Err(e) => Err(e),
                Ok(language) => {
                    let has_uri = lookup(m, "URI".spec_bytes()) is Some;
                    let has_value = lookup(m, "VALUE".spec_bytes()) is Some;
                    if !has_uri && !has_value {
                        Err(PErr::MissingAttribute { attribute: "URI or VALUE".spec_bytes() })
                    } else if has_uri && has_value {
                        Err(
                            PErr::InvalidAttributeDefinition {
                                definition: "EXT-X-SESSION-DATA tag MUST contain either a VALUE or URI attribute, but not both.".spec_bytes(),
                            },
                        )
                    } else if has_uri {
                        match lookup(m, "URI".spec_bytes()) {
                            Some(AttrV::QuotedString(t)) => Ok(
                                SessionDataV { data_id, data_type: SessionDataTypeV::Uri(parse_spec(t)), format, language },
                            ),
                            _ => Err(PErr::ExpectedQuotedString),
                        }
                    } else {
                        match lookup(m, "VALUE".spec_bytes()) {
                            Some(AttrV::QuotedString(t)) => Ok(
                                SessionDataV { data_id, data_type: SessionDataTypeV::Value(t), format, language },
                            ),
                            _ => Err(PErr::ExpectedQuotedString),
                        }
                    }
                },
            },
        },
    }
}

fn format_value(v: Option<&AttributeValue>) -> (r: Result<SessionDataFormat, ParseError>)
    ensures
        match format_value_spec(opt_view(v)) {
            Ok(f) => r == Ok::<SessionDataFormat, ParseError>(f),
            Err(e) => r matches Err(x) && x@ == e,
        },
{
    match v {
        None => Ok(SessionDataFormat::Json),
        Some(x) => match x.as_enumerated_string() {
            Some(t) => SessionDataFormat::parse(t),
            None => Err(ParseError::InvalidEnumeratedString { value: x.to_string(), expected: format_list() }),
        },
    }
}

impl SessionData {
    /// The session data an `EXT-X-SESSION-DATA` attribute list describes.
    pub fn from_attributes(map: AttributeList) -> (r: Result<Self, ParseError>)
        ensures
            match session_data_spec(map@) {
                Ok(x) => r matches Ok(y) && y@ == x,
                Err(e) => r matches Err(y) && y@ == e,
            },
    {
        let data_id = match opt_quoted(map.get("DATA-ID")) {
            Ok(Some(x)) => x,
            Ok(None) => {
                return Err(ParseError::MissingAttribute { attribute: owned("DATA-ID") });
            },
            Err(e) => {
                return Err(e);
            },
        };
        let format = match format_value(map.get("FORMAT")) {
            Ok(x) => x,
            Err(e) => {
                return Err(e);
            },
        };
        let language = match opt_quoted(map.get("LANGUAGE")) {
            Ok(x) => x,
            Err(e) => {
                return Err(e);
            },
        };
        let has_uri = map.contains_key("URI");
        let has_value = map.contains_key("VALUE");
        if !has_uri && !has_value {
            return Err(ParseError::MissingAttribute { attribute: owned("URI or VALUE") });
        }
        if has_uri && has_value {
            return Err(
                ParseError::InvalidAttributeDefinition {
                    definition: owned(
                        "EXT-X-SESSION-DATA tag MUST contain either a VALUE or URI attribute, but not both.",
                    ),
                },
            );
        }
        let data_type = if has_uri {
            let t = match map.get("URI") {
                Some(v) => v.as_quoted_string(),
                None => None,
            };
            match t {
                Some(t) => match Uri::parse(t) {
                    Ok(u) => SessionDataType::Uri(u),
                    Err(e) => {
                        return Err(ParseError::InvalidUri { source: e });
                    },
                },
                None => {
                    return Err(ParseError::ExpectedQuotedString);
                },
            }
        } else {
            let t = match map.get("VALUE") {
                Some(v) => v.as_quoted_string(),
                None => None,
            };
            match t {
                Some(t) => SessionDataType::Value(owned(t)),
                None => {
                    return Err(ParseError::ExpectedQuotedString);
                },
            }
        };
        Ok(SessionData { data_id, data_type, format, language })
    }
}

/// A tag that only multivariant playlists have.
#[derive(Debug, PartialEq)]
pub enum MultivariantExclusiveTag {
    Media(Media),
    StreamInf(StreamInf),
    IFrameStreamInf(IFrameStreamInf),
    SessionData(SessionData),
    SessionKey(Key),
    /// The steering manifest's URI, and the initial pathway.
    ContentSteering((Uri, Option<String>)),
}

/// A multivariant tag with its text as bytes.
pub enum MultivariantTagV {
    Media(MediaV),
    StreamInf(StreamInfV),
    IFrameStreamInf(IFrameStreamInfV),
    SessionData(SessionDataV),
    SessionKey(KeyV),
    ContentSteering(UriView, Option<Seq<u8>>),
}

impl View for MultivariantExclusiveTag {
    type V = MultivariantTagV;

    open spec fn view(&self) -> MultivariantTagV {
        match self {
            MultivariantExclusiveTag::Media(m) => MultivariantTagV::Media(m@),
            MultivariantExclusiveTag::StreamInf(s) => MultivariantTagV::StreamInf(s@),
            MultivariantExclusiveTag::IFrameStreamInf(s) => MultivariantTagV::IFrameStreamInf(s@),
            MultivariantExclusiveTag::SessionData(d) => MultivariantTagV::SessionData(d@),
            MultivariantExclusiveTag::SessionKey(k) => MultivariantTagV::SessionKey(k@),
            MultivariantExclusiveTag::ContentSteering((u, p)) => MultivariantTagV::ContentSteering(
                u@,
                opt_string_view(*p),
            ),
        }
    }
}

/// The `EXT-X-CONTENT-STEERING` attributes: a required quoted `URI` and an optional quoted
/// `PATHWAY-ID`.
pub open spec fn steering_spec(m: Seq<(Seq<u8>, AttrV)>) -> Result<MultivariantTagV, PErr> {
    match lookup(m, "URI".spec_bytes()) {
        None => Err(
            PErr::InvalidAttributeValue {
                attribute: "URI".spec_bytes(),
                value: "NONE".spec_bytes(),
                expected: "a valid URI",
            },
        ),
        Some(AttrV::QuotedString(t)) => match opt_quoted_spec(lookup(m, "PATHWAY-ID".spec_bytes())) {
            Err(e) => Err(e),
            Ok(p) => Ok(MultivariantTagV::ContentSteering(parse_spec(t), p)),
        },
        Some(_) => Err(PErr::ExpectedQuotedString),
    }
}

/// The multivariant tag on `line`.
#[verifier::opaque]
pub open spec fn multivariant_tag_spec(line: Seq<u8>) -> Result<MultivariantTagV, PErr> {
    if has_prefix(line, "#EXT-X-MEDIA:".spec_bytes()) {
        match attribute_list_spec(after(line, "#EXT-X-MEDIA:".spec_bytes())) {
            Err(e) => Err(e),
            Ok(m) => match media_spec(m) {
                Ok(x) => Ok(MultivariantTagV::Media(x)),
                Err(e) => Err(e),
            },
        }
    } else if has_prefix(line, "#EXT-X-STREAM-INF:".spec_bytes()) {
        match attribute_list_spec(after(line, "#EXT-X-STREAM-INF:".spec_bytes())) {
            Err(e) => Err(e),
            Ok(m) => match stream_inf_spec(m) {
                Ok(x) => Ok(MultivariantTagV::StreamInf(x)),
                Err(e) => Err(e),
            },
        }
    } else if has_prefix(line, "#EXT-X-I-FRAME-STREAM-INF:".spec_bytes()) {
        match attribute_list_spec(after(line, "#EXT-X-I-FRAME-STREAM-INF:".spec_bytes())) {
            Err(e) => Err(e),
            Ok(m) => match iframe_spec(m) {
                Ok(x) => Ok(MultivariantTagV::IFrameStreamInf(x)),
                Err(e) => Err(e),
            },
        }
    } else if has_prefix(line, "#EXT-X-SESSION-DATA:".spec_bytes()) {
        match attribute_list_spec(after(line, "#EXT-X-SESSION-DATA:".spec_bytes())) {
            Err(e) => Err(e),
            Ok(m) => match session_data_spec(m) {
                Ok(x) => Ok(MultivariantTagV::SessionData(x)),
                Err(e) => Err(e),
            },
        }
    } else if has_prefix(line, "#EXT-X-SESSION-KEY:".spec_bytes()) {
        match attribute_list_spec(after(line, "#EXT-X-SESSION-KEY:".spec_bytes())) {
            Err(e) => Err(e),
            Ok(m) => match key_spec(m) {
                Err(e) => Err(e),
                Ok(k) => if k.method == Method::NotEncrypted {
                    Err(
                        PErr::InvalidAttributeValue {
                            attribute: "METHOD".spec_bytes(),
                            value: "NONE".spec_bytes(),
                            expected: "METHOD attribute must not be NONE.",
                        },
                    )
                } else {
                    Ok(MultivariantTagV::SessionKey(k))
                },
            },
        }
    } else if has_prefix(line, "#EXT-X-CONTENT-STEERING:".spec_bytes()) {
        match attribute_list_spec(after(line, "#EXT-X-CONTENT-STEERING:".spec_bytes())) {
            Err(e) => Err(e),
            Ok(m) => steering_spec(m),
        }
    } else {
        Err(PErr::InvalidLine(line))
    }
}

fn content_steering(map: AttributeList) -> (r: Result<MultivariantExclusiveTag, ParseError>)
    ensures
        match steering_spec(map@) {
            Ok(x) => r matches Ok(y) && y@ == x,
            Err(e) => r matches Err(y) && y@ == e,
        },
{
    let t = match map.get("URI") {
        None => {
            return Err(
                ParseError::InvalidAttributeValue {
                    attribute: owned("URI"),
                    value: owned("NONE"),
                    expected: "a valid URI",
                },
            );
        },
        Some(v) => match v.as_quoted_string() {
            Some(t) => t,
            None => {
                return Err(ParseError::ExpectedQuotedString);
            },
        },
    };
    let uri = match Uri::parse(t) {
        Ok(u) => u,
        Err(e) => {
            return Err(ParseError::InvalidUri { source: e });
        },
    };
    let pathway_id = match opt_quoted(map.get("PATHWAY-ID")) {
        Ok(p) => p,
        Err(e) => {
            return Err(e);
        },
    };
    Ok(MultivariantExclusiveTag::ContentSteering((uri, pathway_id)))
}

/// Parses a tag that only multivariant playlists have.
#[verifier::spinoff_prover]
#[verifier::rlimit(50)]
pub fn parse_multivariant_exclusive_tag(line: &str) -> (r: Result<MultivariantExclusiveTag, ParseError>)
    ensures
        match multivariant_tag_spec(line.spec_bytes()) {
            Ok(x) => r matches Ok(y) && y@ == x,
            Err(e) => r matches Err(y) && y@ == e,
        },
{
    proof {
        reveal(multivariant_tag_spec);
    }
    if let Some(rest) = strip_prefix(line, "#EXT-X-MEDIA:") {
        return match parse_attribute_list(rest) {
            Err(e) => Err(e),
            Ok(m) => match Media::from_attributes(m) {
                Ok(x) => Ok(MultivariantExclusiveTag::Media(x)),
                Err(e) => Err(e),
            },
        };
    }
    if let Some(rest) = strip_prefix(line, "#EXT-X-STREAM-INF:") {
        return match parse_attribute_list(rest) {
            Err(e) => Err(e),
            Ok(m) => match StreamInf::from_attributes(m) {
                Ok(x) => Ok(MultivariantExclusiveTag::StreamInf(x)),
                Err(e) => Err(e),
            },
        };
    }
    if let Some(rest) = strip_prefix(line, "#EXT-X-I-FRAME-STREAM-INF:") {
        return match parse_attribute_list(rest) {
            Err(e) => Err(e),
            Ok(m) => match IFrameStreamInf::from_attributes(m) {
                Ok(x) => Ok(MultivariantExclusiveTag::IFrameStreamInf(x)),
                Err(e) => Err(e),
            },
        };
    }
    if let Some(rest) = strip_prefix(line, "#EXT-X-SESSION-DATA:") {
        return match parse_attribute_list(rest) {
            Err(e) => Err(e),
            Ok(m) => match SessionData::from_attributes(m) {
                Ok(x) => Ok(MultivariantExclusiveTag::SessionData(x)),
                Err(e) => Err(e),
            },
        };
    }
    if let Some(rest) = strip_prefix(line, "#EXT-X-SESSION-KEY:") {
        return match parse_attribute_list(rest) {
            Err(e) => Err(e),
            Ok(m) => match Key::from_attributes(m) {
                Err(e) => Err(e),
                Ok(k) => if k.method == Method::NotEncrypted {
                    Err(
                        ParseError::InvalidAttributeValue {
                            attribute: owned("METHOD"),
                            value: owned("NONE"),
                            expected: "METHOD attribute must not be NONE.",
                        },
                    )
                } else {
                    Ok(MultivariantExclusiveTag::SessionKey(k))
                },
            },
        };
    }
    if let Some(rest) = strip_prefix(line, "#EXT-X-CONTENT-STEERING:") {
        return match parse_attribute_list(rest) {
            Err(e) => Err(e),
            Ok(m) => content_steering(m),
        };
    }
    Err(ParseError::InvalidLine(owned(line)))
}

impl std::str::FromStr for MultivariantExclusiveTag {
    type Err = ParseError;

    fn from_str(s: &str) -> (r: Result<Self, Self::Err>)
        ensures
            match multivariant_tag_spec(s.spec_bytes()) {
                Ok(x) => r matches Ok(y) && y@ == x,
                Err(e) => r matches Err(y) && y@ == e,
            },
    {
        parse_multivariant_exclusive_tag(s)
    }
}

/// A tag of a multivariant playlist.
#[derive(Debug)]
pub enum MultivariantTag {
    Shared(SharedTag),
    Exclusive(MultivariantExclusiveTag),
}

impl MultivariantTag {
    /// The shared tag, if this is one.
    pub fn shared(&self) -> (r: Option<&SharedTag>)
        ensures
            match self {
                MultivariantTag::Shared(t) => r == Some(t),
                _ => r is None,
            },
    {
        match self {
            MultivariantTag::Shared(tag) => Some(tag),
            _ => None,
        }
    }
}

/// A multivariant playlist: its shared tags, its own tags, and its variables, each in order.
#[derive(Debug, PartialEq)]
pub struct MultivariantPlaylist {
    pub shared_tags: Vec<SharedTag>,
    pub exclusive_tags: Vec<MultivariantExclusiveTag>,
    pub variables: Vec<PlayListVariableDefinition>,
}

impl Default for MultivariantPlaylist {
    fn default() -> (r: Self)
        ensures
            r.shared_tags@.len() == 0,
            r.exclusive_tags@.len() == 0,
            r.variables@.len() == 0,
    {
        MultivariantPlaylist { shared_tags: Vec::new(), exclusive_tags: Vec::new(), variables: Vec::new() }
    }
}

/// The views of shared tags.
pub open spec fn shared_view(v: Seq<SharedTag>) -> Seq<SharedTagV> {
    v.map_values(|t: SharedTag| t@)
}

/// The shared tags hold one of the same kind as `t` (any version, any start).
pub open spec fn has_kind(tags: Seq<SharedTagV>, t: SharedTagV) -> bool {
    exists|i: int| 0 <= i < tags.len() && #[trigger] same_kind(tags[i], t)
}

pub open spec fn same_kind(a: SharedTagV, b: SharedTagV) -> bool {
    match (a, b) {
        (SharedTagV::Version(_), SharedTagV::Version(_)) => true,
        (SharedTagV::IndependentSegments, SharedTagV::IndependentSegments) => true,
        (SharedTagV::Start { .. }, SharedTagV::Start { .. }) => true,
        (SharedTagV::Variable(_), SharedTagV::Variable(_)) => true,
        _ => false,
    }
}

/// Some variable is a `NAME`/`VALUE` or `QUERYPARAM` definition.
pub open spec fn has_defined_variable(vars: Seq<VarDefV>) -> bool {
    exists|i: int| 0 <= i < vars.len() && !(#[trigger] vars[i] is Import)
}

/// The shared tags and variables of a multivariant playlist after applying a shared tag, or
/// the error. A version, `EXT-X-INDEPENDENT-SEGMENTS` or start tag is refused when one of its
/// kind is present and is otherwise added; an `IMPORT` is always refused; a `NAME`/`VALUE` or
/// `QUERYPARAM` definition is refused when such a definition is already present (each
/// existing definition is compared with its own name), and is otherwise added to the variables.
pub open spec fn multivariant_apply_spec(tags: Seq<SharedTagV>, vars: Seq<VarDefV>, t: SharedTagV) -> Result<
    (Seq<SharedTagV>, Seq<VarDefV>),
    PErr,
> {
    match t {
        SharedTagV::Variable(VarDefV::Import { .. }) => Err(
            PErr::InvalidAttributeDefinition {
                definition: "IMPORT attribute MUST not occur in Multivariant playlists".spec_bytes(),
            },
        ),
        SharedTagV::Variable(v) => if has_defined_variable(vars) {
            Err(PErr::DuplicateTag("EXT-X-DEFINE".spec_bytes()))
        } else {
            Ok((tags, vars.push(v)))
        },
        SharedTagV::Version(_) => if has_kind(tags, t) {
            Err(PErr::DuplicateTag("EXT-X-VERSION".spec_bytes()))
        } else {
            Ok((tags.push(t), vars))
        },
        SharedTagV::IndependentSegments => if has_kind(tags, t) {
            Err(PErr::DuplicateTag("EXT-X-INDEPENDENT-SEGMENTS".spec_bytes()))
        } else {
            Ok((tags.push(t), vars))
        },
        SharedTagV::Start { .. } => if has_kind(tags, t) {
            Err(PErr::DuplicateTag("EXT-X-START:PRECISE".spec_bytes()))
        } else {
            Ok((tags.push(t), vars))
        },
    }
}

/// The first variable definition among the shared tags, from `i` on, that a multivariant
/// playlist refuses at validation: an `IMPORT` is refused as such; a `QUERYPARAM` is refused
/// because the playlist URI does not decode, or (as the checks on the decoded URI leave no
/// value for the parameter) as an unknown variable named by the decoded URI.
pub open spec fn multivariant_validate_spec(tags: Seq<SharedTagV>, i: nat, uri: Seq<u8>) -> Result<(), VErr>
    decreases tags.len() - i,
{
    if i >= tags.len() {
        Ok(())
    } else {
        match tags[i as int] {
            SharedTagV::Variable(VarDefV::Import { .. }) => Err(VErr::InvalidMultivariantAttribute),
            SharedTagV::Variable(VarDefV::QueryParam { .. }) => match decode_spec(uri) {
                Err(_) => Err(VErr::InvalidUri),
                Ok(d) => Err(VErr::UnknownImportedVariable(d)),
            },
            _ => multivariant_validate_spec(tags, i + 1, uri),
        }
    }
}

/// Where a playlist was read from.
pub struct PlaylistContext<'a> {
    pub uri: &'a str,
}

impl MultivariantPlaylist {
    fn has_shared(&self, t: &SharedTag) -> (r: bool)
        ensures
            r == has_kind(shared_view(self.shared_tags@), t@),
    {
        let ghost tv = shared_view(self.shared_tags@);
        let mut i: usize = 0;
        while i < self.shared_tags.len()
            invariant
                i <= self.shared_tags@.len(),
                tv == shared_view(self.shared_tags@),
                forall|k: int| 0 <= k < i ==> !same_kind(#[trigger] tv[k], t@),
            decreases self.shared_tags.len() - i,
        {
            let same = match (&self.shared_tags[i], t) {
                (SharedTag::Version(_), SharedTag::Version(_)) => true,
                (SharedTag::IndependentSegments, SharedTag::IndependentSegments) => true,
                (SharedTag::Start { .. }, SharedTag::Start { .. }) => true,
                (SharedTag::Variable(_), SharedTag::Variable(_)) => true,
                _ => false,
            };
            proof {
                assert(tv[i as int] == self.shared_tags@[i as int]@);
            }
            if same {
                assert(same_kind(tv[i as int], t@));
                return true;
            }
            i = i + 1;
        }
        false
    }

    fn has_defined(&self) -> (r: bool)
        ensures
            r == has_defined_variable(crate::media::vars_view(self.variables@)),
    {
        let ghost vv = crate::media::vars_view(self.variables@);
        let mut i: usize = 0;
        while i < self.variables.len()
            invariant
                i <= self.variables@.len(),
                vv == crate::media::vars_view(self.variables@),
                forall|k: int| 0 <= k < i ==> (#[trigger] vv[k] is Import),
            decreases self.variables.len() - i,
        {
            proof {
                assert(vv[i as int] == self.variables@[i as int]@);
            }
            match &self.variables[i] {
                PlayListVariableDefinition::Import { .. } => {},
                _ => {
                    assert(!(vv[i as int] is Import));
                    return true;
                },
            }
            i = i + 1;
        }
        false
    }

    /// Applies a shared tag; a refused tag leaves the playlist unchanged. See
    /// `multivariant_apply_spec`.
    pub fn apply_shared_tag(&mut self, tag: SharedTag) -> (r: Result<(), ParseError>)
        ensures
            match multivariant_apply_spec(
                shared_view(old(self).shared_tags@),
                crate::media::vars_view(old(self).variables@),
                tag@,
            ) {
                Ok((tags, vars)) => r is Ok && shared_view(final(self).shared_tags@) == tags
                    && crate::media::vars_view(final(self).variables@) == vars,
                Err(e) => (r matches Err(x) && x@ == e) && shared_view(final(self).shared_tags@)
                    == shared_view(old(self).shared_tags@) && crate::media::vars_view(
                    final(self).variables@,
                ) == crate::media::vars_view(old(self).variables@),
            },
            final(self).exclusive_tags@ == old(self).exclusive_tags@,
    {
        let ghost t = tag@;
        match tag {
            SharedTag::Variable(v) => {
                if let PlayListVariableDefinition::Import { .. } = v {
                    return Err(
                        ParseError::InvalidAttributeDefinition {
                            definition: owned("IMPORT attribute MUST not occur in Multivariant playlists"),
                        },
                    );
                }
                if self.has_defined() {
                    return Err(ParseError::DuplicateTag(owned("EXT-X-DEFINE")));
                }
                let ghost before = self.variables@;
                self.variables.push(v);
                proof {
                    assert(crate::media::vars_view(self.variables@) =~= crate::media::vars_view(before).push(v@));
                }
                Ok(())
            },
            _ => {
                if self.has_shared(&tag) {
                    let name = match tag {
                        SharedTag::Version(_) => owned("EXT-X-VERSION"),
                        SharedTag::IndependentSegments => owned("EXT-X-INDEPENDENT-SEGMENTS"),
                        SharedTag::Start { .. } => owned("EXT-X-START:PRECISE"),
                        SharedTag::Variable(_) => owned("EXT-X-DEFINE"),
                    };
                    return Err(ParseError::DuplicateTag(name));
                }
                let ghost before = self.shared_tags@;
                self.shared_tags.push(tag);
                proof {
                    assert(shared_view(self.shared_tags@) =~= shared_view(before).push(t));
                }
                Ok(())
            },
        }
    }

    /// Applies a multivariant tag: every one is added.
    pub fn apply_exclusive_tag(&mut self, tag: MultivariantExclusiveTag) -> (r: Result<(), ParseError>)
        ensures
            r is Ok,
            final(self).exclusive_tags@ == old(self).exclusive_tags@.push(tag),
            final(self).shared_tags@ == old(self).shared_tags@,
            final(self).variables@ == old(self).variables@,
    {
        self.exclusive_tags.push(tag);
        Ok(())
    }

    /// Checks the variable definitions against the playlist's URI; see
    /// `multivariant_validate_spec`. The playlist is left unchanged.
    pub fn validate(&mut self, ctx: &PlaylistContext) -> (r: Result<(), ValidationError>)
        ensures
            match multivariant_validate_spec(shared_view(old(self).shared_tags@), 0, ctx.uri.spec_bytes()) {
                Ok(()) => r is Ok,
                Err(e) => r matches Err(x) && x@ == e,
            },
            final(self).shared_tags@ == old(self).shared_tags@,
            final(self).exclusive_tags@ == old(self).exclusive_tags@,
            final(self).variables@ == old(self).variables@,
    {
        let ghost tv = shared_view(self.shared_tags@);
        let mut i: usize = 0;
        while i < self.shared_tags.len()
            invariant
                i <= self.shared_tags@.len(),
                tv == shared_view(self.shared_tags@),
                multivariant_validate_spec(tv, 0, ctx.uri.spec_bytes()) == multivariant_validate_spec(
                    tv,
                    i as nat,
                    ctx.uri.spec_bytes(),
                ),
            decreases self.shared_tags.len() - i,
        {
            proof {
                assert(tv[i as int] == self.shared_tags@[i as int]@);
            }
            match &self.shared_tags[i] {
                SharedTag::Variable(PlayListVariableDefinition::Import { .. }) => {
                    return Err(ValidationError::InvalidMultivariantAttribute);
                },
                SharedTag::Variable(PlayListVariableDefinition::QueryParam { .. }) => {
                    return match decode(ctx.uri) {
                        Err(_) => Err(ValidationError::InvalidUri),
                        Ok(d) => Err(ValidationError::UnknownImportedVariable(d)),
                    };
                },
                _ => {},
            }
            i = i + 1;
        }
        Ok(())
    }
}

} // verus!
