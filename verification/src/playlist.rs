//! Tags that both kinds of playlist share, variable definitions, and the metadata tags of
//! media playlists (`EXT-X-DATERANGE`, `EXT-X-SKIP`, `EXT-X-PRELOAD-HINT`,
//! `EXT-X-RENDITION-REPORT`).
use vstd::prelude::*;
use vstd::string::*;
use crate::attribute_list::{
    AttrV, AttributeList, AttributeValue, attribute_list_spec, lookup, parse_attribute_list,
};
use crate::decimal::{DecimalFloat, dec_is_negative};
use crate::datetime::{DateTimeValue, datetime_spec, parse_datetime};
use crate::uri::{Uri, UriView, parse_spec};
use crate::error::{PErr, ParseError, Span};
use crate::num::{parse_uint, parse_uint_spec};
use crate::text::{bytes, concat_str, has_prefix, split, split_str, trim, trim_spec, owned, starts_with, str_eq, strip_prefix, utf8};

verus! {

/// An `EXT-X-DEFINE` variable.
#[derive(Debug, Clone, PartialEq, Eq)]
pub enum PlayListVariableDefinition {
    NameValue { name: String, value: String },
    Import { name: String },
    QueryParam { name: String, value: String },
}

/// A variable definition with its text as bytes.
pub enum VarDefV {
    NameValue { name: Seq<u8>, value: Seq<u8> },
    Import { name: Seq<u8> },
    QueryParam { name: Seq<u8>, value: Seq<u8> },
}

impl View for PlayListVariableDefinition {
    type V = VarDefV;

    open spec fn view(&self) -> VarDefV {
        match self {
            PlayListVariableDefinition::NameValue { name, value } => VarDefV::NameValue {
                name: utf8(name@),
                value: utf8(value@),
            },
            PlayListVariableDefinition::Import { name } => VarDefV::Import { name: utf8(name@) },
            PlayListVariableDefinition::QueryParam { name, value } => VarDefV::QueryParam {
                name: utf8(name@),
                value: utf8(value@),
            },
        }
    }
}

/// The name a variable definition defines, imports or takes from the query.
pub open spec fn var_name(v: VarDefV) -> Seq<u8> {
    match v {
        VarDefV::NameValue { name, .. } => name,
        VarDefV::Import { name } => name,
        VarDefV::QueryParam { name, .. } => name,
    }
}

/// A tag that may appear in media and multivariant playlists alike.
#[derive(Debug, Clone, PartialEq)]
pub enum SharedTag {
    Version(u8),
    Variable(PlayListVariableDefinition),
    IndependentSegments,
    Start { precise: bool, time_offset: DecimalFloat },
}

/// A shared tag with its text as bytes.
pub enum SharedTagV {
    Version(u8),
    Variable(VarDefV),
    IndependentSegments,
    Start { precise: bool, time_offset: Seq<u8> },
}

impl View for SharedTag {
    type V = SharedTagV;

    open spec fn view(&self) -> SharedTagV {
        match self {
            SharedTag::Version(v) => SharedTagV::Version(*v),
            SharedTag::Variable(d) => SharedTagV::Variable(d@),
            SharedTag::IndependentSegments => SharedTagV::IndependentSegments,
            SharedTag::Start { precise, time_offset } => SharedTagV::Start {
                precise: *precise,
                time_offset: time_offset@,
            },
        }
    }
}

/// The text of a quoted-string value, if the value is one.
pub open spec fn quoted_of(v: Option<AttrV>) -> Option<Seq<u8>> {
    match v {
        Some(AttrV::QuotedString(t)) => Some(t),
        _ => None,
    }
}

/// The text of an enumerated-string value, if the value is one.
pub open spec fn enumerated_of(v: Option<AttrV>) -> Option<Seq<u8>> {
    match v {
        Some(AttrV::EnumeratedString(t)) => Some(t),
        _ => None,
    }
}

/// The number of a decimal-integer value, if the value is one.
pub open spec fn integer_of(v: Option<AttrV>) -> Option<u64> {
    match v {
        Some(AttrV::DecimalInteger(n)) => Some(n),
        _ => None,
    }
}

pub open spec fn count_of(b: bool) -> nat {
    if b {
        1
    } else {
        0
    }
}

/// The variable an `EXT-X-DEFINE` attribute list defines: exactly one of `IMPORT`, `QUERY`,
/// or `NAME`/`VALUE`.
pub open spec fn var_def_spec(m: Seq<(Seq<u8>, AttrV)>) -> Result<VarDefV, PErr> {
    let has_import = lookup(m, "IMPORT".spec_bytes()) is Some;
    let has_query = lookup(m, "QUERY".spec_bytes()) is Some;
    let has_namevalue = lookup(m, "NAME".spec_bytes()) is Some || lookup(m, "VALUE".spec_bytes()) is Some;
    let count = count_of(has_import) + count_of(has_query) + count_of(has_namevalue);
    if count == 0 {
        Err(PErr::MissingAttribute { attribute: "IMPORT, QUERY, or NAME/VALUE".spec_bytes() })
    } else if count >= 2 {
        Err(PErr::TooManyAttributes { expected: 1, found: count })
    } else if has_import {
        match quoted_of(lookup(m, "IMPORT".spec_bytes())) {
            Some(n) => Ok(VarDefV::Import { name: n }),
            None => Err(PErr::ExpectedQuotedString),
        }
    } else if has_query {
        match quoted_of(lookup(m, "QUERY".spec_bytes())) {
            Some(n) => Ok(VarDefV::QueryParam { name: n, value: Seq::empty() }),
            None => Err(PErr::ExpectedQuotedString),
        }
    } else if lookup(m, "NAME".spec_bytes()) is None {
        Err(PErr::UnknownAttribute("NAME".spec_bytes()))
    } else if lookup(m, "VALUE".spec_bytes()) is None {
        Err(PErr::UnknownAttribute("VALUE".spec_bytes()))
    } else {
        match quoted_of(lookup(m, "NAME".spec_bytes())) {
            None => Err(PErr::ExpectedQuotedString),
            Some(n) => match quoted_of(lookup(m, "VALUE".spec_bytes())) {
                None => Err(PErr::ExpectedQuotedString),
                Some(v) => Ok(VarDefV::NameValue { name: n, value: v }),
            },
        }
    }
}

/// The text of a quoted-string attribute, owned.
fn quoted_owned(v: Option<&AttributeValue>) -> (r: Option<String>)
    ensures
        match quoted_of(
            match v {
                Some(x) => Some(x@),
                None => None,
            },
        ) {
            Some(t) => r matches Some(s) && utf8(s@) == t,
            None => r is None,
        },
{
    match v {
        Some(x) => match x.as_quoted_string() {
            Some(s) => Some(owned(s)),
            None => None,
        },
        None => None,
    }
}

/// The view of an optional borrowed value.
pub open spec fn opt_view(v: Option<&AttributeValue>) -> Option<AttrV> {
    match v {
        Some(x) => Some(x@),
        None => None,
    }
}

impl PlayListVariableDefinition {
    /// A `NAME`/`VALUE` definition.
    pub fn new(name: &str, value: &str) -> (r: Self)
        ensures
            r@ == (VarDefV::NameValue { name: name.spec_bytes(), value: value.spec_bytes() }),
    {
        PlayListVariableDefinition::NameValue { name: owned(name), value: owned(value) }
    }

    /// The name this definition defines, imports or takes from the query.
    pub fn get_name(&self) -> (r: &str)
        ensures
            r.spec_bytes() == var_name(self@),
    {
        match self {
            PlayListVariableDefinition::NameValue { name, .. } => name.as_str(),
            PlayListVariableDefinition::Import { name } => name.as_str(),
            PlayListVariableDefinition::QueryParam { name, .. } => name.as_str(),
        }
    }

    /// The definition an `EXT-X-DEFINE` attribute list makes.
    pub fn from_attributes(map: AttributeList) -> (r: Result<Self, ParseError>)
        ensures
            match var_def_spec(map@) {
                Ok(v) => r matches Ok(x) && x@ == v,
                Err(e) => r matches Err(x) && x@ == e,
            },
    {
        let has_import = map.contains_key("IMPORT");
        let has_query = map.contains_key("QUERY");
        let has_namevalue = map.contains_key("NAME") || map.contains_key("VALUE");
        let count: u8 = (if has_import {
            1u8
        } else {
            0
        }) + (if has_query {
            1u8
        } else {
            0
        }) + (if has_namevalue {
            1u8
        } else {
            0
        });
        if count == 0 {
            return Err(
                ParseError::MissingAttribute { attribute: owned("IMPORT, QUERY, or NAME/VALUE") },
            );
        }
        if count >= 2 {
            return Err(ParseError::TooManyAttributes { expected: 1, found: count as usize });
        }
        if has_import {
            return match quoted_owned(map.get("IMPORT")) {
                Some(n) => Ok(PlayListVariableDefinition::Import { name: n }),
                None => Err(ParseError::ExpectedQuotedString),
            };
        }
        if has_query {
            return match quoted_owned(map.get("QUERY")) {
                Some(n) => Ok(PlayListVariableDefinition::QueryParam { name: n, value: String::new() }),
                None => Err(ParseError::ExpectedQuotedString),
            };
        }
        if !map.contains_key("NAME") {
            return Err(ParseError::UnknownAttribute(owned("NAME")));
        }
        if !map.contains_key("VALUE") {
            return Err(ParseError::UnknownAttribute(owned("VALUE")));
        }
        let name = match quoted_owned(map.get("NAME")) {
            Some(n) => n,
            None => {
                return Err(ParseError::ExpectedQuotedString);
            },
        };
        let value = match quoted_owned(map.get("VALUE")) {
            Some(v) => v,
            None => {
                return Err(ParseError::ExpectedQuotedString);
            },
        };
        Ok(PlayListVariableDefinition::NameValue { name, value })
    }
}

impl TryFrom<AttributeList> for PlayListVariableDefinition {
    type Error = ParseError;

    fn try_from(map: AttributeList) -> (r: Result<Self, Self::Error>)
        ensures
            match var_def_spec(map@) {
                Ok(v) => r matches Ok(x) && x@ == v,
                Err(e) => r matches Err(x) && x@ == e,
            },
    {
        PlayListVariableDefinition::from_attributes(map)
    }
}

/// `try_from` gives a definition whose view is what `var_def_spec` reads from the list, or an
/// error whose view is its error. The views fix the result only up to its view, so the trait
/// claims nothing beyond `try_from`'s own contract.
impl vstd::std_specs::convert::TryFromSpecImpl<AttributeList> for PlayListVariableDefinition {
    open spec fn obeys_try_from_spec() -> bool {
        false
    }

    open spec fn try_from_spec(v: AttributeList) -> Result<Self, ParseError> {
        choose|r: Result<Self, ParseError>| #[trigger] var_def_result(r, v@)
    }
}

/// `r` is what reading a definition from the attributes `m` gives, by its view.
pub open spec fn var_def_result(r: Result<PlayListVariableDefinition, ParseError>, m: Seq<(Seq<u8>, AttrV)>) -> bool {
    match var_def_spec(m) {
        Ok(d) => r matches Ok(x) && x@ == d,
        Err(e) => r matches Err(x) && x@ == e,
    }
}

/// The error for a line that does not follow the grammar of its tag.
pub open spec fn invalid_line(line: Seq<u8>) -> PErr {
    PErr::InvalidLine(line + " is not valid according to HLS spec.".spec_bytes())
}

/// The rest of `line` after `p`.
pub open spec fn after(line: Seq<u8>, p: Seq<u8>) -> Seq<u8> {
    line.subrange(p.len() as int, line.len() as int)
}

/// The shared tag on the line `line` (the number `n`).
#[verifier::opaque]
pub open spec fn shared_tag_spec(line: Seq<u8>, n: nat) -> Result<SharedTagV, PErr> {
    if has_prefix(line, "#EXT-X-VERSION:".spec_bytes()) {
        match parse_uint_spec(after(line, "#EXT-X-VERSION:".spec_bytes()), false, 255) {
            Ok(v) => Ok(SharedTagV::Version(v as u8)),
            Err(_) => Err(invalid_line(line)),
        }
    } else if line == "#EXT-X-INDEPENDENT-SEGMENTS".spec_bytes() {
        Ok(SharedTagV::IndependentSegments)
    } else if has_prefix(line, "#EXT-X-START:".spec_bytes()) {
        match attribute_list_spec(after(line, "#EXT-X-START:".spec_bytes())) {
            Err(e) => Err(e),
            Ok(m) => match lookup(m, "TIME-OFFSET".spec_bytes()) {
                Some(AttrV::SignedDecimalFloatingPoint(t)) => Ok(
                    SharedTagV::Start {
                        precise: enumerated_of(lookup(m, "PRECISE".spec_bytes())) == Some(
                            "YES".spec_bytes(),
                        ),
                        time_offset: t,
                    },
                ),
                _ => Err(
                    PErr::InvalidAttributeValue {
                        attribute: "TIME-OFFSET".spec_bytes(),
                        value: "NONE".spec_bytes(),
                        expected: "a valid signed decimal floating point number",
                    },
                ),
            },
        }
    } else if has_prefix(line, "#EXT-X-DEFINE:".spec_bytes()) {
        match attribute_list_spec(after(line, "#EXT-X-DEFINE:".spec_bytes())) {
            Err(e) => Err(e),
            Ok(m) => match var_def_spec(m) {
                Ok(v) => Ok(SharedTagV::Variable(v)),
                Err(e) => Err(e),
            },
        }
    } else {
        Err(PErr::UnknownTag { tag: line, line: n, column: 0 })
    }
}

/// Whether an optional enumerated-string value is `YES`.
fn is_yes(v: Option<&AttributeValue>) -> (r: bool)
    ensures
        r == (enumerated_of(opt_view(v)) == Some("YES".spec_bytes())),
{
    match v {
        Some(x) => match x.as_enumerated_string() {
            Some(s) => str_eq(s, "YES"),
            None => false,
        },
        None => false,
    }
}

/// Parses a tag that both kinds of playlist share; `line_number` is reported for an unknown tag.
pub fn parse_shared_tag(line: &str, line_number: usize) -> (r: Result<SharedTag, ParseError>)
    ensures
        match shared_tag_spec(line.spec_bytes(), line_number as nat) {
            Ok(t) => r matches Ok(x) && x@ == t,
            Err(e) => r matches Err(x) && x@ == e,
        },
{
    proof {
        reveal(shared_tag_spec);
    }
    if let Some(rest) = strip_prefix(line, "#EXT-X-VERSION:") {
        return match parse_uint(bytes(rest), false, 255) {
            Ok(v) => Ok(SharedTag::Version(v as u8)),
            Err(_) => Err(ParseError::InvalidLine(concat_str(line, " is not valid according to HLS spec."))),
        };
    }
    if str_eq(line, "#EXT-X-INDEPENDENT-SEGMENTS") {
        return Ok(SharedTag::IndependentSegments);
    }
    if let Some(rest) = strip_prefix(line, "#EXT-X-START:") {
        let attrs = match parse_attribute_list(rest) {
            Ok(a) => a,
            Err(e) => {
                return Err(e);
            },
        };
        let time_offset = match attrs.get("TIME-OFFSET") {
            Some(v) => match v.as_signed_decimal_floating_point() {
                Some(d) => d.copy(),
                None => {
                    return Err(
                        ParseError::InvalidAttributeValue {
                            attribute: owned("TIME-OFFSET"),
                            value: owned("NONE"),
                            expected: "a valid signed decimal floating point number",
                        },
                    );
                },
            },
            None => {
                return Err(
                    ParseError::InvalidAttributeValue {
                        attribute: owned("TIME-OFFSET"),
                        value: owned("NONE"),
                        expected: "a valid signed decimal floating point number",
                    },
                );
            },
        };
        let precise = is_yes(attrs.get("PRECISE"));
        return Ok(SharedTag::Start { precise, time_offset });
    }
    if let Some(rest) = strip_prefix(line, "#EXT-X-DEFINE:") {
        let attrs = match parse_attribute_list(rest) {
            Ok(a) => a,
            Err(e) => {
                return Err(e);
            },
        };
        return match PlayListVariableDefinition::from_attributes(attrs) {
            Ok(v) => Ok(SharedTag::Variable(v)),
            Err(e) => Err(e),
        };
    }
    Err(ParseError::UnknownTag { tag: owned(line), span: Span { line: line_number, column: 0 } })
}

impl SharedTag {
    /// Checks a shared tag on its own. Only a version tag can be checked without the rest of
    /// the playlist, and it always passes; the other kinds are outside this function's domain.
    pub fn validate(&self) -> (r: Result<(), crate::error::ValidationError>)
        requires
            self is Version,
        ensures
            r is Ok,
    {
        Ok(())
    }
}

impl std::str::FromStr for SharedTag {
    type Err = ParseError;

    fn from_str(s: &str) -> (r: Result<Self, Self::Err>)
        ensures
            match shared_tag_spec(s.spec_bytes(), 0) {
                Ok(t) => r matches Ok(x) && x@ == t,
                Err(e) => r matches Err(x) && x@ == e,
            },
    {
        parse_shared_tag(s, 0)
    }
}

/* Metadata tags of media playlists */

/// When a date range's cue fires.
#[derive(Debug, Clone, Copy, PartialEq, Eq, Hash, Structural)]
pub enum Cue {
    Pre,
    Post,
    Once,
}

/// The cue an enumerated string names.
pub open spec fn cue_spec(s: Seq<u8>) -> Result<Cue, PErr> {
    if s == "PRE".spec_bytes() {
        Ok(Cue::Pre)
    } else if s == "POST".spec_bytes() {
        Ok(Cue::Post)
    } else if s == "ONCE".spec_bytes() {
        Ok(Cue::Once)
    } else {
        Err(
            PErr::InvalidAttributeValue {
                attribute: "CUE".spec_bytes(),
                value: s,
                expected: "an enumerated string with value PRE, POST, or ONCE",
            },
        )
    }
}

/// The enumerated string of a cue.
pub open spec fn cue_text(c: Cue) -> Seq<u8> {
    match c {
        Cue::Pre => "PRE".spec_bytes(),
        Cue::Post => "POST".spec_bytes(),
        Cue::Once => "ONCE".spec_bytes(),
    }
}

impl Cue {
    /// Reads `PRE`, `POST` or `ONCE`.
    pub fn parse(s: &str) -> (r: Result<Cue, ParseError>)
        ensures
            match cue_spec(s.spec_bytes()) {
                Ok(c) => r == Ok::<Cue, ParseError>(c),
                Err(e) => r matches Err(x) && x@ == e,
            },
    {
        if str_eq(s, "PRE") {
            Ok(Cue::Pre)
        } else if str_eq(s, "POST") {
            Ok(Cue::Post)
        } else if str_eq(s, "ONCE") {
            Ok(Cue::Once)
        } else {
            Err(
                ParseError::InvalidAttributeValue {
                    attribute: owned("CUE"),
                    value: owned(s),
                    expected: "an enumerated string with value PRE, POST, or ONCE",
                },
            )
        }
    }

    /// The enumerated string of this cue.
    pub fn as_str(&self) -> (r: &'static str)
        ensures
            r.spec_bytes() == cue_text(*self),
    {
        match self {
            Cue::Pre => "PRE",
            Cue::Post => "POST",
            Cue::Once => "ONCE",
        }
    }
}

impl std::str::FromStr for Cue {
    type Err = ParseError;

    fn from_str(s: &str) -> (r: Result<Self, Self::Err>)
        ensures
            match cue_spec(s.spec_bytes()) {
                Ok(c) => r == Ok::<Cue, ParseError>(c),
                Err(e) => r matches Err(x) && x@ == e,
            },
    {
        Cue::parse(s)
    }
}

/// An `EXT-X-DATERANGE` tag.
#[derive(Debug, PartialEq)]
pub struct DateRange {
    pub id: String,
    pub class: Option<String>,
    pub start_date: Option<DateTimeValue>,
    pub cue: Vec<Cue>,
    pub end_date: Option<DateTimeValue>,
    pub duration: Option<DecimalFloat>,
    pub planned_duration: Option<DecimalFloat>,
    pub end_on_next: Option<bool>,
    /// The `X-` attributes, in the order they were written.
    pub extensions: Vec<(String, AttributeValue)>,
}

/// A date range with its text as bytes.
pub struct DateRangeV {
    pub id: Seq<u8>,
    pub class: Option<Seq<u8>>,
    pub start_date: Option<DateTimeValue>,
    pub cue: Seq<Cue>,
    pub end_date: Option<DateTimeValue>,
    pub duration: Option<Seq<u8>>,
    pub planned_duration: Option<Seq<u8>>,
    pub end_on_next: Option<bool>,
    pub extensions: Seq<(Seq<u8>, AttrV)>,
}

pub open spec fn opt_string_view(s: Option<String>) -> Option<Seq<u8>> {
    match s {
        Some(x) => Some(utf8(x@)),
        None => None,
    }
}

pub open spec fn opt_decimal_view(d: Option<DecimalFloat>) -> Option<Seq<u8>> {
    match d {
        Some(x) => Some(x@),
        None => None,
    }
}

impl View for DateRange {
    type V = DateRangeV;

    open spec fn view(&self) -> DateRangeV {
        DateRangeV {
            id: utf8(self.id@),
            class: opt_string_view(self.class),
            start_date: self.start_date,
            cue: self.cue@,
            end_date: self.end_date,
            duration: opt_decimal_view(self.duration),
            planned_duration: opt_decimal_view(self.planned_duration),
            end_on_next: self.end_on_next,
            extensions: self.extensions@.map_values(
                |e: (String, AttributeValue)| crate::attribute_list::entry_view(e),
            ),
        }
    }
}

/// An optional quoted-string attribute.
pub open spec fn opt_quoted_spec(v: Option<AttrV>) -> Result<Option<Seq<u8>>, PErr> {
    match v {
        None => Ok(None),
        Some(AttrV::QuotedString(t)) => Ok(Some(t)),
        Some(_) => Err(PErr::ExpectedQuotedString),
    }
}

/// An optional quoted date-and-time attribute.
pub open spec fn date_attr_spec(v: Option<AttrV>, attribute: &'static str, expected: &'static str) -> Result<
    Option<DateTimeValue>,
    PErr,
> {
    match v {
        None => Ok(None),
        Some(AttrV::QuotedString(t)) => match datetime_spec(t) {
            Some(d) => Ok(Some(d)),
            None => Err(PErr::InvalidAttributeValue { attribute: attribute.spec_bytes(), value: t, expected }),
        },
        Some(_) => Err(PErr::ExpectedQuotedString),
    }
}

/// The cues of the entries from `i` on.
pub open spec fn cues_spec(l: Seq<Seq<u8>>, i: nat) -> Result<Seq<Cue>, PErr>
    decreases l.len() - i,
{
    if i >= l.len() {
        Ok(Seq::empty())
    } else {
        match cue_spec(l[i as int]) {
            Err(e) => Err(e),
            Ok(c) => match cues_spec(l, i + 1) {
                Err(e) => Err(e),
                Ok(rest) => Ok(seq![c] + rest),
            },
        }
    }
}

/// The optional `CUE` attribute.
pub open spec fn cue_attr_spec(v: Option<AttrV>) -> Result<Seq<Cue>, PErr> {
    match v {
        None => Ok(Seq::empty()),
        Some(AttrV::EnumeratedStringList(l)) => cues_spec(l, 0),
        Some(_) => Err(
            PErr::InvalidAttributeValue {
                attribute: "CUE".spec_bytes(),
                value: "NONE".spec_bytes(),
                expected: "a list of enumerated strings",
            },
        ),
    }
}

/// An optional decimal-floating-point attribute.
pub open spec fn float_attr_spec(v: Option<AttrV>, attribute: &'static str, expected: &'static str) -> Result<
    Option<Seq<u8>>,
    PErr,
> {
    match v {
        None => Ok(None),
        Some(AttrV::DecimalFloatingPoint(t)) => Ok(Some(t)),
        Some(_) => Err(
            PErr::InvalidAttributeValue { attribute: attribute.spec_bytes(), value: "NONE".spec_bytes(), expected },
        ),
    }
}

/// The optional `PLANNED-DURATION` attribute, which must not be negative.
pub open spec fn planned_duration_spec(v: Option<AttrV>) -> Result<Option<Seq<u8>>, PErr> {
    match float_attr_spec(v, "PLANNED-DURATION", "a positive decimal floating point number") {
        Err(e) => Err(e),
        Ok(Some(t)) => if dec_is_negative(t) {
            Err(
                PErr::InvalidAttributeValue {
                    attribute: "PLANNED-DURATION".spec_bytes(),
                    value: t,
                    expected: "a positive decimal floating point number",
                },
            )
        } else {
            Ok(Some(t))
        },
        Ok(None) => Ok(None),
    }
}

/// The optional `END-ON-NEXT` attribute: whether it is `YES`.
pub open spec fn end_on_next_spec(v: Option<AttrV>) -> Result<Option<bool>, PErr> {
    match v {
        None => Ok(None),
        Some(AttrV::EnumeratedString(t)) => Ok(Some(t == "YES".spec_bytes())),
        Some(_) => Err(
            PErr::InvalidAttributeValue {
                attribute: "END-ON-NEXT".spec_bytes(),
                value: "NONE".spec_bytes(),
                expected: "an enumerated string",
            },
        ),
    }
}

/// The entries whose name begins with `X-`, in order.
pub open spec fn x_entries(m: Seq<(Seq<u8>, AttrV)>) -> Seq<(Seq<u8>, AttrV)>
    decreases m.len(),
{
    if m.len() == 0 {
        m
    } else if has_prefix(m[0].0, "X-".spec_bytes()) {
        seq![m[0]] + x_entries(m.drop_first())
    } else {
        x_entries(m.drop_first())
    }
}

/// The date range an `EXT-X-DATERANGE` attribute list describes; the first failing attribute,
/// in the order `ID`, `CLASS`, `START-DATE`, `CUE`, `END-DATE`, `DURATION`,
/// `PLANNED-DURATION`, `END-ON-NEXT`, decides the error.
pub open spec fn date_range_spec(m: Seq<(Seq<u8>, AttrV)>) -> Result<DateRangeV, PErr> {
    match lookup(m, "ID".spec_bytes()) {
        None => Err(
            PErr::InvalidAttributeValue {
                attribute: "ID".spec_bytes(),
                value: "NONE".spec_bytes(),
                expected: "a quoted string",
            },
        ),
        Some(v) => match quoted_of(Some(v)) {
            None => Err(PErr::ExpectedQuotedString),
            Some(id) => match opt_quoted_spec(lookup(m, "CLASS".spec_bytes())) {
                Err(e) => Err(e),
                Ok(class) => match date_attr_spec(
                    lookup(m, "START-DATE".spec_bytes()),
                    "START-DATE",
                    "a valid datetime quoted string",
                ) {
                    Err(e) => Err(e),
                    Ok(start_date) => match cue_attr_spec(lookup(m, "CUE".spec_bytes())) {
                        Err(e) => Err(e),
                        Ok(cue) => match date_attr_spec(
                            lookup(m, "END-DATE".spec_bytes()),
                            "END-DATE",
                            "a valid datetime quoted string for as described in RFC 8216",
                        ) {
                            Err(e) => Err(e),
                            Ok(end_date) => match float_attr_spec(
                                lookup(m, "DURATION".spec_bytes()),
                                "DURATION",
                                "a decimal floating point number",
                            ) {
                                Err(e) => Err(e),
                                Ok(duration) => match planned_duration_spec(
                                    lookup(m, "PLANNED-DURATION".spec_bytes()),
                                ) {
                                    Err(e) => Err(e),
                                    Ok(planned_duration) => match end_on_next_spec(
                                        lookup(m, "END-ON-NEXT".spec_bytes()),
                                    ) {
                                        Err(e) => Err(e),
                                        Ok(end_on_next) => Ok(
                                            DateRangeV {
                                                id,
                                                class,
                                                start_date,
                                                cue,
                                                end_date,
                                                duration,
                                                planned_duration,
                                                end_on_next,
                                                extensions: x_entries(m),
                                            },
                                        ),
                                    },
                                },
                            },
                        },
                    },
                },
            },
        },
    }
}

pub fn opt_quoted(v: Option<&AttributeValue>) -> (r: Result<Option<String>, ParseError>)
    ensures
        match opt_quoted_spec(opt_view(v)) {
            Ok(t) => r matches Ok(x) && opt_string_view(x) == t,
            Err(e) => r matches Err(x) && x@ == e,
        },
{
    match v {
        None => Ok(None),
        Some(x) => match x.as_quoted_string() {
            Some(s) => Ok(Some(owned(s))),
            None => Err(ParseError::ExpectedQuotedString),
        },
    }
}

fn date_attr(v: Option<&AttributeValue>, attribute: &'static str, expected: &'static str) -> (r: Result<
    Option<DateTimeValue>,
    ParseError,
>)
    ensures
        match date_attr_spec(opt_view(v), attribute, expected) {
            Ok(t) => r == Ok::<Option<DateTimeValue>, ParseError>(t),
            Err(e) => r matches Err(x) && x@ == e,
        },
{
    match v {
        None => Ok(None),
        Some(x) => match x.as_quoted_string() {
            Some(s) => match parse_datetime(s) {
                Some(d) => Ok(Some(d)),
                None => Err(
                    ParseError::InvalidAttributeValue { attribute: owned(attribute), value: owned(s), expected },
                ),
            },
            None => Err(ParseError::ExpectedQuotedString),
        },
    }
}

fn cue_attr(v: Option<&AttributeValue>) -> (r: Result<Vec<Cue>, ParseError>)
    ensures
        match cue_attr_spec(opt_view(v)) {
            Ok(t) => r matches Ok(x) && x@ == t,
            Err(e) => r matches Err(x) && x@ == e,
        },
{
    let l = match v {
        None => {
            return Ok(Vec::new());
        },
        Some(x) => match x.as_enumerated_string_list() {
            Some(l) => l,
            None => {
                return Err(
                    ParseError::InvalidAttributeValue {
                        attribute: owned("CUE"),
                        value: owned("NONE"),
                        expected: "a list of enumerated strings",
                    },
                );
            },
        },
    };
    let ghost lv = crate::attribute_list::strings_view(l@);
    let mut out: Vec<Cue> = Vec::new();
    let mut i: usize = 0;
    while i < l.len()
        invariant
            i <= l@.len(),
            lv == crate::attribute_list::strings_view(l@),
            lv.len() == l@.len(),
            cue_attr_spec(opt_view(v)) == cues_spec(lv, 0),
            cues_spec(lv, 0) == match cues_spec(lv, i as nat) {
                Ok(rest) => Ok(out@ + rest),
                Err(e) => Err::<Seq<Cue>, PErr>(e),
            },
        decreases l.len() - i,
    {
        proof {
            assert(lv[i as int] == utf8(l@[i as int]@));
        }
        match Cue::parse(l[i].as_str()) {
            Ok(c) => {
                proof {
                    match cues_spec(lv, (i + 1) as nat) {
                        Ok(rest) => assert(out@ + (seq![c] + rest) =~= out@.push(c) + rest),
                        Err(_) => {},
                    }
                }
                out.push(c);
            },
            Err(e) => {
                return Err(e);
            },
        }
        i = i + 1;
    }
    proof {
        assert(out@ + Seq::<Cue>::empty() =~= out@);
    }
    Ok(out)
}

fn float_attr(v: Option<&AttributeValue>, attribute: &'static str, expected: &'static str) -> (r: Result<
    Option<DecimalFloat>,
    ParseError,
>)
    ensures
        match float_attr_spec(opt_view(v), attribute, expected) {
            Ok(t) => r matches Ok(x) && opt_decimal_view(x) == t,
            Err(e) => r matches Err(x) && x@ == e,
        },
{
    match v {
        None => Ok(None),
        Some(x) => match x.as_decimal_floating_point() {
            Some(d) => Ok(Some(d.copy())),
            None => Err(
                ParseError::InvalidAttributeValue { attribute: owned(attribute), value: owned("NONE"), expected },
            ),
        },
    }
}

/// Moves the entries whose name begins with `X-` out of `entries`, in order.
fn take_x_entries(entries: Vec<(String, AttributeValue)>) -> (r: Vec<(String, AttributeValue)>)
    ensures
        r@.map_values(|e: (String, AttributeValue)| crate::attribute_list::entry_view(e)) == x_entries(
            entries@.map_values(|e: (String, AttributeValue)| crate::attribute_list::entry_view(e)),
        ),
{
    let ghost all = entries@.map_values(|e: (String, AttributeValue)| crate::attribute_list::entry_view(e));
    let mut rest = entries;
    let mut out: Vec<(String, AttributeValue)> = Vec::new();
    let ghost mut j: int = 0;
    proof {
        assert(all.skip(0) =~= all);
        assert(out@.map_values(|e: (String, AttributeValue)| crate::attribute_list::entry_view(e))
            + x_entries(all) =~= x_entries(all));
    }
    while rest.len() > 0
        invariant
            0 <= j <= all.len(),
            rest@.map_values(|e: (String, AttributeValue)| crate::attribute_list::entry_view(e)) == all.skip(j),
            x_entries(all) == out@.map_values(|e: (String, AttributeValue)| crate::attribute_list::entry_view(e))
                + x_entries(all.skip(j)),
        decreases rest.len(),
    {
        let ghost before = rest@;
        let e = rest.remove(0);
        let keep = starts_with(e.0.as_str(), "X-");
        proof {
            assert(all.skip(j)[0] == crate::attribute_list::entry_view(before[0]));
            assert(all.skip(j).drop_first() =~= all.skip(j + 1));
            assert(rest@.map_values(|e: (String, AttributeValue)| crate::attribute_list::entry_view(e)) =~= all.skip(j + 1));
        }
        if keep {
            let ghost o = out@;
            out.push(e);
            proof {
                assert(out@.map_values(|e: (String, AttributeValue)| crate::attribute_list::entry_view(e)) =~= o.map_values(
                    |e: (String, AttributeValue)| crate::attribute_list::entry_view(e),
                ).push(all[j]));
            }
        }
        proof {
            j = j + 1;
        }
    }
    proof {
        assert(all.skip(j).len() == 0);
        assert(out@.map_values(|e: (String, AttributeValue)| crate::attribute_list::entry_view(e)) + x_entries(all.skip(j))
            =~= out@.map_values(|e: (String, AttributeValue)| crate::attribute_list::entry_view(e)));
    }
    out
}

impl DateRange {
    /// The date range an `EXT-X-DATERANGE` attribute list describes.
    pub fn from_attributes(map: AttributeList) -> (r: Result<Self, ParseError>)
        ensures
            match date_range_spec(map@) {
                Ok(d) => r matches Ok(x) && x@ == d,
                Err(e) => r matches Err(x) && x@ == e,
            },
    {
        let id = match map.get("ID") {
            None => {
                return Err(
                    ParseError::InvalidAttributeValue {
                        attribute: owned("ID"),
                        value: owned("NONE"),
                        expected: "a quoted string",
                    },
                );
            },
            Some(v) => match v.as_quoted_string() {
                Some(s) => owned(s),
                None => {
                    return Err(ParseError::ExpectedQuotedString);
                },
            },
        };
        let class = match opt_quoted(map.get("CLASS")) {
            Ok(c) => c,
            Err(e) => {
                return Err(e);
            },
        };
        let start_date = match date_attr(
            map.get("START-DATE"),
            "START-DATE",
            "a valid datetime quoted string",
        ) {
            Ok(d) => d,
            Err(e) => {
                return Err(e);
            },
        };
        let cue = match cue_attr(map.get("CUE")) {
            Ok(c) => c,
            Err(e) => {
                return Err(e);
            },
        };
        let end_date = match date_attr(
            map.get("END-DATE"),
            "END-DATE",
            "a valid datetime quoted string for as described in RFC 8216",
        ) {
            Ok(d) => d,
            Err(e) => {
                return Err(e);
            },
        };
        let duration = match float_attr(map.get("DURATION"), "DURATION", "a decimal floating point number") {
            Ok(d) => d,
            Err(e) => {
                return Err(e);
            },
        };
        let planned_duration = match float_attr(
            map.get("PLANNED-DURATION"),
            "PLANNED-DURATION",
            "a positive decimal floating point number",
        ) {
            Ok(Some(d)) => {
                if d.is_negative() {
                    return Err(
                        ParseError::InvalidAttributeValue {
                            attribute: owned("PLANNED-DURATION"),
                            value: owned(d.as_str()),
                            expected: "a positive decimal floating point number",
                        },
                    );
                }
                Some(d)
            },
            Ok(None) => None,
            Err(e) => {
                return Err(e);
            },
        };
        let end_on_next = match map.get("END-ON-NEXT") {
            None => None,
            Some(v) => match v.as_enumerated_string() {
                Some(s) => Some(str_eq(s, "YES")),
                None => {
                    return Err(
                        ParseError::InvalidAttributeValue {
                            attribute: owned("END-ON-NEXT"),
                            value: owned("NONE"),
                            expected: "an enumerated string",
                        },
                    );
                },
            },
        };
        let extensions = take_x_entries(map.into_entries());
        Ok(DateRange {
            id,
            class,
            start_date,
            cue,
            end_date,
            duration,
            planned_duration,
            end_on_next,
            extensions,
        })
    }
}

/// An `EXT-X-SKIP` tag.
#[derive(Debug, Clone, PartialEq)]
pub struct Skip {
    pub skipped_segments: u64,
    pub recently_removed_dateranges: Vec<String>,
}

/// A skip tag with its text as bytes.
pub struct SkipV {
    pub skipped_segments: u64,
    pub recently_removed_dateranges: Seq<Seq<u8>>,
}

impl View for Skip {
    type V = SkipV;

    open spec fn view(&self) -> SkipV {
        SkipV {
            skipped_segments: self.skipped_segments,
            recently_removed_dateranges: crate::attribute_list::strings_view(
                self.recently_removed_dateranges@,
            ),
        }
    }
}

/// The skip an `EXT-X-SKIP` attribute list describes: `SKIPPED-SEGMENTS` is required; the
/// tab-separated identifiers of `RECENTLY-REMOVED-DATERANGES` are trimmed.
pub open spec fn skip_spec(m: Seq<(Seq<u8>, AttrV)>) -> Result<SkipV, PErr> {
    match integer_of(lookup(m, "SKIPPED-SEGMENTS".spec_bytes())) {
        None => Err(
            PErr::InvalidAttributeValue {
                attribute: "SKIPPED-SEGMENTS".spec_bytes(),
                value: "NONE".spec_bytes(),
                expected: "a valid decimal integer",
            },
        ),
        Some(n) => Ok(
            SkipV {
                skipped_segments: n,
                recently_removed_dateranges: match quoted_of(
                    lookup(m, "RECENTLY-REMOVED-DATERANGES".spec_bytes()),
                ) {
                    Some(t) => split(t, 0x09).map_values(|p: Seq<u8>| trim_spec(p)),
                    None => Seq::empty(),
                },
            },
        ),
    }
}

fn integer_attr(v: Option<&AttributeValue>) -> (r: Option<u64>)
    ensures
        r == integer_of(opt_view(v)),
{
    match v {
        Some(x) => x.as_decimal_integer(),
        None => None,
    }
}

/// The trimmed pieces of `s` between tabs, owned.
fn tab_separated(s: &str) -> (r: Vec<String>)
    ensures
        crate::attribute_list::strings_view(r@) == split(s.spec_bytes(), 0x09).map_values(
            |p: Seq<u8>| trim_spec(p),
        ),
{
    let parts = split_str(s, 0x09);
    let ghost ps = split(s.spec_bytes(), 0x09);
    let mut out: Vec<String> = Vec::new();
    let mut i: usize = 0;
    while i < parts.len()
        invariant
            i <= parts@.len(),
            parts@.len() == ps.len(),
            ps == split(s.spec_bytes(), 0x09),
            forall|k: int| 0 <= k < parts@.len() ==> #[trigger] parts@[k].spec_bytes() == ps[k],
            crate::attribute_list::strings_view(out@) == ps.take(i as int).map_values(
                |p: Seq<u8>| trim_spec(p),
            ),
        decreases parts.len() - i,
    {
        let t = trim(parts[i]);
        let ghost o = out@;
        let item = owned(t);
        out.push(item);
        proof {
            assert(parts@[i as int].spec_bytes() == ps[i as int]);
            assert(utf8(item@) == trim_spec(ps[i as int]));
            assert(crate::attribute_list::strings_view(out@) =~= crate::attribute_list::strings_view(o).push(
                utf8(item@),
            ));
            assert(ps.take(i + 1) =~= ps.take(i as int).push(ps[i as int]));
            assert(crate::attribute_list::strings_view(out@) =~= ps.take(i + 1).map_values(
                |p: Seq<u8>| trim_spec(p),
            ));
        }
        i = i + 1;
    }
    proof {
        assert(ps.take(ps.len() as int) =~= ps);
    }
    out
}

impl Skip {
    /// The skip an `EXT-X-SKIP` attribute list describes.
    pub fn from_attributes(map: AttributeList) -> (r: Result<Self, ParseError>)
        ensures
            match skip_spec(map@) {
                Ok(x) => r matches Ok(y) && y@ == x,
                Err(e) => r matches Err(y) && y@ == e,
            },
    {
        let skipped_segments = match integer_attr(map.get("SKIPPED-SEGMENTS")) {
            Some(n) => n,
            None => {
                return Err(
                    ParseError::InvalidAttributeValue {
                        attribute: owned("SKIPPED-SEGMENTS"),
                        value: owned("NONE"),
                        expected: "a valid decimal integer",
                    },
                );
            },
        };
        let empty: Vec<String> = Vec::new();
        proof {
            assert(crate::attribute_list::strings_view(empty@) =~= Seq::<Seq<u8>>::empty());
        }
        let recently_removed_dateranges = match map.get("RECENTLY-REMOVED-DATERANGES") {
            Some(v) => match v.as_quoted_string() {
                Some(s) => tab_separated(s),
                None => empty,
            },
            None => empty,
        };
        Ok(Skip { skipped_segments, recently_removed_dateranges })
    }
}

/// What an `EXT-X-PRELOAD-HINT` announces.
#[derive(Debug, Clone, Copy, PartialEq, Eq, Structural)]
pub enum PreloadHintType {
    SegmentMap,
    Part,
}

/// An `EXT-X-PRELOAD-HINT` tag.
#[derive(Debug, PartialEq)]
pub struct PreloadHint {
    pub hint_type: PreloadHintType,
    pub uri: Uri,
    pub byterange_start: u64,
    pub byterange_length: Option<u64>,
}

/// A preload hint with its text as bytes.
pub struct PreloadHintV {
    pub hint_type: PreloadHintType,
    pub uri: UriView,
    pub byterange_start: u64,
    pub byterange_length: Option<u64>,
}

impl View for PreloadHint {
    type V = PreloadHintV;

    open spec fn view(&self) -> PreloadHintV {
        PreloadHintV {
            hint_type: self.hint_type,
            uri: self.uri@,
            byterange_start: self.byterange_start,
            byterange_length: self.byterange_length,
        }
    }
}

/// The required `URI` attribute of a hint or report.
pub open spec fn required_uri_spec(m: Seq<(Seq<u8>, AttrV)>) -> Result<UriView, PErr> {
    match quoted_of(lookup(m, "URI".spec_bytes())) {
        None => Err(
            PErr::InvalidAttributeValue {
                attribute: "URI".spec_bytes(),
                value: "NONE".spec_bytes(),
                expected: "a quoted string",
            },
        ),
        Some(t) => Ok(parse_spec(t)),
    }
}

/// The preload hint an `EXT-X-PRELOAD-HINT` attribute list describes.
pub open spec fn preload_hint_spec(m: Seq<(Seq<u8>, AttrV)>) -> Result<PreloadHintV, PErr> {
    match enumerated_of(lookup(m, "TYPE".spec_bytes())) {
        None => Err(
            PErr::InvalidAttributeValue {
                attribute: "TYPE".spec_bytes(),
                value: "NONE".spec_bytes(),
                expected: "an enumerated string",
            },
        ),
        Some(t) => if t != "MAP".spec_bytes() && t != "PART".spec_bytes() {
            Err(
                PErr::InvalidAttributeValue {
                    attribute: "TYPE".spec_bytes(),
                    value: t,
                    expected: "an enumerated string with value MAP or PART",
                },
            )
        } else {
            match required_uri_spec(m) {
                Err(e) => Err(e),
                Ok(uri) => Ok(
                    PreloadHintV {
                        hint_type: if t == "MAP".spec_bytes() {
                            PreloadHintType::SegmentMap
                        } else {
                            PreloadHintType::Part
                        },
                        uri,
                        byterange_start: match integer_of(lookup(m, "BYTERANGE-START".spec_bytes())) {
                            Some(n) => n,
                            None => 0,
                        },
                        byterange_length: integer_of(lookup(m, "BYTERANGE-LENGTH".spec_bytes())),
                    },
                ),
            }
        },
    }
}

fn required_uri(map: &AttributeList) -> (r: Result<Uri, ParseError>)
    ensures
        match required_uri_spec(map@) {
            Ok(u) => r matches Ok(x) && x@ == u,
            Err(e) => r matches Err(x) && x@ == e,
        },
{
    match map.get("URI") {
        Some(v) => match v.as_quoted_string() {
            Some(s) => match Uri::parse(s) {
                Ok(u) => Ok(u),
                Err(_) => Err(
                    ParseError::InvalidAttributeValue {
                        attribute: owned("URI"),
                        value: owned(s),
                        expected: "a valid URI",
                    },
                ),
            },
            None => Err(
                ParseError::InvalidAttributeValue {
                    attribute: owned("URI"),
                    value: owned("NONE"),
                    expected: "a quoted string",
                },
            ),
        },
        None => Err(
            ParseError::InvalidAttributeValue {
                attribute: owned("URI"),
                value: owned("NONE"),
                expected: "a quoted string",
            },
        ),
    }
}

impl PreloadHint {
    /// The preload hint an `EXT-X-PRELOAD-HINT` attribute list describes.
    pub fn from_attributes(map: AttributeList) -> (r: Result<Self, ParseError>)
        ensures
            match preload_hint_spec(map@) {
                Ok(x) => r matches Ok(y) && y@ == x,
                Err(e) => r matches Err(y) && y@ == e,
            },
    {
        let t = match map.get("TYPE") {
            Some(v) => v.as_enumerated_string(),
            None => None,
        };
        let hint_type = match t {
            None => {
                return Err(
                    ParseError::InvalidAttributeValue {
                        attribute: owned("TYPE"),
                        value: owned("NONE"),
                        expected: "an enumerated string",
                    },
                );
            },
            Some(s) => {
                if str_eq(s, "MAP") {
                    PreloadHintType::SegmentMap
                } else if str_eq(s, "PART") {
                    PreloadHintType::Part
                } else {
                    return Err(
                        ParseError::InvalidAttributeValue {
                            attribute: owned("TYPE"),
                            value: owned(s),
                            expected: "an enumerated string with value MAP or PART",
                        },
                    );
                }
            },
        };
        let uri = match required_uri(&map) {
            Ok(u) => u,
            Err(e) => {
                return Err(e);
            },
        };
        let byterange_start = match integer_attr(map.get("BYTERANGE-START")) {
            Some(n) => n,
            None => 0,
        };
        let byterange_length = integer_attr(map.get("BYTERANGE-LENGTH"));
        Ok(PreloadHint { hint_type, uri, byterange_start, byterange_length })
    }
}

/// An `EXT-X-RENDITION-REPORT` tag.
#[derive(Debug, PartialEq)]
pub struct RenditionReport {
    pub uri: Uri,
    pub last_msn: u64,
    pub last_part: Option<u64>,
}

/// A rendition report with its text as bytes.
pub struct RenditionReportV {
    pub uri: UriView,
    pub last_msn: u64,
    pub last_part: Option<u64>,
}

impl View for RenditionReport {
    type V = RenditionReportV;

    open spec fn view(&self) -> RenditionReportV {
        RenditionReportV { uri: self.uri@, last_msn: self.last_msn, last_part: self.last_part }
    }
}

/// The report an `EXT-X-RENDITION-REPORT` attribute list describes.
pub open spec fn rendition_report_spec(m: Seq<(Seq<u8>, AttrV)>) -> Result<RenditionReportV, PErr> {
    match required_uri_spec(m) {
        Err(e) => Err(e),
        Ok(uri) => match integer_of(lookup(m, "LAST-MSN".spec_bytes())) {
            None => Err(
                PErr::InvalidAttributeValue {
                    attribute: "LAST-MSN".spec_bytes(),
                    value: "NONE".spec_bytes(),
                    expected: "a valid decimal integer",
                },
            ),
            Some(n) => Ok(
                RenditionReportV {
                    uri,
                    last_msn: n,
                    last_part: integer_of(lookup(m, "LAST-PART".spec_bytes())),
                },
            ),
        },
    }
}

impl RenditionReport {
    /// The report an `EXT-X-RENDITION-REPORT` attribute list describes.
    pub fn from_attributes(map: AttributeList) -> (r: Result<Self, ParseError>)
        ensures
            match rendition_report_spec(map@) {
                Ok(x) => r matches Ok(y) && y@ == x,
                Err(e) => r matches Err(y) && y@ == e,
            },
    {
        let uri = match required_uri(&map) {
            Ok(u) => u,
            Err(e) => {
                return Err(e);
            },
        };
        let last_msn = match integer_attr(map.get("LAST-MSN")) {
            Some(n) => n,
            None => {
                return Err(
                    ParseError::InvalidAttributeValue {
                        attribute: owned("LAST-MSN"),
                        value: owned("NONE"),
                        expected: "a valid decimal integer",
                    },
                );
            },
        };
        let last_part = integer_attr(map.get("LAST-PART"));
        Ok(RenditionReport { uri, last_msn, last_part })
    }
}

/// A metadata tag of a media playlist.
#[derive(Debug, PartialEq)]
pub enum MediaMetadata {
    Daterange(DateRange),
    Skip(Skip),
    PreloadHint(PreloadHint),
    RenditionReport(RenditionReport),
}

/// A metadata tag with its text as bytes.
pub enum MediaMetadataV {
    Daterange(DateRangeV),
    Skip(SkipV),
    PreloadHint(PreloadHintV),
    RenditionReport(RenditionReportV),
}

impl View for MediaMetadata {
    type V = MediaMetadataV;

    open spec fn view(&self) -> MediaMetadataV {
        match self {
            MediaMetadata::Daterange(d) => MediaMetadataV::Daterange(d@),
            MediaMetadata::Skip(s) => MediaMetadataV::Skip(s@),
            MediaMetadata::PreloadHint(p) => MediaMetadataV::PreloadHint(p@),
            MediaMetadata::RenditionReport(r) => MediaMetadataV::RenditionReport(r@),
        }
    }
}

/// The metadata tag on the line `line` (the number `n`).
#[verifier::opaque]
pub open spec fn metadata_spec(line: Seq<u8>, n: nat) -> Result<MediaMetadataV, PErr> {
    if has_prefix(line, "#EXT-X-DATERANGE:".spec_bytes()) {
        match attribute_list_spec(after(line, "#EXT-X-DATERANGE:".spec_bytes())) {
            Err(e) => Err(e),
            Ok(m) => match date_range_spec(m) {
                Ok(d) => Ok(MediaMetadataV::Daterange(d)),
                Err(e) => Err(e),
            },
        }
    } else if has_prefix(line, "#EXT-X-SKIP:".spec_bytes()) {
        match attribute_list_spec(after(line, "#EXT-X-SKIP:".spec_bytes())) {
            Err(e) => Err(e),
            Ok(m) => match skip_spec(m) {
                Ok(d) => Ok(MediaMetadataV::Skip(d)),
                Err(e) => Err(e),
            },
        }
    } else if has_prefix(line, "#EXT-X-PRELOAD-HINT:".spec_bytes()) {
        match attribute_list_spec(after(line, "#EXT-X-PRELOAD-HINT:".spec_bytes())) {
            Err(e) => Err(e),
            Ok(m) => match preload_hint_spec(m) {
                Ok(d) => Ok(MediaMetadataV::PreloadHint(d)),
                Err(e) => Err(e),
            },
        }
    } else if has_prefix(line, "#EXT-X-RENDITION-REPORT:".spec_bytes()) {
        match attribute_list_spec(after(line, "#EXT-X-RENDITION-REPORT:".spec_bytes())) {
            Err(e) => Err(e),
            Ok(m) => match rendition_report_spec(m) {
                Ok(d) => Ok(MediaMetadataV::RenditionReport(d)),
                Err(e) => Err(e),
            },
        }
    } else {
        Err(PErr::UnknownTag { tag: line, line: n, column: 0 })
    }
}

impl MediaMetadata {
    /// Parses a metadata tag; `line_number` is reported for an unknown tag.
    pub fn parse_line(line: &str, line_number: usize) -> (r: Result<Self, ParseError>)
        ensures
            match metadata_spec(line.spec_bytes(), line_number as nat) {
                Ok(x) => r matches Ok(y) && y@ == x,
                Err(e) => r matches Err(y) && y@ == e,
            },
    {
        proof {
            reveal(metadata_spec);
        }
        if let Some(rest) = strip_prefix(line, "#EXT-X-DATERANGE:") {
            return match parse_attribute_list(rest) {
                Err(e) => Err(e),
                Ok(m) => match DateRange::from_attributes(m) {
                    Ok(d) => Ok(MediaMetadata::Daterange(d)),
                    Err(e) => Err(e),
                },
            };
        }
        if let Some(rest) = strip_prefix(line, "#EXT-X-SKIP:") {
            return match parse_attribute_list(rest) {
                Err(e) => Err(e),
                Ok(m) => match Skip::from_attributes(m) {
                    Ok(d) => Ok(MediaMetadata::Skip(d)),
                    Err(e) => Err(e),
                },
            };
        }
        if let Some(rest) = strip_prefix(line, "#EXT-X-PRELOAD-HINT:") {
            return match parse_attribute_list(rest) {
                Err(e) => Err(e),
                Ok(m) => match PreloadHint::from_attributes(m) {
                    Ok(d) => Ok(MediaMetadata::PreloadHint(d)),
                    Err(e) => Err(e),
                },
            };
        }
        if let Some(rest) = strip_prefix(line, "#EXT-X-RENDITION-REPORT:") {
            return match parse_attribute_list(rest) {
                Err(e) => Err(e),
                Ok(m) => match RenditionReport::from_attributes(m) {
                    Ok(d) => Ok(MediaMetadata::RenditionReport(d)),
                    Err(e) => Err(e),
                },
            };
        }
        Err(ParseError::UnknownTag { tag: owned(line), span: Span { line: line_number, column: 0 } })
    }

    /// The skip tag, if this is one.
    pub fn as_skip(&self) -> (r: Option<&Skip>)
        ensures
            match self {
                MediaMetadata::Skip(s) => r == Some(s),
                _ => r is None,
            },
    {
        match self {
            MediaMetadata::Skip(s) => Some(s),
            _ => None,
        }
    }
}

} // verus!
