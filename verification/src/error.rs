//! Errors reported by the parsers.
use vstd::prelude::*;

verus! {

/// Why a URI could not be decoded.
#[derive(Debug, Clone, Copy, PartialEq, Eq, Structural)]
pub enum UriError {
    MissingScheme,
    MissingAuthoritySeparator,
    InvalidFormat,
    InvalidPercentEncoding,
    InvalidUtf8,
}

} // verus!

use crate::num::IntErrorKind;
use crate::text::utf8;

verus! {

/// Why a codec string could not be parsed.
#[derive(Debug, Clone, PartialEq, Eq)]
pub enum CodecParseError {
    Empty,
    MissingField(&'static str),
    InvalidHex { field: &'static str, inner: IntErrorKind },
    InvalidDecimal { field: &'static str, inner: IntErrorKind },
    UnknownAvcProfile(u8),
    UnknownHevcProfile(u8),
    UnknownVp9Profile(u8),
    InvalidChroma(u8),
    InvalidFourcc(String),
    WrongHexLength { field: &'static str, expected: usize, got: usize },
}

/// A codec error with its text as bytes.
pub enum CodecErr {
    Empty,
    MissingField(Seq<char>),
    InvalidHex { field: Seq<char>, inner: IntErrorKind },
    InvalidDecimal { field: Seq<char>, inner: IntErrorKind },
    UnknownAvcProfile(u8),
    UnknownHevcProfile(u8),
    UnknownVp9Profile(u8),
    InvalidChroma(u8),
    InvalidFourcc(Seq<u8>),
    WrongHexLength { field: Seq<char>, expected: nat, got: nat },
}

impl View for CodecParseError {
    type V = CodecErr;

    open spec fn view(&self) -> CodecErr {
        match self {
            CodecParseError::Empty => CodecErr::Empty,
            CodecParseError::MissingField(f) => CodecErr::MissingField(f@),
            CodecParseError::InvalidHex { field, inner } => CodecErr::InvalidHex {
                field: field@,
                inner: *inner,
            },
            CodecParseError::InvalidDecimal { field, inner } => CodecErr::InvalidDecimal {
                field: field@,
                inner: *inner,
            },
            CodecParseError::UnknownAvcProfile(p) => CodecErr::UnknownAvcProfile(*p),
            CodecParseError::UnknownHevcProfile(p) => CodecErr::UnknownHevcProfile(*p),
            CodecParseError::UnknownVp9Profile(p) => CodecErr::UnknownVp9Profile(*p),
            CodecParseError::InvalidChroma(p) => CodecErr::InvalidChroma(*p),
            CodecParseError::InvalidFourcc(s) => CodecErr::InvalidFourcc(utf8(s@)),
            CodecParseError::WrongHexLength { field, expected, got } => CodecErr::WrongHexLength {
                field: field@,
                expected: *expected as nat,
                got: *got as nat,
            },
        }
    }
}

/// Why a `SUPPLEMENTAL-CODECS` value could not be parsed.
#[derive(Debug)]
pub enum SupplementalCodecParseError {
    Empty,
    /// The codec portion of an entry failed to parse.
    Codec(CodecParseError),
    /// A compatibility brand is not a 4-byte FourCC.
    InvalidBrand(String),
    /// A specific comma-separated entry failed; carries its index.
    Entry { index: usize, inner: Box<SupplementalCodecParseError> },
}

/// A supplemental-codecs error with its text as bytes.
pub enum SupplementalErr {
    Empty,
    Codec(CodecErr),
    InvalidBrand(Seq<u8>),
    Entry { index: nat, inner: Box<SupplementalErr> },
}

/// The view of a supplemental-codecs error.
pub open spec fn supplemental_err_view(e: SupplementalCodecParseError) -> SupplementalErr
    decreases e,
{
    match e {
        SupplementalCodecParseError::Empty => SupplementalErr::Empty,
        SupplementalCodecParseError::Codec(c) => SupplementalErr::Codec(c@),
        SupplementalCodecParseError::InvalidBrand(b) => SupplementalErr::InvalidBrand(utf8(b@)),
        SupplementalCodecParseError::Entry { index, inner } => SupplementalErr::Entry {
            index: index as nat,
            inner: Box::new(supplemental_err_view(*inner)),
        },
    }
}

impl View for SupplementalCodecParseError {
    type V = SupplementalErr;

    open spec fn view(&self) -> SupplementalErr {
        supplemental_err_view(*self)
    }
}

} // verus!

verus! {

/// A position in the playlist text.
#[derive(Debug, Clone, PartialEq, Eq)]
pub struct Span {
    pub line: usize,
    pub column: usize,
}

/// Why a playlist line, tag or attribute could not be parsed.
#[derive(Debug, Clone, PartialEq, Eq)]
pub enum ParseError {
    InvalidLine(String),
    UnknownTag { tag: String, span: Span },
    DuplicateTag(String),
    ExpectedQuotedString,
    InvalidQuotedString { value: String, reason: Option<&'static str> },
    UnknownAttribute(String),
    InvalidAttributeValue { attribute: String, value: String, expected: &'static str },
    MissingAttribute { attribute: String },
    TooManyAttributes { expected: usize, found: usize },
    InvalidAttributeDefinition { definition: String },
    MediaSequenceAfterSegment,
    InvalidEnumeratedString { value: String, expected: &'static [&'static str] },
    InvalidDecimalResolution { value: String },
    InvalidHexSequence { value: String },
    InvalidDateTime { value: String },
    ExpectedDecimalInteger { found: String },
    InvalidUri { source: UriError },
    CodecError(CodecParseError),
    MixedPlaylistTypes,
    NoPendingSegment,
    /// A tag came where the order of tags does not allow it.
    BadOrder { expected: &'static str, found: &'static str },
}

/// A parse error with its text as bytes.
pub enum PErr {
    InvalidLine(Seq<u8>),
    UnknownTag { tag: Seq<u8>, line: nat, column: nat },
    DuplicateTag(Seq<u8>),
    ExpectedQuotedString,
    InvalidQuotedString { value: Seq<u8>, reason: Option<&'static str> },
    UnknownAttribute(Seq<u8>),
    InvalidAttributeValue { attribute: Seq<u8>, value: Seq<u8>, expected: &'static str },
    MissingAttribute { attribute: Seq<u8> },
    TooManyAttributes { expected: nat, found: nat },
    InvalidAttributeDefinition { definition: Seq<u8> },
    MediaSequenceAfterSegment,
    InvalidEnumeratedString { value: Seq<u8>, expected: Seq<&'static str> },
    InvalidDecimalResolution { value: Seq<u8> },
    InvalidHexSequence { value: Seq<u8> },
    InvalidDateTime { value: Seq<u8> },
    ExpectedDecimalInteger { found: Seq<u8> },
    InvalidUri { source: UriError },
    CodecError(CodecErr),
    MixedPlaylistTypes,
    NoPendingSegment,
    BadOrder { expected: &'static str, found: &'static str },
}

impl View for ParseError {
    type V = PErr;

    open spec fn view(&self) -> PErr {
        match self {
            ParseError::InvalidLine(s) => PErr::InvalidLine(utf8(s@)),
            ParseError::UnknownTag { tag, span } => PErr::UnknownTag {
                tag: utf8(tag@),
                line: span.line as nat,
                column: span.column as nat,
            },
            ParseError::DuplicateTag(s) => PErr::DuplicateTag(utf8(s@)),
            ParseError::ExpectedQuotedString => PErr::ExpectedQuotedString,
            ParseError::InvalidQuotedString { value, reason } => PErr::InvalidQuotedString {
                value: utf8(value@),
                reason: *reason,
            },
            ParseError::UnknownAttribute(s) => PErr::UnknownAttribute(utf8(s@)),
            ParseError::InvalidAttributeValue { attribute, value, expected } =>
                PErr::InvalidAttributeValue {
                attribute: utf8(attribute@),
                value: utf8(value@),
                expected: *expected,
            },
            ParseError::MissingAttribute { attribute } => PErr::MissingAttribute {
                attribute: utf8(attribute@),
            },
            ParseError::TooManyAttributes { expected, found } => PErr::TooManyAttributes {
                expected: *expected as nat,
                found: *found as nat,
            },
            ParseError::InvalidAttributeDefinition { definition } =>
                PErr::InvalidAttributeDefinition { definition: utf8(definition@) },
            ParseError::MediaSequenceAfterSegment => PErr::MediaSequenceAfterSegment,
            ParseError::InvalidEnumeratedString { value, expected } =>
                PErr::InvalidEnumeratedString { value: utf8(value@), expected: expected@ },
            ParseError::InvalidDecimalResolution { value } => PErr::InvalidDecimalResolution {
                value: utf8(value@),
            },
            ParseError::InvalidHexSequence { value } => PErr::InvalidHexSequence {
                value: utf8(value@),
            },
            ParseError::InvalidDateTime { value } => PErr::InvalidDateTime { value: utf8(value@) },
            ParseError::ExpectedDecimalInteger { found } => PErr::ExpectedDecimalInteger {
                found: utf8(found@),
            },
            ParseError::InvalidUri { source } => PErr::InvalidUri { source: *source },
            ParseError::CodecError(c) => PErr::CodecError(c@),
            ParseError::MixedPlaylistTypes => PErr::MixedPlaylistTypes,
            ParseError::NoPendingSegment => PErr::NoPendingSegment,
            ParseError::BadOrder { expected, found } => PErr::BadOrder { expected: *expected, found: *found },
        }
    }
}

/// The enumerated strings a boolean attribute accepts.
pub fn yes_no() -> (r: &'static [&'static str])
    ensures
        r@ == seq!["YES", "NO"],
{
    let r: &'static [&'static str] = &["YES", "NO"];
    r
}

/// The one enumerated string `CLOSED-CAPTIONS` accepts besides a quoted string.
pub fn none_only() -> (r: &'static [&'static str])
    ensures
        r@ == seq!["NONE"],
{
    let r: &'static [&'static str] = &["NONE"];
    r
}

} // verus!

verus! {

/// Why a playlist breaks a rule of the format.
#[derive(Debug)]
pub enum ValidationError {
    UnknownImportedVariable(String),
    ImportMediaWithoutMultivariant,
    InvalidUri,
    InvalidMultivariantAttribute,
    InvalidTargetDuration,
    MissingRequiredTag(String),
    InvalidSharedTag(crate::playlist::SharedTag, String),
    MissingPartInf,
    InvalidServerControl(String),
}

/// A validation error with its text as bytes.
pub enum VErr {
    UnknownImportedVariable(Seq<u8>),
    ImportMediaWithoutMultivariant,
    InvalidUri,
    InvalidMultivariantAttribute,
    InvalidTargetDuration,
    MissingRequiredTag(Seq<u8>),
    InvalidSharedTag(crate::playlist::SharedTagV, Seq<u8>),
    MissingPartInf,
    InvalidServerControl(Seq<u8>),
}

impl View for ValidationError {
    type V = VErr;

    open spec fn view(&self) -> VErr {
        match self {
            ValidationError::UnknownImportedVariable(s) => VErr::UnknownImportedVariable(utf8(s@)),
            ValidationError::ImportMediaWithoutMultivariant => VErr::ImportMediaWithoutMultivariant,
            ValidationError::InvalidUri => VErr::InvalidUri,
            ValidationError::InvalidMultivariantAttribute => VErr::InvalidMultivariantAttribute,
            ValidationError::InvalidTargetDuration => VErr::InvalidTargetDuration,
            ValidationError::MissingRequiredTag(s) => VErr::MissingRequiredTag(utf8(s@)),
            ValidationError::InvalidSharedTag(t, s) => VErr::InvalidSharedTag(t@, utf8(s@)),
            ValidationError::MissingPartInf => VErr::MissingPartInf,
            ValidationError::InvalidServerControl(s) => VErr::InvalidServerControl(utf8(s@)),
        }
    }
}


impl From<CodecParseError> for ParseError {
    fn from(value: CodecParseError) -> (r: Self) {
        ParseError::CodecError(value)
    }
}

/// A codec error becomes a parse error that carries it.
impl vstd::std_specs::convert::FromSpecImpl<CodecParseError> for ParseError {
    open spec fn obeys_from_spec() -> bool {
        true
    }

    open spec fn from_spec(v: CodecParseError) -> Self {
        ParseError::CodecError(v)
    }
}

impl From<UriError> for ParseError {
    fn from(source: UriError) -> (r: Self) {
        ParseError::InvalidUri { source }
    }
}

/// A URI error becomes a parse error that carries it.
impl vstd::std_specs::convert::FromSpecImpl<UriError> for ParseError {
    open spec fn obeys_from_spec() -> bool {
        true
    }

    open spec fn from_spec(v: UriError) -> Self {
        ParseError::InvalidUri { source: v }
    }
}

} // verus!
