//! The messages of the errors, as their users read them.
use vstd::prelude::*;
use vstd::string::*;
use vstd::utf8::*;
use crate::error::{
    CodecErr, CodecParseError, PErr, ParseError, SupplementalCodecParseError, SupplementalErr, UriError, VErr,
    ValidationError,
};
use crate::num::{IntErrorKind, dec_digits, hex_digits, lemma_hex_digits, push_hex_padded, zero_pad};
use crate::render::{push_number, push_text, shared_tag_text};
use crate::text::{string_of_bytes, utf8};
use crate::uri::lemma_ascii_valid;

verus! {

/// What `format!("{:?}", s)` writes for the string `s` (quoted, with escapes).
pub uninterp spec fn debug_text(s: Seq<u8>) -> Seq<u8>;

/// `format!("{:?}", s)`: claimed to give the named text, a function of the string alone.
#[verifier::external_body]
fn debug_string(s: &str) -> (r: String)
    ensures
        utf8(r@) == debug_text(s.spec_bytes()),
{
    format!("{:?}", s)
}

fn new_text() -> (r: Vec<u8>)
    ensures
        r@ == Seq::<u8>::empty(),
        valid_utf8(r@),
{
    let r: Vec<u8> = Vec::new();
    proof {
        lemma_ascii_valid(r@);
    }
    r
}

fn finish(out: Vec<u8>) -> (r: String)
    requires
        valid_utf8(out@),
    ensures
        utf8(r@) == out@,
{
    string_of_bytes(out)
}

fn push_string_text(out: &mut Vec<u8>, s: &String)
    requires
        valid_utf8(old(out)@),
    ensures
        final(out)@ == old(out)@ + utf8(s@),
        valid_utf8(final(out)@),
{
    push_text(out, s.as_str());
}

/// The message of an integer error kind.
pub open spec fn int_error_text(k: IntErrorKind) -> Seq<u8> {
    match k {
        IntErrorKind::Empty => "cannot parse integer from empty string".spec_bytes(),
        IntErrorKind::InvalidDigit => "invalid digit found in string".spec_bytes(),
        IntErrorKind::PosOverflow => "number too large to fit in target type".spec_bytes(),
    }
}

fn int_error_str(k: IntErrorKind) -> (r: &'static str)
    ensures
        r.spec_bytes() == int_error_text(k),
{
    match k {
        IntErrorKind::Empty => "cannot parse integer from empty string",
        IntErrorKind::InvalidDigit => "invalid digit found in string",
        IntErrorKind::PosOverflow => "number too large to fit in target type",
    }
}

/// The message of a URI error.
pub open spec fn uri_error_text(e: UriError) -> Seq<u8> {
    match e {
        UriError::MissingScheme => "URI missing scheme".spec_bytes(),
        UriError::MissingAuthoritySeparator => "URI missing '//' after scheme".spec_bytes(),
        UriError::InvalidFormat => "URI has invalid format".spec_bytes(),
        UriError::InvalidPercentEncoding => "Invalid percent-encoded sequence".spec_bytes(),
        UriError::InvalidUtf8 => "Decoded bytes are not valid UTF-8".spec_bytes(),
    }
}

impl UriError {
    /// The message; see `uri_error_text`.
    pub fn message(&self) -> (r: &'static str)
        ensures
            r.spec_bytes() == uri_error_text(*self),
    {
        match self {
            UriError::MissingScheme => "URI missing scheme",
            UriError::MissingAuthoritySeparator => "URI missing '//' after scheme",
            UriError::InvalidFormat => "URI has invalid format",
            UriError::InvalidPercentEncoding => "Invalid percent-encoded sequence",
            UriError::InvalidUtf8 => "Decoded bytes are not valid UTF-8",
        }
    }
}

/// The message of a codec error.
pub open spec fn codec_error_text(e: CodecErr) -> Seq<u8> {
    match e {
        CodecErr::Empty => "empty codec string".spec_bytes(),
        CodecErr::MissingField(name) => "missing required field: ".spec_bytes() + encode_utf8(name),
        CodecErr::InvalidHex { field, inner } => "invalid hex in field '".spec_bytes() + encode_utf8(field)
            + "': ".spec_bytes() + int_error_text(inner),
        CodecErr::InvalidDecimal { field, inner } => "invalid decimal in field '".spec_bytes() + encode_utf8(field)
            + "': ".spec_bytes() + int_error_text(inner),
        CodecErr::UnknownAvcProfile(p) => "unknown AVC profile IDC 0x".spec_bytes() + zero_pad(hex_digits(p as nat), 2),
        CodecErr::UnknownHevcProfile(p) => "unknown HEVC profile IDC ".spec_bytes() + dec_digits(p as nat),
        CodecErr::UnknownVp9Profile(p) => "unknown VP9 profile ".spec_bytes() + dec_digits(p as nat),
        CodecErr::InvalidChroma(c) => "invalid VP chroma subsampling value ".spec_bytes() + dec_digits(c as nat),
        CodecErr::InvalidFourcc(s) => "FourCC must be 4 ASCII bytes, got ".spec_bytes() + debug_text(s),
        CodecErr::WrongHexLength { field, expected, got } => "field '".spec_bytes() + encode_utf8(field)
            + "' must be ".spec_bytes() + dec_digits(expected) + " hex chars, got ".spec_bytes() + dec_digits(got),
    }
}

impl CodecParseError {
    /// The message; see `codec_error_text`.
    pub fn push_message(&self, out: &mut Vec<u8>)
        requires
            valid_utf8(old(out)@),
        ensures
            final(out)@ == old(out)@ + codec_error_text(self@),
            valid_utf8(final(out)@),
    {
        let mut b = new_text();
        match self {
            CodecParseError::Empty => push_text(&mut b, "empty codec string"),
            CodecParseError::MissingField(name) => {
                push_text(&mut b, "missing required field: ");
                push_text(&mut b, name);
            },
            CodecParseError::InvalidHex { field, inner } => {
                push_text(&mut b, "invalid hex in field '");
                push_text(&mut b, field);
                push_text(&mut b, "': ");
                push_text(&mut b, int_error_str(*inner));
            },
            CodecParseError::InvalidDecimal { field, inner } => {
                push_text(&mut b, "invalid decimal in field '");
                push_text(&mut b, field);
                push_text(&mut b, "': ");
                push_text(&mut b, int_error_str(*inner));
            },
            CodecParseError::UnknownAvcProfile(p) => {
                push_text(&mut b, "unknown AVC profile IDC 0x");
                let ghost before = b@;
                push_hex_padded(&mut b, *p as u64, 2);
                proof {
                    let d = zero_pad(hex_digits(*p as nat), 2);
                    lemma_hex_digits(*p as nat);
                    assert forall|i: int| 0 <= i < d.len() implies d[i] < 0x80 by {
                        if hex_digits(*p as nat).len() < 2 {
                            let z = Seq::new((2 - hex_digits(*p as nat).len()) as nat, |k: int| 0x30u8);
                            assert(d == z + hex_digits(*p as nat));
                            if i >= z.len() {
                                assert(d[i] == hex_digits(*p as nat)[i - z.len()]);
                            }
                        }
                    }
                    lemma_ascii_valid(d);
                    valid_utf8_concat(before, d);
                }
            },
            CodecParseError::UnknownHevcProfile(p) => {
                push_text(&mut b, "unknown HEVC profile IDC ");
                push_number(&mut b, *p as u64);
            },
            CodecParseError::UnknownVp9Profile(p) => {
                push_text(&mut b, "unknown VP9 profile ");
                push_number(&mut b, *p as u64);
            },
            CodecParseError::InvalidChroma(c) => {
                push_text(&mut b, "invalid VP chroma subsampling value ");
                push_number(&mut b, *c as u64);
            },
            CodecParseError::InvalidFourcc(s) => {
                push_text(&mut b, "FourCC must be 4 ASCII bytes, got ");
                let d = debug_string(s.as_str());
                push_text(&mut b, d.as_str());
            },
            CodecParseError::WrongHexLength { field, expected, got } => {
                push_text(&mut b, "field '");
                push_text(&mut b, field);
                push_text(&mut b, "' must be ");
                push_number(&mut b, *expected as u64);
                push_text(&mut b, " hex chars, got ");
                push_number(&mut b, *got as u64);
            },
        }
        proof {
            assert(b@ =~= codec_error_text(self@));
        }
        let mut b = b;
        proof {
            valid_utf8_concat(old(out)@, b@);
        }
        out.append(&mut b);
    }

    /// The message; see `codec_error_text`.
    pub fn to_string(&self) -> (r: String)
        ensures
            utf8(r@) == codec_error_text(self@),
    {
        let mut b = new_text();
        self.push_message(&mut b);
        proof {
            assert(b@ =~= codec_error_text(self@));
        }
        finish(b)
    }
}

/// The message of a supplemental-codecs error: an entry's error is prefixed by its index.
pub open spec fn supplemental_error_text(e: SupplementalErr) -> Seq<u8>
    decreases e,
{
    match e {
        SupplementalErr::Empty => "empty supplemental codec string".spec_bytes(),
        SupplementalErr::Codec(c) => "invalid codec: ".spec_bytes() + codec_error_text(c),
        SupplementalErr::InvalidBrand(b) => "invalid compatibility brand: ".spec_bytes() + debug_text(b)
            + " (must be 4 ASCII bytes)".spec_bytes(),
        SupplementalErr::Entry { index, inner } => "entry ".spec_bytes() + dec_digits(index) + ": ".spec_bytes()
            + supplemental_error_text(*inner),
    }
}

impl SupplementalCodecParseError {
    /// Appends the message; see `supplemental_error_text`.
    pub fn push_message(&self, out: &mut Vec<u8>)
        requires
            valid_utf8(old(out)@),
        ensures
            final(out)@ == old(out)@ + supplemental_error_text(self@),
            valid_utf8(final(out)@),
        decreases self,
    {
        let mut b = new_text();
        match self {
            SupplementalCodecParseError::Empty => push_text(&mut b, "empty supplemental codec string"),
            SupplementalCodecParseError::Codec(c) => {
                push_text(&mut b, "invalid codec: ");
                c.push_message(&mut b);
            },
            SupplementalCodecParseError::InvalidBrand(s) => {
                push_text(&mut b, "invalid compatibility brand: ");
                let d = debug_string(s.as_str());
                push_text(&mut b, d.as_str());
                push_text(&mut b, " (must be 4 ASCII bytes)");
            },
            SupplementalCodecParseError::Entry { index, inner } => {
                push_text(&mut b, "entry ");
                push_number(&mut b, *index as u64);
                push_text(&mut b, ": ");
                inner.push_message(&mut b);
            },
        }
        proof {
            assert(b@ =~= supplemental_error_text(self@));
        }
        let mut b = b;
        proof {
            valid_utf8_concat(old(out)@, b@);
        }
        out.append(&mut b);
    }
}

/// Strings joined by `, `.
pub open spec fn join_names(names: Seq<&'static str>) -> Seq<u8>
    decreases names.len(),
{
    if names.len() == 0 {
        Seq::empty()
    } else if names.len() == 1 {
        names[0].spec_bytes()
    } else {
        join_names(names.drop_last()) + ", ".spec_bytes() + names.last().spec_bytes()
    }
}

/// The message of a parse error.
pub open spec fn parse_error_text(e: PErr) -> Seq<u8> {
    match e {
        PErr::MixedPlaylistTypes => "Mixed playlist types, e.g. Multivariant tags in a media playlist, or vice versa.".spec_bytes(),
        PErr::CodecError(c) => "codec: ".spec_bytes() + codec_error_text(c),
        PErr::InvalidLine(l) => "Invalid line: ".spec_bytes() + l,
        PErr::UnknownTag { tag, line, column } => "Unknown tag: ".spec_bytes() + tag + " at ".spec_bytes() + dec_digits(line)
            + ":".spec_bytes() + dec_digits(column),
        PErr::DuplicateTag(t) => "Duplicate tag: ".spec_bytes() + t,
        PErr::ExpectedQuotedString => "Expected quoted string".spec_bytes(),
        PErr::InvalidQuotedString { value, .. } => "Invalid quoted string: ".spec_bytes() + value,
        PErr::UnknownAttribute(a) => "Unknown attribute: ".spec_bytes() + a,
        PErr::InvalidAttributeValue { attribute, value, expected } => "Invalid attribute value for ".spec_bytes() + attribute
            + ": ".spec_bytes() + value + " (expected: ".spec_bytes() + expected.spec_bytes() + ")".spec_bytes(),
        PErr::InvalidAttributeDefinition { definition } => "Invalid attribute definition: ".spec_bytes() + definition,
        PErr::InvalidUri { source } => "Invalid URI: ".spec_bytes() + uri_error_text(source),
        PErr::NoPendingSegment => "No pending segment".spec_bytes(),
        PErr::MissingAttribute { attribute } => "Missing attribute: ".spec_bytes() + attribute,
        PErr::InvalidEnumeratedString { value, expected } => "Invalid enumerated string: ".spec_bytes() + value
            + " (expected one of: ".spec_bytes() + join_names(expected) + ")".spec_bytes(),
        PErr::InvalidHexSequence { value } => "Invalid hex sequence: ".spec_bytes() + value,
        PErr::TooManyAttributes { expected, found } => "Too many attributes than required. Expected: ".spec_bytes()
            + dec_digits(expected) + ", found: ".spec_bytes() + dec_digits(found),
        PErr::MediaSequenceAfterSegment => "Media sequence after segment".spec_bytes(),
        PErr::ExpectedDecimalInteger { found } => "Expected decimal integer, found: ".spec_bytes() + found,
        PErr::InvalidDateTime { value } => "Invalid DateTime: ".spec_bytes() + value,
        PErr::InvalidDecimalResolution { value } => "Invalid decimal resolution: ".spec_bytes() + value,
        PErr::BadOrder { expected, found } => "Tags out of order: expected ".spec_bytes() + expected.spec_bytes()
            + ", found ".spec_bytes() + found.spec_bytes(),
    }
}

fn push_names(out: &mut Vec<u8>, names: &'static [&'static str])
    requires
        valid_utf8(old(out)@),
    ensures
        final(out)@ == old(out)@ + join_names(names@),
        valid_utf8(final(out)@),
{
    let ghost ns = names@;
    let ghost o0 = out@;
    let mut i: usize = 0;
    proof {
        assert(ns.take(0) =~= Seq::<&'static str>::empty());
        assert(out@ =~= o0 + join_names(ns.take(0)));
    }
    while i < names.len()
        invariant
            i <= ns.len(),
            ns == names@,
            out@ == o0 + join_names(ns.take(i as int)),
            valid_utf8(out@),
        decreases names.len() - i,
    {
        proof {
            assert(ns.take(i + 1).drop_last() =~= ns.take(i as int));
            assert(ns.take(i + 1).last() == ns[i as int]);
        }
        if i > 0 {
            push_text(out, ", ");
            push_text(out, names[i]);
            proof {
                assert(out@ =~= o0 + (join_names(ns.take(i as int)) + ", ".spec_bytes() + ns[i as int].spec_bytes()));
            }
        } else {
            push_text(out, names[i]);
            proof {
                assert(ns.take(1) =~= seq![ns[0]]);
                assert(out@ =~= o0 + ns[0].spec_bytes());
            }
        }
        i = i + 1;
    }
    proof {
        assert(ns.take(ns.len() as int) =~= ns);
    }
}

impl ParseError {
    /// The message; see `parse_error_text`.
    #[verifier::spinoff_prover]
    pub fn to_string(&self) -> (r: String)
        ensures
            utf8(r@) == parse_error_text(self@),
    {
        let mut b = new_text();
        match self {
            ParseError::MixedPlaylistTypes => push_text(
                &mut b,
                "Mixed playlist types, e.g. Multivariant tags in a media playlist, or vice versa.",
            ),
            ParseError::CodecError(c) => {
                push_text(&mut b, "codec: ");
                c.push_message(&mut b);
            },
            ParseError::InvalidLine(l) => {
                push_text(&mut b, "Invalid line: ");
                push_string_text(&mut b, l);
            },
            ParseError::UnknownTag { tag, span } => {
                push_text(&mut b, "Unknown tag: ");
                push_string_text(&mut b, tag);
                push_text(&mut b, " at ");
                push_number(&mut b, span.line as u64);
                push_text(&mut b, ":");
                push_number(&mut b, span.column as u64);
            },
            ParseError::DuplicateTag(t) => {
                push_text(&mut b, "Duplicate tag: ");
                push_string_text(&mut b, t);
            },
            ParseError::ExpectedQuotedString => push_text(&mut b, "Expected quoted string"),
            ParseError::InvalidQuotedString { value, .. } => {
                push_text(&mut b, "Invalid quoted string: ");
                push_string_text(&mut b, value);
            },
            ParseError::UnknownAttribute(a) => {
                push_text(&mut b, "Unknown attribute: ");
                push_string_text(&mut b, a);
            },
            ParseError::InvalidAttributeValue { attribute, value, expected } => {
                push_text(&mut b, "Invalid attribute value for ");
                push_string_text(&mut b, attribute);
                push_text(&mut b, ": ");
                push_string_text(&mut b, value);
                push_text(&mut b, " (expected: ");
                push_text(&mut b, expected);
                push_text(&mut b, ")");
            },
            ParseError::InvalidAttributeDefinition { definition } => {
                push_text(&mut b, "Invalid attribute definition: ");
                push_string_text(&mut b, definition);
            },
            ParseError::InvalidUri { source } => {
                push_text(&mut b, "Invalid URI: ");
                push_text(&mut b, source.message());
            },
            ParseError::NoPendingSegment => push_text(&mut b, "No pending segment"),
            ParseError::MissingAttribute { attribute } => {
                push_text(&mut b, "Missing attribute: ");
                push_string_text(&mut b, attribute);
            },
            ParseError::InvalidEnumeratedString { value, expected } => {
                push_text(&mut b, "Invalid enumerated string: ");
                push_string_text(&mut b, value);
                push_text(&mut b, " (expected one of: ");
                push_names(&mut b, expected);
                push_text(&mut b, ")");
            },
            ParseError::InvalidHexSequence { value } => {
                push_text(&mut b, "Invalid hex sequence: ");
                push_string_text(&mut b, value);
            },
            ParseError::TooManyAttributes { expected, found } => {
                push_text(&mut b, "Too many attributes than required. Expected: ");
                push_number(&mut b, *expected as u64);
                push_text(&mut b, ", found: ");
                push_number(&mut b, *found as u64);
            },
            ParseError::MediaSequenceAfterSegment => push_text(&mut b, "Media sequence after segment"),
            ParseError::ExpectedDecimalInteger { found } => {
                push_text(&mut b, "Expected decimal integer, found: ");
                push_string_text(&mut b, found);
            },
            ParseError::InvalidDateTime { value } => {
                push_text(&mut b, "Invalid DateTime: ");
                push_string_text(&mut b, value);
            },
            ParseError::InvalidDecimalResolution { value } => {
                push_text(&mut b, "Invalid decimal resolution: ");
                push_string_text(&mut b, value);
            },
            ParseError::BadOrder { expected, found } => {
                push_text(&mut b, "Tags out of order: expected ");
                push_text(&mut b, expected);
                push_text(&mut b, ", found ");
                push_text(&mut b, found);
            },
        }
        proof {
            assert(b@ =~= parse_error_text(self@));
        }
        finish(b)
    }
}

/// The message of a validation error.
pub open spec fn validation_error_text(e: VErr) -> Seq<u8> {
    match e {
        VErr::UnknownImportedVariable(v) => "Unknown imported variable: ".spec_bytes() + v,
        VErr::ImportMediaWithoutMultivariant => "Import media playlist without multivariant".spec_bytes(),
        VErr::InvalidMultivariantAttribute => "Invalid multivariant attribute".spec_bytes(),
        VErr::InvalidTargetDuration => "Invalid target duration".spec_bytes(),
        VErr::InvalidUri => "Invalid URI".spec_bytes(),
        VErr::MissingRequiredTag(t) => "Missing Required Tag: ".spec_bytes() + t,
        VErr::InvalidSharedTag(t, reason) => "Invalid Shared Tag (".spec_bytes() + shared_tag_text(t) + "): ".spec_bytes()
            + reason,
        VErr::MissingPartInf => "Missing EXT-X-PART-INF for a partial segment".spec_bytes(),
        VErr::InvalidServerControl(reason) => "Invalid server control: ".spec_bytes() + reason,
    }
}

impl ValidationError {
    /// The message; see `validation_error_text`.
    pub fn to_string(&self) -> (r: String)
        ensures
            utf8(r@) == validation_error_text(self@),
    {
        let mut b = new_text();
        match self {
            ValidationError::UnknownImportedVariable(v) => {
                push_text(&mut b, "Unknown imported variable: ");
                push_string_text(&mut b, v);
            },
            ValidationError::ImportMediaWithoutMultivariant => push_text(&mut b, "Import media playlist without multivariant"),
            ValidationError::InvalidMultivariantAttribute => push_text(&mut b, "Invalid multivariant attribute"),
            ValidationError::InvalidTargetDuration => push_text(&mut b, "Invalid target duration"),
            ValidationError::InvalidUri => push_text(&mut b, "Invalid URI"),
            ValidationError::MissingRequiredTag(t) => {
                push_text(&mut b, "Missing Required Tag: ");
                push_string_text(&mut b, t);
            },
            ValidationError::InvalidSharedTag(t, reason) => {
                push_text(&mut b, "Invalid Shared Tag (");
                t.push_text(&mut b);
                push_text(&mut b, "): ");
                push_string_text(&mut b, reason);
            },
            ValidationError::MissingPartInf => push_text(&mut b, "Missing EXT-X-PART-INF for a partial segment"),
            ValidationError::InvalidServerControl(reason) => {
                push_text(&mut b, "Invalid server control: ");
                push_string_text(&mut b, reason);
            },
        }
        proof {
            assert(b@ =~= validation_error_text(self@));
        }
        finish(b)
    }
}

} // verus!
