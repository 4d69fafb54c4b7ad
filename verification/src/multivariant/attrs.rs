//! How the attributes of the multivariant tags are read, one attribute at a time.
use vstd::prelude::*;
use vstd::string::*;
use crate::attribute_list::{AttrV, AttributeValue, attr_text, strings_view};
use crate::codecs::parse::{codecs_attr_spec, parse_codecs_attr};
use crate::codecs::supplemental::{SupplementalCodecs, entries_view, supplemental_spec};
use crate::codecs::{Codec, CodecV, SupplementalCodecEntryV};
use crate::decimal::{DecimalFloat, dec_is_positive};
use crate::error::{CodecErr, CodecParseError, PErr, ParseError, SupplementalCodecParseError, SupplementalErr};
use crate::multivariant::{
    AllowedCpcEntry, AllowedCpcEntryV, HdcpLevel, PresentationEntrySpecifier, VideoRange,
    ViewPresentationEntry, hdcp_level_spec, specifier_spec, video_range_spec,
};
use crate::playlist::opt_view;
use crate::text::{owned, split, split_once, split_once_str, split_str, utf8};

verus! {

/// The required `BANDWIDTH` decimal-integer.
pub open spec fn bandwidth_spec(v: Option<AttrV>) -> Result<u64, PErr> {
    match v {
        None => Err(
            PErr::InvalidAttributeValue {
                attribute: "BANDWIDTH".spec_bytes(),
                value: "NONE".spec_bytes(),
                expected: "a valid bandwidth",
            },
        ),
        Some(AttrV::DecimalInteger(n)) => Ok(n),
        Some(_) => Err(PErr::ExpectedDecimalInteger { found: "NONE".spec_bytes() }),
    }
}

/// An optional decimal-integer; another kind of value is reported with its text.
pub open spec fn opt_int_spec(v: Option<AttrV>) -> Result<Option<u64>, PErr> {
    match v {
        None => Ok(None),
        Some(AttrV::DecimalInteger(n)) => Ok(Some(n)),
        Some(x) => Err(PErr::ExpectedDecimalInteger { found: attr_text(x) }),
    }
}

/// The optional `SCORE`: a decimal-floating-point above zero.
pub open spec fn score_spec(v: Option<AttrV>) -> Result<Option<Seq<u8>>, PErr> {
    match v {
        None => Ok(None),
        Some(AttrV::DecimalFloatingPoint(t)) => if dec_is_positive(t) {
            Ok(Some(t))
        } else {
            Err(score_error(AttrV::DecimalFloatingPoint(t)))
        },
        Some(x) => Err(score_error(x)),
    }
}

pub open spec fn score_error(x: AttrV) -> PErr {
    PErr::InvalidAttributeValue {
        attribute: "SCORE".spec_bytes(),
        value: attr_text(x),
        expected: "a positive decimal-floating-point score",
    }
}

/// The views of codecs.
pub open spec fn codecs_view(v: Seq<Codec>) -> Seq<CodecV> {
    v.map_values(|c: Codec| c@)
}

/// The optional `CODECS`: a quoted list of codecs; none when absent.
pub open spec fn codecs_value_spec(v: Option<AttrV>) -> Result<Seq<CodecV>, PErr> {
    match v {
        None => Ok(Seq::empty()),
        Some(AttrV::QuotedString(t)) => match codecs_attr_spec(t) {
            Ok(c) => Ok(c),
            Err((_, e)) => Err(PErr::CodecError(e)),
        },
        Some(_) => Err(PErr::ExpectedQuotedString),
    }
}

/// A supplemental-codecs error as a parse error: a codec error stays one, a bad brand is a
/// bad four-character code, and any other error (an error of a given entry) reports an empty
/// codec.
pub open spec fn supplemental_parse_error(e: SupplementalErr) -> PErr {
    match e {
        SupplementalErr::Codec(c) => PErr::CodecError(c),
        SupplementalErr::InvalidBrand(b) => PErr::CodecError(CodecErr::InvalidFourcc(b)),
        _ => PErr::CodecError(CodecErr::Empty),
    }
}

/// The optional `SUPPLEMENTAL-CODECS`: a quoted list; none when absent.
pub open spec fn supplemental_value_spec(v: Option<AttrV>) -> Result<Seq<SupplementalCodecEntryV>, PErr> {
    match v {
        None => Ok(Seq::empty()),
        Some(AttrV::QuotedString(t)) => match supplemental_spec(t) {
            Ok(x) => Ok(x),
            Err(e) => Err(supplemental_parse_error(e)),
        },
        Some(_) => Err(PErr::ExpectedQuotedString),
    }
}

/// The optional `RESOLUTION`.
pub open spec fn resolution_value_spec(v: Option<AttrV>) -> Result<Option<(u64, u64)>, PErr> {
    match v {
        None => Ok(None),
        Some(AttrV::DecimalResolution { width, height }) => Ok(Some((width, height))),
        Some(x) => Err(
            PErr::InvalidAttributeValue {
                attribute: "RESOLUTION".spec_bytes(),
                value: attr_text(x),
                expected: "a valid resolution",
            },
        ),
    }
}

/// The optional `FRAME-RATE`.
pub open spec fn frame_rate_spec(v: Option<AttrV>) -> Result<Option<Seq<u8>>, PErr> {
    match v {
        None => Ok(None),
        Some(AttrV::DecimalFloatingPoint(t)) => Ok(Some(t)),
        Some(x) => Err(
            PErr::InvalidAttributeValue {
                attribute: "FRAME-RATE".spec_bytes(),
                value: attr_text(x),
                expected: "a valid frame rate",
            },
        ),
    }
}

/// The optional `HDCP-LEVEL`.
pub open spec fn hdcp_value_spec(v: Option<AttrV>) -> Result<Option<HdcpLevel>, PErr> {
    match v {
        None => Ok(None),
        Some(AttrV::EnumeratedString(t)) => match hdcp_level_spec(t) {
            Ok(l) => Ok(Some(l)),
            Err(e) => Err(e),
        },
        Some(x) => Err(
            PErr::InvalidEnumeratedString { value: attr_text(x), expected: seq!["TYPE-0", "TYPE-1", "NONE"] },
        ),
    }
}

/// The optional `VIDEO-RANGE`; `SDR` when absent.
pub open spec fn video_range_value_spec(v: Option<AttrV>) -> Result<VideoRange, PErr> {
    match v {
        None => Ok(VideoRange::Sdr),
        Some(AttrV::EnumeratedString(t)) => video_range_spec(t),
        Some(x) => Err(PErr::InvalidEnumeratedString { value: attr_text(x), expected: seq!["SDR", "HLG", "PQ"] }),
    }
}

/// The optional `CLOSED-CAPTIONS`: a quoted-string or an enumerated-string.
pub open spec fn closed_captions_spec(v: Option<AttrV>) -> Result<Option<Seq<u8>>, PErr> {
    match v {
        None => Ok(None),
        Some(AttrV::QuotedString(t)) => Ok(Some(t)),
        Some(AttrV::EnumeratedString(t)) => Ok(Some(t)),
        Some(x) => Err(
            PErr::InvalidAttributeValue {
                attribute: "CLOSED-CAPTIONS".spec_bytes(),
                value: attr_text(x),
                expected: "either a quoted-string or an enumerated-string with the value NONE.",
            },
        ),
    }
}

/// The optional `PATHWAY-ID`.
pub open spec fn pathway_spec(v: Option<AttrV>) -> Result<Option<Seq<u8>>, PErr> {
    match v {
        None => Ok(None),
        Some(AttrV::QuotedString(t)) => Ok(Some(t)),
        Some(x) => Err(
            PErr::InvalidAttributeValue {
                attribute: "PATHWAY-ID".spec_bytes(),
                value: attr_text(x),
                expected: "a valid quoted string representing thr PATHWAY-ID attribute value.",
            },
        ),
    }
}

/// The entries of `ALLOWED-CPC` from `i` on: each `KEYFORMAT:label/label...`; `text` is the
/// attribute's text, reported when an entry has no labels.
pub open spec fn cpc_entries_spec(parts: Seq<Seq<u8>>, i: nat, text: Seq<u8>) -> Result<Seq<AllowedCpcEntryV>, PErr>
    decreases parts.len() - i,
{
    if i >= parts.len() {
        Ok(Seq::empty())
    } else {
        match split_once(parts[i as int], 0x3a) {
            None => Err(
                PErr::InvalidAttributeValue {
                    attribute: "ALLOWED-CPC".spec_bytes(),
                    value: text,
                    expected: "a valid label",
                },
            ),
            Some((k, l)) => match cpc_entries_spec(parts, i + 1, text) {
                Err(e) => Err(e),
                Ok(rest) => Ok(seq![AllowedCpcEntryV { keyformat: k, labels: split(l, 0x2f) }] + rest),
            },
        }
    }
}

/// The optional `ALLOWED-CPC`; none when absent.
pub open spec fn allowed_cpc_spec(v: Option<AttrV>) -> Result<Seq<AllowedCpcEntryV>, PErr> {
    match v {
        None => Ok(Seq::empty()),
        Some(AttrV::QuotedString(t)) => cpc_entries_spec(split(t, 0x2c), 0, t),
        Some(_) => Err(PErr::ExpectedQuotedString),
    }
}

/// The specifiers of one `/`-separated layout entry, from `i` on.
pub open spec fn specifiers_spec(parts: Seq<Seq<u8>>, i: nat) -> Result<Seq<PresentationEntrySpecifier>, PErr>
    decreases parts.len() - i,
{
    if i >= parts.len() {
        Ok(Seq::empty())
    } else {
        match specifier_spec(parts[i as int]) {
            Err(e) => Err(e),
            Ok(s) => match specifiers_spec(parts, i + 1) {
                Err(e) => Err(e),
                Ok(rest) => Ok(seq![s] + rest),
            },
        }
    }
}

/// The layout entries from `i` on.
pub open spec fn layouts_spec(parts: Seq<Seq<u8>>, i: nat) -> Result<Seq<Seq<PresentationEntrySpecifier>>, PErr>
    decreases parts.len() - i,
{
    if i >= parts.len() {
        Ok(Seq::empty())
    } else {
        match specifiers_spec(split(parts[i as int], 0x2f), 0) {
            Err(e) => Err(e),
            Ok(s) => match layouts_spec(parts, i + 1) {
                Err(e) => Err(e),
                Ok(rest) => Ok(seq![s] + rest),
            },
        }
    }
}

/// The optional `REQ-VIDEO-LAYOUT`: comma-separated entries of `/`-separated specifiers.
pub open spec fn layout_spec(v: Option<AttrV>) -> Result<Option<Seq<Seq<PresentationEntrySpecifier>>>, PErr> {
    match v {
        None => Ok(None),
        Some(AttrV::QuotedString(t)) => match layouts_spec(split(t, 0x2c), 0) {
            Ok(l) => Ok(Some(l)),
            Err(e) => Err(e),
        },
        Some(_) => Err(PErr::ExpectedQuotedString),
    }
}

/// The views of layout entries.
pub open spec fn layouts_view(v: Seq<ViewPresentationEntry>) -> Seq<Seq<PresentationEntrySpecifier>> {
    v.map_values(|e: ViewPresentationEntry| e.0@)
}

/// The views of allowed-CPC entries.
pub open spec fn cpc_view(v: Seq<AllowedCpcEntry>) -> Seq<AllowedCpcEntryV> {
    v.map_values(|e: AllowedCpcEntry| e@)
}

pub fn bandwidth_value(v: Option<&AttributeValue>) -> (r: Result<u64, ParseError>)
    ensures
        match bandwidth_spec(opt_view(v)) {
            Ok(n) => r == Ok::<u64, ParseError>(n),
            Err(e) => r matches Err(x) && x@ == e,
        },
{
    match v {
        None => Err(
            ParseError::InvalidAttributeValue {
                attribute: owned("BANDWIDTH"),
                value: owned("NONE"),
                expected: "a valid bandwidth",
            },
        ),
        Some(x) => match x.as_decimal_integer() {
            Some(n) => Ok(n),
            None => Err(ParseError::ExpectedDecimalInteger { found: owned("NONE") }),
        },
    }
}

pub fn opt_int_value(v: Option<&AttributeValue>) -> (r: Result<Option<u64>, ParseError>)
    ensures
        match opt_int_spec(opt_view(v)) {
            Ok(n) => r == Ok::<Option<u64>, ParseError>(n),
            Err(e) => r matches Err(x) && x@ == e,
        },
{
    match v {
        None => Ok(None),
        Some(x) => match x.as_decimal_integer() {
            Some(n) => Ok(Some(n)),
            None => Err(ParseError::ExpectedDecimalInteger { found: x.to_string() }),
        },
    }
}

pub fn score_value(v: Option<&AttributeValue>) -> (r: Result<Option<DecimalFloat>, ParseError>)
    ensures
        match score_spec(opt_view(v)) {
            Ok(t) => r matches Ok(x) && crate::playlist::opt_decimal_view(x) == t,
            Err(e) => r matches Err(x) && x@ == e,
        },
{
    match v {
        None => Ok(None),
        Some(x) => {
            if let Some(d) = x.as_decimal_floating_point() {
                if d.is_positive() {
                    return Ok(Some(d.copy()));
                }
            }
            Err(
                ParseError::InvalidAttributeValue {
                    attribute: owned("SCORE"),
                    value: x.to_string(),
                    expected: "a positive decimal-floating-point score",
                },
            )
        },
    }
}

pub fn codecs_value(v: Option<&AttributeValue>) -> (r: Result<Vec<Codec>, ParseError>)
    ensures
        match codecs_value_spec(opt_view(v)) {
            Ok(c) => r matches Ok(x) && codecs_view(x@) == c,
            Err(e) => r matches Err(x) && x@ == e,
        },
{
    match v {
        None => {
            let r: Vec<Codec> = Vec::new();
            proof {
                assert(codecs_view(r@) =~= Seq::<CodecV>::empty());
            }
            Ok(r)
        },
        Some(x) => match x.as_quoted_string() {
            None => Err(ParseError::ExpectedQuotedString),
            Some(t) => match parse_codecs_attr(t) {
                Ok(c) => {
                    proof {
                        if let Ok(cs) = codecs_attr_spec(t.spec_bytes()) {
                            assert(codecs_view(c@) =~= cs);
                        }
                    }
                    Ok(c)
                },
                Err((_, e)) => Err(ParseError::CodecError(e)),
            },
        },
    }
}

/// A supplemental-codecs error as a parse error; see `supplemental_parse_error`.
pub fn supplemental_error(e: SupplementalCodecParseError) -> (r: ParseError)
    ensures
        r@ == supplemental_parse_error(e@),
{
    match e {
        SupplementalCodecParseError::Codec(c) => ParseError::CodecError(c),
        SupplementalCodecParseError::InvalidBrand(b) => ParseError::CodecError(CodecParseError::InvalidFourcc(b)),
        _ => ParseError::CodecError(CodecParseError::Empty),
    }
}

pub fn supplemental_value(v: Option<&AttributeValue>) -> (r: Result<SupplementalCodecs, ParseError>)
    ensures
        match supplemental_value_spec(opt_view(v)) {
            Ok(c) => r matches Ok(x) && entries_view(x.entries@) == c,
            Err(e) => r matches Err(x) && x@ == e,
        },
{
    match v {
        None => {
            let r = SupplementalCodecs::new(Vec::new());
            proof {
                assert(entries_view(r.entries@) =~= Seq::<SupplementalCodecEntryV>::empty());
            }
            Ok(r)
        },
        Some(x) => match x.as_quoted_string() {
            None => Err(ParseError::ExpectedQuotedString),
            Some(t) => match SupplementalCodecs::parse(t) {
                Ok(c) => Ok(c),
                Err(e) => Err(supplemental_error(e)),
            },
        },
    }
}

pub fn resolution_value(v: Option<&AttributeValue>) -> (r: Result<Option<(u64, u64)>, ParseError>)
    ensures
        match resolution_value_spec(opt_view(v)) {
            Ok(t) => r == Ok::<Option<(u64, u64)>, ParseError>(t),
            Err(e) => r matches Err(x) && x@ == e,
        },
{
    match v {
        None => Ok(None),
        Some(x) => match x.as_decimal_resolution() {
            Some(p) => Ok(Some(p)),
            None => Err(
                ParseError::InvalidAttributeValue {
                    attribute: owned("RESOLUTION"),
                    value: x.to_string(),
                    expected: "a valid resolution",
                },
            ),
        },
    }
}

pub fn frame_rate_value(v: Option<&AttributeValue>) -> (r: Result<Option<DecimalFloat>, ParseError>)
    ensures
        match frame_rate_spec(opt_view(v)) {
            Ok(t) => r matches Ok(x) && crate::playlist::opt_decimal_view(x) == t,
            Err(e) => r matches Err(x) && x@ == e,
        },
{
    match v {
        None => Ok(None),
        Some(x) => match x.as_decimal_floating_point() {
            Some(d) => Ok(Some(d.copy())),
            None => Err(
                ParseError::InvalidAttributeValue {
                    attribute: owned("FRAME-RATE"),
                    value: x.to_string(),
                    expected: "a valid frame rate",
                },
            ),
        },
    }
}

fn hdcp_names() -> (r: &'static [&'static str])
    ensures
        r@ == seq!["TYPE-0", "TYPE-1", "NONE"],
{
    let r: &'static [&'static str] = &["TYPE-0", "TYPE-1", "NONE"];
    r
}

fn video_range_names() -> (r: &'static [&'static str])
    ensures
        r@ == seq!["SDR", "HLG", "PQ"],
{
    let r: &'static [&'static str] = &["SDR", "HLG", "PQ"];
    r
}

pub fn hdcp_value(v: Option<&AttributeValue>) -> (r: Result<Option<HdcpLevel>, ParseError>)
    ensures
        match hdcp_value_spec(opt_view(v)) {
            Ok(t) => r == Ok::<Option<HdcpLevel>, ParseError>(t),
            Err(e) => r matches Err(x) && x@ == e,
        },
{
    match v {
        None => Ok(None),
        Some(x) => match x.as_enumerated_string() {
            Some(t) => match HdcpLevel::parse(t) {
                Ok(l) => Ok(Some(l)),
                Err(e) => Err(e),
            },
            None => Err(ParseError::InvalidEnumeratedString { value: x.to_string(), expected: hdcp_names() }),
        },
    }
}

pub fn video_range_value(v: Option<&AttributeValue>) -> (r: Result<VideoRange, ParseError>)
    ensures
        match video_range_value_spec(opt_view(v)) {
            Ok(t) => r == Ok::<VideoRange, ParseError>(t),
            Err(e) => r matches Err(x) && x@ == e,
        },
{
    match v {
        None => Ok(VideoRange::Sdr),
        Some(x) => match x.as_enumerated_string() {
            Some(t) => VideoRange::parse(t),
            None => Err(
                ParseError::InvalidEnumeratedString { value: x.to_string(), expected: video_range_names() },
            ),
        },
    }
}

pub fn closed_captions_value(v: Option<&AttributeValue>) -> (r: Result<Option<String>, ParseError>)
    ensures
        match closed_captions_spec(opt_view(v)) {
            Ok(t) => r matches Ok(x) && crate::playlist::opt_string_view(x) == t,
            Err(e) => r matches Err(x) && x@ == e,
        },
{
    match v {
        None => Ok(None),
        Some(x) => {
            if let Some(t) = x.as_quoted_string() {
                return Ok(Some(owned(t)));
            }
            if let Some(t) = x.as_enumerated_string() {
                return Ok(Some(owned(t)));
            }
            Err(
                ParseError::InvalidAttributeValue {
                    attribute: owned("CLOSED-CAPTIONS"),
                    value: x.to_string(),
                    expected: "either a quoted-string or an enumerated-string with the value NONE.",
                },
            )
        },
    }
}

pub fn pathway_value(v: Option<&AttributeValue>) -> (r: Result<Option<String>, ParseError>)
    ensures
        match pathway_spec(opt_view(v)) {
            Ok(t) => r matches Ok(x) && crate::playlist::opt_string_view(x) == t,
            Err(e) => r matches Err(x) && x@ == e,
        },
{
    match v {
        None => Ok(None),
        Some(x) => match x.as_quoted_string() {
            Some(t) => Ok(Some(owned(t))),
            None => Err(
                ParseError::InvalidAttributeValue {
                    attribute: owned("PATHWAY-ID"),
                    value: x.to_string(),
                    expected: "a valid quoted string representing thr PATHWAY-ID attribute value.",
                },
            ),
        },
    }
}

/// The pieces of `s` between occurrences of `c`, owned.
pub fn split_owned(s: &str, c: u8) -> (r: Vec<String>)
    requires
        c < 0x80,
    ensures
        strings_view(r@) == split(s.spec_bytes(), c),
{
    let parts = split_str(s, c);
    let ghost ps = split(s.spec_bytes(), c);
    let mut out: Vec<String> = Vec::new();
    let mut i: usize = 0;
    while i < parts.len()
        invariant
            i <= parts@.len(),
            parts@.len() == ps.len(),
            ps == split(s.spec_bytes(), c),
            forall|k: int| 0 <= k < parts@.len() ==> #[trigger] parts@[k].spec_bytes() == ps[k],
            strings_view(out@) == ps.take(i as int),
        decreases parts.len() - i,
    {
        let ghost o = out@;
        let item = owned(parts[i]);
        out.push(item);
        proof {
            assert(parts@[i as int].spec_bytes() == ps[i as int]);
            assert(strings_view(out@) =~= strings_view(o).push(utf8(item@)));
            assert(ps.take(i + 1) =~= ps.take(i as int).push(ps[i as int]));
        }
        i = i + 1;
    }
    proof {
        assert(ps.take(ps.len() as int) =~= ps);
    }
    out
}

pub fn allowed_cpc_value(v: Option<&AttributeValue>) -> (r: Result<Vec<AllowedCpcEntry>, ParseError>)
    ensures
        match allowed_cpc_spec(opt_view(v)) {
            Ok(t) => r matches Ok(x) && cpc_view(x@) == t,
            Err(e) => r matches Err(x) && x@ == e,
        },
{
    let x = match v {
        None => {
            let r: Vec<AllowedCpcEntry> = Vec::new();
            proof {
                assert(cpc_view(r@) =~= Seq::<AllowedCpcEntryV>::empty());
            }
            return Ok(r);
        },
        Some(x) => x,
    };
    let t = match x.as_quoted_string() {
        None => {
            return Err(ParseError::ExpectedQuotedString);
        },
        Some(t) => t,
    };
    let parts = split_str(t, 0x2c);
    let ghost ps = split(t.spec_bytes(), 0x2c);
    let ghost text = t.spec_bytes();
    let mut out: Vec<AllowedCpcEntry> = Vec::new();
    let mut i: usize = 0;
    while i < parts.len()
        invariant
            i <= parts@.len(),
            parts@.len() == ps.len(),
            forall|k: int| 0 <= k < parts@.len() ==> #[trigger] parts@[k].spec_bytes() == ps[k],
            allowed_cpc_spec(opt_view(v)) == cpc_entries_spec(ps, 0, text),
            attr_text(x@) == text,
            cpc_entries_spec(ps, 0, text) == match cpc_entries_spec(ps, i as nat, text) {
                Ok(rest) => Ok(cpc_view(out@) + rest),
                Err(e) => Err::<Seq<AllowedCpcEntryV>, PErr>(e),
            },
        decreases parts.len() - i,
    {
        proof {
            assert(parts@[i as int].spec_bytes() == ps[i as int]);
        }
        match split_once_str(parts[i], 0x3a) {
            None => {
                return Err(
                    ParseError::InvalidAttributeValue {
                        attribute: owned("ALLOWED-CPC"),
                        value: x.to_string(),
                        expected: "a valid label",
                    },
                );
            },
            Some((k, l)) => {
                let e = AllowedCpcEntry { keyformat: owned(k), labels: split_owned(l, 0x2f) };
                let ghost o = out@;
                out.push(e);
                proof {
                    assert(cpc_view(out@) =~= cpc_view(o).push(e@));
                    match cpc_entries_spec(ps, (i + 1) as nat, text) {
                        Ok(rest) => assert(cpc_view(o) + (seq![e@] + rest) =~= cpc_view(out@) + rest),
                        Err(_) => {},
                    }
                }
            },
        }
        i = i + 1;
    }
    proof {
        assert(cpc_view(out@) + Seq::<AllowedCpcEntryV>::empty() =~= cpc_view(out@));
    }
    Ok(out)
}

/// The specifiers of one layout entry.
fn layout_entry(s: &str) -> (r: Result<ViewPresentationEntry, ParseError>)
    ensures
        match specifiers_spec(split(s.spec_bytes(), 0x2f), 0) {
            Ok(t) => r matches Ok(x) && x.0@ == t,
            Err(e) => r matches Err(x) && x@ == e,
        },
{
    let parts = split_str(s, 0x2f);
    let ghost ps = split(s.spec_bytes(), 0x2f);
    let mut out: Vec<PresentationEntrySpecifier> = Vec::new();
    let mut i: usize = 0;
    while i < parts.len()
        invariant
            i <= parts@.len(),
            parts@.len() == ps.len(),
            ps == split(s.spec_bytes(), 0x2f),
            forall|k: int| 0 <= k < parts@.len() ==> #[trigger] parts@[k].spec_bytes() == ps[k],
            specifiers_spec(ps, 0) == match specifiers_spec(ps, i as nat) {
                Ok(rest) => Ok(out@ + rest),
                Err(e) => Err::<Seq<PresentationEntrySpecifier>, PErr>(e),
            },
        decreases parts.len() - i,
    {
        proof {
            assert(parts@[i as int].spec_bytes() == ps[i as int]);
        }
        match PresentationEntrySpecifier::parse(parts[i]) {
            Ok(sp) => {
                proof {
                    match specifiers_spec(ps, (i + 1) as nat) {
                        Ok(rest) => assert(out@ + (seq![sp] + rest) =~= out@.push(sp) + rest),
                        Err(_) => {},
                    }
                }
                out.push(sp);
            },
            Err(e) => {
                return Err(e);
            },
        }
        i = i + 1;
    }
    proof {
        assert(out@ + Seq::<PresentationEntrySpecifier>::empty() =~= out@);
    }
    Ok(ViewPresentationEntry(out))
}

pub fn layout_value(v: Option<&AttributeValue>) -> (r: Result<Option<Vec<ViewPresentationEntry>>, ParseError>)
    ensures
        match layout_spec(opt_view(v)) {
            Ok(t) => r matches Ok(x) && match x {
                Some(l) => t == Some(layouts_view(l@)),
                None => t is None,
            },
            Err(e) => r matches Err(x) && x@ == e,
        },
{
    let x = match v {
        None => {
            return Ok(None);
        },
        Some(x) => x,
    };
    let t = match x.as_quoted_string() {
        None => {
            return Err(ParseError::ExpectedQuotedString);
        },
        Some(t) => t,
    };
    let parts = split_str(t, 0x2c);
    let ghost ps = split(t.spec_bytes(), 0x2c);
    let mut out: Vec<ViewPresentationEntry> = Vec::new();
    let mut i: usize = 0;
    while i < parts.len()
        invariant
            i <= parts@.len(),
            parts@.len() == ps.len(),
            forall|k: int| 0 <= k < parts@.len() ==> #[trigger] parts@[k].spec_bytes() == ps[k],
            layout_spec(opt_view(v)) == match layouts_spec(ps, 0) {
                Ok(l) => Ok(Some(l)),
                Err(e) => Err::<Option<Seq<Seq<PresentationEntrySpecifier>>>, PErr>(e),
            },
            layouts_spec(ps, 0) == match layouts_spec(ps, i as nat) {
                Ok(rest) => Ok(layouts_view(out@) + rest),
                Err(e) => Err::<Seq<Seq<PresentationEntrySpecifier>>, PErr>(e),
            },
        decreases parts.len() - i,
    {
        proof {
            assert(parts@[i as int].spec_bytes() == ps[i as int]);
        }
        match layout_entry(parts[i]) {
            Ok(e) => {
                let ghost o = out@;
                out.push(e);
                proof {
                    assert(layouts_view(out@) =~= layouts_view(o).push(e.0@));
                    match layouts_spec(ps, (i + 1) as nat) {
                        Ok(rest) => assert(layouts_view(o) + (seq![e.0@] + rest) =~= layouts_view(out@)
                            + rest),
                        Err(_) => {},
                    }
                }
            },
            Err(e) => {
                return Err(e);
            },
        }
        i = i + 1;
    }
    proof {
        assert(layouts_view(out@) + Seq::<Seq<PresentationEntrySpecifier>>::empty() =~= layouts_view(out@));
    }
    Ok(Some(out))
}


impl From<SupplementalCodecParseError> for ParseError {
    fn from(value: SupplementalCodecParseError) -> Self {
        supplemental_error(value)
    }
}

/// `from` is `supplemental_error`, whose contract says what it gives; nothing more is claimed
/// through the trait.
impl vstd::std_specs::convert::FromSpecImpl<SupplementalCodecParseError> for ParseError {
    open spec fn obeys_from_spec() -> bool {
        false
    }

    open spec fn from_spec(v: SupplementalCodecParseError) -> Self {
        ParseError::CodecError(CodecParseError::Empty)
    }
}

} // verus!
