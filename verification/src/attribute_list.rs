//! Attribute lists: the comma-separated `NAME=value` pairs that follow many tags.
//!
//! A value is one of:
//!
//! *  decimal-integer: an unquoted string of characters from the set `[0-9]` expressing an
//!    integer in base-10 arithmetic in the range from 0 to 2^64-1.
//! *  hexadecimal-sequence: an unquoted string of characters from the set `[0-9]` and `[A-F]`
//!    that is prefixed with `0x` or `0X`.
//! *  decimal-floating-point: an unquoted string of characters from the set `[0-9]` and `.`
//!    that expresses a non-negative floating-point number in decimal positional notation.
//! *  signed-decimal-floating-point: an unquoted string of characters from the set `[0-9]`,
//!    `-`, and `.` that expresses a signed floating-point number in decimal positional notation.
//! *  quoted-string: a string of characters within a pair of double quotes (0x22). Line feed,
//!    carriage return and double quote must not appear in it.
//! *  enumerated-string: an unquoted character string from a set that is explicitly defined
//!    by the attribute name; it never contains double quotes, commas, or whitespace.
//! *  enumerated-string-list: a quoted-string containing a comma-separated list of
//!    enumerated-strings; repeated entries are kept once.
//! *  decimal-resolution: two decimal-integers separated by the `x` character.
use vstd::prelude::*;
use vstd::string::*;
use vstd::utf8::*;
use crate::decimal::{DecimalFloat, is_decimal};
use crate::error::{PErr, ParseError};
use crate::num::{IntErrorKind, all_digits, dec_digits, digit_value, lemma_dec_digits, parse_uint, parse_uint_spec, push_dec};
use crate::text::{
    split_once, split_once_str, bytes, contains_byte, contains_ws, has_byte, has_prefix, has_whitespace, owned,
    concat_str, slice_ascii, split, string_of_bytes, split_str, starts_with, str_eq, trim, trim_spec, utf8,
};

verus! {

broadcast use vstd::utf8::group_utf8_lib;

/// A parsed attribute value.
#[derive(Debug, PartialEq)]
pub enum AttributeValue {
    DecimalInteger(u64),
    DecimalFloatingPoint(DecimalFloat),
    SignedDecimalFloatingPoint(DecimalFloat),
    HexSequence(Vec<u8>),
    QuotedString(String),
    EnumeratedString(String),
    EnumeratedStringList(Vec<String>),
    DecimalResolution { width: u64, height: u64 },
    XAttribute(String, Box<AttributeValue>),
}

/// An attribute value with its text as bytes.
pub enum AttrV {
    DecimalInteger(u64),
    DecimalFloatingPoint(Seq<u8>),
    SignedDecimalFloatingPoint(Seq<u8>),
    HexSequence(Seq<u8>),
    QuotedString(Seq<u8>),
    EnumeratedString(Seq<u8>),
    EnumeratedStringList(Seq<Seq<u8>>),
    DecimalResolution { width: u64, height: u64 },
    XAttribute(Seq<u8>, Box<AttrV>),
}

/// The bytes of each string.
pub open spec fn strings_view(v: Seq<String>) -> Seq<Seq<u8>> {
    v.map_values(|s: String| utf8(s@))
}

pub open spec fn attr_view(v: AttributeValue) -> AttrV
    decreases v,
{
    match v {
        AttributeValue::DecimalInteger(n) => AttrV::DecimalInteger(n),
        AttributeValue::DecimalFloatingPoint(d) => AttrV::DecimalFloatingPoint(d@),
        AttributeValue::SignedDecimalFloatingPoint(d) => AttrV::SignedDecimalFloatingPoint(d@),
        AttributeValue::HexSequence(h) => AttrV::HexSequence(h@),
        AttributeValue::QuotedString(s) => AttrV::QuotedString(utf8(s@)),
        AttributeValue::EnumeratedString(s) => AttrV::EnumeratedString(utf8(s@)),
        AttributeValue::EnumeratedStringList(l) => AttrV::EnumeratedStringList(strings_view(l@)),
        AttributeValue::DecimalResolution { width, height } => AttrV::DecimalResolution {
            width,
            height,
        },
        AttributeValue::XAttribute(n, b) => AttrV::XAttribute(utf8(n@), Box::new(attr_view(*b))),
    }
}

impl View for AttributeValue {
    type V = AttrV;

    open spec fn view(&self) -> AttrV {
        attr_view(*self)
    }
}

/* Errors of the value grammars */

/// The message `str::parse` gives for an unsigned integer error of this kind.
pub open spec fn int_message(k: IntErrorKind) -> Seq<u8> {
    match k {
        IntErrorKind::Empty => "cannot parse integer from empty string".spec_bytes(),
        IntErrorKind::InvalidDigit => "invalid digit found in string".spec_bytes(),
        IntErrorKind::PosOverflow => "number too large to fit in target type".spec_bytes(),
    }
}

/// The error for a decimal-integer that does not parse.
pub open spec fn int_error(k: IntErrorKind) -> PErr {
    PErr::InvalidAttributeValue {
        attribute: "integer".spec_bytes(),
        value: int_message(k),
        expected: "a valid integer",
    }
}

/// The error for a decimal-floating-point that does not parse.
pub open spec fn float_error(empty: bool) -> PErr {
    PErr::InvalidAttributeValue {
        attribute: "float".spec_bytes(),
        value: if empty {
            "cannot parse float from empty string".spec_bytes()
        } else {
            "invalid float literal".spec_bytes()
        },
        expected: "a valid float",
    }
}

/// A quoted-string: the text between the surrounding double quotes, which must not hold a
/// double quote, line feed or carriage return.
pub open spec fn quoted_spec(v: Seq<u8>) -> Result<Seq<u8>, PErr> {
    if !(v.len() >= 2 && v[0] == 0x22 && v[v.len() - 1] == 0x22) {
        Err(PErr::ExpectedQuotedString)
    } else {
        let inner = v.subrange(1, v.len() - 1);
        if contains_byte(inner, 0x22) || contains_byte(inner, 0x0a) || contains_byte(inner, 0x0d) {
            Err(
                PErr::InvalidQuotedString {
                    value: inner,
                    reason: Some(
                        "Quoted string must not contain double quotes, newlines, or carriage returns",
                    ),
                },
            )
        } else {
            Ok(inner)
        }
    }
}

/// An enumerated-string: no double quote, comma or whitespace.
pub open spec fn enum_spec(v: Seq<u8>) -> Result<Seq<u8>, PErr> {
    if contains_byte(v, 0x22) || contains_byte(v, 0x2c) || contains_ws(v) {
        Err(PErr::InvalidEnumeratedString { value: v, expected: seq!["YES", "NO"] })
    } else {
        Ok(v)
    }
}

/// `s` with later repetitions removed.
pub open spec fn dedup(s: Seq<Seq<u8>>) -> Seq<Seq<u8>>
    decreases s.len(),
{
    if s.len() == 0 {
        s
    } else if dedup(s.drop_last()).contains(s.last()) {
        dedup(s.drop_last())
    } else {
        dedup(s.drop_last()).push(s.last())
    }
}

/// The first item (from `i` on) that is not an enumerated-string, if any.
pub open spec fn first_bad_item(items: Seq<Seq<u8>>, i: nat) -> Option<PErr>
    decreases items.len() - i,
{
    if i >= items.len() {
        None
    } else {
        match enum_spec(items[i as int]) {
            Err(e) => Some(e),
            Ok(_) => first_bad_item(items, i + 1),
        }
    }
}

/// An enumerated-string-list: a quoted-string of comma-separated enumerated-strings.
pub open spec fn enum_list_spec(v: Seq<u8>) -> Result<Seq<Seq<u8>>, PErr> {
    match quoted_spec(v) {
        Err(e) => Err(e),
        Ok(inner) => match first_bad_item(split(inner, 0x2c), 0) {
            Some(e) => Err(e),
            None => Ok(dedup(split(inner, 0x2c))),
        },
    }
}

/// A decimal-integer: one to twenty digits `0`-`9` whose value fits in 64 bits. A leading
/// `+` is an invalid digit; more than twenty digits overflow.
pub open spec fn int_spec(v: Seq<u8>) -> Result<u64, PErr> {
    if v.len() > 0 && v[0] == 0x2b {
        Err(int_error(IntErrorKind::InvalidDigit))
    } else if v.len() > 20 && all_digits(v, false) {
        Err(int_error(IntErrorKind::PosOverflow))
    } else {
        match parse_uint_spec(v, false, u64::MAX as nat) {
            Ok(n) => Ok(n as u64),
            Err(k) => Err(int_error(k)),
        }
    }
}

/// A decimal-resolution: `<width>x<height>`.
pub open spec fn resolution_spec(v: Seq<u8>) -> Result<(u64, u64), PErr> {
    let parts = split(v, 0x78);
    if parts.len() != 2 {
        Err(PErr::InvalidDecimalResolution { value: v })
    } else {
        match int_spec(parts[0]) {
            Err(e) => Err(e),
            Ok(w) => match int_spec(parts[1]) {
                Err(e) => Err(e),
                Ok(h) => Ok((w, h)),
            },
        }
    }
}

/// A (signed, when `signed`) decimal-floating-point.
pub open spec fn float_spec(v: Seq<u8>, signed: bool) -> Result<Seq<u8>, PErr> {
    if is_decimal(v, signed) {
        Ok(v)
    } else {
        Err(float_error(v.len() == 0))
    }
}

/// Value of a hexadecimal digit, either case.
pub open spec fn hex_nibble(b: u8) -> Option<u8> {
    if 0x30 <= b <= 0x39 {
        Some((b - 0x30) as u8)
    } else if 0x61 <= b <= 0x66 {
        Some((b - 0x61 + 10) as u8)
    } else if 0x41 <= b <= 0x46 {
        Some((b - 0x41 + 10) as u8)
    } else {
        None
    }
}

/// Hexadecimal text to bytes: an even number of hexadecimal digits, two per byte.
pub open spec fn hex_decode_spec(t: Seq<u8>) -> Option<Seq<u8>> {
    if t.len() % 2 == 0 && forall|i: int| 0 <= i < t.len() ==> (#[trigger] hex_nibble(t[i])) is Some {
        Some(
            Seq::new(
                t.len() / 2,
                |i: int| (hex_nibble(t[2 * i]).unwrap() * 16 + hex_nibble(t[2 * i + 1]).unwrap()) as u8,
            ),
        )
    } else {
        None
    }
}

/// Hexadecimal digits for bytes: two lowercase digits per byte.
pub open spec fn hex_encode_spec(b: Seq<u8>) -> Seq<u8> {
    Seq::new(
        b.len() * 2,
        |i: int|
            {
                let v = if i % 2 == 0 {
                    b[i / 2] / 16
                } else {
                    b[i / 2] % 16
                };
                if v < 10 {
                    (0x30 + v) as u8
                } else {
                    (0x61 + v - 10) as u8
                }
            },
    )
}

/// A hexadecimal-sequence: `0x` or `0X`, then hexadecimal digits, two per byte.
pub open spec fn hex_spec(v: Seq<u8>) -> Result<Seq<u8>, PErr> {
    if !(v.len() >= 2 && v[0] == 0x30 && (v[1] == 0x78 || v[1] == 0x58)) {
        Err(PErr::InvalidHexSequence { value: v })
    } else {
        match hex_decode_spec(v.subrange(2, v.len() as int)) {
            Some(b) => Ok(b),
            None => Err(PErr::InvalidHexSequence { value: v }),
        }
    }
}

/// `hex::decode`: succeeds exactly on an even number of hexadecimal digits (either case), and
/// then gives one byte per pair of digits, the first digit being the high half.
#[verifier::external_body]
fn hex_decode(t: &str) -> (r: Option<Vec<u8>>)
    ensures
        match hex_decode_spec(t.spec_bytes()) {
            Some(b) => r matches Some(v) && v@ == b,
            None => r is None,
        },
{
    hex::decode(t).ok()
}

/// `hex::encode`: two lowercase hexadecimal digits per byte, high half first.
#[verifier::external_body]
pub(crate) fn hex_encode(b: &[u8]) -> (r: String)
    ensures
        utf8(r@) == hex_encode_spec(b@),
{
    hex::encode(b)
}

/// Letters and digits of ASCII.
pub open spec fn is_alnum(b: u8) -> bool {
    (0x30 <= b <= 0x39) || (0x41 <= b <= 0x5a) || (0x61 <= b <= 0x7a)
}

/// A content-protection label: letters, digits and `-`.
pub open spec fn cpc_label_spec(s: Seq<u8>) -> bool {
    forall|i: int| 0 <= i < s.len() ==> is_alnum(#[trigger] s[i]) || s[i] == 0x2d
}

/// A variable name, possibly empty: letters, digits, `-` and `_`.
pub open spec fn define_name_spec(s: Seq<u8>) -> bool {
    forall|i: int| 0 <= i < s.len() ==> is_alnum(#[trigger] s[i]) || s[i] == 0x2d || s[i] == 0x5f
}

/// A stable identifier, possibly empty: letters, digits and `+/=.-_`.
pub open spec fn stable_id_chars(s: Seq<u8>) -> bool {
    forall|i: int|
        0 <= i < s.len() ==> is_alnum(#[trigger] s[i]) || s[i] == 0x2b || s[i] == 0x2f || s[i]
            == 0x3d || s[i] == 0x2e || s[i] == 0x2d || s[i] == 0x5f
}

fn is_alnum_byte(b: u8) -> (r: bool)
    ensures
        r == is_alnum(b),
{
    (0x30 <= b && b <= 0x39) || (0x41 <= b && b <= 0x5a) || (0x61 <= b && b <= 0x7a)
}

/// Whether every byte of `s` is a letter, a digit, or one of the bytes of `extra`.
fn all_alnum_or(s: &str, extra: &[u8]) -> (r: bool)
    ensures
        r == forall|i: int|
            0 <= i < s.spec_bytes().len() ==> is_alnum(#[trigger] s.spec_bytes()[i])
                || extra@.contains(s.spec_bytes()[i]),
{
    let b = bytes(s);
    let mut i: usize = 0;
    while i < b.len()
        invariant
            i <= b@.len(),
            b@ == s.spec_bytes(),
            forall|k: int| 0 <= k < i ==> is_alnum(#[trigger] b@[k]) || extra@.contains(b@[k]),
        decreases b.len() - i,
    {
        let c = b[i];
        if !is_alnum_byte(c) {
            let mut found = false;
            let mut j: usize = 0;
            while j < extra.len()
                invariant
                    j <= extra@.len(),
                    found == exists|k: int| 0 <= k < j && extra@[k] == c,
                decreases extra.len() - j,
            {
                if extra[j] == c {
                    found = true;
                }
                j = j + 1;
            }
            if !found {
                proof {
                    assert(!(is_alnum(b@[i as int]) || extra@.contains(b@[i as int])));
                }
                return false;
            }
        }
        i = i + 1;
    }
    true
}

/// Whether `s` is a valid content-protection label list entry: letters, digits and `-`.
pub fn is_valid_cpc_label(s: &str) -> (r: bool)
    ensures
        r == cpc_label_spec(s.spec_bytes()),
{
    let r = all_alnum_or(s, &[0x2du8]);
    proof {
        let e = seq![0x2du8];
        assert(e[0] == 0x2d);
        assert(forall|b: u8| e.contains(b) <==> b == 0x2d);
    }
    r
}

/// Whether `s` is a valid variable name: non-empty, letters, digits, `-` and `_`.
pub fn is_valid_ext_x_define(s: &str) -> (r: bool)
    ensures
        r == (s.spec_bytes().len() > 0 && define_name_spec(s.spec_bytes())),
{
    bytes(s).len() > 0 && is_valid_ext_x_define_allow_empty(s)
}

/// Whether `s` is made only of letters, digits, `-` and `_` (possibly empty).
pub fn is_valid_ext_x_define_allow_empty(s: &str) -> (r: bool)
    ensures
        r == define_name_spec(s.spec_bytes()),
{
    let r = all_alnum_or(s, &[0x2du8, 0x5f]);
    proof {
        let e = seq![0x2du8, 0x5f];
        assert(e.contains(0x2d) && e.contains(0x5f));
        assert(forall|b: u8| e.contains(b) ==> b == 0x2d || b == 0x5f);
    }
    r
}

/// Whether `s` is a valid stable rendition or variant identifier: non-empty, letters, digits
/// and `+/=.-_`.
pub fn is_valid_stable_rendition_id(s: &str) -> (r: bool)
    ensures
        r == (s.spec_bytes().len() > 0 && stable_id_chars(s.spec_bytes())),
{
    if bytes(s).len() == 0 {
        return false;
    }
    let r = all_alnum_or(s, &[0x2bu8, 0x2f, 0x3d, 0x2e, 0x2d, 0x5f]);
    proof {
        let e = seq![0x2bu8, 0x2f, 0x3d, 0x2e, 0x2d, 0x5f];
        assert(e.contains(0x2b) && e.contains(0x2f) && e.contains(0x3d) && e.contains(0x2e)
            && e.contains(0x2d) && e.contains(0x5f));
        assert(forall|b: u8|
            e.contains(b) ==> b == 0x2b || b == 0x2f || b == 0x3d || b == 0x2e || b == 0x2d || b
                == 0x5f);
    }
    r
}

fn int_err_value(k: IntErrorKind) -> (r: ParseError)
    ensures
        r@ == int_error(k),
{
    let msg = match k {
        IntErrorKind::Empty => owned("cannot parse integer from empty string"),
        IntErrorKind::InvalidDigit => owned("invalid digit found in string"),
        IntErrorKind::PosOverflow => owned("number too large to fit in target type"),
    };
    ParseError::InvalidAttributeValue {
        attribute: owned("integer"),
        value: msg,
        expected: "a valid integer",
    }
}

fn float_err_value(empty: bool) -> (r: ParseError)
    ensures
        r@ == float_error(empty),
{
    let msg = if empty {
        owned("cannot parse float from empty string")
    } else {
        owned("invalid float literal")
    };
    ParseError::InvalidAttributeValue {
        attribute: owned("float"),
        value: msg,
        expected: "a valid float",
    }
}

/// Parses a decimal-integer (as `str::parse::<u64>`).
pub fn parse_decimal_integer(value: &str) -> (r: Result<u64, ParseError>)
    ensures
        match int_spec(value.spec_bytes()) {
            Ok(n) => r == Ok::<u64, ParseError>(n),
            Err(e) => r matches Err(x) && x@ == e,
        },
{
    let b = bytes(value);
    if b.len() > 0 && b[0] == 0x2b {
        return Err(int_err_value(IntErrorKind::InvalidDigit));
    }
    if b.len() > 20 && all_decimal_digits(b) {
        return Err(int_err_value(IntErrorKind::PosOverflow));
    }
    match parse_uint(b, false, u64::MAX) {
        Ok(n) => Ok(n),
        Err(k) => Err(int_err_value(k)),
    }
}

/// Whether every byte is a digit `0`-`9`.
fn all_decimal_digits(b: &[u8]) -> (r: bool)
    ensures
        r == all_digits(b@, false),
{
    let mut i: usize = 0;
    while i < b.len()
        invariant
            i <= b@.len(),
            forall|j: int| 0 <= j < i ==> (#[trigger] digit_value(b@[j], false)) is Some,
        decreases b@.len() - i,
    {
        if !(0x30 <= b[i] && b[i] <= 0x39) {
            assert(digit_value(b@[i as int], false) is None);
            return false;
        }
        i = i + 1;
    }
    true
}

/// Parses a (signed, when `signed`) decimal-floating-point.
pub fn parse_decimal_float(value: &str, signed: bool) -> (r: Result<DecimalFloat, ParseError>)
    ensures
        match float_spec(value.spec_bytes(), signed) {
            Ok(t) => r matches Ok(d) && d@ == t,
            Err(e) => r matches Err(x) && x@ == e,
        },
{
    match DecimalFloat::parse(value, signed) {
        Ok(d) => Ok(d),
        Err(empty) => Err(float_err_value(empty)),
    }
}

/// Parses a quoted-string, giving the text between the quotes.
pub fn parse_quoted_string(value: &str) -> (r: Result<String, ParseError>)
    ensures
        match quoted_spec(value.spec_bytes()) {
            Ok(t) => r matches Ok(x) && utf8(x@) == t,
            Err(e) => r matches Err(x) && x@ == e,
        },
{
    let b = bytes(value);
    let n = b.len();
    if !(n >= 2 && b[0] == 0x22 && b[n - 1] == 0x22) {
        return Err(ParseError::ExpectedQuotedString);
    }
    let inner = slice_ascii(value, 1, n - 1);
    if has_byte(inner, 0x22) || has_byte(inner, 0x0a) || has_byte(inner, 0x0d) {
        return Err(
            ParseError::InvalidQuotedString {
                value: owned(inner),
                reason: Some(
                    "Quoted string must not contain double quotes, newlines, or carriage returns",
                ),
            },
        );
    }
    Ok(owned(inner))
}

/// Parses an enumerated-string.
pub fn parse_enumerated_string(value: &str) -> (r: Result<String, ParseError>)
    ensures
        match enum_spec(value.spec_bytes()) {
            Ok(t) => r matches Ok(x) && utf8(x@) == t,
            Err(e) => r matches Err(x) && x@ == e,
        },
{
    if has_byte(value, 0x22) || has_byte(value, 0x2c) || has_whitespace(value) {
        return Err(
            ParseError::InvalidEnumeratedString { value: owned(value), expected: crate::error::yes_no() },
        );
    }
    Ok(owned(value))
}

/// Whether one of `v` has the bytes `t`.
fn contains_string(v: &Vec<String>, t: &str) -> (r: bool)
    ensures
        r == strings_view(v@).contains(t.spec_bytes()),
{
    let mut i: usize = 0;
    while i < v.len()
        invariant
            i <= v@.len(),
            forall|k: int| 0 <= k < i ==> utf8(v@[k]@) != t.spec_bytes(),
        decreases v.len() - i,
    {
        if str_eq(v[i].as_str(), t) {
            proof {
                assert(strings_view(v@)[i as int] == t.spec_bytes());
            }
            return true;
        }
        i = i + 1;
    }
    proof {
        if strings_view(v@).contains(t.spec_bytes()) {
            let k = choose|k: int| 0 <= k < strings_view(v@).len() && strings_view(v@)[k] == t.spec_bytes();
            assert(utf8(v@[k]@) == t.spec_bytes());
        }
    }
    false
}

/// Parses an enumerated-string-list; a repeated entry is kept once, at its first place.
pub fn parse_enumerated_string_list(value: &str) -> (r: Result<Vec<String>, ParseError>)
    ensures
        match enum_list_spec(value.spec_bytes()) {
            Ok(t) => r matches Ok(x) && strings_view(x@) == t,
            Err(e) => r matches Err(x) && x@ == e,
        },
{
    let q = match parse_quoted_string(value) {
        Ok(q) => q,
        Err(e) => {
            return Err(e);
        },
    };
    let qs = q.as_str();
    let items = split_str(qs, 0x2c);
    let ghost its = split(qs.spec_bytes(), 0x2c);
    let mut out: Vec<String> = Vec::new();
    let mut i: usize = 0;
    proof {
        assert(its.take(0) =~= Seq::<Seq<u8>>::empty());
        assert(strings_view(out@) =~= dedup(its.take(0)));
    }
    while i < items.len()
        invariant
            i <= items@.len(),
            items@.len() == its.len(),
            forall|k: int| 0 <= k < items@.len() ==> #[trigger] items@[k].spec_bytes() == its[k],
            first_bad_item(its, 0) == first_bad_item(its, i as nat),
            strings_view(out@) == dedup(its.take(i as int)),
            enum_list_spec(value.spec_bytes()) == match first_bad_item(its, 0) {
                Some(e) => Err(e),
                None => Ok::<Seq<Seq<u8>>, PErr>(dedup(its)),
            },
        decreases items.len() - i,
    {
        let item = items[i];
        proof {
            assert(item.spec_bytes() == its[i as int]);
        }
        let e = match parse_enumerated_string(item) {
            Ok(e) => e,
            Err(err) => {
                return Err(err);
            },
        };
        let ghost before = its.take(i as int);
        proof {
            assert(its.take(i + 1).drop_last() =~= before);
            assert(its.take(i + 1).last() == its[i as int]);
        }
        if !contains_string(&out, item) {
            out.push(e);
            proof {
                assert(strings_view(out@) =~= dedup(before).push(its[i as int]));
            }
        }
        i = i + 1;
    }
    proof {
        assert(its.take(its.len() as int) =~= its);
    }
    Ok(out)
}

/// Parses a decimal-resolution `<width>x<height>`.
pub fn parse_decimal_resolution(value: &str) -> (r: Result<(u64, u64), ParseError>)
    ensures
        match resolution_spec(value.spec_bytes()) {
            Ok(t) => r == Ok::<(u64, u64), ParseError>(t),
            Err(e) => r matches Err(x) && x@ == e,
        },
{
    let parts = split_str(value, 0x78);
    if parts.len() != 2 {
        return Err(ParseError::InvalidDecimalResolution { value: owned(value) });
    }
    let width = match parse_decimal_integer(parts[0]) {
        Ok(w) => w,
        Err(e) => {
            return Err(e);
        },
    };
    let height = match parse_decimal_integer(parts[1]) {
        Ok(h) => h,
        Err(e) => {
            return Err(e);
        },
    };
    Ok((width, height))
}

/// Parses a hexadecimal-sequence `0x...` or `0X...`.
pub fn parse_hex_sequence(value: &str) -> (r: Result<Vec<u8>, ParseError>)
    ensures
        match hex_spec(value.spec_bytes()) {
            Ok(t) => r matches Ok(x) && x@ == t,
            Err(e) => r matches Err(x) && x@ == e,
        },
{
    let b = bytes(value);
    if !(b.len() >= 2 && b[0] == 0x30 && (b[1] == 0x78 || b[1] == 0x58)) {
        return Err(ParseError::InvalidHexSequence { value: owned(value) });
    }
    let rest = slice_ascii(value, 2, b.len());
    match hex_decode(rest) {
        Some(v) => Ok(v),
        None => Err(ParseError::InvalidHexSequence { value: owned(value) }),
    }
}

/// The attributes whose value is a decimal-integer.
pub open spec fn integer_names() -> Seq<&'static str> {
    seq!["BANDWIDTH", "SKIPPED-SEGMENTS", "BYTERANGE-START", "BYTERANGE-LENGTH", "LAST-MSN", "LAST-PART", "BIT-DEPTH", "SAMPLE-RATE", "AVERAGE-BANDWIDTH"]
}

fn integer_name_list() -> (r: &'static [&'static str])
    ensures
        r@ == integer_names(),
{
    let r: &'static [&'static str] = &["BANDWIDTH", "SKIPPED-SEGMENTS", "BYTERANGE-START", "BYTERANGE-LENGTH", "LAST-MSN", "LAST-PART", "BIT-DEPTH", "SAMPLE-RATE", "AVERAGE-BANDWIDTH"];
    r
}

/// The attributes whose value is a decimal-floating-point.
pub open spec fn float_names() -> Seq<&'static str> {
    seq!["PART-TARGET", "CAN-SKIP-UNTIL", "HOLD-BACK", "PART-HOLD-BACK", "DURATION", "PLANNED-DURATION", "SCORE", "FRAME-RATE"]
}

fn float_name_list() -> (r: &'static [&'static str])
    ensures
        r@ == float_names(),
{
    let r: &'static [&'static str] = &["PART-TARGET", "CAN-SKIP-UNTIL", "HOLD-BACK", "PART-HOLD-BACK", "DURATION", "PLANNED-DURATION", "SCORE", "FRAME-RATE"];
    r
}

/// The attributes whose value is a signed-decimal-floating-point.
pub open spec fn signed_float_names() -> Seq<&'static str> {
    seq!["TIME-OFFSET"]
}

fn signed_float_name_list() -> (r: &'static [&'static str])
    ensures
        r@ == signed_float_names(),
{
    let r: &'static [&'static str] = &["TIME-OFFSET"];
    r
}

/// The attributes whose value is a enumerated-string.
pub open spec fn enumerated_names() -> Seq<&'static str> {
    seq!["PRECISE", "CAN-SKIP-DATERANGES", "CAN-BLOCK-RELOAD", "METHOD", "INDEPENDENT", "GAP", "END-ON-NEXT", "TYPE", "DEFAULT", "AUTOSELECT", "FORCED", "HDCP-LEVEL", "VIDEO-RANGE", "FORMAT"]
}

fn enumerated_name_list() -> (r: &'static [&'static str])
    ensures
        r@ == enumerated_names(),
{
    let r: &'static [&'static str] = &["PRECISE", "CAN-SKIP-DATERANGES", "CAN-BLOCK-RELOAD", "METHOD", "INDEPENDENT", "GAP", "END-ON-NEXT", "TYPE", "DEFAULT", "AUTOSELECT", "FORCED", "HDCP-LEVEL", "VIDEO-RANGE", "FORMAT"];
    r
}

/// The attributes whose value is a quoted-string.
pub open spec fn quoted_names() -> Seq<&'static str> {
    seq!["CODECS", "VALUE", "URI", "KEYFORMAT", "KEYFORMATVERSIONS", "BYTERANGE", "ID", "CLASS", "START-DATE", "END-DATE", "RECENTLY-REMOVED-DATERANGES", "GROUP-ID", "LANGUAGE", "ASSOC-LANGUAGE", "INSTREAM-ID", "CHARACTERISTICS", "CHANNELS", "SUPPLEMENTAL-CODECS", "REQ-VIDEO-LAYOUT", "AUDIO", "VIDEO", "SUBTITLES", "PATHWAY-ID", "DATA-ID", "SERVER-URI"]
}

fn quoted_name_list() -> (r: &'static [&'static str])
    ensures
        r@ == quoted_names(),
{
    let r: &'static [&'static str] = &["CODECS", "VALUE", "URI", "KEYFORMAT", "KEYFORMATVERSIONS", "BYTERANGE", "ID", "CLASS", "START-DATE", "END-DATE", "RECENTLY-REMOVED-DATERANGES", "GROUP-ID", "LANGUAGE", "ASSOC-LANGUAGE", "INSTREAM-ID", "CHARACTERISTICS", "CHANNELS", "SUPPLEMENTAL-CODECS", "REQ-VIDEO-LAYOUT", "AUDIO", "VIDEO", "SUBTITLES", "PATHWAY-ID", "DATA-ID", "SERVER-URI"];
    r
}

/// The attributes whose value is a hexadecimal-sequence.
pub open spec fn hex_names() -> Seq<&'static str> {
    seq!["IV", "SCTE35-CMD", "SCTE35-OUT", "SCTE35-IN"]
}

fn hex_name_list() -> (r: &'static [&'static str])
    ensures
        r@ == hex_names(),
{
    let r: &'static [&'static str] = &["IV", "SCTE35-CMD", "SCTE35-OUT", "SCTE35-IN"];
    r
}

/// `name` is one of `names`.
pub open spec fn named(name: Seq<u8>, names: Seq<&'static str>) -> bool {
    exists|i: int| 0 <= i < names.len() && (#[trigger] names[i]).spec_bytes() == name
}

fn is_named(name: &str, names: &[&'static str]) -> (r: bool)
    ensures
        r == named(name.spec_bytes(), names@),
{
    let mut i: usize = 0;
    while i < names.len()
        invariant
            i <= names@.len(),
            forall|k: int| 0 <= k < i ==> (#[trigger] names@[k]).spec_bytes() != name.spec_bytes(),
        decreases names.len() - i,
    {
        if str_eq(names[i], name) {
            return true;
        }
        i = i + 1;
    }
    false
}

/// How the value of an attribute is read, by the attribute's name.
#[derive(Debug, Clone, Copy, PartialEq, Eq)]
pub enum AttrKind {
    Integer,
    Float,
    SignedFloat,
    Enumerated,
    Quoted,
    /// A quoted variable name; the attribute and the expectation reported when it is not one.
    DefineName(&'static str, &'static str),
    /// A quoted stable identifier; the attribute and the expectation reported when it is not one.
    StableId(&'static str, &'static str),
    CpcLabel,
    Hex,
    EnumeratedList,
    Resolution,
    Extension,
    ClosedCaptions,
    Unknown,
}

/// The kind of the attribute `name`.
pub open spec fn attr_kind_spec(name: Seq<u8>) -> AttrKind {
    if named(name, integer_names()) {
        AttrKind::Integer
    } else if named(name, float_names()) {
        AttrKind::Float
    } else if named(name, signed_float_names()) {
        AttrKind::SignedFloat
    } else if named(name, enumerated_names()) {
        AttrKind::Enumerated
    } else if named(name, quoted_names()) {
        AttrKind::Quoted
    } else if named(name, hex_names()) {
        AttrKind::Hex
    } else if name == "NAME".spec_bytes() {
        AttrKind::DefineName("NAME", "a valid NAME according to HLS spec")
    } else if name == "IMPORT".spec_bytes() {
        AttrKind::DefineName("IMPORT", "a valid IMPORT according to HLS spec")
    } else if name == "QUERYPARAM".spec_bytes() {
        AttrKind::DefineName("QUERYPARAM", "a valid QUERYPARAM according to HLS spec")
    } else if name == "STABLE-RENDITION-ID".spec_bytes() {
        AttrKind::StableId("STABLE-RENDITION-ID", "a valid STABLE-RENDITION-ID according to HLS spec")
    } else if name == "STABLE-VARIANT-ID".spec_bytes() {
        AttrKind::StableId("STABLE-VARIANT-ID", "a valid STABLE-VARIANT-ID according to HLS spec")
    } else if name == "ALLOWED-CPC".spec_bytes() {
        AttrKind::CpcLabel
    } else if name == "CUE".spec_bytes() {
        AttrKind::EnumeratedList
    } else if name == "RESOLUTION".spec_bytes() {
        AttrKind::Resolution
    } else if name == "CLOSED-CAPTIONS".spec_bytes() {
        AttrKind::ClosedCaptions
    } else if has_prefix(name, "X-".spec_bytes()) {
        AttrKind::Extension
    } else {
        AttrKind::Unknown
    }
}

/// The kind of the attribute `name`.
pub fn attr_kind(name: &str) -> (r: AttrKind)
    ensures
        r == attr_kind_spec(name.spec_bytes()),
{
    if is_named(name, integer_name_list()) {
        AttrKind::Integer
    } else if is_named(name, float_name_list()) {
        AttrKind::Float
    } else if is_named(name, signed_float_name_list()) {
        AttrKind::SignedFloat
    } else if is_named(name, enumerated_name_list()) {
        AttrKind::Enumerated
    } else if is_named(name, quoted_name_list()) {
        AttrKind::Quoted
    } else if is_named(name, hex_name_list()) {
        AttrKind::Hex
    } else if str_eq(name, "NAME") {
        AttrKind::DefineName("NAME", "a valid NAME according to HLS spec")
    } else if str_eq(name, "IMPORT") {
        AttrKind::DefineName("IMPORT", "a valid IMPORT according to HLS spec")
    } else if str_eq(name, "QUERYPARAM") {
        AttrKind::DefineName("QUERYPARAM", "a valid QUERYPARAM according to HLS spec")
    } else if str_eq(name, "STABLE-RENDITION-ID") {
        AttrKind::StableId("STABLE-RENDITION-ID", "a valid STABLE-RENDITION-ID according to HLS spec")
    } else if str_eq(name, "STABLE-VARIANT-ID") {
        AttrKind::StableId("STABLE-VARIANT-ID", "a valid STABLE-VARIANT-ID according to HLS spec")
    } else if str_eq(name, "ALLOWED-CPC") {
        AttrKind::CpcLabel
    } else if str_eq(name, "CUE") {
        AttrKind::EnumeratedList
    } else if str_eq(name, "RESOLUTION") {
        AttrKind::Resolution
    } else if str_eq(name, "CLOSED-CAPTIONS") {
        AttrKind::ClosedCaptions
    } else if starts_with(name, "X-") {
        AttrKind::Extension
    } else {
        AttrKind::Unknown
    }
}

/// The value of an extension (`X-`) attribute: a quoted-string, else a hexadecimal-sequence,
/// else a signed-decimal-floating-point.
pub open spec fn extension_value_spec(v: Seq<u8>) -> Result<AttrV, PErr> {
    match quoted_spec(v) {
        Ok(q) => Ok(AttrV::QuotedString(q)),
        Err(_) => match hex_spec(v) {
            Ok(h) => Ok(AttrV::HexSequence(h)),
            Err(_) => match float_spec(v, true) {
                Ok(f) => Ok(AttrV::SignedDecimalFloatingPoint(f)),
                Err(e) => Err(e),
            },
        },
    }
}

/// A quoted value that must also pass `ok`.
pub open spec fn checked_quoted(v: Seq<u8>, ok: spec_fn(Seq<u8>) -> bool, attribute: &'static str, expected: &'static str) -> Result<AttrV, PErr> {
    match quoted_spec(v) {
        Err(e) => Err(e),
        Ok(q) => if ok(q) {
            Ok(AttrV::QuotedString(q))
        } else {
            Err(
                PErr::InvalidAttributeValue {
                    attribute: attribute.spec_bytes(),
                    value: q,
                    expected,
                },
            )
        },
    }
}

/// The value `v` of the attribute `name`, read as its name demands.
pub open spec fn attr_value_spec(name: Seq<u8>, v: Seq<u8>) -> Result<AttrV, PErr> {
    match attr_kind_spec(name) {
        AttrKind::Integer => match int_spec(v) {
            Ok(n) => Ok(AttrV::DecimalInteger(n)),
            Err(e) => Err(e),
        },
        AttrKind::Float => match float_spec(v, false) {
            Ok(f) => Ok(AttrV::DecimalFloatingPoint(f)),
            Err(e) => Err(e),
        },
        AttrKind::SignedFloat => match float_spec(v, true) {
            Ok(f) => Ok(AttrV::SignedDecimalFloatingPoint(f)),
            Err(e) => Err(e),
        },
        AttrKind::Enumerated => match enum_spec(v) {
            Ok(t) => Ok(AttrV::EnumeratedString(t)),
            Err(e) => Err(e),
        },
        AttrKind::Quoted => match quoted_spec(v) {
            Ok(q) => Ok(AttrV::QuotedString(q)),
            Err(e) => Err(e),
        },
        AttrKind::DefineName(a, x) => checked_quoted(
            v,
            |q: Seq<u8>| q.len() > 0 && define_name_spec(q),
            a,
            x,
        ),
        AttrKind::StableId(a, x) => checked_quoted(
            v,
            |q: Seq<u8>| q.len() > 0 && stable_id_chars(q),
            a,
            x,
        ),
        AttrKind::CpcLabel => checked_quoted(
            v,
            |q: Seq<u8>| cpc_label_spec(q),
            "ALLOWED-CPC",
            "a valid CPC label according to HLS spec",
        ),
        AttrKind::Hex => match hex_spec(v) {
            Ok(h) => Ok(AttrV::HexSequence(h)),
            Err(e) => Err(e),
        },
        AttrKind::EnumeratedList => match enum_list_spec(v) {
            Ok(l) => Ok(AttrV::EnumeratedStringList(l)),
            Err(e) => Err(e),
        },
        AttrKind::Resolution => match resolution_spec(v) {
            Ok((w, h)) => Ok(AttrV::DecimalResolution { width: w, height: h }),
            Err(e) => Err(e),
        },
        AttrKind::Extension => match extension_value_spec(v) {
            Ok(x) => Ok(AttrV::XAttribute(name, Box::new(x))),
            Err(e) => Err(e),
        },
        AttrKind::ClosedCaptions => match quoted_spec(v) {
            Ok(q) => Ok(AttrV::QuotedString(q)),
            Err(_) => match enum_spec(v) {
                Err(e) => Err(e),
                Ok(t) => if t != "NONE".spec_bytes() {
                    Err(PErr::InvalidEnumeratedString { value: t, expected: seq!["NONE"] })
                } else {
                    Ok(AttrV::EnumeratedString(t))
                },
            },
        },
        AttrKind::Unknown => Err(PErr::UnknownAttribute(name)),
    }
}

fn quoted_checked(
    ok: bool,
    attribute: &'static str,
    expected: &'static str,
    q: String,
) -> (r: Result<AttributeValue, ParseError>)
    ensures
        ok ==> (r matches Ok(x) && x@ == AttrV::QuotedString(utf8(q@))),
        !ok ==> (r matches Err(e) && e@ == (PErr::InvalidAttributeValue {
            attribute: attribute.spec_bytes(),
            value: utf8(q@),
            expected,
        })),
{
    if ok {
        Ok(AttributeValue::QuotedString(q))
    } else {
        Err(ParseError::InvalidAttributeValue { attribute: owned(attribute), value: q, expected })
    }
}

fn extension_value(v: &str) -> (r: Result<AttributeValue, ParseError>)
    ensures
        match extension_value_spec(v.spec_bytes()) {
            Ok(x) => r matches Ok(y) && y@ == x,
            Err(e) => r matches Err(y) && y@ == e,
        },
{
    if let Ok(q) = parse_quoted_string(v) {
        return Ok(AttributeValue::QuotedString(q));
    }
    if let Ok(h) = parse_hex_sequence(v) {
        return Ok(AttributeValue::HexSequence(h));
    }
    match parse_decimal_float(v, true) {
        Ok(f) => Ok(AttributeValue::SignedDecimalFloatingPoint(f)),
        Err(e) => Err(e),
    }
}

/// Parses the value `value` of the attribute `name`, as the attribute's kind demands.
pub fn parse_attribute_value(name: &str, value: &str) -> (r: Result<AttributeValue, ParseError>)
    ensures
        match attr_value_spec(name.spec_bytes(), value.spec_bytes()) {
            Ok(x) => r matches Ok(y) && y@ == x,
            Err(e) => r matches Err(y) && y@ == e,
        },
{
    match attr_kind(name) {
        AttrKind::Integer => match parse_decimal_integer(value) {
            Ok(n) => Ok(AttributeValue::DecimalInteger(n)),
            Err(e) => Err(e),
        },
        AttrKind::Float => match parse_decimal_float(value, false) {
            Ok(f) => Ok(AttributeValue::DecimalFloatingPoint(f)),
            Err(e) => Err(e),
        },
        AttrKind::SignedFloat => match parse_decimal_float(value, true) {
            Ok(f) => Ok(AttributeValue::SignedDecimalFloatingPoint(f)),
            Err(e) => Err(e),
        },
        AttrKind::Enumerated => match parse_enumerated_string(value) {
            Ok(t) => Ok(AttributeValue::EnumeratedString(t)),
            Err(e) => Err(e),
        },
        AttrKind::Quoted => match parse_quoted_string(value) {
            Ok(q) => Ok(AttributeValue::QuotedString(q)),
            Err(e) => Err(e),
        },
        AttrKind::DefineName(a, x) => match parse_quoted_string(value) {
            Ok(q) => {
                let ok = is_valid_ext_x_define(q.as_str());
                quoted_checked(ok, a, x, q)
            },
            Err(e) => Err(e),
        },
        AttrKind::StableId(a, x) => match parse_quoted_string(value) {
            Ok(q) => {
                let ok = is_valid_stable_rendition_id(q.as_str());
                quoted_checked(ok, a, x, q)
            },
            Err(e) => Err(e),
        },
        AttrKind::CpcLabel => match parse_quoted_string(value) {
            Ok(q) => {
                let ok = is_valid_cpc_label(q.as_str());
                quoted_checked(ok, "ALLOWED-CPC", "a valid CPC label according to HLS spec", q)
            },
            Err(e) => Err(e),
        },
        AttrKind::Hex => match parse_hex_sequence(value) {
            Ok(h) => Ok(AttributeValue::HexSequence(h)),
            Err(e) => Err(e),
        },
        AttrKind::EnumeratedList => match parse_enumerated_string_list(value) {
            Ok(l) => Ok(AttributeValue::EnumeratedStringList(l)),
            Err(e) => Err(e),
        },
        AttrKind::Resolution => match parse_decimal_resolution(value) {
            Ok((w, h)) => Ok(AttributeValue::DecimalResolution { width: w, height: h }),
            Err(e) => Err(e),
        },
        AttrKind::Extension => match extension_value(value) {
            Ok(x) => Ok(AttributeValue::XAttribute(owned(name), Box::new(x))),
            Err(e) => Err(e),
        },
        AttrKind::ClosedCaptions => {
            if let Ok(q) = parse_quoted_string(value) {
                return Ok(AttributeValue::QuotedString(q));
            }
            match parse_enumerated_string(value) {
                Err(e) => Err(e),
                Ok(t) => {
                    if !str_eq(t.as_str(), "NONE") {
                        Err(ParseError::InvalidEnumeratedString { value: t, expected: crate::error::none_only() })
                    } else {
                        Ok(AttributeValue::EnumeratedString(t))
                    }
                },
            }
        },
        AttrKind::Unknown => Err(ParseError::UnknownAttribute(owned(name))),
    }
}

/* Splitting a list into its `NAME=value` parts */

/// The parts of `s` from `start`, scanning from `i`: commas outside double quotes separate
/// them; `in_quotes` says whether an odd number of double quotes lies between 0 and `i`.
pub open spec fn split_top(s: Seq<u8>, start: int, i: int, in_quotes: bool) -> Seq<Seq<u8>>
    decreases s.len() - i,
{
    if i >= s.len() {
        seq![s.subrange(start, s.len() as int)]
    } else if s[i] == 0x22 {
        split_top(s, start, i + 1, !in_quotes)
    } else if s[i] == 0x2c && !in_quotes {
        seq![s.subrange(start, i)] + split_top(s, i + 1, i + 1, in_quotes)
    } else {
        split_top(s, start, i + 1, in_quotes)
    }
}

/// The trimmed parts of an attribute list.
pub open spec fn split_attributes_spec(s: Seq<u8>) -> Seq<Seq<u8>> {
    split_top(s, 0, 0, false).map_values(|p: Seq<u8>| trim_spec(p))
}

/// Splits an attribute list at the commas that are not inside double quotes, trimming each part.
pub fn split_attributes(s: &str) -> (r: Vec<&str>)
    ensures
        r@.len() == split_attributes_spec(s.spec_bytes()).len(),
        forall|k: int|
            0 <= k < r@.len() ==> #[trigger] r@[k].spec_bytes() == split_attributes_spec(
                s.spec_bytes(),
            )[k],
{
    let b = bytes(s);
    let ghost sb = b@;
    let mut parts: Vec<&str> = Vec::new();
    let ghost mut done: Seq<Seq<u8>> = seq![];
    let mut start: usize = 0;
    let mut in_quotes = false;
    let mut i: usize = 0;
    while i < b.len()
        invariant
            sb == b@,
            sb == s.spec_bytes(),
            start <= i <= sb.len(),
            start == 0 || sb[start - 1] == 0x2c,
            parts@.len() == done.len(),
            forall|k: int| 0 <= k < parts@.len() ==> #[trigger] parts@[k].spec_bytes() == trim_spec(
                done[k],
            ),
            split_top(sb, 0, 0, false) == done + split_top(sb, start as int, i as int, in_quotes),
        decreases b.len() - i,
    {
        let c = b[i];
        if c == 0x22 {
            in_quotes = !in_quotes;
        } else if c == 0x2c && !in_quotes {
            let piece = slice_ascii(s, start, i);
            let t = trim(piece);
            proof {
                assert(split_top(sb, start as int, i as int, in_quotes) == seq![
                    sb.subrange(start as int, i as int),
                ] + split_top(sb, i + 1, i + 1, in_quotes));
                assert(done + split_top(sb, start as int, i as int, in_quotes) =~= done.push(
                    piece.spec_bytes(),
                ) + split_top(sb, i + 1, i + 1, in_quotes));
                done = done.push(piece.spec_bytes());
            }
            parts.push(t);
            start = i + 1;
        }
        i = i + 1;
    }
    let piece = slice_ascii(s, start, b.len());
    let t = trim(piece);
    proof {
        assert(split_top(sb, start as int, i as int, in_quotes) == seq![
            sb.subrange(start as int, sb.len() as int),
        ]);
        done = done.push(piece.spec_bytes());
    }
    parts.push(t);
    proof {
        assert(split_top(sb, 0, 0, false) =~= done);
    }
    parts
}

/* The list itself */

/// The attributes of a tag, each name at most once.
#[derive(Debug)]
pub struct AttributeList {
    entries: Vec<(String, AttributeValue)>,
}

/// An entry with its text as bytes.
pub open spec fn entry_view(e: (String, AttributeValue)) -> (Seq<u8>, AttrV) {
    (utf8(e.0@), e.1@)
}

impl View for AttributeList {
    type V = Seq<(Seq<u8>, AttrV)>;

    closed spec fn view(&self) -> Seq<(Seq<u8>, AttrV)> {
        self.entries@.map_values(|e: (String, AttributeValue)| entry_view(e))
    }
}

/// The value of the first entry named `k`.
pub open spec fn lookup(m: Seq<(Seq<u8>, AttrV)>, k: Seq<u8>) -> Option<AttrV>
    decreases m.len(),
{
    if m.len() == 0 {
        None
    } else if m[0].0 == k {
        Some(m[0].1)
    } else {
        lookup(m.drop_first(), k)
    }
}

/// The entries not named `k`.
pub open spec fn without(m: Seq<(Seq<u8>, AttrV)>, k: Seq<u8>) -> Seq<(Seq<u8>, AttrV)>
    decreases m.len(),
{
    if m.len() == 0 {
        m
    } else if m[0].0 == k {
        without(m.drop_first(), k)
    } else {
        seq![m[0]] + without(m.drop_first(), k)
    }
}

/// The list after setting `k` to `v`: the first entry named `k` takes the new value, or a new
/// entry is added at the end.
pub open spec fn with_entry(m: Seq<(Seq<u8>, AttrV)>, k: Seq<u8>, v: AttrV) -> Seq<(Seq<u8>, AttrV)>
    decreases m.len(),
{
    if m.len() == 0 {
        seq![(k, v)]
    } else if m[0].0 == k {
        m.update(0, (k, v))
    } else {
        seq![m[0]] + with_entry(m.drop_first(), k, v)
    }
}

/// Setting a name gives its new value and keeps every other name's value.
pub proof fn lemma_lookup_with_entry(m: Seq<(Seq<u8>, AttrV)>, k: Seq<u8>, v: AttrV, k2: Seq<u8>)
    ensures
        lookup(with_entry(m, k, v), k2) == if k2 == k {
            Some(v)
        } else {
            lookup(m, k2)
        },
    decreases m.len(),
{
    let w = with_entry(m, k, v);
    if m.len() > 0 && m[0].0 != k {
        lemma_lookup_with_entry(m.drop_first(), k, v, k2);
        assert(w[0] == m[0]);
        assert(w.drop_first() =~= with_entry(m.drop_first(), k, v));
        if k2 != m[0].0 {
            assert(lookup(w, k2) == lookup(w.drop_first(), k2));
        }
    } else if m.len() > 0 {
        assert(w[0] == (k, v));
        assert(w.drop_first() =~= m.drop_first());
        if k2 != k {
            assert(lookup(w, k2) == lookup(w.drop_first(), k2));
        }
    } else {
        assert(w[0] == (k, v));
        assert(w.drop_first() =~= Seq::<(Seq<u8>, AttrV)>::empty());
        if k2 != k {
            assert(lookup(w, k2) == lookup(w.drop_first(), k2));
            assert(lookup(w.drop_first(), k2) is None);
        }
    }
}

/// Removing a name leaves no value for it and keeps every other name's value.
pub proof fn lemma_lookup_without(m: Seq<(Seq<u8>, AttrV)>, k: Seq<u8>, k2: Seq<u8>)
    ensures
        lookup(without(m, k), k2) == if k2 == k {
            None
        } else {
            lookup(m, k2)
        },
    decreases m.len(),
{
    if m.len() > 0 {
        lemma_lookup_without(m.drop_first(), k, k2);
        if m[0].0 != k {
            assert((seq![m[0]] + without(m.drop_first(), k)).drop_first() =~= without(
                m.drop_first(),
                k,
            ));
        }
    }
}

proof fn lemma_without_append(a: Seq<(Seq<u8>, AttrV)>, b: Seq<(Seq<u8>, AttrV)>, k: Seq<u8>)
    ensures
        without(a + b, k) == without(a, k) + without(b, k),
    decreases a.len(),
{
    if a.len() == 0 {
        assert(a + b =~= b);
        assert(without(a, k) + without(b, k) =~= without(b, k));
    } else {
        assert((a + b).drop_first() =~= a.drop_first() + b);
        lemma_without_append(a.drop_first(), b, k);
        if a[0].0 != k {
            assert(seq![a[0]] + (without(a.drop_first(), k) + without(b, k)) =~= (seq![a[0]]
                + without(a.drop_first(), k)) + without(b, k));
        }
    }
}

proof fn lemma_lookup_skip(m: Seq<(Seq<u8>, AttrV)>, k: Seq<u8>, i: int)
    requires
        0 <= i < m.len(),
        m[i].0 != k,
    ensures
        lookup(m.skip(i), k) == lookup(m.skip(i + 1), k),
{
    assert(m.skip(i).drop_first() =~= m.skip(i + 1));
}

proof fn lemma_with_entry_at(m: Seq<(Seq<u8>, AttrV)>, k: Seq<u8>, v: AttrV, i: int)
    requires
        0 <= i <= m.len(),
        forall|j: int| 0 <= j < i ==> m[j].0 != k,
        i < m.len() ==> m[i].0 == k,
    ensures
        with_entry(m, k, v) == if i < m.len() {
            m.update(i, (k, v))
        } else {
            m.push((k, v))
        },
    decreases m.len(),
{
    if i > 0 {
        lemma_with_entry_at(m.drop_first(), k, v, i - 1);
        if i < m.len() {
            assert(seq![m[0]] + m.drop_first().update(i - 1, (k, v)) =~= m.update(i, (k, v)));
        } else {
            assert(seq![m[0]] + m.drop_first().push((k, v)) =~= m.push((k, v)));
        }
    } else if m.len() == 0 {
        assert(seq![(k, v)] =~= m.push((k, v)));
    }
}

impl AttributeList {
    /// An empty list.
    pub fn new() -> (r: Self)
        ensures
            r@ == Seq::<(Seq<u8>, AttrV)>::empty(),
    {
        let r = AttributeList { entries: Vec::new() };
        proof {
            assert(r@ =~= Seq::<(Seq<u8>, AttrV)>::empty());
        }
        r
    }

    /// The number of entries.
    pub fn len(&self) -> (r: usize)
        ensures
            r == self@.len(),
    {
        self.entries.len()
    }

    /// Whether there are no entries.
    pub fn is_empty(&self) -> (r: bool)
        ensures
            r == (self@.len() == 0),
    {
        self.entries.len() == 0
    }

    /// Index of the first entry named `k`, if any.
    fn position(&self, k: &str) -> (r: Option<usize>)
        ensures
            match r {
                Some(i) => i < self@.len() && self@[i as int].0 == k.spec_bytes() && forall|j: int|
                    0 <= j < i ==> self@[j].0 != k.spec_bytes(),
                None => forall|j: int| 0 <= j < self@.len() ==> self@[j].0 != k.spec_bytes(),
            },
    {
        let mut i: usize = 0;
        while i < self.entries.len()
            invariant
                i <= self@.len(),
                self@.len() == self.entries@.len(),
                forall|j: int| 0 <= j < i ==> self@[j].0 != k.spec_bytes(),
            decreases self.entries.len() - i,
        {
            proof {
                assert(self@[i as int] == entry_view(self.entries@[i as int]));
            }
            if str_eq(self.entries[i].0.as_str(), k) {
                return Some(i);
            }
            i = i + 1;
        }
        None
    }

    /// The value of the attribute `k`, if present.
    pub fn get(&self, k: &str) -> (r: Option<&AttributeValue>)
        ensures
            match lookup(self@, k.spec_bytes()) {
                Some(v) => r matches Some(x) && x@ == v,
                None => r is None,
            },
    {
        let p = self.position(k);
        proof {
            let m = self@;
            let n = match p {
                Some(i) => i as int,
                None => m.len() as int,
            };
            assert forall|j: int| 0 <= j <= n implies lookup(m.skip(j), k.spec_bytes()) == lookup(
                m,
                k.spec_bytes(),
            ) by {
                lemma_lookup_prefix(m, k.spec_bytes(), j);
            }
            if n < m.len() {
                assert(lookup(m.skip(n), k.spec_bytes()) == Some(m[n].1));
            } else {
                assert(m.skip(n).len() == 0);
            }
        }
        match p {
            Some(i) => {
                proof {
                    assert(self@[i as int] == entry_view(self.entries@[i as int]));
                }
                Some(&self.entries[i].1)
            },
            None => None,
        }
    }

    /// Whether the attribute `k` is present.
    pub fn contains_key(&self, k: &str) -> (r: bool)
        ensures
            r == (lookup(self@, k.spec_bytes()) is Some),
    {
        self.get(k).is_some()
    }

    /// Sets the attribute `k` to `v`.
    pub fn insert(&mut self, k: String, v: AttributeValue)
        ensures
            final(self)@ == with_entry(old(self)@, utf8(k@), v@),
    {
        let ghost m = self@;
        let ghost e = (utf8(k@), v@);
        let p = self.position(k.as_str());
        proof {
            match p {
                Some(i) => lemma_with_entry_at(m, utf8(k@), v@, i as int),
                None => lemma_with_entry_at(m, utf8(k@), v@, m.len() as int),
            }
        }
        match p {
            Some(i) => {
                self.entries.set(i, (k, v));
                proof {
                    assert(self@ =~= m.update(i as int, e));
                }
            },
            None => {
                self.entries.push((k, v));
                proof {
                    assert(self@ =~= m.push(e));
                }
            },
        }
    }

    /// Removes every entry named `k`, giving the value `get` would have given.
    pub fn remove(&mut self, k: &str) -> (r: Option<AttributeValue>)
        ensures
            match lookup(old(self)@, k.spec_bytes()) {
                Some(v) => r matches Some(x) && x@ == v,
                None => r is None,
            },
            final(self)@ == without(old(self)@, k.spec_bytes()),
    {
        let ghost m = self@;
        let ghost key = k.spec_bytes();
        let mut found: Option<AttributeValue> = None;
        let mut i: usize = 0;
        let ghost mut j: int = 0;
        proof {
            assert(m.take(0) =~= Seq::<(Seq<u8>, AttrV)>::empty());
            assert(m.skip(0) =~= m);
        }
        while i < self.entries.len()
            invariant
                key == k.spec_bytes(),
                0 <= j <= m.len(),
                i <= self@.len(),
                self@.len() == self.entries@.len(),
                self@ == without(m.take(j), key) + m.skip(j),
                i == without(m.take(j), key).len(),
                match found {
                    Some(x) => lookup(m, key) == Some(x@),
                    None => lookup(m, key) == lookup(m.skip(j), key),
                },
            decreases self.entries.len() - i,
        {
            proof {
                assert(self@[i as int] == entry_view(self.entries@[i as int]));
                assert(self@[i as int] == m[j]);
                assert(m.take(j + 1) =~= m.take(j) + seq![m[j]]);
                lemma_without_append(m.take(j), seq![m[j]], key);
                assert(seq![m[j]].drop_first() =~= Seq::<(Seq<u8>, AttrV)>::empty());
                assert(m.skip(j).drop_first() =~= m.skip(j + 1));
            }
            let name: &str = self.entries[i].0.as_str();
            proof {
                assert(name.spec_bytes() == utf8(self.entries@[i as int].0@));
            }
            let same = str_eq(name, k);
            if same {
                let ghost before = self@;
                let (_, v) = self.entries.remove(i);
                proof {
                    assert(self@ =~= before.remove(i as int));
                    assert(m[j].0 == key);
                    assert(without(seq![m[j]], key) == without(seq![m[j]].drop_first(), key));
                    assert(without(seq![m[j]], key) =~= Seq::<(Seq<u8>, AttrV)>::empty());
                    assert(self@ =~= without(m.take(j + 1), key) + m.skip(j + 1));
                }
                if found.is_none() {
                    found = Some(v);
                }
                proof {
                    j = j + 1;
                }
            } else {
                proof {
                    assert(m[j].0 != key);
                    let e: Seq<(Seq<u8>, AttrV)> = Seq::empty();
                    assert(without(e, key) == e);
                    assert(seq![m[j]].drop_first() =~= e);
                    assert(without(seq![m[j]], key) == seq![m[j]] + without(seq![m[j]].drop_first(), key));
                    assert(without(seq![m[j]], key) =~= seq![m[j]]);
                    assert(self@ =~= without(m.take(j + 1), key) + m.skip(j + 1));
                    j = j + 1;
                }
                i = i + 1;
            }
        }
        proof {
            assert(m.skip(j).len() == 0);
            assert(j == m.len());
            assert(m.take(j) =~= m);
            assert(self@ =~= without(m, key));
        }
        found
    }

    /// The entries, in order.
    pub fn into_entries(self) -> (r: Vec<(String, AttributeValue)>)
        ensures
            r@.map_values(|e: (String, AttributeValue)| entry_view(e)) == self@,
    {
        self.entries
    }
}

/// Looking a name up past entries with other names.
pub proof fn lemma_lookup_prefix(m: Seq<(Seq<u8>, AttrV)>, k: Seq<u8>, j: int)
    requires
        0 <= j <= m.len(),
        forall|i: int| 0 <= i < j ==> m[i].0 != k,
    ensures
        lookup(m.skip(j), k) == lookup(m, k),
    decreases j,
{
    if j > 0 {
        lemma_lookup_prefix(m, k, j - 1);
        lemma_lookup_skip(m, k, j - 1);
    } else {
        assert(m.skip(0) =~= m);
    }
}

/// One `NAME=value` part: both sides trimmed, the value read as the name demands.
#[verifier::opaque]
pub open spec fn entry_of_part(p: Seq<u8>) -> Result<(Seq<u8>, AttrV), PErr> {
    match split_once(p, 0x3d) {
        None => Err(PErr::InvalidAttributeDefinition { definition: "key=value".spec_bytes() }),
        Some((k, v)) => match attr_value_spec(trim_spec(k), trim_spec(v)) {
            Err(e) => Err(e),
            Ok(x) => Ok((trim_spec(k), x)),
        },
    }
}

/// The list built from the parts from `i` on, starting from `acc`; a later part with a name
/// already present replaces its value.
pub open spec fn build_list(parts: Seq<Seq<u8>>, i: nat, acc: Seq<(Seq<u8>, AttrV)>) -> Result<
    Seq<(Seq<u8>, AttrV)>,
    PErr,
>
    decreases parts.len() - i,
{
    if i >= parts.len() {
        Ok(acc)
    } else {
        match entry_of_part(parts[i as int]) {
            Err(e) => Err(e),
            Ok((k, x)) => build_list(parts, i + 1, with_entry(acc, k, x)),
        }
    }
}

/// The attribute list written as `s`.
pub open spec fn attribute_list_spec(s: Seq<u8>) -> Result<Seq<(Seq<u8>, AttrV)>, PErr> {
    build_list(split_attributes_spec(s), 0, Seq::empty())
}

/// Parses an attribute list: the parts between top-level commas, each `NAME=value`.
pub fn parse_attribute_list(s: &str) -> (r: Result<AttributeList, ParseError>)
    ensures
        match attribute_list_spec(s.spec_bytes()) {
            Ok(m) => r matches Ok(a) && a@ == m,
            Err(e) => r matches Err(x) && x@ == e,
        },
{
    proof {
        reveal(entry_of_part);
    }
    let parts = split_attributes(s);
    let ghost ps = split_attributes_spec(s.spec_bytes());
    let mut attrs = AttributeList::new();
    let mut i: usize = 0;
    while i < parts.len()
        invariant
            i <= parts@.len(),
            parts@.len() == ps.len(),
            forall|k: int| 0 <= k < parts@.len() ==> #[trigger] parts@[k].spec_bytes() == ps[k],
            attribute_list_spec(s.spec_bytes()) == build_list(ps, i as nat, attrs@),
        decreases parts.len() - i,
    {
        let part = parts[i];
        proof {
            reveal(entry_of_part);
            assert(part.spec_bytes() == ps[i as int]);
        }
        match split_once_str(part, 0x3d) {
            None => {
                return Err(
                    ParseError::InvalidAttributeDefinition { definition: owned("key=value") },
                );
            },
            Some((k, v)) => {
                let key = trim(k);
                let value = match parse_attribute_value(key, trim(v)) {
                    Ok(x) => x,
                    Err(e) => {
                        return Err(e);
                    },
                };
                attrs.insert(owned(key), value);
            },
        }
        i = i + 1;
    }
    Ok(attrs)
}

impl AttributeValue {
    /// The text of a quoted-string value.
    pub fn as_quoted_string(&self) -> (r: Option<&str>)
        ensures
            match self@ {
                AttrV::QuotedString(t) => r matches Some(x) && x.spec_bytes() == t,
                _ => r is None,
            },
    {
        match self {
            AttributeValue::QuotedString(s) => Some(s.as_str()),
            _ => None,
        }
    }

    /// The number of a decimal-floating-point value.
    pub fn as_decimal_floating_point(&self) -> (r: Option<&DecimalFloat>)
        ensures
            match self@ {
                AttrV::DecimalFloatingPoint(t) => r matches Some(x) && x@ == t,
                _ => r is None,
            },
    {
        match self {
            AttributeValue::DecimalFloatingPoint(d) => Some(d),
            _ => None,
        }
    }

    /// The number of a signed-decimal-floating-point value.
    pub fn as_signed_decimal_floating_point(&self) -> (r: Option<&DecimalFloat>)
        ensures
            match self@ {
                AttrV::SignedDecimalFloatingPoint(t) => r matches Some(x) && x@ == t,
                _ => r is None,
            },
    {
        match self {
            AttributeValue::SignedDecimalFloatingPoint(d) => Some(d),
            _ => None,
        }
    }

    /// The text of an enumerated-string value.
    pub fn as_enumerated_string(&self) -> (r: Option<&str>)
        ensures
            match self@ {
                AttrV::EnumeratedString(t) => r matches Some(x) && x.spec_bytes() == t,
                _ => r is None,
            },
    {
        match self {
            AttributeValue::EnumeratedString(s) => Some(s.as_str()),
            _ => None,
        }
    }

    /// The bytes of a hexadecimal-sequence value.
    pub fn as_hex_sequence(&self) -> (r: Option<&Vec<u8>>)
        ensures
            match self@ {
                AttrV::HexSequence(t) => r matches Some(x) && x@ == t,
                _ => r is None,
            },
    {
        match self {
            AttributeValue::HexSequence(h) => Some(h),
            _ => None,
        }
    }

    /// The entries of an enumerated-string-list value.
    pub fn as_enumerated_string_list(&self) -> (r: Option<&Vec<String>>)
        ensures
            match self@ {
                AttrV::EnumeratedStringList(t) => r matches Some(x) && strings_view(x@) == t,
                _ => r is None,
            },
    {
        match self {
            AttributeValue::EnumeratedStringList(l) => Some(l),
            _ => None,
        }
    }

    /// The number of a decimal-integer value.
    pub fn as_decimal_integer(&self) -> (r: Option<u64>)
        ensures
            match self@ {
                AttrV::DecimalInteger(n) => r == Some(n),
                _ => r is None,
            },
    {
        match self {
            AttributeValue::DecimalInteger(n) => Some(*n),
            _ => None,
        }
    }

    /// The width and height of a decimal-resolution value.
    pub fn as_decimal_resolution(&self) -> (r: Option<(u64, u64)>)
        ensures
            match self@ {
                AttrV::DecimalResolution { width, height } => r == Some((width, height)),
                _ => r is None,
            },
    {
        match self {
            AttributeValue::DecimalResolution { width, height } => Some((*width, *height)),
            _ => None,
        }
    }
}

/* The text of a value */

/// Pieces joined by `sep`.
pub open spec fn join_with(parts: Seq<Seq<u8>>, sep: Seq<u8>) -> Seq<u8>
    decreases parts.len(),
{
    if parts.len() == 0 {
        Seq::empty()
    } else if parts.len() == 1 {
        parts[0]
    } else {
        join_with(parts.drop_last(), sep) + sep + parts.last()
    }
}

/// The text of a value: numbers in decimal, hexadecimal-sequences as `0x` and lowercase
/// digits, strings as they are, lists joined by `,`, resolutions as `<width>x<height>`, and
/// extension attributes as `<name>=<value>`.
pub open spec fn attr_text(v: AttrV) -> Seq<u8>
    decreases v,
{
    match v {
        AttrV::DecimalInteger(n) => dec_digits(n as nat),
        AttrV::DecimalFloatingPoint(t) => t,
        AttrV::SignedDecimalFloatingPoint(t) => t,
        AttrV::HexSequence(b) => "0x".spec_bytes() + hex_encode_spec(b),
        AttrV::QuotedString(t) => t,
        AttrV::EnumeratedString(t) => t,
        AttrV::EnumeratedStringList(l) => join_with(l, ",".spec_bytes()),
        AttrV::DecimalResolution { width, height } => dec_digits(width as nat) + "x".spec_bytes()
            + dec_digits(height as nat),
        AttrV::XAttribute(n, b) => n + "=".spec_bytes() + attr_text(*b),
    }
}

/// The decimal digits of `n`.
pub fn dec_string(n: u64) -> (r: String)
    ensures
        utf8(r@) == dec_digits(n as nat),
{
    let mut v: Vec<u8> = Vec::new();
    push_dec(&mut v, n);
    proof {
        lemma_dec_digits(n as nat);
        assert(v@ =~= dec_digits(n as nat));
        crate::uri::lemma_ascii_valid(v@);
    }
    string_of_bytes(v)
}

/// Strings joined by `sep`.
pub fn join_strings(parts: &Vec<String>, sep: &str) -> (r: String)
    ensures
        utf8(r@) == join_with(strings_view(parts@), sep.spec_bytes()),
{
    let ghost ps = strings_view(parts@);
    let mut out = String::new();
    let mut i: usize = 0;
    proof {
        assert(utf8(out@) =~= Seq::<u8>::empty());
    }
    while i < parts.len()
        invariant
            i <= parts@.len(),
            ps == strings_view(parts@),
            utf8(out@) == join_with(ps.take(i as int), sep.spec_bytes()),
        decreases parts.len() - i,
    {
        let ghost before = utf8(out@);
        proof {
            assert(ps.take(i + 1).drop_last() =~= ps.take(i as int));
            assert(ps.take(i + 1).last() == utf8(parts@[i as int]@));
        }
        if i == 0 {
            out = owned(parts[i].as_str());
            proof {
                assert(ps.take(1) =~= seq![utf8(parts@[0]@)]);
            }
        } else {
            let with_sep = concat_str(out.as_str(), sep);
            out = concat_str(with_sep.as_str(), parts[i].as_str());
        }
        i = i + 1;
    }
    proof {
        assert(ps.take(ps.len() as int) =~= ps);
    }
    out
}

impl AttributeValue {
    /// The text of the value; see `attr_text`.
    pub fn to_string(&self) -> (r: String)
        ensures
            utf8(r@) == attr_text(self@),
        decreases self,
    {
        match self {
            AttributeValue::DecimalInteger(n) => dec_string(*n),
            AttributeValue::DecimalFloatingPoint(d) => owned(d.as_str()),
            AttributeValue::SignedDecimalFloatingPoint(d) => owned(d.as_str()),
            AttributeValue::HexSequence(b) => {
                let h = hex_encode(b.as_slice());
                concat_str("0x", h.as_str())
            },
            AttributeValue::QuotedString(s) => owned(s.as_str()),
            AttributeValue::EnumeratedString(s) => owned(s.as_str()),
            AttributeValue::EnumeratedStringList(l) => join_strings(l, ","),
            AttributeValue::DecimalResolution { width, height } => {
                let w = dec_string(*width);
                let wx = concat_str(w.as_str(), "x");
                let h = dec_string(*height);
                let r = concat_str(wx.as_str(), h.as_str());
                proof {
                    assert(utf8(r@) =~= dec_digits(*width as nat) + "x".spec_bytes() + dec_digits(
                        *height as nat,
                    ));
                }
                r
            },
            AttributeValue::XAttribute(n, b) => {
                let ne = concat_str(n.as_str(), "=");
                let inner = b.to_string();
                let r = concat_str(ne.as_str(), inner.as_str());
                proof {
                    assert(utf8(r@) =~= utf8(n@) + "=".spec_bytes() + attr_text((**b)@));
                }
                r
            },
        }
    }
}


/* The kinds of the attributes that the start and define tags are written with */

proof fn lemma_define_start_names_integer()
    ensures
        !named("PRECISE".spec_bytes(), integer_names()),
        !named("TIME-OFFSET".spec_bytes(), integer_names()),
        !named("NAME".spec_bytes(), integer_names()),
        !named("VALUE".spec_bytes(), integer_names()),
        !named("IMPORT".spec_bytes(), integer_names()),

{
    reveal_strlit("BANDWIDTH");
    crate::text::lemma_ascii_str("BANDWIDTH");
    reveal_strlit("SKIPPED-SEGMENTS");
    crate::text::lemma_ascii_str("SKIPPED-SEGMENTS");
    reveal_strlit("BYTERANGE-START");
    crate::text::lemma_ascii_str("BYTERANGE-START");
    reveal_strlit("BYTERANGE-LENGTH");
    crate::text::lemma_ascii_str("BYTERANGE-LENGTH");
    reveal_strlit("LAST-MSN");
    crate::text::lemma_ascii_str("LAST-MSN");
    reveal_strlit("LAST-PART");
    crate::text::lemma_ascii_str("LAST-PART");
    reveal_strlit("BIT-DEPTH");
    crate::text::lemma_ascii_str("BIT-DEPTH");
    reveal_strlit("SAMPLE-RATE");
    crate::text::lemma_ascii_str("SAMPLE-RATE");
    reveal_strlit("AVERAGE-BANDWIDTH");
    crate::text::lemma_ascii_str("AVERAGE-BANDWIDTH");
    reveal_strlit("PRECISE");
    crate::text::lemma_ascii_str("PRECISE");
    reveal_strlit("TIME-OFFSET");
    crate::text::lemma_ascii_str("TIME-OFFSET");
    reveal_strlit("NAME");
    crate::text::lemma_ascii_str("NAME");
    reveal_strlit("VALUE");
    crate::text::lemma_ascii_str("VALUE");
    reveal_strlit("IMPORT");
    crate::text::lemma_ascii_str("IMPORT");
    assert forall|i: int| 0 <= i < integer_names().len() implies (#[trigger] integer_names()[i]).spec_bytes() != "PRECISE".spec_bytes() by {
        if (integer_names()[i]).spec_bytes() == "PRECISE".spec_bytes() {
            assert((integer_names()[i]).spec_bytes()[0] == "PRECISE".spec_bytes()[0]);
            assert((integer_names()[i]).spec_bytes()[1] == "PRECISE".spec_bytes()[1]);
        }
    }
    assert forall|i: int| 0 <= i < integer_names().len() implies (#[trigger] integer_names()[i]).spec_bytes() != "TIME-OFFSET".spec_bytes() by {
        if (integer_names()[i]).spec_bytes() == "TIME-OFFSET".spec_bytes() {
            assert((integer_names()[i]).spec_bytes()[0] == "TIME-OFFSET".spec_bytes()[0]);
            assert((integer_names()[i]).spec_bytes()[1] == "TIME-OFFSET".spec_bytes()[1]);
        }
    }
    assert forall|i: int| 0 <= i < integer_names().len() implies (#[trigger] integer_names()[i]).spec_bytes() != "NAME".spec_bytes() by {
        if (integer_names()[i]).spec_bytes() == "NAME".spec_bytes() {
            assert((integer_names()[i]).spec_bytes()[0] == "NAME".spec_bytes()[0]);
            assert((integer_names()[i]).spec_bytes()[1] == "NAME".spec_bytes()[1]);
        }
    }
    assert forall|i: int| 0 <= i < integer_names().len() implies (#[trigger] integer_names()[i]).spec_bytes() != "VALUE".spec_bytes() by {
        if (integer_names()[i]).spec_bytes() == "VALUE".spec_bytes() {
            assert((integer_names()[i]).spec_bytes()[0] == "VALUE".spec_bytes()[0]);
            assert((integer_names()[i]).spec_bytes()[1] == "VALUE".spec_bytes()[1]);
        }
    }
    assert forall|i: int| 0 <= i < integer_names().len() implies (#[trigger] integer_names()[i]).spec_bytes() != "IMPORT".spec_bytes() by {
        if (integer_names()[i]).spec_bytes() == "IMPORT".spec_bytes() {
            assert((integer_names()[i]).spec_bytes()[0] == "IMPORT".spec_bytes()[0]);
            assert((integer_names()[i]).spec_bytes()[1] == "IMPORT".spec_bytes()[1]);
        }
    }
}

proof fn lemma_define_start_names_float()
    ensures
        !named("PRECISE".spec_bytes(), float_names()),
        !named("TIME-OFFSET".spec_bytes(), float_names()),
        !named("NAME".spec_bytes(), float_names()),
        !named("VALUE".spec_bytes(), float_names()),
        !named("IMPORT".spec_bytes(), float_names()),

{
    reveal_strlit("PART-TARGET");
    crate::text::lemma_ascii_str("PART-TARGET");
    reveal_strlit("CAN-SKIP-UNTIL");
    crate::text::lemma_ascii_str("CAN-SKIP-UNTIL");
    reveal_strlit("HOLD-BACK");
    crate::text::lemma_ascii_str("HOLD-BACK");
    reveal_strlit("PART-HOLD-BACK");
    crate::text::lemma_ascii_str("PART-HOLD-BACK");
    reveal_strlit("DURATION");
    crate::text::lemma_ascii_str("DURATION");
    reveal_strlit("PLANNED-DURATION");
    crate::text::lemma_ascii_str("PLANNED-DURATION");
    reveal_strlit("SCORE");
    crate::text::lemma_ascii_str("SCORE");
    reveal_strlit("FRAME-RATE");
    crate::text::lemma_ascii_str("FRAME-RATE");
    reveal_strlit("PRECISE");
    crate::text::lemma_ascii_str("PRECISE");
    reveal_strlit("TIME-OFFSET");
    crate::text::lemma_ascii_str("TIME-OFFSET");
    reveal_strlit("NAME");
    crate::text::lemma_ascii_str("NAME");
    reveal_strlit("VALUE");
    crate::text::lemma_ascii_str("VALUE");
    reveal_strlit("IMPORT");
    crate::text::lemma_ascii_str("IMPORT");
    assert forall|i: int| 0 <= i < float_names().len() implies (#[trigger] float_names()[i]).spec_bytes() != "PRECISE".spec_bytes() by {
        if (float_names()[i]).spec_bytes() == "PRECISE".spec_bytes() {
            assert((float_names()[i]).spec_bytes()[0] == "PRECISE".spec_bytes()[0]);
            assert((float_names()[i]).spec_bytes()[1] == "PRECISE".spec_bytes()[1]);
        }
    }
    assert forall|i: int| 0 <= i < float_names().len() implies (#[trigger] float_names()[i]).spec_bytes() != "TIME-OFFSET".spec_bytes() by {
        if (float_names()[i]).spec_bytes() == "TIME-OFFSET".spec_bytes() {
            assert((float_names()[i]).spec_bytes()[0] == "TIME-OFFSET".spec_bytes()[0]);
            assert((float_names()[i]).spec_bytes()[1] == "TIME-OFFSET".spec_bytes()[1]);
        }
    }
    assert forall|i: int| 0 <= i < float_names().len() implies (#[trigger] float_names()[i]).spec_bytes() != "NAME".spec_bytes() by {
        if (float_names()[i]).spec_bytes() == "NAME".spec_bytes() {
            assert((float_names()[i]).spec_bytes()[0] == "NAME".spec_bytes()[0]);
            assert((float_names()[i]).spec_bytes()[1] == "NAME".spec_bytes()[1]);
        }
    }
    assert forall|i: int| 0 <= i < float_names().len() implies (#[trigger] float_names()[i]).spec_bytes() != "VALUE".spec_bytes() by {
        if (float_names()[i]).spec_bytes() == "VALUE".spec_bytes() {
            assert((float_names()[i]).spec_bytes()[0] == "VALUE".spec_bytes()[0]);
            assert((float_names()[i]).spec_bytes()[1] == "VALUE".spec_bytes()[1]);
        }
    }
    assert forall|i: int| 0 <= i < float_names().len() implies (#[trigger] float_names()[i]).spec_bytes() != "IMPORT".spec_bytes() by {
        if (float_names()[i]).spec_bytes() == "IMPORT".spec_bytes() {
            assert((float_names()[i]).spec_bytes()[0] == "IMPORT".spec_bytes()[0]);
            assert((float_names()[i]).spec_bytes()[1] == "IMPORT".spec_bytes()[1]);
        }
    }
}

proof fn lemma_define_start_names_signed_float()
    ensures
        !named("PRECISE".spec_bytes(), signed_float_names()),
        named("TIME-OFFSET".spec_bytes(), signed_float_names()),
        !named("NAME".spec_bytes(), signed_float_names()),
        !named("VALUE".spec_bytes(), signed_float_names()),
        !named("IMPORT".spec_bytes(), signed_float_names()),

{
    reveal_strlit("TIME-OFFSET");
    crate::text::lemma_ascii_str("TIME-OFFSET");
    reveal_strlit("PRECISE");
    crate::text::lemma_ascii_str("PRECISE");
    reveal_strlit("NAME");
    crate::text::lemma_ascii_str("NAME");
    reveal_strlit("VALUE");
    crate::text::lemma_ascii_str("VALUE");
    reveal_strlit("IMPORT");
    crate::text::lemma_ascii_str("IMPORT");
    assert forall|i: int| 0 <= i < signed_float_names().len() implies (#[trigger] signed_float_names()[i]).spec_bytes() != "PRECISE".spec_bytes() by {
        if (signed_float_names()[i]).spec_bytes() == "PRECISE".spec_bytes() {
            assert((signed_float_names()[i]).spec_bytes()[0] == "PRECISE".spec_bytes()[0]);
            assert((signed_float_names()[i]).spec_bytes()[1] == "PRECISE".spec_bytes()[1]);
        }
    }
    assert((signed_float_names()[0]).spec_bytes() == "TIME-OFFSET".spec_bytes());
    assert forall|i: int| 0 <= i < signed_float_names().len() implies (#[trigger] signed_float_names()[i]).spec_bytes() != "NAME".spec_bytes() by {
        if (signed_float_names()[i]).spec_bytes() == "NAME".spec_bytes() {
            assert((signed_float_names()[i]).spec_bytes()[0] == "NAME".spec_bytes()[0]);
            assert((signed_float_names()[i]).spec_bytes()[1] == "NAME".spec_bytes()[1]);
        }
    }
    assert forall|i: int| 0 <= i < signed_float_names().len() implies (#[trigger] signed_float_names()[i]).spec_bytes() != "VALUE".spec_bytes() by {
        if (signed_float_names()[i]).spec_bytes() == "VALUE".spec_bytes() {
            assert((signed_float_names()[i]).spec_bytes()[0] == "VALUE".spec_bytes()[0]);
            assert((signed_float_names()[i]).spec_bytes()[1] == "VALUE".spec_bytes()[1]);
        }
    }
    assert forall|i: int| 0 <= i < signed_float_names().len() implies (#[trigger] signed_float_names()[i]).spec_bytes() != "IMPORT".spec_bytes() by {
        if (signed_float_names()[i]).spec_bytes() == "IMPORT".spec_bytes() {
            assert((signed_float_names()[i]).spec_bytes()[0] == "IMPORT".spec_bytes()[0]);
            assert((signed_float_names()[i]).spec_bytes()[1] == "IMPORT".spec_bytes()[1]);
        }
    }
}

proof fn lemma_define_start_names_enumerated()
    ensures
        named("PRECISE".spec_bytes(), enumerated_names()),
        !named("TIME-OFFSET".spec_bytes(), enumerated_names()),
        !named("NAME".spec_bytes(), enumerated_names()),
        !named("VALUE".spec_bytes(), enumerated_names()),
        !named("IMPORT".spec_bytes(), enumerated_names()),

{
    reveal_strlit("PRECISE");
    crate::text::lemma_ascii_str("PRECISE");
    reveal_strlit("CAN-SKIP-DATERANGES");
    crate::text::lemma_ascii_str("CAN-SKIP-DATERANGES");
    reveal_strlit("CAN-BLOCK-RELOAD");
    crate::text::lemma_ascii_str("CAN-BLOCK-RELOAD");
    reveal_strlit("METHOD");
    crate::text::lemma_ascii_str("METHOD");
    reveal_strlit("INDEPENDENT");
    crate::text::lemma_ascii_str("INDEPENDENT");
    reveal_strlit("GAP");
    crate::text::lemma_ascii_str("GAP");
    reveal_strlit("END-ON-NEXT");
    crate::text::lemma_ascii_str("END-ON-NEXT");
    reveal_strlit("TYPE");
    crate::text::lemma_ascii_str("TYPE");
    reveal_strlit("DEFAULT");
    crate::text::lemma_ascii_str("DEFAULT");
    reveal_strlit("AUTOSELECT");
    crate::text::lemma_ascii_str("AUTOSELECT");
    reveal_strlit("FORCED");
    crate::text::lemma_ascii_str("FORCED");
    reveal_strlit("HDCP-LEVEL");
    crate::text::lemma_ascii_str("HDCP-LEVEL");
    reveal_strlit("VIDEO-RANGE");
    crate::text::lemma_ascii_str("VIDEO-RANGE");
    reveal_strlit("FORMAT");
    crate::text::lemma_ascii_str("FORMAT");
    reveal_strlit("TIME-OFFSET");
    crate::text::lemma_ascii_str("TIME-OFFSET");
    reveal_strlit("NAME");
    crate::text::lemma_ascii_str("NAME");
    reveal_strlit("VALUE");
    crate::text::lemma_ascii_str("VALUE");
    reveal_strlit("IMPORT");
    crate::text::lemma_ascii_str("IMPORT");
    assert((enumerated_names()[0]).spec_bytes() == "PRECISE".spec_bytes());
    assert forall|i: int| 0 <= i < enumerated_names().len() implies (#[trigger] enumerated_names()[i]).spec_bytes() != "TIME-OFFSET".spec_bytes() by {
        if (enumerated_names()[i]).spec_bytes() == "TIME-OFFSET".spec_bytes() {
            assert((enumerated_names()[i]).spec_bytes()[0] == "TIME-OFFSET".spec_bytes()[0]);
            assert((enumerated_names()[i]).spec_bytes()[1] == "TIME-OFFSET".spec_bytes()[1]);
        }
    }
    assert forall|i: int| 0 <= i < enumerated_names().len() implies (#[trigger] enumerated_names()[i]).spec_bytes() != "NAME".spec_bytes() by {
        if (enumerated_names()[i]).spec_bytes() == "NAME".spec_bytes() {
            assert((enumerated_names()[i]).spec_bytes()[0] == "NAME".spec_bytes()[0]);
            assert((enumerated_names()[i]).spec_bytes()[1] == "NAME".spec_bytes()[1]);
        }
    }
    assert forall|i: int| 0 <= i < enumerated_names().len() implies (#[trigger] enumerated_names()[i]).spec_bytes() != "VALUE".spec_bytes() by {
        if (enumerated_names()[i]).spec_bytes() == "VALUE".spec_bytes() {
            assert((enumerated_names()[i]).spec_bytes()[0] == "VALUE".spec_bytes()[0]);
            assert((enumerated_names()[i]).spec_bytes()[1] == "VALUE".spec_bytes()[1]);
        }
    }
    assert forall|i: int| 0 <= i < enumerated_names().len() implies (#[trigger] enumerated_names()[i]).spec_bytes() != "IMPORT".spec_bytes() by {
        if (enumerated_names()[i]).spec_bytes() == "IMPORT".spec_bytes() {
            assert((enumerated_names()[i]).spec_bytes()[0] == "IMPORT".spec_bytes()[0]);
            assert((enumerated_names()[i]).spec_bytes()[1] == "IMPORT".spec_bytes()[1]);
        }
    }
}

proof fn lemma_define_start_names_quoted()
    ensures
        !named("PRECISE".spec_bytes(), quoted_names()),
        !named("TIME-OFFSET".spec_bytes(), quoted_names()),
        !named("NAME".spec_bytes(), quoted_names()),
        named("VALUE".spec_bytes(), quoted_names()),
        !named("IMPORT".spec_bytes(), quoted_names()),

{
    reveal_strlit("CODECS");
    crate::text::lemma_ascii_str("CODECS");
    reveal_strlit("VALUE");
    crate::text::lemma_ascii_str("VALUE");
    reveal_strlit("URI");
    crate::text::lemma_ascii_str("URI");
    reveal_strlit("KEYFORMAT");
    crate::text::lemma_ascii_str("KEYFORMAT");
    reveal_strlit("KEYFORMATVERSIONS");
    crate::text::lemma_ascii_str("KEYFORMATVERSIONS");
    reveal_strlit("BYTERANGE");
    crate::text::lemma_ascii_str("BYTERANGE");
    reveal_strlit("ID");
    crate::text::lemma_ascii_str("ID");
    reveal_strlit("CLASS");
    crate::text::lemma_ascii_str("CLASS");
    reveal_strlit("START-DATE");
    crate::text::lemma_ascii_str("START-DATE");
    reveal_strlit("END-DATE");
    crate::text::lemma_ascii_str("END-DATE");
    reveal_strlit("RECENTLY-REMOVED-DATERANGES");
    crate::text::lemma_ascii_str("RECENTLY-REMOVED-DATERANGES");
    reveal_strlit("GROUP-ID");
    crate::text::lemma_ascii_str("GROUP-ID");
    reveal_strlit("LANGUAGE");
    crate::text::lemma_ascii_str("LANGUAGE");
    reveal_strlit("ASSOC-LANGUAGE");
    crate::text::lemma_ascii_str("ASSOC-LANGUAGE");
    reveal_strlit("INSTREAM-ID");
    crate::text::lemma_ascii_str("INSTREAM-ID");
    reveal_strlit("CHARACTERISTICS");
    crate::text::lemma_ascii_str("CHARACTERISTICS");
    reveal_strlit("CHANNELS");
    crate::text::lemma_ascii_str("CHANNELS");
    reveal_strlit("SUPPLEMENTAL-CODECS");
    crate::text::lemma_ascii_str("SUPPLEMENTAL-CODECS");
    reveal_strlit("REQ-VIDEO-LAYOUT");
    crate::text::lemma_ascii_str("REQ-VIDEO-LAYOUT");
    reveal_strlit("AUDIO");
    crate::text::lemma_ascii_str("AUDIO");
    reveal_strlit("VIDEO");
    crate::text::lemma_ascii_str("VIDEO");
    reveal_strlit("SUBTITLES");
    crate::text::lemma_ascii_str("SUBTITLES");
    reveal_strlit("PATHWAY-ID");
    crate::text::lemma_ascii_str("PATHWAY-ID");
    reveal_strlit("DATA-ID");
    crate::text::lemma_ascii_str("DATA-ID");
    reveal_strlit("SERVER-URI");
    crate::text::lemma_ascii_str("SERVER-URI");
    reveal_strlit("PRECISE");
    crate::text::lemma_ascii_str("PRECISE");
    reveal_strlit("TIME-OFFSET");
    crate::text::lemma_ascii_str("TIME-OFFSET");
    reveal_strlit("NAME");
    crate::text::lemma_ascii_str("NAME");
    reveal_strlit("IMPORT");
    crate::text::lemma_ascii_str("IMPORT");
    assert forall|i: int| 0 <= i < quoted_names().len() implies (#[trigger] quoted_names()[i]).spec_bytes() != "PRECISE".spec_bytes() by {
        if (quoted_names()[i]).spec_bytes() == "PRECISE".spec_bytes() {
            assert((quoted_names()[i]).spec_bytes()[0] == "PRECISE".spec_bytes()[0]);
            assert((quoted_names()[i]).spec_bytes()[1] == "PRECISE".spec_bytes()[1]);
        }
    }
    assert forall|i: int| 0 <= i < quoted_names().len() implies (#[trigger] quoted_names()[i]).spec_bytes() != "TIME-OFFSET".spec_bytes() by {
        if (quoted_names()[i]).spec_bytes() == "TIME-OFFSET".spec_bytes() {
            assert((quoted_names()[i]).spec_bytes()[0] == "TIME-OFFSET".spec_bytes()[0]);
            assert((quoted_names()[i]).spec_bytes()[1] == "TIME-OFFSET".spec_bytes()[1]);
        }
    }
    assert forall|i: int| 0 <= i < quoted_names().len() implies (#[trigger] quoted_names()[i]).spec_bytes() != "NAME".spec_bytes() by {
        if (quoted_names()[i]).spec_bytes() == "NAME".spec_bytes() {
            assert((quoted_names()[i]).spec_bytes()[0] == "NAME".spec_bytes()[0]);
            assert((quoted_names()[i]).spec_bytes()[1] == "NAME".spec_bytes()[1]);
        }
    }
    assert((quoted_names()[1]).spec_bytes() == "VALUE".spec_bytes());
    assert forall|i: int| 0 <= i < quoted_names().len() implies (#[trigger] quoted_names()[i]).spec_bytes() != "IMPORT".spec_bytes() by {
        if (quoted_names()[i]).spec_bytes() == "IMPORT".spec_bytes() {
            assert((quoted_names()[i]).spec_bytes()[0] == "IMPORT".spec_bytes()[0]);
            assert((quoted_names()[i]).spec_bytes()[1] == "IMPORT".spec_bytes()[1]);
        }
    }
}

proof fn lemma_define_start_names_hex()
    ensures
        !named("PRECISE".spec_bytes(), hex_names()),
        !named("TIME-OFFSET".spec_bytes(), hex_names()),
        !named("NAME".spec_bytes(), hex_names()),
        !named("VALUE".spec_bytes(), hex_names()),
        !named("IMPORT".spec_bytes(), hex_names()),

{
    reveal_strlit("IV");
    crate::text::lemma_ascii_str("IV");
    reveal_strlit("SCTE35-CMD");
    crate::text::lemma_ascii_str("SCTE35-CMD");
    reveal_strlit("SCTE35-OUT");
    crate::text::lemma_ascii_str("SCTE35-OUT");
    reveal_strlit("SCTE35-IN");
    crate::text::lemma_ascii_str("SCTE35-IN");
    reveal_strlit("PRECISE");
    crate::text::lemma_ascii_str("PRECISE");
    reveal_strlit("TIME-OFFSET");
    crate::text::lemma_ascii_str("TIME-OFFSET");
    reveal_strlit("NAME");
    crate::text::lemma_ascii_str("NAME");
    reveal_strlit("VALUE");
    crate::text::lemma_ascii_str("VALUE");
    reveal_strlit("IMPORT");
    crate::text::lemma_ascii_str("IMPORT");
    assert forall|i: int| 0 <= i < hex_names().len() implies (#[trigger] hex_names()[i]).spec_bytes() != "PRECISE".spec_bytes() by {
        if (hex_names()[i]).spec_bytes() == "PRECISE".spec_bytes() {
            assert((hex_names()[i]).spec_bytes()[0] == "PRECISE".spec_bytes()[0]);
            assert((hex_names()[i]).spec_bytes()[1] == "PRECISE".spec_bytes()[1]);
        }
    }
    assert forall|i: int| 0 <= i < hex_names().len() implies (#[trigger] hex_names()[i]).spec_bytes() != "TIME-OFFSET".spec_bytes() by {
        if (hex_names()[i]).spec_bytes() == "TIME-OFFSET".spec_bytes() {
            assert((hex_names()[i]).spec_bytes()[0] == "TIME-OFFSET".spec_bytes()[0]);
            assert((hex_names()[i]).spec_bytes()[1] == "TIME-OFFSET".spec_bytes()[1]);
        }
    }
    assert forall|i: int| 0 <= i < hex_names().len() implies (#[trigger] hex_names()[i]).spec_bytes() != "NAME".spec_bytes() by {
        if (hex_names()[i]).spec_bytes() == "NAME".spec_bytes() {
            assert((hex_names()[i]).spec_bytes()[0] == "NAME".spec_bytes()[0]);
            assert((hex_names()[i]).spec_bytes()[1] == "NAME".spec_bytes()[1]);
        }
    }
    assert forall|i: int| 0 <= i < hex_names().len() implies (#[trigger] hex_names()[i]).spec_bytes() != "VALUE".spec_bytes() by {
        if (hex_names()[i]).spec_bytes() == "VALUE".spec_bytes() {
            assert((hex_names()[i]).spec_bytes()[0] == "VALUE".spec_bytes()[0]);
            assert((hex_names()[i]).spec_bytes()[1] == "VALUE".spec_bytes()[1]);
        }
    }
    assert forall|i: int| 0 <= i < hex_names().len() implies (#[trigger] hex_names()[i]).spec_bytes() != "IMPORT".spec_bytes() by {
        if (hex_names()[i]).spec_bytes() == "IMPORT".spec_bytes() {
            assert((hex_names()[i]).spec_bytes()[0] == "IMPORT".spec_bytes()[0]);
            assert((hex_names()[i]).spec_bytes()[1] == "IMPORT".spec_bytes()[1]);
        }
    }
}


/* Reading back attribute lists as they are written */

/// Scanning over bytes that are no `"`, and outside quotes no `,`, starts no new part.
pub proof fn lemma_split_top_run(s: Seq<u8>, start: int, i: int, j: int, q: bool)
    requires
        0 <= i <= j <= s.len(),
        forall|k: int| i <= k < j ==> #[trigger] s[k] != 0x22 && (q || s[k] != 0x2c),
    ensures
        split_top(s, start, i, q) == split_top(s, start, j, q),
    decreases j - i,
{
    if i < j {
        lemma_split_top_run(s, start, i + 1, j, q);
    }
}

/// A quoted string, from its opening to its closing `"`, starts no new part, whatever commas
/// it holds.
pub proof fn lemma_split_top_quoted(s: Seq<u8>, start: int, i: int, j: int)
    requires
        0 <= i < j < s.len(),
        s[i] == 0x22,
        s[j] == 0x22,
        forall|k: int| i < k < j ==> #[trigger] s[k] != 0x22,
    ensures
        split_top(s, start, i, false) == split_top(s, start, j + 1, false),
{
    lemma_split_top_run(s, start, i + 1, j, true);
}

/// A part that starts and ends with printable ASCII is its own trimmed form.
pub proof fn lemma_trim_plain(s: Seq<u8>)
    requires
        s.len() > 0,
        0x21 <= s[0] <= 0x7e,
        0x21 <= s[s.len() - 1] <= 0x7e,
    ensures
        trim_spec(s) == s,
{
    assert(crate::text::ws_len_at(s, 0) == 0);
    assert(crate::text::skip_ws(s, 0) == 0);
    assert(crate::text::ws_len_before(s, s.len() as int) == 0);
    assert(crate::text::back_ws(s, 0, s.len() as int) == s.len());
    assert(s.subrange(0, s.len() as int) =~= s);
}

/// A part `name=value`, with a name of printable ASCII without `=` and a value that starts and
/// ends with printable ASCII, is read as the value of that name.
pub proof fn lemma_entry_of_part(name: Seq<u8>, v: Seq<u8>)
    requires
        name.len() > 0,
        forall|k: int| 0 <= k < name.len() ==> 0x21 <= #[trigger] name[k] <= 0x7e && name[k] != 0x3d,
        v.len() > 0,
        0x21 <= v[0] <= 0x7e,
        0x21 <= v[v.len() - 1] <= 0x7e,
    ensures
        entry_of_part(name + seq![0x3du8] + v) == match attr_value_spec(name, v) {
            Err(e) => Err(e),
            Ok(x) => Ok::<(Seq<u8>, AttrV), PErr>((name, x)),
        },
{
    let p = name + seq![0x3du8] + v;
    assert(p[name.len() as int] == 0x3d);
    assert(crate::text::first_at(p, 0x3d, name.len() as int)) by {
        assert forall|k: int| 0 <= k < name.len() implies p[k] != 0x3d by {
            assert(p[k] == name[k]);
        }
    }
    let i = choose|i: int| crate::text::first_at(p, 0x3d, i);
    assert(i == name.len()) by {
        if i < name.len() {
            assert(p[i] == name[i]);
        } else if i > name.len() {
            assert(p[name.len() as int] == 0x3d);
        }
    }
    assert(p.subrange(0, i) =~= name);
    assert(p.subrange(i + 1, p.len() as int) =~= v);
    lemma_trim_plain(name);
    lemma_trim_plain(v);
    reveal(entry_of_part);
}

/// `PRECISE` is read as an enumerated string.
pub proof fn lemma_precise_kind()
    ensures
        attr_kind_spec("PRECISE".spec_bytes()) == AttrKind::Enumerated,
{
    lemma_define_start_names_integer();
    lemma_define_start_names_float();
    lemma_define_start_names_signed_float();
    lemma_define_start_names_enumerated();
}

/// `TIME-OFFSET` is read as a signed decimal.
pub proof fn lemma_time_offset_kind()
    ensures
        attr_kind_spec("TIME-OFFSET".spec_bytes()) == AttrKind::SignedFloat,
{
    lemma_define_start_names_integer();
    lemma_define_start_names_float();
    lemma_define_start_names_signed_float();
}

/// `VALUE` is read as a quoted string.
pub proof fn lemma_value_kind()
    ensures
        attr_kind_spec("VALUE".spec_bytes()) == AttrKind::Quoted,
{
    lemma_define_start_names_integer();
    lemma_define_start_names_float();
    lemma_define_start_names_signed_float();
    lemma_define_start_names_enumerated();
    lemma_define_start_names_quoted();
}

proof fn lemma_not_listed_names()
    ensures
        !named("NAME".spec_bytes(), integer_names()) && !named("IMPORT".spec_bytes(), integer_names()),
        !named("NAME".spec_bytes(), float_names()) && !named("IMPORT".spec_bytes(), float_names()),
        !named("NAME".spec_bytes(), signed_float_names()) && !named("IMPORT".spec_bytes(), signed_float_names()),
        !named("NAME".spec_bytes(), enumerated_names()) && !named("IMPORT".spec_bytes(), enumerated_names()),
        !named("NAME".spec_bytes(), quoted_names()) && !named("IMPORT".spec_bytes(), quoted_names()),
        !named("NAME".spec_bytes(), hex_names()) && !named("IMPORT".spec_bytes(), hex_names()),
{
    lemma_define_start_names_integer();
    lemma_define_start_names_float();
    lemma_define_start_names_signed_float();
    lemma_define_start_names_enumerated();
    lemma_define_start_names_quoted();
    lemma_define_start_names_hex();
}

/// `NAME` is read as a quoted variable name.
pub proof fn lemma_name_kind()
    ensures
        attr_kind_spec("NAME".spec_bytes()) == AttrKind::DefineName("NAME", "a valid NAME according to HLS spec"),
{
    lemma_not_listed_names();
}

/// `IMPORT` is read as a quoted variable name.
pub proof fn lemma_import_kind()
    ensures
        attr_kind_spec("IMPORT".spec_bytes()) == AttrKind::DefineName("IMPORT", "a valid IMPORT according to HLS spec"),
{
    lemma_not_listed_names();
    lemma_name_not_import();
}

proof fn lemma_name_not_import()
    ensures
        "IMPORT".spec_bytes() != "NAME".spec_bytes(),
{
    reveal_strlit("NAME");
    reveal_strlit("IMPORT");
    crate::text::lemma_ascii_str("NAME");
    crate::text::lemma_ascii_str("IMPORT");
}

/// Bytes that are no `"` and no `,`.
pub open spec fn unquoted_run(p: Seq<u8>) -> bool {
    forall|k: int| 0 <= k < p.len() ==> #[trigger] p[k] != 0x22 && p[k] != 0x2c
}

/// A part as it is written: not empty, starting and ending with printable ASCII, and either
/// without `"` and `,`, or a head without them followed by a quoted string without `"`.
pub open spec fn written_part(p: Seq<u8>) -> bool {
    &&& p.len() > 0
    &&& 0x21 <= p[0] <= 0x7e
    &&& 0x21 <= p[p.len() - 1] <= 0x7e
    &&& (unquoted_run(p) || exists|h: Seq<u8>, q: Seq<u8>|
        #![trigger h + seq![0x22u8] + q + seq![0x22u8]]
        p == h + seq![0x22u8] + q + seq![0x22u8] && unquoted_run(h) && !contains_byte(q, 0x22))
}

/// Scanning over a written part starts no new part.
pub proof fn lemma_scan_part(s: Seq<u8>, start: int, i: int, p: Seq<u8>)
    requires
        0 <= i,
        i + p.len() <= s.len(),
        s.subrange(i, i + p.len()) == p,
        written_part(p),
    ensures
        split_top(s, start, i, false) == split_top(s, start, i + p.len(), false),
{
    if unquoted_run(p) {
        assert forall|k: int| i <= k < i + p.len() implies #[trigger] s[k] != 0x22 && (false || s[k] != 0x2c) by {
            assert(s[k] == s.subrange(i, i + p.len())[k - i]);
        }
        lemma_split_top_run(s, start, i, i + p.len(), false);
    } else {
        let (h, q) = choose|h: Seq<u8>, q: Seq<u8>|
            #![trigger h + seq![0x22u8] + q + seq![0x22u8]]
            p == h + seq![0x22u8] + q + seq![0x22u8] && unquoted_run(h) && !contains_byte(q, 0x22);
        let o = i + h.len();
        let c = o + 1 + q.len();
        assert forall|k: int| 0 <= k < p.len() implies #[trigger] s[i + k] == p[k] by {
            assert(s.subrange(i, i + p.len())[k] == s[i + k]);
        }
        assert forall|k: int| i <= k < o implies #[trigger] s[k] != 0x22 && (false || s[k] != 0x2c) by {
            assert(s[i + (k - i)] == p[k - i]);
            assert(p[k - i] == h[k - i]);
        }
        lemma_split_top_run(s, start, i, o, false);
        assert(s[i + h.len()] == p[h.len() as int]);
        assert(s[i + (c - i)] == p[c - i]);
        assert forall|k: int| o < k < c implies #[trigger] s[k] != 0x22 by {
            assert(s[i + (k - i)] == p[k - i]);
            assert(p[k - i] == q[k - o - 1]);
        }
        lemma_split_top_quoted(s, start, o, c);
    }
}

/// A list written as one part is that part.
pub proof fn lemma_split_one(p: Seq<u8>)
    requires
        written_part(p),
    ensures
        split_attributes_spec(p) == seq![p],
{
    assert(p.subrange(0, p.len() as int) =~= p);
    lemma_scan_part(p, 0, 0, p);
    lemma_trim_plain(p);
    assert(split_top(p, 0, 0, false) =~= seq![p]);
}

/// A list written as two parts joined by a comma is those parts.
pub proof fn lemma_split_two(p1: Seq<u8>, p2: Seq<u8>)
    requires
        written_part(p1),
        written_part(p2),
    ensures
        split_attributes_spec(p1 + seq![0x2cu8] + p2) == seq![p1, p2],
{
    let a = p1 + seq![0x2cu8] + p2;
    assert(a.subrange(0, p1.len() as int) =~= p1);
    lemma_scan_part(a, 0, 0, p1);
    assert(a[p1.len() as int] == 0x2c);
    let j: int = (p1.len() + 1) as int;
    assert(a.subrange(j, j + p2.len()) =~= p2);
    lemma_scan_part(a, j, j, p2);
    assert(split_top(a, 0, 0, false) =~= seq![a.subrange(0, p1.len() as int), a.subrange(j, a.len() as int)]);
    assert(a.subrange(j, a.len() as int) =~= p2);
    lemma_trim_plain(p1);
    lemma_trim_plain(p2);
    assert(split_attributes_spec(a) =~= seq![p1, p2]);
}

/// A list of two parts with different names is those two entries, in order.
#[verifier::spinoff_prover]
pub proof fn lemma_build_two(p1: Seq<u8>, p2: Seq<u8>, e1: (Seq<u8>, AttrV), e2: (Seq<u8>, AttrV))
    requires
        entry_of_part(p1) == Ok::<(Seq<u8>, AttrV), PErr>(e1),
        entry_of_part(p2) == Ok::<(Seq<u8>, AttrV), PErr>(e2),
        e1.0 != e2.0,
    ensures
        build_list(seq![p1, p2], 0, Seq::empty()) == Ok::<Seq<(Seq<u8>, AttrV)>, PErr>(seq![e1, e2]),
{
    let parts = seq![p1, p2];
    let l1 = seq![e1];
    let l2 = seq![e1, e2];
    assert(with_entry(Seq::empty(), e1.0, e1.1) == l1) by {
        assert(with_entry(Seq::empty(), e1.0, e1.1) =~= l1);
    }
    assert(with_entry(l1, e2.0, e2.1) == l2) by {
        assert(l1.drop_first() =~= Seq::<(Seq<u8>, AttrV)>::empty());
        assert(with_entry(l1.drop_first(), e2.0, e2.1) =~= seq![(e2.0, e2.1)]);
        assert(l1[0].0 != e2.0);
        assert(with_entry(l1, e2.0, e2.1) == seq![l1[0]] + with_entry(l1.drop_first(), e2.0, e2.1));
        assert(with_entry(l1, e2.0, e2.1) =~= l2);
    }
    assert(build_list(parts, 2, l2) == Ok::<Seq<(Seq<u8>, AttrV)>, PErr>(l2));
    assert(parts[1] == p2);
    assert(build_list(parts, 1, l1) == Ok::<Seq<(Seq<u8>, AttrV)>, PErr>(l2));
    assert(parts[0] == p1);
}

/// A list of one part is that entry.
pub proof fn lemma_build_one(p: Seq<u8>, e: (Seq<u8>, AttrV))
    requires
        entry_of_part(p) == Ok::<(Seq<u8>, AttrV), PErr>(e),
    ensures
        build_list(seq![p], 0, Seq::empty()) == Ok::<Seq<(Seq<u8>, AttrV)>, PErr>(seq![e]),
{
    assert(seq![p][0] == p);
    assert(with_entry(Seq::empty(), e.0, e.1) =~= seq![e]);
    assert(build_list(seq![p], 1, seq![e]) == Ok::<Seq<(Seq<u8>, AttrV)>, PErr>(seq![e]));
}

/// `PART-TARGET` is read as a decimal.
pub proof fn lemma_part_target_kind()
    ensures
        attr_kind_spec("PART-TARGET".spec_bytes()) == AttrKind::Float,
{
    reveal_strlit("PART-TARGET");
    crate::text::lemma_ascii_str("PART-TARGET");
    reveal_strlit("BANDWIDTH");
    crate::text::lemma_ascii_str("BANDWIDTH");
    reveal_strlit("SKIPPED-SEGMENTS");
    crate::text::lemma_ascii_str("SKIPPED-SEGMENTS");
    reveal_strlit("BYTERANGE-START");
    crate::text::lemma_ascii_str("BYTERANGE-START");
    reveal_strlit("BYTERANGE-LENGTH");
    crate::text::lemma_ascii_str("BYTERANGE-LENGTH");
    reveal_strlit("LAST-MSN");
    crate::text::lemma_ascii_str("LAST-MSN");
    reveal_strlit("LAST-PART");
    crate::text::lemma_ascii_str("LAST-PART");
    reveal_strlit("BIT-DEPTH");
    crate::text::lemma_ascii_str("BIT-DEPTH");
    reveal_strlit("SAMPLE-RATE");
    crate::text::lemma_ascii_str("SAMPLE-RATE");
    reveal_strlit("AVERAGE-BANDWIDTH");
    crate::text::lemma_ascii_str("AVERAGE-BANDWIDTH");
    assert forall|i: int| 0 <= i < integer_names().len() implies (#[trigger] integer_names()[i]).spec_bytes() != "PART-TARGET".spec_bytes() by {
        if (integer_names()[i]).spec_bytes() == "PART-TARGET".spec_bytes() {
            assert((integer_names()[i]).spec_bytes()[0] == "PART-TARGET".spec_bytes()[0]);
            assert((integer_names()[i]).spec_bytes()[1] == "PART-TARGET".spec_bytes()[1]);
            assert((integer_names()[i]).spec_bytes()[5] == "PART-TARGET".spec_bytes()[5]);
        }
    }
    assert((float_names()[0]).spec_bytes() == "PART-TARGET".spec_bytes());
}

/// A list written as three parts joined by commas is those parts.
pub proof fn lemma_split_three(p1: Seq<u8>, p2: Seq<u8>, p3: Seq<u8>)
    requires
        written_part(p1),
        written_part(p2),
        written_part(p3),
    ensures
        split_attributes_spec(p1 + seq![0x2cu8] + p2 + seq![0x2cu8] + p3) == seq![p1, p2, p3],
{
    let a = p1 + seq![0x2cu8] + p2 + seq![0x2cu8] + p3;
    let i1: int = p1.len() as int;
    let j: int = i1 + 1;
    let i2: int = j + p2.len();
    let k: int = i2 + 1;
    assert(a.subrange(0, i1) =~= p1);
    lemma_scan_part(a, 0, 0, p1);
    assert(a[i1] == 0x2c);
    assert(split_top(a, 0, i1, false) == seq![p1] + split_top(a, j, j, false));
    assert(a.subrange(j, i2) =~= p2);
    lemma_scan_part(a, j, j, p2);
    assert(a[i2] == 0x2c);
    assert(split_top(a, j, i2, false) == seq![p2] + split_top(a, k, k, false));
    assert(a.subrange(k, k + p3.len()) =~= p3);
    lemma_scan_part(a, k, k, p3);
    assert(k + p3.len() == a.len());
    assert(split_top(a, k, a.len() as int, false) == seq![a.subrange(k, a.len() as int)]);
    assert(a.subrange(k, a.len() as int) =~= p3);
    assert(split_top(a, 0, 0, false) =~= seq![p1, p2, p3]);
    lemma_trim_plain(p1);
    lemma_trim_plain(p2);
    lemma_trim_plain(p3);
    assert(split_attributes_spec(a) =~= seq![p1, p2, p3]);
}

/// A list of three parts with different names is those three entries, in order.
#[verifier::spinoff_prover]
pub proof fn lemma_build_three(
    p1: Seq<u8>,
    p2: Seq<u8>,
    p3: Seq<u8>,
    e1: (Seq<u8>, AttrV),
    e2: (Seq<u8>, AttrV),
    e3: (Seq<u8>, AttrV),
)
    requires
        entry_of_part(p1) == Ok::<(Seq<u8>, AttrV), PErr>(e1),
        entry_of_part(p2) == Ok::<(Seq<u8>, AttrV), PErr>(e2),
        entry_of_part(p3) == Ok::<(Seq<u8>, AttrV), PErr>(e3),
        e1.0 != e2.0,
        e1.0 != e3.0,
        e2.0 != e3.0,
    ensures
        build_list(seq![p1, p2, p3], 0, Seq::empty()) == Ok::<Seq<(Seq<u8>, AttrV)>, PErr>(
            seq![e1, e2, e3],
        ),
{
    let parts = seq![p1, p2, p3];
    let l1 = seq![e1];
    let l2 = seq![e1, e2];
    let l3 = seq![e1, e2, e3];
    assert(with_entry(Seq::empty(), e1.0, e1.1) == l1) by {
        assert(with_entry(Seq::empty(), e1.0, e1.1) =~= l1);
    }
    assert(with_entry(l1, e2.0, e2.1) == l2) by {
        assert(l1.drop_first() =~= Seq::<(Seq<u8>, AttrV)>::empty());
        assert(with_entry(l1.drop_first(), e2.0, e2.1) =~= seq![(e2.0, e2.1)]);
        assert(with_entry(l1, e2.0, e2.1) == seq![l1[0]] + with_entry(l1.drop_first(), e2.0, e2.1));
        assert(with_entry(l1, e2.0, e2.1) =~= l2);
    }
    assert(with_entry(l2, e3.0, e3.1) == l3) by {
        let t = l2.drop_first();
        assert(t =~= seq![e2]);
        assert(t.drop_first() =~= Seq::<(Seq<u8>, AttrV)>::empty());
        assert(with_entry(t.drop_first(), e3.0, e3.1) =~= seq![(e3.0, e3.1)]);
        assert(with_entry(t, e3.0, e3.1) == seq![t[0]] + with_entry(t.drop_first(), e3.0, e3.1));
        assert(with_entry(t, e3.0, e3.1) =~= seq![e2, e3]);
        assert(with_entry(l2, e3.0, e3.1) == seq![l2[0]] + with_entry(t, e3.0, e3.1));
        assert(with_entry(l2, e3.0, e3.1) =~= l3);
    }
    assert(build_list(parts, 3, l3) == Ok::<Seq<(Seq<u8>, AttrV)>, PErr>(l3));
    assert(parts[2] == p3);
    assert(build_list(parts, 2, l2) == Ok::<Seq<(Seq<u8>, AttrV)>, PErr>(l3));
    assert(parts[1] == p2);
    assert(build_list(parts, 1, l1) == Ok::<Seq<(Seq<u8>, AttrV)>, PErr>(l3));
    assert(parts[0] == p1);
}

/// The first letters of the integer-valued names.
proof fn lemma_integer_names_first()
    ensures
        forall|i: int| 0 <= i < integer_names().len() ==> (#[trigger] integer_names()[i]).spec_bytes().len() > 0 && {
            let c = integer_names()[i].spec_bytes()[0];
            c == 0x41 || c == 0x42 || c == 0x4c || c == 0x53
        },
{
    reveal_strlit("BANDWIDTH");
    crate::text::lemma_ascii_str("BANDWIDTH");
    reveal_strlit("SKIPPED-SEGMENTS");
    crate::text::lemma_ascii_str("SKIPPED-SEGMENTS");
    reveal_strlit("BYTERANGE-START");
    crate::text::lemma_ascii_str("BYTERANGE-START");
    reveal_strlit("BYTERANGE-LENGTH");
    crate::text::lemma_ascii_str("BYTERANGE-LENGTH");
    reveal_strlit("LAST-MSN");
    crate::text::lemma_ascii_str("LAST-MSN");
    reveal_strlit("LAST-PART");
    crate::text::lemma_ascii_str("LAST-PART");
    reveal_strlit("BIT-DEPTH");
    crate::text::lemma_ascii_str("BIT-DEPTH");
    reveal_strlit("SAMPLE-RATE");
    crate::text::lemma_ascii_str("SAMPLE-RATE");
    reveal_strlit("AVERAGE-BANDWIDTH");
    crate::text::lemma_ascii_str("AVERAGE-BANDWIDTH");
}

/// A decimal-valued name whose first letter starts no integer-valued name is read as a decimal.
proof fn lemma_float_kind(n: Seq<u8>, i: int)
    requires
        0 <= i < float_names().len(),
        float_names()[i].spec_bytes() == n,
        n.len() > 0,
        n[0] != 0x41 && n[0] != 0x42 && n[0] != 0x4c && n[0] != 0x53,
    ensures
        attr_kind_spec(n) == AttrKind::Float,
{
    lemma_integer_names_first();
    assert forall|j: int| 0 <= j < integer_names().len() implies (#[trigger] integer_names()[j]).spec_bytes() != n by {
        if integer_names()[j].spec_bytes() == n {
            assert(integer_names()[j].spec_bytes()[0] == n[0]);
        }
    }
    assert(named(n, float_names()));
}

/// The numbers of server control are read as decimals.
pub proof fn lemma_server_control_kinds()
    ensures
        attr_kind_spec("CAN-SKIP-UNTIL".spec_bytes()) == AttrKind::Float,
        attr_kind_spec("HOLD-BACK".spec_bytes()) == AttrKind::Float,
        attr_kind_spec("PART-HOLD-BACK".spec_bytes()) == AttrKind::Float,
{
    reveal_strlit("CAN-SKIP-UNTIL");
    crate::text::lemma_ascii_str("CAN-SKIP-UNTIL");
    reveal_strlit("HOLD-BACK");
    crate::text::lemma_ascii_str("HOLD-BACK");
    reveal_strlit("PART-HOLD-BACK");
    crate::text::lemma_ascii_str("PART-HOLD-BACK");
    lemma_float_kind("CAN-SKIP-UNTIL".spec_bytes(), 1);
    lemma_float_kind("HOLD-BACK".spec_bytes(), 2);
    lemma_float_kind("PART-HOLD-BACK".spec_bytes(), 3);
}

/// Ten to the power `k`.
pub open spec fn ten_to(k: nat) -> nat
    decreases k,
{
    if k == 0 {
        1
    } else {
        10 * ten_to((k - 1) as nat)
    }
}

/// A number below ten to the `k` has at most `k` decimal digits.
proof fn lemma_dec_digits_len(n: nat, k: nat)
    requires
        k >= 1,
        n < ten_to(k),
    ensures
        dec_digits(n).len() <= k,
    decreases k,
{
    if n >= 10 {
        if k == 1 {
            assert(ten_to(1) == 10 * ten_to(0));
        } else {
            let p = ten_to((k - 1) as nat);
            assert(n / 10 < p) by (nonlinear_arith)
                requires
                    n < 10 * p,
            ;
            lemma_dec_digits_len(n / 10, (k - 1) as nat);
        }
    }
}

/// The decimal digits of a 64-bit number read back as that number.
proof fn lemma_int_text(n: u64)
    ensures
        int_spec(dec_digits(n as nat)) == Ok::<u64, PErr>(n),
        !crate::text::contains_byte(dec_digits(n as nat), 0x78),
{
    let d = dec_digits(n as nat);
    lemma_dec_digits(n as nat);
    reveal_with_fuel(ten_to, 21);
    assert(ten_to(20) == 100000000000000000000nat);
    lemma_dec_digits_len(n as nat, 20);
    crate::num::lemma_fold_digits_value(d, false, u64::MAX as nat);
    assert(digit_value(d[0], false) is Some);
    assert forall|i: int| 0 <= i < d.len() implies d[i] != 0x78 by {
        assert(digit_value(d[i], false) is Some);
    }
}

/// A resolution written `WxH` reads as the width `W`, the number before the `x`, then the
/// height `H`.
pub proof fn law_resolution_text(w: u64, h: u64)
    ensures
        resolution_spec(dec_digits(w as nat) + seq![0x78u8] + dec_digits(h as nat)) == Ok::<(u64, u64), PErr>(
            (w, h),
        ),
{
    lemma_int_text(w);
    lemma_int_text(h);
    crate::codecs::round_trip::lemma_split_at(dec_digits(w as nat), dec_digits(h as nat), 0x78);
    crate::codecs::round_trip::lemma_split_whole(dec_digits(h as nat), 0x78);
    let v = dec_digits(w as nat) + seq![0x78u8] + dec_digits(h as nat);
    assert(crate::text::split(v, 0x78) =~= seq![dec_digits(w as nat), dec_digits(h as nat)]);
}
} // verus!
