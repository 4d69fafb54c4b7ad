//! Media segments and the tags that describe them: `EXTINF`, `EXT-X-BYTERANGE`,
//! `EXT-X-DISCONTINUITY`, `EXT-X-KEY`, `EXT-X-MAP`, `EXT-X-PROGRAM-DATE-TIME`, `EXT-X-GAP`,
//! `EXT-X-BITRATE` and `EXT-X-PART`.
use vstd::prelude::*;
use vstd::string::*;
use crate::attribute_list::{
    AttrV, AttributeList, AttributeValue, attribute_list_spec, lookup, parse_attribute_list,
};
use crate::datetime::{DateTimeValue, datetime_spec, parse_datetime};
use crate::decimal::{DecimalFloat, is_decimal};
use crate::error::{PErr, ParseError};
use crate::num::{parse_uint, parse_uint_spec};
use crate::playlist::{after, enumerated_of, integer_of, opt_view, quoted_of};
use crate::text::{
    split_once, split_once_str, bytes, contains_byte, has_byte, has_prefix, owned, split, split_str, splitn, starts_with,
    str_eq, strip_prefix, utf8,
};
use crate::uri::{Uri, UriView, parse_spec};

verus! {

/// A byte range: a length and an optional start offset.
#[derive(Debug, Clone, Copy, PartialEq, Eq, Structural)]
pub struct ByteRange {
    pub len: u64,
    pub offset: Option<u64>,
}

/// The duration of a segment: a whole number of seconds, or a decimal number as written.
#[derive(Debug, Clone, PartialEq)]
pub enum DurationValue {
    Int(u32),
    Float(DecimalFloat),
}

/// A duration with its text as bytes.
pub enum DurationV {
    Int(u32),
    Float(Seq<u8>),
}

impl View for DurationValue {
    type V = DurationV;

    open spec fn view(&self) -> DurationV {
        match self {
            DurationValue::Int(n) => DurationV::Int(*n),
            DurationValue::Float(d) => DurationV::Float(d@),
        }
    }
}

/// The error `str::parse` reports for a float, by whether the text was empty.
pub open spec fn duration_spec(s: Seq<u8>) -> Result<DurationV, PErr> {
    if contains_byte(s, 0x2e) || contains_byte(s, 0x65) || contains_byte(s, 0x45) {
        match crate::attribute_list::float_spec(s, true) {
            Ok(t) => Ok(DurationV::Float(t)),
            Err(e) => Err(e),
        }
    } else {
        match parse_uint_spec(s, false, u32::MAX as nat) {
            Ok(n) => Ok(DurationV::Int(n as u32)),
            Err(_) => match crate::attribute_list::float_spec(s, true) {
                Ok(t) => Ok(DurationV::Float(t)),
                Err(e) => Err(e),
            },
        }
    }
}

impl DurationValue {
    /// Reads an `EXTINF` duration: a whole number that fits in 32 bits, else a decimal number.
    pub fn parse(s: &str) -> (r: Result<DurationValue, ParseError>)
        ensures
            match duration_spec(s.spec_bytes()) {
                Ok(d) => r matches Ok(x) && x@ == d,
                Err(e) => r matches Err(x) && x@ == e,
            },
    {
        if has_byte(s, 0x2e) || has_byte(s, 0x65) || has_byte(s, 0x45) {
            return match crate::attribute_list::parse_decimal_float(s, true) {
                Ok(d) => Ok(DurationValue::Float(d)),
                Err(e) => Err(e),
            };
        }
        match parse_uint(bytes(s), false, u32::MAX as u64) {
            Ok(n) => Ok(DurationValue::Int(n as u32)),
            Err(_) => match crate::attribute_list::parse_decimal_float(s, true) {
                Ok(d) => Ok(DurationValue::Float(d)),
                Err(e) => Err(e),
            },
        }
    }

    /// A copy of this duration.
    pub fn copy(&self) -> (r: DurationValue)
        ensures
            r@ == self@,
    {
        match self {
            DurationValue::Int(n) => DurationValue::Int(*n),
            DurationValue::Float(d) => DurationValue::Float(d.copy()),
        }
    }

    /// The duration rounded half away from zero, saturated to the range of `i64`.
    pub fn round(&self) -> (r: i64)
        ensures
            r as int == duration_round_signed(self@),
    {
        match self {
            DurationValue::Int(n) => *n as i64,
            DurationValue::Float(d) => {
                let n = d.int_part_saturating();
                let up = d.rounds_up();
                let m: u128 = if up && n < u128::MAX {
                    n + 1
                } else {
                    n
                };
                proof {
                    if n == u128::MAX {
                        assert(crate::decimal::dec_int_value(d@) >= u128::MAX);
                    }
                }
                if !d.is_negative() {
                    if m > 9223372036854775807u128 {
                        i64::MAX
                    } else {
                        m as i64
                    }
                } else {
                    if m > 9223372036854775808u128 {
                        i64::MIN
                    } else if m == 9223372036854775808u128 {
                        i64::MIN
                    } else {
                        -(m as i64)
                    }
                }
            },
        }
    }

    /// The duration rounded half away from zero, as unsigned (negative values give 0),
    /// saturated at `u64::MAX`.
    pub fn round_u64(&self) -> (r: u64)
        ensures
            r as nat == duration_round(self@),
    {
        match self {
            DurationValue::Int(n) => *n as u64,
            DurationValue::Float(d) => d.round_unsigned(),
        }
    }
}

/// A duration rounded half away from zero, saturated to the range of `i64`.
pub open spec fn duration_round_signed(d: DurationV) -> int {
    match d {
        DurationV::Int(n) => n as int,
        DurationV::Float(t) => {
            let m = crate::decimal::dec_int_value(t) + if crate::decimal::dec_rounds_up(t) {
                1int
            } else {
                0int
            };
            let v = if crate::decimal::dec_is_negative(t) {
                -m
            } else {
                m
            };
            if v > i64::MAX as int {
                i64::MAX as int
            } else if v < i64::MIN as int {
                i64::MIN as int
            } else {
                v
            }
        },
    }
}

/// A duration rounded half away from zero, as unsigned, saturated at `u64::MAX`.
pub open spec fn duration_round(d: DurationV) -> nat {
    match d {
        DurationV::Int(n) => n as nat,
        DurationV::Float(t) => if crate::decimal::dec_round_unsigned(t) <= u64::MAX as nat {
            crate::decimal::dec_round_unsigned(t)
        } else {
            u64::MAX as nat
        },
    }
}

impl std::str::FromStr for DurationValue {
    type Err = ParseError;

    fn from_str(s: &str) -> (r: Result<Self, Self::Err>)
        ensures
            match duration_spec(s.spec_bytes()) {
                Ok(d) => r matches Ok(x) && x@ == d,
                Err(e) => r matches Err(x) && x@ == e,
            },
    {
        DurationValue::parse(s)
    }
}

/// How the segments are encrypted.
#[derive(Debug, Clone, Copy, PartialEq, Eq, Hash, PartialOrd, Ord, Structural)]
pub enum Method {
    /// `NONE`: not encrypted.
    NotEncrypted,
    Aes128,
    SampleAes,
    SampleAesCtr,
    Aes256Gcm,
}

/// The method an enumerated string names.
pub open spec fn method_spec(s: Seq<u8>) -> Option<Method> {
    if s == "NONE".spec_bytes() {
        Some(Method::NotEncrypted)
    } else if s == "AES-128".spec_bytes() {
        Some(Method::Aes128)
    } else if s == "SAMPLE-AES".spec_bytes() {
        Some(Method::SampleAes)
    } else if s == "SAMPLE-AES-CTR".spec_bytes() {
        Some(Method::SampleAesCtr)
    } else if s == "AES-256-GCM".spec_bytes() {
        Some(Method::Aes256Gcm)
    } else {
        None
    }
}

/// The text of a method.
pub open spec fn method_text(m: Method) -> Seq<u8> {
    match m {
        Method::NotEncrypted => "NONE".spec_bytes(),
        Method::Aes128 => "AES-128".spec_bytes(),
        Method::SampleAes => "SAMPLE-AES".spec_bytes(),
        Method::SampleAesCtr => "SAMPLE-AES-CTR".spec_bytes(),
        Method::Aes256Gcm => "AES-256-GCM".spec_bytes(),
    }
}

impl Method {
    /// The method an enumerated string names.
    pub fn from_name(s: &str) -> (r: Option<Method>)
        ensures
            r == method_spec(s.spec_bytes()),
    {
        if str_eq(s, "NONE") {
            Some(Method::NotEncrypted)
        } else if str_eq(s, "AES-128") {
            Some(Method::Aes128)
        } else if str_eq(s, "SAMPLE-AES") {
            Some(Method::SampleAes)
        } else if str_eq(s, "SAMPLE-AES-CTR") {
            Some(Method::SampleAesCtr)
        } else if str_eq(s, "AES-256-GCM") {
            Some(Method::Aes256Gcm)
        } else {
            None
        }
    }

    /// The enumerated string of this method.
    pub fn as_str(&self) -> (r: &'static str)
        ensures
            r.spec_bytes() == method_text(*self),
    {
        match self {
            Method::NotEncrypted => "NONE",
            Method::Aes128 => "AES-128",
            Method::SampleAes => "SAMPLE-AES",
            Method::SampleAesCtr => "SAMPLE-AES-CTR",
            Method::Aes256Gcm => "AES-256-GCM",
        }
    }
}

/// An `EXT-X-KEY` (or `EXT-X-SESSION-KEY`) tag.
#[derive(Debug, Clone, PartialEq)]
pub struct Key {
    pub method: Method,
    pub uri: Uri,
    pub iv: Option<Vec<u8>>,
    pub key_format: Option<String>,
    pub key_format_versions: Vec<u16>,
}

/// A key with its text as bytes.
pub struct KeyV {
    pub method: Method,
    pub uri: UriView,
    pub iv: Option<Seq<u8>>,
    pub key_format: Option<Seq<u8>>,
    pub key_format_versions: Seq<u16>,
}

impl View for Key {
    type V = KeyV;

    open spec fn view(&self) -> KeyV {
        KeyV {
            method: self.method,
            uri: self.uri@,
            iv: match self.iv {
                Some(v) => Some(v@),
                None => None,
            },
            key_format: crate::playlist::opt_string_view(self.key_format),
            key_format_versions: self.key_format_versions@,
        }
    }
}

/// The versions among the `/`-separated pieces from `i` on that read as 16-bit numbers; the
/// others are skipped.
pub open spec fn versions_spec(parts: Seq<Seq<u8>>, i: nat) -> Seq<u16>
    decreases parts.len() - i,
{
    if i >= parts.len() {
        Seq::empty()
    } else {
        match parse_uint_spec(parts[i as int], false, u16::MAX as nat) {
            Ok(v) => seq![v as u16] + versions_spec(parts, i + 1),
            Err(_) => versions_spec(parts, i + 1),
        }
    }
}

/// The hexadecimal bytes of a value, if it is a hexadecimal-sequence.
pub open spec fn hex_of(v: Option<AttrV>) -> Option<Seq<u8>> {
    match v {
        Some(AttrV::HexSequence(b)) => Some(b),
        _ => None,
    }
}

/// The key an `EXT-X-KEY` attribute list describes. `METHOD` and `URI` are required; with
/// `METHOD=NONE` no other attribute may be present; `KEYFORMATVERSIONS` defaults to `1`.
pub open spec fn key_spec(m: Seq<(Seq<u8>, AttrV)>) -> Result<KeyV, PErr> {
    match enumerated_of(lookup(m, "METHOD".spec_bytes())) {
        None => Err(PErr::MissingAttribute { attribute: "METHOD".spec_bytes() }),
        Some(t) => match method_spec(t) {
            None => Err(
                PErr::InvalidAttributeValue {
                    attribute: "METHOD".spec_bytes(),
                    value: t,
                    expected: "one of NONE, AES-128, SAMPLE-AES, SAMPLE-AES-CTR, AES-256-GCM",
                },
            ),
            Some(method) => if method == Method::NotEncrypted && m.len() > 1 {
                Err(PErr::TooManyAttributes { expected: 1, found: m.len() })
            } else {
                match quoted_of(lookup(m, "URI".spec_bytes())) {
                    None => Err(PErr::MissingAttribute { attribute: "URI".spec_bytes() }),
                    Some(u) => Ok(
                        KeyV {
                            method,
                            uri: parse_spec(u),
                            iv: hex_of(lookup(m, "IV".spec_bytes())),
                            key_format: quoted_of(lookup(m, "KEYFORMAT".spec_bytes())),
                            key_format_versions: match quoted_of(
                                lookup(m, "KEYFORMATVERSIONS".spec_bytes()),
                            ) {
                                Some(v) => versions_spec(split(v, 0x2f), 0),
                                None => seq![1u16],
                            },
                        },
                    ),
                }
            },
        },
    }
}

/// The versions that read as 16-bit numbers among the `/`-separated pieces of `s`.
fn key_format_versions(s: &str) -> (r: Vec<u16>)
    ensures
        r@ == versions_spec(split(s.spec_bytes(), 0x2f), 0),
{
    let parts = split_str(s, 0x2f);
    let ghost ps = split(s.spec_bytes(), 0x2f);
    let mut out: Vec<u16> = Vec::new();
    let mut i: usize = 0;
    while i < parts.len()
        invariant
            i <= parts@.len(),
            parts@.len() == ps.len(),
            ps == split(s.spec_bytes(), 0x2f),
            forall|k: int| 0 <= k < parts@.len() ==> #[trigger] parts@[k].spec_bytes() == ps[k],
            versions_spec(ps, 0) == out@ + versions_spec(ps, i as nat),
        decreases parts.len() - i,
    {
        proof {
            assert(parts@[i as int].spec_bytes() == ps[i as int]);
        }
        match parse_uint(bytes(parts[i]), false, u16::MAX as u64) {
            Ok(v) => {
                let ghost o = out@;
                out.push(v as u16);
                proof {
                    assert(o + (seq![v as u16] + versions_spec(ps, (i + 1) as nat)) =~= out@
                        + versions_spec(ps, (i + 1) as nat));
                }
            },
            Err(_) => {},
        }
        i = i + 1;
    }
    proof {
        assert(out@ + Seq::<u16>::empty() =~= out@);
    }
    out
}

fn iv_of(v: Option<&AttributeValue>) -> (r: Option<Vec<u8>>)
    ensures
        match hex_of(opt_view(v)) {
            Some(b) => r matches Some(x) && x@ == b,
            None => r is None,
        },
{
    match v {
        Some(x) => match x.as_hex_sequence() {
            Some(h) => {
                let c = h.clone();
                proof {
                    assert(c@ == h@);
                }
                Some(c)
            },
            None => None,
        },
        None => None,
    }
}

fn quoted_of_owned(v: Option<&AttributeValue>) -> (r: Option<String>)
    ensures
        crate::playlist::opt_string_view(r) == quoted_of(opt_view(v)),
{
    match v {
        Some(x) => match x.as_quoted_string() {
            Some(s) => Some(owned(s)),
            None => None,
        },
        None => None,
    }
}

fn versions_of(v: Option<&AttributeValue>) -> (r: Vec<u16>)
    ensures
        r@ == match quoted_of(opt_view(v)) {
            Some(t) => versions_spec(split(t, 0x2f), 0),
            None => seq![1u16],
        },
{
    match v {
        Some(x) => match x.as_quoted_string() {
            Some(s) => key_format_versions(s),
            None => {
                let mut d = Vec::new();
                d.push(1u16);
                proof {
                    assert(d@ =~= seq![1u16]);
                }
                d
            },
        },
        None => {
            let mut d = Vec::new();
            d.push(1u16);
            proof {
                assert(d@ =~= seq![1u16]);
            }
            d
        },
    }
}

impl Key {
    /// The key an `EXT-X-KEY` attribute list describes.
    pub fn from_attributes(map: AttributeList) -> (r: Result<Self, ParseError>)
        ensures
            match key_spec(map@) {
                Ok(k) => r matches Ok(x) && x@ == k,
                Err(e) => r matches Err(x) && x@ == e,
            },
    {
        let name = match map.get("METHOD") {
            Some(v) => v.as_enumerated_string(),
            None => None,
        };
        let name = match name {
            Some(n) => n,
            None => {
                return Err(ParseError::MissingAttribute { attribute: owned("METHOD") });
            },
        };
        let method = match Method::from_name(name) {
            Some(m) => m,
            None => {
                return Err(
                    ParseError::InvalidAttributeValue {
                        attribute: owned("METHOD"),
                        value: owned(name),
                        expected: "one of NONE, AES-128, SAMPLE-AES, SAMPLE-AES-CTR, AES-256-GCM",
                    },
                );
            },
        };
        if method == Method::NotEncrypted && map.len() > 1 {
            return Err(ParseError::TooManyAttributes { expected: 1, found: map.len() });
        }
        let uri_text = match map.get("URI") {
            Some(v) => v.as_quoted_string(),
            None => None,
        };
        let uri = match uri_text {
            Some(u) => match Uri::parse(u) {
                Ok(x) => x,
                Err(_) => {
                    return Err(ParseError::MissingAttribute { attribute: owned("URI") });
                },
            },
            None => {
                return Err(ParseError::MissingAttribute { attribute: owned("URI") });
            },
        };
        let iv = iv_of(map.get("IV"));
        let key_format = quoted_of_owned(map.get("KEYFORMAT"));
        let key_format_versions = versions_of(map.get("KEYFORMATVERSIONS"));
        Ok(Key { method, uri, iv, key_format, key_format_versions })
    }

    pub fn get_method(&self) -> (r: &Method)
        ensures
            *r == self.method,
    {
        &self.method
    }

    pub fn get_uri(&self) -> (r: &Uri)
        ensures
            r@ == self.uri@,
    {
        &self.uri
    }

    pub fn get_iv(&self) -> (r: Option<&Vec<u8>>)
        ensures
            match self.iv {
                Some(v) => r matches Some(x) && x@ == v@,
                None => r is None,
            },
    {
        self.iv.as_ref()
    }

    pub fn get_key_format(&self) -> (r: Option<&str>)
        ensures
            match self.key_format {
                Some(v) => r matches Some(x) && x.spec_bytes() == utf8(v@),
                None => r is None,
            },
    {
        match &self.key_format {
            Some(s) => Some(s.as_str()),
            None => None,
        }
    }

    pub fn get_key_format_versions(&self) -> (r: &[u16])
        ensures
            r@ == self.key_format_versions@,
    {
        self.key_format_versions.as_slice()
    }
}

/// An `EXT-X-MAP` tag: where the media initialization section is.
#[derive(Debug, Clone, PartialEq)]
pub struct SegmentMap {
    pub uri: Uri,
    pub byte_range: Option<ByteRange>,
}

/// A map with its text as bytes.
pub struct SegmentMapV {
    pub uri: UriView,
    pub byte_range: Option<ByteRange>,
}

impl View for SegmentMap {
    type V = SegmentMapV;

    open spec fn view(&self) -> SegmentMapV {
        SegmentMapV { uri: self.uri@, byte_range: self.byte_range }
    }
}

/// The error for a `BYTERANGE` that is not `length@offset`.
pub open spec fn map_byterange_error(value: Seq<u8>) -> PErr {
    PErr::InvalidAttributeValue {
        attribute: "BYTERANGE".spec_bytes(),
        value,
        expected: "a quoted string in the format 'length@offset'",
    }
}

/// The map an `EXT-X-MAP` attribute list describes. `URI` is required; a `BYTERANGE` must be
/// `"length@offset"`. A bad length is reported with the offset's text.
pub open spec fn map_spec(m: Seq<(Seq<u8>, AttrV)>) -> Result<SegmentMapV, PErr> {
    match quoted_of(lookup(m, "URI".spec_bytes())) {
        None => Err(PErr::MissingAttribute { attribute: "URI".spec_bytes() }),
        Some(u) => match lookup(m, "BYTERANGE".spec_bytes()) {
            None => Ok(SegmentMapV { uri: parse_spec(u), byte_range: None }),
            Some(v) => match quoted_of(Some(v)) {
                None => Err(map_byterange_error("NONE".spec_bytes())),
                Some(t) => {
                    let parts = split(t, 0x40);
                    if parts.len() != 2 {
                        Err(map_byterange_error(t))
                    } else {
                        match parse_uint_spec(parts[0], false, u64::MAX as nat) {
                            Err(_) => Err(
                                PErr::InvalidAttributeValue {
                                    attribute: "BYTERANGE".spec_bytes(),
                                    value: parts[1],
                                    expected: "a valid decimal integer length value",
                                },
                            ),
                            Ok(l) => match parse_uint_spec(parts[1], false, u64::MAX as nat) {
                                Err(_) => Err(
                                    PErr::InvalidAttributeValue {
                                        attribute: "BYTERANGE".spec_bytes(),
                                        value: parts[1],
                                        expected: "a valid decimal integer offset value",
                                    },
                                ),
                                Ok(o) => Ok(
                                    SegmentMapV {
                                        uri: parse_spec(u),
                                        byte_range: Some(ByteRange { len: l as u64, offset: Some(o as u64) }),
                                    },
                                ),
                            },
                        }
                    }
                },
            },
        },
    }
}

fn parse_u64_text(s: &str) -> (r: Option<u64>)
    ensures
        match parse_uint_spec(s.spec_bytes(), false, u64::MAX as nat) {
            Ok(n) => r == Some(n as u64),
            Err(_) => r is None,
        },
{
    match parse_uint(bytes(s), false, u64::MAX) {
        Ok(n) => Some(n),
        Err(_) => None,
    }
}

impl SegmentMap {
    /// The map an `EXT-X-MAP` attribute list describes.
    pub fn from_attributes(map: AttributeList) -> (r: Result<Self, ParseError>)
        ensures
            match map_spec(map@) {
                Ok(x) => r matches Ok(y) && y@ == x,
                Err(e) => r matches Err(y) && y@ == e,
            },
    {
        let u = match map.get("URI") {
            Some(v) => v.as_quoted_string(),
            None => None,
        };
        let uri = match u {
            Some(t) => match Uri::parse(t) {
                Ok(x) => x,
                Err(_) => {
                    return Err(ParseError::MissingAttribute { attribute: owned("URI") });
                },
            },
            None => {
                return Err(ParseError::MissingAttribute { attribute: owned("URI") });
            },
        };
        let br = match map.get("BYTERANGE") {
            None => {
                return Ok(SegmentMap { uri, byte_range: None });
            },
            Some(v) => v,
        };
        let t = match br.as_quoted_string() {
            Some(t) => t,
            None => {
                return Err(
                    ParseError::InvalidAttributeValue {
                        attribute: owned("BYTERANGE"),
                        value: owned("NONE"),
                        expected: "a quoted string in the format 'length@offset'",
                    },
                );
            },
        };
        let parts = split_str(t, 0x40);
        if parts.len() != 2 {
            return Err(
                ParseError::InvalidAttributeValue {
                    attribute: owned("BYTERANGE"),
                    value: owned(t),
                    expected: "a quoted string in the format 'length@offset'",
                },
            );
        }
        let len = match parse_u64_text(parts[0]) {
            Some(l) => l,
            None => {
                return Err(
                    ParseError::InvalidAttributeValue {
                        attribute: owned("BYTERANGE"),
                        value: owned(parts[1]),
                        expected: "a valid decimal integer length value",
                    },
                );
            },
        };
        let offset = match parse_u64_text(parts[1]) {
            Some(o) => o,
            None => {
                return Err(
                    ParseError::InvalidAttributeValue {
                        attribute: owned("BYTERANGE"),
                        value: owned(parts[1]),
                        expected: "a valid decimal integer offset value",
                    },
                );
            },
        };
        Ok(SegmentMap { uri, byte_range: Some(ByteRange { len, offset: Some(offset) }) })
    }
}

/// An `EXT-X-PART` tag: a partial segment.
#[derive(Debug, Clone, PartialEq)]
pub struct PartialSegment {
    pub uri: Uri,
    pub duration: DecimalFloat,
    pub independent: Option<bool>,
    pub byte_range: Option<ByteRange>,
    pub gap: bool,
}

/// A partial segment with its text as bytes.
pub struct PartialSegmentV {
    pub uri: UriView,
    pub duration: Seq<u8>,
    pub independent: Option<bool>,
    pub byte_range: Option<ByteRange>,
    pub gap: bool,
}

impl View for PartialSegment {
    type V = PartialSegmentV;

    open spec fn view(&self) -> PartialSegmentV {
        PartialSegmentV {
            uri: self.uri@,
            duration: self.duration@,
            independent: self.independent,
            byte_range: self.byte_range,
            gap: self.gap,
        }
    }
}

/// A `length[@offset]` byte range of a partial segment.
pub open spec fn part_byterange_spec(t: Seq<u8>) -> Result<ByteRange, PErr> {
    let (first, second) = match split_once(t, 0x40) {
        Some((a, b)) => (a, Some(b)),
        None => (t, None),
    };
    match parse_uint_spec(first, false, u64::MAX as nat) {
        Err(_) => Err(
            PErr::InvalidAttributeValue {
                attribute: "BYTERANGE".spec_bytes(),
                value: first,
                expected: "a valid decimal integer length value",
            },
        ),
        Ok(l) => match second {
            None => Ok(ByteRange { len: l as u64, offset: None }),
            Some(o) => match parse_uint_spec(o, false, u64::MAX as nat) {
                Err(_) => Err(
                    PErr::InvalidAttributeValue {
                        attribute: "BYTERANGE".spec_bytes(),
                        value: o,
                        expected: "a valid decimal integer offset value",
                    },
                ),
                Ok(n) => Ok(ByteRange { len: l as u64, offset: Some(n as u64) }),
            },
        },
    }
}

/// The partial segment an `EXT-X-PART` attribute list describes. `URI` and `DURATION` are
/// required; `INDEPENDENT` counts only when `YES`.
pub open spec fn part_spec(m: Seq<(Seq<u8>, AttrV)>) -> Result<PartialSegmentV, PErr> {
    match quoted_of(lookup(m, "URI".spec_bytes())) {
        None => Err(
            PErr::InvalidAttributeValue {
                attribute: "URI".spec_bytes(),
                value: "NONE".spec_bytes(),
                expected: "a quoted string that is a valid uri",
            },
        ),
        Some(u) => match lookup(m, "DURATION".spec_bytes()) {
            Some(AttrV::DecimalFloatingPoint(d)) => {
                let independent = if enumerated_of(lookup(m, "INDEPENDENT".spec_bytes())) == Some(
                    "YES".spec_bytes(),
                ) {
                    Some(true)
                } else {
                    None
                };
                let gap = enumerated_of(lookup(m, "GAP".spec_bytes())) == Some("YES".spec_bytes());
                match lookup(m, "BYTERANGE".spec_bytes()) {
                    None => Ok(
                        PartialSegmentV { uri: parse_spec(u), duration: d, independent, byte_range: None, gap },
                    ),
                    Some(v) => match quoted_of(Some(v)) {
                        None => Err(PErr::ExpectedQuotedString),
                        Some(t) => match part_byterange_spec(t) {
                            Err(e) => Err(e),
                            Ok(br) => Ok(
                                PartialSegmentV {
                                    uri: parse_spec(u),
                                    duration: d,
                                    independent,
                                    byte_range: Some(br),
                                    gap,
                                },
                            ),
                        },
                    },
                }
            },
            _ => Err(
                PErr::InvalidAttributeValue {
                    attribute: "DURATION".spec_bytes(),
                    value: "NONE".spec_bytes(),
                    expected: "a decimal floating point number",
                },
            ),
        },
    }
}

fn part_byterange(t: &str) -> (r: Result<ByteRange, ParseError>)
    ensures
        match part_byterange_spec(t.spec_bytes()) {
            Ok(b) => r == Ok::<ByteRange, ParseError>(b),
            Err(e) => r matches Err(x) && x@ == e,
        },
{
    let (first, second) = match split_once_str(t, 0x40) {
        Some((a, b)) => (a, Some(b)),
        None => (t, None),
    };
    let len = match parse_u64_text(first) {
        Some(l) => l,
        None => {
            return Err(
                ParseError::InvalidAttributeValue {
                    attribute: owned("BYTERANGE"),
                    value: owned(first),
                    expected: "a valid decimal integer length value",
                },
            );
        },
    };
    match second {
        None => Ok(ByteRange { len, offset: None }),
        Some(o) => match parse_u64_text(o) {
            Some(n) => Ok(ByteRange { len, offset: Some(n) }),
            None => Err(
                ParseError::InvalidAttributeValue {
                    attribute: owned("BYTERANGE"),
                    value: owned(o),
                    expected: "a valid decimal integer offset value",
                },
            ),
        },
    }
}

fn is_yes_value(v: Option<&AttributeValue>) -> (r: bool)
    ensures
        r == (enumerated_of(opt_view(v)) == Some("YES".spec_bytes())),
{
    match v {
        Some(x) => match x.as_enumerated_string() {
            Some(s) => str_eq(s, "YES"),
            None => false,
        },
        None => false,
    }
}

impl PartialSegment {
    /// The partial segment an `EXT-X-PART` attribute list describes.
    pub fn from_attributes(map: AttributeList) -> (r: Result<Self, ParseError>)
        ensures
            match part_spec(map@) {
                Ok(x) => r matches Ok(y) && y@ == x,
                Err(e) => r matches Err(y) && y@ == e,
            },
    {
        let u = match map.get("URI") {
            Some(v) => v.as_quoted_string(),
            None => None,
        };
        let uri = match u {
            Some(t) => match Uri::parse(t) {
                Ok(x) => x,
                Err(_) => {
                    return Err(ParseError::ExpectedQuotedString);
                },
            },
            None => {
                return Err(
                    ParseError::InvalidAttributeValue {
                        attribute: owned("URI"),
                        value: owned("NONE"),
                        expected: "a quoted string that is a valid uri",
                    },
                );
            },
        };
        let d = match map.get("DURATION") {
            Some(v) => v.as_decimal_floating_point(),
            None => None,
        };
        let duration = match d {
            Some(d) => d.copy(),
            None => {
                return Err(
                    ParseError::InvalidAttributeValue {
                        attribute: owned("DURATION"),
                        value: owned("NONE"),
                        expected: "a decimal floating point number",
                    },
                );
            },
        };
        let independent = if is_yes_value(map.get("INDEPENDENT")) {
            Some(true)
        } else {
            None
        };
        let gap = is_yes_value(map.get("GAP"));
        let byte_range = match map.get("BYTERANGE") {
            None => None,
            Some(v) => match v.as_quoted_string() {
                None => {
                    return Err(ParseError::ExpectedQuotedString);
                },
                Some(t) => match part_byterange(t) {
                    Ok(b) => Some(b),
                    Err(e) => {
                        return Err(e);
                    },
                },
            },
        };
        Ok(PartialSegment { uri, duration, independent, byte_range, gap })
    }
}

/// The segment tags read so far for the next segment.
#[derive(Debug)]
pub struct PendingSegment {
    pub duration: Option<DurationValue>,
    pub title: Option<String>,
    pub byte_range: Option<ByteRange>,
    pub discontinuity: bool,
    pub program_date_time: Option<DateTimeValue>,
    pub gap: bool,
    pub bitrate: Option<u64>,
    pub part: Option<PartialSegment>,
    pub key: Option<Key>,
    pub map: Option<SegmentMap>,
    pub media_sequence: u64,
}

/// A pending segment with its text as bytes.
pub struct PendingV {
    pub duration: Option<DurationV>,
    pub title: Option<Seq<u8>>,
    pub byte_range: Option<ByteRange>,
    pub discontinuity: bool,
    pub program_date_time: Option<DateTimeValue>,
    pub gap: bool,
    pub bitrate: Option<u64>,
    pub part: Option<PartialSegmentV>,
    pub key: Option<KeyV>,
    pub map: Option<SegmentMapV>,
    pub media_sequence: u64,
}

impl View for PendingSegment {
    type V = PendingV;

    open spec fn view(&self) -> PendingV {
        PendingV {
            duration: match self.duration {
                Some(d) => Some(d@),
                None => None,
            },
            title: crate::playlist::opt_string_view(self.title),
            byte_range: self.byte_range,
            discontinuity: self.discontinuity,
            program_date_time: self.program_date_time,
            gap: self.gap,
            bitrate: self.bitrate,
            part: match self.part {
                Some(p) => Some(p@),
                None => None,
            },
            key: match self.key {
                Some(k) => Some(k@),
                None => None,
            },
            map: match self.map {
                Some(m) => Some(m@),
                None => None,
            },
            media_sequence: self.media_sequence,
        }
    }
}

/// A pending segment with nothing read yet.
pub open spec fn empty_pending() -> PendingV {
    PendingV {
        duration: None,
        title: None,
        byte_range: None,
        discontinuity: false,
        program_date_time: None,
        gap: false,
        bitrate: None,
        part: None,
        key: None,
        map: None,
        media_sequence: 0,
    }
}

/// The pending segment after the tag on `line`, or why the tag is rejected.
#[verifier::opaque]
pub open spec fn pending_step(p: PendingV, line: Seq<u8>) -> Result<PendingV, PErr> {
    if has_prefix(line, "#EXTINF:".spec_bytes()) {
        let rest = after(line, "#EXTINF:".spec_bytes());
        let (d, title) = match split_once(rest, 0x2c) {
            Some((a, b)) => (a, Some(b)),
            None => (rest, None),
        };
        match duration_spec(d) {
            Err(e) => Err(e),
            Ok(duration) => Ok(PendingV { duration: Some(duration), title, ..p }),
        }
    } else if has_prefix(line, "#EXT-X-BYTERANGE:".spec_bytes()) {
        let rest = after(line, "#EXT-X-BYTERANGE:".spec_bytes());
        let (l, o) = match split_once(rest, 0x40) {
            Some((a, b)) => (a, Some(b)),
            None => (rest, None),
        };
        match parse_uint_spec(l, false, u64::MAX as nat) {
            Err(_) => Err(PErr::InvalidLine(line)),
            Ok(len) => match o {
                None => Ok(PendingV { byte_range: Some(ByteRange { len: len as u64, offset: None }), ..p }),
                Some(ot) => match parse_uint_spec(ot, false, u64::MAX as nat) {
                    Err(_) => Err(PErr::InvalidLine(line)),
                    Ok(off) => Ok(
                        PendingV {
                            byte_range: Some(ByteRange { len: len as u64, offset: Some(off as u64) }),
                            ..p
                        },
                    ),
                },
            },
        }
    } else if has_prefix(line, "#EXT-X-DISCONTINUITY".spec_bytes()) {
        Ok(PendingV { discontinuity: true, ..p })
    } else if has_prefix(line, "#EXT-X-KEY:".spec_bytes()) {
        match attribute_list_spec(after(line, "#EXT-X-KEY:".spec_bytes())) {
            Err(e) => Err(e),
            Ok(m) => match key_spec(m) {
                Err(e) => Err(e),
                Ok(k) => Ok(PendingV { key: Some(k), ..p }),
            },
        }
    } else if has_prefix(line, "#EXT-X-MAP:".spec_bytes()) {
        match attribute_list_spec(after(line, "#EXT-X-MAP:".spec_bytes())) {
            Err(e) => Err(e),
            Ok(m) => match map_spec(m) {
                Err(e) => Err(e),
                Ok(x) => Ok(PendingV { map: Some(x), ..p }),
            },
        }
    } else if has_prefix(line, "#EXT-X-PROGRAM-DATE-TIME:".spec_bytes()) {
        match datetime_spec(after(line, "#EXT-X-PROGRAM-DATE-TIME:".spec_bytes())) {
            None => Err(PErr::InvalidLine(line)),
            Some(d) => Ok(PendingV { program_date_time: Some(d), ..p }),
        }
    } else if has_prefix(line, "#EXT-X-GAP".spec_bytes()) {
        Ok(PendingV { gap: true, ..p })
    } else if has_prefix(line, "#EXT-X-BITRATE:".spec_bytes()) {
        match parse_uint_spec(after(line, "#EXT-X-BITRATE:".spec_bytes()), false, u64::MAX as nat) {
            Err(_) => Err(PErr::InvalidLine(line)),
            Ok(b) => Ok(PendingV { bitrate: Some(b as u64), ..p }),
        }
    } else if has_prefix(line, "#EXT-X-PART:".spec_bytes()) {
        match attribute_list_spec(after(line, "#EXT-X-PART:".spec_bytes())) {
            Err(e) => Err(e),
            Ok(m) => match part_spec(m) {
                Err(e) => Err(e),
                Ok(x) => Ok(PendingV { part: Some(x), ..p }),
            },
        }
    } else {
        Err(PErr::InvalidLine(line))
    }
}

impl PendingSegment {
    /// A pending segment with nothing read yet.
    pub fn new() -> (r: Self)
        ensures
            r@ == empty_pending(),
    {
        PendingSegment {
            duration: None,
            title: None,
            byte_range: None,
            discontinuity: false,
            program_date_time: None,
            gap: false,
            bitrate: None,
            part: None,
            key: None,
            map: None,
            media_sequence: 0,
        }
    }

    /// Forgets what only the next segment uses: its duration, title and byte range.
    pub fn reset_segment_scoped_fields(&mut self)
        ensures
            final(self)@ == (PendingV { duration: None, title: None, byte_range: None, ..old(self)@ }),
    {
        self.duration = None;
        self.title = None;
        self.byte_range = None;
    }

    /// Reads one segment tag into the pending segment; a rejected tag leaves it unchanged.
    pub fn parse(&mut self, line: &str) -> (r: Result<(), ParseError>)
        ensures
            match pending_step(old(self)@, line.spec_bytes()) {
                Ok(p) => r is Ok && final(self)@ == p,
                Err(e) => (r matches Err(x) && x@ == e) && final(self)@ == old(self)@,
            },
    {
        proof {
            reveal(pending_step);
        }
        if let Some(rest) = strip_prefix(line, "#EXTINF:") {
            let (d, title) = match split_once_str(rest, 0x2c) {
                Some((a, b)) => (a, Some(owned(b))),
                None => (rest, None),
            };
            let duration = match DurationValue::parse(d) {
                Ok(x) => x,
                Err(e) => {
                    return Err(e);
                },
            };
            self.duration = Some(duration);
            self.title = title;
            return Ok(());
        }
        if let Some(rest) = strip_prefix(line, "#EXT-X-BYTERANGE:") {
            let (l, o) = match split_once_str(rest, 0x40) {
                Some((a, b)) => (a, Some(b)),
                None => (rest, None),
            };
            let len = match parse_u64_text(l) {
                Some(n) => n,
                None => {
                    return Err(ParseError::InvalidLine(owned(line)));
                },
            };
            let offset = match o {
                None => None,
                Some(ot) => match parse_u64_text(ot) {
                    Some(n) => Some(n),
                    None => {
                        return Err(ParseError::InvalidLine(owned(line)));
                    },
                },
            };
            self.byte_range = Some(ByteRange { len, offset });
            return Ok(());
        }
        if starts_with(line, "#EXT-X-DISCONTINUITY") {
            self.discontinuity = true;
            return Ok(());
        }
        if let Some(rest) = strip_prefix(line, "#EXT-X-KEY:") {
            let attrs = match parse_attribute_list(rest) {
                Ok(a) => a,
                Err(e) => {
                    return Err(e);
                },
            };
            let key = match Key::from_attributes(attrs) {
                Ok(k) => k,
                Err(e) => {
                    return Err(e);
                },
            };
            self.key = Some(key);
            return Ok(());
        }
        if let Some(rest) = strip_prefix(line, "#EXT-X-MAP:") {
            let attrs = match parse_attribute_list(rest) {
                Ok(a) => a,
                Err(e) => {
                    return Err(e);
                },
            };
            let map = match SegmentMap::from_attributes(attrs) {
                Ok(m) => m,
                Err(e) => {
                    return Err(e);
                },
            };
            self.map = Some(map);
            return Ok(());
        }
        if let Some(rest) = strip_prefix(line, "#EXT-X-PROGRAM-DATE-TIME:") {
            let d = match parse_datetime(rest) {
                Some(d) => d,
                None => {
                    return Err(ParseError::InvalidLine(owned(line)));
                },
            };
            self.program_date_time = Some(d);
            return Ok(());
        }
        if starts_with(line, "#EXT-X-GAP") {
            self.gap = true;
            return Ok(());
        }
        if let Some(rest) = strip_prefix(line, "#EXT-X-BITRATE:") {
            let b = match parse_u64_text(rest) {
                Some(b) => b,
                None => {
                    return Err(ParseError::InvalidLine(owned(line)));
                },
            };
            self.bitrate = Some(b);
            return Ok(());
        }
        if let Some(rest) = strip_prefix(line, "#EXT-X-PART:") {
            let attrs = match parse_attribute_list(rest) {
                Ok(a) => a,
                Err(e) => {
                    return Err(e);
                },
            };
            let part = match PartialSegment::from_attributes(attrs) {
                Ok(p) => p,
                Err(e) => {
                    return Err(e);
                },
            };
            self.part = Some(part);
            return Ok(());
        }
        Err(ParseError::InvalidLine(owned(line)))
    }

    /// The segment these tags describe, at `uri`; the duration is required.
    pub fn build(self, uri: Uri) -> (r: Result<MediaSegment, ParseError>)
        ensures
            match segment_of(self@, uri@) {
                Ok(s) => r matches Ok(x) && x@ == s,
                Err(e) => r matches Err(x) && x@ == e,
            },
    {
        match MediaSegment::from_pending(self) {
            Ok(mut seg) => {
                seg.uri = uri;
                Ok(seg)
            },
            Err(e) => Err(e),
        }
    }
}

/// A media segment: its URI and what the tags before it said.
#[derive(Debug, PartialEq)]
pub struct MediaSegment {
    pub uri: Uri,
    pub byte_range: Option<ByteRange>,
    pub duration: DurationValue,
    pub title: Option<String>,
    pub media_sequence: u64,
    pub discontinuity: bool,
    pub key: Option<Key>,
    pub map: Option<SegmentMap>,
    pub program_date_time: Option<DateTimeValue>,
    pub gap: bool,
    pub bitrate: Option<u64>,
    pub part: Option<PartialSegment>,
}

/// A media segment with its text as bytes.
pub struct MediaSegmentV {
    pub uri: UriView,
    pub byte_range: Option<ByteRange>,
    pub duration: DurationV,
    pub title: Option<Seq<u8>>,
    pub media_sequence: u64,
    pub discontinuity: bool,
    pub key: Option<KeyV>,
    pub map: Option<SegmentMapV>,
    pub program_date_time: Option<DateTimeValue>,
    pub gap: bool,
    pub bitrate: Option<u64>,
    pub part: Option<PartialSegmentV>,
}

impl View for MediaSegment {
    type V = MediaSegmentV;

    open spec fn view(&self) -> MediaSegmentV {
        MediaSegmentV {
            uri: self.uri@,
            byte_range: self.byte_range,
            duration: self.duration@,
            title: crate::playlist::opt_string_view(self.title),
            media_sequence: self.media_sequence,
            discontinuity: self.discontinuity,
            key: match self.key {
                Some(k) => Some(k@),
                None => None,
            },
            map: match self.map {
                Some(m) => Some(m@),
                None => None,
            },
            program_date_time: self.program_date_time,
            gap: self.gap,
            bitrate: self.bitrate,
            part: match self.part {
                Some(p) => Some(p@),
                None => None,
            },
        }
    }
}

/// The segment a pending segment becomes at `uri`, if it has a duration.
pub open spec fn segment_of(p: PendingV, uri: UriView) -> Result<MediaSegmentV, PErr> {
    match p.duration {
        None => Err(PErr::MissingAttribute { attribute: "DURATION".spec_bytes() }),
        Some(d) => Ok(
            MediaSegmentV {
                uri,
                byte_range: p.byte_range,
                duration: d,
                title: p.title,
                media_sequence: p.media_sequence,
                discontinuity: p.discontinuity,
                key: p.key,
                map: p.map,
                program_date_time: p.program_date_time,
                gap: p.gap,
                bitrate: p.bitrate,
                part: p.part,
            },
        ),
    }
}

impl MediaSegment {
    /// The segment a pending segment becomes, at the empty URI; the duration is required.
    pub fn from_pending(value: PendingSegment) -> (r: Result<Self, ParseError>)
        ensures
            match segment_of(value@, parse_spec(Seq::empty())) {
                Ok(s) => r matches Ok(x) && x@ == s,
                Err(e) => r matches Err(x) && x@ == e,
            },
    {
        let duration = match value.duration {
            Some(d) => d,
            None => {
                return Err(ParseError::MissingAttribute { attribute: owned("DURATION") });
            },
        };
        let empty = crate::text::slice_ascii("", 0, 0);
        proof {
            assert(empty.spec_bytes() =~= Seq::<u8>::empty());
        }
        let uri = match Uri::parse(empty) {
            Ok(u) => u,
            Err(_) => {
                return Err(ParseError::MissingAttribute { attribute: owned("DURATION") });
            },
        };
        Ok(MediaSegment {
            uri,
            byte_range: value.byte_range,
            duration,
            title: value.title,
            media_sequence: value.media_sequence,
            discontinuity: value.discontinuity,
            gap: value.gap,
            key: value.key,
            map: value.map,
            program_date_time: value.program_date_time,
            bitrate: value.bitrate,
            part: value.part,
        })
    }

    /// A segment made of the given parts; a missing media sequence number is 0.
    pub fn new(
        uri: Uri,
        byte_range: Option<ByteRange>,
        duration: DurationValue,
        title: Option<String>,
        media_sequence: Option<u64>,
        discontinuity: bool,
        key: Option<Key>,
        map: Option<SegmentMap>,
        program_date_time: Option<DateTimeValue>,
        gap: bool,
        bitrate: Option<u64>,
        part: Option<PartialSegment>,
    ) -> (r: Self)
        ensures
            r.uri@ == uri@,
            r.byte_range == byte_range,
            r.duration@ == duration@,
            r@.title == crate::playlist::opt_string_view(title),
            r.media_sequence == match media_sequence {
                Some(n) => n,
                None => 0,
            },
            r.discontinuity == discontinuity,
            r@.key == (match key {
                Some(k) => Some(k@),
                None => None,
            }),
            r@.map == (match map {
                Some(m) => Some(m@),
                None => None,
            }),
            r.program_date_time == program_date_time,
            r.gap == gap,
            r.bitrate == bitrate,
            r@.part == (match part {
                Some(p) => Some(p@),
                None => None,
            }),
    {
        MediaSegment {
            uri,
            byte_range,
            duration,
            title,
            media_sequence: match media_sequence {
                Some(n) => n,
                None => 0,
            },
            discontinuity,
            key,
            map,
            program_date_time,
            gap,
            bitrate,
            part,
        }
    }

    pub fn get_discontinuity(&self) -> (r: bool)
        ensures
            r == self.discontinuity,
    {
        self.discontinuity
    }

    pub fn get_duration(&self) -> (r: &DurationValue)
        ensures
            r@ == self.duration@,
    {
        &self.duration
    }

    pub fn get_title(&self) -> (r: Option<String>)
        ensures
            crate::playlist::opt_string_view(r) == crate::playlist::opt_string_view(self.title),
    {
        match &self.title {
            Some(t) => Some(owned(t.as_str())),
            None => None,
        }
    }

    pub fn get_byte_range(&self) -> (r: Option<&ByteRange>)
        ensures
            match self.byte_range {
                Some(b) => r == Some(&b),
                None => r is None,
            },
    {
        self.byte_range.as_ref()
    }

    pub fn get_uri(&self) -> (r: &Uri)
        ensures
            r@ == self.uri@,
    {
        &self.uri
    }

    pub fn get_part(&self) -> (r: Option<&PartialSegment>)
        ensures
            match self.part {
                Some(p) => r matches Some(x) && x@ == p@,
                None => r is None,
            },
    {
        self.part.as_ref()
    }

    pub fn get_media_sequence(&self) -> (r: u64)
        ensures
            r == self.media_sequence,
    {
        self.media_sequence
    }

    pub fn get_key(&self) -> (r: Option<&Key>)
        ensures
            match self.key {
                Some(k) => r matches Some(x) && x@ == k@,
                None => r is None,
            },
    {
        self.key.as_ref()
    }

    pub fn get_map(&self) -> (r: Option<&SegmentMap>)
        ensures
            match self.map {
                Some(m) => r matches Some(x) && x@ == m@,
                None => r is None,
            },
    {
        self.map.as_ref()
    }

    /// The key to decrypt the segment with: a segment without a key cannot be decrypted, nor
    /// one whose method is other than AES-128 and AES-256-GCM.
    pub fn decryption_key(&self) -> (r: Result<&Key, String>)
        ensures
            match self.key {
                None => r matches Err(s) && s@ == "No encryption key found"@,
                Some(k) => if k.method == Method::Aes128 || k.method == Method::Aes256Gcm {
                    r matches Ok(x) && x@ == k@
                } else {
                    r matches Err(s) && s@ == "Unsupported encryption method"@
                },
            },
    {
        match &self.key {
            None => Err(owned("No encryption key found")),
            Some(k) => if k.method == Method::Aes128 || k.method == Method::Aes256Gcm {
                Ok(k)
            } else {
                Err(owned("Unsupported encryption method"))
            },
        }
    }

    /// The IV to decrypt the segment with; see `decryption_iv_spec`.
    pub fn decryption_iv(&self) -> (r: Vec<u8>)
        requires
            self.key is Some,
        ensures
            r@ == decryption_iv_spec(self@),
    {
        let k = self.key.as_ref().unwrap();
        if k.method == Method::Aes128 {
            match &k.iv {
                Some(iv) => iv.clone(),
                None => {
                    let n = self.media_sequence;
                    let mut out: Vec<u8> = Vec::new();
                    out.push((n >> 56) as u8);
                    out.push((n >> 48) as u8);
                    out.push((n >> 40) as u8);
                    out.push((n >> 32) as u8);
                    out.push((n >> 24) as u8);
                    out.push((n >> 16) as u8);
                    out.push((n >> 8) as u8);
                    out.push(n as u8);
                    proof {
                        assert(out@ =~= be_bytes(n));
                    }
                    out
                },
            }
        } else {
            Vec::new()
        }
    }
}

/// The eight bytes of `n`, most significant first.
pub open spec fn be_bytes(n: u64) -> Seq<u8> {
    seq![
        (n >> 56) as u8,
        (n >> 48) as u8,
        (n >> 40) as u8,
        (n >> 32) as u8,
        (n >> 24) as u8,
        (n >> 16) as u8,
        (n >> 8) as u8,
        n as u8,
    ]
}

/// The IV of a segment's decryption: for AES-128 the key's IV, or else the media sequence
/// number as eight big-endian bytes; for other methods none.
pub open spec fn decryption_iv_spec(s: MediaSegmentV) -> Seq<u8> {
    match s.key {
        Some(k) => if k.method == Method::Aes128 {
            match k.iv {
                Some(iv) => iv,
                None => be_bytes(s.media_sequence),
            }
        } else {
            Seq::empty()
        },
        None => Seq::empty(),
    }
}

/// What the reader of segment tags remembers between segments.
pub struct ParseSegmentState {
    pub current_key: Option<Key>,
    pub current_map: Option<SegmentMap>,
    pub pending_segment: PendingSegment,
    pub previous_byterange_end: Option<u64>,
    pub previous_byterange_uri: Option<String>,
    pub current_uri: Option<String>,
    pub media_sequence: u64,
    pub previous_media_sequence_number: Option<u64>,
}

impl ParseSegmentState {
    /// The state before the first segment.
    pub fn new() -> (r: Self)
        ensures
            r.pending_segment@ == empty_pending(),
            r.media_sequence == 0,
            r.previous_media_sequence_number is None,
            r.current_key is None,
            r.current_map is None,
            r.previous_byterange_end is None,
            r.previous_byterange_uri is None,
            r.current_uri is None,
    {
        ParseSegmentState {
            current_key: None,
            current_map: None,
            pending_segment: PendingSegment::new(),
            previous_byterange_end: None,
            previous_byterange_uri: None,
            current_uri: None,
            previous_media_sequence_number: None,
            media_sequence: 0,
        }
    }

    /// Reads one segment tag into the pending segment, which takes the current media sequence
    /// number.
    pub fn accept(&mut self, line: &str) -> (r: Result<(), ParseError>)
        ensures
            final(self).media_sequence == old(self).media_sequence,
            final(self).previous_media_sequence_number == old(self).previous_media_sequence_number,
            match pending_step(
                PendingV { media_sequence: old(self).media_sequence, ..old(self).pending_segment@ },
                line.spec_bytes(),
            ) {
                Ok(p) => r is Ok && final(self).pending_segment@ == p,
                Err(e) => (r matches Err(x) && x@ == e) && final(self).pending_segment@ == (PendingV {
                    media_sequence: old(self).media_sequence,
                    ..old(self).pending_segment@
                }),
            },
    {
        self.pending_segment.media_sequence = self.media_sequence;
        self.pending_segment.parse(line)
    }

    /// Sets the media sequence number of the next segment.
    pub fn set_media_sequence(&mut self, media_sequence: u64)
        ensures
            final(self).media_sequence == media_sequence,
            final(self).pending_segment@ == old(self).pending_segment@,
            final(self).previous_media_sequence_number == old(self).previous_media_sequence_number,
    {
        self.media_sequence = media_sequence;
    }

    /// Hands out the pending segment and starts a new one; the next segment takes the next
    /// media sequence number (wrapping past the largest one).
    pub fn finish_pending_segment(&mut self) -> (r: PendingSegment)
        ensures
            r@ == old(self).pending_segment@,
            final(self).pending_segment@ == empty_pending(),
            final(self).media_sequence == (if old(self).media_sequence == u64::MAX {
                0
            } else {
                (old(self).media_sequence + 1) as u64
            }),
            final(self).previous_media_sequence_number == Some(old(self).media_sequence),
    {
        self.previous_media_sequence_number = Some(self.media_sequence);
        self.media_sequence = if self.media_sequence == u64::MAX {
            0
        } else {
            self.media_sequence + 1
        };
        let mut fresh = PendingSegment::new();
        std::mem::swap(&mut self.pending_segment, &mut fresh);
        fresh
    }
}

} // verus!
