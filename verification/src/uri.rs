//! URI references as they appear in playlists, with percent-encoding.
use vstd::prelude::*;
use vstd::string::*;
use vstd::utf8::*;
use crate::error::UriError;
use crate::num::{hex_char, hex_char_spec};
use crate::text::{
    lemma_ascii_str,
    bytes, find2, find2_or_len, find_byte, lemma_find_none, lemma_find_some, owned, push_str,
    slice_ascii, split_once, split_once_str, string_from_utf8, string_of_bytes, strip_prefix,
    has_prefix, utf8,
};

verus! {

broadcast use vstd::utf8::group_utf8_lib;

/// A URI reference: `[scheme:][//authority]path[?query][#fragment]`.
#[derive(Debug, Clone, PartialEq, Eq, Hash)]
pub struct Uri {
    scheme: String,
    authority: Option<String>,
    path: String,
    query: Option<String>,
    fragment: Option<String>,
}

/// The components of a URI, as UTF-8 bytes.
pub struct UriView {
    pub scheme: Seq<u8>,
    pub authority: Option<Seq<u8>>,
    pub path: Seq<u8>,
    pub query: Option<Seq<u8>>,
    pub fragment: Option<Seq<u8>>,
}

/// The UTF-8 bytes of an optional string.
pub open spec fn opt_bytes(s: Option<String>) -> Option<Seq<u8>> {
    match s {
        Some(x) => Some(utf8(x@)),
        None => None,
    }
}

impl View for Uri {
    type V = UriView;

    closed spec fn view(&self) -> UriView {
        UriView {
            scheme: utf8(self.scheme@),
            authority: opt_bytes(self.authority),
            path: utf8(self.path@),
            query: opt_bytes(self.query),
            fragment: opt_bytes(self.fragment),
        }
    }
}

/* Specification of parsing */

/// Splits off the query (after `?`) and fragment (after `#`) of a reference.
pub open spec fn split_path_query_fragment(s: Seq<u8>) -> (Seq<u8>, Option<Seq<u8>>, Option<Seq<u8>>) {
    let e = find2_or_len(s, 0x3f, 0x23);
    let path = s.subrange(0, e);
    let rest = s.subrange(e, s.len() as int);
    if rest.len() > 0 && rest[0] == 0x3f {
        let r = rest.drop_first();
        match split_once(r, 0x23) {
            Some((q, f)) => (path, Some(q), if f.len() == 0 {
                None
            } else {
                Some(f)
            }),
            None => (path, Some(r), None),
        }
    } else if rest.len() > 0 && rest[0] == 0x23 {
        (path, None, Some(rest.drop_first()))
    } else {
        (path, None, None)
    }
}

/// The URI for `scheme` followed by `//` and `rest`.
pub open spec fn with_authority_spec(scheme: Seq<u8>, rest: Seq<u8>) -> UriView {
    let (auth, remainder) = match split_once(rest, 0x2f) {
        Some((a, r)) => (a, r),
        None => (rest, Seq::<u8>::empty()),
    };
    let (path, query, fragment) = split_path_query_fragment(remainder);
    UriView {
        scheme,
        authority: if auth.len() == 0 {
            None
        } else {
            Some(auth)
        },
        path: if path.len() == 0 {
            path
        } else {
            seq![0x2fu8] + path
        },
        query,
        fragment,
    }
}

/// `//`
pub open spec fn double_slash() -> Seq<u8> {
    seq![0x2fu8, 0x2fu8]
}

/// The components `Uri::parse` finds in `s`.
pub open spec fn parse_spec(s: Seq<u8>) -> UriView {
    if has_prefix(s, double_slash()) {
        with_authority_spec(Seq::empty(), s.subrange(2, s.len() as int))
    } else {
        match split_once(s, 0x3a) {
            Some((scheme, rest)) if has_prefix(rest, double_slash()) => with_authority_spec(
                scheme,
                rest.subrange(2, rest.len() as int),
            ),
            _ => {
                let (path, query, fragment) = split_path_query_fragment(s);
                UriView { scheme: Seq::empty(), authority: None, path, query, fragment }
            },
        }
    }
}

proof fn lemma_double_slash()
    ensures
        "//".spec_bytes() == double_slash(),
{
    reveal_strlit("//");
    lemma_ascii_str("//");
    assert("//".spec_bytes() =~= double_slash());
}

/* Percent-encoding */

/// Bytes left as they are by percent-encoding.
pub open spec fn is_unreserved_spec(b: u8) -> bool {
    (0x41 <= b <= 0x5a) || (0x61 <= b <= 0x7a) || (0x30 <= b <= 0x39) || b == 0x2d || b == 0x2e
        || b == 0x5f || b == 0x7e || b == 0x2f
}

/// The encoding of one byte.
pub open spec fn encode_byte(b: u8) -> Seq<u8> {
    if is_unreserved_spec(b) {
        seq![b]
    } else {
        seq![0x25u8, hex_char_spec((b / 16) as nat), hex_char_spec((b % 16) as nat)]
    }
}

/// Percent-encoding of a byte string.
pub open spec fn encode_spec(s: Seq<u8>) -> Seq<u8>
    decreases s.len(),
{
    if s.len() == 0 {
        s
    } else {
        encode_spec(s.drop_last()) + encode_byte(s.last())
    }
}

/// Value of a hexadecimal digit of a percent-escape.
pub open spec fn hex_value(b: u8) -> Option<u8> {
    if 0x30 <= b <= 0x39 {
        Some((b - 0x30) as u8)
    } else if 0x61 <= b <= 0x66 {
        Some((b - 0x61 + 10) as u8)
    } else if 0x41 <= b <= 0x46 {
        Some((b - 0x41 + 10) as u8)
    } else {
        None
    }
}

/// Percent-decoding of a byte string into bytes.
pub open spec fn decode_bytes_spec(s: Seq<u8>) -> Result<Seq<u8>, UriError>
    decreases s.len(),
{
    if s.len() == 0 {
        Ok(s)
    } else if s[0] == 0x25 {
        if s.len() < 3 {
            Err(UriError::InvalidPercentEncoding)
        } else {
            match (hex_value(s[1]), hex_value(s[2])) {
                (Some(h), Some(l)) => match decode_bytes_spec(s.subrange(3, s.len() as int)) {
                    Ok(rest) => Ok(seq![(h * 16 + l) as u8] + rest),
                    Err(e) => Err(e),
                },
                _ => Err(UriError::InvalidPercentEncoding),
            }
        }
    } else {
        match decode_bytes_spec(s.drop_first()) {
            Ok(rest) => Ok(seq![s[0]] + rest),
            Err(e) => Err(e),
        }
    }
}

/// Percent-decoding of a string: the decoded bytes must form valid UTF-8.
pub open spec fn decode_spec(s: Seq<u8>) -> Result<Seq<u8>, UriError> {
    match decode_bytes_spec(s) {
        Ok(b) => if valid_utf8(b) {
            Ok(b)
        } else {
            Err(UriError::InvalidUtf8)
        },
        Err(e) => Err(e),
    }
}

/// A decoding result related to its specification.
pub open spec fn decoded_as(r: Result<String, UriError>, s: Result<Seq<u8>, UriError>) -> bool {
    match s {
        Ok(b) => r matches Ok(x) && utf8(x@) == b,
        Err(e) => r == Err::<String, UriError>(e),
    }
}

/* Rendering */

/// The text of a URI: `scheme:` (when not empty), `//authority`, path, `?query`, `#fragment`.
pub open spec fn render_spec(u: UriView) -> Seq<u8> {
    (if u.scheme.len() == 0 {
        Seq::<u8>::empty()
    } else {
        u.scheme + seq![0x3au8]
    }) + (match u.authority {
        Some(a) => double_slash() + a,
        None => Seq::<u8>::empty(),
    }) + u.path + (match u.query {
        Some(q) => seq![0x3fu8] + q,
        None => Seq::<u8>::empty(),
    }) + (match u.fragment {
        Some(f) => seq![0x23u8] + f,
        None => Seq::<u8>::empty(),
    })
}

fn opt_owned(s: Option<&str>) -> (r: Option<String>)
    ensures
        opt_bytes(r) == match s {
            Some(x) => Some(x.spec_bytes()),
            None => None::<Seq<u8>>,
        },
{
    match s {
        Some(x) => Some(owned(x)),
        None => None,
    }
}

/// The path, query and fragment of a reference, as `Uri::parse` splits them.
fn split_path_query_fragment_exec(input: &str) -> (r: (&str, Option<&str>, Option<&str>))
    ensures
        ({
            let (p, q, f) = split_path_query_fragment(input.spec_bytes());
            &&& r.0.spec_bytes() == p
            &&& q == match r.1 {
                Some(x) => Some(x.spec_bytes()),
                None => None::<Seq<u8>>,
            }
            &&& f == match r.2 {
                Some(x) => Some(x.spec_bytes()),
                None => None::<Seq<u8>>,
            }
        }),
{
    let b = bytes(input);
    let len = b.len();
    let e = find2(b, 0x3f, 0x23);
    let path = slice_ascii(input, 0, e);
    if e < len && b[e] == 0x3f {
        let r = slice_ascii(input, e + 1, len);
        proof {
            assert(r.spec_bytes() =~= input.spec_bytes().subrange(e as int, len as int).drop_first());
        }
        match split_once_str(r, 0x23) {
            Some((q, f)) => {
                if bytes(f).len() == 0 {
                    (path, Some(q), None)
                } else {
                    (path, Some(q), Some(f))
                }
            },
            None => (path, Some(r), None),
        }
    } else if e < len && b[e] == 0x23 {
        let f = slice_ascii(input, e + 1, len);
        proof {
            assert(f.spec_bytes() =~= input.spec_bytes().subrange(e as int, len as int).drop_first());
        }
        (path, None, Some(f))
    } else {
        (path, None, None)
    }
}

fn parse_with_authority(scheme: &str, rest: &str) -> (r: Uri)
    ensures
        r@ == with_authority_spec(scheme.spec_bytes(), rest.spec_bytes()),
{
    let (auth, remainder) = match split_once_str(rest, 0x2f) {
        Some((a, r)) => (a, r),
        None => {
            let n = bytes(rest).len();
            (rest, slice_ascii(rest, n, n))
        },
    };
    proof {
        if split_once(rest.spec_bytes(), 0x2f) is None {
            assert(remainder.spec_bytes() =~= Seq::<u8>::empty());
        }
    }
    let (path, query, fragment) = split_path_query_fragment_exec(remainder);
    let authority = if bytes(auth).len() == 0 {
        None
    } else {
        Some(owned(auth))
    };
    let displayed_path = if bytes(path).len() == 0 {
        owned(path)
    } else {
        let mut v: Vec<u8> = Vec::new();
        v.push(0x2f);
        push_str(&mut v, path);
        proof {
            assert(v@ =~= seq![0x2fu8] + path.spec_bytes());
            assert(valid_utf8(seq![0x2fu8])) by {
                reveal_with_fuel(valid_utf8, 2);
            }
            valid_utf8_concat(seq![0x2fu8], path.spec_bytes());
        }
        string_of_bytes(v)
    };
    Uri {
        scheme: owned(scheme),
        authority,
        path: displayed_path,
        query: opt_owned(query),
        fragment: opt_owned(fragment),
    }
}

impl Uri {
    /// A URI made of the given components.
    pub fn new(
        scheme: String,
        authority: Option<String>,
        path: String,
        query: Option<String>,
        fragment: Option<String>,
    ) -> (r: Self)
        ensures
            r@ == (UriView {
                scheme: utf8(scheme@),
                authority: opt_bytes(authority),
                path: utf8(path@),
                query: opt_bytes(query),
                fragment: opt_bytes(fragment),
            }),
    {
        Uri { scheme, authority, path, query, fragment }
    }

    /// Parses a URI reference. Every string is a reference, so this never fails.
    pub fn parse(s: &str) -> (r: Result<Self, UriError>)
        ensures
            r matches Ok(u) && u@ == parse_spec(s.spec_bytes()),
    {
        let empty = slice_ascii(s, 0, 0);
        proof {
            assert(empty.spec_bytes() =~= Seq::<u8>::empty());
        }
        match strip_prefix(s, "//") {
            Some(rest) => {
                proof {
                    lemma_double_slash();
                }
                return Ok(parse_with_authority(empty, rest));
            },
            None => {
                proof {
                    lemma_double_slash();
                }
            },
        }
        if let Some((scheme, rest)) = split_once_str(s, 0x3a) {
            if let Some(after) = strip_prefix(rest, "//") {
                return Ok(parse_with_authority(scheme, after));
            }
        }
        let (path, query, fragment) = split_path_query_fragment_exec(s);
        Ok(Uri {
            scheme: owned(empty),
            authority: None,
            path: owned(path),
            query: opt_owned(query),
            fragment: opt_owned(fragment),
        })
    }

    /// The scheme (empty for relative references).
    pub fn scheme(&self) -> (r: &str)
        ensures
            r.spec_bytes() == self@.scheme,
    {
        self.scheme.as_str()
    }

    /// The authority, if any.
    pub fn authority(&self) -> (r: Option<&str>)
        ensures
            match self@.authority {
                Some(a) => r matches Some(x) && x.spec_bytes() == a,
                None => r is None,
            },
    {
        match &self.authority {
            Some(a) => Some(a.as_str()),
            None => None,
        }
    }

    /// The path, as written.
    pub fn path(&self) -> (r: &str)
        ensures
            r.spec_bytes() == self@.path,
    {
        self.path.as_str()
    }

    /// The query, if any, as written.
    pub fn query(&self) -> (r: Option<&str>)
        ensures
            match self@.query {
                Some(a) => r matches Some(x) && x.spec_bytes() == a,
                None => r is None,
            },
    {
        match &self.query {
            Some(a) => Some(a.as_str()),
            None => None,
        }
    }

    /// The fragment, if any, as written.
    pub fn fragment(&self) -> (r: Option<&str>)
        ensures
            match self@.fragment {
                Some(a) => r matches Some(x) && x.spec_bytes() == a,
                None => r is None,
            },
    {
        match &self.fragment {
            Some(a) => Some(a.as_str()),
            None => None,
        }
    }

    /// The path with percent-escapes decoded.
    pub fn decoded_path(&self) -> (r: Result<String, UriError>)
        ensures
            decoded_as(r, decode_spec(self@.path)),
    {
        decode(self.path.as_str())
    }

    /// The query with percent-escapes decoded.
    pub fn decoded_query(&self) -> (r: Result<Option<String>, UriError>)
        ensures
            match self@.query {
                None => r == Ok::<Option<String>, UriError>(None),
                Some(q) => match decode_spec(q) {
                    Ok(b) => r matches Ok(Some(x)) && utf8(x@) == b,
                    Err(e) => r == Err::<Option<String>, UriError>(e),
                },
            },
    {
        match &self.query {
            None => Ok(None),
            Some(q) => match decode(q.as_str()) {
                Ok(x) => Ok(Some(x)),
                Err(e) => Err(e),
            },
        }
    }

    /// The fragment with percent-escapes decoded.
    pub fn decoded_fragment(&self) -> (r: Result<Option<String>, UriError>)
        ensures
            match self@.fragment {
                None => r == Ok::<Option<String>, UriError>(None),
                Some(q) => match decode_spec(q) {
                    Ok(b) => r matches Ok(Some(x)) && utf8(x@) == b,
                    Err(e) => r == Err::<Option<String>, UriError>(e),
                },
            },
    {
        match &self.fragment {
            None => Ok(None),
            Some(q) => match decode(q.as_str()) {
                Ok(x) => Ok(Some(x)),
                Err(e) => Err(e),
            },
        }
    }

    /// Percent-encodes every byte that is not unreserved.
    pub fn encode_component(s: &str) -> (r: String)
        ensures
            utf8(r@) == encode_spec(s.spec_bytes()),
    {
        encode(s)
    }

    /// The same URI with another scheme.
    pub fn with_scheme(self, scheme: String) -> (r: Self)
        ensures
            r@ == (UriView { scheme: utf8(scheme@), ..self@ }),
    {
        let mut u = self;
        u.scheme = scheme;
        u
    }

    /// The same URI with another authority.
    pub fn with_authority(self, authority: Option<String>) -> (r: Self)
        ensures
            r@ == (UriView { authority: opt_bytes(authority), ..self@ }),
    {
        let mut u = self;
        u.authority = authority;
        u
    }

    /// The same URI with another path.
    pub fn with_path(self, path: String) -> (r: Self)
        ensures
            r@ == (UriView { path: utf8(path@), ..self@ }),
    {
        let mut u = self;
        u.path = path;
        u
    }

    /// The same URI with another query.
    pub fn with_query(self, query: Option<String>) -> (r: Self)
        ensures
            r@ == (UriView { query: opt_bytes(query), ..self@ }),
    {
        let mut u = self;
        u.query = query;
        u
    }

    /// The same URI with another fragment.
    pub fn with_fragment(self, fragment: Option<String>) -> (r: Self)
        ensures
            r@ == (UriView { fragment: opt_bytes(fragment), ..self@ }),
    {
        let mut u = self;
        u.fragment = fragment;
        u
    }

    /// The text of the URI.
    pub fn to_string(&self) -> (r: String)
        ensures
            utf8(r@) == render_spec(self@),
    {
        let mut v: Vec<u8> = Vec::new();
        if self.scheme.as_str().as_bytes().len() != 0 {
            push_str(&mut v, self.scheme.as_str());
            v.push(0x3a);
        }
        let ghost a = v@;
        match &self.authority {
            Some(auth) => {
                v.push(0x2f);
                v.push(0x2f);
                push_str(&mut v, auth.as_str());
            },
            None => {},
        }
        let ghost b = v@;
        push_str(&mut v, self.path.as_str());
        let ghost c = v@;
        match &self.query {
            Some(q) => {
                v.push(0x3f);
                push_str(&mut v, q.as_str());
            },
            None => {},
        }
        let ghost d = v@;
        match &self.fragment {
            Some(f) => {
                v.push(0x23);
                push_str(&mut v, f.as_str());
            },
            None => {},
        }
        proof {
            let u = self@;
            assert(a =~= (if u.scheme.len() == 0 {
                Seq::<u8>::empty()
            } else {
                u.scheme + seq![0x3au8]
            }));
            assert(b =~= a + match u.authority {
                Some(x) => double_slash() + x,
                None => Seq::<u8>::empty(),
            });
            assert(c =~= b + u.path);
            assert(d =~= c + match u.query {
                Some(q) => seq![0x3fu8] + q,
                None => Seq::<u8>::empty(),
            });
            assert(v@ =~= d + match u.fragment {
                Some(f) => seq![0x23u8] + f,
                None => Seq::<u8>::empty(),
            });
            assert(v@ =~= render_spec(self@));
            lemma_render_valid(self@);
        }
        string_of_bytes(v)
    }
}

/// Rendering joins valid pieces with ASCII separators, so it is valid UTF-8.
proof fn lemma_render_valid(u: UriView)
    requires
        valid_utf8(u.scheme),
        valid_utf8(u.path),
        u.authority matches Some(a) ==> valid_utf8(a),
        u.query matches Some(a) ==> valid_utf8(a),
        u.fragment matches Some(a) ==> valid_utf8(a),
    ensures
        valid_utf8(render_spec(u)),
{
    lemma_ascii_valid(seq![0x3au8]);
    lemma_ascii_valid(double_slash());
    lemma_ascii_valid(seq![0x3fu8]);
    lemma_ascii_valid(seq![0x23u8]);
    let a = if u.scheme.len() == 0 {
        Seq::<u8>::empty()
    } else {
        u.scheme + seq![0x3au8]
    };
    let b = match u.authority {
        Some(x) => double_slash() + x,
        None => Seq::<u8>::empty(),
    };
    let c = match u.query {
        Some(q) => seq![0x3fu8] + q,
        None => Seq::<u8>::empty(),
    };
    let d = match u.fragment {
        Some(f) => seq![0x23u8] + f,
        None => Seq::<u8>::empty(),
    };
    assert(valid_utf8(Seq::<u8>::empty()));
    assert(valid_utf8(a));
    assert(valid_utf8(b));
    assert(valid_utf8(c));
    assert(valid_utf8(d));
    assert(valid_utf8(a + b));
    assert(valid_utf8(a + b + u.path));
    assert(valid_utf8(a + b + u.path + c));
    assert(valid_utf8(a + b + u.path + c + d));
}

/// Whether `b` is left as it is by percent-encoding.
pub fn is_unreserved(b: u8) -> (r: bool)
    ensures
        r == is_unreserved_spec(b),
{
    (0x41 <= b && b <= 0x5a) || (0x61 <= b && b <= 0x7a) || (0x30 <= b && b <= 0x39) || b == 0x2d
        || b == 0x2e || b == 0x5f || b == 0x7e || b == 0x2f
}

/// Percent-encodes every byte of `input` that is not unreserved.
pub fn encode(input: &str) -> (r: String)
    ensures
        utf8(r@) == encode_spec(input.spec_bytes()),
{
    let b = bytes(input);
    let mut out: Vec<u8> = Vec::new();
    let mut i: usize = 0;
    while i < b.len()
        invariant
            i <= b.len(),
            out@ == encode_spec(b@.subrange(0, i as int)),
            forall|k: int| 0 <= k < out@.len() ==> out@[k] < 0x80,
        decreases b.len() - i,
    {
        let c = b[i];
        let ghost before = out@;
        if is_unreserved(c) {
            out.push(c);
        } else {
            out.push(0x25);
            out.push(hex_char(c / 16));
            out.push(hex_char(c % 16));
        }
        proof {
            let p = b@.subrange(0, i + 1);
            assert(p.drop_last() =~= b@.subrange(0, i as int));
            assert(out@ =~= before + encode_byte(c));
        }
        i = i + 1;
    }
    proof {
        assert(b@.subrange(0, b@.len() as int) =~= b@);
        lemma_ascii_valid(out@);
    }
    string_of_bytes(out)
}

/// ASCII bytes are valid UTF-8.
pub proof fn lemma_ascii_valid(s: Seq<u8>)
    requires
        forall|k: int| 0 <= k < s.len() ==> s[k] < 0x80,
    ensures
        valid_utf8(s),
{
    assert(s.subrange(0, 0) =~= Seq::<u8>::empty());
    partial_valid_utf8_extend_ascii_block(s, 0, s.len() as int);
    assert(s.subrange(0, s.len() as int) =~= s);
}

/// Value of a hexadecimal digit.
pub fn hex_to_int(b: u8) -> (r: Result<u8, UriError>)
    ensures
        match hex_value(b) {
            Some(v) => r == Ok::<u8, UriError>(v),
            None => r == Err::<u8, UriError>(UriError::InvalidPercentEncoding),
        },
{
    if 0x30 <= b && b <= 0x39 {
        Ok(b - 0x30)
    } else if 0x61 <= b && b <= 0x66 {
        Ok(b - 0x61 + 10)
    } else if 0x41 <= b && b <= 0x46 {
        Ok(b - 0x41 + 10)
    } else {
        Err(UriError::InvalidPercentEncoding)
    }
}

/// Decodes the percent-escapes of `input`.
pub fn decode(input: &str) -> (r: Result<String, UriError>)
    ensures
        decoded_as(r, decode_spec(input.spec_bytes())),
{
    let b = bytes(input);
    let mut out: Vec<u8> = Vec::new();
    let mut i: usize = 0;
    proof {
        assert(b@.subrange(0, b@.len() as int) =~= b@);
        match decode_bytes_spec(b@) {
            Ok(x) => assert(out@ + x =~= x),
            Err(_) => {},
        }
    }
    while i < b.len()
        invariant
            i <= b.len(),
            b@ == input.spec_bytes(),
            decode_bytes_spec(b@) == match decode_bytes_spec(b@.subrange(i as int, b@.len() as int)) {
                Ok(rest) => Ok(out@ + rest),
                Err(e) => Err::<Seq<u8>, UriError>(e),
            },
        decreases b.len() - i,
    {
        let ghost t = b@.subrange(i as int, b@.len() as int);
        let c = b[i];
        assert(t[0] == c);
        if c == 0x25 {
            if b.len() - i < 3 {
                return Err(UriError::InvalidPercentEncoding);
            }
            let high = match hex_to_int(b[i + 1]) {
                Ok(h) => h,
                Err(e) => {
                    return Err(e);
                },
            };
            let low = match hex_to_int(b[i + 2]) {
                Ok(l) => l,
                Err(e) => {
                    return Err(e);
                },
            };
            proof {
                assert(t[1] == b@[i + 1]);
                assert(t[2] == b@[i + 2]);
                assert(t.subrange(3, t.len() as int) =~= b@.subrange(i + 3, b@.len() as int));
                assert(decode_bytes_spec(t) == match decode_bytes_spec(b@.subrange(i + 3, b@.len() as int)) {
                    Ok(rest) => Ok(seq![(high * 16 + low) as u8] + rest),
                    Err(e) => Err::<Seq<u8>, UriError>(e),
                });
            }
            let ghost o = out@;
            let x: u8 = high * 16 + low;
            out.push(x);
            proof {
                assert(x == (high * 16 + low) as u8);
                match decode_bytes_spec(b@.subrange(i + 3, b@.len() as int)) {
                    Ok(rest) => {
                        assert(decode_bytes_spec(t) == Ok::<Seq<u8>, UriError>(seq![x] + rest));
                        assert(o + (seq![x] + rest) =~= out@ + rest);
                    },
                    Err(e) => {
                        assert(decode_bytes_spec(t) == Err::<Seq<u8>, UriError>(e));
                    },
                }
            }
            i = i + 3;
        } else {
            proof {
                assert(t.drop_first() =~= b@.subrange(i + 1, b@.len() as int));
                assert(decode_bytes_spec(t) == match decode_bytes_spec(b@.subrange(i + 1, b@.len() as int)) {
                    Ok(rest) => Ok(seq![c] + rest),
                    Err(e) => Err::<Seq<u8>, UriError>(e),
                });
            }
            let ghost o = out@;
            out.push(c);
            proof {
                match decode_bytes_spec(b@.subrange(i + 1, b@.len() as int)) {
                    Ok(rest) => {
                        assert(decode_bytes_spec(t) == Ok::<Seq<u8>, UriError>(seq![c] + rest));
                        assert(o + (seq![c] + rest) =~= out@ + rest);
                    },
                    Err(e) => {
                        assert(decode_bytes_spec(t) == Err::<Seq<u8>, UriError>(e));
                    },
                }
            }
            i = i + 1;
        }
    }
    proof {
        assert(b@.subrange(i as int, b@.len() as int) =~= Seq::<u8>::empty());
        assert(out@ + Seq::<u8>::empty() =~= out@);
    }
    match string_from_utf8(out) {
        Some(s) => {
            proof {
                decode_utf8_encode_utf8(decode_bytes_spec(b@)->Ok_0);
            }
            Ok(s)
        },
        None => Err(UriError::InvalidUtf8),
    }
}

} // verus!

verus! {

/* Laws */

proof fn lemma_encode_concat(x: Seq<u8>, y: Seq<u8>)
    ensures
        encode_spec(x + y) == encode_spec(x) + encode_spec(y),
    decreases y.len(),
{
    if y.len() == 0 {
        assert(x + y =~= x);
        assert(encode_spec(x) + encode_spec(y) =~= encode_spec(x));
    } else {
        assert((x + y).drop_last() =~= x + y.drop_last());
        assert((x + y).last() == y.last());
        lemma_encode_concat(x, y.drop_last());
        assert(encode_spec(x + y) =~= encode_spec(x) + encode_spec(y));
    }
}

proof fn lemma_hex_value_of_char(v: nat)
    requires
        v < 16,
    ensures
        hex_value(hex_char_spec(v)) == Some(v as u8),
{
}

proof fn lemma_decode_encoded_byte(b: u8, rest: Seq<u8>)
    ensures
        decode_bytes_spec(encode_byte(b) + rest) == match decode_bytes_spec(rest) {
            Ok(r) => Ok(seq![b] + r),
            Err(e) => Err::<Seq<u8>, UriError>(e),
        },
{
    let s = encode_byte(b) + rest;
    if is_unreserved_spec(b) {
        assert(s[0] == b);
        assert(s.drop_first() =~= rest);
    } else {
        lemma_hex_value_of_char((b / 16) as nat);
        lemma_hex_value_of_char((b % 16) as nat);
        assert(s[0] == 0x25);
        assert(s[1] == hex_char_spec((b / 16) as nat));
        assert(s[2] == hex_char_spec((b % 16) as nat));
        assert(s.subrange(3, s.len() as int) =~= rest);
        assert((b / 16) * 16 + b % 16 == b) by (nonlinear_arith);
    }
}

proof fn lemma_decode_encode_bytes(s: Seq<u8>)
    ensures
        decode_bytes_spec(encode_spec(s)) == Ok::<Seq<u8>, UriError>(s),
    decreases s.len(),
{
    if s.len() > 0 {
        let head = seq![s[0]];
        let tail = s.drop_first();
        assert(s =~= head + tail);
        lemma_encode_concat(head, tail);
        assert(head.drop_last() =~= Seq::<u8>::empty());
        assert(encode_spec(head.drop_last()) =~= Seq::<u8>::empty());
        assert(head.last() == s[0]);
        assert(encode_spec(head) == encode_spec(head.drop_last()) + encode_byte(head.last()));
        assert(encode_spec(head) =~= encode_byte(s[0]));
        lemma_decode_encode_bytes(tail);
        lemma_decode_encoded_byte(s[0], encode_spec(tail));
        assert(seq![s[0]] + tail =~= s);
    } else {
        assert(encode_spec(s) =~= s);
    }
}

/// Percent-decoding undoes percent-encoding: for every string `s`,
/// `decode(&encode(s))` gives `s` back.
pub proof fn law_decode_inverts_encode(s: Seq<char>)
    ensures
        decode_spec(encode_spec(utf8(s))) == Ok::<Seq<u8>, UriError>(utf8(s)),
{
    lemma_decode_encode_bytes(utf8(s));
    encode_utf8_valid_utf8(s);
}


impl std::str::FromStr for Uri {
    type Err = UriError;

    fn from_str(s: &str) -> (r: Result<Self, Self::Err>)
        ensures
            r matches Ok(u) && u@ == parse_spec(s.spec_bytes()),
    {
        Uri::parse(s)
    }
}

} // verus!
