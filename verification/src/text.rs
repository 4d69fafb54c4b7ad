//! Byte-level text utilities over UTF-8 strings.
//!
//! Every string is modelled by its UTF-8 bytes (`s.spec_bytes()` for a `str`,
//! `utf8(s@)` for a `String`). All delimiters used by the playlist grammar are
//! ASCII bytes, so cutting at a delimiter always yields well-formed strings.
use vstd::prelude::*;
use vstd::string::*;
use vstd::utf8::*;

verus! {

broadcast use vstd::utf8::group_utf8_lib;

/// The UTF-8 bytes of a character sequence.
pub open spec fn utf8(s: Seq<char>) -> Seq<u8> {
    encode_utf8(s)
}

/// Whether `p` is a prefix of `s`.
pub open spec fn has_prefix(s: Seq<u8>, p: Seq<u8>) -> bool {
    p.len() <= s.len() && s.subrange(0, p.len() as int) == p
}

/// Whether byte `c` occurs in `s`.
pub open spec fn contains_byte(s: Seq<u8>, c: u8) -> bool {
    exists|i: int| 0 <= i < s.len() && s[i] == c
}

/// `i` is the position of the first occurrence of `c` in `s`.
pub open spec fn first_at(s: Seq<u8>, c: u8, i: int) -> bool {
    &&& 0 <= i < s.len()
    &&& s[i] == c
    &&& forall|j: int| 0 <= j < i ==> s[j] != c
}

/// Position of the first occurrence of `c` in `s`, if any.
pub open spec fn find(s: Seq<u8>, c: u8) -> Option<int> {
    if exists|i: int| first_at(s, c, i) {
        Some(choose|i: int| first_at(s, c, i))
    } else {
        None
    }
}

/// Splits `s` around the first occurrence of `c`.
pub open spec fn split_once(s: Seq<u8>, c: u8) -> Option<(Seq<u8>, Seq<u8>)> {
    match find(s, c) {
        Some(i) => Some((s.subrange(0, i), s.subrange(i + 1, s.len() as int))),
        None => None,
    }
}

/// All pieces of `s` between occurrences of `c` (never empty; like `str::split`).
pub open spec fn split(s: Seq<u8>, c: u8) -> Seq<Seq<u8>>
    decreases s.len(),
{
    if exists|i: int| first_at(s, c, i) {
        let i = choose|i: int| first_at(s, c, i);
        seq![s.subrange(0, i)] + split(s.subrange(i + 1, s.len() as int), c)
    } else {
        seq![s]
    }
}

/// A split has at least one piece.
pub proof fn lemma_split_nonempty(s: Seq<u8>, c: u8)
    ensures
        split(s, c).len() >= 1,
{
}

/// At most `n` pieces of `s` between occurrences of `c` (like `str::splitn`).
pub open spec fn splitn(s: Seq<u8>, c: u8, n: nat) -> Seq<Seq<u8>>
    decreases n,
{
    if n == 0 {
        seq![]
    } else if n == 1 {
        seq![s]
    } else {
        match split_once(s, c) {
            Some((a, b)) => seq![a] + splitn(b, c, (n - 1) as nat),
            None => seq![s],
        }
    }
}

/// `i` is the first position holding `a` or `b`.
pub open spec fn first_of2(s: Seq<u8>, a: u8, b: u8, i: int) -> bool {
    &&& 0 <= i < s.len()
    &&& (s[i] == a || s[i] == b)
    &&& forall|j: int| 0 <= j < i ==> s[j] != a && s[j] != b
}

/// Position of the first `a` or `b` in `s`, or the length of `s` when there is none.
pub open spec fn find2_or_len(s: Seq<u8>, a: u8, b: u8) -> int {
    if exists|i: int| first_of2(s, a, b, i) {
        choose|i: int| first_of2(s, a, b, i)
    } else {
        s.len() as int
    }
}

/// Position of the first `a` or `b` in `s`, or its length.
pub fn find2(s: &[u8], a: u8, b: u8) -> (r: usize)
    ensures
        r == find2_or_len(s@, a, b),
        r <= s.len(),
        r < s.len() ==> (s@[r as int] == a || s@[r as int] == b),
{
    let mut i: usize = 0;
    while i < s.len()
        invariant
            i <= s.len(),
            forall|j: int| 0 <= j < i ==> s@[j] != a && s@[j] != b,
        decreases s.len() - i,
    {
        if s[i] == a || s[i] == b {
            proof {
                assert(first_of2(s@, a, b, i as int));
                let k = choose|k: int| first_of2(s@, a, b, k);
                if k < i {
                    assert(s@[k] != a && s@[k] != b);
                }
                if i < k {
                    assert(s@[i as int] != a && s@[i as int] != b);
                }
            }
            return i;
        }
        i = i + 1;
    }
    proof {
        assert(!exists|k: int| first_of2(s@, a, b, k));
    }
    i
}

pub proof fn lemma_find_some(s: Seq<u8>, c: u8, i: int)
    requires
        first_at(s, c, i),
    ensures
        find(s, c) == Some(i),
{
    let j = choose|j: int| first_at(s, c, j);
    assert(first_at(s, c, j));
    if j < i {
        assert(s[j] != c);
    }
    if i < j {
        assert(s[i] != c);
    }
}

pub proof fn lemma_find_none(s: Seq<u8>, c: u8)
    requires
        forall|j: int| 0 <= j < s.len() ==> s[j] != c,
    ensures
        find(s, c) == None::<int>,
{
}

/* Character boundaries */

/// Shifting a boundary question into a suffix that starts at a boundary.
pub proof fn lemma_boundary_shift(b: Seq<u8>, i: int, k: int)
    requires
        valid_utf8(b),
        is_char_boundary(b, i),
        0 <= i <= k <= b.len(),
    ensures
        is_char_boundary(b, k) <==> is_char_boundary(b.subrange(i, b.len() as int), k - i),
    decreases b.len(),
{
    if i == 0 {
        assert(b.subrange(0, b.len() as int) =~= b);
    } else {
        let w = length_of_first_scalar(b);
        let p = pop_first_scalar(b);
        assert(is_char_boundary(p, i - w));
        assert(i - w >= 0);
        lemma_boundary_shift(p, i - w, k - w);
        assert(p.subrange(i - w, p.len() as int) =~= b.subrange(i, b.len() as int));
    }
}

/// The end of a valid prefix is a character boundary.
pub proof fn lemma_boundary_after_valid_prefix(x: Seq<u8>, y: Seq<u8>)
    requires
        valid_utf8(x),
        valid_utf8(x + y),
    ensures
        is_char_boundary(x + y, x.len() as int),
    decreases x.len(),
{
    if x.len() > 0 {
        let b = x + y;
        let px = pop_first_scalar(x);
        assert(b[0] == x[0]);
        assert(pop_first_scalar(b) =~= px + y);
        lemma_boundary_after_valid_prefix(px, y);
    }
}

/// A position holding an ASCII byte, or the end, is a character boundary.
pub proof fn lemma_boundary_at_ascii(b: Seq<u8>, i: int)
    requires
        valid_utf8(b),
        0 <= i <= b.len(),
        i == b.len() || b[i] < 0x80,
    ensures
        is_char_boundary(b, i),
{
    is_char_boundary_start_end_of_seq(b);
    if i < b.len() {
        is_char_boundary_iff_is_leading_byte(b, i);
    }
}

/// The position right after an ASCII byte is a character boundary.
pub proof fn lemma_boundary_after_ascii(b: Seq<u8>, i: int)
    requires
        valid_utf8(b),
        0 < i <= b.len(),
        b[i - 1] < 0x80,
    ensures
        is_char_boundary(b, i),
{
    lemma_boundary_at_ascii(b, i - 1);
    valid_utf8_split(b, i - 1);
    let s = b.subrange(i - 1, b.len() as int);
    assert(s[0] == b[i - 1]);
    assert(is_char_boundary(pop_first_scalar(s), 0));
    assert(is_char_boundary(s, 1));
    lemma_boundary_shift(b, i - 1, i);
}

/// The bytes of an ASCII string are its characters.
pub proof fn lemma_ascii_str(s: &str)
    requires
        is_ascii_chars(s@),
    ensures
        s.spec_bytes().len() == s@.len(),
        forall|i: int| 0 <= i < s@.len() ==> #[trigger] s.spec_bytes()[i] == s@[i] as u8,
{
    is_ascii_chars_encode_utf8(s@);
}

pub proof fn lemma_str_valid(s: &str)
    ensures
        valid_utf8(s.spec_bytes()),
{
    encode_utf8_valid_utf8(s@);
}

/* Exec helpers */

/// Bytes of a string slice, with their validity.
pub fn bytes(s: &str) -> (r: &[u8])
    ensures
        r@ == s.spec_bytes(),
        valid_utf8(r@),
{
    proof {
        lemma_str_valid(s);
    }
    s.as_bytes()
}

/// The piece of `s` between two character boundaries.
pub fn slice(s: &str, start: usize, end: usize) -> (r: &str)
    requires
        start <= end <= s.spec_bytes().len(),
        is_char_boundary(s.spec_bytes(), start as int),
        is_char_boundary(s.spec_bytes(), end as int),
    ensures
        r.spec_bytes() == s.spec_bytes().subrange(start as int, end as int),
{
    proof {
        lemma_str_valid(s);
        lemma_boundary_shift(s.spec_bytes(), start as int, end as int);
    }
    let (_, tail) = s.split_at(start);
    let (mid, _) = tail.split_at(end - start);
    proof {
        assert(mid.spec_bytes() =~= s.spec_bytes().subrange(start as int, end as int));
    }
    mid
}

/// The piece of `s` between two cuts at ASCII positions.
pub fn slice_ascii(s: &str, start: usize, end: usize) -> (r: &str)
    requires
        start <= end <= s.spec_bytes().len(),
        start == 0 || start == s.spec_bytes().len() || s.spec_bytes()[start - 1] < 0x80
            || s.spec_bytes()[start as int] < 0x80,
        end == 0 || end == s.spec_bytes().len() || s.spec_bytes()[end as int] < 0x80
            || s.spec_bytes()[end - 1] < 0x80,
    ensures
        r.spec_bytes() == s.spec_bytes().subrange(start as int, end as int),
{
    proof {
        let b = s.spec_bytes();
        lemma_str_valid(s);
        is_char_boundary_start_end_of_seq(b);
        if 0 < start < b.len() && b[start - 1] < 0x80 {
            lemma_boundary_after_ascii(b, start as int);
        } else if 0 < start < b.len() {
            lemma_boundary_at_ascii(b, start as int);
        }
        if 0 < end < b.len() && b[end as int] < 0x80 {
            lemma_boundary_at_ascii(b, end as int);
        } else if 0 < end < b.len() {
            lemma_boundary_after_ascii(b, end as int);
        }
    }
    slice(s, start, end)
}

/// First position at or after `from` holding byte `c`.
pub fn find_from(s: &[u8], c: u8, from: usize) -> (r: Option<usize>)
    requires
        from <= s.len(),
    ensures
        match r {
            Some(i) => from <= i < s.len() && s@[i as int] == c && forall|j: int|
                from <= j < i ==> s@[j] != c,
            None => forall|j: int| from <= j < s.len() ==> s@[j] != c,
        },
{
    let mut i: usize = from;
    while i < s.len()
        invariant
            from <= i <= s.len(),
            forall|j: int| from <= j < i ==> s@[j] != c,
        decreases s.len() - i,
    {
        if s[i] == c {
            return Some(i);
        }
        i = i + 1;
    }
    None
}

/// Whether `s` contains byte `c`.
pub fn has_byte(s: &str, c: u8) -> (r: bool)
    ensures
        r == contains_byte(s.spec_bytes(), c),
{
    let b = bytes(s);
    match find_from(b, c, 0) {
        Some(_) => true,
        None => false,
    }
}

/// Position of the first `c` in `s`.
pub fn find_byte(s: &str, c: u8) -> (r: Option<usize>)
    ensures
        r matches Some(i) ==> find(s.spec_bytes(), c) == Some(i as int),
        r is None ==> find(s.spec_bytes(), c) is None,
{
    let b = bytes(s);
    let r = find_from(b, c, 0);
    proof {
        match r {
            Some(i) => lemma_find_some(b@, c, i as int),
            None => lemma_find_none(b@, c),
        }
    }
    r
}

/// Splits `s` around its first ASCII byte `c`.
pub fn split_once_str<'a>(s: &'a str, c: u8) -> (r: Option<(&'a str, &'a str)>)
    requires
        c < 0x80,
    ensures
        match split_once(s.spec_bytes(), c) {
            Some((x, y)) => r matches Some((a, b)) && a.spec_bytes() == x && b.spec_bytes() == y,
            None => r is None,
        },
{
    let len = bytes(s).len();
    match find_byte(s, c) {
        Some(i) => {
            let a = slice_ascii(s, 0, i);
            let b = slice_ascii(s, i + 1, len);
            Some((a, b))
        },
        None => None,
    }
}

/// Splits `s` around every ASCII byte `c`.
pub fn split_str<'a>(s: &'a str, c: u8) -> (r: Vec<&'a str>)
    requires
        c < 0x80,
    ensures
        r@.len() == split(s.spec_bytes(), c).len(),
        forall|k: int| 0 <= k < r@.len() ==> #[trigger] r@[k].spec_bytes() == split(s.spec_bytes(), c)[k],
{
    let b = bytes(s);
    let len = b.len();
    let ghost sb = s.spec_bytes();
    let mut parts: Vec<&'a str> = Vec::new();
    let mut start: usize = 0;
    let ghost mut done: Seq<Seq<u8>> = seq![];
    proof {
        assert(sb.subrange(0, len as int) =~= sb);
    }
    loop
        invariant
            b@ == sb,
            sb == s.spec_bytes(),
            len == sb.len(),
            start <= len,
            start == 0 || sb[start - 1] == c,
            c < 0x80,
            parts@.len() == done.len(),
            forall|k: int| 0 <= k < parts@.len() ==> #[trigger] parts@[k].spec_bytes() == done[k],
            split(sb, c) == done + split(sb.subrange(start as int, len as int), c),
        decreases len - start,
    {
        let ghost t = sb.subrange(start as int, len as int);
        match find_from(b, c, start) {
            Some(i) => {
                let piece = slice_ascii(s, start, i);
                proof {
                    assert(first_at(t, c, i - start));
                    let j = choose|j: int| first_at(t, c, j);
                    lemma_find_some(t, c, i - start);
                    assert(t.subrange(0, i - start) =~= sb.subrange(start as int, i as int));
                    assert(t.subrange(i - start + 1, t.len() as int) =~= sb.subrange(
                        i + 1,
                        len as int,
                    ));
                    assert(split(sb, c) == (done + seq![piece.spec_bytes()]) + split(
                        sb.subrange(i + 1, len as int),
                        c,
                    ));
                    done = done + seq![piece.spec_bytes()];
                }
                parts.push(piece);
                start = i + 1;
            },
            None => {
                let piece = slice_ascii(s, start, len);
                proof {
                    assert(!exists|j: int| first_at(t, c, j));
                    assert(split(t, c) == seq![t]);
                    done = done + seq![piece.spec_bytes()];
                }
                parts.push(piece);
                proof {
                    assert(split(sb, c) =~= done);
                }
                return parts;
            },
        }
    }
}

/// Whether `p` is a prefix of `s`.
pub fn starts_with(s: &str, p: &str) -> (r: bool)
    ensures
        r == has_prefix(s.spec_bytes(), p.spec_bytes()),
{
    let a = bytes(s);
    let b = bytes(p);
    if b.len() > a.len() {
        return false;
    }
    let mut i: usize = 0;
    while i < b.len()
        invariant
            a@ == s.spec_bytes(),
            b@ == p.spec_bytes(),
            b.len() <= a.len(),
            i <= b.len(),
            forall|j: int| 0 <= j < i ==> a@[j] == b@[j],
        decreases b.len() - i,
    {
        if a[i] != b[i] {
            proof {
                let sub = a@.subrange(0, b@.len() as int);
                assert(sub[i as int] == a@[i as int]);
                assert(sub != b@);
            }
            return false;
        }
        i = i + 1;
    }
    proof {
        assert(a@.subrange(0, b@.len() as int) =~= b@);
    }
    true
}

/// Whether two strings are equal.
pub fn str_eq(s: &str, p: &str) -> (r: bool)
    ensures
        r == (s.spec_bytes() == p.spec_bytes()),
        r == (s@ == p@),
{
    let a = bytes(s);
    let b = bytes(p);
    proof {
        encode_utf8_decode_utf8(s@);
        encode_utf8_decode_utf8(p@);
    }
    if a.len() != b.len() {
        proof {
            assert(a@ != b@);
        }
        return false;
    }
    let r = starts_with(s, p);
    proof {
        assert(a@ =~= a@.subrange(0, b@.len() as int));
        if r {
            assert(a@ == b@);
        } else {
            assert(a@ != b@);
        }
    }
    r
}

/// The part of `s` after the prefix `p`, if `s` starts with `p`.
pub fn strip_prefix<'a>(s: &'a str, p: &str) -> (r: Option<&'a str>)
    ensures
        has_prefix(s.spec_bytes(), p.spec_bytes()) <==> r is Some,
        r matches Some(t) ==> t.spec_bytes() == s.spec_bytes().subrange(
            p.spec_bytes().len() as int,
            s.spec_bytes().len() as int,
        ),
{
    if !starts_with(s, p) {
        return None;
    }
    let n = bytes(p).len();
    let len = bytes(s).len();
    proof {
        let sb = s.spec_bytes();
        lemma_str_valid(s);
        lemma_str_valid(p);
        assert(sb =~= sb.subrange(0, n as int) + sb.subrange(n as int, len as int));
        lemma_boundary_after_valid_prefix(sb.subrange(0, n as int), sb.subrange(n as int, len as int));
        is_char_boundary_start_end_of_seq(sb);
    }
    Some(slice(s, n, len))
}

/// An owned copy of `s`.
pub fn owned(s: &str) -> (r: String)
    ensures
        r@ == s@,
        utf8(r@) == s.spec_bytes(),
{
    s.to_owned()
}

/// `String::from_utf8`: succeeds exactly on valid UTF-8 and then holds the decoded characters.
#[verifier::external_body]
pub(crate) fn string_from_utf8(v: Vec<u8>) -> (r: Option<String>)
    ensures
        r is Some <==> valid_utf8(v@),
        r matches Some(s) ==> s@ == decode_utf8(v@),
{
    String::from_utf8(v).ok()
}

/// A string holding exactly the given valid UTF-8 bytes.
pub fn string_of_bytes(v: Vec<u8>) -> (r: String)
    requires
        valid_utf8(v@),
    ensures
        utf8(r@) == v@,
{
    let ghost bs = v@;
    match string_from_utf8(v) {
        Some(s) => {
            proof {
                decode_utf8_encode_utf8(bs);
            }
            s
        },
        None => {
            proof {
                assert(false);
            }
            String::new()
        },
    }
}

/// The text of `a` followed by the text of `b`.
pub fn concat_str(a: &str, b: &str) -> (r: String)
    ensures
        utf8(r@) == a.spec_bytes() + b.spec_bytes(),
{
    let mut v: Vec<u8> = Vec::new();
    push_str(&mut v, a);
    push_str(&mut v, b);
    proof {
        lemma_str_valid(a);
        lemma_str_valid(b);
        valid_utf8_concat(a.spec_bytes(), b.spec_bytes());
        assert(v@ =~= a.spec_bytes() + b.spec_bytes());
    }
    string_of_bytes(v)
}

/// Appends the bytes of `s` to `out`.
pub fn push_str(out: &mut Vec<u8>, s: &str)
    ensures
        final(out)@ == old(out)@ + s.spec_bytes(),
{
    let b = bytes(s);
    let mut i: usize = 0;
    while i < b.len()
        invariant
            i <= b.len(),
            out@ == old(out)@ + b@.subrange(0, i as int),
        decreases b.len() - i,
    {
        out.push(b[i]);
        i = i + 1;
        proof {
            assert(b@.subrange(0, i as int) =~= b@.subrange(0, i - 1) + seq![b@[i - 1]]);
        }
    }
    proof {
        assert(b@.subrange(0, b@.len() as int) =~= b@);
    }
}

} // verus!

verus! {

/* Unicode whitespace (the `White_Space` property, as `char::is_whitespace`) */

/// The three-byte encodings of whitespace: U+1680, U+2000..U+200A, U+2028, U+2029,
/// U+202F, U+205F and U+3000.
pub open spec fn ws3(a: u8, b: u8, c: u8) -> bool {
    (a == 0xe1 && b == 0x9a && c == 0x80) || (a == 0xe2 && b == 0x80 && ((0x80 <= c <= 0x8a)
        || c == 0xa8 || c == 0xa9 || c == 0xaf)) || (a == 0xe2 && b == 0x81 && c == 0x9f) || (a
        == 0xe3 && b == 0x80 && c == 0x80)
}

/// The one-byte whitespace characters: tab, line feed, vertical tab, form feed, carriage return, space.
pub open spec fn ws1(a: u8) -> bool {
    (0x09 <= a <= 0x0d) || a == 0x20
}

/// The two-byte encodings of whitespace: U+0085 and U+00A0.
pub open spec fn ws2(a: u8, b: u8) -> bool {
    a == 0xc2 && (b == 0x85 || b == 0xa0)
}

/// Length of the whitespace character starting at `i`, or 0.
pub open spec fn ws_len_at(s: Seq<u8>, i: int) -> int {
    if 0 <= i < s.len() && ws1(s[i]) {
        1
    } else if 0 <= i && i + 1 < s.len() && ws2(s[i], s[i + 1]) {
        2
    } else if 0 <= i && i + 2 < s.len() && ws3(s[i], s[i + 1], s[i + 2]) {
        3
    } else {
        0
    }
}

/// Length of the whitespace character ending right before `j`, or 0.
pub open spec fn ws_len_before(s: Seq<u8>, j: int) -> int {
    if 1 <= j <= s.len() && ws1(s[j - 1]) {
        1
    } else if 2 <= j <= s.len() && ws2(s[j - 2], s[j - 1]) {
        2
    } else if 3 <= j <= s.len() && ws3(s[j - 3], s[j - 2], s[j - 1]) {
        3
    } else {
        0
    }
}

/// Whether `s` holds a whitespace character.
pub open spec fn contains_ws(s: Seq<u8>) -> bool {
    exists|i: int| 0 <= i < s.len() && ws_len_at(s, i) > 0
}

/// First position at or after `i` that does not start a whitespace character.
pub open spec fn skip_ws(s: Seq<u8>, i: int) -> int
    decreases s.len() - i,
{
    if 0 <= i < s.len() && ws_len_at(s, i) > 0 {
        skip_ws(s, i + ws_len_at(s, i))
    } else {
        i
    }
}

/// Last position at or before `j`, not before `lo`, that does not end a whitespace character.
pub open spec fn back_ws(s: Seq<u8>, lo: int, j: int) -> int
    decreases j,
{
    if lo < j && ws_len_before(s, j) > 0 && j - ws_len_before(s, j) >= lo {
        back_ws(s, lo, j - ws_len_before(s, j))
    } else {
        j
    }
}

/// `s` without leading and trailing whitespace (as `str::trim`).
pub open spec fn trim_spec(s: Seq<u8>) -> Seq<u8> {
    let lo = skip_ws(s, 0);
    s.subrange(lo, back_ws(s, lo, s.len() as int))
}

proof fn lemma_skip_ws_bounds(s: Seq<u8>, i: int)
    requires
        0 <= i <= s.len(),
    ensures
        i <= skip_ws(s, i) <= s.len(),
    decreases s.len() - i,
{
    if 0 <= i < s.len() && ws_len_at(s, i) > 0 {
        lemma_skip_ws_bounds(s, i + ws_len_at(s, i));
    }
}

proof fn lemma_back_ws_bounds(s: Seq<u8>, lo: int, j: int)
    requires
        0 <= lo <= j <= s.len(),
    ensures
        lo <= back_ws(s, lo, j) <= j,
    decreases j,
{
    if lo < j && ws_len_before(s, j) > 0 && j - ws_len_before(s, j) >= lo {
        lemma_back_ws_bounds(s, lo, j - ws_len_before(s, j));
    }
}

/// Past a whitespace character that starts at a boundary is a boundary.
proof fn lemma_boundary_past_ws(s: Seq<u8>, i: int)
    requires
        valid_utf8(s),
        is_char_boundary(s, i),
        0 <= i < s.len(),
        ws_len_at(s, i) > 0,
    ensures
        is_char_boundary(s, i + ws_len_at(s, i)),
{
    let w = ws_len_at(s, i);
    valid_utf8_split(s, i);
    let t = s.subrange(i, s.len() as int);
    assert(t[0] == s[i]);
    assert(length_of_first_scalar(t) == w);
    assert(is_char_boundary(pop_first_scalar(t), 0));
    assert(is_char_boundary(t, w));
    lemma_boundary_shift(s, i, i + w);
}

/// Before a whitespace character that ends at a boundary is a boundary.
proof fn lemma_boundary_before_ws(s: Seq<u8>, j: int)
    requires
        valid_utf8(s),
        0 < j <= s.len(),
        ws_len_before(s, j) > 0,
    ensures
        is_char_boundary(s, j - ws_len_before(s, j)),
{
    is_char_boundary_iff_is_leading_byte(s, j - ws_len_before(s, j));
}

/// Length of the whitespace character starting at `i`, or 0.
fn ws_len_at_exec(s: &[u8], i: usize) -> (r: usize)
    requires
        i <= s.len(),
    ensures
        r == ws_len_at(s@, i as int),
{
    let n = s.len();
    if i < n && ((0x09 <= s[i] && s[i] <= 0x0d) || s[i] == 0x20) {
        1
    } else if n - i >= 2 && s[i] == 0xc2 && (s[i + 1] == 0x85 || s[i + 1] == 0xa0) {
        2
    } else if n - i >= 3 && ((s[i] == 0xe1 && s[i + 1] == 0x9a && s[i + 2] == 0x80) || (s[i]
        == 0xe2 && s[i + 1] == 0x80 && ((0x80 <= s[i + 2] && s[i + 2] <= 0x8a) || s[i + 2]
        == 0xa8 || s[i + 2] == 0xa9 || s[i + 2] == 0xaf)) || (s[i] == 0xe2 && s[i + 1] == 0x81
        && s[i + 2] == 0x9f) || (s[i] == 0xe3 && s[i + 1] == 0x80 && s[i + 2] == 0x80)) {
        3
    } else {
        0
    }
}

/// Length of the whitespace character ending right before `j`, or 0.
fn ws_len_before_exec(s: &[u8], j: usize) -> (r: usize)
    requires
        j <= s.len(),
    ensures
        r == ws_len_before(s@, j as int),
{
    if j >= 1 && ((0x09 <= s[j - 1] && s[j - 1] <= 0x0d) || s[j - 1] == 0x20) {
        1
    } else if j >= 2 && s[j - 2] == 0xc2 && (s[j - 1] == 0x85 || s[j - 1] == 0xa0) {
        2
    } else if j >= 3 && ((s[j - 3] == 0xe1 && s[j - 2] == 0x9a && s[j - 1] == 0x80) || (s[j - 3]
        == 0xe2 && s[j - 2] == 0x80 && ((0x80 <= s[j - 1] && s[j - 1] <= 0x8a) || s[j - 1]
        == 0xa8 || s[j - 1] == 0xa9 || s[j - 1] == 0xaf)) || (s[j - 3] == 0xe2 && s[j - 2]
        == 0x81 && s[j - 1] == 0x9f) || (s[j - 3] == 0xe3 && s[j - 2] == 0x80 && s[j - 1]
        == 0x80)) {
        3
    } else {
        0
    }
}

/// `s` without leading and trailing whitespace (as `str::trim`).
pub fn trim(s: &str) -> (r: &str)
    ensures
        r.spec_bytes() == trim_spec(s.spec_bytes()),
{
    let b = bytes(s);
    let n = b.len();
    let ghost sb = b@;
    let mut i: usize = 0;
    proof {
        is_char_boundary_start_end_of_seq(sb);
        lemma_skip_ws_bounds(sb, 0);
    }
    loop
        invariant
            b@ == sb,
            sb == s.spec_bytes(),
            valid_utf8(sb),
            n == sb.len(),
            i <= n,
            skip_ws(sb, i as int) == skip_ws(sb, 0),
            is_char_boundary(sb, i as int),
        ensures
            i <= n,
            i == skip_ws(sb, 0),
            is_char_boundary(sb, i as int),
        decreases n - i,
    {
        let w = ws_len_at_exec(b, i);
        if w == 0 {
            break;
        }
        proof {
            lemma_boundary_past_ws(sb, i as int);
        }
        i = i + w;
    }
    let mut j: usize = n;
    proof {
        lemma_back_ws_bounds(sb, i as int, n as int);
    }
    loop
        invariant
            b@ == sb,
            sb == s.spec_bytes(),
            valid_utf8(sb),
            n == sb.len(),
            i <= j <= n,
            i == skip_ws(sb, 0),
            back_ws(sb, i as int, j as int) == back_ws(sb, i as int, n as int),
            is_char_boundary(sb, i as int),
            is_char_boundary(sb, j as int),
        ensures
            i <= j <= n,
            j == back_ws(sb, i as int, n as int),
            is_char_boundary(sb, i as int),
            is_char_boundary(sb, j as int),
        decreases j,
    {
        let w = ws_len_before_exec(b, j);
        if !(i < j && w > 0 && j - w >= i) {
            break;
        }
        proof {
            lemma_boundary_before_ws(sb, j as int);
        }
        j = j - w;
    }
    slice(s, i, j)
}

/// Whether `s` holds a whitespace character.
pub fn has_whitespace(s: &str) -> (r: bool)
    ensures
        r == contains_ws(s.spec_bytes()),
{
    let b = bytes(s);
    let mut i: usize = 0;
    while i < b.len()
        invariant
            i <= b.len(),
            b@ == s.spec_bytes(),
            forall|k: int| 0 <= k < i ==> ws_len_at(b@, k) == 0,
        decreases b.len() - i,
    {
        if ws_len_at_exec(b, i) > 0 {
            assert(0 <= i < b@.len() && ws_len_at(b@, i as int) > 0);
            return true;
        }
        i = i + 1;
    }
    false
}

} // verus!
