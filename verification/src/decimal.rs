//! Decimal numbers in positional notation, kept exactly as written.
//!
//! A `decimal-floating-point` is a string of the characters `[0-9]` and `.` that expresses a
//! non-negative number in decimal positional notation; a `signed-decimal-floating-point` may
//! also begin with `-`. The text is kept as written, and the questions the playlist rules ask
//! of such a number (its sign, its integer part, how it rounds, how it compares with a whole
//! number) are answered exactly from the digits.
use vstd::prelude::*;
use vstd::string::*;
use vstd::utf8::*;
use crate::num::{digits_value, digit_value};
use crate::text::{bytes, owned, utf8};

verus! {

broadcast use vstd::utf8::group_utf8_lib;

/// A decimal number as it was written.
#[derive(Debug, Clone, PartialEq, Eq)]
pub struct DecimalFloat {
    text: String,
}

impl View for DecimalFloat {
    type V = Seq<u8>;

    closed spec fn view(&self) -> Seq<u8> {
        utf8(self.text@)
    }
}

pub open spec fn is_digit(b: u8) -> bool {
    0x30 <= b <= 0x39
}

/// The text after an optional leading `-`.
pub open spec fn dec_body(s: Seq<u8>) -> Seq<u8> {
    if s.len() > 0 && s[0] == 0x2d {
        s.drop_first()
    } else {
        s
    }
}

/// Digits and at most one `.`, with at least one digit.
pub open spec fn is_positional(b: Seq<u8>) -> bool {
    &&& forall|i: int| 0 <= i < b.len() ==> is_digit(#[trigger] b[i]) || b[i] == 0x2e
    &&& forall|i: int, j: int| 0 <= i < j < b.len() ==> !(b[i] == 0x2e && b[j] == 0x2e)
    &&& exists|i: int| 0 <= i < b.len() && is_digit(#[trigger] b[i])
}

/// The grammar of a (signed, when `signed`) decimal-floating-point.
pub open spec fn is_decimal(s: Seq<u8>, signed: bool) -> bool {
    if signed {
        is_positional(dec_body(s))
    } else {
        is_positional(s)
    }
}

/// Whether the written number is below zero: a `-` and a nonzero digit.
pub open spec fn dec_is_negative(s: Seq<u8>) -> bool {
    &&& s.len() > 0
    &&& s[0] == 0x2d
    &&& exists|i: int| 0 <= i < dec_body(s).len() && 0x31 <= #[trigger] dec_body(s)[i] <= 0x39
}

/// Index of the first `.` of `b`, or its length.
pub open spec fn dot_index(b: Seq<u8>) -> int
    decreases b.len(),
{
    if b.len() == 0 {
        0
    } else if b[0] == 0x2e {
        0
    } else {
        1 + dot_index(b.drop_first())
    }
}

/// The digits before the `.`.
pub open spec fn dec_int_digits(s: Seq<u8>) -> Seq<u8> {
    dec_body(s).take(dot_index(dec_body(s)))
}

/// The whole-number part of the magnitude.
pub open spec fn dec_int_value(s: Seq<u8>) -> nat {
    digits_value(dec_int_digits(s), false)
}

/// Whether the written number is above zero: no `-` and a nonzero digit.
pub open spec fn dec_is_positive(s: Seq<u8>) -> bool {
    &&& !(s.len() > 0 && s[0] == 0x2d)
    &&& exists|i: int| 0 <= i < s.len() && 0x31 <= #[trigger] s[i] <= 0x39
}

/// The first digit after the `.` is 5 or more.
pub open spec fn dec_rounds_up(s: Seq<u8>) -> bool {
    let b = dec_body(s);
    let k = dot_index(b);
    k + 1 < b.len() && b[k + 1] >= 0x35
}

/// The number rounded half away from zero, then taken as unsigned (negative values give 0).
pub open spec fn dec_round_unsigned(s: Seq<u8>) -> nat {
    if dec_is_negative(s) {
        0
    } else if dec_rounds_up(s) {
        dec_int_value(s) + 1
    } else {
        dec_int_value(s)
    }
}

/// The number is less than the whole number `k`.
pub open spec fn dec_lt_int(s: Seq<u8>, k: nat) -> bool {
    dec_is_negative(s) || dec_int_value(s) < k
}

proof fn lemma_dot_index(b: Seq<u8>)
    ensures
        0 <= dot_index(b) <= b.len(),
        dot_index(b) < b.len() ==> b[dot_index(b)] == 0x2e,
        forall|i: int| 0 <= i < dot_index(b) ==> b[i] != 0x2e,
    decreases b.len(),
{
    if b.len() > 0 && b[0] != 0x2e {
        lemma_dot_index(b.drop_first());
        assert forall|i: int| 0 <= i < dot_index(b) implies b[i] != 0x2e by {
            if i > 0 {
                assert(b[i] == b.drop_first()[i - 1]);
            }
        }
    }
}

proof fn lemma_dot_index_unique(b: Seq<u8>, k: int)
    requires
        0 <= k <= b.len(),
        k < b.len() ==> b[k] == 0x2e,
        forall|i: int| 0 <= i < k ==> b[i] != 0x2e,
    ensures
        dot_index(b) == k,
{
    lemma_dot_index(b);
}

/// Position just after an optional leading `-`.
fn body_start(b: &[u8]) -> (r: usize)
    ensures
        r <= b@.len(),
        b@.subrange(r as int, b@.len() as int) == dec_body(b@),
{
    if b.len() > 0 && b[0] == 0x2d {
        proof {
            assert(b@.subrange(1, b@.len() as int) =~= b@.drop_first());
        }
        1
    } else {
        proof {
            assert(b@.subrange(0, b@.len() as int) =~= b@);
        }
        0
    }
}

/// Whether `b[from..]` is digits and at most one `.`, with at least one digit.
fn positional_from(b: &[u8], from: usize) -> (r: bool)
    requires
        from <= b@.len(),
    ensures
        r == is_positional(b@.subrange(from as int, b@.len() as int)),
{
    let ghost t = b@.subrange(from as int, b@.len() as int);
    let mut dots: usize = 0;
    let mut digits = false;
    let mut i: usize = from;
    while i < b.len()
        invariant
            from <= i <= b@.len(),
            t == b@.subrange(from as int, b@.len() as int),
            dots <= 1,
            forall|k: int| 0 <= k < i - from ==> is_digit(#[trigger] t[k]) || t[k] == 0x2e,
            forall|k: int, j: int| 0 <= k < j < i - from ==> !(t[k] == 0x2e && t[j] == 0x2e),
            dots == 0 ==> forall|k: int| 0 <= k < i - from ==> t[k] != 0x2e,
            dots == 1 ==> exists|k: int| 0 <= k < i - from && t[k] == 0x2e,
            digits == exists|k: int| 0 <= k < i - from && is_digit(#[trigger] t[k]),
        decreases b.len() - i,
    {
        let c = b[i];
        proof {
            assert(t[i - from] == c);
        }
        if c == 0x2e {
            if dots == 1 {
                proof {
                    // a second dot
                    let k = choose|k: int| 0 <= k < i - from && t[k] == 0x2e;
                    assert(t[k] == 0x2e && t[i - from] == 0x2e);
                }
                return false;
            }
            dots = 1;
        } else if 0x30 <= c && c <= 0x39 {
            digits = true;
        } else {
            proof {
                assert(!(is_digit(t[i - from]) || t[i - from] == 0x2e));
            }
            return false;
        }
        i = i + 1;
    }
    digits
}

impl DecimalFloat {
    /// Reads a decimal-floating-point (`signed`: a signed one). `Err(true)` when the text is
    /// empty, `Err(false)` when it is not a number of that form.
    pub fn parse(s: &str, signed: bool) -> (r: Result<DecimalFloat, bool>)
        ensures
            match r {
                Ok(d) => is_decimal(s.spec_bytes(), signed) && d@ == s.spec_bytes(),
                Err(empty) => !is_decimal(s.spec_bytes(), signed) && empty == (s.spec_bytes().len()
                    == 0),
            },
    {
        let b = bytes(s);
        if b.len() == 0 {
            return Err(true);
        }
        let start: usize = if signed {
            body_start(b)
        } else {
            proof {
                assert(b@.subrange(0, b@.len() as int) =~= b@);
            }
            0
        };
        if positional_from(b, start) {
            Ok(DecimalFloat { text: owned(s) })
        } else {
            Err(false)
        }
    }

    /// A copy of this number.
    pub fn copy(&self) -> (r: DecimalFloat)
        ensures
            r@ == self@,
    {
        DecimalFloat { text: owned(self.text.as_str()) }
    }

    /// The text as written.
    pub fn as_str(&self) -> (r: &str)
        ensures
            r.spec_bytes() == self@,
    {
        self.text.as_str()
    }

    /// Whether the number is below zero.
    pub fn is_negative(&self) -> (r: bool)
        ensures
            r == dec_is_negative(self@),
    {
        let b = bytes(self.as_str());
        if b.len() == 0 || b[0] != 0x2d {
            return false;
        }
        let ghost body = dec_body(b@);
        proof {
            assert(body =~= b@.subrange(1, b@.len() as int));
        }
        let mut i: usize = 1;
        while i < b.len()
            invariant
                1 <= i <= b@.len(),
                b@ == self@,
                b@.len() > 0 && b@[0] == 0x2d,
                body == dec_body(b@),
                body =~= b@.subrange(1, b@.len() as int),
                forall|k: int| 0 <= k < i - 1 ==> !(0x31 <= #[trigger] body[k] <= 0x39),
            decreases b.len() - i,
        {
            if 0x31 <= b[i] && b[i] <= 0x39 {
                proof {
                    assert(0x31 <= body[i - 1] <= 0x39);
                }
                return true;
            }
            i = i + 1;
        }
        false
    }

    /// Whether the number is above zero.
    pub fn is_positive(&self) -> (r: bool)
        ensures
            r == dec_is_positive(self@),
    {
        let b = bytes(self.as_str());
        if b.len() > 0 && b[0] == 0x2d {
            return false;
        }
        let mut i: usize = 0;
        while i < b.len()
            invariant
                i <= b@.len(),
                b@ == self@,
                !(b@.len() > 0 && b@[0] == 0x2d),
                forall|k: int| 0 <= k < i ==> !(0x31 <= #[trigger] b@[k] <= 0x39),
            decreases b.len() - i,
        {
            if 0x31 <= b[i] && b[i] <= 0x39 {
                assert(0x31 <= b@[i as int] <= 0x39);
                return true;
            }
            i = i + 1;
        }
        false
    }

    /// The whole-number part of the magnitude, saturated at `u128::MAX`.
    pub fn int_part_saturating(&self) -> (r: u128)
        ensures
            r as nat == if dec_int_value(self@) <= u128::MAX as nat {
                dec_int_value(self@)
            } else {
                u128::MAX as nat
            },
    {
        let b = bytes(self.as_str());
        let start = body_start(b);
        let ghost body = dec_body(b@);
        proof {
            lemma_dot_index(body);
        }
        let mut acc: u128 = 0;
        let mut i: usize = start;
        while i < b.len() && b[i] != 0x2e
            invariant
                start <= i <= b@.len(),
                body == b@.subrange(start as int, b@.len() as int),
                0 <= dot_index(body) <= body.len(),
                forall|k: int| 0 <= k < dot_index(body) ==> body[k] != 0x2e,
                dot_index(body) < body.len() ==> body[dot_index(body)] == 0x2e,
                i - start <= dot_index(body),
                acc as nat == if digits_value(body.take(i - start), false) <= u128::MAX as nat {
                    digits_value(body.take(i - start), false)
                } else {
                    u128::MAX as nat
                },
            decreases b.len() - i,
        {
            let c = b[i];
            let d: u128 = if 0x30 <= c && c <= 0x39 {
                (c - 0x30) as u128
            } else {
                0
            };
            let ghost pre = body.take(i - start);
            let ghost next = body.take(i + 1 - start);
            proof {
                assert(body[i - start] == c);
                assert(next.drop_last() =~= pre);
                assert(next.last() == c);
                assert(digits_value(next, false) == digits_value(pre, false) * 10 + d);
            }
            if acc > (u128::MAX - d) / 10 {
                proof {
                    assert(digits_value(next, false) > u128::MAX) by (nonlinear_arith)
                        requires
                            acc > (u128::MAX - d) / 10,
                            digits_value(pre, false) >= acc,
                            digits_value(next, false) == digits_value(pre, false) * 10 + d,
                            d <= 9,
                    ;
                }
                acc = u128::MAX;
            } else {
                proof {
                    assert(acc * 10 + d <= u128::MAX) by (nonlinear_arith)
                        requires
                            acc <= (u128::MAX - d) / 10,
                            d <= 9,
                    ;
                    if digits_value(pre, false) > u128::MAX {
                        assert(false);
                    }
                }
                acc = acc * 10 + d;
            }
            i = i + 1;
        }
        proof {
            if i < b.len() {
                lemma_dot_index_unique(body, i - start);
            } else {
                lemma_dot_index_unique(body, i - start);
            }
        }
        acc
    }

    /// Whether the first digit after the `.` is 5 or more.
    pub fn rounds_up(&self) -> (r: bool)
        ensures
            r == dec_rounds_up(self@),
    {
        let b = bytes(self.as_str());
        let start = body_start(b);
        let ghost body = dec_body(b@);
        proof {
            lemma_dot_index(body);
        }
        let mut i: usize = start;
        while i < b.len() && b[i] != 0x2e
            invariant
                start <= i <= b@.len(),
                body == b@.subrange(start as int, b@.len() as int),
                forall|k: int| 0 <= k < i - start ==> body[k] != 0x2e,
            decreases b.len() - i,
        {
            proof {
                assert(body[i - start] == b@[i as int]);
            }
            i = i + 1;
        }
        proof {
            if i < b.len() {
                assert(body[i - start] == 0x2e);
            }
            lemma_dot_index_unique(body, i - start);
        }
        i < b.len() && b.len() - i > 1 && b[i + 1] >= 0x35
    }

    /// The number rounded half away from zero, as unsigned (negative values give 0), saturated
    /// at `u64::MAX`.
    pub fn round_unsigned(&self) -> (r: u64)
        ensures
            r as nat == if dec_round_unsigned(self@) <= u64::MAX as nat {
                dec_round_unsigned(self@)
            } else {
                u64::MAX as nat
            },
    {
        if self.is_negative() {
            return 0;
        }
        let n = self.int_part_saturating();
        let up = self.rounds_up();
        if n >= u64::MAX as u128 || (up && n + 1 >= u64::MAX as u128) {
            u64::MAX
        } else if up {
            (n + 1) as u64
        } else {
            n as u64
        }
    }

    /// Whether the number is less than the whole number `k`.
    pub fn lt_int(&self, k: u128) -> (r: bool)
        ensures
            r == dec_lt_int(self@, k as nat),
    {
        if self.is_negative() {
            return true;
        }
        let n = self.int_part_saturating();
        n < k
    }
}

} // verus!
