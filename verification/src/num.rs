//! Unsigned integer parsing and rendering, and exact decimal numbers.
use vstd::prelude::*;
use vstd::string::*;
use vstd::utf8::*;


verus! {

broadcast use vstd::utf8::group_utf8_lib;

/// Why an unsigned integer failed to parse (the kinds `str::parse` reports for unsigned types).
#[derive(Debug, Clone, Copy, PartialEq, Eq)]
pub enum IntErrorKind {
    Empty,
    InvalidDigit,
    PosOverflow,
}

/// Value of an ASCII digit in base 10, or base 16 (either case) when `hex`.
pub open spec fn digit_value(b: u8, hex: bool) -> Option<nat> {
    if 0x30 <= b <= 0x39 {
        Some((b - 0x30) as nat)
    } else if hex && 0x61 <= b <= 0x66 {
        Some((b - 0x61 + 10) as nat)
    } else if hex && 0x41 <= b <= 0x46 {
        Some((b - 0x41 + 10) as nat)
    } else {
        None
    }
}

/// Left-to-right accumulation of digits; the first failing position decides the error.
pub open spec fn fold_digits(d: Seq<u8>, hex: bool, max: nat) -> Result<nat, IntErrorKind>
    decreases d.len(),
{
    if d.len() == 0 {
        Ok(0)
    } else {
        match fold_digits(d.drop_last(), hex, max) {
            Err(e) => Err(e),
            Ok(a) => match digit_value(d.last(), hex) {
                None => Err(IntErrorKind::InvalidDigit),
                Some(v) => {
                    let n = if hex {
                        a * 16 + v
                    } else {
                        a * 10 + v
                    };
                    if n > max {
                        Err(IntErrorKind::PosOverflow)
                    } else {
                        Ok(n)
                    }
                },
            },
        }
    }
}

/// The result of `str::parse` / `from_str_radix` for an unsigned type whose largest value is `max`.
pub open spec fn parse_uint_spec(s: Seq<u8>, hex: bool, max: nat) -> Result<nat, IntErrorKind> {
    if s.len() == 0 {
        Err(IntErrorKind::Empty)
    } else if (s[0] == 0x2b || s[0] == 0x2d) && s.len() == 1 {
        Err(IntErrorKind::InvalidDigit)
    } else if s[0] == 0x2b {
        fold_digits(s.drop_first(), hex, max)
    } else {
        fold_digits(s, hex, max)
    }
}

/// The numeric value of a digit string (invalid digits count as zero).
pub open spec fn digits_value(d: Seq<u8>, hex: bool) -> nat
    decreases d.len(),
{
    if d.len() == 0 {
        0
    } else {
        let v = match digit_value(d.last(), hex) {
            Some(v) => v,
            None => 0,
        };
        if hex {
            digits_value(d.drop_last(), hex) * 16 + v
        } else {
            digits_value(d.drop_last(), hex) * 10 + v
        }
    }
}

/// Every byte is a digit.
pub open spec fn all_digits(d: Seq<u8>, hex: bool) -> bool {
    forall|i: int| 0 <= i < d.len() ==> (#[trigger] digit_value(d[i], hex)) is Some
}

/// A valid digit string whose value fits parses to that value.
pub proof fn lemma_fold_digits_value(d: Seq<u8>, hex: bool, max: nat)
    requires
        all_digits(d, hex),
        digits_value(d, hex) <= max,
    ensures
        fold_digits(d, hex, max) == Ok::<nat, IntErrorKind>(digits_value(d, hex)),
    decreases d.len(),
{
    if d.len() > 0 {
        assert(digit_value(d[d.len() - 1], hex) is Some);
        assert(forall|i: int| 0 <= i < d.drop_last().len() ==> d.drop_last()[i] == d[i]);
        lemma_fold_digits_value(d.drop_last(), hex, max);
    }
}

/// Leading zero digits do not change the value.
pub proof fn lemma_digits_value_leading_zeros(z: Seq<u8>, d: Seq<u8>, hex: bool)
    requires
        forall|i: int| 0 <= i < z.len() ==> z[i] == 0x30,
    ensures
        digits_value(z + d, hex) == digits_value(d, hex),
    decreases z.len() + d.len(),
{
    if d.len() == 0 {
        assert(z + d =~= z);
        if z.len() > 0 {
            assert(z.drop_last() + d =~= z.drop_last());
            lemma_digits_value_leading_zeros(z.drop_last(), d, hex);
            assert(digits_value(z.drop_last(), hex) == 0);
        }
    } else {
        assert((z + d).drop_last() =~= z + d.drop_last());
        assert((z + d).last() == d.last());
        lemma_digits_value_leading_zeros(z, d.drop_last(), hex);
    }
}

/// Parses an unsigned integer as `str::parse` (or `from_str_radix(.., 16)` when `hex`) does.
pub fn parse_uint(s: &[u8], hex: bool, max: u64) -> (r: Result<u64, IntErrorKind>)
    ensures
        match parse_uint_spec(s@, hex, max as nat) {
            Ok(v) => r == Ok::<u64, IntErrorKind>(v as u64),
            Err(e) => r == Err::<u64, IntErrorKind>(e),
        },
{
    if s.len() == 0 {
        return Err(IntErrorKind::Empty);
    }
    if (s[0] == 0x2b || s[0] == 0x2d) && s.len() == 1 {
        return Err(IntErrorKind::InvalidDigit);
    }
    let start: usize = if s[0] == 0x2b {
        1
    } else {
        0
    };
    let ghost d = s@.subrange(start as int, s@.len() as int);
    proof {
        if start == 1 {
            assert(d =~= s@.drop_first());
        } else {
            assert(d =~= s@);
        }
    }
    assert(parse_uint_spec(s@, hex, max as nat) == fold_digits(d, hex, max as nat));
    let mut acc: u64 = 0;
    let mut i: usize = start;
    proof {
        assert(d.subrange(0, 0) =~= Seq::<u8>::empty());
    }
    while i < s.len()
        invariant
            start <= i <= s.len(),
            d == s@.subrange(start as int, s@.len() as int),
            parse_uint_spec(s@, hex, max as nat) == fold_digits(d, hex, max as nat),
            fold_digits(d.subrange(0, i - start), hex, max as nat) == Ok::<nat, IntErrorKind>(
                acc as nat,
            ),
            acc <= max,
        decreases s.len() - i,
    {
        let b = s[i];
        let ghost pre = d.subrange(0, i - start);
        let ghost next = d.subrange(0, i + 1 - start);
        proof {
            assert(next.drop_last() =~= pre);
            assert(next.last() == b);
        }
        let v: u64 = if 0x30 <= b && b <= 0x39 {
            (b - 0x30) as u64
        } else if hex && 0x61 <= b && b <= 0x66 {
            (b - 0x61 + 10) as u64
        } else if hex && 0x41 <= b && b <= 0x46 {
            (b - 0x41 + 10) as u64
        } else {
            proof {
                // the first invalid digit decides the error
                lemma_fold_prefix_error(d, (i + 1 - start) as int, hex, max as nat);
            }
            return Err(IntErrorKind::InvalidDigit);
        };
        let n: u128 = if hex {
            acc as u128 * 16 + v as u128
        } else {
            acc as u128 * 10 + v as u128
        };
        if n > max as u128 {
            proof {
                lemma_fold_prefix_error(d, (i + 1 - start) as int, hex, max as nat);
            }
            return Err(IntErrorKind::PosOverflow);
        }
        acc = n as u64;
        i = i + 1;
    }
    proof {
        assert(d.subrange(0, i - start) =~= d);
    }
    Ok(acc)
}

/// An error on a prefix is the error of the whole digit string.
pub proof fn lemma_fold_prefix_error(d: Seq<u8>, k: int, hex: bool, max: nat)
    requires
        0 <= k <= d.len(),
        fold_digits(d.subrange(0, k), hex, max) is Err,
    ensures
        fold_digits(d, hex, max) == fold_digits(d.subrange(0, k), hex, max),
    decreases d.len() - k,
{
    if k < d.len() {
        let next = d.subrange(0, k + 1);
        assert(next.drop_last() =~= d.subrange(0, k));
        lemma_fold_prefix_error(d, k + 1, hex, max);
    } else {
        assert(d.subrange(0, k) =~= d);
    }
}

/* Rendering */

/// Decimal digits of `n`, without leading zeros.
pub open spec fn dec_digits(n: nat) -> Seq<u8>
    decreases n,
{
    if n < 10 {
        seq![(n + 0x30) as u8]
    } else {
        dec_digits(n / 10) + seq![((n % 10) + 0x30) as u8]
    }
}

/// The lowercase hexadecimal digit for `v < 16`.
pub open spec fn hex_char_spec(v: nat) -> u8 {
    if v < 10 {
        (v + 0x30) as u8
    } else {
        (v - 10 + 0x61) as u8
    }
}

/// Lowercase hexadecimal digits of `n`, without leading zeros.
pub open spec fn hex_digits(n: nat) -> Seq<u8>
    decreases n,
{
    if n < 16 {
        seq![hex_char_spec(n)]
    } else {
        hex_digits(n / 16) + seq![hex_char_spec(n % 16)]
    }
}

/// `d` left-padded with `0` to at least `w` characters.
pub open spec fn zero_pad(d: Seq<u8>, w: nat) -> Seq<u8> {
    if d.len() >= w {
        d
    } else {
        Seq::new((w - d.len()) as nat, |i: int| 0x30u8) + d
    }
}

/// Rendering then parsing gives the number back.
pub proof fn lemma_dec_digits(n: nat)
    ensures
        all_digits(dec_digits(n), false),
        digits_value(dec_digits(n), false) == n,
        dec_digits(n).len() >= 1,
        forall|i: int| 0 <= i < dec_digits(n).len() ==> dec_digits(n)[i] < 0x80,
    decreases n,
{
    if n >= 10 {
        lemma_dec_digits(n / 10);
        let d = dec_digits(n);
        assert(d.drop_last() =~= dec_digits(n / 10));
        let m = n % 10;
        assert(m < 10);
        assert(d.last() == (m + 0x30) as u8);
        assert(digit_value(d.last(), false) == Some(m));
        assert((n / 10) * 10 + n % 10 == n) by (nonlinear_arith);
        assert(digits_value(d, false) == digits_value(dec_digits(n / 10), false) * 10 + m);
        assert(digits_value(d, false) == n);
    } else {
        let d = dec_digits(n);
        assert(d.drop_last() =~= Seq::<u8>::empty());
        assert(digits_value(d.drop_last(), false) == 0);
        assert(digit_value(d.last(), false) == Some(n));
        assert(digits_value(d, false) == n);
    }
}

/// Rendering in hexadecimal then parsing gives the number back.
pub proof fn lemma_hex_digits(n: nat)
    ensures
        all_digits(hex_digits(n), true),
        digits_value(hex_digits(n), true) == n,
        hex_digits(n).len() >= 1,
        forall|i: int| 0 <= i < hex_digits(n).len() ==> hex_digits(n)[i] < 0x80,
    decreases n,
{
    if n >= 16 {
        lemma_hex_digits(n / 16);
        let d = hex_digits(n);
        assert(d.drop_last() =~= hex_digits(n / 16));
        let m = n % 16;
        assert(m < 16);
        assert(d.last() == hex_char_spec(m));
        assert(digit_value(d.last(), true) == Some(m));
        assert((n / 16) * 16 + n % 16 == n) by (nonlinear_arith);
        assert(digits_value(d, true) == digits_value(hex_digits(n / 16), true) * 16 + m);
        assert(digits_value(d, true) == n);
    } else {
        let d = hex_digits(n);
        assert(d.drop_last() =~= Seq::<u8>::empty());
        assert(digits_value(d.drop_last(), true) == 0);
        assert(digit_value(d.last(), true) == Some(n));
        assert(digits_value(d, true) == n);
    }
}

/// Zero padding keeps the digits valid and the value unchanged.
pub proof fn lemma_zero_pad(d: Seq<u8>, w: nat, hex: bool)
    requires
        all_digits(d, hex),
    ensures
        all_digits(zero_pad(d, w), hex),
        digits_value(zero_pad(d, w), hex) == digits_value(d, hex),
        zero_pad(d, w).len() >= d.len(),
{
    if d.len() < w {
        let z = Seq::new((w - d.len()) as nat, |i: int| 0x30u8);
        lemma_digits_value_leading_zeros(z, d, hex);
        assert forall|i: int| 0 <= i < (z + d).len() implies (#[trigger] digit_value(
            (z + d)[i],
            hex,
        )) is Some by {
            if i >= z.len() {
                assert((z + d)[i] == d[i - z.len()]);
            }
        }
    }
}

/// Appends the decimal digits of `n`.
pub fn push_dec(out: &mut Vec<u8>, n: u64)
    ensures
        final(out)@ == old(out)@ + dec_digits(n as nat),
    decreases n,
{
    if n >= 10 {
        push_dec(out, n / 10);
    }
    out.push((n % 10) as u8 + 0x30);
    proof {
        if n >= 10 {
            assert(final(out)@ =~= old(out)@ + dec_digits(n as nat));
        } else {
            assert(final(out)@ =~= old(out)@ + dec_digits(n as nat));
        }
    }
}

/// The lowercase hexadecimal digit for `v < 16`.
pub fn hex_char(v: u8) -> (r: u8)
    requires
        v < 16,
    ensures
        r == hex_char_spec(v as nat),
{
    if v < 10 {
        v + 0x30
    } else {
        v - 10 + 0x61
    }
}

/// Appends the lowercase hexadecimal digits of `n`.
pub fn push_hex(out: &mut Vec<u8>, n: u64)
    ensures
        final(out)@ == old(out)@ + hex_digits(n as nat),
    decreases n,
{
    if n >= 16 {
        push_hex(out, n / 16);
    }
    let c = hex_char((n % 16) as u8);
    out.push(c);
    proof {
        assert(final(out)@ =~= old(out)@ + hex_digits(n as nat));
    }
}

/// Appends `n` in decimal, zero-padded to `w` digits.
pub fn push_dec_padded(out: &mut Vec<u8>, n: u64, w: usize)
    ensures
        final(out)@ == old(out)@ + zero_pad(dec_digits(n as nat), w as nat),
{
    let mut d: Vec<u8> = Vec::new();
    push_dec(&mut d, n);
    proof {
        assert(d@ =~= dec_digits(n as nat));
    }
    push_padded(out, &d, w);
}

/// Appends `n` in lowercase hexadecimal, zero-padded to `w` digits.
pub fn push_hex_padded(out: &mut Vec<u8>, n: u64, w: usize)
    ensures
        final(out)@ == old(out)@ + zero_pad(hex_digits(n as nat), w as nat),
{
    let mut d: Vec<u8> = Vec::new();
    push_hex(&mut d, n);
    proof {
        assert(d@ =~= hex_digits(n as nat));
    }
    push_padded(out, &d, w);
}

fn push_padded(out: &mut Vec<u8>, d: &Vec<u8>, w: usize)
    ensures
        final(out)@ == old(out)@ + zero_pad(d@, w as nat),
{
    let ghost o = out@;
    if d.len() < w {
        let mut k: usize = d.len();
        while k < w
            invariant
                d.len() <= k <= w,
                out@ == o + Seq::new((k - d.len()) as nat, |i: int| 0x30u8),
            decreases w - k,
        {
            out.push(0x30);
            k = k + 1;
            proof {
                assert(out@ =~= o + Seq::new((k - d.len()) as nat, |i: int| 0x30u8));
            }
        }
    }
    let ghost mid = out@;
    let mut j: usize = 0;
    while j < d.len()
        invariant
            j <= d.len(),
            out@ == mid + d@.subrange(0, j as int),
        decreases d.len() - j,
    {
        out.push(d[j]);
        j = j + 1;
        proof {
            assert(out@ =~= mid + d@.subrange(0, j as int));
        }
    }
    proof {
        assert(d@.subrange(0, d@.len() as int) =~= d@);
        assert(out@ =~= o + zero_pad(d@, w as nat));
    }
}

} // verus!
