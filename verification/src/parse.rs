//! Parsing sizes such as `"1.5GB"` into byte counts.
use vstd::prelude::*;

use crate::error::{SizeError, SizeResult};
use crate::text::{
    all_digits, all_digits_range, digits_value, dot_index, dot_position, is_digit, letter_index,
    lemma_digits_value_bound, lemma_digits_value_first, pow10, trim, chars_of, letter_position,
    trim_range,
};
use crate::units::{unit_multiplier, unit_multiplier_of, EB};

verus! {

/// A decimal number `[+-]digits[.digits]` as it was written: its sign, the
/// value of the digits before and after the point, and how many digits
/// follow the point.
pub struct DecimalNumber {
    pub negative: bool,
    pub whole: nat,
    pub fraction: nat,
    pub scale: nat,
}

/// The number that `s` writes, if it is an optionally signed decimal number
/// with at least one digit and at most one point.
pub open spec fn parse_number(s: Seq<char>) -> Option<DecimalNumber> {
    let signed = s.len() > 0 && (s[0] == '-' || s[0] == '+');
    let body = if signed { s.drop_first() } else { s };
    let d = dot_index(body);
    let whole = body.take(d);
    let fraction = if d < body.len() { body.skip(d + 1) } else { Seq::empty() };
    if all_digits(whole) && all_digits(fraction) && whole.len() + fraction.len() > 0 {
        Some(DecimalNumber {
            negative: signed && s[0] == '-',
            whole: digits_value(whole),
            fraction: digits_value(fraction),
            scale: fraction.len(),
        })
    } else {
        None
    }
}

/// The number of bytes in `n` units of `unit` bytes, rounded toward zero:
/// the exact product, with no rounding before the end.
pub open spec fn magnitude(n: DecimalNumber, unit: nat) -> nat {
    (((n.whole * pow10(n.scale) + n.fraction) * unit) / pow10(n.scale)) as nat
}

/// The smallest magnitude that no `i64` of the same sign holds: 2⁶³.
pub open spec fn saturation_bound() -> nat {
    0x8000_0000_0000_0000
}

/// A signed byte count of the given magnitude, held at `i64::MIN` or
/// `i64::MAX` where it does not fit.
pub open spec fn signed_bytes(negative: bool, magnitude: nat) -> i64 {
    if negative {
        if magnitude >= saturation_bound() {
            i64::MIN
        } else {
            (-magnitude) as i64
        }
    } else {
        if magnitude > i64::MAX {
            i64::MAX
        } else {
            magnitude as i64
        }
    }
}

/// What parsing `s` as a size gives: `s` without surrounding whitespace is a
/// number, then a unit that starts at the first ASCII letter, each with its
/// own surrounding whitespace ignored.
pub open spec fn parse_size_spec(s: Seq<char>) -> SizeResult<i64> {
    let t = trim(s);
    if t.len() == 0 {
        Err(SizeError::EmptyInput)
    } else {
        let p = letter_index(t);
        match parse_number(trim(t.take(p))) {
            None => Err(SizeError::InvalidNumber),
            Some(n) => match unit_multiplier_of(trim(t.skip(p))) {
                None => Err(SizeError::UnknownUnit),
                Some(m) => Ok(signed_bytes(n.negative, magnitude(n, m as nat))),
            },
        }
    }
}

/// Where the parts of a number lie in the characters it was read from.
struct NumberLayout {
    negative: bool,
    whole_lo: usize,
    whole_hi: usize,
    frac_lo: usize,
    frac_hi: usize,
}

/// Finds the sign, the digits before the point and the digits after it in
/// `v[lo..hi]`, if these characters form a number.
fn number_layout(v: &Vec<char>, lo: usize, hi: usize) -> (r: Option<NumberLayout>)
    requires
        lo <= hi <= v.len(),
    ensures
        r is None <==> parse_number(v@.subrange(lo as int, hi as int)) is None,
        r matches Some(l) ==> {
            let n = parse_number(v@.subrange(lo as int, hi as int))->0;
            let whole = v@.subrange(l.whole_lo as int, l.whole_hi as int);
            let fraction = v@.subrange(l.frac_lo as int, l.frac_hi as int);
            &&& lo <= l.whole_lo <= l.whole_hi <= hi
            &&& lo <= l.frac_lo <= l.frac_hi <= hi
            &&& l.negative == n.negative
            &&& all_digits(whole)
            &&& all_digits(fraction)
            &&& digits_value(whole) == n.whole
            &&& digits_value(fraction) == n.fraction
            &&& l.frac_hi - l.frac_lo == n.scale
        },
{
    let ghost s = v@.subrange(lo as int, hi as int);
    let mut start = lo;
    let mut negative = false;
    if lo < hi && (v[lo] == '-' || v[lo] == '+') {
        negative = v[lo] == '-';
        start = lo + 1;
        assert(s.drop_first() =~= v@.subrange(start as int, hi as int));
    } else {
        assert(s =~= v@.subrange(start as int, hi as int));
    }
    let ghost body = v@.subrange(start as int, hi as int);
    let d = dot_position(v, start, hi);
    assert(body.take(d - start) =~= v@.subrange(start as int, d as int));
    let (frac_lo, frac_hi) = if d < hi {
        assert(body.skip(d - start + 1) =~= v@.subrange(d + 1, hi as int));
        (d + 1, hi)
    } else {
        assert(v@.subrange(hi as int, hi as int) =~= Seq::<char>::empty());
        (hi, hi)
    };
    if d - start + (frac_hi - frac_lo) == 0 {
        return None;
    }
    if !all_digits_range(v, start, d) || !all_digits_range(v, frac_lo, frac_hi) {
        return None;
    }
    Some(NumberLayout { negative, whole_lo: start, whole_hi: d, frac_lo, frac_hi })
}

/// The value of the digits `v[lo..hi]`, held at 2⁶³ when it is larger.
fn whole_value(v: &Vec<char>, lo: usize, hi: usize) -> (r: u128)
    requires
        lo <= hi <= v.len(),
        all_digits(v@.subrange(lo as int, hi as int)),
    ensures
        r == if digits_value(v@.subrange(lo as int, hi as int)) < saturation_bound() {
            digits_value(v@.subrange(lo as int, hi as int))
        } else {
            saturation_bound()
        },
{
    let cap: u128 = 0x8000_0000_0000_0000;
    let mut acc: u128 = 0;
    let mut i = lo;
    assert(v@.subrange(lo as int, lo as int).len() == 0);
    while i < hi
        invariant
            lo <= i <= hi <= v.len(),
            all_digits(v@.subrange(lo as int, hi as int)),
            cap == saturation_bound(),
            acc == if digits_value(v@.subrange(lo as int, i as int)) < cap {
                digits_value(v@.subrange(lo as int, i as int))
            } else {
                cap as nat
            },
        decreases hi - i,
    {
        assert(is_digit(v@.subrange(lo as int, hi as int)[i - lo]));
        let d = (v[i] as u32 - '0' as u32) as u128;
        let ghost prefix = v@.subrange(lo as int, i + 1);
        assert(prefix.drop_last() =~= v@.subrange(lo as int, i as int));
        assert(prefix.last() == v@[i as int]);
        let next = acc * 10 + d;
        acc = if next < cap { next } else { cap };
        i = i + 1;
    }
    acc
}

/// `(d·p + w)·m / (10·p) = (d·m + w·m/p) / 10`: one more leading digit in a
/// right-to-left reading of a fraction.
proof fn lemma_scaled_digit(d: nat, w: nat, m: nat, p: nat)
    requires
        p > 0,
    ensures
        ((d * p + w) * m) / (10 * p) == (d * m + (w * m) / p) / 10,
{
    let x = (d * p + w) * m;
    assert(x == w * m + (d * m) * p) by (nonlinear_arith)
        requires
            x == (d * p + w) * m,
    ;
    vstd::arithmetic::div_mod::lemma_hoist_over_denominator((w * m) as int, (d * m) as int, p);
    vstd::arithmetic::div_mod::lemma_div_denominator(x as int, p as int, 10);
    assert(p * 10 == 10 * p);
}

/// The digits `v[lo..hi]` read as a fraction `0.ddd`, times `m`, rounded
/// toward zero.
fn scaled_fraction(v: &Vec<char>, lo: usize, hi: usize, m: u64) -> (r: u128)
    requires
        lo <= hi <= v.len(),
        all_digits(v@.subrange(lo as int, hi as int)),
        1 <= m <= EB,
    ensures
        r == (digits_value(v@.subrange(lo as int, hi as int)) * m) / (pow10((hi - lo) as nat) as int),
        r < m,
{
    let mut acc: u128 = 0;
    let mut j = hi;
    assert(digits_value(v@.subrange(hi as int, hi as int)) == 0);
    assert(pow10(0) == 1);
    while j > lo
        invariant
            lo <= j <= hi <= v.len(),
            1 <= m <= EB,
            all_digits(v@.subrange(lo as int, hi as int)),
            acc == (digits_value(v@.subrange(j as int, hi as int)) * m) / (pow10((hi - j) as nat) as int),
            acc < m,
        decreases j - lo,
    {
        assert(is_digit(v@.subrange(lo as int, hi as int)[j - 1 - lo]));
        let d = (v[j - 1] as u32 - '0' as u32) as u128;
        let ghost tail = v@.subrange(j - 1, hi as int);
        let ghost rest = v@.subrange(j as int, hi as int);
        let ghost p = pow10((hi - j) as nat);
        proof {
            assert(tail.drop_first() =~= rest);
            assert(tail[0] == v@[j - 1]);
            lemma_digits_value_first(tail);
            assert(pow10((hi - (j - 1)) as nat) == 10 * p);
            lemma_pow10_positive((hi - j) as nat);
            lemma_scaled_digit(d as nat, digits_value(rest), m as nat, p);
            assert(d * m <= 9 * m) by (nonlinear_arith)
                requires
                    d <= 9,
            ;
        }
        acc = (d * (m as u128) + acc) / 10;
        proof {
            assert(all_digits(tail)) by {
                assert forall|i: int| 0 <= i < tail.len() implies #[trigger] is_digit(tail[i]) by {
                    assert(tail[i] == v@.subrange(lo as int, hi as int)[j - 1 - lo + i]);
                }
            }
            lemma_digits_value_bound(tail);
            let q = pow10((hi - (j - 1)) as nat);
            lemma_pow10_positive((hi - (j - 1)) as nat);
            assert(digits_value(tail) * m < q * m) by (nonlinear_arith)
                requires
                    digits_value(tail) < q,
                    m >= 1,
            ;
            vstd::arithmetic::div_mod::lemma_multiply_divide_lt(
                (digits_value(tail) * m) as int,
                q as int,
                m as int,
            );
        }
        j = j - 1;
    }
    acc
}

/// `(w·p + f)·m / p = w·m + f·m/p`: the whole part of a number scales
/// exactly, only the fraction is rounded.
proof fn lemma_magnitude_split(w: nat, f: nat, m: nat, p: nat)
    requires
        p > 0,
    ensures
        ((w * p + f) * m) / p == w * m + (f * m) / p,
{
    let x = (w * p + f) * m;
    assert(x == f * m + (w * m) * p) by (nonlinear_arith)
        requires
            x == (w * p + f) * m,
    ;
    vstd::arithmetic::div_mod::lemma_hoist_over_denominator((f * m) as int, (w * m) as int, p);
}

/// Parses the size written in `v[lo..hi]`.
pub(crate) fn parse_size_range(v: &Vec<char>, lo: usize, hi: usize) -> (r: SizeResult<i64>)
    requires
        lo <= hi <= v.len(),
    ensures
        r == parse_size_spec(v@.subrange(lo as int, hi as int)),
{
    let (a, b) = trim_range(v, lo, hi);
    if a == b {
        return Err(SizeError::EmptyInput);
    }
    let p = letter_position(v, a, b);
    let ghost t = v@.subrange(a as int, b as int);
    assert(t.take(p - a) =~= v@.subrange(a as int, p as int));
    assert(t.skip(p - a) =~= v@.subrange(p as int, b as int));
    let (na, nb) = trim_range(v, a, p);
    let layout = match number_layout(v, na, nb) {
        None => return Err(SizeError::InvalidNumber),
        Some(l) => l,
    };
    let (ua, ub) = trim_range(v, p, b);
    let m = match unit_multiplier(v, ua, ub) {
        None => return Err(SizeError::UnknownUnit),
        Some(m) => m,
    };
    assert(1 <= m <= EB);
    let whole = whole_value(v, layout.whole_lo, layout.whole_hi);
    let frac = scaled_fraction(v, layout.frac_lo, layout.frac_hi, m as u64);
    assert(whole * m <= 0x8000_0000_0000_0000 * EB) by (nonlinear_arith)
        requires
            whole <= 0x8000_0000_0000_0000,
            m <= EB,
    ;
    let mag = whole * (m as u128) + frac;
    proof {
        let n = parse_number(v@.subrange(na as int, nb as int))->0;
        let pk = pow10(n.scale);
        lemma_pow10_positive(n.scale);
        lemma_magnitude_split(n.whole, n.fraction, m as nat, pk);
        if n.whole >= saturation_bound() {
            assert(n.whole * m >= n.whole) by (nonlinear_arith)
                requires
                    m >= 1,
            ;
            assert(whole * m >= whole) by (nonlinear_arith)
                requires
                    m >= 1,
            ;
        }
    }
    let cap: u128 = 0x8000_0000_0000_0000;
    let bytes = if layout.negative {
        if mag >= cap {
            i64::MIN
        } else {
            -(mag as i64)
        }
    } else {
        if mag > i64::MAX as u128 {
            i64::MAX
        } else {
            mag as i64
        }
    };
    Ok(bytes)
}

/// Parse a human-readable size string to bytes.
///
/// Supports `"1GB"`, `"500KB"`, `"1024"`, `"1B"`, `"1K"`, `"1M"`, `"1G"`,
/// `"1T"`, `"1P"`, `"1E"`, decimals such as `"1.5GB"` and negative sizes
/// such as `"-1KB"`, in binary units (1KB = 1024 bytes), with unit letters in
/// either case. The result is the exact product rounded toward zero, held at
/// `i64::MIN` or `i64::MAX` where it does not fit.
///
/// The characters of `size_str` are first copied into a buffer, so parsing
/// allocates once, in proportion to the length of the input.
///
/// # Errors
///
/// [`SizeError::EmptyInput`] if the string is blank,
/// [`SizeError::InvalidNumber`] if the numeric part cannot be parsed, and
/// [`SizeError::UnknownUnit`] if the unit suffix is not recognized.
pub fn parse_size(size_str: &str) -> (r: SizeResult<i64>)
    ensures
        r == parse_size_spec(size_str@),
{
    let v = chars_of(size_str);
    assert(v@.subrange(0, v@.len() as int) =~= v@);
    parse_size_range(&v, 0, v.len())
}

pub proof fn lemma_pow10_positive(k: nat)
    ensures
        pow10(k) > 0,
    decreases k,
{
    if k > 0 {
        lemma_pow10_positive((k - 1) as nat);
    }
}

} // verus!
