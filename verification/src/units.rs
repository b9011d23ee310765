//! Binary unit constants and unit suffixes.
use vstd::prelude::*;

use crate::text::{eq_ignoring_ascii_case, same_ignoring_ascii_case};

verus! {

/// Bytes in one kibibyte (2¹⁰).
pub const KB: i64 = 1024;

/// Bytes in one mebibyte (2²⁰).
pub const MB: i64 = 1048576;

/// Bytes in one gibibyte (2³⁰).
pub const GB: i64 = 1073741824;

/// Bytes in one tebibyte (2⁴⁰).
pub const TB: i64 = 1099511627776;

/// Bytes in one pebibyte (2⁵⁰).
pub const PB: i64 = 1125899906842624;

/// Bytes in one exbibyte (2⁶⁰).
pub const EB: i64 = 1152921504606846976;

/// The multiplier of a unit prefix letter, in either case.
pub open spec fn prefix_multiplier(c: char) -> Option<i64> {
    if c == 'k' || c == 'K' {
        Some(KB)
    } else if c == 'm' || c == 'M' {
        Some(MB)
    } else if c == 'g' || c == 'G' {
        Some(GB)
    } else if c == 't' || c == 'T' {
        Some(TB)
    } else if c == 'p' || c == 'P' {
        Some(PB)
    } else if c == 'e' || c == 'E' {
        Some(EB)
    } else {
        None
    }
}

/// `b` or `B`.
pub open spec fn is_byte_letter(c: char) -> bool {
    c == 'b' || c == 'B'
}

/// The multiplier of a unit suffix: the empty suffix and `B` stand for bytes,
/// and each of `K`, `M`, `G`, `T`, `P`, `E`, alone or followed by `B`, for its
/// binary multiple; letters match in either ASCII case.
pub open spec fn unit_multiplier_of(u: Seq<char>) -> Option<i64> {
    if u.len() == 0 {
        Some(1)
    } else if u.len() == 1 {
        if is_byte_letter(u[0]) {
            Some(1)
        } else {
            prefix_multiplier(u[0])
        }
    } else if u.len() == 2 && is_byte_letter(u[1]) {
        prefix_multiplier(u[0])
    } else {
        None
    }
}

proof fn lemma_letter_ignoring_case(c: char, d: char)
    requires
        same_ignoring_ascii_case(c, d),
    ensures
        prefix_multiplier(c) == prefix_multiplier(d),
        is_byte_letter(c) == is_byte_letter(d),
{
}

/// Unit suffixes are read without regard to ASCII case.
pub proof fn lemma_unit_multiplier_ignoring_case(a: Seq<char>, b: Seq<char>)
    requires
        eq_ignoring_ascii_case(a, b),
    ensures
        unit_multiplier_of(a) == unit_multiplier_of(b),
{
    if a.len() > 0 {
        assert(same_ignoring_ascii_case(a[0], b[0]));
        lemma_letter_ignoring_case(a[0], b[0]);
    }
    if a.len() > 1 {
        assert(same_ignoring_ascii_case(a[1], b[1]));
        lemma_letter_ignoring_case(a[1], b[1]);
    }
}

fn prefix_multiplier_char(c: char) -> (r: Option<i64>)
    ensures
        r == prefix_multiplier(c),
{
    if c == 'k' || c == 'K' {
        Some(KB)
    } else if c == 'm' || c == 'M' {
        Some(MB)
    } else if c == 'g' || c == 'G' {
        Some(GB)
    } else if c == 't' || c == 'T' {
        Some(TB)
    } else if c == 'p' || c == 'P' {
        Some(PB)
    } else if c == 'e' || c == 'E' {
        Some(EB)
    } else {
        None
    }
}

/// The byte multiplier of the unit `v[lo..hi]`, or `None` when the unit is
/// unknown.
pub(crate) fn unit_multiplier(v: &Vec<char>, lo: usize, hi: usize) -> (r: Option<i64>)
    requires
        lo <= hi <= v.len(),
    ensures
        r == unit_multiplier_of(v@.subrange(lo as int, hi as int)),
{
    let ghost u = v@.subrange(lo as int, hi as int);
    let n = hi - lo;
    if n == 0 {
        Some(1)
    } else if n == 1 {
        assert(u[0] == v@[lo as int]);
        if v[lo] == 'b' || v[lo] == 'B' {
            Some(1)
        } else {
            prefix_multiplier_char(v[lo])
        }
    } else if n == 2 && (v[lo + 1] == 'b' || v[lo + 1] == 'B') {
        assert(u[0] == v@[lo as int]);
        assert(u[1] == v@[lo + 1]);
        prefix_multiplier_char(v[lo])
    } else {
        assert(n == 2 ==> u[1] == v@[lo + 1]);
        None
    }
}

} // verus!
