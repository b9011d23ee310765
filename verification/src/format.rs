//! Formatting byte counts as human-readable strings such as `"1.5KB"`.
use vstd::prelude::*;

use crate::text::{decimal_chars, digit_char, push_decimal, push_digit};
use crate::units::{EB, GB, KB, MB, PB, TB};

verus! {

/// The magnitude of `size` (2⁶³ for `i64::MIN`).
pub open spec fn abs_bytes(size: i64) -> nat {
    if size < 0 {
        (-size) as nat
    } else {
        size as nat
    }
}

/// The largest binary unit that `abs` reaches, numbered from 0 (bytes) to 6
/// (exbibytes).
pub open spec fn unit_rank(abs: nat) -> nat {
    if abs >= EB {
        6
    } else if abs >= PB {
        5
    } else if abs >= TB {
        4
    } else if abs >= GB {
        3
    } else if abs >= MB {
        2
    } else if abs >= KB {
        1
    } else {
        0
    }
}

/// The bytes in the unit of rank `r`.
pub open spec fn rank_bytes(r: nat) -> nat {
    if r == 1 {
        KB as nat
    } else if r == 2 {
        MB as nat
    } else if r == 3 {
        GB as nat
    } else if r == 4 {
        TB as nat
    } else if r == 5 {
        PB as nat
    } else if r == 6 {
        EB as nat
    } else {
        1
    }
}

/// The prefix letter of the unit of rank `r >= 1`.
pub open spec fn rank_letter(r: nat) -> char {
    if r == 1 {
        'K'
    } else if r == 2 {
        'M'
    } else if r == 3 {
        'G'
    } else if r == 4 {
        'T'
    } else if r == 5 {
        'P'
    } else {
        'E'
    }
}

/// `abs / unit` in tenths, rounded to the nearest tenth, with exact halves
/// going to the even neighbour.
pub open spec fn tenths(abs: nat, unit: nat) -> nat {
    let q = abs * 10 / unit;
    let r = abs * 10 % unit;
    if 2 * r > unit || (2 * r == unit && q % 2 == 1) {
        q + 1
    } else {
        q
    }
}

/// The gap between neighbouring `f64` values around `abs`: 1 below 2⁵³,
/// doubling with each bit beyond the 53 that an `f64` holds.
pub open spec fn float_spacing(abs: nat) -> nat
    decreases abs,
{
    if abs < 0x20_0000_0000_0000 {
        1
    } else {
        2 * float_spacing(abs / 2)
    }
}

/// `abs` as an `f64` holds it: rounded to the nearest multiple of
/// `float_spacing(abs)`, with exact halves going to the even multiple.
pub open spec fn float_round(abs: nat) -> nat {
    let sp = float_spacing(abs);
    let q = abs / sp;
    let r = abs % sp;
    if 2 * r > sp || (2 * r == sp && q % 2 == 1) {
        (q + 1) * sp
    } else {
        q * sp
    }
}

/// The text `format_size` gives for `size`: below one kibibyte the exact
/// count followed by `B`; otherwise the magnitude as an `f64` holds it, in the
/// largest unit that the magnitude reaches, with one decimal place, followed
/// by the unit; a `-` in front of negative sizes.
pub open spec fn format_spec(size: i64) -> Seq<char> {
    let abs = abs_bytes(size);
    let sign = if size < 0 { seq!['-'] } else { Seq::<char>::empty() };
    let r = unit_rank(abs);
    if r == 0 {
        sign + decimal_chars(abs) + seq!['B']
    } else {
        let t = tenths(float_round(abs), rank_bytes(r));
        sign + decimal_chars(t / 10) + seq!['.', digit_char(t % 10), rank_letter(r), 'B']
    }
}

/// The unit that `abs` is shown in, and its suffix.
fn display_unit(abs: u64) -> (r: (u64, &'static str))
    ensures
        r.0 == rank_bytes(unit_rank(abs as nat)),
        unit_rank(abs as nat) >= 1 ==> r.1@ == seq![rank_letter(unit_rank(abs as nat)), 'B'],
{
    proof {
        reveal_strlit("B");
        reveal_strlit("KB");
        reveal_strlit("MB");
        reveal_strlit("GB");
        reveal_strlit("TB");
        reveal_strlit("PB");
        reveal_strlit("EB");
    }
    if abs >= EB as u64 {
        (EB as u64, "EB")
    } else if abs >= PB as u64 {
        (PB as u64, "PB")
    } else if abs >= TB as u64 {
        (TB as u64, "TB")
    } else if abs >= GB as u64 {
        (GB as u64, "GB")
    } else if abs >= MB as u64 {
        (MB as u64, "MB")
    } else if abs >= KB as u64 {
        (KB as u64, "KB")
    } else {
        (1, "B")
    }
}

proof fn lemma_float_spacing_positive(abs: nat)
    ensures
        float_spacing(abs) >= 1,
    decreases abs,
{
    if abs >= 0x20_0000_0000_0000 {
        lemma_float_spacing_positive(abs / 2);
    }
}

/// `abs` rounded as an `f64` holds it.
fn nearest_float(abs: u64) -> (y: u128)
    requires
        abs <= 0x8000_0000_0000_0000,
    ensures
        y == float_round(abs as nat),
        y <= 0x8000_0000_0000_0000 + 0x800,
{
    let a = abs as u128;
    let mut sp: u128 = 1;
    let mut x: u128 = a;
    proof {
        lemma_float_spacing_positive(abs as nat);
    }
    while x >= 0x20_0000_0000_0000
        invariant
            a == abs,
            abs <= 0x8000_0000_0000_0000,
            sp >= 1,
            x == a / sp,
            sp * x <= a,
            x < 0x20_0000_0000_0000 ==> sp <= 0x800,
            float_spacing(abs as nat) == sp * float_spacing(x as nat),
        decreases x,
    {
        assert(sp <= 0x400) by (nonlinear_arith)
            requires
                sp * x <= a,
                x >= 0x20_0000_0000_0000,
                a <= 0x8000_0000_0000_0000,
        ;
        let ghost f = float_spacing((x / 2) as nat);
        assert(float_spacing(x as nat) == 2 * f);
        assert(sp * (2 * f) == (sp * 2) * f) by (nonlinear_arith);
        proof {
            vstd::arithmetic::div_mod::lemma_div_denominator(a as int, sp as int, 2);
            vstd::arithmetic::div_mod::lemma_fundamental_div_mod(a as int, (sp * 2) as int);
        }
        sp = sp * 2;
        x = x / 2;
        assert(sp * x <= a) by (nonlinear_arith)
            requires
                a == sp * (a / sp) + a % sp,
                x == a / sp,
                a % sp >= 0,
        ;
    }
    assert(float_spacing(x as nat) == 1);
    assert(sp * 1 == sp);
    let q = a / sp;
    let r = a % sp;
    proof {
        vstd::arithmetic::div_mod::lemma_fundamental_div_mod(a as int, sp as int);
    }
    assert(q * sp <= a) by (nonlinear_arith)
        requires
            a == sp * q + r,
            r >= 0,
    ;
    if 2 * r > sp || (2 * r == sp && q % 2 == 1) {
        assert((q + 1) * sp == q * sp + sp) by (nonlinear_arith);
        (q + 1) * sp
    } else {
        q * sp
    }
}

/// `abs / unit` in tenths, rounded as `tenths` says.
fn rounded_tenths(abs: u128, unit: u64) -> (t: u64)
    requires
        abs <= 0x8000_0000_0000_0000 + 0x800,
        unit >= 1024,
    ensures
        t == tenths(abs as nat, unit as nat),
{
    let x = abs * 10;
    let u = unit as u128;
    let q = x / u;
    let rem = x % u;
    assert(q <= x / 1024) by {
        vstd::arithmetic::div_mod::lemma_div_is_ordered_by_denominator(x as int, 1024, u as int);
    }
    let t = if 2 * rem > u || (2 * rem == u && q % 2 == 1) {
        q + 1
    } else {
        q
    };
    t as u64
}

/// Format size (in bytes) to human-readable string.
///
/// Uses binary units: `B`, `KB`, `MB`, `GB`, `TB`, `PB`, `EB`, with one
/// decimal place from one kibibyte up, rounded to the nearest tenth (exact
/// halves to even). From one kibibyte up the magnitude is taken as an `f64`
/// holds it, so above 2⁵³ bytes it is first rounded to 53 significant bits.
pub fn format_size(size: i64) -> (s: String)
    ensures
        s@ == format_spec(size),
{
    proof {
        reveal_strlit("-");
        reveal_strlit("B");
        reveal_strlit(".");
    }
    let abs: u64 = if size < 0 {
        if size == i64::MIN {
            0x8000_0000_0000_0000
        } else {
            (-size) as u64
        }
    } else {
        size as u64
    };
    assert(abs == abs_bytes(size));
    let mut s = String::new();
    if size < 0 {
        s.append("-");
    }
    let (unit, suffix) = display_unit(abs);
    if unit == 1 {
        push_decimal(&mut s, abs);
        s.append("B");
        assert(s@ =~= format_spec(size));
    } else {
        let y = nearest_float(abs);
        let t = rounded_tenths(y, unit);
        push_decimal(&mut s, t / 10);
        s.append(".");
        push_digit(&mut s, t % 10);
        s.append(suffix);
        assert(s@ =~= format_spec(size));
    }
    s
}

} // verus!
