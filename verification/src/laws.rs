//! Properties that relate the library's functions to each other.
use vstd::prelude::*;

use crate::error::SizeError;
use crate::filter::{operator_prefix, parse_size_filter_spec, SizeFilter, SizeOp};
use crate::size::{division_defined, in_range, lemma_trunc_div_fits, trunc_div, trunc_rem, Size};
use vstd::std_specs::ops::{AddSpec, DivSpec, MulSpec, NegSpec, RemSpec, SubSpec};
use crate::format::{abs_bytes, float_round, float_spacing, format_spec, rank_bytes, rank_letter, tenths, unit_rank};
use crate::parse::{magnitude, parse_number, parse_size_spec, signed_bytes, DecimalNumber};
use crate::text::{
    all_digits, decimal_chars, digit_char, digit_value, digits_value, dot_index, is_ascii_letter, is_digit,
    is_space, lemma_decimal_chars, all_space, lemma_trim_padding, lemma_digit_char, lemma_dot_index_append,
    lemma_letter_index_append, lemma_trim_unchanged, letter_index, pow10, trim,
    eq_ignoring_ascii_case, lemma_letter_index_ignoring_case, lemma_trim_ignoring_case,
    same_ignoring_ascii_case,
};
use crate::units::{lemma_unit_multiplier_ignoring_case, unit_multiplier_of};

verus! {

/// `-` for a negative number, nothing otherwise.
pub open spec fn sign_chars(negative: bool) -> Seq<char> {
    if negative {
        seq!['-']
    } else {
        Seq::empty()
    }
}

/// A point and one decimal digit, or nothing.
pub open spec fn tenth_chars(tenth: Option<nat>) -> Seq<char> {
    match tenth {
        Some(d) => seq!['.', digit_char(d)],
        None => Seq::empty(),
    }
}

/// A number written with an optional sign, its whole part, and optionally one
/// digit after the point.
pub open spec fn number_chars(negative: bool, whole: nat, tenth: Option<nat>) -> Seq<char> {
    sign_chars(negative) + decimal_chars(whole) + tenth_chars(tenth)
}

/// The number that `number_chars` writes.
pub open spec fn written_number(negative: bool, whole: nat, tenth: Option<nat>) -> DecimalNumber {
    match tenth {
        Some(d) => DecimalNumber { negative, whole, fraction: d, scale: 1 },
        None => DecimalNumber { negative, whole, fraction: 0, scale: 0 },
    }
}

proof fn lemma_digit_not_special(d: nat)
    requires
        d < 10,
    ensures
        !is_space(digit_char(d)),
        !is_ascii_letter(digit_char(d)),
        digit_char(d) != '.',
        digit_char(d) != '-',
        digit_char(d) != '+',
        digit_char(d) != '=',
{
}

/// What `number_chars` writes reads back as the same number, and holds no
/// letter and no surrounding whitespace.
proof fn lemma_number_chars(negative: bool, whole: nat, tenth: Option<nat>)
    requires
        tenth matches Some(d) ==> d < 10,
    ensures
        number_chars(negative, whole, tenth).len() > 0,
        !is_space(number_chars(negative, whole, tenth)[0]),
        !is_space(number_chars(negative, whole, tenth).last()),
        forall|i: int|
            0 <= i < number_chars(negative, whole, tenth).len() ==> !is_ascii_letter(
                #[trigger] number_chars(negative, whole, tenth)[i],
            ),
        parse_number(number_chars(negative, whole, tenth)) == Some(
            written_number(negative, whole, tenth),
        ),
{
    let s = number_chars(negative, whole, tenth);
    let dec = decimal_chars(whole);
    let frac = tenth_chars(tenth);
    let body = dec + frac;
    lemma_decimal_chars(whole);
    assert forall|i: int| 0 <= i < dec.len() implies !is_space(#[trigger] dec[i])
        && !is_ascii_letter(dec[i]) && dec[i] != '.' && dec[i] != '-' && dec[i] != '+' by {
        assert(is_digit(dec[i]));
    }
    if let Some(d) = tenth {
        lemma_digit_char(d);
        lemma_digit_not_special(d);
    }
    assert forall|i: int| 0 <= i < frac.len() implies !is_space(#[trigger] frac[i])
        && !is_ascii_letter(frac[i]) by {
    }
    if negative {
        assert(s =~= seq!['-'] + body);
        assert(s.drop_first() =~= body);
    } else {
        assert(s =~= body);
        assert(s[0] == dec[0]);
    }
    assert forall|i: int| 0 <= i < s.len() implies !is_ascii_letter(#[trigger] s[i]) by {
        if negative {
            if i > 0 {
                assert(s[i] == body[i - 1]);
            }
        } else {
            assert(s[i] == body[i]);
        }
        if 0 <= i - (s.len() - body.len()) < dec.len() {
            assert(body[i - (s.len() - body.len())] == dec[i - (s.len() - body.len())]);
        } else if i >= s.len() - body.len() {
            assert(body[i - (s.len() - body.len())] == frac[i - (s.len() - body.len()) - dec.len()]);
        }
    }
    assert(s.last() == body.last());
    if tenth is None {
        assert(body =~= dec);
    }
    // the number's parts
    lemma_dot_index_append(dec, frac);
    assert(dot_index(frac) == 0);
    assert(body.take(dec.len() as int) =~= dec);
    match tenth {
        Some(d) => {
            let f = seq![digit_char(d)];
            assert(body.skip(dec.len() as int + 1) =~= f);
            assert(f.drop_last().len() == 0);
            assert(digits_value(f.drop_last()) == 0);
            assert(digits_value(f) == d);
            assert(all_digits(f));
        },
        None => {
            assert(body.len() == dec.len());
            assert(digits_value(Seq::<char>::empty()) == 0);
        },
    }
}

/// A size written as a number followed by a unit that starts with a letter
/// parses as that number in that unit.
proof fn lemma_parse_number_then_unit(number: Seq<char>, unit: Seq<char>)
    requires
        number.len() > 0,
        !is_space(number[0]),
        !is_space(number.last()),
        forall|i: int| 0 <= i < number.len() ==> !is_ascii_letter(#[trigger] number[i]),
        unit.len() > 0,
        is_ascii_letter(unit[0]),
        !is_space(unit.last()),
        parse_number(number) is Some,
        unit_multiplier_of(unit) is Some,
    ensures
        parse_size_spec(number + unit) == Ok::<i64, SizeError>(
            signed_bytes(
                parse_number(number)->0.negative,
                magnitude(parse_number(number)->0, unit_multiplier_of(unit)->0 as nat),
            ),
        ),
{
    let s = number + unit;
    assert(s[0] == number[0]);
    assert(s.last() == unit.last());
    lemma_trim_unchanged(s);
    lemma_letter_index_append(number, unit);
    assert(letter_index(unit) == 0);
    assert(s.take(number.len() as int) =~= number);
    assert(s.skip(number.len() as int) =~= unit);
    lemma_trim_unchanged(number);
    lemma_trim_unchanged(unit);
}

/// `2` to the power `k`.
pub open spec fn pow_two(k: nat) -> nat
    decreases k,
{
    if k == 0 { 1 } else { 2 * pow_two((k - 1) as nat) }
}

proof fn lemma_pow_two_positive(k: nat)
    ensures
        pow_two(k) >= 1,
    decreases k,
{
    if k > 0 {
        lemma_pow_two_positive((k - 1) as nat);
    }
}

/// A multiple of `2^k` below `2^(53+k)` is a multiple of the `f64` spacing
/// around it.
proof fn lemma_spacing_divides(abs: nat, k: nat)
    requires
        abs < 0x20_0000_0000_0000 * pow_two(k),
        abs % pow_two(k) == 0,
    ensures
        abs % float_spacing(abs) == 0,
    decreases abs,
{
    lemma_pow_two_positive(k);
    if abs >= 0x20_0000_0000_0000 {
        let pk = pow_two(k);
        if k == 0 {
            assert(pk == 1);
            assert(false);
        }
        let p = pow_two((k - 1) as nat);
        lemma_pow_two_positive((k - 1) as nat);
        assert(pk == 2 * p);
        vstd::arithmetic::div_mod::lemma_fundamental_div_mod(abs as int, pk as int);
        let m = abs / pk;
        assert(abs == 2 * (p * m)) by (nonlinear_arith)
            requires
                abs == pk * m + abs % pk,
                abs % pk == 0,
                pk == 2 * p,
        ;
        let h = abs / 2;
        assert(h == p * m);
        vstd::arithmetic::div_mod::lemma_mod_multiples_basic(m as int, p as int);
        assert(m * p == p * m) by (nonlinear_arith);
        assert(h < 0x20_0000_0000_0000 * p) by (nonlinear_arith)
            requires
                2 * h < 0x20_0000_0000_0000 * (2 * p),
        ;
        lemma_spacing_divides(h, (k - 1) as nat);
        let s2 = float_spacing(h);
        lemma_spacing_positive(h);
        vstd::arithmetic::div_mod::lemma_fundamental_div_mod(h as int, s2 as int);
        let j = h / s2;
        assert(abs == j * (2 * s2)) by (nonlinear_arith)
            requires
                h == s2 * j + h % s2,
                h % s2 == 0,
                abs == 2 * h,
        ;
        vstd::arithmetic::div_mod::lemma_mod_multiples_basic(j as int, (2 * s2) as int);
    }
}

proof fn lemma_spacing_positive(abs: nat)
    ensures
        float_spacing(abs) >= 1,
    decreases abs,
{
    if abs >= 0x20_0000_0000_0000 {
        lemma_spacing_positive(abs / 2);
    }
}

/// A size that `format_size` shows as a whole number of tenths of its unit
/// is held exactly by an `f64`.
proof fn lemma_exact_tenths_are_floats(abs: nat)
    requires
        abs <= 0x8000_0000_0000_0000,
        unit_rank(abs) >= 1,
        (abs * 10) % rank_bytes(unit_rank(abs)) == 0,
    ensures
        float_round(abs) == abs,
{
    let sp = float_spacing(abs);
    lemma_spacing_positive(abs);
    if abs >= 0x20_0000_0000_0000 {
        let u = rank_bytes(unit_rank(abs));
        assert(u == 0x4_0000_0000_0000 || u == 0x1000_0000_0000_0000);
        vstd::arithmetic::div_mod::lemma_fundamental_div_mod((abs * 10) as int, u as int);
        let c = (abs * 10) / u;
        let e = abs % 2048;
        vstd::arithmetic::div_mod::lemma_fundamental_div_mod(abs as int, 2048);
        let a = abs / 2048;
        assert((5 * e) % 2048 == 0) by {
            assert(5 * e == 2048 * (c * (u / 2048) / 2 - 5 * a)) by (nonlinear_arith)
                requires
                    abs * 10 == u * c,
                    u == 0x4_0000_0000_0000 || u == 0x1000_0000_0000_0000,
                    abs == 2048 * a + e,
            ;
            vstd::arithmetic::div_mod::lemma_mod_multiples_basic(
                c * (u / 2048) / 2 - 5 * a,
                2048,
            );
            assert((c * (u / 2048) / 2 - 5 * a) * 2048 == 2048 * (c * (u / 2048) / 2 - 5 * a))
                by (nonlinear_arith);
        }
        let e64 = e as u64;
        assert(e64 < 2048);
        assert((5 * e64) % 2048 == 0 && e64 < 2048 ==> e64 == 0) by (bit_vector);
        assert(pow_two(11) == 2048) by {
            reveal_with_fuel(pow_two, 12);
        }
        lemma_spacing_divides(abs, 11);
    }
    vstd::arithmetic::div_mod::lemma_fundamental_div_mod(abs as int, sp as int);
    assert((abs / sp) * sp == abs) by (nonlinear_arith)
        requires
            abs == sp * (abs / sp) + abs % sp,
            abs % sp == 0,
    ;
}

/// `format_size` writes `size` exactly: below one kibibyte, or a whole number
/// of tenths of the unit it is shown in.
pub open spec fn formats_exactly(size: i64) -> bool {
    let abs = abs_bytes(size);
    unit_rank(abs) == 0 || (abs * 10) % rank_bytes(unit_rank(abs)) == 0
}

/// Parsing what `format_size` writes gives the size back, whenever that
/// text is exact (every size below 1 KB, and e.g. 1 KB, 1.5 KB, 2 MB, 1 GB).
pub proof fn law_parse_format_roundtrip(size: i64)
    requires
        formats_exactly(size),
    ensures
        parse_size_spec(format_spec(size)) == Ok::<i64, SizeError>(size),
{
    let abs = abs_bytes(size);
    let r = unit_rank(abs);
    let negative = size < 0;
    if r == 0 {
        let number = number_chars(negative, abs, None);
        let unit = seq!['B'];
        assert(format_spec(size) =~= number + unit);
        lemma_number_chars(negative, abs, None);
        assert(unit_multiplier_of(unit) == Some(1i64));
        lemma_parse_number_then_unit(number, unit);
        let n = written_number(negative, abs, None);
        assert(pow10(0) == 1);
        assert(magnitude(n, 1) == abs) by (nonlinear_arith)
            requires
                n.whole == abs,
                n.fraction == 0,
                pow10(n.scale) == 1,
        ;
    } else {
        let u = rank_bytes(r);
        lemma_exact_tenths_are_floats(abs);
        let t = tenths(float_round(abs), u);
        let number = number_chars(negative, t / 10, Some(t % 10));
        let unit = seq![rank_letter(r), 'B'];
        assert(format_spec(size) =~= number + unit);
        lemma_number_chars(negative, t / 10, Some(t % 10));
        assert(unit_multiplier_of(unit) == Some(u as i64));
        lemma_parse_number_then_unit(number, unit);
        let n = written_number(negative, t / 10, Some(t % 10));
        assert(pow10(1) == 10) by {
            assert(pow10(0) == 1);
        }
        vstd::arithmetic::div_mod::lemma_fundamental_div_mod((abs * 10) as int, u as int);
        let x = abs * 10;
        assert(x % u == 0);
        assert(u > 0);
        assert(t == x / u);
        assert(t * u == abs * 10) by (nonlinear_arith)
            requires
                x == u * (x / u) + x % u,
                x % u == 0,
                t == x / u,
                x == abs * 10,
        ;
        assert(magnitude(n, u) == abs) by (nonlinear_arith)
            requires
                n.whole == t / 10,
                n.fraction == t % 10,
                pow10(n.scale) == 10,
                t * u == abs * 10,
        ;
    }
}

/// `format_size` writes a non-empty text that starts with `-` or a digit
/// and ends with `B`.
proof fn lemma_format_shape(size: i64)
    ensures
        format_spec(size).len() > 0,
        format_spec(size)[0] == '-' || is_digit(format_spec(size)[0]),
        format_spec(size).last() == 'B',
{
    let abs = abs_bytes(size);
    let r = unit_rank(abs);
    let f = format_spec(size);
    let w = if r == 0 { abs } else { tenths(float_round(abs), rank_bytes(r)) / 10 };
    lemma_decimal_chars(w);
    let dec = decimal_chars(w);
    assert(is_digit(dec[0]));
    if size >= 0 {
        assert(f[0] == dec[0]);
    }
}

/// Reading back the text of a filter gives the same filter, whenever its
/// threshold is written exactly (see `formats_exactly`).
pub proof fn law_filter_text_roundtrip(f: SizeFilter)
    requires
        formats_exactly(f.bytes),
    ensures
        parse_size_filter_spec(f.text()) == Ok::<SizeFilter, SizeError>(f),
{
    let sym = f.op.symbol();
    let body = format_spec(f.bytes);
    let t = f.text();
    lemma_format_shape(f.bytes);
    assert(t =~= sym + body);
    assert(t[0] == sym[0]);
    assert(t.last() == body.last());
    lemma_trim_unchanged(t);
    assert(t[sym.len() as int] == body[0]);
    if sym.len() == 2 {
        assert(t[1] == sym[1]);
    }
    assert(operator_prefix(t) == Some((f.op, sym.len())));
    assert(t.skip(sym.len() as int) =~= body);
    law_parse_format_roundtrip(f.bytes);
}

/// Whitespace around a size does not change what it parses to.
pub proof fn law_parse_size_ignores_padding(w1: Seq<char>, s: Seq<char>, w2: Seq<char>)
    requires
        all_space(w1),
        all_space(w2),
    ensures
        parse_size_spec(w1 + s + w2) == parse_size_spec(s),
{
    lemma_trim_padding(w1, s, w2);
}

/// Whitespace around a filter does not change what it parses to.
pub proof fn law_parse_size_filter_ignores_padding(w1: Seq<char>, s: Seq<char>, w2: Seq<char>)
    requires
        all_space(w1),
        all_space(w2),
    ensures
        parse_size_filter_spec(w1 + s + w2) == parse_size_filter_spec(s),
{
    lemma_trim_padding(w1, s, w2);
}

/// Sizes are read without regard to the ASCII case of their letters.
pub proof fn law_parse_size_ignores_case(a: Seq<char>, b: Seq<char>)
    requires
        eq_ignoring_ascii_case(a, b),
    ensures
        parse_size_spec(a) == parse_size_spec(b),
{
    let ta = trim(a);
    let tb = trim(b);
    lemma_trim_ignoring_case(a, b);
    lemma_letter_index_ignoring_case(ta, tb);
    let p = letter_index(ta);
    lemma_trim_ignoring_case(ta.skip(p), tb.skip(p));
    lemma_unit_multiplier_ignoring_case(trim(ta.skip(p)), trim(tb.skip(p)));
}

/// Filters are read without regard to the ASCII case of their letters.
pub proof fn law_parse_size_filter_ignores_case(a: Seq<char>, b: Seq<char>)
    requires
        eq_ignoring_ascii_case(a, b),
    ensures
        parse_size_filter_spec(a) == parse_size_filter_spec(b),
{
    let ta = trim(a);
    let tb = trim(b);
    lemma_trim_ignoring_case(a, b);
    if ta.len() > 0 {
        assert(same_ignoring_ascii_case(ta[0], tb[0]));
    }
    if ta.len() > 1 {
        assert(same_ignoring_ascii_case(ta[1], tb[1]));
    }
    assert(operator_prefix(ta) == operator_prefix(tb));
    if let Some((op, k)) = operator_prefix(ta) {
        assert(eq_ignoring_ascii_case(ta.skip(k as int), tb.skip(k as int))) by {
            assert forall|i: int| 0 <= i < ta.skip(k as int).len() implies #[trigger] same_ignoring_ascii_case(
                ta.skip(k as int)[i],
                tb.skip(k as int)[i],
            ) by {
                assert(same_ignoring_ascii_case(ta[i + k], tb[i + k]));
            }
        }
        law_parse_size_ignores_case(ta.skip(k as int), tb.skip(k as int));
    }
}

/// Each operator is the integer comparison it names: `Gt` is `>`, `Ge` is
/// `>=`, `Lt` is `<`, `Le` is `<=` and `Eq` is `==`.
pub proof fn law_operator_comparisons(value: int, threshold: int)
    ensures
        SizeOp::Gt.holds(value, threshold) == (value > threshold),
        SizeOp::Ge.holds(value, threshold) == (value >= threshold),
        SizeOp::Lt.holds(value, threshold) == (value < threshold),
        SizeOp::Le.holds(value, threshold) == (value <= threshold),
        SizeOp::Eq.holds(value, threshold) == (value == threshold),
{
}

/// Each operator is written as its usual symbol.
pub proof fn law_operator_symbols()
    ensures
        SizeOp::Gt.symbol() == seq!['>'],
        SizeOp::Ge.symbol() == seq!['>', '='],
        SizeOp::Lt.symbol() == seq!['<'],
        SizeOp::Le.symbol() == seq!['<', '='],
        SizeOp::Eq.symbol() == seq!['='],
{
}

/// Arithmetic on sizes is arithmetic on their byte counts, wherever the
/// result fits in `i64`.
pub proof fn law_size_arithmetic(a: Size, b: Size, k: i64)
    ensures
        in_range(a@ + b@) ==> a.add_spec(b)@ == a@ + b@,
        in_range(a@ + k) ==> a.add_spec(k)@ == a@ + k,
        in_range(k + b@) ==> k.add_spec(b)@ == k + b@,
        in_range(a@ - b@) ==> a.sub_spec(b)@ == a@ - b@,
        in_range(a@ - k) ==> a.sub_spec(k)@ == a@ - k,
        in_range(k - b@) ==> k.sub_spec(b)@ == k - b@,
        in_range(a@ * k) ==> a.mul_spec(k)@ == a@ * k,
        in_range(k * b@) ==> k.mul_spec(b)@ == k * b@,
        a@ != i64::MIN ==> a.neg_spec()@ == -a@,
        division_defined(a@, k) ==> a.div_spec(k)@ == trunc_div(a@ as int, k as int),
        division_defined(a@, k) ==> a.rem_spec(k)@ == trunc_rem(a@ as int, k as int),
{
    broadcast use Size::lemma_view_of;

    if division_defined(a@, k) {
        lemma_trunc_div_fits(a@, k);
    }
}

/// Division rounds toward zero: the quotient and remainder rebuild the
/// dividend, the remainder is smaller than the divisor, and it is zero or
/// has the dividend's sign.
pub proof fn law_truncated_division(a: i64, b: i64)
    requires
        division_defined(a, b),
    ensures
        a == trunc_div(a as int, b as int) * b + trunc_rem(a as int, b as int),
        -(b as int) < trunc_rem(a as int, b as int) < b || b < trunc_rem(a as int, b as int) < -(
        b as int),
        trunc_rem(a as int, b as int) == 0 || (trunc_rem(a as int, b as int) < 0) == (a < 0),
{
    let x: int = if a >= 0 { a as int } else { -(a as int) };
    let bb = b as int;
    vstd::arithmetic::div_mod::lemma_fundamental_div_mod(x, bb);
    assert(0 <= x % bb < (if bb > 0 { bb } else { -bb })) by (nonlinear_arith)
        requires
            x >= 0,
            bb != 0,
    ;
    if a < 0 {
        assert(a == -(x / bb) * bb + -(x % bb)) by (nonlinear_arith)
            requires
                x == bb * (x / bb) + x % bb,
                a == -x,
        ;
    } else {
        assert(a == (x / bb) * bb + x % bb) by (nonlinear_arith)
            requires
                x == bb * (x / bb) + x % bb,
                a == x,
        ;
    }
}

/// `1024` to the power `k`.
pub open spec fn kib_power(k: nat) -> nat
    decreases k,
{
    if k == 0 { 1 } else { 1024 * kib_power((k - 1) as nat) }
}

/// The text of a size without its sign.
pub open spec fn unsigned_text(n: i64) -> Seq<char> {
    if n < 0 { format_spec(n).drop_first() } else { format_spec(n) }
}

/// What `format_size` writes: a `-` exactly for negative sizes; below one
/// kibibyte the digits of the magnitude and `B`; from one kibibyte up, for the
/// largest `k` in 1..=6 with `1024^k <= |n|`, digits, a point, one digit and
/// the `k`-th of `KB`, `MB`, `GB`, `TB`, `PB`, `EB`, where the digits read as
/// tenths lie within half a tenth of the magnitude (as an `f64` holds it) in
/// units of `1024^k`.
pub proof fn law_format_size_text(n: i64)
    ensures
        format_spec(n).len() > 0,
        (format_spec(n)[0] == '-') == (n < 0),
        ({
            let abs = abs_bytes(n);
            let body = unsigned_text(n);
            abs < 1024 ==> {
                &&& body.len() >= 2
                &&& body.last() == 'B'
                &&& all_digits(body.drop_last())
                &&& digits_value(body.drop_last()) == abs
            }
        }),
        forall|k: nat|
            1 <= k <= 6 && #[trigger] kib_power(k) <= abs_bytes(n) && (k == 6 || abs_bytes(n)
                < kib_power(k + 1)) ==> {
                let body = unsigned_text(n);
                let len = body.len();
                let whole = body.take(len - 4);
                let tenths_written = digits_value(whole) * 10 + digit_value(body[len - 3]);
                let u = kib_power(k);
                let y = float_round(abs_bytes(n));
                &&& len >= 5
                &&& body[len - 1] == 'B'
                &&& body[len - 2] == seq!['K', 'M', 'G', 'T', 'P', 'E'][k - 1]
                &&& is_digit(body[len - 3])
                &&& body[len - 4] == '.'
                &&& all_digits(whole)
                &&& 2 * (tenths_written * u - 10 * y) <= u
                &&& 2 * (10 * y - tenths_written * u) <= u
            },
{
    let abs = abs_bytes(n);
    let f = format_spec(n);
    let body = unsigned_text(n);
    let r = unit_rank(abs);
    assert(kib_power(1) == 1024 && kib_power(2) == 1048576 && kib_power(3) == 1073741824
        && kib_power(4) == 1099511627776 && kib_power(5) == 1125899906842624 && kib_power(6)
        == 1152921504606846976 && kib_power(7) == 1180591620717411303424) by {
        reveal_with_fuel(kib_power, 8);
    }
    if r == 0 {
        let dec = decimal_chars(abs);
        lemma_decimal_chars(abs);
        assert(body =~= dec + seq!['B']);
        assert(body.drop_last() =~= dec);
        if n >= 0 {
            assert(is_digit(dec[0]));
            assert(f[0] == dec[0]);
        }
    } else {
        let u = rank_bytes(r);
        let y = float_round(abs);
        let t = tenths(y, u);
        let dec = decimal_chars(t / 10);
        lemma_decimal_chars(t / 10);
        lemma_digit_char(t % 10);
        assert(body =~= dec + seq!['.', digit_char(t % 10), rank_letter(r), 'B']);
        assert(body.take(body.len() - 4) =~= dec);
        if n >= 0 {
            assert(is_digit(dec[0]));
            assert(f[0] == dec[0]);
        }
        let x = y * 10;
        vstd::arithmetic::div_mod::lemma_fundamental_div_mod(x as int, u as int);
        let q = x / u;
        let rm = x % u;
        assert(2 * (t * u - 10 * y) <= u && 2 * (10 * y - t * u) <= u) by (nonlinear_arith)
            requires
                x == u * q + rm,
                0 <= rm < u,
                x == y * 10,
                t == q + 1 || t == q,
                t == q + 1 ==> 2 * rm >= u,
                t == q ==> 2 * rm <= u,
        ;
        assert forall|k: nat|
            1 <= k <= 6 && #[trigger] kib_power(k) <= abs && (k == 6 || abs < kib_power(k + 1))
                implies k == r by {
            if k < 6 {
                assert(kib_power(k + 1) == 1024 * kib_power(k));
            }
        }
    }
}

/// The text of a filter is its operator's symbol followed by what
/// `format_size` writes for its threshold, whatever the threshold.
pub proof fn law_filter_text(f: SizeFilter)
    ensures
        f.text() == f.op.symbol() + format_spec(f.bytes),
        f.text().take(f.op.symbol().len() as int) == f.op.symbol(),
        f.text().skip(f.op.symbol().len() as int) == format_spec(f.bytes),
{
    assert(f.text().take(f.op.symbol().len() as int) =~= f.op.symbol());
    assert(f.text().skip(f.op.symbol().len() as int) =~= format_spec(f.bytes));
}

/// What parsing a filter gives once its operator is known: the operator
/// with the size that the rest parses to, or the error that the rest gives.
pub open spec fn filter_with(op: SizeOp, rest: Seq<char>) -> Result<SizeFilter, SizeError> {
    match parse_size_spec(rest) {
        Ok(bytes) => Ok(SizeFilter { op, bytes }),
        Err(e) => Err(e),
    }
}

/// A filter that starts with `>=` has the operator `Ge` and the size after it.
pub proof fn law_parse_filter_ge(s: Seq<char>, rest: Seq<char>)
    requires
        trim(s) == seq!['>', '='] + rest,
    ensures
        parse_size_filter_spec(s) == filter_with(SizeOp::Ge, rest),
{
    assert(trim(s).skip(2) =~= rest);
}

/// A filter that starts with `<=` has the operator `Le` and the size after it.
pub proof fn law_parse_filter_le(s: Seq<char>, rest: Seq<char>)
    requires
        trim(s) == seq!['<', '='] + rest,
    ensures
        parse_size_filter_spec(s) == filter_with(SizeOp::Le, rest),
{
    assert(trim(s).skip(2) =~= rest);
}

/// A filter that starts with `>` not followed by `=` has the operator `Gt` and
/// the size after it.
pub proof fn law_parse_filter_gt(s: Seq<char>, rest: Seq<char>)
    requires
        trim(s) == seq!['>'] + rest,
        rest.len() == 0 || rest[0] != '=',
    ensures
        parse_size_filter_spec(s) == filter_with(SizeOp::Gt, rest),
{
    assert(rest.len() > 0 ==> trim(s)[1] == rest[0]);
    assert(trim(s).skip(1) =~= rest);
}

/// A filter that starts with `<` not followed by `=` has the operator `Lt` and
/// the size after it.
pub proof fn law_parse_filter_lt(s: Seq<char>, rest: Seq<char>)
    requires
        trim(s) == seq!['<'] + rest,
        rest.len() == 0 || rest[0] != '=',
    ensures
        parse_size_filter_spec(s) == filter_with(SizeOp::Lt, rest),
{
    assert(rest.len() > 0 ==> trim(s)[1] == rest[0]);
    assert(trim(s).skip(1) =~= rest);
}

/// A filter that starts with `=` has the operator `Eq` and the size after it.
pub proof fn law_parse_filter_eq(s: Seq<char>, rest: Seq<char>)
    requires
        trim(s) == seq!['='] + rest,
    ensures
        parse_size_filter_spec(s) == filter_with(SizeOp::Eq, rest),
{
    assert(trim(s).skip(1) =~= rest);
}

} // verus!
