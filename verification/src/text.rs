//! Character-level building blocks shared by the parsers: whitespace
//! trimming, searching, and decimal digit strings.
use vstd::prelude::*;

verus! {

/// The characters with the Unicode `White_Space` property, which is the set
/// `str::trim` strips.
pub open spec fn is_space(c: char) -> bool {
    let u = c as u32;
    ||| 0x09 <= u <= 0x0D
    ||| u == 0x20
    ||| u == 0x85
    ||| u == 0xA0
    ||| u == 0x1680
    ||| 0x2000 <= u <= 0x200A
    ||| u == 0x2028
    ||| u == 0x2029
    ||| u == 0x202F
    ||| u == 0x205F
    ||| u == 0x3000
}

/// An ASCII letter, `a`-`z` or `A`-`Z`.
pub open spec fn is_ascii_letter(c: char) -> bool {
    ('a' <= c && c <= 'z') || ('A' <= c && c <= 'Z')
}

/// An ASCII decimal digit.
pub open spec fn is_digit(c: char) -> bool {
    '0' <= c && c <= '9'
}

/// The value of an ASCII decimal digit.
pub open spec fn digit_value(c: char) -> nat {
    ((c as u32) - ('0' as u32)) as nat
}

/// The character of a decimal digit `d < 10`.
pub open spec fn digit_char(d: nat) -> char {
    if d == 0 { '0' }
    else if d == 1 { '1' }
    else if d == 2 { '2' }
    else if d == 3 { '3' }
    else if d == 4 { '4' }
    else if d == 5 { '5' }
    else if d == 6 { '6' }
    else if d == 7 { '7' }
    else if d == 8 { '8' }
    else { '9' }
}

/// `s` without its leading whitespace.
pub open spec fn trim_start(s: Seq<char>) -> Seq<char>
    decreases s.len(),
{
    if s.len() > 0 && is_space(s[0]) {
        trim_start(s.drop_first())
    } else {
        s
    }
}

/// `s` without its trailing whitespace.
pub open spec fn trim_end(s: Seq<char>) -> Seq<char>
    decreases s.len(),
{
    if s.len() > 0 && is_space(s.last()) {
        trim_end(s.drop_last())
    } else {
        s
    }
}

/// `s` without leading and trailing whitespace, as `str::trim` gives it.
pub open spec fn trim(s: Seq<char>) -> Seq<char> {
    trim_end(trim_start(s))
}

/// The position of the first ASCII letter in `s`, or the length of `s` when
/// it holds none.
pub open spec fn letter_index(s: Seq<char>) -> int
    decreases s.len(),
{
    if s.len() == 0 {
        0
    } else if is_ascii_letter(s[0]) {
        0
    } else {
        1 + letter_index(s.drop_first())
    }
}

/// The position of the first `.` in `s`, or the length of `s` when it holds
/// none.
pub open spec fn dot_index(s: Seq<char>) -> int
    decreases s.len(),
{
    if s.len() == 0 {
        0
    } else if s[0] == '.' {
        0
    } else {
        1 + dot_index(s.drop_first())
    }
}

/// Every character of `s` is a decimal digit.
pub open spec fn all_digits(s: Seq<char>) -> bool {
    forall|i: int| 0 <= i < s.len() ==> #[trigger] is_digit(s[i])
}

/// The number that the decimal digits `s` spell (0 for the empty string).
pub open spec fn digits_value(s: Seq<char>) -> nat
    decreases s.len(),
{
    if s.len() == 0 {
        0
    } else {
        digits_value(s.drop_last()) * 10 + digit_value(s.last())
    }
}

/// `10` to the power `k`.
pub open spec fn pow10(k: nat) -> nat
    decreases k,
{
    if k == 0 { 1 } else { 10 * pow10((k - 1) as nat) }
}

/// The shortest decimal representation of `n`.
pub open spec fn decimal_chars(n: nat) -> Seq<char>
    decreases n,
{
    if n < 10 {
        seq![digit_char(n)]
    } else {
        decimal_chars(n / 10).push(digit_char(n % 10))
    }
}

/// Reading the digits of `s` from the front: the first digit stands for its
/// value times ten to the number of digits after it.
pub proof fn lemma_digits_value_first(s: Seq<char>)
    requires
        s.len() > 0,
    ensures
        digits_value(s) == digit_value(s[0]) * pow10((s.len() - 1) as nat) + digits_value(
            s.drop_first(),
        ),
    decreases s.len(),
{
    if s.len() == 1 {
        assert(digits_value(s.drop_last()) == 0);
        assert(digits_value(s.drop_first()) == 0);
        let p = pow10(0);
        let d = digit_value(s[0]);
        assert(d * p == d) by (nonlinear_arith)
            requires
                p == 1,
        ;
    } else {
        let t = s.drop_last();
        lemma_digits_value_first(t);
        assert(s.drop_first().drop_last() =~= t.drop_first());
        let d0 = digit_value(s[0]);
        let p = pow10((s.len() - 2) as nat);
        let x = digits_value(t.drop_first());
        assert(pow10((s.len() - 1) as nat) == 10 * p);
        assert((d0 * p + x) * 10 == d0 * (10 * p) + x * 10) by (nonlinear_arith);
    }
}

/// A string of `k` digits spells a number below `10^k`.
pub proof fn lemma_digits_value_bound(s: Seq<char>)
    requires
        all_digits(s),
    ensures
        digits_value(s) < pow10(s.len()),
    decreases s.len(),
{
    if s.len() > 0 {
        assert(is_digit(s[s.len() - 1]));
        assert(all_digits(s.drop_last())) by {
            assert forall|i: int| 0 <= i < s.drop_last().len() implies #[trigger] is_digit(
                s.drop_last()[i],
            ) by {
                assert(is_digit(s[i]));
            }
        }
        lemma_digits_value_bound(s.drop_last());
    }
}

/// Trimming leaves alone a string that starts and ends with non-whitespace.
pub proof fn lemma_trim_unchanged(s: Seq<char>)
    requires
        s.len() > 0,
        !is_space(s[0]),
        !is_space(s.last()),
    ensures
        trim(s) == s,
{
    assert(trim_start(s) == s);
}

/// Every character of `w` is whitespace.
pub open spec fn all_space(w: Seq<char>) -> bool {
    forall|i: int| 0 <= i < w.len() ==> #[trigger] is_space(w[i])
}

proof fn lemma_all_space_drop_first(w: Seq<char>)
    requires
        all_space(w),
        w.len() > 0,
    ensures
        all_space(w.drop_first()),
{
    assert forall|i: int| 0 <= i < w.drop_first().len() implies #[trigger] is_space(
        w.drop_first()[i],
    ) by {
        assert(w.drop_first()[i] == w[i + 1]);
    }
}

proof fn lemma_all_space_drop_last(w: Seq<char>)
    requires
        all_space(w),
        w.len() > 0,
    ensures
        all_space(w.drop_last()),
{
    assert forall|i: int| 0 <= i < w.drop_last().len() implies #[trigger] is_space(
        w.drop_last()[i],
    ) by {
        assert(w.drop_last()[i] == w[i]);
    }
}

/// Leading whitespace does not survive `trim_start`.
proof fn lemma_trim_start_skips_space(w: Seq<char>, s: Seq<char>)
    requires
        all_space(w),
    ensures
        trim_start(w + s) == trim_start(s),
    decreases w.len(),
{
    if w.len() > 0 {
        assert((w + s)[0] == w[0]);
        assert((w + s).drop_first() =~= w.drop_first() + s);
        lemma_all_space_drop_first(w);
        lemma_trim_start_skips_space(w.drop_first(), s);
    } else {
        assert(w + s =~= s);
    }
}

/// Trailing whitespace does not survive `trim_end`.
proof fn lemma_trim_end_skips_space(s: Seq<char>, w: Seq<char>)
    requires
        all_space(w),
    ensures
        trim_end(s + w) == trim_end(s),
    decreases w.len(),
{
    if w.len() > 0 {
        assert((s + w).last() == w.last());
        assert((s + w).drop_last() =~= s + w.drop_last());
        lemma_all_space_drop_last(w);
        lemma_trim_end_skips_space(s, w.drop_last());
    } else {
        assert(s + w =~= s);
    }
}

/// `trim_start` of a concatenation: the second part survives whole once the
/// first part holds something other than whitespace.
proof fn lemma_trim_start_append(s: Seq<char>, w: Seq<char>)
    ensures
        trim_start(s).len() > 0 ==> trim_start(s + w) == trim_start(s) + w,
        trim_start(s).len() == 0 ==> trim_start(s + w) == trim_start(w),
    decreases s.len(),
{
    if s.len() == 0 {
        assert(s + w =~= w);
    } else {
        assert((s + w)[0] == s[0]);
        if is_space(s[0]) {
            assert((s + w).drop_first() =~= s.drop_first() + w);
            lemma_trim_start_append(s.drop_first(), w);
        }
    }
}

/// An all-whitespace string trims to nothing.
proof fn lemma_trim_start_all_space(w: Seq<char>)
    requires
        all_space(w),
    ensures
        trim_start(w).len() == 0,
    decreases w.len(),
{
    if w.len() > 0 {
        lemma_all_space_drop_first(w);
        lemma_trim_start_all_space(w.drop_first());
    }
}

/// Whitespace around a string does not change what it trims to.
pub proof fn lemma_trim_padding(w1: Seq<char>, s: Seq<char>, w2: Seq<char>)
    requires
        all_space(w1),
        all_space(w2),
    ensures
        trim(w1 + s + w2) == trim(s),
{
    assert(w1 + s + w2 =~= w1 + (s + w2));
    lemma_trim_start_skips_space(w1, s + w2);
    lemma_trim_start_append(s, w2);
    if trim_start(s).len() == 0 {
        lemma_trim_start_all_space(w2);
        assert(trim_start(s) =~= trim_start(w2));
    } else {
        lemma_trim_end_skips_space(trim_start(s), w2);
    }
}

/// `c` and `d` are the same character up to ASCII case.
pub open spec fn same_ignoring_ascii_case(c: char, d: char) -> bool {
    ||| c == d
    ||| 'A' <= c <= 'Z' && d as u32 == c as u32 + 32
    ||| 'a' <= c <= 'z' && c as u32 == d as u32 + 32
}

/// `a` and `b` are the same string up to ASCII case.
pub open spec fn eq_ignoring_ascii_case(a: Seq<char>, b: Seq<char>) -> bool {
    &&& a.len() == b.len()
    &&& forall|i: int| 0 <= i < a.len() ==> #[trigger] same_ignoring_ascii_case(a[i], b[i])
}

/// Changing the case of a letter keeps it a letter, and characters that are
/// not letters stay as they are.
pub proof fn lemma_same_ignoring_case(c: char, d: char)
    requires
        same_ignoring_ascii_case(c, d),
    ensures
        is_ascii_letter(c) == is_ascii_letter(d),
        !is_ascii_letter(c) ==> c == d,
        is_space(c) == is_space(d),
{
}

proof fn lemma_case_drop_first(a: Seq<char>, b: Seq<char>)
    requires
        eq_ignoring_ascii_case(a, b),
        a.len() > 0,
    ensures
        eq_ignoring_ascii_case(a.drop_first(), b.drop_first()),
        same_ignoring_ascii_case(a[0], b[0]),
{
    assert forall|i: int| 0 <= i < a.drop_first().len() implies #[trigger] same_ignoring_ascii_case(
        a.drop_first()[i],
        b.drop_first()[i],
    ) by {
        assert(same_ignoring_ascii_case(a[i + 1], b[i + 1]));
    }
    assert(same_ignoring_ascii_case(a[0], b[0]));
}

proof fn lemma_case_drop_last(a: Seq<char>, b: Seq<char>)
    requires
        eq_ignoring_ascii_case(a, b),
        a.len() > 0,
    ensures
        eq_ignoring_ascii_case(a.drop_last(), b.drop_last()),
        same_ignoring_ascii_case(a.last(), b.last()),
{
    assert forall|i: int| 0 <= i < a.drop_last().len() implies #[trigger] same_ignoring_ascii_case(
        a.drop_last()[i],
        b.drop_last()[i],
    ) by {
        assert(same_ignoring_ascii_case(a[i], b[i]));
    }
    assert(same_ignoring_ascii_case(a[a.len() - 1], b[b.len() - 1]));
}

/// Trimming keeps two strings the same up to ASCII case.
pub proof fn lemma_trim_ignoring_case(a: Seq<char>, b: Seq<char>)
    requires
        eq_ignoring_ascii_case(a, b),
    ensures
        eq_ignoring_ascii_case(trim(a), trim(b)),
{
    lemma_trim_start_ignoring_case(a, b);
    lemma_trim_end_ignoring_case(trim_start(a), trim_start(b));
}

proof fn lemma_trim_start_ignoring_case(a: Seq<char>, b: Seq<char>)
    requires
        eq_ignoring_ascii_case(a, b),
    ensures
        eq_ignoring_ascii_case(trim_start(a), trim_start(b)),
    decreases a.len(),
{
    if a.len() > 0 {
        lemma_case_drop_first(a, b);
        lemma_same_ignoring_case(a[0], b[0]);
        if is_space(a[0]) {
            lemma_trim_start_ignoring_case(a.drop_first(), b.drop_first());
        }
    }
}

proof fn lemma_trim_end_ignoring_case(a: Seq<char>, b: Seq<char>)
    requires
        eq_ignoring_ascii_case(a, b),
    ensures
        eq_ignoring_ascii_case(trim_end(a), trim_end(b)),
    decreases a.len(),
{
    if a.len() > 0 {
        lemma_case_drop_last(a, b);
        lemma_same_ignoring_case(a.last(), b.last());
        if is_space(a.last()) {
            lemma_trim_end_ignoring_case(a.drop_last(), b.drop_last());
        }
    }
}

/// Case does not move the first letter, and what precedes it is identical.
pub proof fn lemma_letter_index_ignoring_case(a: Seq<char>, b: Seq<char>)
    requires
        eq_ignoring_ascii_case(a, b),
    ensures
        letter_index(a) == letter_index(b),
        0 <= letter_index(a) <= a.len(),
        a.take(letter_index(a)) == b.take(letter_index(b)),
        eq_ignoring_ascii_case(a.skip(letter_index(a)), b.skip(letter_index(b))),
    decreases a.len(),
{
    if a.len() > 0 {
        lemma_case_drop_first(a, b);
        lemma_same_ignoring_case(a[0], b[0]);
        if !is_ascii_letter(a[0]) {
            lemma_letter_index_ignoring_case(a.drop_first(), b.drop_first());
            let p = letter_index(a);
            assert(a.take(p) =~= seq![a[0]] + a.drop_first().take(p - 1));
            assert(b.take(p) =~= seq![b[0]] + b.drop_first().take(p - 1));
            assert(a.skip(p) =~= a.drop_first().skip(p - 1));
            assert(b.skip(p) =~= b.drop_first().skip(p - 1));
        } else {
            assert(a.take(0) =~= b.take(0));
            assert(a.skip(0) =~= a);
            assert(b.skip(0) =~= b);
        }
    } else {
        assert(a.take(0) =~= b.take(0));
        assert(a.skip(0) =~= a);
        assert(b.skip(0) =~= b);
    }
}

/// Characters before the first letter only shift its position.
pub proof fn lemma_letter_index_append(a: Seq<char>, b: Seq<char>)
    requires
        forall|i: int| 0 <= i < a.len() ==> !is_ascii_letter(#[trigger] a[i]),
    ensures
        letter_index(a + b) == a.len() + letter_index(b),
    decreases a.len(),
{
    if a.len() > 0 {
        assert((a + b)[0] == a[0]);
        assert((a + b).drop_first() =~= a.drop_first() + b);
        assert forall|i: int| 0 <= i < a.drop_first().len() implies !is_ascii_letter(
            #[trigger] a.drop_first()[i],
        ) by {
            assert(a.drop_first()[i] == a[i + 1]);
        }
        lemma_letter_index_append(a.drop_first(), b);
    } else {
        assert(a + b =~= b);
    }
}

/// Characters before the first `.` only shift its position.
pub proof fn lemma_dot_index_append(a: Seq<char>, b: Seq<char>)
    requires
        forall|i: int| 0 <= i < a.len() ==> #[trigger] a[i] != '.',
    ensures
        dot_index(a + b) == a.len() + dot_index(b),
    decreases a.len(),
{
    if a.len() > 0 {
        assert((a + b)[0] == a[0]);
        assert((a + b).drop_first() =~= a.drop_first() + b);
        assert forall|i: int| 0 <= i < a.drop_first().len() implies #[trigger] a.drop_first()[i]
            != '.' by {
            assert(a.drop_first()[i] == a[i + 1]);
        }
        lemma_dot_index_append(a.drop_first(), b);
    } else {
        assert(a + b =~= b);
    }
}

/// The value of a decimal digit written by `digit_char`.
pub proof fn lemma_digit_char(d: nat)
    requires
        d < 10,
    ensures
        is_digit(digit_char(d)),
        digit_value(digit_char(d)) == d,
{
}

/// `decimal_chars(n)` is a non-empty string of digits that spells `n`.
pub proof fn lemma_decimal_chars(n: nat)
    ensures
        decimal_chars(n).len() > 0,
        all_digits(decimal_chars(n)),
        digits_value(decimal_chars(n)) == n,
    decreases n,
{
    lemma_digit_char(n % 10);
    if n < 10 {
        let s = decimal_chars(n);
        assert(s.drop_last().len() == 0);
        assert(digits_value(s.drop_last()) == 0);
    } else {
        lemma_decimal_chars(n / 10);
        let s = decimal_chars(n);
        let prefix = decimal_chars(n / 10);
        assert(s.drop_last() =~= prefix);
        assert(s.last() == digit_char(n % 10));
        assert forall|i: int| 0 <= i < s.len() implies #[trigger] is_digit(s[i]) by {
            if i < prefix.len() {
                assert(s[i] == prefix[i]);
            }
        }
    }
}

pub(crate) fn is_space_char(c: char) -> (b: bool)
    ensures
        b == is_space(c),
{
    let u = c as u32;
    (0x09 <= u && u <= 0x0D) || u == 0x20 || u == 0x85 || u == 0xA0 || u == 0x1680
        || (0x2000 <= u && u <= 0x200A) || u == 0x2028 || u == 0x2029 || u == 0x202F
        || u == 0x205F || u == 0x3000
}

pub(crate) fn is_ascii_letter_char(c: char) -> (b: bool)
    ensures
        b == is_ascii_letter(c),
{
    ('a' <= c && c <= 'z') || ('A' <= c && c <= 'Z')
}

/// The characters of `s`, one by one.
pub(crate) fn chars_of(s: &str) -> (v: Vec<char>)
    ensures
        v@ == s@,
{
    let mut v: Vec<char> = Vec::new();
    for c in it: s.chars()
        invariant
            v@ == it.seq().take(it.index() as int),
    {
        v.push(c);
    }
    v
}

/// The bounds of `v[lo..hi]` with leading and trailing whitespace removed.
pub(crate) fn trim_range(v: &Vec<char>, lo: usize, hi: usize) -> (r: (usize, usize))
    requires
        lo <= hi <= v.len(),
    ensures
        lo <= r.0 <= r.1 <= hi,
        v@.subrange(r.0 as int, r.1 as int) == trim(v@.subrange(lo as int, hi as int)),
{
    let mut i = lo;
    while i < hi && is_space_char(v[i])
        invariant
            lo <= i <= hi <= v.len(),
            trim_start(v@.subrange(lo as int, hi as int)) == trim_start(
                v@.subrange(i as int, hi as int),
            ),
        decreases hi - i,
    {
        assert(v@.subrange(i as int, hi as int).drop_first() =~= v@.subrange(i + 1, hi as int));
        i = i + 1;
    }
    let mut j = hi;
    while j > i && is_space_char(v[j - 1])
        invariant
            lo <= i <= j <= hi <= v.len(),
            trim_end(v@.subrange(i as int, hi as int)) == trim_end(v@.subrange(i as int, j as int)),
        decreases j - i,
    {
        assert(v@.subrange(i as int, j as int).drop_last() =~= v@.subrange(i as int, j - 1));
        j = j - 1;
    }
    (i, j)
}

/// The position in `v[lo..hi]`, relative to `lo`, of the first ASCII letter.
pub(crate) fn letter_position(v: &Vec<char>, lo: usize, hi: usize) -> (p: usize)
    requires
        lo <= hi <= v.len(),
    ensures
        lo <= p <= hi,
        p - lo == letter_index(v@.subrange(lo as int, hi as int)),
{
    let mut i = lo;
    while i < hi && !is_ascii_letter_char(v[i])
        invariant
            lo <= i <= hi <= v.len(),
            letter_index(v@.subrange(lo as int, hi as int)) == (i
                - lo) + letter_index(v@.subrange(i as int, hi as int)),
        decreases hi - i,
    {
        assert(v@.subrange(i as int, hi as int).drop_first() =~= v@.subrange(i + 1, hi as int));
        i = i + 1;
    }
    i
}

/// The position in `v[lo..hi]`, relative to `lo`, of the first `.`.
pub(crate) fn dot_position(v: &Vec<char>, lo: usize, hi: usize) -> (p: usize)
    requires
        lo <= hi <= v.len(),
    ensures
        lo <= p <= hi,
        p - lo == dot_index(v@.subrange(lo as int, hi as int)),
{
    let mut i = lo;
    while i < hi && v[i] != '.'
        invariant
            lo <= i <= hi <= v.len(),
            dot_index(v@.subrange(lo as int, hi as int)) == (i - lo) + dot_index(
                v@.subrange(i as int, hi as int),
            ),
        decreases hi - i,
    {
        assert(v@.subrange(i as int, hi as int).drop_first() =~= v@.subrange(i + 1, hi as int));
        i = i + 1;
    }
    i
}

/// Whether every character of `v[lo..hi]` is a decimal digit.
pub(crate) fn all_digits_range(v: &Vec<char>, lo: usize, hi: usize) -> (b: bool)
    requires
        lo <= hi <= v.len(),
    ensures
        b == all_digits(v@.subrange(lo as int, hi as int)),
{
    let mut i = lo;
    while i < hi
        invariant
            lo <= i <= hi <= v.len(),
            all_digits(v@.subrange(lo as int, i as int)),
        decreases hi - i,
    {
        if !('0' <= v[i] && v[i] <= '9') {
            assert(!is_digit(v@.subrange(lo as int, hi as int)[i - lo]));
            return false;
        }
        assert(forall|k: int| 0 <= k < i + 1 - lo ==> #[trigger] v@.subrange(lo as int, i + 1)[k]
            == v@.subrange(lo as int, i as int)[k] || k == i - lo);
        i = i + 1;
    }
    true
}

/// Appends the digit `d < 10` to `s`.
pub(crate) fn push_digit(s: &mut String, d: u64)
    requires
        d < 10,
    ensures
        final(s)@ == old(s)@.push(digit_char(d as nat)),
{
    proof {
        reveal_strlit("0");
        reveal_strlit("1");
        reveal_strlit("2");
        reveal_strlit("3");
        reveal_strlit("4");
        reveal_strlit("5");
        reveal_strlit("6");
        reveal_strlit("7");
        reveal_strlit("8");
        reveal_strlit("9");
    }
    let t = if d == 0 { "0" }
        else if d == 1 { "1" }
        else if d == 2 { "2" }
        else if d == 3 { "3" }
        else if d == 4 { "4" }
        else if d == 5 { "5" }
        else if d == 6 { "6" }
        else if d == 7 { "7" }
        else if d == 8 { "8" }
        else { "9" };
    s.append(t);
    assert(final(s)@ =~= old(s)@.push(digit_char(d as nat)));
}

/// Appends the decimal representation of `n` to `s`.
pub(crate) fn push_decimal(s: &mut String, n: u64)
    ensures
        final(s)@ == old(s)@ + decimal_chars(n as nat),
    decreases n,
{
    if n >= 10 {
        push_decimal(s, n / 10);
    }
    push_digit(s, n % 10);
    assert(final(s)@ =~= old(s)@ + decimal_chars(n as nat));
}

} // verus!
