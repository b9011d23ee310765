//! The `Size` newtype: a byte count with byte-level arithmetic.
use vstd::prelude::*;

use crate::error::SizeError;
use crate::format::{format_size, format_spec};
use crate::parse::{parse_size, parse_size_spec};
use crate::units::{GB, KB, MB, TB};

verus! {

/// A byte size that can be parsed from / formatted to a human-readable string.
#[derive(Debug, Clone, Copy, PartialEq, Eq, PartialOrd, Ord, Hash, Structural)]
pub struct Size(i64);

impl View for Size {
    type V = i64;

    /// The byte count.
    closed spec fn view(&self) -> i64 {
        self.0
    }
}

/// `a / b` rounded toward zero, as Rust's integer division does.
pub open spec fn trunc_div(a: int, b: int) -> int {
    if a >= 0 {
        a / b
    } else {
        -((-a) / b)
    }
}

/// The remainder that goes with `trunc_div`; it takes the sign of `a`.
pub open spec fn trunc_rem(a: int, b: int) -> int {
    if a >= 0 {
        a % b
    } else {
        -((-a) % b)
    }
}

/// A byte count that fits in `i64`.
pub open spec fn in_range(v: int) -> bool {
    i64::MIN <= v <= i64::MAX
}

impl Size {
    /// The size of `bytes` bytes.
    pub closed spec fn of(bytes: i64) -> Size {
        Size(bytes)
    }

    pub broadcast proof fn lemma_view_of(bytes: i64)
        ensures
            #[trigger] Size::of(bytes)@ == bytes,
    {
    }

    pub broadcast proof fn lemma_of_view(s: Size)
        ensures
            #[trigger] Size::of(s@) == s,
    {
    }

    /// Create a `Size` from a raw byte count.
    #[must_use]
    pub fn from_bytes(bytes: i64) -> (s: Self)
        ensures
            s@ == bytes,
    {
        Size(bytes)
    }

    /// Create a `Size` from a quantity of kilobytes (binary: 1024).
    #[must_use]
    pub fn from_kb(kb: i64) -> (s: Self)
        requires
            in_range(kb * KB),
        ensures
            s@ == kb * KB,
    {
        Size(kb * KB)
    }

    /// Create a `Size` from a quantity of megabytes (binary: 1024²).
    #[must_use]
    pub fn from_mb(mb: i64) -> (s: Self)
        requires
            in_range(mb * MB),
        ensures
            s@ == mb * MB,
    {
        Size(mb * MB)
    }

    /// Create a `Size` from a quantity of gigabytes (binary: 1024³).
    #[must_use]
    pub fn from_gb(gb: i64) -> (s: Self)
        requires
            in_range(gb * GB),
        ensures
            s@ == gb * GB,
    {
        Size(gb * GB)
    }

    /// Create a `Size` from a quantity of terabytes (binary: 1024⁴).
    #[must_use]
    pub fn from_tb(tb: i64) -> (s: Self)
        requires
            in_range(tb * TB),
        ensures
            s@ == tb * TB,
    {
        Size(tb * TB)
    }

    /// Return the raw byte count.
    #[must_use]
    pub fn bytes(self) -> (b: i64)
        ensures
            b == self@,
    {
        self.0
    }

    /// The size as human-readable text, as `format_size` writes it.
    pub fn to_string(&self) -> (s: String)
        ensures
            s@ == format_spec(self@),
    {
        format_size(self.0)
    }
}

impl Default for Size {
    /// Zero bytes.
    fn default() -> (s: Self)
        ensures
            s@ == 0,
    {
        Size(0)
    }
}

impl From<i64> for Size {
    fn from(v: i64) -> Size {
        Size(v)
    }
}

impl vstd::std_specs::convert::FromSpecImpl<i64> for Size {
    open spec fn obeys_from_spec() -> bool {
        true
    }

    open spec fn from_spec(v: i64) -> Size {
        Size::of(v)
    }
}

impl From<Size> for i64 {
    fn from(s: Size) -> i64 {
        s.0
    }
}

impl vstd::std_specs::convert::FromSpecImpl<Size> for i64 {
    open spec fn obeys_from_spec() -> bool {
        true
    }

    open spec fn from_spec(s: Size) -> i64 {
        s@
    }
}

impl std::str::FromStr for Size {
    type Err = SizeError;

    fn from_str(s: &str) -> (r: Result<Self, Self::Err>)
        ensures
            r == (match parse_size_spec(s@) {
                Ok(bytes) => Ok(Size::of(bytes)),
                Err(e) => Err(e),
            }),
    {
        match parse_size(s) {
            Ok(bytes) => Ok(Size(bytes)),
            Err(e) => Err(e),
        }
    }
}

// ── arithmetic ──────────────────────────────────────────────────────────────

impl core::ops::Add for Size {
    type Output = Size;

    fn add(self, rhs: Size) -> (r: Size)
        ensures
            r@ == self@ + rhs@,
    {
        Size(self.0 + rhs.0)
    }
}

impl vstd::std_specs::ops::AddSpecImpl for Size {
    open spec fn obeys_add_spec() -> bool {
        true
    }

    open spec fn add_req(self, rhs: Size) -> bool {
        in_range(self@ + rhs@)
    }

    open spec fn add_spec(self, rhs: Size) -> Size {
        Size::of((self@ + rhs@) as i64)
    }
}

impl core::ops::Add<i64> for Size {
    type Output = Size;

    fn add(self, rhs: i64) -> (r: Size)
        ensures
            r@ == self@ + rhs,
    {
        Size(self.0 + rhs)
    }
}

impl vstd::std_specs::ops::AddSpecImpl<i64> for Size {
    open spec fn obeys_add_spec() -> bool {
        true
    }

    open spec fn add_req(self, rhs: i64) -> bool {
        in_range(self@ + rhs)
    }

    open spec fn add_spec(self, rhs: i64) -> Size {
        Size::of((self@ + rhs) as i64)
    }
}

impl core::ops::Add<Size> for i64 {
    type Output = Size;

    fn add(self, rhs: Size) -> (r: Size)
        ensures
            r@ == self + rhs@,
    {
        Size(self + rhs.0)
    }
}

impl vstd::std_specs::ops::AddSpecImpl<Size> for i64 {
    open spec fn obeys_add_spec() -> bool {
        true
    }

    open spec fn add_req(self, rhs: Size) -> bool {
        in_range(self + rhs@)
    }

    open spec fn add_spec(self, rhs: Size) -> Size {
        Size::of((self + rhs@) as i64)
    }
}

impl core::ops::AddAssign for Size {
    fn add_assign(&mut self, rhs: Size)
        requires
            in_range(old(self)@ + rhs@),
        ensures
            final(self)@ == old(self)@ + rhs@,
    {
        self.0 = self.0 + rhs.0;
    }
}

impl core::ops::AddAssign<i64> for Size {
    fn add_assign(&mut self, rhs: i64)
        requires
            in_range(old(self)@ + rhs),
        ensures
            final(self)@ == old(self)@ + rhs,
    {
        self.0 = self.0 + rhs;
    }
}

impl core::ops::Sub for Size {
    type Output = Size;

    fn sub(self, rhs: Size) -> (r: Size)
        ensures
            r@ == self@ - rhs@,
    {
        Size(self.0 - rhs.0)
    }
}

impl vstd::std_specs::ops::SubSpecImpl for Size {
    open spec fn obeys_sub_spec() -> bool {
        true
    }

    open spec fn sub_req(self, rhs: Size) -> bool {
        in_range(self@ - rhs@)
    }

    open spec fn sub_spec(self, rhs: Size) -> Size {
        Size::of((self@ - rhs@) as i64)
    }
}

impl core::ops::Sub<i64> for Size {
    type Output = Size;

    fn sub(self, rhs: i64) -> (r: Size)
        ensures
            r@ == self@ - rhs,
    {
        Size(self.0 - rhs)
    }
}

impl vstd::std_specs::ops::SubSpecImpl<i64> for Size {
    open spec fn obeys_sub_spec() -> bool {
        true
    }

    open spec fn sub_req(self, rhs: i64) -> bool {
        in_range(self@ - rhs)
    }

    open spec fn sub_spec(self, rhs: i64) -> Size {
        Size::of((self@ - rhs) as i64)
    }
}

impl core::ops::Sub<Size> for i64 {
    type Output = Size;

    fn sub(self, rhs: Size) -> (r: Size)
        ensures
            r@ == self - rhs@,
    {
        Size(self - rhs.0)
    }
}

impl vstd::std_specs::ops::SubSpecImpl<Size> for i64 {
    open spec fn obeys_sub_spec() -> bool {
        true
    }

    open spec fn sub_req(self, rhs: Size) -> bool {
        in_range(self - rhs@)
    }

    open spec fn sub_spec(self, rhs: Size) -> Size {
        Size::of((self - rhs@) as i64)
    }
}

impl core::ops::SubAssign for Size {
    fn sub_assign(&mut self, rhs: Size)
        requires
            in_range(old(self)@ - rhs@),
        ensures
            final(self)@ == old(self)@ - rhs@,
    {
        self.0 = self.0 - rhs.0;
    }
}

impl core::ops::SubAssign<i64> for Size {
    fn sub_assign(&mut self, rhs: i64)
        requires
            in_range(old(self)@ - rhs),
        ensures
            final(self)@ == old(self)@ - rhs,
    {
        self.0 = self.0 - rhs;
    }
}

impl core::ops::Mul<i64> for Size {
    type Output = Size;

    fn mul(self, rhs: i64) -> (r: Size)
        ensures
            r@ == self@ * rhs,
    {
        Size(self.0 * rhs)
    }
}

impl vstd::std_specs::ops::MulSpecImpl<i64> for Size {
    open spec fn obeys_mul_spec() -> bool {
        true
    }

    open spec fn mul_req(self, rhs: i64) -> bool {
        in_range(self@ * rhs)
    }

    open spec fn mul_spec(self, rhs: i64) -> Size {
        Size::of((self@ * rhs) as i64)
    }
}

impl core::ops::Mul<Size> for i64 {
    type Output = Size;

    fn mul(self, rhs: Size) -> (r: Size)
        ensures
            r@ == self * rhs@,
    {
        Size(self * rhs.0)
    }
}

impl vstd::std_specs::ops::MulSpecImpl<Size> for i64 {
    open spec fn obeys_mul_spec() -> bool {
        true
    }

    open spec fn mul_req(self, rhs: Size) -> bool {
        in_range(self * rhs@)
    }

    open spec fn mul_spec(self, rhs: Size) -> Size {
        Size::of((self * rhs@) as i64)
    }
}

impl core::ops::MulAssign<i64> for Size {
    fn mul_assign(&mut self, rhs: i64)
        requires
            in_range(old(self)@ * rhs),
        ensures
            final(self)@ == old(self)@ * rhs,
    {
        self.0 = self.0 * rhs;
    }
}

/// Division and remainder of `a` by `b` are defined: `b` is not zero and the
/// quotient fits (`i64::MIN / -1` does not).
pub open spec fn division_defined(a: i64, b: i64) -> bool {
    b != 0 && !(a == i64::MIN && b == -1)
}

/// Where division is defined, the quotient and the remainder fit in `i64`.
pub proof fn lemma_trunc_div_fits(a: i64, b: i64)
    requires
        division_defined(a, b),
    ensures
        in_range(trunc_div(a as int, b as int)),
        in_range(trunc_rem(a as int, b as int)),
{
    let x: int = if a >= 0 { a as int } else { -(a as int) };
    assert(0 <= x / (b as int) <= x || -x <= x / (b as int) <= 0) by (nonlinear_arith)
        requires x >= 0, b != 0;
    assert(0 <= x % (b as int) < (if b > 0 { b as int } else { -(b as int) })) by (nonlinear_arith)
        requires x >= 0, b != 0;
    assert((b as int) <= -2 ==> x / (b as int) >= -(x / 2)) by (nonlinear_arith)
        requires x >= 0;
}

impl core::ops::Div<i64> for Size {
    type Output = Size;

    fn div(self, rhs: i64) -> (r: Size)
        ensures
            r@ == trunc_div(self@ as int, rhs as int),
    {
        proof {
            lemma_trunc_div_fits(self.0, rhs);
        }
        Size(self.0 / rhs)
    }
}

impl vstd::std_specs::ops::DivSpecImpl<i64> for Size {
    open spec fn obeys_div_spec() -> bool {
        true
    }

    open spec fn div_req(self, rhs: i64) -> bool {
        division_defined(self@, rhs)
    }

    open spec fn div_spec(self, rhs: i64) -> Size {
        Size::of(trunc_div(self@ as int, rhs as int) as i64)
    }
}

impl core::ops::DivAssign<i64> for Size {
    fn div_assign(&mut self, rhs: i64)
        requires
            division_defined(old(self)@, rhs),
        ensures
            final(self)@ == trunc_div(old(self)@ as int, rhs as int),
    {
        proof {
            lemma_trunc_div_fits(self.0, rhs);
        }
        self.0 = self.0 / rhs;
    }
}

impl core::ops::Rem<i64> for Size {
    type Output = Size;

    fn rem(self, rhs: i64) -> (r: Size)
        ensures
            r@ == trunc_rem(self@ as int, rhs as int),
    {
        proof {
            lemma_trunc_div_fits(self.0, rhs);
        }
        Size(self.0 % rhs)
    }
}

impl vstd::std_specs::ops::RemSpecImpl<i64> for Size {
    open spec fn obeys_rem_spec() -> bool {
        true
    }

    open spec fn rem_req(self, rhs: i64) -> bool {
        division_defined(self@, rhs)
    }

    open spec fn rem_spec(self, rhs: i64) -> Size {
        Size::of(trunc_rem(self@ as int, rhs as int) as i64)
    }
}

impl core::ops::RemAssign<i64> for Size {
    fn rem_assign(&mut self, rhs: i64)
        requires
            division_defined(old(self)@, rhs),
        ensures
            final(self)@ == trunc_rem(old(self)@ as int, rhs as int),
    {
        proof {
            lemma_trunc_div_fits(self.0, rhs);
        }
        self.0 = self.0 % rhs;
    }
}

impl core::ops::Neg for Size {
    type Output = Size;

    fn neg(self) -> (r: Size)
        ensures
            r@ == -self@,
    {
        Size(-self.0)
    }
}

impl vstd::std_specs::ops::NegSpecImpl for Size {
    open spec fn obeys_neg_spec() -> bool {
        true
    }

    open spec fn neg_req(self) -> bool {
        self@ != i64::MIN
    }

    open spec fn neg_spec(self) -> Size {
        Size::of((-self@) as i64)
    }
}

} // verus!
