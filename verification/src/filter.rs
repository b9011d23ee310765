//! Comparison operators and size filters such as `">=1GB"`.
use vstd::prelude::*;

use crate::error::{SizeError, SizeResult};
use crate::format::{format_size, format_spec};
use crate::parse::{parse_size_range, parse_size_spec};
use crate::text::{chars_of, trim, trim_range};

verus! {

/// Size comparison operator.
#[derive(Debug, Clone, Copy, PartialEq, Eq, Structural)]
pub enum SizeOp {
    /// Greater than (`>`)
    Gt,
    /// Greater than or equal to (`>=`)
    Ge,
    /// Less than (`<`)
    Lt,
    /// Less than or equal to (`<=`)
    Le,
    /// Equal to (`=`)
    Eq,
}

impl SizeOp {
    /// All variants, in declaration order.
    pub const ALL: [SizeOp; 5] = [SizeOp::Gt, SizeOp::Ge, SizeOp::Lt, SizeOp::Le, SizeOp::Eq];

    /// The comparison this operator stands for.
    pub open spec fn holds(self, value: int, threshold: int) -> bool {
        match self {
            SizeOp::Gt => value > threshold,
            SizeOp::Ge => value >= threshold,
            SizeOp::Lt => value < threshold,
            SizeOp::Le => value <= threshold,
            SizeOp::Eq => value == threshold,
        }
    }

    /// The symbol of this operator.
    pub open spec fn symbol(self) -> Seq<char> {
        match self {
            SizeOp::Gt => seq!['>'],
            SizeOp::Ge => seq!['>', '='],
            SizeOp::Lt => seq!['<'],
            SizeOp::Le => seq!['<', '='],
            SizeOp::Eq => seq!['='],
        }
    }

    /// Apply this operator to two values.
    #[must_use]
    pub fn applies(self, value: i64, threshold: i64) -> (b: bool)
        ensures
            b == self.holds(value as int, threshold as int),
            self == SizeOp::Gt ==> (b <==> value > threshold),
            self == SizeOp::Ge ==> (b <==> value >= threshold),
            self == SizeOp::Lt ==> (b <==> value < threshold),
            self == SizeOp::Le ==> (b <==> value <= threshold),
            self == SizeOp::Eq ==> (b <==> value == threshold),
    {
        match self {
            SizeOp::Gt => value > threshold,
            SizeOp::Ge => value >= threshold,
            SizeOp::Lt => value < threshold,
            SizeOp::Le => value <= threshold,
            SizeOp::Eq => value == threshold,
        }
    }

    /// The symbol of this operator: `>`, `>=`, `<`, `<=` or `=`.
    pub fn to_string(&self) -> (s: String)
        ensures
            s@ == self.symbol(),
            *self == SizeOp::Gt ==> s@ == seq!['>'],
            *self == SizeOp::Ge ==> s@ == seq!['>', '='],
            *self == SizeOp::Lt ==> s@ == seq!['<'],
            *self == SizeOp::Le ==> s@ == seq!['<', '='],
            *self == SizeOp::Eq ==> s@ == seq!['='],
    {
        proof {
            reveal_strlit(">");
            reveal_strlit(">=");
            reveal_strlit("<");
            reveal_strlit("<=");
            reveal_strlit("=");
        }
        let t = match self {
            SizeOp::Gt => ">",
            SizeOp::Ge => ">=",
            SizeOp::Lt => "<",
            SizeOp::Le => "<=",
            SizeOp::Eq => "=",
        };
        t.to_owned()
    }
}

/// A size filter with operator (e.g., `>=1GB`, `<500KB`).
#[derive(Debug, Clone, Copy, PartialEq, Eq, Structural)]
pub struct SizeFilter {
    pub op: SizeOp,
    pub bytes: i64,
}

impl SizeFilter {
    /// Create a new filter from an operator and byte threshold.
    #[must_use]
    pub fn new(op: SizeOp, bytes: i64) -> (f: Self)
        ensures
            f.op == op,
            f.bytes == bytes,
    {
        SizeFilter { op, bytes }
    }

    /// Filter: `value > threshold`.
    #[must_use]
    pub fn gt(bytes: i64) -> (f: Self)
        ensures
            f.op == SizeOp::Gt,
            f.bytes == bytes,
    {
        SizeFilter { op: SizeOp::Gt, bytes }
    }

    /// Filter: `value >= threshold`.
    #[must_use]
    pub fn ge(bytes: i64) -> (f: Self)
        ensures
            f.op == SizeOp::Ge,
            f.bytes == bytes,
    {
        SizeFilter { op: SizeOp::Ge, bytes }
    }

    /// Filter: `value < threshold`.
    #[must_use]
    pub fn lt(bytes: i64) -> (f: Self)
        ensures
            f.op == SizeOp::Lt,
            f.bytes == bytes,
    {
        SizeFilter { op: SizeOp::Lt, bytes }
    }

    /// Filter: `value <= threshold`.
    #[must_use]
    pub fn le(bytes: i64) -> (f: Self)
        ensures
            f.op == SizeOp::Le,
            f.bytes == bytes,
    {
        SizeFilter { op: SizeOp::Le, bytes }
    }

    /// Filter: `value == threshold`.
    #[must_use]
    pub fn eq(bytes: i64) -> (f: Self)
        ensures
            f.op == SizeOp::Eq,
            f.bytes == bytes,
    {
        SizeFilter { op: SizeOp::Eq, bytes }
    }

    /// Check whether `value` (in bytes) passes this filter.
    #[must_use]
    pub fn matches(self, value: i64) -> (b: bool)
        ensures
            b == self.op.holds(value as int, self.bytes as int),
            self.op == SizeOp::Gt ==> (b <==> value > self.bytes),
            self.op == SizeOp::Ge ==> (b <==> value >= self.bytes),
            self.op == SizeOp::Lt ==> (b <==> value < self.bytes),
            self.op == SizeOp::Le ==> (b <==> value <= self.bytes),
            self.op == SizeOp::Eq ==> (b <==> value == self.bytes),
    {
        self.op.applies(value, self.bytes)
    }

    /// The text of this filter: its operator, then its threshold as
    /// `format_size` writes it.
    pub open spec fn text(self) -> Seq<char> {
        self.op.symbol() + format_spec(self.bytes)
    }

    /// The filter as text, e.g. `>=1.0GB`.
    pub fn to_string(&self) -> (s: String)
        ensures
            s@ == self.text(),
            s@ == self.op.symbol() + format_spec(self.bytes),
    {
        let mut s = self.op.to_string();
        let size = format_size(self.bytes);
        s.append(size.as_str());
        s
    }
}

impl std::str::FromStr for SizeFilter {
    type Err = SizeError;

    fn from_str(s: &str) -> (r: Result<Self, Self::Err>)
        ensures
            r == parse_size_filter_spec(s@),
    {
        parse_size_filter(s)
    }
}

/// The operator at the front of `t` and the number of characters it takes;
/// two-character operators are tried first.
pub open spec fn operator_prefix(t: Seq<char>) -> Option<(SizeOp, nat)> {
    if t.len() >= 2 && t[0] == '>' && t[1] == '=' {
        Some((SizeOp::Ge, 2))
    } else if t.len() >= 2 && t[0] == '<' && t[1] == '=' {
        Some((SizeOp::Le, 2))
    } else if t.len() >= 1 && t[0] == '>' {
        Some((SizeOp::Gt, 1))
    } else if t.len() >= 1 && t[0] == '<' {
        Some((SizeOp::Lt, 1))
    } else if t.len() >= 1 && t[0] == '=' {
        Some((SizeOp::Eq, 1))
    } else {
        None
    }
}

/// What parsing `s` as a filter gives: an operator at the front of `s`
/// without surrounding whitespace, then a size as `parse_size` reads it.
pub open spec fn parse_size_filter_spec(s: Seq<char>) -> SizeResult<SizeFilter> {
    let t = trim(s);
    match operator_prefix(t) {
        None => Err(SizeError::MissingOperator),
        Some((op, k)) => match parse_size_spec(t.skip(k as int)) {
            Ok(bytes) => Ok(SizeFilter { op, bytes }),
            Err(e) => Err(e),
        },
    }
}

/// Parse a size filter string like `">=1GB"`, `"<500KB"`, `"=0"`.
///
/// The operator is required. The characters of `s` are first copied into a
/// buffer, so parsing allocates once, in proportion to the length of the
/// input.
///
/// # Errors
///
/// Returns [`SizeError::MissingOperator`] if no operator is found,
/// or the [`SizeError`] that parsing the size after it gives.
pub fn parse_size_filter(s: &str) -> (r: SizeResult<SizeFilter>)
    ensures
        r == parse_size_filter_spec(s@),
{
    let v = chars_of(s);
    assert(v@.subrange(0, v@.len() as int) =~= v@);
    let (a, b) = trim_range(&v, 0, v.len());
    let ghost t = v@.subrange(a as int, b as int);
    let n = b - a;
    let (op, k): (SizeOp, usize) = if n >= 2 && v[a] == '>' && v[a + 1] == '=' {
        (SizeOp::Ge, 2)
    } else if n >= 2 && v[a] == '<' && v[a + 1] == '=' {
        (SizeOp::Le, 2)
    } else if n >= 1 && v[a] == '>' {
        (SizeOp::Gt, 1)
    } else if n >= 1 && v[a] == '<' {
        (SizeOp::Lt, 1)
    } else if n >= 1 && v[a] == '=' {
        (SizeOp::Eq, 1)
    } else {
        assert(n >= 1 ==> t[0] == v@[a as int]);
        return Err(SizeError::MissingOperator);
    };
    assert(t[0] == v@[a as int]);
    assert(n >= 2 ==> t[1] == v@[a + 1]);
    assert(operator_prefix(t) == Some((op, k as nat)));
    assert(t.skip(k as int) =~= v@.subrange(a + k, b as int));
    match parse_size_range(&v, a + k, b) {
        Ok(bytes) => Ok(SizeFilter { op, bytes }),
        Err(e) => Err(e),
    }
}

} // verus!
