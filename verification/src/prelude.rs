//! Easy import of the crate's most common items.
pub use crate::{format_size, parse_size, parse_size_filter};
pub use crate::{Size, SizeError, SizeFilter, SizeOp, SizeResult};
pub use crate::{EB, GB, KB, MB, PB, TB};
