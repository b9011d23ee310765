//! `sizefilter` — human-readable size string parsing, formatting, and
//! filtering.
//!
//! Handles strings like `">=1GB"`, `"<500KB"`, `"1024"` — parsing them into
//! byte counts, formatting bytes back to human-readable, and applying
//! comparison filters. Units are binary (1 KB = 1024 B).
mod error;
mod filter;
mod format;
pub mod laws;
mod parse;
pub mod prelude;
mod size;
pub mod text;
mod units;

pub use error::{SizeError, SizeResult};
pub use filter::{operator_prefix, parse_size_filter, parse_size_filter_spec, SizeFilter, SizeOp};
pub use format::{
    abs_bytes, format_size, format_spec, rank_bytes, rank_letter, tenths, unit_rank,
};
pub use parse::{
    magnitude, parse_number, parse_size, parse_size_spec, saturation_bound, signed_bytes,
    DecimalNumber,
};
pub use size::{division_defined, in_range, trunc_div, trunc_rem, Size};
pub use units::{
    is_byte_letter, prefix_multiplier, unit_multiplier_of, EB, GB, KB, MB, PB, TB,
};
