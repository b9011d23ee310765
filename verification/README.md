# sizefilter

Human-readable size strings: parsing (`"1.5GB"`), formatting (`"1.5GB"`),
byte-level arithmetic on a `Size` newtype, and filters with comparison
operators (`">=1GB"`, `"<500KB"`, `"=0"`). Units are binary (1 KB = 1024 B).

The library in `src/` is written in Verus and proved against its contracts:

- `parse_size` returns exactly `parse_size_spec(s@)`: the decimal number is
  scaled by its unit with exact integer arithmetic, rounded toward zero, and
  held at `i64::MIN` / `i64::MAX` where it does not fit.
- `format_size` returns exactly `format_spec(size)`: one decimal place from
  one kibibyte up, rounded to the nearest tenth (exact halves to even), of
  the magnitude as an `f64` holds it (rounded to 53 significant bits).
- `parse_size_filter`, `SizeFilter::matches`, `SizeOp::applies` and the
  `Size` constructors and operators each state their result exactly.
- `src/laws.rs` proves that parsing what `format_size` writes gives the size
  back whenever that text is exact, the same for filters, and that parsing
  ignores surrounding whitespace and the ASCII case of letters.

Layout:

- `src/text.rs` — whitespace, trimming, digits and their lemmas
- `src/units.rs` — unit constants and suffixes
- `src/parse.rs` — `parse_size`
- `src/format.rs` — `format_size`
- `src/filter.rs` — `SizeOp`, `SizeFilter`, `parse_size_filter`
- `src/size.rs` — `Size` and its arithmetic
- `src/error.rs` — `SizeError`
- `src/laws.rs` — properties across functions
- `app/lib.rs` — `Display`, `std::error::Error` and serde support through
  wrapper types (`SerdeSize`, `SerdeSizeFilter`, `SizeErrorText`)
