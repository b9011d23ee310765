use sizefilter::{format_size, parse_size, parse_size_filter, Size, SizeError, SizeOp, EB, KB, MB};

#[test]
fn parse_saturates_at_the_i64_range() {
    assert_eq!(parse_size("10EB"), Ok(i64::MAX));
    assert_eq!(parse_size("8EB"), Ok(i64::MAX));
    assert_eq!(parse_size("-8EB"), Ok(i64::MIN));
    assert_eq!(parse_size("-10EB"), Ok(i64::MIN));
    assert_eq!(parse_size("99999999999999999999999"), Ok(i64::MAX));
    assert_eq!(parse_size("9223372036854775807"), Ok(i64::MAX));
    assert_eq!(parse_size("-9223372036854775808"), Ok(i64::MIN));
    assert_eq!(parse_size("7.99EB"), Ok(9_211_842_821_808_707_338));
}

#[test]
fn parse_is_exact() {
    assert_eq!(parse_size("9007199254740993"), Ok(9_007_199_254_740_993));
    assert_eq!(parse_size("0.0009765625KB"), Ok(1));
    assert_eq!(parse_size("0.00097656249KB"), Ok(0));
    assert_eq!(parse_size("-0.0009765625KB"), Ok(-1));
    assert_eq!(parse_size("1.999999999999999999999999K"), Ok(2047));
}

#[test]
fn number_forms() {
    assert_eq!(parse_size("+5KB"), Ok(5 * KB));
    assert_eq!(parse_size("5."), Ok(5));
    assert_eq!(parse_size(".5KB"), Ok(512));
    assert_eq!(parse_size("-.5KB"), Ok(-512));
    assert_eq!(parse_size("5 B"), Ok(5));
    assert_eq!(parse_size("007"), Ok(7));
    assert_eq!(parse_size("."), Err(SizeError::InvalidNumber));
    assert_eq!(parse_size("-"), Err(SizeError::InvalidNumber));
    assert_eq!(parse_size("+"), Err(SizeError::InvalidNumber));
    assert_eq!(parse_size("- 5"), Err(SizeError::InvalidNumber));
    assert_eq!(parse_size("--5"), Err(SizeError::InvalidNumber));
    assert_eq!(parse_size("1,5KB"), Err(SizeError::InvalidNumber));
    assert_eq!(parse_size("\u{FF11}KB"), Err(SizeError::InvalidNumber));
    assert_eq!(parse_size("1e5"), Err(SizeError::UnknownUnit));
    assert_eq!(parse_size("5KiB"), Err(SizeError::UnknownUnit));
    assert_eq!(parse_size("5BB"), Err(SizeError::UnknownUnit));
    assert_eq!(parse_size("5K B"), Err(SizeError::UnknownUnit));
}

#[test]
fn format_rounds_to_nearest_tenth() {
    assert_eq!(format_size(1331), "1.3KB");
    assert_eq!(format_size(1229), "1.2KB");
    assert_eq!(format_size(1075), "1.0KB");
    assert_eq!(format_size(1076), "1.1KB");
    assert_eq!(format_size(1048575), "1024.0KB");
    assert_eq!(format_size(-1048575), "-1024.0KB");
}

#[test]
fn format_rounds_exact_halves_to_even() {
    assert_eq!(format_size(1280), "1.2KB");
    assert_eq!(format_size(1792), "1.8KB");
    assert_eq!(format_size(2304), "2.2KB");
    assert_eq!(format_size(5 * EB / 4), "1.2EB");
}

#[test]
fn format_reads_the_magnitude_as_a_double() {
    // 9513854212820173 is held as 9513854212820172, i.e. 8.4499.. PB
    assert_eq!(format_size(9_513_854_212_820_173), "8.4PB");
    assert_eq!(format_size(-9_513_854_212_820_173), "-8.4PB");
    // 1.25 EB + 1 is held as 1.25 EB, an exact half
    assert_eq!(format_size(5 * EB / 4 + 1), "1.2EB");
    assert_eq!(format_size(5 * EB / 4 + 512), "1.3EB");
    assert_eq!(format_size(i64::MAX), "8.0EB");
}

#[test]
fn format_units() {
    assert_eq!(format_size(3 * MB / 2), "1.5MB");
    assert_eq!(format_size(EB), "1.0EB");
    assert_eq!(format_size(-EB), "-1.0EB");
    assert_eq!(format_size(-1), "-1B");
}

#[test]
fn filter_operator_forms() {
    assert_eq!(parse_size_filter("=>1KB"), Err(SizeError::InvalidNumber));
    assert_eq!(parse_size_filter("=-1KB").map(|f| (f.op, f.bytes)), Ok((SizeOp::Eq, -KB)));
    assert_eq!(parse_size_filter("< =1KB"), Err(SizeError::InvalidNumber));
    assert_eq!(parse_size_filter(">=1XB"), Err(SizeError::UnknownUnit));
    assert_eq!(parse_size_filter("  "), Err(SizeError::MissingOperator));
}

#[test]
fn arithmetic_truncates_toward_zero() {
    assert_eq!(Size::from_bytes(-7) / 2, Size::from_bytes(-3));
    assert_eq!(Size::from_bytes(-7) % 2, Size::from_bytes(-1));
    assert_eq!(Size::from_bytes(7) % -4, Size::from_bytes(3));
    assert_eq!(Size::from_bytes(7) / -4, Size::from_bytes(-1));
    let mut s = Size::from_bytes(-9);
    s /= 4;
    assert_eq!(s, Size::from_bytes(-2));
    s %= 3;
    assert_eq!(s, Size::from_bytes(-2));
}

#[test]
fn arithmetic_mixes_sizes_and_integers() {
    assert_eq!(10i64 - Size::from_bytes(3), Size::from_bytes(7));
    let mut s = Size::from_bytes(10);
    s -= 4i64;
    assert_eq!(s, Size::from_bytes(6));
    assert_eq!(-(-Size::from_kb(3)), Size::from_kb(3));
    assert_eq!(Size::from_gb(2).bytes(), 2 * 1_073_741_824);
    assert_eq!(Size::from_tb(-1).bytes(), -1_099_511_627_776);
}

#[test]
fn size_text() {
    assert_eq!(Size::from_bytes(1536).to_string(), "1.5KB");
    assert_eq!("2.0GB".parse::<Size>().map(|s| s.to_string()), Ok("2.0GB".to_string()));
    assert_eq!("1XB".parse::<Size>(), Err(SizeError::UnknownUnit));
}
