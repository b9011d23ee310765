use sizefilter::{
    format_size, parse_size, parse_size_filter, SizeFilter, SizeOp, EB, GB, KB, MB, PB,
};

#[test]
fn format_then_parse_gives_exact_sizes_back() {
    let cases = [
        0i64, 7, 1023, -1023, KB, 1536, -1536, 3 * MB / 2, 5 * GB / 2, PB, 3 * EB / 2,
        i64::MIN, -7 * EB,
    ];
    for &bytes in &cases {
        assert_eq!(parse_size(&format_size(bytes)), Ok(bytes), "for {}", bytes);
    }
}

#[test]
fn format_then_parse_rounds_inexact_sizes() {
    // 1500 bytes are shown as 1.5KB, which is 1536 bytes
    assert_eq!(format_size(1500), "1.5KB");
    assert_eq!(parse_size(&format_size(1500)), Ok(1536));
}

#[test]
fn filter_text_then_parse_gives_the_filter_back() {
    let cases = [
        SizeFilter::le(i64::MIN),
        SizeFilter::ge(3 * EB / 2),
        SizeFilter::eq(-1536),
        SizeFilter::lt(1023),
        SizeFilter::gt(-7),
    ];
    for f in cases {
        assert_eq!(parse_size_filter(&f.to_string()), Ok(f));
    }
}

#[test]
fn padding_is_ignored() {
    assert_eq!(parse_size("\u{3000} 1.5KB\u{A0}\n"), parse_size("1.5KB"));
    assert_eq!(parse_size("\u{2003}-2MB\u{85}"), Ok(-2 * MB));
    assert_eq!(
        parse_size_filter("\u{205F}<=1GB\u{2028}"),
        parse_size_filter("<=1GB")
    );
}

#[test]
fn case_is_ignored() {
    assert_eq!(parse_size("1.5kB"), parse_size("1.5KB"));
    assert_eq!(parse_size("2Gb"), Ok(2 * GB));
    assert_eq!(parse_size("3e"), Ok(3 * EB));
    assert_eq!(parse_size_filter(">=2gB"), parse_size_filter(">=2GB"));
    assert_eq!(parse_size("1xB"), parse_size("1XB"));
}

#[test]
fn matches_follows_the_operator() {
    for op in SizeOp::ALL {
        for value in [-5i64, 4, 5, 6] {
            let f = SizeFilter::new(op, 5);
            assert_eq!(f.matches(value), op.applies(value, 5));
        }
    }
    assert!(SizeOp::Ge.applies(5, 5) && !SizeOp::Gt.applies(5, 5));
    assert!(SizeOp::Le.applies(4, 5) && SizeOp::Lt.applies(4, 5));
}
