use tk::aspect::parse_u32;
use tk::parse_aspect;

fn ratio(s: &str) -> Option<f64> {
    parse_aspect(s).map(|(x, y)| x as f64 / y as f64)
}

#[test]
fn parses_common_ratios() {
    assert_eq!(parse_aspect("16x9"), Some((16, 9)));
    assert!((ratio("16x9").unwrap() - 16.0 / 9.0).abs() < 1e-12);
    assert_eq!(ratio("1x1"), Some(1.0));
}

#[test]
fn rejects_non_numeric_sides() {
    assert_eq!(parse_aspect("abcxdef"), None);
    assert_eq!(parse_aspect("16xdef"), None);
    assert_eq!(parse_aspect("abcx9"), None);
}

#[test]
fn rejects_missing_separator() {
    assert_eq!(parse_aspect("16"), None);
    assert_eq!(parse_aspect(""), None);
    assert_eq!(parse_aspect("16x"), None);
    assert_eq!(parse_aspect("x9"), None);
}

#[test]
fn splits_at_first_separator_only() {
    assert_eq!(parse_aspect("1x2x3"), None);
    assert_eq!(parse_aspect("16x9x4"), None);
    assert_eq!(parse_aspect("16x9xabc"), None);
    assert_eq!(parse_aspect("+16x+9"), Some((16, 9)));
}

#[test]
fn zero_sides_parse() {
    assert_eq!(parse_aspect("0x1"), Some((0, 1)));
    assert_eq!(parse_aspect("1x0"), Some((1, 0)));
}

#[test]
fn parse_u32_matches_std() {
    for s in ["0", "42", "+7", "+", "", "-1", " 1", "1 ", "4294967295", "4294967296", "99999999999", "00012", "1a"] {
        assert_eq!(parse_u32(s.as_bytes()), s.parse::<u32>().ok(), "{}", s);
    }
}
