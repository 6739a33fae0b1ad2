use macro_workshop::text::{chars_of, decimal, join_segments, parse_usize_from, str_lt};

#[test]
fn decimal_spelling() {
    assert_eq!(decimal(0), "0");
    assert_eq!(decimal(7), "7");
    assert_eq!(decimal(10), "10");
    assert_eq!(decimal(64), "64");
    assert_eq!(decimal(usize::MAX), usize::MAX.to_string());
}

#[test]
fn parse_like_from_str() {
    let p = |s: &str| {
        let c = chars_of(s);
        parse_usize_from(&c, 0)
    };
    assert_eq!(p("42"), Some(42));
    assert_eq!(p("+42"), Some(42));
    assert_eq!(p("007"), Some(7));
    assert_eq!(p(""), None);
    assert_eq!(p("+"), None);
    assert_eq!(p("-1"), None);
    assert_eq!(p("1 "), None);
    assert_eq!(p(&usize::MAX.to_string()), Some(usize::MAX));
    assert_eq!(p("99999999999999999999999"), None);
    for s in ["0", "12", "+3", "++3", "x", "18446744073709551616"] {
        assert_eq!(p(s), s.parse::<usize>().ok());
    }
    let c = chars_of("B12");
    assert_eq!(parse_usize_from(&c, 1), Some(12));
}

#[test]
fn string_order() {
    for (a, b) in [("A", "B"), ("A", "AB"), ("AB", "A"), ("B", "a"), ("", "A"), ("A", ""), ("x", "x"), ("é", "z")] {
        assert_eq!(str_lt(a, b), a < b, "{} < {}", a, b);
    }
}

#[test]
fn join_with_separator() {
    let parts = vec!["a".to_string(), "b".to_string(), "c".to_string()];
    assert_eq!(join_segments(&parts, "::"), "a::b::c");
    assert_eq!(join_segments(&vec![], "::"), "");
    assert_eq!(join_segments(&vec!["x".to_string()], "::"), "x");
}
