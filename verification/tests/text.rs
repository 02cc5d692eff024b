use tortia::text::{
    decimal_text, eq_ignore_ascii_case, is_white_space, join_texts, same, split, split_once, starts_with,
    to_ascii_lowercase, trim, trim_start_matches,
};

#[test]
fn white_space_is_that_of_unicode() {
    let mut code: u32 = 0;
    while code <= 0x10ffff {
        if let Some(c) = char::from_u32(code) {
            assert_eq!(is_white_space(c), c.is_whitespace(), "{code:x}");
        }
        code += 1;
    }
}

#[test]
fn trims_both_ends() {
    for s in ["", " ", "a", " a b\t\n", "\u{3000}x\u{a0}", "\u{200b}x", "  \u{2028}  ", "é "] {
        assert_eq!(trim(s), s.trim());
    }
}

#[test]
fn drops_every_leading_letter() {
    for s in ["", "v", "vv1.2", "1.2v", "xv", "Vv"] {
        assert_eq!(trim_start_matches(s, 'v'), s.trim_start_matches('v'));
    }
}

#[test]
fn splits_at_the_first_separator() {
    for s in ["", "a", "a@b", "a@b@c", "@", "@x", "x@", "é@ü"] {
        assert_eq!(split_once(s, '@'), s.split_once('@'));
    }
}

#[test]
fn splits_at_every_separator() {
    for s in ["", "a", "a/b", "/a//b/", "é/ü"] {
        let expected: Vec<&str> = s.split('/').collect();
        assert_eq!(split(s, '/'), expected);
    }
}

#[test]
fn joins_with_a_separator() {
    let none: Vec<String> = Vec::new();
    assert_eq!(join_texts(&none, ":"), "");
    assert_eq!(join_texts(&vec!["a".to_string()], ":"), "a");
    assert_eq!(join_texts(&vec!["a".to_string(), "".to_string(), "b".to_string()], ":"), "a::b");
}

#[test]
fn lowers_ascii_letters_only() {
    for s in ["", "ABCxyz", "Pip3", "ÄÖÜ", "K", "A\u{301}"] {
        assert_eq!(to_ascii_lowercase(s), s.to_ascii_lowercase());
    }
    assert!(eq_ignore_ascii_case("LaTeSt", "latest"));
    assert!(!eq_ignore_ascii_case("latest ", "latest"));
    assert!(!eq_ignore_ascii_case("É", "é"));
}

#[test]
fn compares_and_looks_at_the_start() {
    assert!(same("node", "node"));
    assert!(!same("node", "nod"));
    assert!(starts_with("tortia-build-1", "tortia-build"));
    assert!(starts_with("x", ""));
    assert!(!starts_with("tortia", "tortia-build"));
}

#[test]
fn writes_decimal_digits() {
    for n in [0u128, 9, 10, 99, 100, 1_700_000_000_123_456_789, u128::MAX] {
        assert_eq!(decimal_text(n), n.to_string());
    }
}
