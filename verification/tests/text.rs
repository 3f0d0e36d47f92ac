use hermes::text::{decimal_text, split_at_colon, split_whitespace, white_space};

#[test]
fn white_space_is_that_of_unicode() {
    for code in 0..=0x10ffffu32 {
        if let Some(c) = char::from_u32(code) {
            assert_eq!(white_space(c), c.is_whitespace());
        }
    }
}

#[test]
fn words_are_those_of_the_standard_library() {
    let lines = [
        "",
        " ",
        "GET",
        "GET key",
        "  PUT\tkey \u{3000} value  ",
        "a\u{85}b\u{a0}c\u{1680}d\u{2003}e\u{2028}f\u{2029}g\u{202f}h\u{205f}i",
        "zw\u{200b}sp stays \u{1f600} here",
        "\r\nline\r\n",
    ];
    for line in lines {
        let expected: Vec<String> = line.split_whitespace().map(|w| w.to_string()).collect();
        assert_eq!(split_whitespace(line), expected);
    }
}

#[test]
fn words_are_solid() {
    for word in split_whitespace(" one  two\u{2009}three ") {
        assert!(!word.is_empty());
        assert!(word.chars().all(|c| !white_space(c)));
    }
}

#[test]
fn decimal_is_that_of_the_standard_library() {
    for n in [0usize, 1, 9, 10, 11, 99, 100, 255, 1000, 1024, usize::MAX] {
        assert_eq!(decimal_text(n), n.to_string());
    }
}

#[test]
fn decimal_numbers_differ() {
    assert_ne!(decimal_text(1), decimal_text(10));
    assert_ne!(decimal_text(12), decimal_text(21));
}

#[test]
fn one_colon_splits() {
    assert_eq!(split_at_colon("left:right"), Some(("left".to_string(), "right".to_string())));
    assert_eq!(split_at_colon(":"), Some((String::new(), String::new())));
    assert_eq!(split_at_colon("\u{e9}:\u{1f600}x"), Some(("\u{e9}".to_string(), "\u{1f600}x".to_string())));
}

#[test]
fn other_numbers_of_colons_do_not_split() {
    assert_eq!(split_at_colon(""), None);
    assert_eq!(split_at_colon("none"), None);
    assert_eq!(split_at_colon("a:b:c"), None);
    assert_eq!(split_at_colon("::"), None);
}
