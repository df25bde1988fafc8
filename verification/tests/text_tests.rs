use dotenv_tool::text::{find_char, is_whitespace, str_eq, to_chars, trim, trim_range};

#[test]
fn whitespace_is_what_std_calls_whitespace() {
    let mut code: u32 = 0;
    while code <= 0x10ffff {
        if let Some(c) = char::from_u32(code) {
            assert_eq!(is_whitespace(c), c.is_whitespace(), "code point {:#x}", code);
        }
        code += 1;
    }
}

#[test]
fn whitespace_on_named_characters() {
    assert!(is_whitespace(' '));
    assert!(is_whitespace('\t'));
    assert!(is_whitespace('\n'));
    assert!(is_whitespace('\r'));
    assert!(is_whitespace('\u{a0}'));
    assert!(is_whitespace('\u{3000}'));
    assert!(!is_whitespace('='));
    assert!(!is_whitespace('#'));
    assert!(!is_whitespace('a'));
    assert!(!is_whitespace('\u{200b}'));
}

#[test]
fn to_chars_keeps_every_character() {
    assert_eq!(to_chars(""), Vec::<char>::new());
    assert_eq!(to_chars("a=b"), vec!['a', '=', 'b']);
    assert_eq!(to_chars("h\u{e9}\u{4e16}!"), vec!['h', '\u{e9}', '\u{4e16}', '!']);
}

#[test]
fn find_char_gives_first_index_or_end() {
    let chars = to_chars("a=b=c");
    assert_eq!(find_char(&chars, 0, 5, '='), 1);
    assert_eq!(find_char(&chars, 2, 5, '='), 3);
    assert_eq!(find_char(&chars, 4, 5, '='), 5);
    assert_eq!(find_char(&chars, 0, 1, '='), 1);
    assert_eq!(find_char(&chars, 0, 0, '='), 0);
    assert_eq!(find_char(&chars, 0, 5, 'z'), 5);
}

#[test]
fn trim_range_gives_bounds_of_trimmed_text() {
    let chars = to_chars("  ab c \t");
    assert_eq!(trim_range(&chars, 0, 8), (2, 6));
    assert_eq!(trim_range(&chars, 3, 8), (3, 6));
    assert_eq!(trim_range(&chars, 0, 2), (2, 2));
    assert_eq!(trim_range(&chars, 6, 8), (8, 8));
    assert_eq!(trim_range(&chars, 4, 4), (4, 4));
}

#[test]
fn trim_exact_values() {
    assert_eq!(trim(""), "");
    assert_eq!(trim("   "), "");
    assert_eq!(trim("a"), "a");
    assert_eq!(trim("  a b  "), "a b");
    assert_eq!(trim("\t\r\nkey \u{a0}"), "key");
    assert_eq!(trim("\u{3000}\u{4e16}\u{754c}\u{2003}"), "\u{4e16}\u{754c}");
}

#[test]
fn trim_agrees_with_std() {
    let samples = [
        "",
        " ",
        "x",
        " x",
        "x ",
        "  x  y  ",
        "\n\n",
        "\u{85}v\u{1680}",
        "\u{2028}a\u{2029}",
        "\u{202f}\u{205f}b = c\u{200a}",
        "\u{200b}zero width\u{200b}",
        "tr\u{e9}s bien \r\n",
    ];
    for s in samples {
        assert_eq!(trim(s), s.trim(), "trimming {:?}", s);
    }
}

#[test]
fn str_eq_compares_characters() {
    assert!(str_eq("", ""));
    assert!(str_eq("KEY", "KEY"));
    assert!(!str_eq("KEY", "key"));
    assert!(!str_eq("KEY", "KEY "));
    assert!(!str_eq("", "a"));
    assert!(!str_eq("ab", "ba"));
    assert!(str_eq("\u{4e16}\u{754c}", "\u{4e16}\u{754c}"));
    assert!(!str_eq("\u{4e16}", "\u{4e17}"));
}
