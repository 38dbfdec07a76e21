use squish::text::{
    chars_of, comes_before, is_whitespace, join_first, join_words, same_text, split_at_char,
    split_words, string_of, trim_text, trimmed_end, trimmed_start, has_prefix_at,
};

fn strings(words: &[&str]) -> Vec<String> {
    words.iter().map(|w| w.to_string()).collect()
}

#[test]
fn whitespace_is_the_unicode_white_space() {
    for c in [' ', '\t', '\n', '\r', '\u{0b}', '\u{0c}', '\u{85}', '\u{a0}', '\u{1680}', '\u{2000}', '\u{200a}', '\u{2028}', '\u{2029}', '\u{202f}', '\u{205f}', '\u{3000}'] {
        assert!(is_whitespace(c), "{:?}", c);
    }
    for c in ['a', '0', '_', '\u{200b}', '\u{feff}', '\u{1c}', '\u{8}', '\u{e}'] {
        assert!(!is_whitespace(c), "{:?}", c);
    }
}

#[test]
fn whitespace_agrees_with_the_standard_library_on_every_character() {
    let mut code: u32 = 0;
    while code <= 0x10ffff {
        if let Some(c) = char::from_u32(code) {
            assert_eq!(is_whitespace(c), c.is_whitespace(), "U+{:04X}", code);
        }
        code += 1;
    }
}

#[test]
fn chars_and_back() {
    let v = chars_of("héllo");
    assert_eq!(v, vec!['h', 'é', 'l', 'l', 'o']);
    assert_eq!(string_of(&v, 1, 4), "éll");
    assert_eq!(string_of(&v, 2, 2), "");
}

#[test]
fn same_text_compares_characters() {
    assert!(same_text("abc", "abc"));
    assert!(!same_text("abc", "abd"));
    assert!(!same_text("abc", "ab"));
    assert!(same_text("", ""));
}

#[test]
fn prefix_at_a_position() {
    let v = chars_of("  alias x");
    assert!(has_prefix_at(&v, 2, "alias "));
    assert!(!has_prefix_at(&v, 0, "alias "));
    assert!(has_prefix_at(&v, 9, ""));
    assert!(!has_prefix_at(&v, 8, "xy"));
}

#[test]
fn trim_cuts_white_space_at_both_ends() {
    assert_eq!(trim_text("  a b \t\n"), "a b");
    assert_eq!(trim_text(" \u{3000} "), "");
    assert_eq!(trim_text(""), "");
    assert_eq!(trim_text("x"), "x");
}

#[test]
fn trimmed_bounds() {
    let v = chars_of("  ab  ");
    assert_eq!(trimmed_end(&v), 4);
    assert_eq!(trimmed_start(&v, 4), 2);
    let blank = chars_of("   ");
    assert_eq!(trimmed_end(&blank), 0);
    assert_eq!(trimmed_start(&blank, 3), 3);
}

#[test]
fn split_words_on_any_white_space() {
    assert_eq!(split_words("  ls   -la\tx\n"), strings(&["ls", "-la", "x"]));
    assert_eq!(split_words(""), Vec::<String>::new());
    assert_eq!(split_words(" \t "), Vec::<String>::new());
    assert_eq!(split_words("one"), strings(&["one"]));
}

#[test]
fn join_words_with_single_spaces() {
    let parts = strings(&["a", "b", "c"]);
    assert_eq!(join_words(&parts, 0), "a b c");
    assert_eq!(join_words(&parts, 1), "b c");
    assert_eq!(join_words(&parts, 2), "c");
    assert_eq!(join_words(&parts, 3), "");
}

#[test]
fn split_at_char_keeps_empty_parts() {
    assert_eq!(split_at_char("a::b", ':'), strings(&["a", "", "b"]));
    assert_eq!(split_at_char("", ':'), strings(&[""]));
    assert_eq!(split_at_char(":", ':'), strings(&["", ""]));
    assert_eq!(split_at_char("abc", ':'), strings(&["abc"]));
}

#[test]
fn join_first_parts() {
    let parts = strings(&["a", "b", "c"]);
    assert_eq!(join_first(&parts, 2, ", "), "a, b");
    assert_eq!(join_first(&parts, 0, ", "), "");
    assert_eq!(join_first(&parts, 3, ""), "abc");
}

#[test]
fn order_of_strings() {
    assert!(comes_before("a", "b"));
    assert!(comes_before("a", "ab"));
    assert!(comes_before("", "a"));
    assert!(!comes_before("a", "a"));
    assert!(!comes_before("b", "a"));
    assert!(comes_before("Z", "a"));
    assert!(comes_before("z", "é"));
}

#[test]
fn order_of_strings_agrees_with_the_standard_order() {
    let samples = ["", "a", "ab", "b", "B", "aé", "az", "é", "\u{10000}", "\u{ffff}", "zz"];
    for x in samples {
        for y in samples {
            assert_eq!(comes_before(x, y), x < y, "{:?} {:?}", x, y);
        }
    }
}

#[test]
fn trim_and_split_agree_with_the_standard_library() {
    let samples = ["", " ", "a", " a ", "\ta b\n", "\u{3000}x\u{a0}y\u{2003}", "a\u{200b}b", "  leading", "trailing  ", "a  b   c", "\r\n", "é ñ"];
    for text in samples {
        assert_eq!(trim_text(text), text.trim(), "{:?}", text);
        let expected: Vec<String> = text.split_whitespace().map(|w| w.to_string()).collect();
        assert_eq!(split_words(text), expected, "{:?}", text);
        let parts: Vec<String> = text.split(' ').map(|w| w.to_string()).collect();
        assert_eq!(split_at_char(text, ' '), parts, "{:?}", text);
        assert_eq!(join_words(&expected, 0), expected.join(" "), "{:?}", text);
    }
}
