use lingua::text::{
    chars_of, find_char, has_at, replaced, same_chars, slice_of, split_chars, string_of, trimmed,
    whitespace, without_suffix, CharClass,
};

fn chars(text: &str) -> Vec<char> {
    text.chars().collect()
}

fn text(chars: &[char]) -> String {
    chars.iter().collect()
}

fn pieces(s: &str, sep: char) -> Vec<String> {
    split_chars(&chars(s), sep).iter().map(|piece| text(piece)).collect()
}

#[test]
fn chars_and_strings_go_both_ways() {
    assert_eq!(chars_of("Grüß 你"), chars("Grüß 你"));
    assert_eq!(string_of(&chars("Grüß 你")), "Grüß 你");
    assert_eq!(string_of(&chars_of("")), "");
}

#[test]
fn split_gives_one_more_piece_than_separators() {
    assert_eq!(pieces("menu.file.save", '.'), vec!["menu", "file", "save"]);
    assert_eq!(pieces("hello", '.'), vec!["hello"]);
    assert_eq!(pieces("", '.'), vec![""]);
    assert_eq!(pieces(".", '.'), vec!["", ""]);
    assert_eq!(pieces("a..b.", '.'), vec!["a", "", "b", ""]);
    let standard: Vec<String> = "a..b.".split('.').map(|piece| piece.to_string()).collect();
    assert_eq!(pieces("a..b.", '.'), standard);
}

#[test]
fn find_char_gives_the_first_position() {
    assert_eq!(find_char(&chars("a=b=c"), '='), Some(1));
    assert_eq!(find_char(&chars("=a"), '='), Some(0));
    assert_eq!(find_char(&chars("abc"), '='), None);
    assert_eq!(find_char(&chars(""), '='), None);
}

#[test]
fn has_at_and_same_chars() {
    assert!(has_at(&chars("hello"), 1, &chars("ell")));
    assert!(has_at(&chars("hello"), 5, &chars("")));
    assert!(!has_at(&chars("hello"), 6, &chars("")));
    assert!(!has_at(&chars("hello"), 3, &chars("low")));
    assert!(!has_at(&chars("hello"), usize::MAX, &chars("h")));
    assert!(same_chars(&chars("abc"), &chars("abc")));
    assert!(!same_chars(&chars("abc"), &chars("abd")));
    assert!(!same_chars(&chars("abc"), &chars("ab")));
    assert_eq!(slice_of(&chars("hello"), 1, 3), chars("el"));
}

#[test]
fn whitespace_is_what_the_standard_library_says() {
    let mut code: u32 = 0;
    while code <= 0x10FFFF {
        if let Some(c) = char::from_u32(code) {
            assert_eq!(whitespace(c), c.is_whitespace(), "U+{:04X}", code);
        }
        code += 1;
    }
}

#[test]
fn trimmed_strips_both_ends_only() {
    assert_eq!(text(&trimmed(&chars("  a b \t\n"), CharClass::Whitespace)), "a b");
    assert_eq!(text(&trimmed(&chars("   "), CharClass::Whitespace)), "");
    assert_eq!(text(&trimmed(&chars(""), CharClass::Whitespace)), "");
    assert_eq!(text(&trimmed(&chars("\"\"a\"b\""), CharClass::Exactly('"'))), "a\"b");
    assert_eq!(text(&trimmed(&chars("\"\"\""), CharClass::Exactly('"'))), "");
    assert_eq!(text(&trimmed(&chars("abc"), CharClass::Exactly('"'))), "abc");
}

#[test]
fn replaced_is_what_the_standard_library_gives() {
    let cases = [
        ("Hello, {{name}}!", "{{name}}", "Alice"),
        ("aaaa", "aa", "b"),
        ("aaa", "aa", "b"),
        ("abab", "ab", "abab"),
        ("{{{{x}}}}", "{{x}}", "y"),
        ("", "x", "y"),
        ("xyz", "xyz", ""),
        ("xyz", "xyzz", "-"),
        ("ü{{n}}ü", "{{n}}", "ß"),
    ];
    for (s, pat, to) in cases {
        assert_eq!(text(&replaced(&chars(s), &chars(pat), &chars(to))), s.replace(pat, to));
    }
    assert_eq!(text(&replaced(&chars("Hello, {{name}}!"), &chars("{{name}}"), &chars("Alice"))), "Hello, Alice!");
    assert_eq!(text(&replaced(&chars("aaa"), &chars("aa"), &chars("b"))), "ba");
}

#[test]
fn empty_pattern_replaces_nothing() {
    assert_eq!(text(&replaced(&chars("abc"), &chars(""), &chars("-"))), "abc");
}

#[test]
fn without_suffix_strips_every_repetition() {
    assert_eq!(text(&without_suffix(&chars("de.json"), &chars(".json"))), "de");
    assert_eq!(text(&without_suffix(&chars("de.json.json"), &chars(".json"))), "de");
    assert_eq!(text(&without_suffix(&chars("de.jsonx"), &chars(".json"))), "de.jsonx");
    assert_eq!(text(&without_suffix(&chars(".json"), &chars(".json"))), "");
    assert_eq!(text(&without_suffix(&chars("abc"), &chars(""))), "abc");
    assert_eq!("de.json.json".trim_end_matches(".json"), "de");
}
