use pimtron::order::{lex_less, sort_desc_stable};
use pimtron::types::PostConfig;
use pimtron::text::{
    chars_of, clean, last_segment_of, lines_of, split, split_once, starts_with, trim,
    trim_start_matches, CharClass,
};

fn s(v: &Vec<char>) -> String {
    v.iter().collect()
}

#[test]
fn trim_removes_unicode_whitespace_on_both_ends() {
    let v = chars_of("\u{3000}\t hello world \u{a0}\n");
    assert_eq!(s(&trim(&v, &CharClass::Whitespace)), "hello world");
    assert_eq!(s(&trim(&chars_of("   "), &CharClass::Whitespace)), "");
}

#[test]
fn trim_matches_removes_repeated_quotes() {
    let v = chars_of("\"\"quoted\"");
    assert_eq!(s(&trim(&v, &CharClass::Exactly('"'))), "quoted");
}

#[test]
fn clean_value_strips_whitespace_then_quotes() {
    assert_eq!(s(&clean(&chars_of("  \"'My Title'\"  "))), "My Title");
    assert_eq!(s(&clean(&chars_of(" ' spaced ' "))), " spaced ");
}

#[test]
fn lines_follow_str_lines() {
    let text = "a\r\nb\n\nc\r";
    let ours: Vec<String> = lines_of(&chars_of(text)).iter().map(s).collect();
    let std_lines: Vec<String> = text.lines().map(|l| l.to_string()).collect();
    assert_eq!(ours, std_lines);
    assert_eq!(lines_of(&chars_of("")).len(), 0);
    assert_eq!(lines_of(&chars_of("x\n")).len(), 1);
}

#[test]
fn split_follows_str_split() {
    for text in ["a,b,,c", "", ",", "abc", "a,"] {
        let ours: Vec<String> = split(&chars_of(text), ',').iter().map(s).collect();
        let std_pieces: Vec<String> = text.split(',').map(|p| p.to_string()).collect();
        assert_eq!(ours, std_pieces);
    }
}

#[test]
fn split_once_at_first_colon() {
    let (k, v) = split_once(&chars_of("link: https://x.y"), ':').unwrap();
    assert_eq!(s(&k), "link");
    assert_eq!(s(&v), " https://x.y");
    assert!(split_once(&chars_of("no colon"), ':').is_none());
}

#[test]
fn prefixes() {
    assert!(starts_with(&chars_of("- name: x"), &chars_of("- name:")));
    assert!(!starts_with(&chars_of("- nam"), &chars_of("- name:")));
    assert_eq!(s(&trim_start_matches(&chars_of("././a"), &chars_of("./"))), "a");
    assert_eq!(s(&trim_start_matches(&chars_of("abc"), &chars_of(""))), "abc");
}

#[test]
fn last_segment_is_text_after_last_slash() {
    assert_eq!(s(&last_segment_of(&chars_of("at://did/coll/3abc"))), "3abc");
    assert_eq!(s(&last_segment_of(&chars_of("noslash"))), "noslash");
    assert_eq!(s(&last_segment_of(&chars_of("ends/"))), "");
}

#[test]
fn lex_less_is_str_order() {
    let words = ["", "a", "ab", "b", "B", "é", "December 30, 2025", "January 02, 2026"];
    for a in words {
        for b in words {
            assert_eq!(lex_less(&chars_of(a), &chars_of(b)), a < b, "{a:?} < {b:?}");
        }
    }
}

fn config(title: &str, date: &str) -> PostConfig {
    PostConfig {
        title: title.to_string(),
        date: date.to_string(),
        slug: title.to_lowercase(),
        summary: String::new(),
        projects: vec![],
    }
}

#[test]
fn sort_is_descending_and_stable() {
    let items = vec![
        config("one", "b"),
        config("two", "a"),
        config("three", "c"),
        config("four", "b"),
        config("five", "a"),
    ];
    let sorted = sort_desc_stable(items);
    let order: Vec<&str> = sorted.iter().map(|k| k.title.as_str()).collect();
    assert_eq!(order, vec!["three", "one", "four", "two", "five"]);
}

#[test]
fn whitespace_class_is_char_is_whitespace() {
    for code in 0u32..=0x10FFFF {
        if let Some(c) = char::from_u32(code) {
            assert_eq!(pimtron::text::is_whitespace_char(c), c.is_whitespace(), "{code:#x}");
        }
    }
}

#[test]
fn ascii_alnum_class_is_std() {
    for code in 0u32..=0x2FF {
        let c = char::from_u32(code).unwrap();
        assert_eq!(pimtron::text::is_ascii_alnum_char(c), c.is_ascii_alphanumeric());
    }
}
