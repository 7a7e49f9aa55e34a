use process_frontmatter::frontmatter::{parse_frontmatter, parse_line};
use process_frontmatter::text::{same_text, trim};

fn lines(texts: &[&str]) -> Vec<String> {
    texts.iter().map(|text| text.to_string()).collect()
}

fn pair(key: &str, value: &str) -> (String, String) {
    (key.to_string(), value.to_string())
}

#[test]
fn trim_removes_white_space_at_both_ends() {
    assert_eq!(trim("  a b \t"), "a b");
    assert_eq!(trim("\n\r\tkey\u{a0}\u{3000}"), "key");
}

#[test]
fn trim_keeps_a_text_without_white_space_around_it() {
    assert_eq!(trim("a b"), "a b");
    assert_eq!(trim("ö"), "ö");
}

#[test]
fn trim_of_white_space_alone_is_empty() {
    assert_eq!(trim(" \t\n "), "");
    assert_eq!(trim(""), "");
}

#[test]
fn line_is_split_at_its_first_colon() {
    assert_eq!(parse_line("author: Jane (@jane)"), Some(pair("author", "Jane (@jane)")));
    assert_eq!(parse_line("time: 12:30:05"), Some(pair("time", "12:30:05")));
}

#[test]
fn key_and_value_are_trimmed() {
    assert_eq!(parse_line("  title \t:   A  Book  "), Some(pair("title", "A  Book")));
}

#[test]
fn line_without_a_colon_gives_nothing() {
    assert_eq!(parse_line("no colon here"), None);
    assert_eq!(parse_line(""), None);
    assert_eq!(parse_line("   "), None);
}

#[test]
fn key_or_value_may_be_empty() {
    assert_eq!(parse_line(":"), Some(pair("", "")));
    assert_eq!(parse_line(": value"), Some(pair("", "value")));
    assert_eq!(parse_line("key:"), Some(pair("key", "")));
}

#[test]
fn colon_after_other_characters_than_ascii() {
    assert_eq!(parse_line("tïtle ☃: wért"), Some(pair("tïtle ☃", "wért")));
}

#[test]
fn entries_come_in_the_order_of_their_lines() {
    let parsed = parse_frontmatter(&lines(&["author: Jane (@jane)", "date: 2024-01-01", "b: 1", "a: 2"]));
    assert_eq!(
        parsed,
        vec![pair("author", "Jane (@jane)"), pair("date", "2024-01-01"), pair("b", "1"), pair("a", "2")]
    );
}

#[test]
fn malformed_lines_add_no_entry_and_keep_the_order() {
    let parsed = parse_frontmatter(&lines(&["a: 1", "nothing", "", "b: 2", "neither", "c: 3"]));
    assert_eq!(parsed, vec![pair("a", "1"), pair("b", "2"), pair("c", "3")]);
}

#[test]
fn duplicate_keys_are_kept() {
    let parsed = parse_frontmatter(&lines(&["tag: one", "tag: two", "tag: one"]));
    assert_eq!(parsed, vec![pair("tag", "one"), pair("tag", "two"), pair("tag", "one")]);
}

#[test]
fn no_lines_give_no_entries() {
    assert_eq!(parse_frontmatter(&[]), Vec::<(String, String)>::new());
    assert_eq!(parse_frontmatter(&lines(&["x", "y"])), Vec::<(String, String)>::new());
}

#[test]
fn same_text_compares_character_by_character() {
    assert!(same_text("", ""));
    assert!(same_text("+++", "+++"));
    assert!(same_text("aüthor ☃", "aüthor ☃"));
    assert!(!same_text("author", "Author"));
    assert!(!same_text("author", "authors"));
    assert!(!same_text("authors", "author"));
    assert!(!same_text("", "a"));
    assert!(!same_text("a", ""));
    assert!(!same_text("+++", "++-"));
}
