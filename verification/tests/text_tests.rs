use lush::text::{chars_of, is_whitespace, join, lines, same_text, sort_strings, string_of, trim, trim_class, Split, Trim, TrimClass};

fn owned_all(v: &[&str]) -> Vec<String> {
    v.iter().map(|s| s.to_string()).collect()
}

#[test]
fn trim_removes_surrounding_whitespace() {
    assert_eq!(Trim("   Hello, World!   ".to_string()), "Hello, World!");
    assert_eq!(Trim("\t\n x y \r\n".to_string()), "x y");
    assert_eq!(Trim("   ".to_string()), "");
    assert_eq!(Trim(String::new()), "");
}

#[test]
fn trim_uses_unicode_white_space() {
    assert_eq!(trim("\u{3000}\u{a0}word\u{2029}"), "word");
    assert!(is_whitespace('\u{85}'));
    assert!(is_whitespace('\u{200a}'));
    assert!(!is_whitespace('\u{200b}'));
    assert!(!is_whitespace('x'));
}

#[test]
fn trim_class_strips_one_character() {
    assert_eq!(trim_class("//usr/local//", TrimClass::Char('/')), "usr/local");
    assert_eq!(trim_class("////", TrimClass::Char('/')), "");
    assert_eq!(trim_class("  a  ", TrimClass::Char('/')), "  a  ");
}

#[test]
fn split_on_separator() {
    assert_eq!(Split("Hello, World!".to_string(), ", ".to_string()), owned_all(&["Hello", "World!"]));
    assert_eq!(Split("a,b,".to_string(), ",".to_string()), owned_all(&["a", "b", ""]));
    assert_eq!(Split("abc".to_string(), ";".to_string()), owned_all(&["abc"]));
    assert_eq!(Split(String::new(), ",".to_string()), owned_all(&[""]));
}

#[test]
fn split_empty_separator_splits_on_whitespace() {
    assert_eq!(Split("a\tb c".to_string(), String::new()), owned_all(&["a", "b", "c"]));
    assert_eq!(Split("  a b  c\n".to_string(), String::new()), owned_all(&["a", "b", "c"]));
    assert_eq!(Split("one".to_string(), String::new()), owned_all(&["one"]));
    assert_eq!(Split(" \t\u{3000}".to_string(), String::new()), owned_all(&[]));
    assert_eq!(Split(String::new(), String::new()), owned_all(&[]));
    let text = "x\u{a0}y\r\nz  w";
    let expected: Vec<String> = text.split_whitespace().map(|w| w.to_string()).collect();
    assert_eq!(Split(text.to_string(), String::new()), expected);
}

#[test]
fn join_undoes_split() {
    let s = "a--b----c--";
    let parts = Split(s.to_string(), "--".to_string());
    assert_eq!(parts, owned_all(&["a", "b", "", "c", ""]));
    assert_eq!(join(&parts, "--"), s);
}

#[test]
fn join_with_separator() {
    assert_eq!(join(&owned_all(&["x", "y", "z"]), ", "), "x, y, z");
    assert_eq!(join(&owned_all(&[]), ", "), "");
    assert_eq!(join(&owned_all(&["only"]), "/"), "only");
}

#[test]
fn lines_like_std() {
    assert_eq!(lines("a\r\nb\n\nc\n"), owned_all(&["a", "b", "", "c"]));
    assert_eq!(lines("x\r"), owned_all(&["x\r"]));
    assert_eq!(lines(""), owned_all(&[]));
    assert_eq!(lines("\n"), owned_all(&[""]));
    let text = "one\ntwo\r\nthree";
    let expected: Vec<String> = text.lines().map(|l| l.to_string()).collect();
    assert_eq!(lines(text), expected);
}

#[test]
fn sort_strings_by_bytes() {
    let sorted = sort_strings(owned_all(&["b.c", "a.c", "B.c", "a.c"]));
    assert_eq!(sorted, owned_all(&["B.c", "a.c", "a.c", "b.c"]));
    assert_eq!(sort_strings(owned_all(&[])), owned_all(&[]));
}

#[test]
fn same_text_compares_exactly() {
    assert!(same_text("cmake", "cmake"));
    assert!(!same_text("cmake", "CMake"));
    assert!(!same_text("", " "));
}

#[test]
fn chars_round_trip() {
    let v = chars_of("héllo");
    assert_eq!(v, vec!['h', 'é', 'l', 'l', 'o']);
    assert_eq!(string_of(&v), "héllo");
}
