use pty_core::text::{contains_str, flatten_script, split_lines_str, str_eq, trim_str};

#[test]
fn str_eq_basic() {
    assert!(str_eq("abc", "abc"));
    assert!(!str_eq("abc", "abd"));
    assert!(!str_eq("abc", "ab"));
    assert!(str_eq("", ""));
}

#[test]
fn contains_finds_shell_names() {
    assert!(contains_str("/usr/bin/zsh", "zsh"));
    assert!(contains_str("/usr/local/bin/bash", "bash"));
    assert!(!contains_str("/usr/bin/fish", "zsh"));
    assert!(contains_str("anything", ""));
    assert!(!contains_str("ab", "abc"));
}

#[test]
fn trim_removes_blanks() {
    assert_eq!(trim_str("  a b\t\r  "), "a b");
    assert_eq!(trim_str(""), "");
    assert_eq!(trim_str(" \t\r"), "");
    assert_eq!(trim_str("x"), "x");
}

#[test]
fn split_lines_keeps_trailing_empty_part() {
    assert_eq!(split_lines_str("a\nb"), vec!["a".to_string(), "b".to_string()]);
    assert_eq!(split_lines_str("a\n"), vec!["a".to_string(), "".to_string()]);
    assert_eq!(split_lines_str(""), vec!["".to_string()]);
    assert_eq!(
        split_lines_str("a\n\nb"),
        vec!["a".to_string(), "".to_string(), "b".to_string()]
    );
}

#[test]
fn flatten_joins_trimmed_nonblank_lines() {
    assert_eq!(flatten_script("a\n\n  b \nc"), "a; b; c");
    assert_eq!(flatten_script(""), "");
    assert_eq!(flatten_script("\n \n\t\n"), "");
    assert_eq!(flatten_script("one"), "one");
    assert_eq!(flatten_script("  solo  \n"), "solo");
}
