use zcode_usage::opencode::remove_str;
use zcode_usage::text::{
    chars_of, join_by, split_by, squash, str_contains, str_ends_with, str_is, str_starts_with,
    trim_matches_char, trim_string,
};

fn cs(s: &str) -> Vec<char> {
    s.chars().collect()
}

fn pieces(v: &[Vec<char>]) -> Vec<String> {
    v.iter().map(|p| p.iter().collect()).collect()
}

#[test]
fn split_by_cuts_at_every_separator() {
    let r = split_by(&cs("a,b,,c"), &cs(","));
    assert_eq!(pieces(&r), vec!["a", "b", "", "c"]);
}

#[test]
fn split_by_without_separator_gives_the_whole_text() {
    let r = split_by(&cs("abc"), &cs("::"));
    assert_eq!(pieces(&r), vec!["abc"]);
    let e = split_by(&cs(""), &cs("x"));
    assert_eq!(pieces(&e), vec![""]);
}

#[test]
fn split_by_takes_occurrences_left_to_right_without_overlap() {
    let r = split_by(&cs("aaa"), &cs("aa"));
    assert_eq!(pieces(&r), vec!["", "a"]);
    let std_split: Vec<&str> = "xaaay".split("aa").collect();
    assert_eq!(pieces(&split_by(&cs("xaaay"), &cs("aa"))), std_split);
}

#[test]
fn join_by_puts_the_separator_between_pieces() {
    let p = vec![cs("a"), cs(""), cs("bc")];
    let j: String = join_by(&p, &cs("--")).into_iter().collect();
    assert_eq!(j, "a----bc");
    let none: Vec<Vec<char>> = Vec::new();
    assert!(join_by(&none, &cs(",")).is_empty());
}

#[test]
fn squash_collapses_white_space() {
    let s: String = squash(&cs("  6 days\t\n2   hours ")).into_iter().collect();
    assert_eq!(s, "6 days 2 hours");
    let e: String = squash(&cs(" \t ")).into_iter().collect();
    assert_eq!(e, "");
}

#[test]
fn trim_string_drops_outer_white_space() {
    assert_eq!(trim_string(&"\u{3000} ab c \n".to_string()), "ab c");
}

#[test]
fn remove_str_is_replace_with_nothing() {
    assert_eq!(remove_str("rollingUsage", "Usage"), "rolling");
    assert_eq!(remove_str("UsUsageage", "Usage"), "UsUsageage".replace("Usage", ""));
    assert_eq!(remove_str("plain", "Usage"), "plain");
}

#[test]
fn string_predicates() {
    let s = "sess_abc".to_string();
    assert!(str_starts_with(&s, "sess_"));
    assert!(!str_starts_with(&s, "abc"));
    assert!(str_ends_with(&s, "abc"));
    assert!(str_contains(&s, "s_a"));
    assert!(!str_contains(&s, "subagent"));
    assert!(str_is(&s, "sess_abc"));
    assert!(!str_is(&s, "sess_ab"));
}

#[test]
fn concat_and_chars() {
    let a = "ab".to_string();
    let b = "cd".to_string();
    assert_eq!(zcode_usage::text::concat(&a, &b), "abcd");
    assert_eq!(chars_of("héllo").len(), 5);
    assert_eq!(trim_matches_char(&"//a/b//".to_string(), '/'), "a/b");
}

#[test]
fn empty_patterns_behave_as_in_std() {
    let std_split: Vec<&str> = "abc".split("").collect();
    assert_eq!(pieces(&split_by(&cs("abc"), &cs(""))), std_split);
    let empty: Vec<&str> = "".split("").collect();
    assert_eq!(pieces(&split_by(&cs(""), &cs(""))), empty);
    assert_eq!(remove_str("abc", ""), "abc".replace("", ""));
}
