use xmltv_guide::sql::escape_string;
use xmltv_guide::text::{contains_lower, is_valid_query, join_with, lower_char, split_char, trim};
use xmltv_guide::{normalize_base_url, xmltv_url_all, xmltv_url_fr, xmltv_url_tnt};

#[test]
fn escape_doubles_single_quotes() {
    assert_eq!(escape_string("O'Brien"), "O''Brien");
    assert_eq!(escape_string("no quotes"), "no quotes");
    assert_eq!(escape_string("''"), "''''");
    assert_eq!(escape_string(""), "");
}

#[test]
fn trim_removes_surrounding_whitespace() {
    assert_eq!(trim("  hello \t"), "hello");
    assert_eq!(trim("hello"), "hello");
    assert_eq!(trim(" \n "), "");
    assert_eq!(trim("a b"), "a b");
}

#[test]
fn split_keeps_empty_pieces() {
    let r = split_char("a,b,,c", ',');
    assert_eq!(r, vec!["a", "b", "", "c"]);
    let single = split_char("", ',');
    assert_eq!(single, vec![""]);
}

#[test]
fn join_inserts_separator_between_items() {
    let items = vec!["a".to_string(), "b".to_string(), "c".to_string()];
    assert_eq!(join_with(&items, ", "), "a, b, c");
    let one = vec!["x".to_string()];
    assert_eq!(join_with(&one, ","), "x");
    let none: Vec<String> = Vec::new();
    assert_eq!(join_with(&none, ","), "");
}

#[test]
fn lower_char_folds_ascii_only() {
    assert_eq!(lower_char('A'), 'a');
    assert_eq!(lower_char('Z'), 'z');
    assert_eq!(lower_char('a'), 'a');
    assert_eq!(lower_char('7'), '7');
    assert_eq!(lower_char('é'), 'é');
}

#[test]
fn contains_lower_finds_folded_substrings() {
    assert!(contains_lower("The NEWS Hour", "news"));
    assert!(contains_lower("abc", ""));
    assert!(!contains_lower("short", "longer than hay"));
    assert!(!contains_lower("abc", "abd"));
}

#[test]
fn query_charset_is_lowercase_and_whitespace() {
    assert!(is_valid_query("evening news"));
    assert!(is_valid_query(""));
    assert!(!is_valid_query("News"));
    assert!(!is_valid_query("news7"));
    assert!(!is_valid_query("news-show"));
}

#[test]
fn base_url_normalization_appends_slash_once() {
    assert_eq!(normalize_base_url("http://feeds".to_string()), "http://feeds/");
    assert_eq!(normalize_base_url("http://feeds/".to_string()), "http://feeds/");
    assert_eq!(normalize_base_url("".to_string()), "/");
}

#[test]
fn archive_locations_follow_base() {
    assert_eq!(xmltv_url_all("http://feeds/"), "http://feeds/xmltv.zip");
    assert_eq!(xmltv_url_tnt("http://feeds/"), "http://feeds/xmltv_tnt.zip");
    assert_eq!(xmltv_url_fr("http://feeds/"), "http://feeds/xmltv_fr.zip");
}
