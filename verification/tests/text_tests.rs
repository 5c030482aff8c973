use trackfish::text::{
    chars_of, contains_char, contains_str, ends_with, matches_at, replace, split_any, split_str,
    starts_with, string_from, to_ascii_lowercase, trim, trim_bounds,
};

fn strings(v: &[&str]) -> Vec<String> {
    v.iter().map(|s| s.to_string()).collect()
}

#[test]
fn chars_and_substrings() {
    let v = chars_of("héllo");
    assert_eq!(v, vec!['h', 'é', 'l', 'l', 'o']);
    assert_eq!(string_from(&v, 1, 4), "éll");
    assert_eq!(string_from(&v, 2, 2), "");
    assert!(matches_at(&v, &chars_of("ll"), 2));
    assert!(!matches_at(&v, &chars_of("ll"), 3));
    assert!(!matches_at(&v, &chars_of("lo!"), 3));
}

#[test]
fn ascii_lowercase_leaves_other_letters() {
    assert_eq!(to_ascii_lowercase("ÀBC def"), "Àbc def");
    assert_eq!(to_ascii_lowercase(""), "");
}

#[test]
fn searching() {
    assert!(contains_str("feat. someone", "feat."));
    assert!(contains_str("abc", ""));
    assert!(!contains_str("ab", "abc"));
    assert!(starts_with("Queen - Topic", "Queen"));
    assert!(!starts_with("Queen", "Queen!"));
    assert!(ends_with("Queen - Topic", "- Topic"));
    assert!(!ends_with("Topic", "- Topic"));
    assert!(contains_char(&vec![',', '&'], '&'));
    assert!(!contains_char(&vec![], 'a'));
}

#[test]
fn trimming_unicode_white_space() {
    assert_eq!(trim("  a b \n"), "a b");
    assert_eq!(trim("\u{3000}x\u{a0}"), "x");
    assert_eq!(trim("   "), "");
    assert_eq!(trim_bounds(&chars_of(" ab ")), (1, 3));
    assert_eq!(trim_bounds(&chars_of("  ")), (2, 2));
}

#[test]
fn splitting() {
    assert_eq!(split_any("a,b&c", &vec![',', '&']), strings(&["a", "b", "c"]));
    assert_eq!(split_any(",", &vec![',']), strings(&["", ""]));
    assert_eq!(split_any("", &vec![',']), strings(&[""]));
    assert_eq!(split_str("a--b--", "--"), strings(&["a", "b", ""]));
    assert_eq!(split_str("aaa", "aa"), strings(&["", "a"]));
    assert_eq!(split_str("none", "x"), strings(&["none"]));
}

#[test]
fn replacing() {
    assert_eq!(replace("aaa", "a", "b"), "bbb");
    assert_eq!(replace("aaaa", "aa", "x"), "xx");
    assert_eq!(replace("Queen - Topic", " - Topic", ""), "Queen");
    assert_eq!(replace("abc", "z", "y"), "abc");
}
