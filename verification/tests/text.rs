use fossgraph::text::{
    chars_of, find_in, has_prefix, matches_at, same_text, slice, split_once_text,
    strip_prefix_text, strip_suffix_text,
};

fn chars(s: &str) -> Vec<char> {
    s.chars().collect()
}

#[test]
fn chars_are_code_points() {
    assert_eq!(chars_of("a\u{e9}\u{1f600}b"), vec!['a', '\u{e9}', '\u{1f600}', 'b']);
    assert_eq!(chars_of(""), Vec::<char>::new());
}

#[test]
fn pattern_is_found_at_its_first_occurrence() {
    let text = chars("abcabc");
    assert_eq!(find_in(&text, &chars("bc"), 0), Some(1));
    assert_eq!(find_in(&text, &chars("bc"), 1), Some(1));
    assert_eq!(find_in(&text, &chars("bc"), 2), Some(4));
    assert_eq!(find_in(&text, &chars("bc"), 5), None);
    assert_eq!(find_in(&text, &chars("bc"), 9), None);
    assert_eq!(find_in(&text, &chars("x"), 0), None);
    assert_eq!(find_in(&text, &chars("abcabcd"), 0), None);
    assert_eq!(find_in(&text, &chars(""), 3), Some(3));
    assert_eq!(find_in(&text, &chars(""), 6), Some(6));
    assert_eq!(find_in(&text, &chars(""), 7), None);
}

#[test]
fn pattern_stands_only_where_all_of_it_fits() {
    let text = chars("abcab");
    assert!(matches_at(&text, &chars("ab"), 0));
    assert!(matches_at(&text, &chars("ab"), 3));
    assert!(!matches_at(&text, &chars("abc"), 3));
    assert!(!matches_at(&text, &chars("ab"), 1));
    assert!(!matches_at(&text, &chars("ab"), 5));
    assert!(!matches_at(&text, &chars("ab"), 6));
    assert!(matches_at(&text, &chars(""), 5));
    assert!(!matches_at(&text, &chars(""), 6));
}

#[test]
fn text_is_split_once() {
    assert_eq!(split_once_text("a#commit=b#commit=c", "#commit="), Some(("a", "b#commit=c")));
    assert_eq!(split_once_text("#commit=", "#commit="), Some(("", "")));
    assert_eq!(split_once_text("a#commit", "#commit="), None);
    assert_eq!(split_once_text("\u{e9}/\u{1f600}", "/"), Some(("\u{e9}", "\u{1f600}")));
}

#[test]
fn prefix_is_taken_off() {
    assert_eq!(strip_prefix_text("git@github.com:o/n", "git@github.com:"), Some("o/n"));
    assert_eq!(strip_prefix_text("git@", "git@"), Some(""));
    assert_eq!(strip_prefix_text("git", "git@"), None);
    assert_eq!(strip_prefix_text("xgit@", "git@"), None);
    assert!(has_prefix("git@host", "git@"));
    assert!(!has_prefix("Git@host", "git@"));
    assert!(has_prefix("anything", ""));
}

#[test]
fn texts_are_compared_by_their_characters() {
    assert!(same_text("npm:", "npm:"));
    assert!(!same_text("npm:", "npm"));
    assert!(!same_text("npm:", "npn:"));
    assert!(same_text("", ""));
}

#[test]
fn slice_counts_characters() {
    assert_eq!(slice("a\u{e9}\u{1f600}b", 1, 3), "\u{e9}\u{1f600}");
    assert_eq!(slice("abc", 3, 3), "");
    assert_eq!(slice("abc", 0, 3), "abc");
}

#[test]
fn suffix_is_taken_off() {
    assert_eq!(strip_suffix_text("repo.git", ".git"), Some("repo"));
    assert_eq!(strip_suffix_text("a.git.git", ".git"), Some("a.git"));
    assert_eq!(strip_suffix_text(".git", ".git"), Some(""));
    assert_eq!(strip_suffix_text("git", ".git"), None);
    assert_eq!(strip_suffix_text("repo.git/", ".git"), None);
    assert_eq!(strip_suffix_text("\u{e9}\u{1f600}.git", ".git"), Some("\u{e9}\u{1f600}"));
    assert_eq!(strip_suffix_text("abc", ""), Some("abc"));
}
