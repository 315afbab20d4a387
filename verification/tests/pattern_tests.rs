use rgrep::pattern::{contains_chars, find_from, matches_at};
use rgrep::text::{push_all, to_chars};

#[test]
fn matches_at_tells_positions_apart() {
    let line = to_chars("abcabc");
    let pat = to_chars("bc");
    assert!(!matches_at(&line, &pat, 0));
    assert!(matches_at(&line, &pat, 1));
    assert!(matches_at(&line, &pat, 4));
    assert!(!matches_at(&line, &pat, 5));
    assert!(!matches_at(&line, &pat, 6));
    assert!(!matches_at(&line, &pat, usize::MAX));
}

#[test]
fn matches_at_with_empty_pattern() {
    let line = to_chars("ab");
    let empty = Vec::new();
    assert!(matches_at(&line, &empty, 0));
    assert!(matches_at(&line, &empty, 2));
    assert!(!matches_at(&line, &empty, 3));
}

#[test]
fn find_from_gives_first_position_at_or_after_start() {
    let line = to_chars("abcabc");
    let pat = to_chars("bc");
    assert_eq!(find_from(&line, &pat, 0), Some(1));
    assert_eq!(find_from(&line, &pat, 1), Some(1));
    assert_eq!(find_from(&line, &pat, 2), Some(4));
    assert_eq!(find_from(&line, &pat, 5), None);
    assert_eq!(find_from(&line, &pat, 100), None);
    assert_eq!(find_from(&line, &to_chars("x"), 0), None);
}

#[test]
fn find_from_counts_characters_not_bytes() {
    let line = to_chars("ééx");
    assert_eq!(find_from(&line, &to_chars("x"), 0), Some(2));
}

#[test]
fn contains_chars_on_vectors() {
    assert!(contains_chars(&to_chars("hello"), &to_chars("ll")));
    assert!(!contains_chars(&to_chars("hello"), &to_chars("lll")));
    assert!(contains_chars(&Vec::new(), &Vec::new()));
}

#[test]
fn push_all_appends_in_order() {
    let mut out = vec!['a'];
    push_all(&mut out, &vec!['b', 'c']);
    push_all(&mut out, &Vec::new());
    assert_eq!(out, vec!['a', 'b', 'c']);
}
