use rgrep::highlight::{format_matched_line_with_colors, highlight_line};
use rgrep::pattern::line_contains;
use rgrep::strip::strip_highlight;
use rgrep::text::{from_chars, to_chars};

const PREFIX: &str = "\x1b[6;30;42m";
const RESET: &str = "\x1b[0m";

fn wrap(text: &str) -> String {
    format!("{}{}{}", PREFIX, text, RESET)
}

#[test]
fn format_wraps_pattern_in_markers() {
    assert_eq!(format_matched_line_with_colors("foo"), "\x1b[6;30;42mfoo\x1b[0m");
}

#[test]
fn format_of_empty_text_is_the_two_markers() {
    assert_eq!(format_matched_line_with_colors(""), "\x1b[6;30;42m\x1b[0m");
}

#[test]
fn chars_round_trip_keeps_text() {
    let text = "héllo wörld ✓";
    let chars = to_chars(text);
    assert_eq!(chars.len(), 13);
    assert_eq!(chars[1], 'é');
    assert_eq!(from_chars(&chars), text);
}

#[test]
fn from_chars_builds_in_order() {
    assert_eq!(from_chars(&vec!['a', 'b', 'c']), "abc");
    assert_eq!(from_chars(&Vec::new()), "");
}

#[test]
fn contains_finds_substring() {
    assert!(line_contains("hello world", "hello"));
    assert!(line_contains("hello world", "o w"));
    assert!(line_contains("hello world", "world"));
    assert!(!line_contains("hello world", "worlds"));
    assert!(!line_contains("", "a"));
}

#[test]
fn contains_is_case_sensitive() {
    assert!(!line_contains("Hello World", "hello"));
    assert!(line_contains("Hello World", "Hello"));
}

#[test]
fn contains_has_no_regex_meaning() {
    assert!(!line_contains("abc", "a.c"));
    assert!(line_contains("a.c", "a.c"));
    assert!(!line_contains("aaa", "a*"));
}

#[test]
fn contains_pattern_longer_than_line() {
    assert!(!line_contains("ab", "abc"));
}

#[test]
fn empty_pattern_is_in_every_line() {
    assert!(line_contains("", ""));
    assert!(line_contains("anything", ""));
}

#[test]
fn contains_agrees_with_std() {
    let lines = ["", "a", "aaa", "abcabc", "hello world", "ünïcödé", "foofoo", "xxfoo"];
    let patterns = ["", "a", "aa", "abc", "foo", "o w", "ö", "zz", "cab"];
    for line in lines {
        for pattern in patterns {
            assert_eq!(line_contains(line, pattern), line.contains(pattern));
        }
    }
}

#[test]
fn highlight_wraps_single_occurrence() {
    assert_eq!(
        highlight_line("hello world", "hello"),
        "\x1b[6;30;42mhello\x1b[0m world"
    );
    assert_eq!(highlight_line("say hello", "hello"), "say \x1b[6;30;42mhello\x1b[0m");
}

#[test]
fn highlight_wraps_both_occurrences() {
    assert_eq!(
        highlight_line("foofoo", "foo"),
        "\x1b[6;30;42mfoo\x1b[0m\x1b[6;30;42mfoo\x1b[0m"
    );
}

#[test]
fn highlight_takes_occurrences_from_the_left_without_overlap() {
    assert_eq!(highlight_line("aaa", "aa"), format!("{}a", wrap("aa")));
    assert_eq!(highlight_line("aaaa", "aa"), format!("{}{}", wrap("aa"), wrap("aa")));
}

#[test]
fn highlight_leaves_line_without_pattern() {
    assert_eq!(highlight_line("hello world", "xyz"), "hello world");
    assert_eq!(highlight_line("", "x"), "");
}

#[test]
fn highlight_with_empty_pattern() {
    let w = wrap("");
    assert_eq!(highlight_line("", ""), w);
    assert_eq!(highlight_line("ab", ""), format!("{w}a{w}b{w}"));
}

#[test]
fn highlight_agrees_with_std_replace() {
    let lines = ["", "a", "aaa", "abcabc", "hello world", "ünïcödé", "foofoo", "xxfoo", "abab"];
    let patterns = ["", "a", "aa", "abc", "foo", "o w", "ö", "zz", "cab", "ab", "aba"];
    for line in lines {
        for pattern in patterns {
            assert_eq!(highlight_line(line, pattern), line.replace(pattern, &wrap(pattern)));
        }
    }
}

#[test]
fn strip_removes_markers() {
    assert_eq!(strip_highlight("\x1b[6;30;42mfoo\x1b[0m bar"), "foo bar");
    assert_eq!(strip_highlight("plain"), "plain");
    assert_eq!(strip_highlight(""), "");
    assert_eq!(strip_highlight("\x1b[6;30;42m\x1b[0m"), "");
}

#[test]
fn strip_keeps_other_escape_sequences() {
    assert_eq!(strip_highlight("\x1b[1mbold"), "\x1b[1mbold");
    assert_eq!(strip_highlight("\x1b[6;30;42"), "\x1b[6;30;42");
    assert_eq!(strip_highlight("\x1b"), "\x1b");
}

#[test]
fn strip_undoes_highlight() {
    let lines = ["", "a", "aaa", "abcabc", "hello world", "ünïcödé", "foofoo", "[0m", "6;30;42m"];
    let patterns = ["", "a", "aa", "abc", "foo", "o w", "ö", "zz", "[", "m", "0"];
    for line in lines {
        for pattern in patterns {
            assert_eq!(strip_highlight(&highlight_line(line, pattern)), line);
        }
    }
}

#[test]
fn strip_does_not_undo_highlight_of_line_with_marker() {
    let line = "a\x1b[0mb";
    assert_eq!(strip_highlight(&highlight_line(line, "a")), "ab");
}
