//! Taking highlight markers out of a text, and the proof that this undoes
//! the highlighting of a line.

use vstd::prelude::*;
use crate::highlight::{highlighted, prefix_marker, reset_marker};
use crate::pattern::{contains, lemma_occurs_at_skip, matches_at, occurs_at};
use crate::scanner::{lemma_records_describe_lines, matches_in};
use crate::text::{from_chars, to_chars};

verus! {

/// `text` without its highlight markers. The text is read from the left; a
/// marker that starts at the current position is dropped whole, any other
/// character is kept.
pub open spec fn stripped(text: Seq<char>) -> Seq<char>
    decreases text.len(),
{
    if text.len() == 0 {
        Seq::<char>::empty()
    } else if occurs_at(text, prefix_marker(), 0) {
        stripped(text.skip(prefix_marker().len() as int))
    } else if occurs_at(text, reset_marker(), 0) {
        stripped(text.skip(reset_marker().len() as int))
    } else {
        seq![text[0]] + stripped(text.skip(1))
    }
}

/// Takes the highlight markers out of a vector of characters.
fn strip_chars(text: &Vec<char>, prefix: &Vec<char>, reset: &Vec<char>) -> (out: Vec<char>)
    requires
        prefix@ == prefix_marker(),
        reset@ == reset_marker(),
    ensures
        out@ == stripped(text@),
{
    let mut out: Vec<char> = Vec::new();
    let mut i: usize = 0;
    assert(text@.skip(0) =~= text@);
    while i < text.len()
        invariant
            i <= text.len(),
            prefix@ == prefix_marker(),
            reset@ == reset_marker(),
            out@ + stripped(text@.skip(i as int)) == stripped(text@),
        decreases text.len() - i,
    {
        let ghost rest = text@.skip(i as int);
        proof {
            lemma_occurs_at_skip(text@, prefix@, i as int);
            lemma_occurs_at_skip(text@, reset@, i as int);
        }
        if matches_at(text, prefix, i) {
            assert(rest.skip(prefix@.len() as int) =~= text@.skip(i + prefix@.len()));
            i += prefix.len();
        } else if matches_at(text, reset, i) {
            assert(rest.skip(reset@.len() as int) =~= text@.skip(i + reset@.len()));
            i += reset.len();
        } else {
            let ghost before = out@;
            out.push(text[i]);
            proof {
                assert(rest.skip(1) =~= text@.skip(i + 1));
                assert(out@ + stripped(rest.skip(1)) =~= before + stripped(rest));
            }
            i += 1;
        }
    }
    assert(out@ =~= out@ + stripped(text@.skip(i as int)));
    out
}

/// The text without its highlight markers: every prefix marker and every
/// reset marker met while reading from the left is dropped.
pub fn strip_highlight(text: &str) -> (plain: String)
    ensures
        plain@ == stripped(text@),
{
    proof {
        reveal_strlit("\x1b[6;30;42m");
        reveal_strlit("\x1b[0m");
        assert("\x1b[6;30;42m"@ =~= prefix_marker());
        assert("\x1b[0m"@ =~= reset_marker());
    }
    let prefix = to_chars("\x1b[6;30;42m");
    let reset = to_chars("\x1b[0m");
    let chars = to_chars(text);
    let out = strip_chars(&chars, &prefix, &reset);
    from_chars(&out)
}

/// Neither marker is a substring of `text`.
pub open spec fn marker_free(text: Seq<char>) -> bool {
    !contains(text, prefix_marker()) && !contains(text, reset_marker())
}

/// `m` is one of the two markers.
pub open spec fn is_marker(m: Seq<char>) -> bool {
    m == prefix_marker() || m == reset_marker()
}

/// A marker starts with the escape character and holds no other.
proof fn lemma_marker_shape(m: Seq<char>)
    requires
        is_marker(m),
    ensures
        4 <= m.len() <= 10,
        m[0] == '\u{1b}',
        forall|k: int| 1 <= k < m.len() ==> m[k] != '\u{1b}',
{
    if m == prefix_marker() {
        assert(m.len() == 10);
        assert(m[0] == '\u{1b}' && m[1] == '[' && m[2] == '6' && m[3] == ';' && m[4] == '3');
        assert(m[5] == '0' && m[6] == ';' && m[7] == '4' && m[8] == '2' && m[9] == 'm');
    } else {
        assert(m.len() == 4);
        assert(m[0] == '\u{1b}' && m[1] == '[' && m[2] == '0' && m[3] == 'm');
    }
}

/// A marker in front of a text is dropped, and nothing else of the text is
/// touched by that.
proof fn lemma_strip_marker(m: Seq<char>, rest: Seq<char>)
    requires
        is_marker(m),
    ensures
        stripped(m + rest) == stripped(rest),
{
    let text = m + rest;
    lemma_marker_shape(m);
    assert(text.subrange(0, m.len() as int) =~= m);
    assert(text.skip(m.len() as int) =~= rest);
    if m == reset_marker() {
        if occurs_at(text, prefix_marker(), 0) {
            let window = text.subrange(0, prefix_marker().len() as int);
            assert(window[2] == text[2]);
            assert(text[2] == m[2]);
            assert(m[2] == '0');
            assert(prefix_marker()[2] == '6');
        }
    }
}

/// What occurs in a part of a text occurs in the text.
proof fn lemma_contains_in_part(text: Seq<char>, from: int, to: int, m: Seq<char>)
    requires
        0 <= from <= to <= text.len(),
        contains(text.subrange(from, to), m),
    ensures
        contains(text, m),
{
    let part = text.subrange(from, to);
    let j = choose|j: int| occurs_at(part, m, j);
    assert(text.subrange(from + j, from + j + m.len()) =~= part.subrange(j, j + m.len()));
    assert(occurs_at(text, m, from + j));
}

/// Characters that hold no marker are kept as they are when the text behind
/// them is empty or starts with the escape character.
proof fn lemma_strip_plain(plain: Seq<char>, rest: Seq<char>)
    requires
        marker_free(plain),
        rest.len() == 0 || rest[0] == '\u{1b}',
    ensures
        stripped(plain + rest) == plain + stripped(rest),
    decreases plain.len(),
{
    let text = plain + rest;
    if plain.len() == 0 {
        assert(text =~= rest);
        assert(plain + stripped(rest) =~= stripped(rest));
    } else {
        assert forall|m: Seq<char>| is_marker(m) implies !occurs_at(text, m, 0) by {
            lemma_marker_shape(m);
            if occurs_at(text, m, 0) {
                let window = text.subrange(0, m.len() as int);
                if m.len() <= plain.len() {
                    assert(plain.subrange(0, m.len() as int) =~= window);
                    assert(occurs_at(plain, m, 0));
                } else {
                    assert(window[plain.len() as int] == text[plain.len() as int]);
                    assert(text[plain.len() as int] == rest[0]);
                }
            }
        }
        assert(is_marker(prefix_marker()));
        assert(is_marker(reset_marker()));
        let tail = plain.skip(1);
        assert(text.skip(1) =~= tail + rest);
        assert(marker_free(tail)) by {
            assert(tail =~= plain.subrange(1, plain.len() as int));
            if contains(tail, prefix_marker()) {
                lemma_contains_in_part(plain, 1, plain.len() as int, prefix_marker());
            }
            if contains(tail, reset_marker()) {
                lemma_contains_in_part(plain, 1, plain.len() as int, reset_marker());
            }
        }
        lemma_strip_plain(tail, rest);
        assert(seq![text[0]] + (tail + stripped(rest)) =~= plain + stripped(rest));
    }
}

/// A marker that starts in the characters `front` and would run on into a
/// highlighted line runs on into the line itself in the same way: the
/// highlighting puts no marker together out of the line's own characters.
proof fn lemma_marker_not_across(front: Seq<char>, line: Seq<char>, pat: Seq<char>, m: Seq<char>)
    requires
        is_marker(m),
        front.len() >= 1,
        occurs_at(front + highlighted(line, pat), m, 0),
    ensures
        occurs_at(front + line, m, 0),
    decreases line.len(),
{
    lemma_marker_shape(m);
    let marked = highlighted(line, pat);
    let text = front + marked;
    let window = text.subrange(0, m.len() as int);
    if m.len() <= front.len() {
        assert((front + line).subrange(0, m.len() as int) =~= window);
    } else if occurs_at(line, pat, 0) {
        lemma_marker_shape(prefix_marker());
        assert(marked[0] == prefix_marker()[0]);
        assert(window[front.len() as int] == text[front.len() as int]);
        assert(text[front.len() as int] == marked[0]);
        assert(false);
    } else if line.len() == 0 {
        assert(front + line =~= text);
    } else {
        let longer = front.push(line[0]);
        assert(longer + highlighted(line.skip(1), pat) =~= text);
        lemma_marker_not_across(longer, line.skip(1), pat, m);
        assert(longer + line.skip(1) =~= front + line);
    }
}

/// One character of a marker-free line, followed by the rest of the line
/// highlighted, is kept by the stripping.
proof fn lemma_strip_one(line: Seq<char>, pat: Seq<char>)
    requires
        marker_free(line),
        line.len() > 0,
    ensures
        stripped(seq![line[0]] + highlighted(line.skip(1), pat)) == seq![line[0]] + stripped(
            highlighted(line.skip(1), pat),
        ),
{
    let front = seq![line[0]];
    let text = front + highlighted(line.skip(1), pat);
    assert(front + line.skip(1) =~= line);
    if occurs_at(text, prefix_marker(), 0) {
        lemma_marker_not_across(front, line.skip(1), pat, prefix_marker());
        assert(occurs_at(line, prefix_marker(), 0));
    }
    if occurs_at(text, reset_marker(), 0) {
        lemma_marker_not_across(front, line.skip(1), pat, reset_marker());
        assert(occurs_at(line, reset_marker(), 0));
    }
    assert(text.skip(1) =~= highlighted(line.skip(1), pat));
}

/// Stripping the markers from a highlighted line gives the line back,
/// whatever the pattern, for every line that holds no marker of its own.
pub proof fn lemma_strip_highlight_round_trip(line: Seq<char>, pat: Seq<char>)
    requires
        marker_free(line),
    ensures
        stripped(highlighted(line, pat)) == line,
    decreases line.len(),
{
    let marked = highlighted(line, pat);
    if line.len() > 0 {
        assert(marker_free(line.skip(1))) by {
            assert(line.skip(1) =~= line.subrange(1, line.len() as int));
            if contains(line.skip(1), prefix_marker()) {
                lemma_contains_in_part(line, 1, line.len() as int, prefix_marker());
            }
            if contains(line.skip(1), reset_marker()) {
                lemma_contains_in_part(line, 1, line.len() as int, reset_marker());
            }
        }
    }
    if occurs_at(line, pat, 0) {
        if pat.len() > 0 {
            let n = pat.len() as int;
            let rest = line.skip(n);
            let marked_rest = highlighted(rest, pat);
            assert(rest =~= line.subrange(n, line.len() as int));
            assert(marker_free(pat)) by {
                if contains(pat, prefix_marker()) {
                    lemma_contains_in_part(line, 0, n, prefix_marker());
                }
                if contains(pat, reset_marker()) {
                    lemma_contains_in_part(line, 0, n, reset_marker());
                }
            }
            assert(marker_free(rest)) by {
                if contains(rest, prefix_marker()) {
                    lemma_contains_in_part(line, n, line.len() as int, prefix_marker());
                }
                if contains(rest, reset_marker()) {
                    lemma_contains_in_part(line, n, line.len() as int, reset_marker());
                }
            }
            assert(marked =~= prefix_marker() + (pat + (reset_marker() + marked_rest)));
            lemma_strip_marker(prefix_marker(), pat + (reset_marker() + marked_rest));
            lemma_marker_shape(reset_marker());
            lemma_strip_plain(pat, reset_marker() + marked_rest);
            lemma_strip_marker(reset_marker(), marked_rest);
            lemma_strip_highlight_round_trip(rest, pat);
            assert(pat + rest =~= line);
        } else if line.len() == 0 {
            let none = Seq::<char>::empty();
            assert(marked =~= prefix_marker() + (reset_marker() + none));
            lemma_strip_marker(prefix_marker(), reset_marker() + none);
            lemma_strip_marker(reset_marker(), none);
        } else {
            let tail = seq![line[0]] + highlighted(line.skip(1), pat);
            assert(marked =~= prefix_marker() + (reset_marker() + tail));
            lemma_strip_marker(prefix_marker(), reset_marker() + tail);
            lemma_strip_marker(reset_marker(), tail);
            lemma_strip_one(line, pat);
            lemma_strip_highlight_round_trip(line.skip(1), pat);
            assert(seq![line[0]] + line.skip(1) =~= line);
        }
    } else if line.len() > 0 {
        lemma_strip_one(line, pat);
        lemma_strip_highlight_round_trip(line.skip(1), pat);
        assert(seq![line[0]] + line.skip(1) =~= line);
    }
}

/// Stripping the markers from the text of a record gives back the line that
/// the record stands for, where that line holds no marker of its own.
pub proof fn lemma_record_round_trip(
    path: Seq<char>,
    lines: Seq<Option<Seq<char>>>,
    pat: Seq<char>,
    j: int,
)
    requires
        0 <= j < matches_in(path, lines, pat).len(),
        marker_free(lines[matches_in(path, lines, pat)[j].line_number as int]->0),
    ensures
        stripped(matches_in(path, lines, pat)[j].line) == lines[matches_in(
            path,
            lines,
            pat,
        )[j].line_number as int]->0,
{
    lemma_records_describe_lines(path, lines, pat);
    let found = matches_in(path, lines, pat)[j];
    lemma_strip_highlight_round_trip(lines[found.line_number as int]->0, pat);
}

} // verus!
