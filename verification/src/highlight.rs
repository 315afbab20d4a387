//! Wrapping pattern occurrences in terminal highlight markers, and taking the
//! markers out again.

use vstd::prelude::*;
use vstd::string::StringExecFns;
use crate::pattern::{contains, lemma_occurs_at_skip, matches_at, occurs_at};
use crate::text::{from_chars, push_all, to_chars};

verus! {

/// The escape sequence that switches the highlight on: black on green.
pub open spec fn prefix_marker() -> Seq<char> {
    seq!['\u{1b}', '[', '6', ';', '3', '0', ';', '4', '2', 'm']
}

/// The escape sequence that switches all attributes off again.
pub open spec fn reset_marker() -> Seq<char> {
    seq!['\u{1b}', '[', '0', 'm']
}

/// `text` between the two markers.
pub open spec fn wrapped(text: Seq<char>) -> Seq<char> {
    prefix_marker() + text + reset_marker()
}

/// `line` with every occurrence of `pat` wrapped in markers. Occurrences are
/// taken from the left and do not overlap: after one is wrapped, the search
/// goes on behind it. The empty pattern occurs before every character and at
/// the end of the line, and an empty wrap is put at each of those places.
pub open spec fn highlighted(line: Seq<char>, pat: Seq<char>) -> Seq<char>
    decreases line.len(),
{
    if occurs_at(line, pat, 0) {
        if pat.len() > 0 {
            wrapped(pat) + highlighted(line.skip(pat.len() as int), pat)
        } else if line.len() == 0 {
            wrapped(pat)
        } else {
            wrapped(pat) + seq![line[0]] + highlighted(line.skip(1), pat)
        }
    } else if line.len() == 0 {
        Seq::<char>::empty()
    } else {
        seq![line[0]] + highlighted(line.skip(1), pat)
    }
}

/// The text between the highlight markers.
pub fn format_matched_line_with_colors(line: &str) -> (formatted: String)
    ensures
        formatted@ == wrapped(line@),
{
    proof {
        reveal_strlit("\x1b[6;30;42m");
        reveal_strlit("\x1b[0m");
    }
    let mut formatted = String::from_str("\x1b[6;30;42m");
    formatted.append(line);
    formatted.append("\x1b[0m");
    proof {
        assert("\x1b[6;30;42m"@ =~= prefix_marker());
        assert("\x1b[0m"@ =~= reset_marker());
    }
    formatted
}

/// Wraps every occurrence of `pat` in `line`, given the wrapped pattern.
pub(crate) fn highlight_chars(line: &Vec<char>, pat: &Vec<char>, wrap: &Vec<char>) -> (out: Vec<char>)
    requires
        wrap@ == wrapped(pat@),
    ensures
        out@ == highlighted(line@, pat@),
{
    let mut out: Vec<char> = Vec::new();
    let mut i: usize = 0;
    assert(line@.skip(0) =~= line@);
    loop
        invariant_except_break
            i <= line.len(),
            wrap@ == wrapped(pat@),
            out@ + highlighted(line@.skip(i as int), pat@) == highlighted(line@, pat@),
        ensures
            out@ == highlighted(line@, pat@),
        decreases line.len() - i,
    {
        let hit = matches_at(line, pat, i);
        let ghost rest = line@.skip(i as int);
        let ghost before = out@;
        proof {
            lemma_occurs_at_skip(line@, pat@, i as int);
        }
        if hit {
            push_all(&mut out, wrap);
        }
        if hit && pat.len() > 0 {
            proof {
                assert(rest.skip(pat.len() as int) =~= line@.skip(i + pat.len()));
                assert(out@ + highlighted(rest.skip(pat.len() as int), pat@) =~= before
                    + highlighted(rest, pat@));
            }
            i += pat.len();
        } else if i < line.len() {
            out.push(line[i]);
            proof {
                assert(rest.skip(1) =~= line@.skip(i + 1));
                assert(rest[0] == line@[i as int]);
                assert(out@ + highlighted(rest.skip(1), pat@) =~= before + highlighted(
                    rest,
                    pat@,
                ));
            }
            i += 1;
        } else {
            proof {
                assert(rest.len() == 0);
                assert(out@ =~= before + highlighted(rest, pat@));
            }
            break;
        }
    }
    out
}

/// The line with every occurrence of the pattern wrapped in highlight
/// markers. A line without the pattern comes back unchanged.
pub fn highlight_line(line: &str, pattern: &str) -> (text: String)
    ensures
        text@ == highlighted(line@, pattern@),
{
    let line_chars = to_chars(line);
    let pattern_chars = to_chars(pattern);
    let wrap = to_chars(format_matched_line_with_colors(pattern).as_str());
    let out = highlight_chars(&line_chars, &pattern_chars, &wrap);
    from_chars(&out)
}

/// An occurrence behind the first character of a line is an occurrence in
/// the rest of the line, one position further to the left.
proof fn lemma_occurs_in_rest(line: Seq<char>, pat: Seq<char>, i: int)
    requires
        i >= 1,
        occurs_at(line, pat, i),
    ensures
        occurs_at(line.skip(1), pat, i - 1),
{
    assert(line.skip(1).subrange(i - 1, i - 1 + pat.len()) =~= line.subrange(i, i + pat.len()));
}

/// A line without the pattern is left as it is.
pub proof fn lemma_highlight_without_pattern(line: Seq<char>, pat: Seq<char>)
    requires
        !contains(line, pat),
    ensures
        highlighted(line, pat) == line,
    decreases line.len(),
{
    assert(!occurs_at(line, pat, 0));
    if line.len() > 0 {
        let rest = line.skip(1);
        assert(!contains(rest, pat)) by {
            if contains(rest, pat) {
                let i = choose|i: int| occurs_at(rest, pat, i);
                assert(line.subrange(i + 1, i + 1 + pat.len()) =~= rest.subrange(
                    i,
                    i + pat.len(),
                ));
                assert(occurs_at(line, pat, i + 1));
            }
        }
        lemma_highlight_without_pattern(rest, pat);
        assert(seq![line[0]] + rest =~= line);
    } else {
        assert(highlighted(line, pat) =~= line);
    }
}

/// A line with the pattern holds, once highlighted, the pattern between the
/// two markers.
pub proof fn lemma_highlight_with_pattern(line: Seq<char>, pat: Seq<char>)
    requires
        contains(line, pat),
    ensures
        contains(highlighted(line, pat), wrapped(pat)),
    decreases line.len(),
{
    let marked = highlighted(line, pat);
    let wrap = wrapped(pat);
    if occurs_at(line, pat, 0) {
        assert(marked.subrange(0, wrap.len() as int) =~= wrap);
        assert(occurs_at(marked, wrap, 0));
    } else {
        let i = choose|i: int| occurs_at(line, pat, i);
        let rest = line.skip(1);
        lemma_occurs_in_rest(line, pat, i);
        lemma_highlight_with_pattern(rest, pat);
        let marked_rest = highlighted(rest, pat);
        let j = choose|j: int| occurs_at(marked_rest, wrap, j);
        assert(marked.subrange(j + 1, j + 1 + wrap.len()) =~= marked_rest.subrange(
            j,
            j + wrap.len(),
        ));
        assert(occurs_at(marked, wrap, j + 1));
    }
}

} // verus!
