//! Literal, case-sensitive substring matching on sequences of characters.

use vstd::prelude::*;
use crate::text::to_chars;

verus! {

/// `pat` stands in `line` at character position `i`.
pub open spec fn occurs_at(line: Seq<char>, pat: Seq<char>, i: int) -> bool {
    &&& 0 <= i
    &&& i + pat.len() <= line.len()
    &&& line.subrange(i, i + pat.len()) == pat
}

/// `pat` is a substring of `line`. The empty pattern is a substring of every
/// line, the empty line included.
pub open spec fn contains(line: Seq<char>, pat: Seq<char>) -> bool {
    exists|i: int| occurs_at(line, pat, i)
}

/// Tells whether `pat` stands in `line` at position `i`. Any `i` is accepted;
/// a position from which the pattern would run past the end gives `false`.
pub fn matches_at(line: &Vec<char>, pat: &Vec<char>, i: usize) -> (hit: bool)
    ensures
        hit == occurs_at(line@, pat@, i as int),
{
    if i > line.len() || pat.len() > line.len() - i {
        return false;
    }
    let mut k: usize = 0;
    while k < pat.len()
        invariant
            k <= pat.len(),
            i + pat.len() <= line.len(),
            forall|j: int| 0 <= j < k ==> line@[i + j] == pat@[j],
        decreases pat.len() - k,
    {
        if line[i + k] != pat[k] {
            proof {
                let window = line@.subrange(i as int, i + pat.len());
                assert(window[k as int] == line@[i + k]);
            }
            return false;
        }
        k += 1;
    }
    proof {
        assert(line@.subrange(i as int, i + pat.len()) =~= pat@);
    }
    true
}

/// The first position at or after `start` where `pat` stands in `line`, if
/// there is one.
pub fn find_from(line: &Vec<char>, pat: &Vec<char>, start: usize) -> (found: Option<usize>)
    ensures
        match found {
            Some(i) => {
                &&& start <= i
                &&& occurs_at(line@, pat@, i as int)
                &&& forall|j: int| start <= j < i ==> !occurs_at(line@, pat@, j)
            },
            None => forall|j: int| start <= j ==> !occurs_at(line@, pat@, j),
        },
{
    let mut i: usize = start;
    while i <= line.len()
        invariant
            start <= i,
            forall|j: int| start <= j < i ==> !occurs_at(line@, pat@, j),
        decreases line.len() + 1 - i,
    {
        if matches_at(line, pat, i) {
            return Some(i);
        }
        if i == line.len() {
            return None;
        }
        i += 1;
    }
    None
}

/// Tells whether `pat` is a substring of `line`.
pub fn contains_chars(line: &Vec<char>, pat: &Vec<char>) -> (hit: bool)
    ensures
        hit == contains(line@, pat@),
{
    find_from(line, pat, 0).is_some()
}

/// Tells whether the line contains the pattern as a literal substring,
/// compared character by character. The empty pattern is in every line.
pub fn line_contains(line: &str, pattern: &str) -> (hit: bool)
    ensures
        hit == contains(line@, pattern@),
{
    let line_chars = to_chars(line);
    let pattern_chars = to_chars(pattern);
    contains_chars(&line_chars, &pattern_chars)
}

/// An occurrence at position `i` of a line is an occurrence at the start of
/// what is left of the line from `i` on.
pub proof fn lemma_occurs_at_skip(line: Seq<char>, pat: Seq<char>, i: int)
    requires
        0 <= i <= line.len(),
    ensures
        occurs_at(line, pat, i) == occurs_at(line.skip(i), pat, 0),
{
    if i + pat.len() <= line.len() {
        assert(line.skip(i).subrange(0, pat.len() as int) =~= line.subrange(i, i + pat.len()));
    }
}

/// The empty pattern stands at the start of every line, so every line
/// contains it.
pub proof fn lemma_empty_pattern_in_every_line(line: Seq<char>)
    ensures
        contains(line, Seq::<char>::empty()),
{
    assert(line.subrange(0, 0) =~= Seq::<char>::empty());
    assert(occurs_at(line, Seq::<char>::empty(), 0));
}

} // verus!
