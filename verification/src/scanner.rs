//! Scanning the lines of one file for a pattern.

use vstd::prelude::*;
use crate::highlight::{format_matched_line_with_colors, highlight_chars, highlighted, wrapped};
use crate::pattern::{contains, contains_chars, lemma_empty_pattern_in_every_line};
use crate::text::{from_chars, to_chars};

verus! {

/// What to search for, and where.
#[derive(Clone, Debug, PartialEq, Eq)]
pub struct GrepArgs {
    pub pattern: String,
    pub path: String,
}

/// One line that holds the pattern.
#[derive(Clone, Debug, PartialEq, Eq)]
pub struct MatchInfo {
    /// The line, with every occurrence of the pattern highlighted.
    pub line: String,
    /// The position of the line in its file, counted from 0.
    pub line_number: usize,
    /// The path of the file, as it was handed to the scan.
    pub file_path: String,
}

/// A `MatchInfo` as a mathematical value.
pub struct MatchView {
    pub line: Seq<char>,
    pub line_number: nat,
    pub file_path: Seq<char>,
}

impl View for MatchInfo {
    type V = MatchView;

    open spec fn view(&self) -> MatchView {
        MatchView {
            line: self.line@,
            line_number: self.line_number as nat,
            file_path: self.file_path@,
        }
    }
}

/// The records of a result set, in order.
pub open spec fn records(results: Seq<MatchInfo>) -> Seq<MatchView> {
    results.map_values(|info: MatchInfo| info@)
}

/// One line as it was read: its text, or `None` where reading or decoding
/// it failed.
pub open spec fn line_view(line: Option<String>) -> Option<Seq<char>> {
    match line {
        Some(text) => Some(text@),
        None => None,
    }
}

/// The lines of a file as they were read, in order.
pub open spec fn lines_view(lines: Seq<Option<String>>) -> Seq<Option<Seq<char>>> {
    lines.map_values(|line: Option<String>| line_view(line))
}

/// The line was read and holds the pattern.
pub open spec fn is_hit(line: Option<Seq<char>>, pat: Seq<char>) -> bool {
    line is Some && contains(line->0, pat)
}

/// The records of one file: one for each line that was read and holds the
/// pattern, in the order of the lines. A line that could not be read gives
/// no record and still counts in the numbering.
pub open spec fn matches_in(path: Seq<char>, lines: Seq<Option<Seq<char>>>, pat: Seq<char>) -> Seq<
    MatchView,
>
    decreases lines.len(),
{
    if lines.len() == 0 {
        Seq::<MatchView>::empty()
    } else {
        let before = matches_in(path, lines.drop_last(), pat);
        if is_hit(lines.last(), pat) {
            before.push(
                MatchView {
                    line: highlighted(lines.last()->0, pat),
                    line_number: (lines.len() - 1) as nat,
                    file_path: path,
                },
            )
        } else {
            before
        }
    }
}

/// Scans the lines of the file at `args.path` for `args.pattern` and appends
/// one record for each line that holds it.
pub fn process_file(args: &GrepArgs, lines: &Vec<Option<String>>, results: &mut Vec<MatchInfo>)
    ensures
        records(final(results)@) == records(old(results)@) + matches_in(
            args.path@,
            lines_view(lines@),
            args.pattern@,
        ),
{
    let pattern = to_chars(args.pattern.as_str());
    let wrap = to_chars(format_matched_line_with_colors(args.pattern.as_str()).as_str());
    let ghost all = lines_view(lines@);
    let mut i: usize = 0;
    assert(records(results@) =~= records(old(results)@) + matches_in(
        args.path@,
        all.take(0),
        args.pattern@,
    ));
    while i < lines.len()
        invariant
            i <= lines.len(),
            all == lines_view(lines@),
            pattern@ == args.pattern@,
            wrap@ == wrapped(pattern@),
            records(results@) == records(old(results)@) + matches_in(
                args.path@,
                all.take(i as int),
                args.pattern@,
            ),
        decreases lines.len() - i,
    {
        let ghost before = records(results@);
        proof {
            assert(all.take(i + 1).drop_last() =~= all.take(i as int));
            assert(all.take(i + 1).last() == line_view(lines@[i as int]));
        }
        match &lines[i] {
            Some(text) => {
                let chars = to_chars(text.as_str());
                if contains_chars(&chars, &pattern) {
                    let marked = highlight_chars(&chars, &pattern, &wrap);
                    let info = MatchInfo {
                        line: from_chars(&marked),
                        line_number: i,
                        file_path: args.path.clone(),
                    };
                    results.push(info);
                    assert(records(results@) =~= before.push(info@));
                }
            },
            None => {},
        }
        i += 1;
    }
    assert(all.take(lines.len() as int) =~= all);
}

/// How many of the records stand for line `number` of the file at `path`.
pub open spec fn count_for(found: Seq<MatchView>, path: Seq<char>, number: nat) -> nat
    decreases found.len(),
{
    if found.len() == 0 {
        0
    } else {
        let before = count_for(found.drop_last(), path, number);
        if found.last().file_path == path && found.last().line_number == number {
            before + 1
        } else {
            before
        }
    }
}

/// The count over two sequences of records is the sum of the two counts.
pub proof fn lemma_count_for_concat(
    front: Seq<MatchView>,
    back: Seq<MatchView>,
    path: Seq<char>,
    number: nat,
)
    ensures
        count_for(front + back, path, number) == count_for(front, path, number) + count_for(
            back,
            path,
            number,
        ),
    decreases back.len(),
{
    if back.len() == 0 {
        assert(front + back =~= front);
    } else {
        let both = front + back;
        assert(both.drop_last() =~= front + back.drop_last());
        assert(both.last() == back.last());
        lemma_count_for_concat(front, back.drop_last(), path, number);
    }
}

/// Every record of a file names that file and one of its lines; that line
/// was read and holds the pattern, and the record's text is that line
/// highlighted. The records stand in the order of their lines.
pub proof fn lemma_records_describe_lines(
    path: Seq<char>,
    lines: Seq<Option<Seq<char>>>,
    pat: Seq<char>,
)
    ensures
        matches_in(path, lines, pat).len() <= lines.len(),
        forall|j: int|
            0 <= j < matches_in(path, lines, pat).len() ==> {
                let found = #[trigger] matches_in(path, lines, pat)[j];
                &&& found.file_path == path
                &&& found.line_number < lines.len()
                &&& is_hit(lines[found.line_number as int], pat)
                &&& found.line == highlighted(lines[found.line_number as int]->0, pat)
            },
        forall|j: int, k: int|
            0 <= j < k < matches_in(path, lines, pat).len() ==> matches_in(
                path,
                lines,
                pat,
            )[j].line_number < matches_in(path, lines, pat)[k].line_number,
    decreases lines.len(),
{
    if lines.len() > 0 {
        let shorter = lines.drop_last();
        lemma_records_describe_lines(path, shorter, pat);
        let before = matches_in(path, shorter, pat);
        assert forall|j: int| 0 <= j < before.len() implies lines[before[j].line_number as int]
            == shorter[before[j].line_number as int] by {}
    }
}

/// A search of one file yields exactly one record for each line that was
/// read and holds the pattern, and none for any other line, nor for a line
/// of another file.
pub proof fn lemma_one_record_per_matching_line(
    path: Seq<char>,
    lines: Seq<Option<Seq<char>>>,
    pat: Seq<char>,
    other: Seq<char>,
    number: nat,
)
    ensures
        count_for(matches_in(path, lines, pat), other, number) == if other == path && number
            < lines.len() && is_hit(lines[number as int], pat) {
            1nat
        } else {
            0nat
        },
    decreases lines.len(),
{
    if lines.len() > 0 {
        let shorter = lines.drop_last();
        let before = matches_in(path, shorter, pat);
        lemma_one_record_per_matching_line(path, shorter, pat, other, number);
        if is_hit(lines.last(), pat) {
            let found = matches_in(path, lines, pat);
            assert(found.drop_last() =~= before);
        }
        if number < shorter.len() {
            assert(shorter[number as int] == lines[number as int]);
        }
    }
}

/// The empty pattern is found in every line that was read: each such line
/// has exactly one record.
pub proof fn lemma_empty_pattern_matches_every_line(
    path: Seq<char>,
    lines: Seq<Option<Seq<char>>>,
    number: nat,
)
    requires
        number < lines.len(),
        lines[number as int] is Some,
    ensures
        count_for(matches_in(path, lines, Seq::<char>::empty()), path, number) == 1,
{
    lemma_empty_pattern_in_every_line(lines[number as int]->0);
    lemma_one_record_per_matching_line(path, lines, Seq::<char>::empty(), path, number);
}

/// Two scans of the same lines for the same pattern yield the same records
/// in the same order.
pub proof fn lemma_scan_is_repeatable(
    args: GrepArgs,
    lines: Seq<Option<String>>,
    first: Seq<MatchInfo>,
    second: Seq<MatchInfo>,
)
    requires
        records(first) == matches_in(args.path@, lines_view(lines), args.pattern@),
        records(second) == matches_in(args.path@, lines_view(lines), args.pattern@),
    ensures
        records(first) == records(second),
        first.len() == second.len(),
        forall|j: int| 0 <= j < first.len() ==> (#[trigger] first[j])@ == second[j]@,
{
    assert(records(first).len() == first.len());
    assert(records(second).len() == second.len());
    assert forall|j: int| 0 <= j < first.len() implies (#[trigger] first[j])@ == second[j]@ by {
        assert(records(first)[j] == first[j]@);
        assert(records(second)[j] == second[j]@);
    }
}

} // verus!
