//! The lines that report a search: path, line number and highlighted text.

use vstd::prelude::*;
use crate::scanner::{MatchInfo, MatchView};
use crate::text::{from_chars, push_all, to_chars};

verus! {

/// The character for one decimal digit.
pub open spec fn digit_char(digit: nat) -> char {
    if digit == 0 {
        '0'
    } else if digit == 1 {
        '1'
    } else if digit == 2 {
        '2'
    } else if digit == 3 {
        '3'
    } else if digit == 4 {
        '4'
    } else if digit == 5 {
        '5'
    } else if digit == 6 {
        '6'
    } else if digit == 7 {
        '7'
    } else if digit == 8 {
        '8'
    } else {
        '9'
    }
}

/// A number in decimal, without leading zeros; zero is "0".
pub open spec fn decimal(number: nat) -> Seq<char>
    decreases number,
{
    if number < 10 {
        seq![digit_char(number)]
    } else {
        decimal(number / 10).push(digit_char(number % 10))
    }
}

/// The report of one record: the path, the line number in brackets, a
/// colon and a space, and the highlighted line.
pub open spec fn rendered(found: MatchView) -> Seq<char> {
    found.file_path + seq!['('] + decimal(found.line_number) + seq![')', ':', ' '] + found.line
}

/// The character for a value below ten.
fn digit(value: usize) -> (c: char)
    requires
        value < 10,
    ensures
        c == digit_char(value as nat),
{
    if value == 0 {
        '0'
    } else if value == 1 {
        '1'
    } else if value == 2 {
        '2'
    } else if value == 3 {
        '3'
    } else if value == 4 {
        '4'
    } else if value == 5 {
        '5'
    } else if value == 6 {
        '6'
    } else if value == 7 {
        '7'
    } else if value == 8 {
        '8'
    } else {
        '9'
    }
}

/// Appends `number` in decimal to `out`.
fn push_decimal(out: &mut Vec<char>, number: usize)
    ensures
        final(out)@ == old(out)@ + decimal(number as nat),
    decreases number,
{
    if number >= 10 {
        push_decimal(out, number / 10);
    }
    out.push(digit(number % 10));
    assert(out@ =~= old(out)@ + decimal(number as nat));
}

/// Appends the characters of `text` to `out`.
fn push_str(out: &mut Vec<char>, text: &str)
    ensures
        final(out)@ == old(out)@ + text@,
{
    let chars = to_chars(text);
    push_all(out, &chars);
}

/// The line that reports one record.
pub fn output_line(info: &MatchInfo) -> (text: String)
    ensures
        text@ == rendered(info@),
{
    let mut out: Vec<char> = Vec::new();
    push_str(&mut out, info.file_path.as_str());
    out.push('(');
    push_decimal(&mut out, info.line_number);
    out.push(')');
    out.push(':');
    out.push(' ');
    push_str(&mut out, info.line.as_str());
    assert(out@ =~= rendered(info@));
    from_chars(&out)
}

/// The lines that report a result set: one for each record, in order.
pub fn output_lines(results: &Vec<MatchInfo>) -> (report: Vec<String>)
    ensures
        report@.len() == results@.len(),
        forall|j: int| 0 <= j < results@.len() ==> (#[trigger] report@[j])@ == rendered(results@[j]@),
{
    let mut report: Vec<String> = Vec::new();
    let mut i: usize = 0;
    while i < results.len()
        invariant
            i <= results.len(),
            report@.len() == i,
            forall|j: int| 0 <= j < i ==> (#[trigger] report@[j])@ == rendered(results@[j]@),
        decreases results.len() - i,
    {
        report.push(output_line(&results[i]));
        i += 1;
    }
    report
}

} // verus!
