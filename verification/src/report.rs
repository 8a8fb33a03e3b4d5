//! The report emitter: the text of a folder's report.

use crate::patterns::{line_views, PatternLine, PatternLineView};
use vstd::prelude::*;
use vstd::string::StringExecFns;

verus! {

/// The character of a decimal digit.
pub open spec fn digit(d: nat) -> char {
    if d == 0 {
        '0'
    } else if d == 1 {
        '1'
    } else if d == 2 {
        '2'
    } else if d == 3 {
        '3'
    } else if d == 4 {
        '4'
    } else if d == 5 {
        '5'
    } else if d == 6 {
        '6'
    } else if d == 7 {
        '7'
    } else if d == 8 {
        '8'
    } else {
        '9'
    }
}

/// A number in decimal digits, without leading zeros.
pub open spec fn decimal(n: nat) -> Seq<char>
    decreases n,
{
    if n < 10 {
        seq![digit(n)]
    } else {
        decimal(n / 10).push(digit(n % 10))
    }
}

/// The line of a reported group, with the line feed that ends it.
pub open spec fn line_text(line: PatternLineView) -> Seq<char> {
    "- pattern like '"@ + line.prefix + "*': "@ + decimal(line.count) + " files\n"@
}

/// The first `n` lines of a report, one after the other.
pub open spec fn lines_text(lines: Seq<PatternLineView>, n: nat) -> Seq<char>
    decreases n,
{
    if n == 0 {
        Seq::empty()
    } else {
        lines_text(lines, (n - 1) as nat) + line_text(lines[n - 1])
    }
}

/// The report of a folder: its path on a line of its own, a line for each
/// reported group, and an empty line.
pub open spec fn folder_text(path: Seq<char>, lines: Seq<PatternLineView>) -> Seq<char> {
    path + "\n"@ + lines_text(lines, lines.len()) + "\n"@
}

fn digit_str(d: usize) -> (text: &'static str)
    requires
        d < 10,
    ensures
        text@ == seq![digit(d as nat)],
{
    proof {
        reveal_strlit("0");
        reveal_strlit("1");
        reveal_strlit("2");
        reveal_strlit("3");
        reveal_strlit("4");
        reveal_strlit("5");
        reveal_strlit("6");
        reveal_strlit("7");
        reveal_strlit("8");
        reveal_strlit("9");
    }
    let text = if d == 0 {
        "0"
    } else if d == 1 {
        "1"
    } else if d == 2 {
        "2"
    } else if d == 3 {
        "3"
    } else if d == 4 {
        "4"
    } else if d == 5 {
        "5"
    } else if d == 6 {
        "6"
    } else if d == 7 {
        "7"
    } else if d == 8 {
        "8"
    } else {
        "9"
    };
    text
}

/// Writes a number in decimal digits.
pub fn decimal_string(n: usize) -> (text: String)
    ensures
        text@ == decimal(n as nat),
    decreases n,
{
    if n < 10 {
        digit_str(n).to_owned()
    } else {
        let mut text = decimal_string(n / 10);
        text.append(digit_str(n % 10));
        text
    }
}

/// Writes the line of a reported group.
pub fn render_line(line: &PatternLine) -> (text: String)
    ensures
        text@ == line_text(line@),
{
    let mut text = "- pattern like '".to_owned();
    text.append(line.prefix.as_str());
    text.append("*': ");
    text.append(decimal_string(line.count).as_str());
    text.append(" files\n");
    text
}

/// Writes the report of a folder.
pub fn render_folder(path: &str, lines: &Vec<PatternLine>) -> (text: String)
    ensures
        text@ == folder_text(path@, line_views(lines@)),
{
    let ghost views = line_views(lines@);
    let mut text = path.to_owned();
    text.append("\n");
    let mut a: usize = 0;
    while a < lines.len()
        invariant
            views == line_views(lines@),
            a <= lines.len(),
            text@ == path@ + "\n"@ + lines_text(views, a as nat),
        decreases lines.len() - a,
    {
        let line = render_line(&lines[a]);
        text.append(line.as_str());
        a += 1;
    }
    text.append("\n");
    text
}

} // verus!
