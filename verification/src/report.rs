//! The text of the lines that report counts and failures.

use crate::counts::{Counts, Totals};
use crate::mode::Mode;
use vstd::prelude::*;

verus! {

/// The character that stands for a digit.
pub open spec fn digit(d: nat) -> char {
    if d == 0 {
        '0'
    } else if d == 1 {
        '1'
    } else if d == 2 {
        '2'
    } else if d == 3 {
        '3'
    } else if d == 4 {
        '4'
    } else if d == 5 {
        '5'
    } else if d == 6 {
        '6'
    } else if d == 7 {
        '7'
    } else if d == 8 {
        '8'
    } else {
        '9'
    }
}

/// A number written in decimal, without leading zeros.
pub open spec fn decimal(n: nat) -> Seq<char>
    decreases n,
{
    if n < 10 {
        seq![digit(n)]
    } else {
        decimal(n / 10).push(digit(n % 10))
    }
}

/// A figure as it stands in a report: a space and the number, where the
/// figure is asked for, and nothing where it is not.
pub open spec fn field(wanted: bool, n: nat) -> Seq<char> {
    if wanted {
        seq![' '] + decimal(n)
    } else {
        Seq::empty()
    }
}

/// The line that reports `totals` under `label`: the figures asked for, in
/// the order lines, words, characters, bytes, widest line, then the label;
/// a space before each, and a line feed at the end.
pub open spec fn report_of(totals: Totals, mode: Mode, label: Seq<char>) -> Seq<char> {
    field(mode.lines, totals.lines) + field(mode.words, totals.words) + field(
        mode.chars,
        totals.chars,
    ) + field(mode.bytes, totals.bytes) + field(mode.max_line_len, totals.max_line_len)
        + seq![' '] + label + seq!['\n']
}

/// The line that reports that the source `name` failed for `reason`.
pub open spec fn failure_of(name: Seq<char>, reason: Seq<char>) -> Seq<char> {
    "wc_r: "@ + name + ": "@ + reason + seq!['\n']
}

/// The text of one digit.
fn digit_text(d: u64) -> (text: &'static str)
    requires
        d < 10,
    ensures
        text@ == seq![digit(d as nat)],
{
    proof {
        reveal_strlit("0");
        reveal_strlit("1");
        reveal_strlit("2");
        reveal_strlit("3");
        reveal_strlit("4");
        reveal_strlit("5");
        reveal_strlit("6");
        reveal_strlit("7");
        reveal_strlit("8");
        reveal_strlit("9");
    }
    let text = if d == 0 {
        "0"
    } else if d == 1 {
        "1"
    } else if d == 2 {
        "2"
    } else if d == 3 {
        "3"
    } else if d == 4 {
        "4"
    } else if d == 5 {
        "5"
    } else if d == 6 {
        "6"
    } else if d == 7 {
        "7"
    } else if d == 8 {
        "8"
    } else {
        "9"
    };
    assert(text@ =~= seq![digit(d as nat)]);
    text
}

/// Writes `n` in decimal at the end of `out`.
pub fn push_decimal(out: &mut String, n: u64)
    ensures
        final(out)@ == old(out)@ + decimal(n as nat),
    decreases n,
{
    if n >= 10 {
        push_decimal(out, n / 10);
    }
    out.append(digit_text(n % 10));
    proof {
        if n >= 10 {
            assert(old(out)@ + decimal(n as nat / 10) + seq![digit(n as nat % 10)] =~= old(out)@
                + decimal(n as nat / 10).push(digit(n as nat % 10)));
        }
    }
}

/// Writes a figure at the end of `out`, where it is asked for.
fn push_field(out: &mut String, wanted: bool, n: u64)
    ensures
        final(out)@ == old(out)@ + field(wanted, n as nat),
{
    if wanted {
        proof {
            reveal_strlit(" ");
        }
        out.append(" ");
        push_decimal(out, n);
        proof {
            assert(old(out)@ + " "@ + decimal(n as nat) =~= old(out)@ + (seq![' '] + decimal(
                n as nat,
            )));
        }
    } else {
        assert(old(out)@ + Seq::<char>::empty() =~= old(out)@);
    }
}

impl Counts {
    /// The line that reports these counts under `label`.
    pub fn render(&self, mode: &Mode, label: &str) -> (line: String)
        ensures
            line@ == report_of(self@, *mode, label@),
    {
        let mut line = String::new();
        push_field(&mut line, mode.lines, self.lines as u64);
        push_field(&mut line, mode.words, self.words as u64);
        push_field(&mut line, mode.chars, self.chars as u64);
        push_field(&mut line, mode.bytes, self.bytes);
        push_field(&mut line, mode.max_line_len, self.max_line_len as u64);
        proof {
            reveal_strlit(" ");
            reveal_strlit("\n");
        }
        line.append(" ");
        line.append(label);
        line.append("\n");
        proof {
            assert(line@ =~= report_of(self@, *mode, label@));
        }
        line
    }

    /// The line that reports these counts as those of standard input, which
    /// goes under the label `-` however it was named.
    pub fn render_stdin(&self, mode: &Mode) -> (line: String)
        ensures
            line@ == report_of(self@, *mode, seq!['-']),
    {
        proof {
            reveal_strlit("-");
            assert("-"@ =~= seq!['-']);
        }
        self.render(mode, "-")
    }

    /// The line that reports these counts as the total of all sources, under
    /// the label `total`.
    pub fn render_total(&self, mode: &Mode) -> (line: String)
        ensures
            line@ == report_of(self@, *mode, "total"@),
    {
        self.render(mode, "total")
    }
}

/// The line that reports that the source `name` failed for `reason`.
pub fn render_failure(name: &str, reason: &str) -> (line: String)
    ensures
        line@ == failure_of(name@, reason@),
{
    let mut line = String::new();
    proof {
        reveal_strlit("\n");
    }
    line.append("wc_r: ");
    line.append(name);
    line.append(": ");
    line.append(reason);
    line.append("\n");
    proof {
        assert(line@ =~= failure_of(name@, reason@));
    }
    line
}

} // verus!
