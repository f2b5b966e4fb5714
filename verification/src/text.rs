//! The board as plain text, one line for each row.

use vstd::prelude::*;
use vstd::string::StringExecFns;
use crate::nim::{longest, NimGame, Position, Row};

verus! {

/// The text of one decimal digit.
pub open spec fn digit_text(d: int) -> Seq<char> {
    if d == 0 {
        "0"@
    } else if d == 1 {
        "1"@
    } else if d == 2 {
        "2"@
    } else if d == 3 {
        "3"@
    } else if d == 4 {
        "4"@
    } else if d == 5 {
        "5"@
    } else if d == 6 {
        "6"@
    } else if d == 7 {
        "7"@
    } else if d == 8 {
        "8"@
    } else {
        "9"@
    }
}

/// A number in decimal, without leading zeros.
pub open spec fn decimal(n: nat) -> Seq<char>
    decreases n,
{
    if n < 10 {
        digit_text(n as int)
    } else {
        decimal(n / 10) + digit_text((n % 10) as int)
    }
}

/// A piece of text, written a number of times in a row.
pub open spec fn repeated(unit: Seq<char>, times: nat) -> Seq<char>
    decreases times,
{
    if times == 0 {
        Seq::empty()
    } else {
        repeated(unit, (times - 1) as nat) + unit
    }
}

/// The line of row `i`: its index, a space, the padding that makes up for
/// what the row lacks of `width` at the start, a bar for each object that
/// the row holds, a dot for each object taken from it, and a line feed.
pub open spec fn line_of(p: Position, width: Row, i: int) -> Seq<char> {
    decimal(i as nat) + " "@ + repeated(" "@, (width - p.initial[i]) as nat) + repeated(
        "| "@,
        p.rows[i] as nat,
    ) + repeated(". "@, (p.initial[i] - p.rows[i]) as nat) + "\n"@
}

/// The lines of the first `n` rows, one after the other.
pub open spec fn lines_of(p: Position, width: Row, n: nat) -> Seq<char>
    decreases n,
{
    if n == 0 {
        Seq::empty()
    } else {
        lines_of(p, width, (n - 1) as nat) + line_of(p, width, n - 1)
    }
}

/// The board as text: the lines of all rows, padded to the length of the
/// longest row at the start, and a rule of fifteen dashes below them.
pub open spec fn text_of(p: Position) -> Seq<char> {
    lines_of(p, longest(p.initial), p.rows.len()) + "---------------"@
}

/// Appends one decimal digit.
fn push_digit(text: &mut String, d: usize)
    requires
        d < 10,
    ensures
        final(text)@ == old(text)@ + digit_text(d as int),
{
    if d == 0 {
        text.append("0");
    } else if d == 1 {
        text.append("1");
    } else if d == 2 {
        text.append("2");
    } else if d == 3 {
        text.append("3");
    } else if d == 4 {
        text.append("4");
    } else if d == 5 {
        text.append("5");
    } else if d == 6 {
        text.append("6");
    } else if d == 7 {
        text.append("7");
    } else if d == 8 {
        text.append("8");
    } else {
        text.append("9");
    }
}

/// Appends a number in decimal.
fn push_decimal(text: &mut String, n: usize)
    ensures
        final(text)@ == old(text)@ + decimal(n as nat),
    decreases n,
{
    if n >= 10 {
        push_decimal(text, n / 10);
    }
    push_digit(text, n % 10);
    assert(text@ =~= old(text)@ + decimal(n as nat));
}

/// Appends a piece of text a number of times.
fn push_repeated(text: &mut String, unit: &str, times: Row)
    ensures
        final(text)@ == old(text)@ + repeated(unit@, times as nat),
{
    let mut done: Row = 0;
    assert(text@ =~= old(text)@ + repeated(unit@, 0));
    while done < times
        invariant
            done <= times,
            text@ == old(text)@ + repeated(unit@, done as nat),
        decreases times - done,
    {
        text.append(unit);
        done += 1;
        assert(text@ =~= old(text)@ + repeated(unit@, done as nat));
    }
}

impl NimGame {
    /// The board as text.
    pub fn render(&self) -> (text: String)
        requires
            self@.valid(),
            self@.initial.len() > 0,
        ensures
            text@ == text_of(self@),
    {
        let max_width: Row = self.longest_row();
        let mut text: String = String::new();
        let mut i: usize = 0;
        assert(text@ =~= lines_of(self@, max_width, 0));
        while i < self.rows.len()
            invariant
                i <= self.rows.len(),
                self@.valid(),
                max_width == longest(self@.initial),
                text@ == lines_of(self@, max_width, i as nat),
            decreases self.rows.len() - i,
        {
            let ghost before = text@;
            let row: Row = self.rows[i];
            let initial: Row = self.initial[i];
            proof {
                crate::nim::lemma_longest(self@.initial);
            }
            push_decimal(&mut text, i);
            text.append(" ");
            push_repeated(&mut text, " ", max_width - initial);
            push_repeated(&mut text, "| ", row);
            push_repeated(&mut text, ". ", initial - row);
            text.append("\n");
            assert(text@ =~= before + line_of(self@, max_width, i as int));
            i += 1;
        }
        text.append("---------------");
        text
    }
}

} // verus!
