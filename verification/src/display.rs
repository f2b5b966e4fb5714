//! What the board shows: for each row, how many objects of each kind to draw
//! and how far to indent them.

use vstd::prelude::*;
use crate::nim::{lemma_longest, longest, Move, NimGame, Position, Row};

verus! {

/// How one row of the board is drawn, from left to right: the padding that
/// centres the row, then the objects of each of the four kinds.
#[derive(Clone, Copy, Debug, PartialEq, Eq)]
pub struct RowLayout {
    /// Empty columns before the first object.
    pub left_padding: u16,
    /// Objects still in the row that the candidate move leaves there.
    pub remaining: Row,
    /// Objects still in the row that the candidate move would take.
    pub candidate: Row,
    /// Objects that the last move took.
    pub last_taken: Row,
    /// Objects that earlier moves took.
    pub taken_earlier: Row,
}

/// The state of the board's display: its width, the move made last, and the
/// candidate move under the cursor.
#[derive(Clone, Copy, Debug)]
pub struct GameDisplay {
    /// The width of the board: the length of its longest row at the start.
    pub width: u16,
    /// The move made last, if any was made yet.
    pub last_move: Option<Move>,
    /// The candidate move of the player whose turn it is.
    pub highlighted_move: Move,
}

impl GameDisplay {
    /// How many objects of a row the candidate move would take, as far as the
    /// candidate is shown at all.
    pub open spec fn candidate_on(self, row: int, highlighted: bool) -> Row {
        if highlighted && row == self.highlighted_move.0 {
            self.highlighted_move.1
        } else {
            0
        }
    }

    /// How many objects of a row the last move took.
    pub open spec fn last_taken_on(self, row: int) -> Row {
        match self.last_move {
            Some((r, count)) => if r == row { count } else { 0 },
            None => 0,
        }
    }

    /// A row can be drawn when it is no wider than the display, the candidate
    /// takes no more than the row holds, and what the last move took is among
    /// the objects missing from the row.
    pub open spec fn fits_row(self, p: Position, row: int, highlighted: bool) -> bool {
        &&& 0 <= row < p.rows.len()
        &&& row < p.initial.len()
        &&& p.initial[row] <= self.width
        &&& self.candidate_on(row, highlighted) <= p.rows[row]
        &&& p.rows[row] + self.last_taken_on(row) <= p.initial[row]
    }

    /// The board can be drawn when each of its rows can.
    pub open spec fn fits(self, p: Position, highlighted: bool) -> bool {
        &&& p.rows.len() == p.initial.len()
        &&& forall|row: int| 0 <= row < p.rows.len() ==> self.fits_row(p, row, highlighted)
    }

    /// The layout of a row: the padding makes up for what the row's starting
    /// count lacks of the display's width, and every object the row started
    /// with is of exactly one kind.
    pub open spec fn layout_of(self, p: Position, row: int, highlighted: bool) -> RowLayout {
        RowLayout {
            left_padding: (self.width - p.initial[row]) as u16,
            remaining: (p.rows[row] - self.candidate_on(row, highlighted)) as Row,
            candidate: self.candidate_on(row, highlighted),
            last_taken: self.last_taken_on(row),
            taken_earlier: (p.initial[row] - p.rows[row] - self.last_taken_on(row)) as Row,
        }
    }

    /// A display for a game with at least one row: as wide as the longest row
    /// was at the start, with no last move, and the cursor on the first row.
    pub fn new(g: &NimGame) -> (display: GameDisplay)
        requires
            g@.initial.len() > 0,
        ensures
            display.width == longest(g@.initial),
            forall|i: int| 0 <= i < g@.initial.len() ==> g@.initial[i] <= display.width,
            exists|i: int| 0 <= i < g@.initial.len() && g@.initial[i] == display.width,
            display.last_move is None,
            display.highlighted_move == (0usize, 1u8),
            g@.valid() ==> display.fits(g@, false),
    {
        let largest_row: Row = g.longest_row();
        proof {
            lemma_longest(g@.initial);
        }
        GameDisplay { width: largest_row as u16, last_move: None, highlighted_move: (0, 1) }
    }

    /// Whether the board can be drawn.
    pub fn can_display(&self, game: &NimGame, highlighted: bool) -> (ok: bool)
        ensures
            ok == self.fits(game@, highlighted),
    {
        if game.rows.len() != game.initial.len() {
            return false;
        }
        let mut row: usize = 0;
        while row < game.rows.len()
            invariant
                row <= game.rows.len(),
                game.rows.len() == game.initial.len(),
                forall|r: int| 0 <= r < row ==> self.fits_row(game@, r, highlighted),
            decreases game.rows.len() - row,
        {
            let candidate: Row = if highlighted && row == self.highlighted_move.0 {
                self.highlighted_move.1
            } else {
                0
            };
            let last_taken: Row = match self.last_move {
                Some((r, count)) => if r == row { count } else { 0 },
                None => 0,
            };
            let initial: Row = game.initial[row];
            let held: Row = game.rows[row];
            let too_wide: bool = initial as u16 > self.width;
            let too_many: bool = candidate > held || held > initial;
            if too_wide || too_many || last_taken > initial - held {
                assert(!self.fits_row(game@, row as int, highlighted));
                return false;
            }
            row += 1;
        }
        true
    }

    /// The layout of one row of the board.
    pub fn row_layout(&self, game: &NimGame, row: usize, highlighted: bool) -> (layout: RowLayout)
        requires
            self.fits_row(game@, row as int, highlighted),
        ensures
            layout == self.layout_of(game@, row as int, highlighted),
    {
        let candidate: Row = if highlighted && row == self.highlighted_move.0 {
            self.highlighted_move.1
        } else {
            0
        };
        let last_taken: Row = match self.last_move {
            Some((r, count)) => if r == row { count } else { 0 },
            None => 0,
        };
        let initial: Row = game.initial[row];
        let held: Row = game.rows[row];
        RowLayout {
            left_padding: self.width - initial as u16,
            remaining: held - candidate,
            candidate,
            last_taken,
            taken_earlier: initial - held - last_taken,
        }
    }

    /// The layout of the whole board, row by row from the first.
    pub fn layout(&self, game: &NimGame, highlighted: bool) -> (lines: Vec<RowLayout>)
        requires
            self.fits(game@, highlighted),
        ensures
            lines@.len() == game@.rows.len(),
            forall|row: int|
                0 <= row < lines@.len() ==> lines@[row] == self.layout_of(game@, row, highlighted),
    {
        let mut lines: Vec<RowLayout> = Vec::new();
        let mut row: usize = 0;
        while row < game.rows.len()
            invariant
                row <= game.rows.len(),
                self.fits(game@, highlighted),
                lines@.len() == row,
                forall|r: int|
                    0 <= r < row ==> lines@[r] == self.layout_of(game@, r, highlighted),
            decreases game.rows.len() - row,
        {
            lines.push(self.row_layout(game, row, highlighted));
            row += 1;
        }
        lines
    }
}

/// A board that can be drawn without the candidate can be drawn with it,
/// if the candidate is a legal move.
pub proof fn lemma_legal_candidate_fits(display: GameDisplay, p: Position)
    requires
        display.fits(p, false),
        p.legal(display.highlighted_move),
    ensures
        display.fits(p, true),
{
    assert forall|row: int| 0 <= row < p.rows.len() implies display.fits_row(p, row, true) by {
        assert(display.fits_row(p, row, false));
    }
}

/// Every object that a row started with is drawn exactly once, the objects
/// still in the row first, and the padding brings every row to the display's
/// width.
pub proof fn lemma_layout_accounts_for_every_object(
    display: GameDisplay,
    p: Position,
    row: int,
    highlighted: bool,
)
    requires
        display.fits_row(p, row, highlighted),
    ensures
        ({
            let l = display.layout_of(p, row, highlighted);
            &&& l.remaining + l.candidate == p.rows[row]
            &&& l.remaining + l.candidate + l.last_taken + l.taken_earlier == p.initial[row]
            &&& l.left_padding + p.initial[row] == display.width
        }),
{
}

} // verus!
