//! The cursor of a human player's turn: a candidate move that the direction
//! keys steer from row to row and from count to count, until it is confirmed
//! or the turn is abandoned.

use vstd::prelude::*;
use crate::display::GameDisplay;
use crate::nim::{Move, NimGame, Position, Row};

verus! {

/// A key press, as far as the selection tells keys apart.
#[derive(Clone, Copy, Debug, PartialEq, Eq)]
pub enum Key {
    Esc,
    Left,
    Right,
    Up,
    Down,
    Enter,
    Other,
}

/// What a key press asks of the caller.
#[derive(Clone, Copy, Debug, PartialEq, Eq)]
pub enum Step {
    /// The player gave up: the session ends without a move.
    Cancel,
    /// The player confirmed this move.
    Commit(Move),
    /// The candidate may have changed: draw the board again.
    Redraw,
    /// Nothing happened: wait for the next key.
    Wait,
}

/// The row that lies `k` rows before `from`, where the last row comes before
/// the first.
pub open spec fn row_before(from: int, k: int, len: int) -> int {
    if k <= from {
        from - k
    } else {
        from - k + len
    }
}

/// The row that lies `k` rows after `from`, where the first row comes after
/// the last.
pub open spec fn row_after(from: int, k: int, len: int) -> int {
    if from + k < len {
        from + k
    } else {
        from + k - len
    }
}

/// `to` is the row that lies `k` rows before `from`, it holds an object, and
/// no row between the two does.
pub open spec fn is_previous_row_at(rows: Seq<Row>, from: int, k: int, to: int) -> bool {
    &&& 1 <= k <= rows.len()
    &&& to == row_before(from, k, rows.len() as int)
    &&& rows[to] > 0
    &&& forall|j: int| 1 <= j < k ==> rows[#[trigger] row_before(from, j, rows.len() as int)] == 0
}

/// `to` is the row that lies `k` rows after `from`, it holds an object, and
/// no row between the two does.
pub open spec fn is_next_row_at(rows: Seq<Row>, from: int, k: int, to: int) -> bool {
    &&& 1 <= k <= rows.len()
    &&& to == row_after(from, k, rows.len() as int)
    &&& rows[to] > 0
    &&& forall|j: int| 1 <= j < k ==> rows[#[trigger] row_after(from, j, rows.len() as int)] == 0
}

/// `to` is the nearest row before `from` that holds an object. Where no other
/// row holds one, that is `from` itself, reached once around the board.
pub open spec fn is_previous_row(rows: Seq<Row>, from: int, to: int) -> bool {
    exists|k: int| is_previous_row_at(rows, from, k, to)
}

/// `to` is the nearest row after `from` that holds an object. Where no other
/// row holds one, that is `from` itself, reached once around the board.
pub open spec fn is_next_row(rows: Seq<Row>, from: int, to: int) -> bool {
    exists|k: int| is_next_row_at(rows, from, k, to)
}

/// Only one row is the nearest before `from` that holds an object.
pub proof fn lemma_previous_row_is_unique(rows: Seq<Row>, from: int, a: int, b: int)
    requires
        is_previous_row(rows, from, a),
        is_previous_row(rows, from, b),
    ensures
        a == b,
{
    let len = rows.len() as int;
    let ka = choose|k: int| is_previous_row_at(rows, from, k, a);
    let kb = choose|k: int| is_previous_row_at(rows, from, k, b);
    if ka < kb {
        assert(rows[row_before(from, ka, len)] == 0);
    } else if kb < ka {
        assert(rows[row_before(from, kb, len)] == 0);
    }
}

/// Only one row is the nearest after `from` that holds an object.
pub proof fn lemma_next_row_is_unique(rows: Seq<Row>, from: int, a: int, b: int)
    requires
        is_next_row(rows, from, a),
        is_next_row(rows, from, b),
    ensures
        a == b,
{
    let len = rows.len() as int;
    let ka = choose|k: int| is_next_row_at(rows, from, k, a);
    let kb = choose|k: int| is_next_row_at(rows, from, k, b);
    if ka < kb {
        assert(rows[row_after(from, ka, len)] == 0);
    } else if kb < ka {
        assert(rows[row_after(from, kb, len)] == 0);
    }
}

/// The row before the first row is the last row that holds an object.
pub proof fn lemma_previous_of_first_row_is_last_with_objects(rows: Seq<Row>, to: int)
    requires
        is_previous_row(rows, 0, to),
    ensures
        0 <= to < rows.len(),
        rows[to] > 0,
        forall|j: int| to < j < rows.len() ==> rows[j] == 0,
{
    let len = rows.len() as int;
    let k = choose|k: int| is_previous_row_at(rows, 0, k, to);
    assert forall|j: int| to < j < rows.len() implies rows[j] == 0 by {
        assert(row_before(0, len - j, len) == j);
    }
}

/// The row after the last row is the first row that holds an object.
pub proof fn lemma_next_of_last_row_is_first_with_objects(rows: Seq<Row>, to: int)
    requires
        rows.len() > 0,
        is_next_row(rows, rows.len() - 1, to),
    ensures
        0 <= to < rows.len(),
        rows[to] > 0,
        forall|j: int| 0 <= j < to ==> rows[j] == 0,
{
    let len = rows.len() as int;
    let last = len - 1;
    let k = choose|k: int| is_next_row_at(rows, last, k, to);
    assert forall|j: int| 0 <= j < to implies rows[j] == 0 by {
        assert(row_after(last, j + 1, len) == j);
    }
}

/// A count grown by one, but to no more than the row holds.
pub open spec fn one_more(count: Row, held: Row) -> Row {
    if count + 1 <= held {
        (count + 1) as Row
    } else {
        held
    }
}

/// A count shrunk by one, but to no less than one.
pub open spec fn one_fewer(count: Row) -> Row {
    if count - 1 >= 1 {
        (count - 1) as Row
    } else {
        1
    }
}

impl GameDisplay {
    /// The candidate is a legal move: it stands on a row of the board and
    /// takes at least one object, and no more than the row holds.
    pub open spec fn selection_valid(self, p: Position) -> bool {
        p.legal(self.highlighted_move)
    }

    /// Whether the candidate is a legal move.
    pub fn has_valid_selection(&self, game: &NimGame) -> (ok: bool)
        ensures
            ok == self.selection_valid(game@),
    {
        let (row, count) = self.highlighted_move;
        row < game.rows.len() && count > 0 && game.rows[row] >= count
    }

    /// Starts a human player's turn: the candidate takes one object from the
    /// first row that holds any.
    pub fn start_selection(&mut self, game: &NimGame)
        requires
            game@.has_objects(),
        ensures
            final(self).highlighted_move.0 < game@.rows.len(),
            game@.rows[final(self).highlighted_move.0 as int] > 0,
            forall|j: int| 0 <= j < final(self).highlighted_move.0 ==> game@.rows[j] == 0,
            final(self).highlighted_move.1 == 1,
            final(self).selection_valid(game@),
            final(self).width == old(self).width,
            final(self).last_move == old(self).last_move,
    {
        let mut row: usize = 0;
        while game.rows[row] == 0
            invariant
                row < game.rows.len(),
                game@.has_objects(),
                forall|j: int| 0 <= j < row ==> game@.rows[j] == 0,
            decreases game.rows.len() - row,
        {
            row += 1;
        }
        self.highlighted_move = (row, 1);
    }

    /// Moves the cursor to the nearest row before it that holds an object,
    /// going on from the last row after the first, and sets the count to one.
    pub fn move_selection_up(&mut self, game: &NimGame)
        requires
            old(self).highlighted_move.0 < game@.rows.len(),
            game@.has_objects(),
        ensures
            is_previous_row(
                game@.rows,
                old(self).highlighted_move.0 as int,
                final(self).highlighted_move.0 as int,
            ),
            final(self).highlighted_move.1 == 1,
            final(self).selection_valid(game@),
            final(self).width == old(self).width,
            final(self).last_move == old(self).last_move,
    {
        let len: usize = game.rows.len();
        let ghost from: int = self.highlighted_move.0 as int;
        let ghost w: int = choose|w: int| 0 <= w < len && game@.rows[w] > 0;
        let ghost k: int = 0;
        let mut row: usize = self.highlighted_move.0;
        loop
            invariant_except_break
                0 <= k < len,
                row == row_before(from, k, len as int),
                forall|j: int|
                    1 <= j <= k ==> game@.rows[#[trigger] row_before(from, j, len as int)] == 0,
            invariant
                0 <= from < len,
                len == game@.rows.len(),
                row < len,
                0 <= w < len && game@.rows[w] > 0,
            ensures
                1 <= k <= len,
                row == row_before(from, k, len as int),
                game@.rows[row as int] > 0,
                forall|j: int|
                    1 <= j < k ==> game@.rows[#[trigger] row_before(from, j, len as int)] == 0,
            decreases len - k,
        {
            if row == 0 {
                row = len - 1;
            } else {
                row -= 1;
            }
            proof {
                k = k + 1;
            }
            if game.rows[row] != 0 {
                break;
            }
            proof {
                if k == len {
                    let j = if w < from { from - w } else { from - w + len };
                    assert(row_before(from, j, len as int) == w);
                }
            }
        }
        assert(is_previous_row_at(game@.rows, from, k, row as int));
        self.highlighted_move = (row, 1);
    }

    /// Moves the cursor to the nearest row after it that holds an object,
    /// going on from the first row after the last, and sets the count to one.
    pub fn move_selection_down(&mut self, game: &NimGame)
        requires
            old(self).highlighted_move.0 < game@.rows.len(),
            game@.has_objects(),
        ensures
            is_next_row(
                game@.rows,
                old(self).highlighted_move.0 as int,
                final(self).highlighted_move.0 as int,
            ),
            final(self).highlighted_move.1 == 1,
            final(self).selection_valid(game@),
            final(self).width == old(self).width,
            final(self).last_move == old(self).last_move,
    {
        let len: usize = game.rows.len();
        let ghost from: int = self.highlighted_move.0 as int;
        let ghost w: int = choose|w: int| 0 <= w < len && game@.rows[w] > 0;
        let ghost k: int = 0;
        let mut row: usize = self.highlighted_move.0;
        loop
            invariant_except_break
                0 <= k < len,
                row == row_after(from, k, len as int),
                forall|j: int|
                    1 <= j <= k ==> game@.rows[#[trigger] row_after(from, j, len as int)] == 0,
            invariant
                0 <= from < len,
                len == game@.rows.len(),
                row < len,
                0 <= w < len && game@.rows[w] > 0,
            ensures
                1 <= k <= len,
                row == row_after(from, k, len as int),
                game@.rows[row as int] > 0,
                forall|j: int|
                    1 <= j < k ==> game@.rows[#[trigger] row_after(from, j, len as int)] == 0,
            decreases len - k,
        {
            if row == len - 1 {
                row = 0;
            } else {
                row += 1;
            }
            proof {
                k = k + 1;
            }
            if game.rows[row] != 0 {
                break;
            }
            proof {
                if k == len {
                    let j = if w > from { w - from } else { w - from + len };
                    assert(row_after(from, j, len as int) == w);
                }
            }
        }
        assert(is_next_row_at(game@.rows, from, k, row as int));
        self.highlighted_move = (row, 1);
    }

    /// Shrinks the candidate's count by one, but to no less than one.
    pub fn move_selection_right(&mut self)
        ensures
            final(self).highlighted_move == (
                old(self).highlighted_move.0,
                one_fewer(old(self).highlighted_move.1),
            ),
            final(self).highlighted_move.1 >= 1,
            final(self).width == old(self).width,
            final(self).last_move == old(self).last_move,
    {
        if self.highlighted_move.1 > 1 {
            self.highlighted_move.1 -= 1;
        } else {
            self.highlighted_move.1 = 1;
        }
    }

    /// Grows the candidate's count by one, but to no more than its row holds.
    pub fn move_selection_left(&mut self, game: &NimGame)
        requires
            old(self).highlighted_move.0 < game@.rows.len(),
        ensures
            final(self).highlighted_move == (
                old(self).highlighted_move.0,
                one_more(
                    old(self).highlighted_move.1,
                    game@.rows[old(self).highlighted_move.0 as int],
                ),
            ),
            final(self).highlighted_move.1 <= game@.rows[old(self).highlighted_move.0 as int],
            final(self).width == old(self).width,
            final(self).last_move == old(self).last_move,
    {
        let held: Row = game.rows[self.highlighted_move.0];
        if self.highlighted_move.1 < held {
            self.highlighted_move.1 += 1;
        } else {
            self.highlighted_move.1 = held;
        }
    }

    /// Answers one key press of a human player's turn. Up and Down move the
    /// cursor to another row, Left grows the count and Right shrinks it, and
    /// a candidate that is a legal move stays one. Enter confirms the
    /// candidate as it stands, Esc abandons the turn, and any other key does
    /// nothing.
    pub fn handle_key(&mut self, game: &NimGame, key: Key) -> (step: Step)
        requires
            old(self).highlighted_move.0 < game@.rows.len(),
            game@.has_objects(),
        ensures
            old(self).selection_valid(game@) ==> final(self).selection_valid(game@),
            old(self).selection_valid(game@) ==> (step matches Step::Commit(m) ==> game@.legal(m)),
            final(self).highlighted_move.0 < game@.rows.len(),
            final(self).width == old(self).width,
            final(self).last_move == old(self).last_move,
            ({
                let before = old(self).highlighted_move;
                let now = final(self).highlighted_move;
                match key {
                    Key::Esc => step == Step::Cancel && now == before,
                    Key::Enter => step == Step::Commit(before) && now == before,
                    Key::Left => step == Step::Redraw && now == (
                        before.0,
                        one_more(before.1, game@.rows[before.0 as int]),
                    ),
                    Key::Right => step == Step::Redraw && now == (before.0, one_fewer(before.1)),
                    Key::Up => step == Step::Redraw && now.1 == 1 && is_previous_row(
                        game@.rows,
                        before.0 as int,
                        now.0 as int,
                    ),
                    Key::Down => step == Step::Redraw && now.1 == 1 && is_next_row(
                        game@.rows,
                        before.0 as int,
                        now.0 as int,
                    ),
                    Key::Other => step == Step::Wait && now == before,
                }
            }),
    {
        match key {
            Key::Esc => Step::Cancel,
            Key::Left => {
                self.move_selection_left(game);
                Step::Redraw
            },
            Key::Right => {
                self.move_selection_right();
                Step::Redraw
            },
            Key::Up => {
                self.move_selection_up(game);
                Step::Redraw
            },
            Key::Down => {
                self.move_selection_down(game);
                Step::Redraw
            },
            Key::Enter => Step::Commit(self.highlighted_move),
            Key::Other => Step::Wait,
        }
    }
}

} // verus!
