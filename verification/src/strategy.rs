//! The computer's play: the endgame move where the board is in an endgame,
//! else the move that brings the Nim-sum to zero, else a single object from a
//! row left to chance.

use vstd::prelude::*;
use vstd::pervasive::unreached;
use crate::chance::pick_one;
use crate::nim::{Move, NimGame, Position, Row};
use crate::nimsum::{
    balanced_count, can_balance, lemma_balanced_count_balances,
    lemma_unbalanced_board_can_be_balanced, nim_sum,
};
use crate::ranking::{lemma_ranking, numbered, rank_rows, ranking, Ranked};

verus! {

/// The move that an endgame calls for, on a board that holds objects. The
/// four longest rows decide, the longest first: they hold `x`, `a`, `b` and
/// `c`. The move takes from the row that holds `x`, the first such row if
/// there are several:
/// - beside two rows of one object and nothing else, all but one object;
/// - beside one row of two objects and nothing else, all but two objects;
/// - beside one row of one object and nothing else, all objects;
/// - beside nothing else, all but one object.
///
/// Any other board is in no endgame, and so is a board of fewer than four
/// rows.
pub open spec fn endgame_move(rows: Seq<Row>) -> Option<Move> {
    if rows.len() < 4 {
        None
    } else {
        let top = ranking(rows);
        let (i, x) = top[0];
        let a = top[1].1;
        let b = top[2].1;
        let c = top[3].1;
        if a == 1 && b == 1 && c == 0 && x > 1 {
            Some((i, (x - 1) as Row))
        } else if a == 2 && b == 0 && x > 2 {
            Some((i, (x - 2) as Row))
        } else if a == 1 && b == 0 {
            Some((i, x))
        } else if a == 0 {
            Some((i, (x - 1) as Row))
        } else {
            None
        }
    }
}

/// `m` is the move that brings the Nim-sum to zero: it cuts the first row
/// that can be cut down to its balanced count down to that count.
pub open spec fn is_balancing_move(rows: Seq<Row>, m: Move) -> bool {
    &&& can_balance(rows, m.0 as int)
    &&& forall|j: int| 0 <= j < m.0 ==> !can_balance(rows, j)
    &&& m.1 == rows[m.0 as int] - balanced_count(rows, m.0 as int)
}

/// `m` takes a single object from a row that holds one.
pub open spec fn is_single_take(rows: Seq<Row>, m: Move) -> bool {
    &&& m.0 < rows.len()
    &&& rows[m.0 as int] > 0
    &&& m.1 == 1
}

/// `m` is a move that the computer may make: the endgame move if the board
/// is in an endgame, else the move that brings the Nim-sum to zero if it is
/// not zero, else a single object from any row that holds one.
pub open spec fn is_auto_move(rows: Seq<Row>, m: Move) -> bool {
    match endgame_move(rows) {
        Some(endgame) => m == endgame,
        None => if nim_sum(rows) != 0 {
            is_balancing_move(rows, m)
        } else {
            is_single_take(rows, m)
        },
    }
}

impl NimGame {
    /// The Nim-sum of the rows.
    pub fn nim_sum(&self) -> (sum: Row)
        ensures
            sum == nim_sum(self@.rows),
    {
        let mut sum: Row = 0;
        let mut i: usize = 0;
        while i < self.rows.len()
            invariant
                i <= self.rows.len(),
                sum == nim_sum(self.rows@.take(i as int)),
            decreases self.rows.len() - i,
        {
            assert(self.rows@.take(i + 1).drop_last() =~= self.rows@.take(i as int));
            sum = sum ^ self.rows[i];
            i += 1;
        }
        assert(self.rows@.take(i as int) =~= self.rows@);
        sum
    }

    /// The move that forces a win, if there is one: where the Nim-sum is not
    /// zero, the first row that can be cut down to its balanced count is cut
    /// down to it, which leaves a board whose Nim-sum is zero. Where the
    /// Nim-sum is zero already, there is no such move.
    pub fn xor_move(&self) -> (found: Option<Move>)
        ensures
            found is None <==> nim_sum(self@.rows) == 0,
            found matches Some(m) ==> {
                &&& is_balancing_move(self@.rows, m)
                &&& self@.legal(m)
                &&& nim_sum(self@.after(m).rows) == 0
            },
    {
        let column_parity: Row = self.nim_sum();
        if column_parity == 0 {
            return None;
        }
        let mut i: usize = 0;
        while i < self.rows.len()
            invariant
                i <= self.rows.len(),
                column_parity == nim_sum(self@.rows),
                column_parity != 0,
                forall|j: int| 0 <= j < i ==> !can_balance(self@.rows, j),
            decreases self.rows.len() - i,
        {
            let row: Row = self.rows[i];
            let take: Row = row ^ column_parity;
            if take < row {
                proof {
                    lemma_balanced_count_balances(self@.rows, i as int);
                }
                return Some((i, row - take));
            }
            i += 1;
        }
        proof {
            lemma_unbalanced_board_can_be_balanced(self@.rows);
        }
        unreached()
    }

    /// The move that an endgame calls for, if the board is in one.
    pub fn winning_move(&self) -> (found: Option<Move>)
        requires
            self@.has_objects(),
        ensures
            found == endgame_move(self@.rows),
    {
        if self.rows.len() < 4 {
            return None;
        }
        let v: Vec<Ranked> = rank_rows(&self.rows);
        proof {
            lemma_ranking(self@.rows);
            lemma_longest_row_holds_an_object(self@.rows);
        }
        let (i, x) = v[0];
        let a: Row = v[1].1;
        let b: Row = v[2].1;
        let c: Row = v[3].1;
        if a == 1 && b == 1 && c == 0 && x > 1 {
            Some((i, x - 1))
        } else if a == 2 && b == 0 && x > 2 {
            Some((i, x - 2))
        } else if a == 1 && b == 0 {
            Some((i, x))
        } else if a == 0 {
            Some((i, x - 1))
        } else {
            None
        }
    }

    /// The rows that hold an object, by their indices, the lowest first.
    pub fn candidate_rows(&self) -> (possible: Vec<usize>)
        ensures
            forall|k: int|
                0 <= k < possible@.len() ==> (#[trigger] possible@[k]) < self@.rows.len()
                    && self@.rows[possible@[k] as int] > 0,
            forall|j: int, k: int| 0 <= j < k < possible@.len() ==> possible@[j] < possible@[k],
            forall|i: int|
                0 <= i < self@.rows.len() && self@.rows[i] > 0 ==> possible@.contains(i as usize),
    {
        let mut possible: Vec<usize> = Vec::new();
        let mut i: usize = 0;
        while i < self.rows.len()
            invariant
                i <= self.rows.len(),
                forall|k: int|
                    0 <= k < possible@.len() ==> (#[trigger] possible@[k]) < i
                        && self@.rows[possible@[k] as int] > 0,
                forall|j: int, k: int|
                    0 <= j < k < possible@.len() ==> possible@[j] < possible@[k],
                forall|r: int|
                    0 <= r < i && self@.rows[r] > 0 ==> possible@.contains(r as usize),
            decreases self.rows.len() - i,
        {
            if self.rows[i] > 0 {
                let ghost before = possible@;
                possible.push(i);
                proof {
                    assert(possible@[before.len() as int] == i);
                    assert forall|r: int| 0 <= r < i && self@.rows[r] > 0 implies possible@.contains(
                        r as usize,
                    ) by {
                        let k = choose|k: int| 0 <= k < before.len() && before[k] == r as usize;
                        assert(possible@[k] == r as usize);
                    }
                }
            }
            i += 1;
        }
        possible
    }

    /// A move that takes one object from a row that holds one; which of those
    /// rows, is left to chance.
    pub fn random_move(&self) -> (m: Move)
        requires
            self@.has_objects(),
        ensures
            is_single_take(self@.rows, m),
            self@.legal(m),
    {
        let possible: Vec<usize> = self.candidate_rows();
        proof {
            let i = choose|i: int| 0 <= i < self@.rows.len() && self@.rows[i] > 0;
            assert(possible@.contains(i as usize));
        }
        match pick_one(&possible) {
            Some(row) => (row, 1),
            None => unreached(),
        }
    }

    /// The computer's move: the endgame move if the board is in an endgame,
    /// else the move that brings the Nim-sum to zero if there is one, else a
    /// single object from a row left to chance. Unless the game is lost
    /// already, the move is legal.
    pub fn auto_move(&self) -> (m: Move)
        requires
            self@.has_objects(),
        ensures
            is_auto_move(self@.rows, m),
            !self@.is_lost() ==> self@.legal(m),
    {
        proof {
            assert(self@.rows.len() == self.rows.len());
            if !self@.is_lost() {
                lemma_endgame_move_is_legal(self@);
            }
        }
        match self.winning_move() {
            Some(m) => m,
            None => match self.xor_move() {
                Some(m) => m,
                None => self.random_move(),
            },
        }
    }
}

/// On a board that holds an object, the longest row holds one.
proof fn lemma_longest_row_holds_an_object(rows: Seq<Row>)
    requires
        rows.len() <= usize::MAX,
        exists|i: int| 0 <= i < rows.len() && rows[i] > 0,
    ensures
        ranking(rows)[0].1 > 0,
{
    lemma_ranking(rows);
    let w = choose|w: int| 0 <= w < rows.len() && rows[w] > 0;
    let top = ranking(rows);
    assert(top.contains(numbered(rows)[w]));
    let k = choose|k: int| 0 <= k < top.len() && top[k] == numbered(rows)[w];
    if k > 0 {
        assert(top[0].1 >= top[k].1);
    }
}

/// The endgame move is a legal move, unless the game is lost already.
pub proof fn lemma_endgame_move_is_legal(p: Position)
    requires
        p.rows.len() <= usize::MAX,
        p.has_objects(),
        !p.is_lost(),
    ensures
        endgame_move(p.rows) matches Some(m) ==> p.legal(m),
{
    let rows = p.rows;
    if rows.len() >= 4 {
        lemma_ranking(rows);
        lemma_longest_row_holds_an_object(rows);
        let top = ranking(rows);
        let (i, x) = top[0];
        assert(top[0].1 >= top[1].1);
        assert(i < rows.len() && rows[i as int] == x);
        if top[1].1 == 0 && x == 1 {
            assert forall|j: int| 0 <= j < rows.len() && j != i implies rows[j] == 0 by {
                let entry = numbered(rows)[j];
                assert(top.contains(entry));
                let k = choose|k: int| 0 <= k < top.len() && top[k] == entry;
                if k > 1 {
                    assert(top[1].1 >= top[k].1);
                }
            }
            assert(p.is_lost());
        }
    }
}

/// Where at most one row besides the longest holds an object, and that row
/// holds a single one, the endgame move leaves the game lost: whoever makes
/// the move wins.
pub proof fn lemma_endgame_move_wins(p: Position)
    requires
        p.rows.len() <= usize::MAX,
        p.rows.len() >= 4,
        p.has_objects(),
        ranking(p.rows)[1].1 <= 1,
        ranking(p.rows)[2].1 == 0,
    ensures
        endgame_move(p.rows) matches Some(m) && p.after(m).is_lost(),
{
    let rows = p.rows;
    lemma_ranking(rows);
    lemma_longest_row_holds_an_object(rows);
    let top = ranking(rows);
    let (i, x) = top[0];
    let second = top[1].0;
    let m = endgame_move(rows)->0;
    let left = p.after(m).rows;
    assert(top[0].1 >= top[1].1);
    assert(i < rows.len() && rows[i as int] == x);
    assert(second < rows.len() && rows[second as int] == top[1].1);
    assert(i != second);
    assert forall|j: int| 0 <= j < rows.len() && j != i && j != second implies rows[j] == 0 by {
        let entry = numbered(rows)[j];
        assert(top.contains(entry));
        let k = choose|k: int| 0 <= k < top.len() && top[k] == entry;
        if k > 2 {
            assert(top[2].1 >= top[k].1);
        }
    }
    if top[1].1 == 1 {
        assert(left[second as int] == 1);
        assert forall|j: int| 0 <= j < left.len() && j != second implies left[j] == 0 by {}
    } else {
        assert(left[i as int] == 1);
        assert forall|j: int| 0 <= j < left.len() && j != i implies left[j] == 0 by {}
    }
}

} // verus!
