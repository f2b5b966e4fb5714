//! The game state: the rows of objects, the moves that are legal on them, and
//! the condition that ends the game.

use vstd::prelude::*;

verus! {

/// The number of objects in one row.
pub type Row = u8;

/// A move: the index of a row, and how many objects to take from it.
pub type Move = (usize, Row);

/// The mathematical content of a game: what each row holds now, and what it
/// held when the game began.
pub struct Position {
    pub rows: Seq<Row>,
    pub initial: Seq<Row>,
}

impl Position {
    /// Every row of the game has a starting count, and holds no more than that.
    pub open spec fn valid(self) -> bool {
        &&& self.rows.len() == self.initial.len()
        &&& forall|i: int| 0 <= i < self.rows.len() ==> self.rows[i] <= self.initial[i]
    }

    /// A move is legal when it names an existing row and takes at least one
    /// object, and no more than the row holds.
    pub open spec fn legal(self, m: Move) -> bool {
        &&& m.0 < self.rows.len()
        &&& m.1 > 0
        &&& self.rows[m.0 as int] >= m.1
    }

    /// Some row still holds an object.
    pub open spec fn has_objects(self) -> bool {
        exists|i: int| 0 <= i < self.rows.len() && self.rows[i] > 0
    }

    /// The game is lost: one row holds a single object, and every other row
    /// is empty.
    pub open spec fn is_lost(self) -> bool {
        exists|i: int|
            0 <= i < self.rows.len() && self.rows[i] == 1 && forall|j: int|
                0 <= j < self.rows.len() && j != i ==> self.rows[j] == 0
    }

    /// The position that a move leaves: the named row is shorter by the count
    /// taken, and nothing else differs.
    pub open spec fn after(self, m: Move) -> Position {
        Position {
            rows: self.rows.update(m.0 as int, (self.rows[m.0 as int] - m.1) as Row),
            initial: self.initial,
        }
    }
}

/// The highest of the counts; zero where there is none.
pub open spec fn longest(counts: Seq<Row>) -> Row
    decreases counts.len(),
{
    if counts.len() == 0 {
        0
    } else if counts.last() > longest(counts.drop_last()) {
        counts.last()
    } else {
        longest(counts.drop_last())
    }
}

/// No count is higher than the highest, and one of them is the highest.
pub proof fn lemma_longest(counts: Seq<Row>)
    ensures
        forall|i: int| 0 <= i < counts.len() ==> counts[i] <= longest(counts),
        counts.len() > 0 ==> exists|i: int| 0 <= i < counts.len() && counts[i] == longest(counts),
    decreases counts.len(),
{
    if counts.len() > 0 {
        let rest = counts.drop_last();
        lemma_longest(rest);
        assert forall|i: int| 0 <= i < counts.len() implies counts[i] <= longest(counts) by {
            if i < rest.len() {
                assert(rest[i] == counts[i]);
            }
        }
        if counts.last() > longest(rest) || rest.len() == 0 {
            assert(counts[counts.len() - 1] == longest(counts));
        } else {
            let i = choose|i: int| 0 <= i < rest.len() && rest[i] == longest(rest);
            assert(counts[i] == longest(counts));
        }
    }
}

/// A game of Nim: what each row holds now, and what it held at the start.
#[derive(Debug)]
pub struct NimGame {
    /// What each row holds now.
    pub rows: Vec<Row>,
    /// What each row held at the start.
    pub initial: Vec<Row>,
}

impl View for NimGame {
    type V = Position;

    open spec fn view(&self) -> Position {
        Position { rows: self.rows@, initial: self.initial@ }
    }
}

impl NimGame {
    /// A game whose rows start out with the given numbers of objects.
    pub fn new(initial: Vec<Row>) -> (game: Self)
        ensures
            game@.rows == initial@,
            game@.initial == initial@,
            game@.valid(),
    {
        NimGame { rows: initial.clone(), initial }
    }

    /// Applies a move if it is legal, and reports whether it was. An illegal
    /// move leaves the game as it is.
    pub fn apply_move(&mut self, m: Move) -> (applied: bool)
        ensures
            applied == old(self)@.legal(m),
            applied ==> final(self)@ == old(self)@.after(m),
            !applied ==> *final(self) == *old(self),
            old(self)@.valid() ==> final(self)@.valid(),
    {
        if m.0 < self.rows.len() && self.rows[m.0] >= m.1 && m.1 > 0 {
            let left: Row = self.rows[m.0] - m.1;
            self.rows.set(m.0, left);
            true
        } else {
            false
        }
    }

    /// Whether the game is lost: one row holds a single object, and every
    /// other row is empty.
    pub fn check_lose(&self) -> (lost: bool)
        ensures
            lost == self@.is_lost(),
    {
        let mut ones: usize = 0;
        let mut i: usize = 0;
        let ghost first: int = 0;
        let ghost second: int = 0;
        while i < self.rows.len()
            invariant
                i <= self.rows.len(),
                ones <= 2,
                forall|j: int| 0 <= j < i ==> self@.rows[j] <= 1,
                ones == 0 ==> forall|j: int| 0 <= j < i ==> self@.rows[j] == 0,
                ones >= 1 ==> 0 <= first < i && self@.rows[first] == 1,
                ones == 1 ==> forall|j: int| 0 <= j < i && j != first ==> self@.rows[j] == 0,
                ones == 2 ==> 0 <= second < i && self@.rows[second] == 1 && first != second,
            decreases self.rows.len() - i,
        {
            let held: Row = self.rows[i];
            if held > 1 {
                return false;
            }
            if held == 1 {
                if ones == 0 {
                    proof {
                        first = i as int;
                    }
                    ones = 1;
                } else {
                    proof {
                        second = i as int;
                    }
                    ones = 2;
                }
            }
            i += 1;
        }
        ones == 1
    }

    /// The length of the longest row at the start of the game.
    pub fn longest_row(&self) -> (width: Row)
        ensures
            width == longest(self@.initial),
    {
        let mut width: Row = 0;
        let mut i: usize = 0;
        while i < self.initial.len()
            invariant
                i <= self.initial.len(),
                width == longest(self.initial@.take(i as int)),
            decreases self.initial.len() - i,
        {
            assert(self.initial@.take(i + 1).drop_last() =~= self.initial@.take(i as int));
            if self.initial[i] > width {
                width = self.initial[i];
            }
            i += 1;
        }
        assert(self.initial@.take(i as int) =~= self.initial@);
        width
    }

    /// Whether every row has a starting count and holds no more than that.
    pub fn is_valid(&self) -> (ok: bool)
        ensures
            ok == self@.valid(),
    {
        if self.rows.len() != self.initial.len() {
            return false;
        }
        let mut i: usize = 0;
        while i < self.rows.len()
            invariant
                i <= self.rows.len(),
                self.rows.len() == self.initial.len(),
                forall|j: int| 0 <= j < i ==> self@.rows[j] <= self@.initial[j],
            decreases self.rows.len() - i,
        {
            if self.rows[i] > self.initial[i] {
                return false;
            }
            i += 1;
        }
        true
    }

    /// Whether some row still holds an object.
    pub fn has_objects(&self) -> (some: bool)
        ensures
            some == self@.has_objects(),
    {
        let mut i: usize = 0;
        while i < self.rows.len()
            invariant
                i <= self.rows.len(),
                forall|j: int| 0 <= j < i ==> self@.rows[j] == 0,
            decreases self.rows.len() - i,
        {
            if self.rows[i] > 0 {
                assert(self@.rows[i as int] > 0);
                return true;
            }
            i += 1;
        }
        false
    }
}

} // verus!
