//! The two kinds of player, and a player's turn: the move is found, made on
//! the board and remembered by the display, and the turn's result says
//! whether the game has ended.

use vstd::prelude::*;
use vstd::string::StringExecFns;
use crate::display::GameDisplay;
use crate::nim::{Move, NimGame};
use crate::strategy::is_auto_move;

verus! {

/// A player: a human with a name, or the computer.
#[derive(Debug)]
pub enum PlayerType {
    Human(String),
    Computer,
}

/// What follows a player's turn.
#[derive(Clone, Copy, Debug, PartialEq, Eq)]
pub enum Next {
    /// The game is over, and the player of this index has won it.
    Winner(usize),
    /// The session ends without a winner.
    Aborted,
    /// The game goes on with the player of this index.
    Turn(usize),
}

impl PlayerType {
    /// The name under which the player is announced.
    pub open spec fn name_of(self) -> Seq<char> {
        match self {
            PlayerType::Human(name) => name@,
            PlayerType::Computer => "AI"@,
        }
    }

    /// The name under which the player is announced: a human's own name, and
    /// "AI" for the computer.
    pub fn name(&self) -> (name: String)
        ensures
            name@ == self.name_of(),
    {
        match self {
            PlayerType::Human(name) => name.clone(),
            PlayerType::Computer => String::from_str("AI"),
        }
    }

    /// The player's move. A human's move is the one that the selection
    /// ended with, or none if the player gave up; the computer finds its own.
    pub fn get_move(&self, game: &NimGame, selected: Option<Move>) -> (chosen: Option<Move>)
        requires
            self is Computer ==> game@.has_objects(),
        ensures
            self is Human ==> chosen == selected,
            self is Computer ==> chosen is Some && is_auto_move(game@.rows, chosen->0) && (
            !game@.is_lost() ==> game@.legal(chosen->0)),
    {
        match self {
            PlayerType::Human(_) => selected,
            PlayerType::Computer => Some(game.auto_move()),
        }
    }

    /// The player's turn. Without a move nothing changes, and nothing is
    /// returned. With one, the move is made if it is legal, the display
    /// remembers it as the last move, and the result says whether the game
    /// is now lost, which makes the player who moved the winner.
    pub fn apply_move(
        &self,
        display: &mut GameDisplay,
        game: &mut NimGame,
        selected: Option<Move>,
    ) -> (over: Option<bool>)
        requires
            self is Computer ==> old(game)@.has_objects(),
        ensures
            final(display).width == old(display).width,
            final(display).highlighted_move == old(display).highlighted_move,
            over is None <==> self is Human && selected is None,
            over is None ==> *final(game) == *old(game) && *final(display) == *old(display),
            over matches Some(lost) ==> {
                &&& final(display).last_move matches Some(m)
                &&& (self is Human ==> selected == Some(m))
                &&& (self is Computer ==> is_auto_move(old(game)@.rows, m))
                &&& (old(game)@.legal(m) ==> final(game)@ == old(game)@.after(m))
                &&& (!old(game)@.legal(m) ==> *final(game) == *old(game))
                &&& lost == final(game)@.is_lost()
                &&& ({
                    &&& old(game)@.valid()
                    &&& old(game)@.legal(m)
                    &&& old(display).fits(old(game)@, false)
                } ==> final(display).fits(final(game)@, false))
            },
            old(game)@.valid() ==> final(game)@.valid(),
    {
        if let Some(m) = self.get_move(game, selected) {
            game.apply_move(m);
            display.last_move = Some(m);
            proof {
                let before = old(game)@;
                if before.valid() && before.legal(m) && old(display).fits(before, false) {
                    assert forall|row: int| 0 <= row < game@.rows.len() implies display.fits_row(
                        game@,
                        row,
                        false,
                    ) by {
                        assert(old(display).fits_row(before, row, false));
                    }
                }
            }
            Some(game.check_lose())
        } else {
            None
        }
    }
}

/// What follows the turn of the player `mover`, of two players 0 and 1: a
/// turn that left the game lost makes the mover the winner, a turn without a
/// move ends the session, and after any other turn it is the other player's
/// turn.
pub fn after_turn(mover: usize, over: Option<bool>) -> (next: Next)
    requires
        mover < 2,
    ensures
        next == match over {
            Some(true) => Next::Winner(mover),
            Some(false) => Next::Turn((1 - mover) as usize),
            None => Next::Aborted,
        },
{
    match over {
        Some(true) => Next::Winner(mover),
        Some(false) => Next::Turn(1 - mover),
        None => Next::Aborted,
    }
}

} // verus!
