//! The game of Nim: piles of objects, a rule-based computer opponent, and the
//! cursor-driven selection of a human player's move.

mod chance;
pub mod display;
pub mod nim;
pub mod nimsum;
pub mod player;
pub mod ranking;
pub mod selection;
pub mod strategy;
pub mod text;
