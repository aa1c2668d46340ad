//! The rules of the Swiss card game Jass: cards and card sets, game modes, settings,
//! the state of a game with the moves that change it, and the votes of the players.
use vstd::prelude::*;

pub mod bits;
pub mod card;
pub mod client;
pub mod game;
pub mod laws;
pub mod playtype;
pub mod room;
pub mod round;
pub mod safety;
pub mod setting;
pub mod show_choice;
pub mod voting;

pub use game::{Game, MarriageState};

verus! {

} // verus!
