//! Rules engine for the French trick-taking card game Tarot, for three to
//! five players: card model, deck operations, bidding, dog resolution,
//! trick play and scoring.
//!
//! Card points are half-integers (the Fool is worth 0.5, a King 4.5), so the
//! whole engine counts in *half-points*: an `i64` equal to twice the
//! traditional value. The full deck is worth 182 half-points (91), and every
//! score delta is exact.
//!
//! The engine performs no input, output or randomness of its own apart from
//! shuffling a fresh deck: wherever a human or a strategy must choose
//! (a contract, a card to play, a discard), the engine exposes the legal
//! choices and takes the chosen value as a plain argument.

pub mod card;
pub mod contract;
pub mod helpers;
pub mod mode;
pub mod player;
pub mod player_in_game;
pub mod turn;
pub mod deck;
pub mod errors;
pub mod game;
pub mod game_distributed;
pub mod game_started;
pub mod handle;
pub mod normal;
pub mod options;
pub mod points;
pub mod role;
pub mod team;
pub mod suit;
pub mod suit_value;
pub mod traits;
pub mod trump;

use vstd::prelude::*;

verus! {

} // verus!
