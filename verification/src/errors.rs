use crate::deck::Deck;
use vstd::prelude::*;

verus! {

/// Everything that can go wrong in the engine, from rejected configuration
/// to broken state preconditions. `PetitSec` is the one expected abort: the
/// deal is void and must be redealt.
#[derive(Debug, PartialEq, Eq, Clone)]
pub enum TarotErrorKind {
    PetitSec,
    InvalidCard,
    InvalidPlayers(String),
    InvalidMode,
    InvalidDeck(Deck),
    InvalidCase(String),
    InvalidScores(String),
    InvalidOudlersCount(Deck),
    InvalidColor,
    NoHandle(usize),
    NoSlam(usize),
    NoContract(usize),
    NoCard(usize),
    NoPlayer(usize),
    NoRoleForPlayer(String),
    NoTaker(usize),
    NoAlly(usize),
    NoDefenser(usize),
    NoAttacker(usize),
    NoMaster(usize),
    NoTeamForPlayer(String),
}

} // verus!
