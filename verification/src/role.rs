use vstd::prelude::*;

verus! {

/// A player's role in one deal: the taker who won the bidding, the ally
/// holding the called card, or a defender.
#[derive(Copy, Clone, Debug, Eq, PartialEq, Structural, Hash)]
pub enum Role {
    Taker,
    Ally,
    Defenser,
}

} // verus!
