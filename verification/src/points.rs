use vstd::prelude::*;

verus! {

/// Number of cards in a full deck: 22 trumps and four suits of 14.
pub const MAX_CARDS: usize = 78;

/// Point total of the full deck, in half-points (91 points).
pub const MAX_POINTS: i64 = 182;

/// Fixed value of a deck holding everything but the Fool, in half-points
/// (87 points): the near-slam rule, not the literal sum.
pub const MAX_POINTS_WITHOUT_FOOL: i64 = 174;

/// Base stake of every contract, in half-points (25 points).
pub const BASE_CONTRACT_POINTS: i64 = 50;

} // verus!
