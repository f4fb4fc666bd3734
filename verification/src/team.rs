use vstd::prelude::*;

verus! {

/// The two sides of a deal: the taker's side and everyone else.
#[derive(Copy, Clone, Debug, Eq, PartialEq, Structural, Hash)]
pub enum Team {
    Defense,
    Attack,
}

} // verus!
