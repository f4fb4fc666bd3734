use vstd::prelude::*;

verus! {

/// A bid: either a pass or one of the four contracts, ordered by their
/// multipliers.
#[derive(Copy, Clone, Debug, Eq, PartialEq, Structural, Hash)]
pub enum Contract {
    Pass,
    Petite,
    Garde,
    GardeSans,
    GardeContre,
}

impl Contract {
    /// Score multiplier of the contract; a pass multiplies by zero and can
    /// never lead the bidding.
    pub open spec fn spec_multiplier(self) -> int {
        match self {
            Contract::Pass => 0,
            Contract::Petite => 1,
            Contract::Garde => 2,
            Contract::GardeSans => 4,
            Contract::GardeContre => 6,
        }
    }

    /// Score multiplier of the contract; see `spec_multiplier`.
    pub fn multiplier(self) -> (r: i64)
        ensures
            r == self.spec_multiplier(),
    {
        match self {
            Contract::Pass => 0,
            Contract::Petite => 1,
            Contract::Garde => 2,
            Contract::GardeSans => 4,
            Contract::GardeContre => 6,
        }
    }

    /// All bids in escalation order, the pass first.
    pub fn all() -> (r: Vec<Contract>)
        ensures
            r@ == seq![
                Contract::Pass,
                Contract::Petite,
                Contract::Garde,
                Contract::GardeSans,
                Contract::GardeContre,
            ],
    {
        let mut v: Vec<Contract> = Vec::new();
        v.push(Contract::Pass);
        v.push(Contract::Petite);
        v.push(Contract::Garde);
        v.push(Contract::GardeSans);
        v.push(Contract::GardeContre);
        proof {
            assert(v@ =~= seq![
                Contract::Pass,
                Contract::Petite,
                Contract::Garde,
                Contract::GardeSans,
                Contract::GardeContre,
            ]);
        }
        v
    }
}

} // verus!
