use vstd::prelude::*;

verus! {

/// Whether a card may leave the hand for the discard pile.
///
/// `discardable` is the normal rule (never a trump, never a King);
/// `discardable_forced` is the relaxed rule used when too few ordinary
/// cards remain (trumps other than oudlers become discardable).
pub trait Discardable {
    spec fn spec_discardable(&self) -> bool;

    spec fn spec_discardable_forced(&self) -> bool;

    fn discardable(&self) -> (r: bool)
        ensures
            r == self.spec_discardable(),
    ;

    fn discardable_forced(&self) -> (r: bool)
        ensures
            r == self.spec_discardable_forced(),
    ;
}

/// Raw strength used to compare cards of the same kind: a trump's power
/// exceeds every suited card's.
pub trait Power {
    spec fn spec_power(&self) -> int;

    fn power(&self) -> (r: usize)
        ensures
            r == self.spec_power(),
    ;
}

} // verus!
