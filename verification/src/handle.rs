use vstd::prelude::*;

verus! {

/// A declared handle (poignee): a bonus for showing an unusually high
/// number of trumps, tiered by how many are shown.
#[derive(Copy, Clone, Debug, Eq, PartialEq, Structural, Hash)]
pub enum Handle {
    Refused,
    Simple,
    Double,
    Triple,
}

impl Handle {
    /// Flat bonus of the declared tier, in half-points: 20, 30 or 40 points
    /// for a simple, double or triple handle, nothing when refused.
    pub open spec fn spec_points(self) -> int {
        match self {
            Handle::Refused => 0,
            Handle::Simple => 40,
            Handle::Double => 60,
            Handle::Triple => 80,
        }
    }

    /// Flat bonus of the declared tier, in half-points; see `spec_points`.
    pub fn points(self) -> (r: i64)
        ensures
            r == self.spec_points(),
    {
        match self {
            Handle::Refused => 0,
            Handle::Simple => 40,
            Handle::Double => 60,
            Handle::Triple => 80,
        }
    }

    /// The tiers a player offered this tier may declare instead: refusing,
    /// or any tier up to the offered one.
    pub fn choices(self) -> (r: Vec<Handle>)
        ensures
            match self {
                Handle::Refused => r@ == Seq::<Handle>::empty(),
                Handle::Simple => r@ == seq![Handle::Refused, Handle::Simple],
                Handle::Double => r@ == seq![Handle::Refused, Handle::Simple, Handle::Double],
                Handle::Triple => r@ == seq![
                    Handle::Refused,
                    Handle::Simple,
                    Handle::Double,
                    Handle::Triple,
                ],
            },
    {
        let mut v: Vec<Handle> = Vec::new();
        match self {
            Handle::Refused => {
                proof {
                    assert(v@ =~= Seq::<Handle>::empty());
                }
            },
            Handle::Simple => {
                v.push(Handle::Refused);
                v.push(Handle::Simple);
                proof {
                    assert(v@ =~= seq![Handle::Refused, Handle::Simple]);
                }
            },
            Handle::Double => {
                v.push(Handle::Refused);
                v.push(Handle::Simple);
                v.push(Handle::Double);
                proof {
                    assert(v@ =~= seq![Handle::Refused, Handle::Simple, Handle::Double]);
                }
            },
            Handle::Triple => {
                v.push(Handle::Refused);
                v.push(Handle::Simple);
                v.push(Handle::Double);
                v.push(Handle::Triple);
                proof {
                    assert(v@ =~= seq![
                        Handle::Refused,
                        Handle::Simple,
                        Handle::Double,
                        Handle::Triple,
                    ]);
                }
            },
        }
        v
    }
}

impl Default for Handle {
    /// A handle is refused unless declared.
    fn default() -> (r: Handle)
        ensures
            r == Handle::Refused,
    {
        Handle::Refused
    }
}

} // verus!
