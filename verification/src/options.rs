use vstd::prelude::*;

verus! {

/// Read-only configuration handed to the engine at setup: how choices are
/// made and what is printed is the caller's business; the engine itself
/// only reads `no_slam`, which forbids slam announcements.
#[derive(Copy, Clone, Debug, Eq, PartialEq, Structural)]
pub struct Options {
    pub random: bool,
    pub auto: bool,
    pub quiet: bool,
    pub no_slam: bool,
    pub test: bool,
    pub attack: bool,
}

impl Default for Options {
    /// Every option starts switched off.
    fn default() -> (r: Options)
        ensures
            r == (Options {
                random: false,
                auto: false,
                quiet: false,
                no_slam: false,
                test: false,
                attack: false,
            }),
    {
        Options { random: false, auto: false, quiet: false, no_slam: false, test: false, attack: false }
    }
}

} // verus!
