use crate::mode::Mode;
use crate::options::Options;
use vstd::prelude::*;

verus! {

/// A seat at the table, persistent across deals: its name, its
/// configuration and its accumulated score in half-points.
#[derive(Debug, PartialEq, Eq, Clone)]
pub struct Player {
    pub name: String,
    pub mode: Mode,
    pub options: Options,
    pub score: i64,
}

impl Player {
    /// Seat a player with an empty score.
    pub fn new(name: String, mode: Mode, options: Options) -> (r: Player)
        ensures
            r.name@ == name@,
            r.mode == mode,
            r.options == options,
            r.score == 0,
    {
        Player { name, mode, options, score: 0 }
    }

    /// Add a deal's delta to the accumulated score.
    pub fn add_score(&mut self, points: i64)
        requires
            i64::MIN <= old(self).score + points <= i64::MAX,
        ensures
            final(self).score == old(self).score + points,
            final(self).name == old(self).name,
            final(self).mode == old(self).mode,
            final(self).options == old(self).options,
    {
        self.score = self.score + points;
    }

    /// The accumulated score, in half-points.
    pub fn score(&self) -> (r: i64)
        ensures
            r == self.score,
    {
        self.score
    }

    /// The seat's name.
    pub fn name(&self) -> (r: &str)
        ensures
            r@ == self.name@,
    {
        self.name.as_str()
    }

    /// The seat's configuration.
    pub fn options(&self) -> (r: &Options)
        ensures
            *r == self.options,
    {
        &self.options
    }
}

} // verus!
