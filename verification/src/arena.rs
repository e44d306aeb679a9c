//! Arena match bookkeeping.
use vstd::prelude::*;

verus! {

/// The aggregated result of an arena match between a candidate and the
/// reigning champion. Counted from the candidate's perspective.
#[derive(Debug, Clone, Copy, PartialEq, Eq, Structural)]
pub struct ArenaResult {
    pub wins: u32,
    pub losses: u32,
    pub draws: u32,
}

impl ArenaResult {
    /// Number of games of the match, as a mathematical integer.
    pub open spec fn spec_total_games(&self) -> int {
        self.wins + self.losses + self.draws
    }

    /// Number of games played: wins, losses and draws together.
    pub fn total_games(&self) -> (n: u32)
        requires
            self.spec_total_games() <= u32::MAX,
        ensures
            n == self.spec_total_games(),
    {
        self.wins + self.losses + self.draws
    }
}

impl Default for ArenaResult {
    /// An empty match: no games played.
    fn default() -> (r: Self)
        ensures
            r == (ArenaResult { wins: 0, losses: 0, draws: 0 }),
    {
        ArenaResult { wins: 0, losses: 0, draws: 0 }
    }
}

} // verus!
