use vstd::prelude::*;

verus! {

/// Aggregation for a score's current state, i.e. what was the maximum combo
/// so far and what are the current hitresults.
#[derive(Clone, Copy, Debug, PartialEq, Eq, Structural)]
pub struct OsuScoreState {
    /// Maximum combo that the score has had so far.
    /// **Not** the maximum possible combo of the map so far.
    pub max_combo: usize,
    /// Amount of current 300s.
    pub n300: usize,
    /// Amount of current 100s.
    pub n100: usize,
    /// Amount of current 50s.
    pub n50: usize,
    /// Amount of current misses.
    pub n_misses: usize,
}

impl OsuScoreState {
    /// Sum of all hit results, as a mathematical integer.
    pub open spec fn spec_total_hits(self) -> int {
        self.n300 + self.n100 + self.n50 + self.n_misses
    }

    /// Accuracy numerator: a 300 is worth 6 points, a 100 is worth 2, a 50 is
    /// worth 1, a miss is worth nothing. The accuracy of the state is this
    /// value divided by `6 * spec_total_hits()`.
    pub open spec fn spec_points(self) -> int {
        6 * self.n300 + 2 * self.n100 + self.n50
    }

    /// Create a new empty score state.
    pub fn new() -> (s: Self)
        ensures
            s.max_combo == 0,
            s.n300 == 0,
            s.n100 == 0,
            s.n50 == 0,
            s.n_misses == 0,
    {
        Self { max_combo: 0, n300: 0, n100: 0, n50: 0, n_misses: 0 }
    }

    /// Return the total amount of hits by adding everything up.
    pub fn total_hits(&self) -> (total: usize)
        requires
            self.spec_total_hits() <= usize::MAX,
        ensures
            total == self.spec_total_hits(),
    {
        self.n300 + self.n100 + self.n50 + self.n_misses
    }

    /// The accuracy of this state as an exact fraction
    /// `(numerator, denominator)` with `denominator == 6 * total_hits`.
    /// A state without any hits gives `(0, 0)`, which callers treat as an
    /// accuracy of zero.
    pub fn accuracy_fraction(&self) -> (frac: (usize, usize))
        requires
            6 * self.spec_total_hits() <= usize::MAX,
        ensures
            frac.0 == self.spec_points(),
            frac.1 == 6 * self.spec_total_hits(),
            frac.0 <= frac.1,
    {
        let total = self.total_hits();
        (6 * self.n300 + 2 * self.n100 + self.n50, 6 * total)
    }
}

} // verus!
