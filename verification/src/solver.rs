use crate::score_state::OsuScoreState;
use vstd::prelude::*;

verus! {

/// The smaller of two integers.
pub open spec fn spec_min(a: int, b: int) -> int {
    if a < b {
        a
    } else {
        b
    }
}

/// Absolute difference of two integers.
pub open spec fn spec_dist(a: int, b: int) -> int {
    if a >= b {
        a - b
    } else {
        b - a
    }
}

/// The amount of accuracy points a play over `n` objects must collect to hit
/// accuracy `a` (in hundredths of a percent) as closely as possible: each
/// object is worth up to 6 points, and the ideal amount `6 * n * a / 10000`
/// is rounded half up to an integer.
pub open spec fn spec_target_points(n: int, a: int) -> int {
    (6 * n * a + 5000) / 10000
}

/// Accuracy points collected by a `(n300, n100, n50)` distribution.
pub open spec fn spec_points3(x: (int, int, int)) -> int {
    6 * x.0 + 2 * x.1 + x.2
}

/// Fill `n100` and `n50` when `n300` is fixed at `c300` and `n100 + n50`
/// must come out to `n_rem`: the points hit the target `t` exactly whenever
/// an `n100` amount between 0 and `n_rem` can do so, otherwise the nearest
/// end of that range is taken.
pub open spec fn spec_fix300(n_rem: int, c300: int, t: int) -> (int, int) {
    let raw = t - n_rem - 6 * c300;
    let n100 = if raw < 0 {
        0
    } else if raw > n_rem {
        n_rem
    } else {
        raw
    };
    (n100, n_rem - n100)
}

/// Fill `n300` and `n50` when `n100` is fixed at `c100` and `n300 + n50`
/// must come out to `n_rem`. Each 300 moved in from a 50 is worth 5 points,
/// so the best `n300` is `budget / 5` rounded to whichever side gets the
/// points closest to the target; on a tie the smaller `n300` stays.
pub open spec fn spec_fix100(n_rem: int, c100: int, t: int) -> (int, int) {
    let budget = t - n_rem - 2 * c100;
    if budget <= 0 {
        (0, n_rem)
    } else {
        let q = spec_min(budget / 5, n_rem);
        let r = budget - 5 * q;
        if q < n_rem && r >= 3 {
            (q + 1, n_rem - q - 1)
        } else {
            (q, n_rem - q)
        }
    }
}

/// Fill `n300` and `n100` when `n50` is fixed at `c50` and `n300 + n100`
/// must come out to `n_rem`. Starting from all 300s, each 100 traded in for
/// a 300 costs 4 points; the best amount of 100s is `budget / 4` rounded to
/// whichever side gets closest, and on a tie the smaller amount of 100s
/// (hence the larger `n300`) stays.
pub open spec fn spec_fix50(n_rem: int, c50: int, t: int) -> (int, int) {
    let budget = 6 * n_rem + c50 - t;
    if budget <= 0 {
        (n_rem, 0)
    } else {
        let q = spec_min(budget / 4, n_rem);
        let r = budget - 4 * q;
        if q < n_rem && r == 3 {
            (n_rem - q - 1, q + 1)
        } else {
            (n_rem - q, q)
        }
    }
}

/// One candidate distribution over `n_rem` non-miss objects with `n300`
/// fixed at `c`: the amount of 100s that hits the target exactly if one
/// exists, clamped into range, and the rest 50s.
pub open spec fn spec_free_candidate(n_rem: int, t: int, c: int) -> (int, int, int) {
    let raw = t - n_rem - 5 * c;
    let n100 = if raw < 0 {
        0
    } else if raw > n_rem - c {
        n_rem - c
    } else {
        raw
    };
    (c, n100, n_rem - c - n100)
}

/// Distribution over `n_rem` non-miss objects with nothing fixed, before
/// tie-breaking: of the two candidates around the ideal amount of 300s
/// `(t - n_rem) / 5`, the one whose points land closer to the target wins,
/// and on a tie the one with fewer 300s.
pub open spec fn spec_free_base(n_rem: int, t: int) -> (int, int, int) {
    let budget = t - n_rem;
    if budget <= 0 {
        (0, 0, n_rem)
    } else {
        let q = spec_min(budget / 5, n_rem);
        let first = spec_free_candidate(n_rem, t, q);
        if q < n_rem && budget % 5 != 0 {
            let second = spec_free_candidate(n_rem, t, q + 1);
            if spec_dist(spec_points3(second), t) < spec_dist(spec_points3(first), t) {
                second
            } else {
                first
            }
        } else {
            first
        }
    }
}

/// The best-case rebalancing: trade each 300 plus four 50s for five 100s,
/// which keeps both the total count and the points, as often as possible.
pub open spec fn spec_best_shift(x: (int, int, int)) -> (int, int, int) {
    let k = spec_min(x.0, x.2 / 4);
    (x.0 - k, x.1 + 5 * k, x.2 - 4 * k)
}

/// Distribution over `n_rem` non-miss objects with nothing fixed: the
/// best-case priority trades 50s away for 100s after the base resolution,
/// the worst-case priority keeps the base resolution.
pub open spec fn spec_free(n_rem: int, t: int, priority: HitResultPriority) -> (int, int, int) {
    let base = spec_free_base(n_rem, t);
    if priority == HitResultPriority::BestCase {
        spec_best_shift(base)
    } else {
        base
    }
}

/// Distribute `rem` leftover objects when no accuracy is requested: the
/// best-case priority fills the highest-value unset count (300s before 100s
/// before 50s) and folds leftovers of a fully fixed distribution into the
/// 300s; the worst-case priority does the opposite.
pub open spec fn spec_fill(
    set300: bool,
    set100: bool,
    set50: bool,
    c300: int,
    c100: int,
    c50: int,
    rem: int,
    priority: HitResultPriority,
) -> (int, int, int) {
    if priority == HitResultPriority::BestCase {
        if !set300 {
            (c300 + rem, c100, c50)
        } else if !set100 {
            (c300, c100 + rem, c50)
        } else if !set50 {
            (c300, c100, c50 + rem)
        } else {
            (c300 + rem, c100, c50)
        }
    } else {
        if !set50 {
            (c300, c100, c50 + rem)
        } else if !set100 {
            (c300, c100 + rem, c50)
        } else if !set300 {
            (c300 + rem, c100, c50)
        } else {
            (c300, c100, c50 + rem)
        }
    }
}

/// While generating hitresults that should match a given accuracy, decide
/// how leftover amounts and ties between equally close distributions are
/// assigned.
#[derive(Clone, Copy, Debug, PartialEq, Eq, Structural)]
pub enum HitResultPriority {
    /// Prefer the best possible hitresults: leftovers become 300s, and among
    /// equally accurate distributions 50s are traded away for 100s.
    BestCase,
    /// Prefer the worst possible hitresults: leftovers become 50s.
    WorstCase,
}

/// Configuration for resolving a full hit-result distribution from partial
/// information: any subset of the counts may be fixed, or a target accuracy
/// may be requested, and the remaining counts are derived so that everything
/// adds up to the amount of objects.
#[derive(Clone, Copy, Debug, PartialEq, Eq, Structural)]
pub struct ScoreStateBuilder {
    pub n300: Option<usize>,
    pub n100: Option<usize>,
    pub n50: Option<usize>,
    pub n_misses: usize,
    pub combo: Option<usize>,
    pub acc: Option<u32>,
    pub passed_objects: Option<usize>,
    pub priority: HitResultPriority,
}

impl ScoreStateBuilder {
    /// Create a new builder with nothing fixed.
    pub fn new() -> (b: Self)
        ensures
            b == (ScoreStateBuilder {
                n300: None,
                n100: None,
                n50: None,
                n_misses: 0,
                combo: None,
                acc: None,
                passed_objects: None,
                priority: HitResultPriority::BestCase,
            }),
    {
        Self {
            n300: None,
            n100: None,
            n50: None,
            n_misses: 0,
            combo: None,
            acc: None,
            passed_objects: None,
            priority: HitResultPriority::BestCase,
        }
    }

    /// Specify the amount of 300s of a play.
    pub fn n300(self, n300: usize) -> (b: Self)
        ensures
            b == (ScoreStateBuilder { n300: Some(n300), ..self }),
    {
        Self { n300: Some(n300), ..self }
    }

    /// Specify the amount of 100s of a play.
    pub fn n100(self, n100: usize) -> (b: Self)
        ensures
            b == (ScoreStateBuilder { n100: Some(n100), ..self }),
    {
        Self { n100: Some(n100), ..self }
    }

    /// Specify the amount of 50s of a play.
    pub fn n50(self, n50: usize) -> (b: Self)
        ensures
            b == (ScoreStateBuilder { n50: Some(n50), ..self }),
    {
        Self { n50: Some(n50), ..self }
    }

    /// Specify the amount of misses of a play.
    pub fn misses(self, n_misses: usize) -> (b: Self)
        ensures
            b == (ScoreStateBuilder { n_misses, ..self }),
    {
        Self { n_misses, ..self }
    }

    /// Specify the max combo of the play.
    pub fn combo(self, combo: usize) -> (b: Self)
        ensures
            b == (ScoreStateBuilder { combo: Some(combo), ..self }),
    {
        Self { combo: Some(combo), ..self }
    }

    /// Amount of passed objects for partial plays, e.g. a fail.
    pub fn passed_objects(self, passed_objects: usize) -> (b: Self)
        ensures
            b == (ScoreStateBuilder { passed_objects: Some(passed_objects), ..self }),
    {
        Self { passed_objects: Some(passed_objects), ..self }
    }

    /// Request hitresults that match the given accuracy, in hundredths of a
    /// percent (`9750` stands for `97.5%`). Values above `10000` are clamped
    /// to `10000`.
    ///
    /// Be sure to set `misses` and, for partial plays, `passed_objects`
    /// beforehand.
    pub fn accuracy_hundredths(self, acc: u32) -> (b: Self)
        ensures
            b == (ScoreStateBuilder {
                acc: Some(if acc > 10000 {
                    10000u32
                } else {
                    acc
                }),
                ..self
            }),
    {
        let clamped = if acc > 10000 {
            10000
        } else {
            acc
        };
        Self { acc: Some(clamped), ..self }
    }

    /// Specify how leftovers and ties are assigned while generating
    /// hitresults.
    pub fn hitresult_priority(self, priority: HitResultPriority) -> (b: Self)
        ensures
            b == (ScoreStateBuilder { priority, ..self }),
    {
        Self { priority, ..self }
    }

    /// Amount of objects the hitresults are generated for: the configured
    /// `passed_objects`, or the whole map.
    pub open spec fn spec_n_objects(self, map_objects: int) -> int {
        match self.passed_objects {
            Some(p) => p as int,
            None => map_objects,
        }
    }

    /// Misses of the generated state: the configured misses, capped at the
    /// amount of objects.
    pub open spec fn spec_misses(self, map_objects: int) -> int {
        spec_min(self.n_misses as int, self.spec_n_objects(map_objects))
    }

    /// The fixed 300s after capping: the fixed counts and the misses may
    /// never exceed the amount of objects, and are capped in the order
    /// misses, 300s, 100s, 50s.
    pub open spec fn spec_fixed300(self, map_objects: int) -> int {
        let n = self.spec_n_objects(map_objects);
        let m = self.spec_misses(map_objects);
        spec_min(
            match self.n300 {
                Some(v) => v as int,
                None => 0,
            },
            n - m,
        )
    }

    /// The fixed 100s after capping; see [`spec_fixed300`](Self::spec_fixed300).
    pub open spec fn spec_fixed100(self, map_objects: int) -> int {
        let n = self.spec_n_objects(map_objects);
        let m = self.spec_misses(map_objects);
        spec_min(
            match self.n100 {
                Some(v) => v as int,
                None => 0,
            },
            n - m - self.spec_fixed300(map_objects),
        )
    }

    /// The fixed 50s after capping; see [`spec_fixed300`](Self::spec_fixed300).
    pub open spec fn spec_fixed50(self, map_objects: int) -> int {
        let n = self.spec_n_objects(map_objects);
        let m = self.spec_misses(map_objects);
        spec_min(
            match self.n50 {
                Some(v) => v as int,
                None => 0,
            },
            n - m - self.spec_fixed300(map_objects) - self.spec_fixed100(map_objects),
        )
    }

    /// The `(n300, n100, n50)` distribution this configuration resolves to.
    ///
    /// With a requested accuracy, counts that were left open are chosen so
    /// that the accuracy points land as close to the target as the fixed
    /// counts allow, with ties broken by the configured priority; without
    /// one, leftover objects fill the counts by priority order.
    pub open spec fn spec_hitresults(self, map_objects: int) -> (int, int, int) {
        let n = self.spec_n_objects(map_objects);
        let m = self.spec_misses(map_objects);
        let c300 = self.spec_fixed300(map_objects);
        let c100 = self.spec_fixed100(map_objects);
        let c50 = self.spec_fixed50(map_objects);
        match self.acc {
            Some(a) => {
                let t = spec_target_points(n, a as int);
                if self.n300 is Some && self.n100 is Some && self.n50 is Some {
                    let rem = n - m - c300 - c100 - c50;
                    if self.priority == HitResultPriority::BestCase {
                        (c300 + rem, c100, c50)
                    } else {
                        (c300, c100, c50 + rem)
                    }
                } else if self.n300 is Some && self.n100 is Some {
                    (c300, c100, n - m - c300 - c100)
                } else if self.n300 is Some && self.n50 is Some {
                    (c300, n - m - c300 - c50, c50)
                } else if self.n100 is Some && self.n50 is Some {
                    (n - m - c100 - c50, c100, c50)
                } else if self.n300 is Some {
                    let s = spec_fix300(n - m - c300, c300, t);
                    (c300, s.0, s.1)
                } else if self.n100 is Some {
                    let s = spec_fix100(n - m - c100, c100, t);
                    (s.0, c100, s.1)
                } else if self.n50 is Some {
                    let s = spec_fix50(n - m - c50, c50, t);
                    (s.0, s.1, c50)
                } else {
                    spec_free(n - m, t, self.priority)
                }
            },
            None => {
                let rem = n - m - c300 - c100 - c50;
                spec_fill(
                    self.n300 is Some,
                    self.n100 is Some,
                    self.n50 is Some,
                    c300,
                    c100,
                    c50,
                    rem,
                    self.priority,
                )
            },
        }
    }

    /// Maximum combo of the generated state: the configured combo, or the
    /// map's maximum possible combo.
    pub open spec fn spec_max_combo(self, max_combo: int) -> int {
        match self.combo {
            Some(c) => c as int,
            None => max_combo,
        }
    }
}

/// Law: every resolved hit-result distribution is self-consistent — the
/// amounts of 300s, 100s and 50s are non-negative and, together with the
/// misses, add up exactly to the amount of objects, whatever subset of the
/// counts was fixed and whether or not an accuracy was requested.
pub proof fn lemma_hitresults_add_up(b: ScoreStateBuilder, map_objects: int)
    requires
        map_objects >= 0,
    ensures
        ({
            let trip = b.spec_hitresults(map_objects);
            &&& trip.0 >= 0
            &&& trip.1 >= 0
            &&& trip.2 >= 0
            &&& trip.0 + trip.1 + trip.2 + b.spec_misses(map_objects) == b.spec_n_objects(
                map_objects,
            )
        }),
{
    let n = b.spec_n_objects(map_objects);
    let m = b.spec_misses(map_objects);
    let c300 = b.spec_fixed300(map_objects);
    let c100 = b.spec_fixed100(map_objects);
    let c50 = b.spec_fixed50(map_objects);
    assert(0 <= m <= n);
    assert(0 <= c300 <= n - m);
    assert(0 <= c100 <= n - m - c300);
    assert(0 <= c50 <= n - m - c300 - c100);
    match b.acc {
        Some(a) => {
            let t = spec_target_points(n, a as int);
            if b.n300 is Some && b.n100 is Some {
            } else if b.n300 is Some && b.n50 is Some {
            } else if b.n100 is Some && b.n50 is Some {
            } else if b.n300 is Some {
                let n_rem = n - m - c300;
                assert(spec_fix300(n_rem, c300, t).0 + spec_fix300(n_rem, c300, t).1 == n_rem);
            } else if b.n100 is Some {
                let n_rem = n - m - c100;
                let budget = t - n_rem - 2 * c100;
                if budget > 0 {
                    assert(budget / 5 >= 0);
                }
            } else if b.n50 is Some {
                let n_rem = n - m - c50;
                let budget = 6 * n_rem + c50 - t;
                if budget > 0 {
                    assert(budget / 4 >= 0);
                }
            } else {
                let n_rem = n - m;
                lemma_free_adds_up(n_rem, t, b.priority);
            }
        },
        None => {},
    }
}

/// The resolution with nothing fixed spreads exactly the `n_rem` non-miss
/// objects over non-negative counts.
pub proof fn lemma_free_adds_up(n_rem: int, t: int, priority: HitResultPriority)
    requires
        n_rem >= 0,
    ensures
        ({
            let trip = spec_free(n_rem, t, priority);
            &&& trip.0 >= 0
            &&& trip.1 >= 0
            &&& trip.2 >= 0
            &&& trip.0 + trip.1 + trip.2 == n_rem
        }),
{
    let base = spec_free_base(n_rem, t);
    let budget = t - n_rem;
    if budget > 0 {
        assert(budget / 5 >= 0);
        let q = spec_min(budget / 5, n_rem);
        assert(0 <= q <= n_rem);
    }
    assert(base.0 >= 0 && base.1 >= 0 && base.2 >= 0 && base.0 + base.1 + base.2 == n_rem);
    if priority == HitResultPriority::BestCase {
        let k = spec_min(base.0, base.2 / 4);
        assert(0 <= 4 * (base.2 / 4) <= base.2);
        assert(0 <= k <= base.0 && 4 * k <= base.2);
    }
}

/// With nothing fixed, the resolution hits the target points exactly
/// whenever the target is reachable by `n_rem` objects without running out
/// of room for the exact amounts of 100s and 300s, for either priority: the
/// best-case rebalancing trades counts but never points.
pub proof fn lemma_free_hits_target(n_rem: int, t: int, priority: HitResultPriority)
    requires
        0 <= n_rem,
        n_rem <= t <= 6 * n_rem,
        (t - n_rem) / 5 + (t - n_rem) % 5 <= n_rem,
    ensures
        spec_points3(spec_free(n_rem, t, priority)) == t,
{
    let budget = t - n_rem;
    if budget == 0 {
        assert(spec_free_base(n_rem, t) == (0int, 0int, n_rem));
    } else {
        let q = budget / 5;
        let r = budget % 5;
        assert(budget == 5 * q + r && 0 <= r < 5);
        assert(q + r <= n_rem);
        assert(spec_min(budget / 5, n_rem) == q);
        let first = spec_free_candidate(n_rem, t, q);
        assert(first == (q, r, n_rem - q - r));
        assert(spec_points3(first) == t);
        assert(spec_dist(spec_points3(first), t) == 0);
        let base = spec_free_base(n_rem, t);
        assert(spec_points3(base) == t);
    }
    let base = spec_free_base(n_rem, t);
    if priority == HitResultPriority::BestCase {
        let k = spec_min(base.0, base.2 / 4);
        assert(spec_points3(spec_best_shift(base)) == spec_points3(base));
    }
}

/// With nothing fixed, the resolution always lands within 2 points of any
/// target that the `n_rem` non-miss objects can span at all: where no exact
/// hit exists, the two candidates around the ideal amount of 300s sit at
/// most 4 points apart, and the nearer one is taken.
pub proof fn lemma_free_points_close(n_rem: int, t: int, priority: HitResultPriority)
    requires
        0 <= n_rem,
        n_rem <= t <= 6 * n_rem,
    ensures
        spec_dist(spec_points3(spec_free(n_rem, t, priority)), t) <= 2,
{
    let budget = t - n_rem;
    let q = budget / 5;
    let r = budget % 5;
    assert(budget == 5 * q + r && 0 <= r < 5);
    if q + r <= n_rem {
        lemma_free_hits_target(n_rem, t, priority);
    } else {
        // The exact amount of 100s does not fit: q < n_rem (else r would be
        // 0) and both candidates get clamped.
        assert(q <= n_rem);
        assert(q < n_rem && r >= 1);
        assert(spec_min(budget / 5, n_rem) == q);
        let first = spec_free_candidate(n_rem, t, q);
        assert(first == (q, n_rem - q, 0int));
        let d1 = spec_dist(spec_points3(first), t);
        assert(d1 == q + r - n_rem);
        let second = spec_free_candidate(n_rem, t, q + 1);
        assert(second == (q + 1, 0int, n_rem - q - 1));
        let d2 = spec_dist(spec_points3(second), t);
        assert(d2 == 5 - r);
        // The two distances add up to at most 4, so the nearer one is at
        // most 2 away.
        assert(d1 + d2 == q + 5 - n_rem <= 4);
        let base = spec_free_base(n_rem, t);
        assert(spec_dist(spec_points3(base), t) <= 2);
        if priority == HitResultPriority::BestCase {
            let k = spec_min(base.0, base.2 / 4);
            assert(spec_points3(spec_best_shift(base)) == spec_points3(base));
        }
    }
}

/// Law: a hit-result distribution resolved from a target accuracy alone
/// (misses may be fixed, the three counts are not) matches the requested
/// accuracy to within one percent, as long as the map has at least 42
/// objects and the target is reachable by the non-miss objects. In integer
/// form: with `n` objects, `p` resolved accuracy points and a requested
/// accuracy of `a` hundredths of a percent,
/// `|p / (6n) - a / 10000| <= 1 / 100`, i.e.
/// `|10000 * p - 6 * n * a| <= 600 * n`.
pub proof fn lemma_resolved_accuracy_within_one_percent(b: ScoreStateBuilder, map_objects: int)
    requires
        map_objects >= 0,
        b.acc is Some,
        b.n300 is None,
        b.n100 is None,
        b.n50 is None,
        42 <= b.spec_n_objects(map_objects),
        ({
            let n = b.spec_n_objects(map_objects);
            let m = b.spec_misses(map_objects);
            let t = spec_target_points(n, b.acc->Some_0 as int);
            n - m <= t <= 6 * (n - m)
        }),
    ensures
        ({
            let n = b.spec_n_objects(map_objects);
            let p = spec_points3(b.spec_hitresults(map_objects));
            spec_dist(10000 * p, 6 * n * (b.acc->Some_0 as int)) <= 600 * n
        }),
{
    let n = b.spec_n_objects(map_objects);
    let m = b.spec_misses(map_objects);
    let a = b.acc->Some_0 as int;
    let t = spec_target_points(n, a);
    lemma_free_points_close(n - m, t, b.priority);
    let p = spec_points3(b.spec_hitresults(map_objects));
    assert(spec_dist(p, t) <= 2);
    let ideal = 6 * n * a + 5000;
    assert(ideal == 10000 * (ideal / 10000) + ideal % 10000 && 0 <= ideal % 10000 < 10000);
    assert(spec_dist(10000 * t, 6 * n * a) <= 5000);
    assert(25000 <= 600 * n);
}

/// With `n300` fixed, the resolution hits the target points exactly
/// whenever the target lies in the range the remaining 100s and 50s span.
pub proof fn lemma_fix300_hits_target(n_rem: int, c300: int, t: int)
    requires
        0 <= n_rem,
        n_rem + 6 * c300 <= t <= 2 * n_rem + 6 * c300,
    ensures
        ({
            let s = spec_fix300(n_rem, c300, t);
            6 * c300 + 2 * s.0 + s.1 == t
        }),
{
}

/// With `n100` fixed, the resolution lands within 2 points of the target
/// whenever the target lies in the range the remaining 300s and 50s span:
/// trading a 50 for a 300 moves the points in steps of 5, and the resolution
/// rounds to the nearer side of the step.
pub proof fn lemma_fix100_points_close(n_rem: int, c100: int, t: int)
    requires
        0 <= n_rem,
        n_rem + 2 * c100 <= t <= 6 * n_rem + 2 * c100,
    ensures
        ({
            let s = spec_fix100(n_rem, c100, t);
            spec_dist(6 * s.0 + 2 * c100 + s.1, t) <= 2
        }),
{
    let budget = t - n_rem - 2 * c100;
    if budget > 0 {
        let q = budget / 5;
        let r = budget % 5;
        assert(budget == 5 * q + r && 0 <= r < 5);
        assert(q <= n_rem);
        assert(spec_min(budget / 5, n_rem) == q);
    }
}

/// With `n50` fixed, the resolution lands within 2 points of the target
/// whenever the target lies in the range the remaining 300s and 100s span:
/// trading a 300 for a 100 moves the points in steps of 4, and the
/// resolution rounds to the nearer side of the step.
pub proof fn lemma_fix50_points_close(n_rem: int, c50: int, t: int)
    requires
        0 <= n_rem,
        2 * n_rem + c50 <= t <= 6 * n_rem + c50,
    ensures
        ({
            let s = spec_fix50(n_rem, c50, t);
            spec_dist(6 * s.0 + 2 * s.1 + c50, t) <= 2
        }),
{
    let budget = 6 * n_rem + c50 - t;
    if budget > 0 {
        let q = budget / 4;
        let r = budget % 4;
        assert(budget == 4 * q + r && 0 <= r < 4);
        assert(q <= n_rem);
        assert(spec_min(budget / 4, n_rem) == q);
    }
}

/// Law: a hit-result distribution resolved from a target accuracy with
/// exactly one of the three counts fixed matches the requested accuracy to
/// within one percent, as long as the map has at least 42 objects and the
/// target is reachable around the fixed count. In integer form as in
/// [`lemma_resolved_accuracy_within_one_percent`].
pub proof fn lemma_resolved_accuracy_one_fixed_within_one_percent(
    b: ScoreStateBuilder,
    map_objects: int,
)
    requires
        map_objects >= 0,
        b.acc is Some,
        42 <= b.spec_n_objects(map_objects),
        ({
            let n = b.spec_n_objects(map_objects);
            let m = b.spec_misses(map_objects);
            let t = spec_target_points(n, b.acc->Some_0 as int);
            ||| {
                let c = b.spec_fixed300(map_objects);
                let nr = n - m - c;
                &&& b.n300 is Some
                &&& b.n100 is None
                &&& b.n50 is None
                &&& nr + 6 * c <= t <= 2 * nr + 6 * c
            }
            ||| {
                let c = b.spec_fixed100(map_objects);
                let nr = n - m - c;
                &&& b.n100 is Some
                &&& b.n300 is None
                &&& b.n50 is None
                &&& nr + 2 * c <= t <= 6 * nr + 2 * c
            }
            ||| {
                let c = b.spec_fixed50(map_objects);
                let nr = n - m - c;
                &&& b.n50 is Some
                &&& b.n300 is None
                &&& b.n100 is None
                &&& 2 * nr + c <= t <= 6 * nr + c
            }
        }),
    ensures
        ({
            let n = b.spec_n_objects(map_objects);
            let p = spec_points3(b.spec_hitresults(map_objects));
            spec_dist(10000 * p, 6 * n * (b.acc->Some_0 as int)) <= 600 * n
        }),
{
    let n = b.spec_n_objects(map_objects);
    let m = b.spec_misses(map_objects);
    let a = b.acc->Some_0 as int;
    let t = spec_target_points(n, a);
    let p = spec_points3(b.spec_hitresults(map_objects));
    if b.n300 is Some {
        lemma_fix300_hits_target(n - m - b.spec_fixed300(map_objects), b.spec_fixed300(map_objects), t);
    } else if b.n100 is Some {
        lemma_fix100_points_close(n - m - b.spec_fixed100(map_objects), b.spec_fixed100(map_objects), t);
    } else {
        lemma_fix50_points_close(n - m - b.spec_fixed50(map_objects), b.spec_fixed50(map_objects), t);
    }
    assert(spec_dist(p, t) <= 2);
    let ideal = 6 * n * a + 5000;
    assert(ideal == 10000 * (ideal / 10000) + ideal % 10000 && 0 <= ideal % 10000 < 10000);
    assert(spec_dist(10000 * t, 6 * n * a) <= 5000);
    assert(25000 <= 600 * n);
}

/// Law: where a requested accuracy comes with at least one fixed count, or
/// no accuracy is requested at all, the best-case priority never resolves to
/// fewer 300s than the worst-case priority on the same configuration.
pub proof fn lemma_best_case_at_least_as_many_n300(b: ScoreStateBuilder, map_objects: int)
    requires
        map_objects >= 0,
        b.acc is Some ==> b.n300 is Some || b.n100 is Some || b.n50 is Some,
    ensures
        ({
            let best = (ScoreStateBuilder { priority: HitResultPriority::BestCase, ..b });
            let worst = (ScoreStateBuilder { priority: HitResultPriority::WorstCase, ..b });
            best.spec_hitresults(map_objects).0 >= worst.spec_hitresults(map_objects).0
        }),
{
    let best = (ScoreStateBuilder { priority: HitResultPriority::BestCase, ..b });
    let worst = (ScoreStateBuilder { priority: HitResultPriority::WorstCase, ..b });
    assert(best.spec_n_objects(map_objects) == b.spec_n_objects(map_objects));
    assert(best.spec_fixed50(map_objects) == worst.spec_fixed50(map_objects));
}

/// With a requested accuracy and no fixed counts, both priorities resolve to
/// the same amount of accuracy points, and the best-case rebalancing only
/// ever trades 300s away: it never reports more 300s than the worst case.
pub proof fn lemma_free_best_case_trades_n300(b: ScoreStateBuilder, map_objects: int)
    requires
        map_objects >= 0,
        b.acc is Some,
        b.n300 is None,
        b.n100 is None,
        b.n50 is None,
    ensures
        ({
            let best = (ScoreStateBuilder { priority: HitResultPriority::BestCase, ..b });
            let worst = (ScoreStateBuilder { priority: HitResultPriority::WorstCase, ..b });
            &&& best.spec_hitresults(map_objects).0 <= worst.spec_hitresults(map_objects).0
            &&& spec_points3(best.spec_hitresults(map_objects)) == spec_points3(
                worst.spec_hitresults(map_objects),
            )
        }),
{
    let best = (ScoreStateBuilder { priority: HitResultPriority::BestCase, ..b });
    let worst = (ScoreStateBuilder { priority: HitResultPriority::WorstCase, ..b });
    let n = b.spec_n_objects(map_objects);
    let m = b.spec_misses(map_objects);
    let t = spec_target_points(n, b.acc->Some_0 as int);
    let base = spec_free_base(n - m, t);
    assert(worst.spec_hitresults(map_objects) == base);
    let k = spec_min(base.0, base.2 / 4);
    assert(best.spec_hitresults(map_objects) == spec_best_shift(base));
}

fn target_points(n: usize, a: u32) -> (t: usize)
    requires
        n <= 0x1000_0000,
        a <= 10000,
    ensures
        t as int == spec_target_points(n as int, a as int),
        t <= 6 * n,
{
    proof {
        assert(0 <= 6 * (n as int) * (a as int) <= 6 * 0x1000_0000 * 10000) by (nonlinear_arith)
            requires
                0 <= n <= 0x1000_0000,
                0 <= a <= 10000,
        ;
    }
    let t64: u64 = (6u64 * (n as u64) * (a as u64) + 5000u64) / 10000u64;
    proof {
        assert(6 * (n as int) * (a as int) + 5000 <= 6 * (n as int) * 10000 + 5000)
            by (nonlinear_arith)
            requires
                n >= 0,
                a <= 10000,
        ;
        assert((6 * (n as int) * 10000 + 5000) / 10000 == 6 * (n as int)) by (nonlinear_arith)
            requires
                n >= 0,
        ;
        assert(t64 as int == spec_target_points(n as int, a as int));
        assert(spec_target_points(n as int, a as int) <= 6 * (n as int)) by {
            vstd::arithmetic::div_mod::lemma_div_is_ordered(
                6 * (n as int) * (a as int) + 5000,
                6 * (n as int) * 10000 + 5000,
                10000,
            );
        }
    }
    t64 as usize
}

fn umin(a: usize, b: usize) -> (r: usize)
    ensures
        r as int == spec_min(a as int, b as int),
{
    if a < b {
        a
    } else {
        b
    }
}

fn udist(a: usize, b: usize) -> (r: usize)
    ensures
        r as int == spec_dist(a as int, b as int),
{
    if a >= b {
        a - b
    } else {
        b - a
    }
}

fn fix300(n_rem: usize, c300: usize, t: usize) -> (r: (usize, usize))
    requires
        n_rem <= 0x1000_0000,
        c300 <= 0x1000_0000,
        t <= 0x6000_0000,
    ensures
        r.0 as int == spec_fix300(n_rem as int, c300 as int, t as int).0,
        r.1 as int == spec_fix300(n_rem as int, c300 as int, t as int).1,
{
    if t <= n_rem + 6 * c300 {
        (0, n_rem)
    } else {
        let raw = t - n_rem - 6 * c300;
        if raw > n_rem {
            (n_rem, 0)
        } else {
            (raw, n_rem - raw)
        }
    }
}

fn fix100(n_rem: usize, c100: usize, t: usize) -> (r: (usize, usize))
    requires
        n_rem <= 0x1000_0000,
        c100 <= 0x1000_0000,
        t <= 0x6000_0000,
    ensures
        r.0 as int == spec_fix100(n_rem as int, c100 as int, t as int).0,
        r.1 as int == spec_fix100(n_rem as int, c100 as int, t as int).1,
{
    if t <= n_rem + 2 * c100 {
        (0, n_rem)
    } else {
        let budget = t - n_rem - 2 * c100;
        let q = umin(budget / 5, n_rem);
        let r = budget - 5 * q;
        if q < n_rem && r >= 3 {
            (q + 1, n_rem - q - 1)
        } else {
            (q, n_rem - q)
        }
    }
}

fn fix50(n_rem: usize, c50: usize, t: usize) -> (r: (usize, usize))
    requires
        n_rem <= 0x1000_0000,
        c50 <= 0x1000_0000,
        t <= 0x6000_0000,
    ensures
        r.0 as int == spec_fix50(n_rem as int, c50 as int, t as int).0,
        r.1 as int == spec_fix50(n_rem as int, c50 as int, t as int).1,
{
    if 6 * n_rem + c50 <= t {
        (n_rem, 0)
    } else {
        let budget = 6 * n_rem + c50 - t;
        let q = umin(budget / 4, n_rem);
        let r = budget - 4 * q;
        if q < n_rem && r == 3 {
            (n_rem - q - 1, q + 1)
        } else {
            (n_rem - q, q)
        }
    }
}

fn free_candidate(n_rem: usize, t: usize, c: usize) -> (r: (usize, usize, usize))
    requires
        c <= n_rem <= 0x1000_0000,
        t <= 0x6000_0000,
    ensures
        r.0 as int == spec_free_candidate(n_rem as int, t as int, c as int).0,
        r.1 as int == spec_free_candidate(n_rem as int, t as int, c as int).1,
        r.2 as int == spec_free_candidate(n_rem as int, t as int, c as int).2,
        r.0 + r.1 + r.2 == n_rem,
{
    if t <= n_rem + 5 * c {
        (c, 0, n_rem - c)
    } else {
        let raw = t - n_rem - 5 * c;
        if raw > n_rem - c {
            (c, n_rem - c, 0)
        } else {
            (c, raw, n_rem - c - raw)
        }
    }
}

fn points3(x: (usize, usize, usize)) -> (p: usize)
    requires
        x.0 + x.1 + x.2 <= 0x1000_0000,
    ensures
        p as int == spec_points3((x.0 as int, x.1 as int, x.2 as int)),
{
    6 * x.0 + 2 * x.1 + x.2
}

fn free_base(n_rem: usize, t: usize) -> (r: (usize, usize, usize))
    requires
        n_rem <= 0x1000_0000,
        t <= 0x6000_0000,
    ensures
        r.0 as int == spec_free_base(n_rem as int, t as int).0,
        r.1 as int == spec_free_base(n_rem as int, t as int).1,
        r.2 as int == spec_free_base(n_rem as int, t as int).2,
        r.0 + r.1 + r.2 == n_rem,
{
    if t <= n_rem {
        (0, 0, n_rem)
    } else {
        let budget = t - n_rem;
        let q = umin(budget / 5, n_rem);
        let first = free_candidate(n_rem, t, q);
        if q < n_rem && budget % 5 != 0 {
            let second = free_candidate(n_rem, t, q + 1);
            let d1 = udist(points3(first), t);
            let d2 = udist(points3(second), t);
            if d2 < d1 {
                second
            } else {
                first
            }
        } else {
            first
        }
    }
}

fn best_shift(x: (usize, usize, usize)) -> (r: (usize, usize, usize))
    requires
        x.0 + x.1 + x.2 <= 0x1000_0000,
    ensures
        r.0 as int == spec_best_shift((x.0 as int, x.1 as int, x.2 as int)).0,
        r.1 as int == spec_best_shift((x.0 as int, x.1 as int, x.2 as int)).1,
        r.2 as int == spec_best_shift((x.0 as int, x.1 as int, x.2 as int)).2,
        r.0 + r.1 + r.2 == x.0 + x.1 + x.2,
{
    let k = umin(x.0, x.2 / 4);
    (x.0 - k, x.1 + 5 * k, x.2 - 4 * k)
}

impl ScoreStateBuilder {
    /// Generate the hit-result distribution this configuration resolves to
    /// on a map with `map_objects` objects and a maximum possible combo of
    /// `max_combo` (both ignored where `passed_objects` or `combo` override
    /// them).
    ///
    /// The resulting state always adds up: `n300 + n100 + n50 + n_misses`
    /// equals the amount of objects considered.
    pub fn generate_hitresults(&self, map_objects: usize, max_combo: usize) -> (s: OsuScoreState)
        requires
            self.spec_n_objects(map_objects as int) <= 0x1000_0000,
            self.acc matches Some(a) ==> a <= 10000,
        ensures
            s.n300 as int == self.spec_hitresults(map_objects as int).0,
            s.n100 as int == self.spec_hitresults(map_objects as int).1,
            s.n50 as int == self.spec_hitresults(map_objects as int).2,
            s.n_misses as int == self.spec_misses(map_objects as int),
            s.max_combo as int == self.spec_max_combo(max_combo as int),
            s.spec_total_hits() == self.spec_n_objects(map_objects as int),
    {
        let ghost gm = map_objects as int;
        let n = match self.passed_objects {
            Some(p) => p,
            None => map_objects,
        };
        let m = umin(self.n_misses, n);
        let g300 = match self.n300 {
            Some(v) => v,
            None => 0,
        };
        let g100 = match self.n100 {
            Some(v) => v,
            None => 0,
        };
        let g50 = match self.n50 {
            Some(v) => v,
            None => 0,
        };
        let c300 = umin(g300, n - m);
        let c100 = umin(g100, n - m - c300);
        let c50 = umin(g50, n - m - c300 - c100);
        proof {
            assert(m as int == self.spec_misses(gm));
            assert(c300 as int == self.spec_fixed300(gm));
            assert(c100 as int == self.spec_fixed100(gm));
            assert(c50 as int == self.spec_fixed50(gm));
        }
        let trip: (usize, usize, usize) = match self.acc {
            Some(a) => {
                let t = target_points(n, a);
                if self.n300.is_some() && self.n100.is_some() && self.n50.is_some() {
                    let rem = n - m - c300 - c100 - c50;
                    match self.priority {
                        HitResultPriority::BestCase => (c300 + rem, c100, c50),
                        HitResultPriority::WorstCase => (c300, c100, c50 + rem),
                    }
                } else if self.n300.is_some() && self.n100.is_some() {
                    (c300, c100, n - m - c300 - c100)
                } else if self.n300.is_some() && self.n50.is_some() {
                    (c300, n - m - c300 - c50, c50)
                } else if self.n100.is_some() && self.n50.is_some() {
                    (n - m - c100 - c50, c100, c50)
                } else if self.n300.is_some() {
                    let s = fix300(n - m - c300, c300, t);
                    (c300, s.0, s.1)
                } else if self.n100.is_some() {
                    let s = fix100(n - m - c100, c100, t);
                    (s.0, c100, s.1)
                } else if self.n50.is_some() {
                    let s = fix50(n - m - c50, c50, t);
                    (s.0, s.1, c50)
                } else {
                    let base = free_base(n - m, t);
                    match self.priority {
                        HitResultPriority::BestCase => best_shift(base),
                        HitResultPriority::WorstCase => base,
                    }
                }
            },
            None => {
                let rem = n - m - c300 - c100 - c50;
                match self.priority {
                    HitResultPriority::BestCase => {
                        if self.n300.is_none() {
                            (c300 + rem, c100, c50)
                        } else if self.n100.is_none() {
                            (c300, c100 + rem, c50)
                        } else if self.n50.is_none() {
                            (c300, c100, c50 + rem)
                        } else {
                            (c300 + rem, c100, c50)
                        }
                    },
                    HitResultPriority::WorstCase => {
                        if self.n50.is_none() {
                            (c300, c100, c50 + rem)
                        } else if self.n100.is_none() {
                            (c300, c100 + rem, c50)
                        } else if self.n300.is_none() {
                            (c300 + rem, c100, c50)
                        } else {
                            (c300, c100, c50 + rem)
                        }
                    },
                }
            },
        };
        let combo = match self.combo {
            Some(c) => c,
            None => max_combo,
        };
        proof {
            lemma_hitresults_add_up(*self, gm);
        }
        OsuScoreState { max_combo: combo, n300: trip.0, n100: trip.1, n50: trip.2, n_misses: m }
    }
}

} // verus!
