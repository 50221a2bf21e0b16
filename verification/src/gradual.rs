use vstd::prelude::*;

verus! {

/// Position bookkeeping for gradually calculating the attributes of a map:
/// how many of the map's objects have been fed into the difficulty
/// calculation so far.
///
/// Each processing step advances by `max(n, 1)` objects, fewer if the map is
/// exhausted first; once every object has been processed, further steps
/// signal exhaustion by returning `None` instead of failing.
#[derive(Clone, Copy, Debug, PartialEq, Eq, Structural)]
pub struct GradualProgress {
    idx: usize,
    total: usize,
}

/// The position reached by one processing step of `n` from position `i` on a
/// map of `total` objects: `n` is treated as at least 1 and the position
/// never moves past `total`.
pub open spec fn spec_advance(i: int, total: int, n: int) -> int {
    let step = if n < 1 { 1 } else { n };
    if i + step > total {
        total
    } else {
        i + step
    }
}

/// The position reached by `k` processing steps of one object each,
/// starting from position `i`.
pub open spec fn spec_advance_repeated(i: int, total: int, k: nat) -> int
    decreases k,
{
    if k == 0 {
        i
    } else {
        spec_advance(spec_advance_repeated(i, total, (k - 1) as nat), total, 1)
    }
}

/// Law: advancing one object at a time `k` times reaches exactly the same
/// position as advancing once by `k`. Since the difficulty attributes
/// produced at a position are a function of the prefix of objects processed
/// up to that position, equal positions yield equal attributes.
pub proof fn lemma_single_steps_match_batch(i: int, total: int, k: nat)
    requires
        0 <= i <= total,
        k >= 1,
    ensures
        spec_advance_repeated(i, total, k) == spec_advance(i, total, k as int),
    decreases k,
{
    if k == 1 {
        reveal_with_fuel(spec_advance_repeated, 2);
    } else {
        lemma_single_steps_match_batch(i, total, (k - 1) as nat);
    }
}

impl GradualProgress {
    /// Number of objects processed so far.
    pub closed spec fn spec_idx(self) -> int {
        self.idx as int
    }

    /// Number of objects of the map.
    pub closed spec fn spec_total(self) -> int {
        self.total as int
    }

    /// The positions this type keeps are always within the map.
    pub closed spec fn wf(self) -> bool {
        self.idx <= self.total
    }

    /// Start at the beginning of a map with `total` objects.
    pub fn new(total: usize) -> (g: Self)
        ensures
            g.wf(),
            g.spec_idx() == 0,
            g.spec_total() == total,
    {
        Self { idx: 0, total }
    }

    /// Process the next object. Returns the new count of processed objects,
    /// or `None` once every object has already been processed.
    pub fn process_next_object(&mut self) -> (r: Option<usize>)
        requires
            old(self).wf(),
        ensures
            final(self).wf(),
            final(self).spec_total() == old(self).spec_total(),
            old(self).spec_idx() == old(self).spec_total() ==> r is None && final(self).spec_idx()
                == old(self).spec_idx(),
            old(self).spec_idx() < old(self).spec_total() ==> final(self).spec_idx()
                == spec_advance(old(self).spec_idx(), old(self).spec_total(), 1) && (r matches Some(v)
                && v == final(self).spec_idx()),
    {
        self.process_next_n_objects(1)
    }

    /// Same as [`process_next_object`](Self::process_next_object), but
    /// advances by `n` objects at once. An `n` of 0 is treated as 1; an `n`
    /// larger than the amount of remaining objects is treated as that amount.
    pub fn process_next_n_objects(&mut self, n: usize) -> (r: Option<usize>)
        requires
            old(self).wf(),
        ensures
            final(self).wf(),
            final(self).spec_total() == old(self).spec_total(),
            old(self).spec_idx() == old(self).spec_total() ==> r is None && final(self).spec_idx()
                == old(self).spec_idx(),
            old(self).spec_idx() < old(self).spec_total() ==> final(self).spec_idx()
                == spec_advance(old(self).spec_idx(), old(self).spec_total(), n as int) && (r matches Some(v) && v
                == final(self).spec_idx()),
    {
        if self.idx == self.total {
            return None;
        }
        let step = if n < 1 {
            1
        } else {
            n
        };
        let remaining = self.total - self.idx;
        if step > remaining {
            self.idx = self.total;
        } else {
            self.idx = self.idx + step;
        }
        Some(self.idx)
    }
}

} // verus!
