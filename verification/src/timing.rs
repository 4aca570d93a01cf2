//! Weighted eligibility rules attached to categories and lots.
use vstd::prelude::*;

use crate::condition::Condition;
use crate::engine::QueryInfo;
use crate::P_HALF;

verus! {

/// One eligibility window: a selection weight `p` (fixed-point, see
/// [`crate::P_UNIT`]) that counts only when every condition of the window is
/// satisfied.  An empty condition list is unconditionally eligible.
#[derive(Clone, Debug)]
pub struct Timing {
    pub p: u32,
    pub conditions: Vec<Condition>,
}

impl Timing {
    /// What [`Timing::passes`] decides: every condition of this timing is
    /// satisfied by the snapshot.
    pub open spec fn spec_passes(self, query: QueryInfo) -> bool {
        forall|i: int|
            0 <= i < self.conditions@.len() ==> self.conditions@[i].spec_satisfied(query)
    }

    /// Decides whether every condition of this timing is satisfied.
    pub fn passes(&self, query: &QueryInfo) -> (r: bool)
        ensures
            r == self.spec_passes(*query),
    {
        let n = self.conditions.len();
        let mut i: usize = 0;
        while i < n
            invariant
                i <= n,
                n == self.conditions@.len(),
                forall|j: int| 0 <= j < i ==> self.conditions@[j].spec_satisfied(*query),
            decreases n - i,
        {
            if !self.conditions[i].is_satisfied(query) {
                return false;
            }
            i = i + 1;
        }
        true
    }

    /// The single default timing used when content supplies none: weight one
    /// half, no conditions.
    pub fn default_timings() -> (r: Vec<Timing>)
        ensures
            r@.len() == 1,
            r@[0].p == P_HALF,
            r@[0].conditions@.len() == 0,
    {
        let mut v: Vec<Timing> = Vec::new();
        v.push(Timing::default());
        v
    }
}

impl Default for Timing {
    /// Weight one half, no conditions.
    fn default() -> (r: Timing)
        ensures
            r.p == P_HALF,
            r.conditions@.len() == 0,
    {
        Timing { p: P_HALF, conditions: Vec::new() }
    }
}

/// The effective weight of an item whose eligibility windows are `timings`:
/// the maximum `p` among the timings whose conditions all hold of `query`,
/// and zero when none passes.  A richer matching window governs; weights are
/// never summed.
pub open spec fn weight_of(timings: Seq<Timing>, query: QueryInfo) -> u32
    decreases timings.len(),
{
    if timings.len() == 0 {
        0
    } else {
        let rest = weight_of(timings.drop_last(), query);
        let last = timings.last();
        if last.spec_passes(query) && last.p > rest {
            last.p
        } else {
            rest
        }
    }
}

/// An item's effective weight is the maximum `p` among its passing timings,
/// never a sum: every passing timing's weight is bounded by it, it is zero
/// when no timing passes, and when positive it is attained by some passing
/// timing.
pub proof fn lemma_weight_of_is_max(timings: Seq<Timing>, query: QueryInfo)
    ensures
        forall|i: int|
            0 <= i < timings.len() && (#[trigger] timings[i]).spec_passes(query) ==> timings[i].p
                <= weight_of(timings, query),
        (forall|i: int| 0 <= i < timings.len() ==> !(#[trigger] timings[i]).spec_passes(query))
            ==> weight_of(timings, query) == 0,
        weight_of(timings, query) > 0 ==> exists|i: int|
            0 <= i < timings.len() && (#[trigger] timings[i]).spec_passes(query) && timings[i].p
                == weight_of(timings, query),
    decreases timings.len(),
{
    if timings.len() > 0 {
        lemma_weight_of_is_max(timings.drop_last(), query);
        let rest = weight_of(timings.drop_last(), query);
        let w = weight_of(timings, query);
        let last = timings.last();
        assert(forall|i: int|
            0 <= i < timings.len() - 1 ==> timings[i] == #[trigger] timings.drop_last()[i]);
        assert forall|i: int|
            0 <= i < timings.len() && (#[trigger] timings[i]).spec_passes(query) implies timings[i].p
            <= w by {
            if i < timings.len() - 1 {
                assert(timings.drop_last()[i].spec_passes(query));
                assert(timings.drop_last()[i].p <= rest);
            }
        }
        if forall|i: int| 0 <= i < timings.len() ==> !(#[trigger] timings[i]).spec_passes(query) {
            assert(forall|i: int|
                0 <= i < timings.drop_last().len() ==> !(#[trigger] timings.drop_last()[i]).spec_passes(
                    query,
                ));
            assert(rest == 0);
            assert(w == 0);
        }
        if w > 0 {
            if last.spec_passes(query) && last.p > rest {
                assert(timings[timings.len() - 1].spec_passes(query) && timings[timings.len()
                    - 1].p == w);
            } else {
                let j = choose|j: int|
                    0 <= j < timings.drop_last().len() && (#[trigger] timings.drop_last()[j]).spec_passes(
                        query,
                    ) && timings.drop_last()[j].p == rest;
                assert(timings[j].spec_passes(query) && timings[j].p == w);
            }
        }
    }
}

/// Computes [`weight_of`]: the maximum weight among the passing timings.
pub fn max_passing_weight(timings: &Vec<Timing>, query: &QueryInfo) -> (w: u32)
    ensures
        w == weight_of(timings@, *query),
{
    let n = timings.len();
    let mut w: u32 = 0;
    let mut i: usize = 0;
    while i < n
        invariant
            i <= n,
            n == timings@.len(),
            w == weight_of(timings@.take(i as int), *query),
        decreases n - i,
    {
        let t = &timings[i];
        if t.passes(query) {
            if w < t.p {
                w = t.p;
            }
        }
        proof {
            assert(timings@.take(i + 1).drop_last() =~= timings@.take(i as int));
            assert(timings@.take(i + 1).last() == timings@[i as int]);
        }
        i = i + 1;
    }
    proof {
        assert(timings@.take(n as int) =~= timings@);
    }
    w
}

/// An item that can be scored for selection: a stable identifier and the
/// timings that gate it.
pub trait TimingImpl {
    /// The identifier the scorer reports for this item.
    spec fn spec_id(&self) -> usize;

    /// The timings that gate this item.
    spec fn spec_timings(&self) -> Seq<Timing>;

    fn id(&self) -> (r: usize)
        ensures
            r == self.spec_id(),
    ;

    fn timings(&self) -> (r: &Vec<Timing>)
        ensures
            r@ == self.spec_timings(),
    ;
}

} // verus!
