//! Named groupings of lots under a shared eligibility gate.
use vstd::prelude::*;

use crate::lot::Lot;
use crate::timing::Timing;

verus! {

/// A named grouping of lots.  The category's own timings gate whether the
/// group can be chosen at all; each lot inside carries its own timings in
/// turn.
#[derive(Clone, Debug)]
pub struct Category {
    pub id: u32,
    pub name: String,
    pub timings: Vec<Timing>,
    pub lots: Vec<Lot>,
}

} // verus!
