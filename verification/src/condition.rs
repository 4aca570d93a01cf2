//! Pure predicates over a snapshot of the player's state.
use vstd::prelude::*;

use crate::engine::QueryInfo;
use crate::op::{InclusionOp, OpImpl, RelationalOp};
use crate::stat::Stat;

verus! {

/// A pure predicate over a [`QueryInfo`] snapshot.
///
/// `Age` compares the snapshot's age, `Attr` tests membership in the
/// snapshot's attribute set, and `Stat` compares the named axis of the
/// snapshot's stats.
#[derive(Clone, Copy, Debug)]
pub enum Condition {
    Age(RelationalOp<i64>),
    Attr(InclusionOp<u32>),
    Stat((RelationalOp<i64>, Stat)),
}

impl Condition {
    /// What [`Condition::is_satisfied`] decides.
    pub open spec fn spec_satisfied(self, query: QueryInfo) -> bool {
        match self {
            Condition::Age(op) => op.spec_matched(&query.age),
            Condition::Attr(op) => op.spec_matched(&query.attrs),
            Condition::Stat((op, stat)) => op.spec_matched(&query.stats.spec_axis(stat)),
        }
    }

    /// Decides the predicate over the snapshot.  Pure and total.
    pub fn is_satisfied(&self, query: &QueryInfo) -> (r: bool)
        ensures
            r == self.spec_satisfied(*query),
    {
        match self {
            Condition::Age(op) => op.is_matched(&query.age),
            Condition::Attr(op) => op.is_matched(&query.attrs),
            Condition::Stat((op, stat)) => {
                let v = query.stats.axis(*stat);
                op.is_matched(&v)
            },
        }
    }
}

} // verus!
