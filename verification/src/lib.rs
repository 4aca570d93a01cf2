//! A data-driven content/rules engine for a life-simulation game.
//!
//! Content is organised as categories of lots (concrete life events), each
//! gated by timings (weighted eligibility rules over conditions on the
//! player's state) and carrying lists of probabilistic effects.  The engine
//! selects a category and a lot by weighted random sampling over the eligible
//! candidates, tracks one-time lots so they are never selected twice in a
//! playthrough, and applies a lot's effects to a snapshot of the player's
//! state to produce a delta.
use vstd::prelude::*;

mod attribute;
mod category;
mod condition;
mod effect;
mod emotion;
mod engine;
mod loader;
mod lot;
mod op;
mod random;
mod stat;
mod timing;

pub use attribute::Attribute;
pub use category::Category;
pub use condition::Condition;
pub use effect::{Effect, EffectResp};
pub use emotion::{EF, ER};
pub use engine::{get_weighted_random, Engine, LoadError, QueryInfo, RespInfo, TimingWrapper};
pub use loader::{lots_map_covers, lots_map_from_entries, parse_u32_key};
pub use lot::Lot;
pub use op::{InclusionOp, OpImpl, RelationalOp};
pub use stat::{Stat, Stats};
pub use timing::{max_passing_weight, Timing, TimingImpl};

verus! {

/// Denominator of all fixed-point probabilities and weights: a probability
/// `p` stands for the ratio `p / P_UNIT`, so `P_UNIT` itself is certainty.
pub const P_UNIT: u32 = 1000000;

/// The neutral probability one half, used as a default weight and as the
/// fallback when an effect's probability lies outside the unit range.
pub const P_HALF: u32 = 500000;

} // verus!
