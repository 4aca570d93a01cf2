//! Probabilistic state mutations attached to a lot's outcomes.
use vstd::prelude::*;

use crate::emotion::EF;
use crate::random::bernoulli_trial;
use crate::stat::Stat;
use crate::{P_HALF, P_UNIT};

verus! {

/// The outcome of one effect's trial: either nothing fired, or the one
/// mutation the effect stands for.
#[derive(Clone, Copy, Debug, PartialEq, Eq, Structural)]
pub enum EffectResp {
    Skip,
    AttrAdd(u32),
    AttrRemove(u32),
    ER { ef: EF, v: i64 },
    Stat { stat: Stat, v: i64 },
}

/// A single probabilistic state mutation.  Each variant carries its own
/// independent trigger probability `p` (fixed-point, see [`P_UNIT`]): one
/// Bernoulli trial decides whether this one effect fires, independently of
/// every other effect and of the lot's own selection weight.
#[derive(Clone, Copy, Debug, PartialEq, Eq, Structural)]
pub enum Effect {
    AttrAdd { p: u32, attr_id: u32 },
    AttrRemove { p: u32, attr_id: u32 },
    ER { p: u32, ef: EF, v: i64 },
    Stat { p: u32, stat: Stat, v: i64 },
}

impl Effect {
    /// The declared trigger probability of this effect.
    pub open spec fn spec_p(self) -> u32 {
        match self {
            Effect::AttrAdd { p, .. } => p,
            Effect::AttrRemove { p, .. } => p,
            Effect::ER { p, .. } => p,
            Effect::Stat { p, .. } => p,
        }
    }

    /// The probability the trial is actually drawn with: a declared
    /// probability outside the unit range degrades to one half, so sampling
    /// stays well-defined.
    pub open spec fn spec_effective_p(self) -> u32 {
        if self.spec_p() <= P_UNIT {
            self.spec_p()
        } else {
            P_HALF
        }
    }

    /// The response this effect produces when its trial succeeds.
    pub open spec fn spec_fired(self) -> EffectResp {
        match self {
            Effect::AttrAdd { attr_id, .. } => EffectResp::AttrAdd(attr_id),
            Effect::AttrRemove { attr_id, .. } => EffectResp::AttrRemove(attr_id),
            Effect::ER { ef, v, .. } => EffectResp::ER { ef, v },
            Effect::Stat { stat, v, .. } => EffectResp::Stat { stat, v },
        }
    }

    /// Everything [`Effect::take`] promises of an outcome `r`, whatever the
    /// trial drew: the outcome is this effect's own mutation or nothing; a
    /// certain trial always fires, an impossible one never does.
    pub open spec fn take_consistent(self, r: EffectResp) -> bool {
        &&& (r == EffectResp::Skip || r == self.spec_fired())
        &&& (self.spec_effective_p() == P_UNIT ==> r == self.spec_fired())
        &&& (self.spec_effective_p() == 0 ==> r == EffectResp::Skip)
    }

    /// Draws this effect's one Bernoulli trial and reports what, if
    /// anything, fired.
    pub fn take(&self) -> (r: EffectResp)
        ensures
            self.take_consistent(r),
    {
        let p = self.p();
        let pp = if p <= P_UNIT {
            p
        } else {
            P_HALF
        };
        let fired = bernoulli_trial(pp, P_UNIT);
        if !fired {
            return EffectResp::Skip;
        }
        match self {
            Effect::AttrAdd { attr_id, .. } => EffectResp::AttrAdd(*attr_id),
            Effect::AttrRemove { attr_id, .. } => EffectResp::AttrRemove(*attr_id),
            Effect::ER { ef, v, .. } => EffectResp::ER { ef: *ef, v: *v },
            Effect::Stat { stat, v, .. } => EffectResp::Stat { stat: *stat, v: *v },
        }
    }

    fn p(&self) -> (r: u32)
        ensures
            r == self.spec_p(),
    {
        match self {
            Effect::AttrAdd { p, .. } => *p,
            Effect::AttrRemove { p, .. } => *p,
            Effect::ER { p, .. } => *p,
            Effect::Stat { p, .. } => *p,
        }
    }
}

} // verus!
