//! The four numeric player axes.
use vstd::prelude::*;

verus! {

/// Names one of the four numeric player axes.
#[derive(Clone, Copy, Debug, PartialEq, Eq, Structural)]
pub enum Stat {
    /// Intuition
    Int,
    /// Knowledge
    Kno,
    /// Physical
    Phy,
    /// Social
    Soc,
}

/// One fixed-point magnitude per axis, with no enforced bounds.
#[derive(Clone, Copy, Debug, PartialEq, Eq, Structural)]
pub struct Stats {
    pub intuition: i64,
    pub knowledge: i64,
    pub physical: i64,
    pub social: i64,
}

impl Stats {
    /// The magnitude of the named axis.
    pub open spec fn spec_axis(self, stat: Stat) -> i64 {
        match stat {
            Stat::Int => self.intuition,
            Stat::Kno => self.knowledge,
            Stat::Phy => self.physical,
            Stat::Soc => self.social,
        }
    }

    /// Reads the named axis out of the record.
    pub fn axis(&self, stat: Stat) -> (r: i64)
        ensures
            r == self.spec_axis(stat),
    {
        match stat {
            Stat::Int => self.intuition,
            Stat::Kno => self.knowledge,
            Stat::Phy => self.physical,
            Stat::Soc => self.social,
        }
    }
}

impl Default for Stats {
    /// Every axis starts at zero.
    fn default() -> (r: Stats)
        ensures
            r == (Stats { intuition: 0, knowledge: 0, physical: 0, social: 0 }),
    {
        Stats { intuition: 0, knowledge: 0, physical: 0, social: 0 }
    }
}

} // verus!
