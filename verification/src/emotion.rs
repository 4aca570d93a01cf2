//! The two-axis emotional rating of the player.
use vstd::prelude::*;

verus! {

/// Emotional factor: names one of the two emotional axes.
#[derive(Clone, Copy, Debug, PartialEq, Eq, Structural)]
pub enum EF {
    Lol,
    Tot,
}

/// Emotional rating: one fixed-point magnitude per emotional axis.
///
/// The engine does not bound these values; any capacity ceiling is the
/// caller's policy.
#[derive(Clone, Copy, Debug, PartialEq, Eq, Structural)]
pub struct ER {
    pub lol: i64,
    pub tot: i64,
}

impl Default for ER {
    /// Both axes start at zero.
    fn default() -> (r: ER)
        ensures
            r == (ER { lol: 0, tot: 0 }),
    {
        ER { lol: 0, tot: 0 }
    }
}

} // verus!
