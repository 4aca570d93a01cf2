//! Named traits the player may hold.
use vstd::prelude::*;

verus! {

/// A named trait the player may or may not hold.
///
/// Attributes are defined once, globally, and referenced by `id` everywhere
/// else; the engine owns the `id -> Attribute` dictionary.  A `hidden`
/// attribute's name must not be surfaced in player-facing text until earned,
/// but its identity is still usable in conditions.
#[derive(Clone, Debug)]
pub struct Attribute {
    pub id: u32,
    pub name: String,
    pub hidden: bool,
}

} // verus!
