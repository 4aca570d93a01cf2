//! The primitive operators out of which conditions are built.
use std::collections::HashSet;
use vstd::prelude::*;

verus! {

/// An operator together with the mathematical statement of what it tests.
pub trait OpImpl {
    type Value;

    /// What the operator holds of a value.
    spec fn spec_matched(&self, value: &Self::Value) -> bool;

    /// Decides whether the operator holds of `value`.
    fn is_matched(&self, value: &Self::Value) -> (r: bool)
        ensures
            r == self.spec_matched(value),
    ;
}

/// Set-membership test against the player's current attribute set.
#[derive(Clone, Copy, Debug)]
pub enum InclusionOp<T> {
    With(T),
    Without(T),
}

impl OpImpl for InclusionOp<u32> {
    type Value = HashSet<u32>;

    open spec fn spec_matched(&self, value: &HashSet<u32>) -> bool {
        match *self {
            InclusionOp::With(v) => value@.contains(v),
            InclusionOp::Without(v) => !value@.contains(v),
        }
    }

    fn is_matched(&self, value: &HashSet<u32>) -> (r: bool) {
        match self {
            InclusionOp::With(v) => value.contains(v),
            InclusionOp::Without(v) => !value.contains(v),
        }
    }
}

/// Comparison against a literal, evaluated with the native ordering.
#[derive(Clone, Copy, Debug)]
pub enum RelationalOp<T> {
    Eq(T),
    NotEq(T),
    Gt(T),
    GtEq(T),
    Lt(T),
    LtEq(T),
}

impl OpImpl for RelationalOp<i64> {
    type Value = i64;

    open spec fn spec_matched(&self, value: &i64) -> bool {
        match *self {
            RelationalOp::Eq(v) => *value == v,
            RelationalOp::NotEq(v) => *value != v,
            RelationalOp::Gt(v) => *value > v,
            RelationalOp::GtEq(v) => *value >= v,
            RelationalOp::Lt(v) => *value < v,
            RelationalOp::LtEq(v) => *value <= v,
        }
    }

    fn is_matched(&self, value: &i64) -> (r: bool) {
        match self {
            RelationalOp::Eq(v) => *value == *v,
            RelationalOp::NotEq(v) => *value != *v,
            RelationalOp::Gt(v) => *value > *v,
            RelationalOp::GtEq(v) => *value >= *v,
            RelationalOp::Lt(v) => *value < *v,
            RelationalOp::LtEq(v) => *value <= *v,
        }
    }
}

} // verus!
