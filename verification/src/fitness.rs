//! Fitness scores and their partial order.
//!
//! A fitness is a scalar quality score; higher is better. Comparisons use a
//! total order on defined values, but a score can be undefined (the analogue
//! of a not-a-number result from a domain fitness function), and a comparison
//! that involves an undefined score fails rather than silently misordering.

use vstd::prelude::*;

verus! {

/// A candidate's quality score. `Value` scores are totally ordered;
/// `Undefined` compares with nothing, not even itself.
#[derive(Clone, Copy, Debug, PartialEq, Eq, Structural)]
pub enum Fitness {
    Value(i128),
    Undefined,
}

impl Fitness {
    /// Both scores are defined, so ordering them is possible.
    pub open spec fn comparable_with(self, other: Fitness) -> bool {
        self is Value && other is Value
    }

    /// `self` ranks at least as high as `other`. Meaningful only when
    /// `self.comparable_with(other)` holds.
    pub open spec fn spec_ge(self, other: Fitness) -> bool {
        match (self, other) {
            (Fitness::Value(a), Fitness::Value(b)) => a >= b,
            _ => false,
        }
    }

    /// Compare two scores: `Some(true)` when `self` ranks at least as high as
    /// `other`, `Some(false)` when it ranks strictly lower, `None` when either
    /// score is undefined.
    pub fn partial_ge(&self, other: &Fitness) -> (r: Option<bool>)
        ensures
            r is Some <==> self.comparable_with(*other),
            r is Some ==> r->0 == self.spec_ge(*other),
    {
        match (self, other) {
            (Fitness::Value(a), Fitness::Value(b)) => Some(*a >= *b),
            _ => None,
        }
    }
}

} // verus!
