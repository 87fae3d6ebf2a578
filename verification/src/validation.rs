//! Progressive validation of 3MF models.
//!
//! Four levels of increasing strictness: Minimal (structure), Standard (reference
//! integrity), Strict (specification compliance) and Paranoid (geometry analysis).

pub mod dag;
pub mod displacement;
pub mod geometry;
pub mod report;
pub mod schema;
pub mod semantic;

use vstd::prelude::*;

verus! {

/// Level of validation to perform; each level includes the checks of the lower ones.
#[derive(Debug, Clone, Copy, PartialEq, Eq)]
pub enum ValidationLevel {
    /// Basic structural checks.
    Minimal,
    /// Reference integrity (recommended).
    Standard,
    /// Strict specification adherence.
    Strict,
    /// Deep geometry inspection.
    Paranoid,
}

/// The position of a level in the order Minimal < Standard < Strict < Paranoid.
pub open spec fn level_rank(l: ValidationLevel) -> nat {
    match l {
        ValidationLevel::Minimal => 0,
        ValidationLevel::Standard => 1,
        ValidationLevel::Strict => 2,
        ValidationLevel::Paranoid => 3,
    }
}

impl ValidationLevel {
    /// The position of this level, from 0 (Minimal) to 3 (Paranoid).
    pub fn rank(&self) -> (r: u8)
        ensures
            r == level_rank(*self),
    {
        match self {
            ValidationLevel::Minimal => 0,
            ValidationLevel::Standard => 1,
            ValidationLevel::Strict => 2,
            ValidationLevel::Paranoid => 3,
        }
    }

    /// Whether this level includes the checks of `other` (`self >= other`).
    pub fn includes(&self, other: ValidationLevel) -> (r: bool)
        ensures
            r == (level_rank(*self) >= level_rank(other)),
    {
        self.rank() >= other.rank()
    }
}

} // verus!
