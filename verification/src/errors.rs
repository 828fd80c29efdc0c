//! The planner's error categories.
//!
//! Planning is atomic per conjunction: it yields a complete valid plan or
//! one of these failures, and no partial plan escapes.

use vstd::prelude::*;

verus! {

/// A feature the planner recognizes but does not support yet; reported
/// eagerly.
#[derive(Clone, Copy, Debug, PartialEq, Eq, Structural)]
pub enum UnsupportedFeature {
    ListVariablePlanning,
    LikeComparator,
    ContainsComparator,
    OptionalPattern,
}

/// A broken upstream guarantee: the input was not normalized as promised.
#[derive(Clone, Copy, Debug, PartialEq, Eq, Structural)]
pub enum InvariantViolation {
    /// A variable has no category in the registry.
    MissingVariableCategory,
    /// A variable is still `AttributeOrValue`: it should have been resolved
    /// earlier.
    UnresolvedAttributeOrValue,
    /// A constraint names a variable that was never registered.
    UnregisteredVariable,
    /// A nested pattern reference points outside the conjunction pool.
    MalformedNestedReference,
}

/// Why planning failed.
#[derive(Clone, Copy, Debug, PartialEq, Eq, Structural)]
pub enum PlannerError {
    Unsupported(UnsupportedFeature),
    Invariant(InvariantViolation),
    /// No valid ordering exists: some pattern can never become placeable.
    EmptyPlanSpace,
}

impl PlannerError {
    /// A short description of the failure.
    pub fn message(&self) -> (r: &'static str)
    {
        match self {
            PlannerError::Unsupported(UnsupportedFeature::ListVariablePlanning) => {
                "unsupported: planning list variables"
            },
            PlannerError::Unsupported(UnsupportedFeature::LikeComparator) => {
                "unsupported: the like comparator"
            },
            PlannerError::Unsupported(UnsupportedFeature::ContainsComparator) => {
                "unsupported: the contains comparator"
            },
            PlannerError::Unsupported(UnsupportedFeature::OptionalPattern) => {
                "unsupported: optional patterns"
            },
            PlannerError::Invariant(InvariantViolation::MissingVariableCategory) => {
                "invariant violation: a variable has no category"
            },
            PlannerError::Invariant(InvariantViolation::UnresolvedAttributeOrValue) => {
                "invariant violation: an attribute-or-value variable was not resolved"
            },
            PlannerError::Invariant(InvariantViolation::UnregisteredVariable) => {
                "invariant violation: a constraint names an unregistered variable"
            },
            PlannerError::Invariant(InvariantViolation::MalformedNestedReference) => {
                "invariant violation: a nested pattern reference is out of range"
            },
            PlannerError::EmptyPlanSpace => "no valid ordering exists for the conjunction",
        }
    }
}

} // verus!
