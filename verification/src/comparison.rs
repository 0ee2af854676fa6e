//! Operators that appear in resolved expressions.

use vstd::prelude::*;

verus! {

/// Comparison operators of the language.
#[derive(Debug, Clone, Copy, PartialEq, Eq, Structural)]
pub enum ComparisonComputation {
    GreaterThan,
    LessThan,
    GreaterThanOrEqual,
    LessThanOrEqual,
    Is,
    IsNot,
}

/// Logical negation of a comparison, as a mathematical function.
pub open spec fn spec_negated(op: ComparisonComputation) -> ComparisonComputation {
    match op {
        ComparisonComputation::LessThan => ComparisonComputation::GreaterThanOrEqual,
        ComparisonComputation::LessThanOrEqual => ComparisonComputation::GreaterThan,
        ComparisonComputation::GreaterThan => ComparisonComputation::LessThanOrEqual,
        ComparisonComputation::GreaterThanOrEqual => ComparisonComputation::LessThan,
        ComparisonComputation::Is => ComparisonComputation::IsNot,
        ComparisonComputation::IsNot => ComparisonComputation::Is,
    }
}

/// The operator stating the same fact with the operands swapped.
pub open spec fn spec_mirrored(op: ComparisonComputation) -> ComparisonComputation {
    match op {
        ComparisonComputation::LessThan => ComparisonComputation::GreaterThan,
        ComparisonComputation::LessThanOrEqual => ComparisonComputation::GreaterThanOrEqual,
        ComparisonComputation::GreaterThan => ComparisonComputation::LessThan,
        ComparisonComputation::GreaterThanOrEqual => ComparisonComputation::LessThanOrEqual,
        ComparisonComputation::Is => ComparisonComputation::Is,
        ComparisonComputation::IsNot => ComparisonComputation::IsNot,
    }
}

/// Truth of `left op right` on integers (the order every comparable domain shares).
pub open spec fn holds(op: ComparisonComputation, left: int, right: int) -> bool {
    match op {
        ComparisonComputation::LessThan => left < right,
        ComparisonComputation::LessThanOrEqual => left <= right,
        ComparisonComputation::GreaterThan => left > right,
        ComparisonComputation::GreaterThanOrEqual => left >= right,
        ComparisonComputation::Is => left == right,
        ComparisonComputation::IsNot => left != right,
    }
}

/// Returns the logical negation of a comparison (used by NOT-normal-form rewriting).
pub fn negated_comparison(op: ComparisonComputation) -> (result: ComparisonComputation)
    ensures
        result == spec_negated(op),
        forall|l: int, r: int| holds(result, l, r) == !holds(op, l, r),
{
    match op {
        ComparisonComputation::LessThan => ComparisonComputation::GreaterThanOrEqual,
        ComparisonComputation::LessThanOrEqual => ComparisonComputation::GreaterThan,
        ComparisonComputation::GreaterThan => ComparisonComputation::LessThanOrEqual,
        ComparisonComputation::GreaterThanOrEqual => ComparisonComputation::LessThan,
        ComparisonComputation::Is => ComparisonComputation::IsNot,
        ComparisonComputation::IsNot => ComparisonComputation::Is,
    }
}

/// Returns the operator that states the same fact with the operands swapped:
/// `k < x` and `x > k` hold on exactly the same values.
pub fn mirrored_comparison(op: ComparisonComputation) -> (result: ComparisonComputation)
    ensures
        result == spec_mirrored(op),
        forall|l: int, r: int| holds(result, l, r) == holds(op, r, l),
{
    match op {
        ComparisonComputation::LessThan => ComparisonComputation::GreaterThan,
        ComparisonComputation::LessThanOrEqual => ComparisonComputation::GreaterThanOrEqual,
        ComparisonComputation::GreaterThan => ComparisonComputation::LessThan,
        ComparisonComputation::GreaterThanOrEqual => ComparisonComputation::LessThanOrEqual,
        ComparisonComputation::Is => ComparisonComputation::Is,
        ComparisonComputation::IsNot => ComparisonComputation::IsNot,
    }
}

/// Negating a comparison twice gives the comparison back.
pub proof fn lemma_negation_involutive(op: ComparisonComputation)
    ensures
        spec_negated(spec_negated(op)) == op,
{
}

/// Mirroring a comparison twice gives the comparison back.
pub proof fn lemma_mirror_involutive(op: ComparisonComputation)
    ensures
        spec_mirrored(spec_mirrored(op)) == op,
{
}

/// Negation and mirroring commute.
pub proof fn lemma_negation_mirror_commute(op: ComparisonComputation)
    ensures
        spec_negated(spec_mirrored(op)) == spec_mirrored(spec_negated(op)),
{
}

/// Arithmetic operators of the language.
#[derive(Debug, Clone, Copy, PartialEq, Eq, Structural)]
pub enum ArithmeticComputation {
    Add,
    Subtract,
    Multiply,
    Divide,
    Modulo,
    Power,
}

} // verus!
