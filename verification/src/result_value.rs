//! Failures of building an API result value from a canonical literal.

use vstd::prelude::*;
use crate::rational::NumericFailure;

verus! {

/// Why building a result value from a canonical literal failed.
#[derive(Debug, Clone, Copy, PartialEq, Eq, Structural)]
pub enum RuleResultValueFailure {
    DecimalLimit,
    NumericOverflow,
    OutOfMemory,
}

pub open spec fn spec_failure_text(failure: RuleResultValueFailure) -> Seq<char> {
    match failure {
        RuleResultValueFailure::DecimalLimit => "Calculated result exceeds decimal value limit"@,
        RuleResultValueFailure::NumericOverflow => "numeric overflow"@,
        RuleResultValueFailure::OutOfMemory => "out of memory"@,
    }
}

/// Human-readable veto message for a failure.
pub fn rule_result_value_failure_message(failure: RuleResultValueFailure) -> (r: &'static str)
    ensures
        r@ == spec_failure_text(failure),
{
    match failure {
        RuleResultValueFailure::DecimalLimit => "Calculated result exceeds decimal value limit",
        RuleResultValueFailure::NumericOverflow => "numeric overflow",
        RuleResultValueFailure::OutOfMemory => "out of memory",
    }
}

/// A failure committing a magnitude to a decimal: overflow is the decimal limit.
/// Division by zero and irrational results cannot arise there.
pub fn map_numeric_to_rule_result_value_failure(failure: NumericFailure) -> (r: RuleResultValueFailure)
    requires
        failure == NumericFailure::Overflow || failure == NumericFailure::OutOfMemory,
    ensures
        failure == NumericFailure::Overflow ==> r == RuleResultValueFailure::DecimalLimit,
        failure == NumericFailure::OutOfMemory ==> r == RuleResultValueFailure::OutOfMemory,
{
    match failure {
        NumericFailure::Overflow => RuleResultValueFailure::DecimalLimit,
        NumericFailure::OutOfMemory => RuleResultValueFailure::OutOfMemory,
        _ => vstd::pervasive::unreached(),
    }
}

/// A failure converting between units: overflow is a numeric overflow. Division by
/// zero and irrational results cannot arise there.
pub fn map_unit_conversion_failure(failure: NumericFailure) -> (r: RuleResultValueFailure)
    requires
        failure == NumericFailure::Overflow || failure == NumericFailure::OutOfMemory,
    ensures
        failure == NumericFailure::Overflow ==> r == RuleResultValueFailure::NumericOverflow,
        failure == NumericFailure::OutOfMemory ==> r == RuleResultValueFailure::OutOfMemory,
{
    match failure {
        NumericFailure::Overflow => RuleResultValueFailure::NumericOverflow,
        NumericFailure::OutOfMemory => RuleResultValueFailure::OutOfMemory,
        _ => vstd::pervasive::unreached(),
    }
}

} // verus!
