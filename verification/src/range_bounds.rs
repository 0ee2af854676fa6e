//! Consistency of range declarations: endpoints in order, width bounds in order, and
//! date and time width units that resolve to duration (or calendar) measures.

use vstd::prelude::*;
use vstd::string::StringExecFns;
use std::cmp::Ordering;
use std::sync::Arc;
use crate::bound::{measure_declared_bound_to_canonical, spec_bound_to_canonical};
use crate::lemma_type::{spec_is_calendar_like, spec_is_duration_like, spec_measure_units, spec_name};
use crate::rational::{rational_text, rational_zero, spec_failure_message, spec_zero, try_cmp, NumericFailure, RationalInteger};
use crate::temporal::{
    clock_order, compare_semantic_dates, compare_semantic_times, date_order, datetime_text, time_text,
    timezone_displayable, SemanticDateTime, SemanticTime,
};
use crate::text::text_result;
use crate::types::{LemmaType, TypeSpecification};
use crate::unit_index::{spec_resolve, UnitIndex};
use crate::units::{MeasureUnit, MeasureUnits};

verus! {

/// Whether both cross products of a comparison fit the machine range.
pub open spec fn cross_fits(a: RationalInteger, b: RationalInteger) -> bool {
    &&& i128::MIN <= a.num() * b.den() <= i128::MAX
    &&& i128::MIN <= b.num() * a.den() <= i128::MAX
}

/// Whether `a` is strictly greater than `b`, or the overflow that kept it from being
/// decided.
pub open spec fn spec_above(a: RationalInteger, b: RationalInteger) -> Result<bool, NumericFailure> {
    if cross_fits(a, b) {
        Ok(a.spec_sign_of_difference(b) == 1)
    } else {
        Err(NumericFailure::Overflow)
    }
}

/// `lower ` or `minimum width `.
pub open spec fn low_label(is_width: bool) -> Seq<char> {
    if is_width {
        "minimum width "@
    } else {
        "lower "@
    }
}

/// ` is greater than upper ` or ` is greater than maximum width `.
pub open spec fn high_label(is_width: bool) -> Seq<char> {
    if is_width {
        " is greater than maximum width "@
    } else {
        " is greater than upper "@
    }
}

/// The message for two bounds whose comparison overflowed.
pub open spec fn compare_failure_message(is_width: bool, f: NumericFailure) -> Seq<char> {
    (if is_width {
        "range width compare failed: "@
    } else {
        "range endpoint compare failed: "@
    }) + spec_failure_message(f)
}

/// The command a lower (or minimum) bound is converted under.
pub open spec fn low_command(is_width: bool) -> Seq<char> {
    if is_width {
        "minimum"@
    } else {
        "lower"@
    }
}

/// The command an upper (or maximum) bound is converted under.
pub open spec fn high_command(is_width: bool) -> Seq<char> {
    if is_width {
        "maximum"@
    } else {
        "upper"@
    }
}

/// The first check's failure, else the second check.
pub open spec fn then_check(first: Result<(), Seq<char>>, second: Result<(), Seq<char>>) -> Result<(), Seq<char>> {
    if first is Err {
        first
    } else {
        second
    }
}

/// A pair of plain rational bounds is in order.
pub open spec fn spec_pair_check(lo: Option<RationalInteger>, hi: Option<RationalInteger>, is_width: bool) -> Result<(), Seq<char>> {
    match (lo, hi) {
        (Some(l), Some(h)) => match spec_above(l, h) {
            Err(f) => Err(compare_failure_message(is_width, f)),
            Ok(above) => if above {
                Err("invalid range: "@ + low_label(is_width) + rational_text(l) + high_label(is_width) + rational_text(h))
            } else {
                Ok(())
            },
        },
        _ => Ok(()),
    }
}

/// A pair of measure bounds, each in a declared unit, is in order once both are
/// converted to the canonical unit.
pub open spec fn spec_measure_pair_check(
    lo: Option<(RationalInteger, String)>,
    hi: Option<(RationalInteger, String)>,
    units: Seq<MeasureUnit>,
    is_width: bool,
) -> Result<(), Seq<char>> {
    match (lo, hi) {
        (Some(l), Some(h)) => match spec_bound_to_canonical(l.0, l.1@, units, "range"@, low_command(is_width)) {
            Err(e) => Err(e),
            Ok(lc) => match spec_bound_to_canonical(h.0, h.1@, units, "range"@, high_command(is_width)) {
                Err(e) => Err(e),
                Ok(hc) => match spec_above(lc, hc) {
                    Err(f) => Err(compare_failure_message(is_width, f)),
                    Ok(above) => if above {
                        Err("invalid range: "@ + low_label(is_width) + rational_text(l.0) + " "@ + l.1@ + high_label(
                            is_width,
                        ) + rational_text(h.0) + " "@ + h.1@)
                    } else {
                        Ok(())
                    },
                },
            },
        },
        _ => Ok(()),
    }
}

/// Date endpoints are in order (timezones are not compared).
pub open spec fn spec_date_endpoint_check(lo: Option<SemanticDateTime>, hi: Option<SemanticDateTime>) -> Result<(), Seq<char>> {
    match (lo, hi) {
        (Some(l), Some(h)) => if date_order(l, h) is Greater {
            Err("invalid range: lower "@ + datetime_text(l) + " is greater than upper "@ + datetime_text(h))
        } else {
            Ok(())
        },
        _ => Ok(()),
    }
}

/// Time endpoints are in order (timezones are not compared).
pub open spec fn spec_time_endpoint_check(lo: Option<SemanticTime>, hi: Option<SemanticTime>) -> Result<(), Seq<char>> {
    match (lo, hi) {
        (Some(l), Some(h)) => if clock_order(l, h) is Greater {
            Err("invalid range: lower "@ + time_text(l) + " is greater than upper "@ + time_text(h))
        } else {
            Ok(())
        },
        _ => Ok(()),
    }
}

/// Resolving a width bound's unit in scope: its canonical magnitude and the measure
/// type that declares it, or why the unit cannot bound a width.
pub open spec fn spec_resolve_width(
    bound: (RationalInteger, String),
    command: Seq<char>,
    index: Seq<Arc<LemmaType>>,
    allow_calendar: bool,
) -> Result<(RationalInteger, LemmaType), Seq<char>> {
    let name = bound.1@;
    match spec_resolve(index, name) {
        Err(e) => Err(command + " width unit '"@ + name + "': "@ + e + " (add `uses lemma units` or declare the unit)"@),
        Ok(found) => {
            let owner = *found;
            if allow_calendar && !spec_is_duration_like(owner) && !spec_is_calendar_like(owner) {
                Err(command + " width unit '"@ + name + "' must be a duration or calendar unit"@)
            } else if !allow_calendar && !spec_is_duration_like(owner) {
                Err(command + " width unit '"@ + name + "' must be a duration unit"@)
            } else if !(owner.specifications is Measure) {
                Err(command + " width unit '"@ + name + "' must resolve to a measure type"@)
            } else {
                match spec_bound_to_canonical(
                    bound.0,
                    name,
                    spec_measure_units(owner.specifications),
                    spec_name(owner),
                    command,
                ) {
                    Ok(c) => Ok((c, owner)),
                    Err(e) => Err(e),
                }
            }
        },
    }
}

/// The message for width bounds that mix calendar and duration units.
pub open spec fn mixed_width_message() -> Seq<char> {
    "invalid range: minimum and maximum width must not mix calendar and duration units"@
}

/// Width bounds of a date or time range resolve, agree on calendar versus duration,
/// and are in order.
pub open spec fn spec_temporal_width_check(
    minimum: Option<(RationalInteger, String)>,
    maximum: Option<(RationalInteger, String)>,
    index: Seq<Arc<LemmaType>>,
    allow_calendar: bool,
) -> Result<(), Seq<char>> {
    match (minimum, maximum) {
        (None, None) => Ok(()),
        (Some(mn), None) => match spec_resolve_width(mn, "minimum"@, index, allow_calendar) {
            Ok(_) => Ok(()),
            Err(e) => Err(e),
        },
        (None, Some(mx)) => match spec_resolve_width(mx, "maximum"@, index, allow_calendar) {
            Ok(_) => Ok(()),
            Err(e) => Err(e),
        },
        (Some(mn), Some(mx)) => match spec_resolve_width(mn, "minimum"@, index, allow_calendar) {
            Err(e) => Err(e),
            Ok(lo) => match spec_resolve_width(mx, "maximum"@, index, allow_calendar) {
                Err(e) => Err(e),
                Ok(hi) => if spec_is_calendar_like(lo.1) != spec_is_calendar_like(hi.1) {
                    Err(mixed_width_message())
                } else {
                    match spec_above(lo.0, hi.0) {
                        Err(f) => Err(compare_failure_message(true, f)),
                        Ok(above) => if above {
                            Err("invalid range: "@ + low_label(true) + rational_text(mn.0) + " "@ + mn.1@ + high_label(true)
                                + rational_text(mx.0) + " "@ + mx.1@)
                        } else {
                            Ok(())
                        },
                    }
                },
            },
        },
    }
}

/// Consistency of a range specification's endpoint and width declarations; every
/// other specification passes.
pub open spec fn spec_range_bound_check(s: TypeSpecification, index: Seq<Arc<LemmaType>>) -> Result<(), Seq<char>> {
    match s {
        TypeSpecification::NumberRange { lower, upper, minimum, maximum, .. } => then_check(
            spec_pair_check(lower, upper, false),
            spec_pair_check(minimum, maximum, true),
        ),
        TypeSpecification::RatioRange { lower, upper, minimum, maximum, .. } => then_check(
            spec_pair_check(lower, upper, false),
            spec_pair_check(minimum, maximum, true),
        ),
        TypeSpecification::MeasureRange { lower, upper, minimum, maximum, units, .. } => then_check(
            spec_measure_pair_check(lower, upper, units.0@, false),
            spec_measure_pair_check(minimum, maximum, units.0@, true),
        ),
        TypeSpecification::DateRange { lower, upper, minimum, maximum, .. } => then_check(
            spec_date_endpoint_check(lower, upper),
            spec_temporal_width_check(minimum, maximum, index, true),
        ),
        TypeSpecification::TimeRange { lower, upper, minimum, maximum, .. } => then_check(
            spec_time_endpoint_check(lower, upper),
            spec_temporal_width_check(minimum, maximum, index, false),
        ),
        _ => Ok(()),
    }
}

/// Date and time endpoints that are out of order can be displayed in the message.
pub open spec fn endpoints_displayable(s: TypeSpecification) -> bool {
    match s {
        TypeSpecification::DateRange { lower, upper, .. } => match (lower, upper) {
            (Some(l), Some(h)) => date_order(l, h) is Greater ==> timezone_displayable(l.timezone)
                && timezone_displayable(h.timezone),
            _ => true,
        },
        TypeSpecification::TimeRange { lower, upper, .. } => match (lower, upper) {
            (Some(l), Some(h)) => clock_order(l, h) is Greater ==> timezone_displayable(l.timezone)
                && timezone_displayable(h.timezone),
            _ => true,
        },
        _ => true,
    }
}

fn above(a: &RationalInteger, b: &RationalInteger) -> (r: Result<bool, NumericFailure>)
    ensures
        r == spec_above(*a, *b),
{
    match try_cmp(a, b) {
        Ok(Ordering::Greater) => Ok(true),
        Ok(_) => Ok(false),
        Err(f) => Err(f),
    }
}

fn compare_failure(is_width: bool, f: NumericFailure) -> (r: String)
    ensures
        r@ == compare_failure_message(is_width, f),
{
    let mut msg = if is_width {
        String::from_str("range width compare failed: ")
    } else {
        String::from_str("range endpoint compare failed: ")
    };
    msg.append(f.message());
    msg
}

fn out_of_order(is_width: bool, lo: &RationalInteger, lo_unit: Option<&String>, hi: &RationalInteger, hi_unit: Option<&String>) -> (r: String)
    ensures
        r@ == "invalid range: "@ + low_label(is_width) + rational_text(*lo) + (match lo_unit {
            Some(u) => " "@ + u@,
            None => Seq::empty(),
        }) + high_label(is_width) + rational_text(*hi) + (match hi_unit {
            Some(u) => " "@ + u@,
            None => Seq::empty(),
        }),
{
    let mut msg = String::from_str("invalid range: ");
    if is_width {
        msg.append("minimum width ");
    } else {
        msg.append("lower ");
    }
    let l = lo.display_str();
    msg.append(l.as_str());
    match lo_unit {
        Some(u) => {
            msg.append(" ");
            msg.append(u.as_str());
        },
        None => {},
    }
    if is_width {
        msg.append(" is greater than maximum width ");
    } else {
        msg.append(" is greater than upper ");
    }
    let h = hi.display_str();
    msg.append(h.as_str());
    match hi_unit {
        Some(u) => {
            msg.append(" ");
            msg.append(u.as_str());
        },
        None => {},
    }
    msg
}

fn pair_check(lo: &Option<RationalInteger>, hi: &Option<RationalInteger>, is_width: bool) -> (r: Result<(), String>)
    ensures
        text_result(r) == spec_pair_check(*lo, *hi, is_width),
{
    match (lo, hi) {
        (Some(l), Some(h)) => match above(l, h) {
            Err(f) => Err(compare_failure(is_width, f)),
            Ok(true) => Err(out_of_order(is_width, l, None, h, None)),
            Ok(false) => Ok(()),
        },
        _ => Ok(()),
    }
}

fn measure_pair_check(
    lo: &Option<(RationalInteger, String)>,
    hi: &Option<(RationalInteger, String)>,
    units: &MeasureUnits,
    is_width: bool,
) -> (r: Result<(), String>)
    ensures
        text_result(r) == spec_measure_pair_check(*lo, *hi, units.0@, is_width),
{
    match (lo, hi) {
        (Some(l), Some(h)) => {
            let lo_command = if is_width {
                "minimum"
            } else {
                "lower"
            };
            let hi_command = if is_width {
                "maximum"
            } else {
                "upper"
            };
            proof {
                reveal_strlit("minimum");
                reveal_strlit("lower");
                reveal_strlit("maximum");
                reveal_strlit("upper");
                reveal_strlit("range");
            }
            let lc = match measure_declared_bound_to_canonical(&l.0, l.1.as_str(), units, "range", lo_command) {
                Ok(v) => v,
                Err(e) => {
                    return Err(e);
                },
            };
            let hc = match measure_declared_bound_to_canonical(&h.0, h.1.as_str(), units, "range", hi_command) {
                Ok(v) => v,
                Err(e) => {
                    return Err(e);
                },
            };
            match above(&lc, &hc) {
                Err(f) => Err(compare_failure(is_width, f)),
                Ok(true) => {
                    let m = out_of_order(is_width, &l.0, Some(&l.1), &h.0, Some(&h.1));
                    proof {
                        assert(m@ =~= "invalid range: "@ + low_label(is_width) + rational_text(l.0) + " "@ + l.1@
                            + high_label(is_width) + rational_text(h.0) + " "@ + h.1@);
                    }
                    Err(m)
                },
                Ok(false) => Ok(()),
            }
        },
        _ => Ok(()),
    }
}

fn resolve_width<'a>(
    bound: &(RationalInteger, String),
    command: &str,
    unit_index: &'a UnitIndex,
    allow_calendar: bool,
) -> (r: Result<(RationalInteger, &'a Arc<LemmaType>), String>)
    ensures
        match spec_resolve_width(*bound, command@, unit_index@, allow_calendar) {
            Ok(v) => r is Ok && r->Ok_0.0 == v.0 && **r->Ok_0.1 == v.1,
            Err(e) => r is Err && r->Err_0@ == e,
        },
{
    let name = bound.1.as_str();
    let owner = match unit_index.resolve(name) {
        Ok(o) => o,
        Err(e) => {
            let mut msg = String::from_str(command);
            msg.append(" width unit '");
            msg.append(name);
            msg.append("': ");
            msg.append(e.as_str());
            msg.append(" (add `uses lemma units` or declare the unit)");
            return Err(msg);
        },
    };
    if allow_calendar {
        if !owner.is_duration_like() && !owner.is_calendar_like() {
            let mut msg = String::from_str(command);
            msg.append(" width unit '");
            msg.append(name);
            msg.append("' must be a duration or calendar unit");
            return Err(msg);
        }
    } else if !owner.is_duration_like() {
        let mut msg = String::from_str(command);
        msg.append(" width unit '");
        msg.append(name);
        msg.append("' must be a duration unit");
        return Err(msg);
    }
    let units = match &owner.specifications {
        TypeSpecification::Measure { units, .. } => units,
        _ => {
            let mut msg = String::from_str(command);
            msg.append(" width unit '");
            msg.append(name);
            msg.append("' must resolve to a measure type");
            return Err(msg);
        },
    };
    let owner_name = owner.name();
    match measure_declared_bound_to_canonical(&bound.0, name, units, owner_name.as_str(), command) {
        Ok(c) => Ok((c, owner)),
        Err(e) => Err(e),
    }
}

fn check_temporal_width_pair_consistency(
    minimum: &Option<(RationalInteger, String)>,
    maximum: &Option<(RationalInteger, String)>,
    unit_index: &UnitIndex,
    allow_calendar: bool,
) -> (r: Result<(), String>)
    ensures
        text_result(r) == spec_temporal_width_check(*minimum, *maximum, unit_index@, allow_calendar),
{
    proof {
        reveal_strlit("minimum");
        reveal_strlit("maximum");
    }
    match (minimum, maximum) {
        (None, None) => Ok(()),
        (Some(mn), None) => match resolve_width(mn, "minimum", unit_index, allow_calendar) {
            Ok(_) => Ok(()),
            Err(e) => Err(e),
        },
        (None, Some(mx)) => match resolve_width(mx, "maximum", unit_index, allow_calendar) {
            Ok(_) => Ok(()),
            Err(e) => Err(e),
        },
        (Some(mn), Some(mx)) => {
            let (min_c, min_owner) = match resolve_width(mn, "minimum", unit_index, allow_calendar) {
                Ok(v) => v,
                Err(e) => {
                    return Err(e);
                },
            };
            let (max_c, max_owner) = match resolve_width(mx, "maximum", unit_index, allow_calendar) {
                Ok(v) => v,
                Err(e) => {
                    return Err(e);
                },
            };
            if min_owner.is_calendar_like() != max_owner.is_calendar_like() {
                return Err(
                    String::from_str(
                        "invalid range: minimum and maximum width must not mix calendar and duration units",
                    ),
                );
            }
            match above(&min_c, &max_c) {
                Err(f) => Err(compare_failure(true, f)),
                Ok(true) => {
                    let m = out_of_order(true, &mn.0, Some(&mn.1), &mx.0, Some(&mx.1));
                    proof {
                        assert(m@ =~= "invalid range: "@ + low_label(true) + rational_text(mn.0) + " "@ + mn.1@
                            + high_label(true) + rational_text(mx.0) + " "@ + mx.1@);
                    }
                    Err(m)
                },
                Ok(false) => Ok(()),
            }
        },
    }
}

/// Check a range specification's declarations: the lower endpoint is not above the
/// upper one, the minimum width is not above the maximum width (measure bounds
/// compared in the canonical unit), and date and time width units resolve in
/// `unit_index` to duration measures (calendar measures too for dates) that agree
/// with each other. Every other specification passes.
pub fn check_range_bound_consistency(spec: &TypeSpecification, unit_index: &UnitIndex) -> (r: Result<(), String>)
    requires
        endpoints_displayable(*spec),
    ensures
        text_result(r) == spec_range_bound_check(*spec, unit_index@),
{
    match spec {
        TypeSpecification::NumberRange { lower, upper, minimum, maximum, .. } => {
            match pair_check(lower, upper, false) {
                Err(e) => Err(e),
                Ok(()) => pair_check(minimum, maximum, true),
            }
        },
        TypeSpecification::RatioRange { lower, upper, minimum, maximum, .. } => {
            match pair_check(lower, upper, false) {
                Err(e) => Err(e),
                Ok(()) => pair_check(minimum, maximum, true),
            }
        },
        TypeSpecification::MeasureRange { lower, upper, minimum, maximum, units, .. } => {
            match measure_pair_check(lower, upper, units, false) {
                Err(e) => Err(e),
                Ok(()) => measure_pair_check(minimum, maximum, units, true),
            }
        },
        TypeSpecification::DateRange { lower, upper, minimum, maximum, .. } => {
            match (lower, upper) {
                (Some(lo), Some(hi)) => {
                    match compare_semantic_dates(lo, hi) {
                        Ordering::Greater => {
                            let mut msg = String::from_str("invalid range: lower ");
                            let l = lo.display();
                            msg.append(l.as_str());
                            msg.append(" is greater than upper ");
                            let h = hi.display();
                            msg.append(h.as_str());
                            return Err(msg);
                        },
                        _ => {},
                    }
                },
                _ => {},
            }
            check_temporal_width_pair_consistency(minimum, maximum, unit_index, true)
        },
        TypeSpecification::TimeRange { lower, upper, minimum, maximum, .. } => {
            match (lower, upper) {
                (Some(lo), Some(hi)) => {
                    match compare_semantic_times(lo, hi) {
                        Ordering::Greater => {
                            let mut msg = String::from_str("invalid range: lower ");
                            let l = lo.display();
                            msg.append(l.as_str());
                            msg.append(" is greater than upper ");
                            let h = hi.display();
                            msg.append(h.as_str());
                            return Err(msg);
                        },
                        _ => {},
                    }
                },
                _ => {},
            }
            check_temporal_width_pair_consistency(minimum, maximum, unit_index, false)
        },
        _ => Ok(()),
    }
}

/// A width bound must not be negative.
pub open spec fn spec_width_sign_check(magnitude: RationalInteger, command: Seq<char>) -> Result<(), Seq<char>> {
    match spec_above(spec_zero(), magnitude) {
        Err(f) => Err(command + " width compare failed: "@ + spec_failure_message(f)),
        Ok(negative) => if negative {
            Err(command + " width must not be negative"@)
        } else {
            Ok(())
        },
    }
}

/// Reject a negative width bound.
pub fn reject_negative_width_magnitude(magnitude: &RationalInteger, command: &str) -> (r: Result<(), String>)
    ensures
        text_result(r) == spec_width_sign_check(*magnitude, command@),
{
    let zero = rational_zero();
    match try_cmp(magnitude, &zero) {
        Ok(Ordering::Less) => {
            let mut msg = String::from_str(command);
            msg.append(" width must not be negative");
            Err(msg)
        },
        Ok(_) => Ok(()),
        Err(failure) => {
            let mut msg = String::from_str(command);
            msg.append(" width compare failed: ");
            msg.append(failure.message());
            Err(msg)
        },
    }
}

} // verus!
