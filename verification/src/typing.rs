//! Typing rules shared by validation and normalization: the result type of
//! arithmetic, of range spans, and of logical, comparison and conditional forms.

use vstd::prelude::*;
use std::sync::Arc;
use crate::comparison::ArithmeticComputation;
use crate::equality::{decomposition_eq, decomposition_same, lemma_type_eq, lemma_type_same, measure_units_eq, measure_units_same};
use crate::lemma_type::{spec_is_anonymous_measure, spec_is_calendar_like, spec_is_duration_like};
use crate::signature::{has_name, scaled, strictly_sorted, total, SigView};
use crate::types::{spec_default_help, spec_element_of_range, LemmaType, PrimitiveKind, TypeExtends, TypeSpecification};
use crate::units::{calendar_dimension, duration_dimension, BaseMeasureVector};
use crate::values::{copy_lemma_type, primitive_boolean_arc, primitive_date_range_arc};

verus! {

/// An anonymous measure type of decomposition `d`, with no bounds, units, traits or help.
pub open spec fn is_anonymous_with(t: LemmaType, d: SigView) -> bool {
    &&& t.name is None
    &&& t.extends == TypeExtends::Primitive
    &&& t.measure_binding_unit is None
    &&& t.specifications matches TypeSpecification::Measure { minimum, maximum, decimals, units, traits, decomposition, help }
        && minimum is None && maximum is None && decimals is None && units.0@.len() == 0 && traits@.len() == 0
        && decomposition is Some && decomposition->0@ == d && help@.len() == 0
}

pub open spec fn duration_view() -> SigView {
    seq![(duration_dimension(), 1int)]
}

pub open spec fn calendar_view() -> SigView {
    seq![(calendar_dimension(), 1int)]
}

/// The primitive number type (no name, bounds or decimals; default help).
pub open spec fn is_primitive_number(t: LemmaType) -> bool {
    &&& t.name is None
    &&& t.extends == TypeExtends::Primitive
    &&& t.measure_binding_unit is None
    &&& t.specifications matches TypeSpecification::Number { minimum, maximum, decimals, help } && minimum is None
        && maximum is None && decimals is None && help@ == spec_default_help(PrimitiveKind::Number)
}

pub open spec fn is_veto_type(t: LemmaType) -> bool {
    t == LemmaType::veto_type_value()
}

pub open spec fn is_undetermined_type(t: LemmaType) -> bool {
    t.name is None && t.extends == TypeExtends::Primitive && t.measure_binding_unit is None
        && t.specifications is Undetermined
}

pub open spec fn is_range_kind(s: TypeSpecification) -> bool {
    s is DateRange || s is TimeRange || s is NumberRange || s is MeasureRange || s is RatioRange
}

/// The type of the span (`hi - lo`) of a range type.
pub open spec fn spec_range_span(range: LemmaType, out: LemmaType) -> bool {
    match range.specifications {
        TypeSpecification::DateRange { .. } => is_anonymous_with(out, duration_view()),
        TypeSpecification::TimeRange { .. } => is_anonymous_with(out, duration_view()),
        TypeSpecification::NumberRange { .. } => is_primitive_number(out),
        TypeSpecification::MeasureRange { .. } => out.name == range.name && out.extends == range.extends
            && out.measure_binding_unit is None && spec_element_of_range(range.specifications, Some(out.specifications)),
        TypeSpecification::RatioRange { .. } => out.name == range.name && out.extends == range.extends
            && out.measure_binding_unit is None && spec_element_of_range(range.specifications, Some(out.specifications)),
        _ => is_undetermined_type(out),
    }
}

impl LemmaType {
    pub open spec fn veto_type_value() -> LemmaType {
        LemmaType {
            name: None,
            specifications: TypeSpecification::Veto { message: None },
            extends: TypeExtends::Primitive,
            measure_binding_unit: None,
        }
    }
}

fn primitive_number_type() -> (r: Arc<LemmaType>)
    ensures
        is_primitive_number(*r),
{
    Arc::new(LemmaType::primitive(TypeSpecification::number()))
}

fn anonymous_type(decomposition: BaseMeasureVector) -> (r: Arc<LemmaType>)
    ensures
        is_anonymous_with(*r, decomposition@),
{
    Arc::new(LemmaType::anonymous_for_decomposition(decomposition))
}

/// The type of the span (`hi - lo`) of a range type: a duration for date and time
/// ranges, a number for number ranges, the element type (keeping the range's name
/// and extension) for measure and ratio ranges, undetermined otherwise.
pub fn range_span_type(range_type: &LemmaType) -> (r: Arc<LemmaType>)
    ensures
        spec_range_span(*range_type, *r),
{
    match &range_type.specifications {
        TypeSpecification::DateRange { .. } => anonymous_type(crate::units::duration_decomposition()),
        TypeSpecification::TimeRange { .. } => anonymous_type(crate::units::duration_decomposition()),
        TypeSpecification::NumberRange { .. } => primitive_number_type(),
        TypeSpecification::MeasureRange { .. } | TypeSpecification::RatioRange { .. } => {
            let element_spec = match range_type.specifications.element_from_range() {
                Some(e) => e,
                None => vstd::pervasive::unreached(),
            };
            let name = match &range_type.name {
                Some(n) => Some(n.clone()),
                None => None,
            };
            Arc::new(LemmaType {
                name,
                specifications: element_spec,
                extends: range_type.extends.duplicate(),
                measure_binding_unit: None,
            })
        },
        _ => Arc::new(LemmaType::undetermined_type()),
    }
}

/// A measure range and a measure agree: the range's element and the measure share a
/// resolved decomposition, or the range declares nothing, or the unit tables (and,
/// when the measure has one, the decompositions) are equal.
pub open spec fn spec_measure_range_matches_measure(range: LemmaType, m: LemmaType) -> bool {
    m.specifications is Measure && match (range.specifications, m.specifications) {
        (
            TypeSpecification::MeasureRange { units: ru, decomposition: rd, .. },
            TypeSpecification::Measure { units: mu, decomposition: md, .. },
        ) => (rd is Some && md is Some && rd->0@ == md->0@) || (ru.0@.len() == 0 && rd is None) || (md is None
            && measure_units_eq(ru.0@, mu.0@)) || (md is Some && measure_units_eq(ru.0@, mu.0@) && decomposition_eq(rd, md)),
        _ => false,
    }
}

/// Whether a measure range accepts a measure type.
pub fn measure_range_matches_measure(range_type: &LemmaType, measure_type: &LemmaType) -> (b: bool)
    ensures
        b == spec_measure_range_matches_measure(*range_type, *measure_type),
{
    if !measure_type.is_measure() {
        return false;
    }
    if let Some(element_spec) = range_type.specifications.element_from_range() {
        let endpoint_type = LemmaType::primitive(element_spec);
        if endpoint_type.same_measure_family(measure_type) || endpoint_type.compatible_with_anonymous_measure(measure_type)
            || measure_type.compatible_with_anonymous_measure(&endpoint_type) {
            return true;
        }
    }
    match (&range_type.specifications, &measure_type.specifications) {
        (
            TypeSpecification::MeasureRange { units: range_units, decomposition: range_decomposition, .. },
            TypeSpecification::Measure { units: measure_units, decomposition: measure_decomposition, .. },
        ) => {
            if range_units.0.len() == 0 && range_decomposition.is_none() {
                true
            } else if measure_decomposition.is_none() {
                measure_units_same(range_units, measure_units)
            } else {
                measure_units_same(range_units, measure_units) && decomposition_same(range_decomposition, measure_decomposition)
            }
        },
        _ => false,
    }
}

/// Whether a range type accepts values of `measure_type` as offsets.
pub open spec fn spec_range_matches_measure_type(range: LemmaType, m: LemmaType) -> bool {
    match range.specifications {
        TypeSpecification::DateRange { .. } => spec_is_duration_like(m) || spec_is_calendar_like(m),
        TypeSpecification::TimeRange { .. } => spec_is_duration_like(m),
        TypeSpecification::NumberRange { .. } => m.specifications is Number,
        TypeSpecification::MeasureRange { .. } => m.specifications is Measure && spec_measure_range_matches_measure(range, m),
        TypeSpecification::RatioRange { .. } => m.specifications is Ratio,
        _ => false,
    }
}

/// Whether a range type accepts values of `measure_type` as offsets.
pub fn range_matches_measure_type(range_type: &LemmaType, measure_type: &LemmaType) -> (b: bool)
    ensures
        b == spec_range_matches_measure_type(*range_type, *measure_type),
{
    match &range_type.specifications {
        TypeSpecification::DateRange { .. } => measure_type.is_duration_like() || measure_type.is_calendar_like(),
        TypeSpecification::TimeRange { .. } => measure_type.is_duration_like(),
        TypeSpecification::NumberRange { .. } => measure_type.is_number(),
        TypeSpecification::MeasureRange { .. } => measure_type.is_measure() && measure_range_matches_measure(range_type, measure_type),
        TypeSpecification::RatioRange { .. } => measure_type.is_ratio(),
        _ => false,
    }
}


/// Decomposition view of a measure or measure-range specification.
pub open spec fn spec_any_dec(s: TypeSpecification) -> Option<SigView> {
    match s {
        TypeSpecification::Measure { decomposition, .. } => dec_view(decomposition),
        TypeSpecification::MeasureRange { decomposition, .. } => dec_view(decomposition),
        _ => None,
    }
}

pub open spec fn dec_view(d: Option<BaseMeasureVector>) -> Option<SigView> {
    match d {
        Some(x) => Some(x@),
        None => None,
    }
}

/// Whether range `l` accepts as an offset a measure-shaped span with name `name`, no
/// traits, units `su` and decomposition `sd`.
pub open spec fn spec_accepts_span(l: LemmaType, name: Option<String>, su: Seq<crate::units::MeasureUnit>, sd: Option<SigView>) -> bool {
    let dur = name is None && sd == Some(duration_view());
    let cal = name is None && sd == Some(calendar_view());
    match l.specifications {
        TypeSpecification::DateRange { .. } => dur || cal,
        TypeSpecification::TimeRange { .. } => dur,
        TypeSpecification::MeasureRange { units: lu, decomposition: ld, .. } => (dec_view(ld) is Some && dec_view(ld) == sd)
            || (lu.0@.len() == 0 && ld is None) || (sd is None && measure_units_eq(lu.0@, su)) || (sd is Some
            && measure_units_eq(lu.0@, su) && dec_view(ld) == sd),
        _ => false,
    }
}

/// Whether range `l` accepts the span of range `r` as an offset (both same-kind spans).
pub open spec fn spec_range_matches_range_measure(l: LemmaType, r: LemmaType) -> bool {
    match r.specifications {
        TypeSpecification::DateRange { .. } => spec_accepts_span(l, None, Seq::empty(), Some(duration_view())),
        TypeSpecification::TimeRange { .. } => spec_accepts_span(l, None, Seq::empty(), Some(duration_view())),
        TypeSpecification::NumberRange { .. } => l.specifications is NumberRange,
        TypeSpecification::MeasureRange { units, decomposition, .. } => spec_accepts_span(l, r.name, units.0@, dec_view(decomposition)),
        TypeSpecification::RatioRange { .. } => l.specifications is RatioRange,
        _ => false,
    }
}

proof fn lemma_units_eq_replace(a: Seq<crate::units::MeasureUnit>, b: Seq<crate::units::MeasureUnit>, c: Seq<crate::units::MeasureUnit>)
    requires
        measure_units_eq(b, c),
    ensures
        measure_units_eq(a, b) <==> measure_units_eq(a, c),
{
    if measure_units_eq(a, b) {
        assert forall|i: int| 0 <= i < a.len() implies #[trigger] crate::equality::measure_unit_eq(a[i], c[i]) by {
            assert(crate::equality::measure_unit_eq(a[i], b[i]));
            assert(crate::equality::measure_unit_eq(b[i], c[i]));
        }
    }
    if measure_units_eq(a, c) {
        assert forall|i: int| 0 <= i < a.len() implies #[trigger] crate::equality::measure_unit_eq(a[i], b[i]) by {
            assert(crate::equality::measure_unit_eq(a[i], c[i]));
            assert(crate::equality::measure_unit_eq(b[i], c[i]));
        }
    }
}

/// Whether range `left_range` accepts the span of `right_range` as an offset.
pub fn range_matches_range_measure(left_range: &LemmaType, right_range: &LemmaType) -> (b: bool)
    ensures
        b == spec_range_matches_range_measure(*left_range, *right_range),
{
    let span = range_span_type(right_range);
    let b = !span.is_undetermined() && range_matches_measure_type(left_range, &*span);
    proof {
        let sp = *span;
        if right_range.specifications is MeasureRange {
            lemma_units_eq_replace(
                crate::lemma_type::spec_measure_units(left_range.specifications),
                crate::lemma_type::spec_measure_units(sp.specifications),
                crate::lemma_type::spec_measure_units(right_range.specifications),
            );
            assert(spec_any_dec(sp.specifications) == spec_any_dec(right_range.specifications));
        }
    }
    b
}


// ---------------------------------------------------------------------------
// Arithmetic
// ---------------------------------------------------------------------------

/// Which type `left op right` has, relative to its operands.
pub enum ArithOutcome {
    Veto,
    Undetermined,
    AnonDuration,
    AnonCalendar,
    /// An anonymous measure of the given decomposition.
    AnonOf(SigView),
    /// An anonymous measure of the given decomposition with every exponent negated.
    AnonNegated(SigView),
    /// The left and right decompositions combined (multiply when `true`); a plain
    /// number when they cancel out.
    Combined(SigView, SigView, bool),
    First,
    Second,
    Number,
    SpanFirst,
    SpanSecond,
}

pub open spec fn is_add_sub(op: ArithmeticComputation) -> bool {
    op == ArithmeticComputation::Add || op == ArithmeticComputation::Subtract
}

pub open spec fn is_mul_div(op: ArithmeticComputation) -> bool {
    op == ArithmeticComputation::Multiply || op == ArithmeticComputation::Divide
}

/// Add/subtract gives the span; anything else is undetermined.
pub open spec fn span_or_undetermined(op: ArithmeticComputation, o: ArithOutcome) -> ArithOutcome {
    if is_add_sub(op) { o } else { ArithOutcome::Undetermined }
}

/// One matching pass over `(left, right)`; `None` when no rule applies in this order.
pub open spec fn spec_arith_once(l: LemmaType, op: ArithmeticComputation, r: LemmaType) -> Option<ArithOutcome> {
    let ls = l.specifications;
    let rs = r.specifications;
    if ls is Veto || rs is Veto {
        Some(ArithOutcome::Veto)
    } else if ls is Undetermined {
        Some(ArithOutcome::Undetermined)
    } else if ls is Date && rs is Time {
        Some(ArithOutcome::AnonDuration)
    } else if lemma_type_eq(l, r) && !(ls is Measure || is_range_kind(ls)) {
        Some(ArithOutcome::First)
    } else if ls is Date && rs is Measure && (spec_is_duration_like(r) || spec_is_calendar_like(r)) {
        Some(ArithOutcome::First)
    } else if ls is Measure && rs is Date && spec_is_calendar_like(l) {
        Some(ArithOutcome::Second)
    } else if ls is Time && rs is Measure && spec_is_duration_like(r) {
        Some(ArithOutcome::First)
    } else if ls is Measure && rs is Ratio {
        Some(ArithOutcome::First)
    } else if ls is Measure && rs is Number {
        if op == ArithmeticComputation::Add || op == ArithmeticComputation::Subtract {
            Some(ArithOutcome::Undetermined)
        } else {
            Some(ArithOutcome::First)
        }
    } else if ls is Measure && rs is Measure {
        let ld = spec_any_dec(ls);
        let rd = spec_any_dec(rs);
        if is_add_sub(op) {
            if (spec_is_anonymous_measure(l) || spec_is_anonymous_measure(r)) && ld is Some && ld == rd {
                Some(ArithOutcome::AnonOf(ld->0))
            } else {
                Some(ArithOutcome::First)
            }
        } else if is_mul_div(op) {
            if ld is Some && rd is Some {
                Some(ArithOutcome::Combined(ld->0, rd->0, op == ArithmeticComputation::Multiply))
            } else {
                Some(ArithOutcome::First)
            }
        } else {
            Some(ArithOutcome::Number)
        }
    } else if ls is Number && rs is Measure {
        let rd = spec_any_dec(rs);
        if op == ArithmeticComputation::Multiply {
            Some(ArithOutcome::Second)
        } else if op == ArithmeticComputation::Divide {
            if rd is Some && rd->0.len() > 0 {
                Some(ArithOutcome::AnonNegated(rd->0))
            } else {
                Some(ArithOutcome::Number)
            }
        } else {
            Some(ArithOutcome::Undetermined)
        }
    } else if ls is Number && rs is Ratio {
        Some(ArithOutcome::Number)
    } else if ls is Ratio && rs is Number {
        if op == ArithmeticComputation::Multiply { Some(ArithOutcome::Number) } else { Some(ArithOutcome::First) }
    } else if ls is Number && rs is Number {
        Some(ArithOutcome::Number)
    } else if ls is Ratio && rs is Ratio {
        Some(ArithOutcome::First)
    } else if (ls is DateRange && rs is DateRange) || (ls is NumberRange && rs is NumberRange)
        || (ls is RatioRange && rs is RatioRange) || (ls is NumberRange && rs is Number) || (ls is RatioRange && rs is Ratio) {
        Some(span_or_undetermined(op, ArithOutcome::SpanFirst))
    } else if ls is MeasureRange && rs is MeasureRange {
        if is_add_sub(op) && spec_range_matches_range_measure(l, r) { Some(ArithOutcome::SpanFirst) } else { Some(ArithOutcome::Undetermined) }
    } else if ls is MeasureRange && rs is Measure {
        if is_add_sub(op) && spec_range_matches_measure_type(l, r) { Some(ArithOutcome::SpanFirst) } else { Some(ArithOutcome::Undetermined) }
    } else if (ls is Number && rs is NumberRange) || (ls is Ratio && rs is RatioRange) {
        Some(span_or_undetermined(op, ArithOutcome::SpanSecond))
    } else if ls is Measure && rs is MeasureRange {
        if is_add_sub(op) && spec_range_matches_measure_type(r, l) { Some(ArithOutcome::SpanSecond) } else { Some(ArithOutcome::Undetermined) }
    } else if ls is DateRange && rs is Measure && spec_is_duration_like(r) {
        Some(span_or_undetermined(op, ArithOutcome::SpanFirst))
    } else if ls is DateRange && rs is Measure && spec_is_calendar_like(r) {
        Some(span_or_undetermined(op, ArithOutcome::First))
    } else if ls is Measure && rs is DateRange && spec_is_duration_like(l) {
        Some(span_or_undetermined(op, ArithOutcome::SpanSecond))
    } else if ls is Measure && rs is DateRange && spec_is_calendar_like(l) {
        Some(span_or_undetermined(op, ArithOutcome::Second))
    } else {
        None
    }
}

pub open spec fn swap_outcome(o: ArithOutcome) -> ArithOutcome {
    match o {
        ArithOutcome::First => ArithOutcome::Second,
        ArithOutcome::Second => ArithOutcome::First,
        ArithOutcome::SpanFirst => ArithOutcome::SpanSecond,
        ArithOutcome::SpanSecond => ArithOutcome::SpanFirst,
        _ => o,
    }
}

/// The outcome of `left op right`: the first rule matching in the written order, else
/// (once) the first matching with the operands swapped, else undetermined.
pub open spec fn spec_arith(l: LemmaType, op: ArithmeticComputation, r: LemmaType, swapped: bool) -> ArithOutcome {
    match spec_arith_once(l, op, r) {
        Some(o) => o,
        None => if swapped {
            ArithOutcome::Undetermined
        } else {
            match spec_arith_once(r, op, l) {
                Some(o) => swap_outcome(o),
                None => ArithOutcome::Undetermined,
            }
        },
    }
}

/// `c` is the combination of decompositions `ld` and `rd` (multiplied when `mul`).
pub open spec fn combined_rel(c: SigView, ld: SigView, rd: SigView, mul: bool) -> bool {
    &&& strictly_sorted(c)
    &&& forall|n: Seq<char>| #[trigger] total(c, n) == total(ld, n) + (if mul { 1int } else { -1int }) * total(rd, n)
    &&& forall|n: Seq<char>| #[trigger] has_name(c, n) <==> (if has_name(rd, n) { total(c, n) != 0 } else { has_name(ld, n) })
}

/// What the result type is for each outcome.
pub open spec fn spec_arith_result(o: ArithOutcome, l: LemmaType, r: LemmaType, res: LemmaType) -> bool {
    match o {
        ArithOutcome::Veto => is_veto_type(res),
        ArithOutcome::Undetermined => is_undetermined_type(res),
        ArithOutcome::AnonDuration => is_anonymous_with(res, duration_view()),
        ArithOutcome::AnonCalendar => is_anonymous_with(res, calendar_view()),
        ArithOutcome::AnonOf(d) => is_anonymous_with(res, d),
        ArithOutcome::AnonNegated(d) => is_anonymous_with(res, scaled(d, -1)),
        ArithOutcome::Combined(ld, rd, mul) => exists|c: SigView| combined_rel(c, ld, rd, mul) && (if c.len() == 0 {
            is_primitive_number(res)
        } else {
            is_anonymous_with(res, c)
        }),
        ArithOutcome::First => res == l,
        ArithOutcome::Second => res == r,
        ArithOutcome::Number => is_primitive_number(res),
        ArithOutcome::SpanFirst => spec_range_span(l, res),
        ArithOutcome::SpanSecond => spec_range_span(r, res),
    }
}

/// Exponents stay in machine range when decompositions are combined or negated.
pub open spec fn spec_arith_safe(l: LemmaType, op: ArithmeticComputation, r: LemmaType) -> bool {
    let ld = spec_any_dec(l.specifications);
    let rd = spec_any_dec(r.specifications);
    &&& (l.specifications is Measure && r.specifications is Measure && is_mul_div(op) && ld is Some && rd is Some)
        ==> (crate::signature::partial_sums_fit(ld->0 + scaled(rd->0, if op == ArithmeticComputation::Multiply { 1 } else { -1 }))
        && (op == ArithmeticComputation::Divide ==> forall|i: int| 0 <= i < rd->0.len() ==> #[trigger] rd->0[i].1 != i32::MIN))
    &&& (l.specifications is Number && r.specifications is Measure && op == ArithmeticComputation::Divide && rd is Some)
        ==> forall|i: int| 0 <= i < rd->0.len() ==> #[trigger] rd->0[i].1 != i32::MIN
}

fn is_add_or_subtract(op: &ArithmeticComputation) -> (b: bool)
    ensures
        b == is_add_sub(*op),
{
    *op == ArithmeticComputation::Add || *op == ArithmeticComputation::Subtract
}

fn undetermined() -> (r: Arc<LemmaType>)
    ensures
        is_undetermined_type(*r),
{
    Arc::new(LemmaType::undetermined_type())
}

/// A vetoed operand makes any arithmetic result the veto type; otherwise an
/// undetermined operand makes it undetermined, for every operator, written in either
/// order. Such operands never risk exponent overflow, so the typing function accepts
/// them.
pub proof fn lemma_veto_and_undetermined_propagate(l: LemmaType, op: ArithmeticComputation, r: LemmaType, swapped: bool)
    requires
        l.specifications is Veto || r.specifications is Veto || l.specifications is Undetermined
            || r.specifications is Undetermined,
    ensures
        spec_arith_safe(l, op, r),
        (l.specifications is Veto || r.specifications is Veto) ==> spec_arith(l, op, r, swapped) == ArithOutcome::Veto,
        !(l.specifications is Veto || r.specifications is Veto) ==> spec_arith(l, op, r, swapped) == ArithOutcome::Undetermined,
{
}

/// Scaling a measure by a plain number keeps the measure's own type: for every
/// operator but `+` and `-`, the result type of `measure op number` is the measure
/// operand's type (a price times two is still a price); adding or subtracting a plain
/// number to a measure has no type. A measure combined with a ratio keeps the
/// measure's type under every operator.
pub proof fn lemma_measure_scaled_by_number_keeps_its_type(
    l: LemmaType,
    op: ArithmeticComputation,
    r: LemmaType,
    swapped: bool,
    res: LemmaType,
)
    requires
        l.specifications is Measure,
        r.specifications is Number || r.specifications is Ratio,
        spec_arith_result(spec_arith(l, op, r, swapped), l, r, res),
    ensures
        r.specifications is Ratio ==> res == l,
        r.specifications is Number && op != ArithmeticComputation::Add && op != ArithmeticComputation::Subtract ==> res == l,
        r.specifications is Number && (op == ArithmeticComputation::Add || op == ArithmeticComputation::Subtract)
            ==> is_undetermined_type(res),
{
}

/// Shifting a date or a time keeps its type: a date combined with a duration or
/// calendar measure is still that date type, as is a calendar measure combined with a
/// date; a time combined with a duration measure is still that time type; and the
/// difference of a date and a time is an anonymous duration. A plain number times a
/// measure has the measure's type.
pub proof fn lemma_temporal_shifts_keep_their_type(
    l: LemmaType,
    op: ArithmeticComputation,
    r: LemmaType,
    swapped: bool,
    res: LemmaType,
)
    requires
        spec_arith_result(spec_arith(l, op, r, swapped), l, r, res),
    ensures
        l.specifications is Date && r.specifications is Measure && (spec_is_duration_like(r) || spec_is_calendar_like(r))
            ==> res == l,
        l.specifications is Measure && r.specifications is Date && spec_is_calendar_like(l) ==> res == r,
        l.specifications is Time && r.specifications is Measure && spec_is_duration_like(r) ==> res == l,
        l.specifications is Date && r.specifications is Time ==> is_anonymous_with(res, duration_view()),
        l.specifications is Number && r.specifications is Measure && op == ArithmeticComputation::Multiply ==> res == r,
{
}

/// Combining two equal types that are neither measures nor ranges (and neither vetoed
/// nor undetermined) gives that same type.
pub proof fn lemma_equal_plain_types_keep_their_type(
    l: LemmaType,
    op: ArithmeticComputation,
    r: LemmaType,
    swapped: bool,
    res: LemmaType,
)
    requires
        spec_arith_result(spec_arith(l, op, r, swapped), l, r, res),
        lemma_type_eq(l, r),
        !(l.specifications is Measure || is_range_kind(l.specifications) || l.specifications is Veto
            || l.specifications is Undetermined),
    ensures
        res == l,
{
}

/// Result type of `left op right`, trying the operands swapped once when no rule
/// applies in the written order.
pub fn compute_arithmetic_result_type_recursive(
    left_type: Arc<LemmaType>,
    op: &ArithmeticComputation,
    right_type: Arc<LemmaType>,
    swapped: bool,
) -> (res: Arc<LemmaType>)
    requires
        spec_arith_safe(*left_type, *op, *right_type),
    ensures
        spec_arith_result(spec_arith(*left_type, *op, *right_type, swapped), *left_type, *right_type, *res),
    decreases (if swapped { 0int } else { 1int }),
{
    let lt = &*left_type;
    let rt = &*right_type;
    if lt.vetoed() || rt.vetoed() {
        return Arc::new(LemmaType::veto_type());
    }
    if lt.is_undetermined() {
        return undetermined();
    }
    if lt.is_date() && rt.is_time() {
        return anonymous_type(crate::units::duration_decomposition());
    }
    if lemma_type_same(lt, rt) && !(lt.is_measure() || lt.is_range()) {
        return left_type;
    }
    if lt.is_date() && rt.is_measure() && (rt.is_duration_like_measure() || rt.is_calendar_like_measure()) {
        return left_type;
    }
    if lt.is_measure() && rt.is_date() && lt.is_calendar_like_measure() {
        return right_type;
    }
    if lt.is_time() && rt.is_measure() && rt.is_duration_like_measure() {
        return left_type;
    }
    if lt.is_measure() && rt.is_ratio() {
        return left_type;
    }
    if lt.is_measure() && rt.is_number() {
        if *op == ArithmeticComputation::Add || *op == ArithmeticComputation::Subtract {
            return undetermined();
        }
        return left_type;
    }
    if lt.is_measure() && rt.is_measure() {
        let ld = lt.measure_type_decomposition();
        let rd = rt.measure_type_decomposition();
        if is_add_or_subtract(op) {
            if lt.compatible_with_anonymous_measure(rt) || rt.compatible_with_anonymous_measure(lt) {
                match ld {
                    Some(d) => {
                        return anonymous_type(d.duplicate());
                    },
                    None => vstd::pervasive::unreached(),
                }
            }
            return left_type;
        }
        if *op == ArithmeticComputation::Multiply || *op == ArithmeticComputation::Divide {
            match (ld, rd) {
                (Some(a), Some(b)) => {
                    let is_multiply = *op == ArithmeticComputation::Multiply;
                    let combined = crate::units::combine_decompositions(a, b, is_multiply);
                    proof {
                        let c = combined@;
                        assert(combined_rel(c, a@, b@, is_multiply));
                        assert(spec_any_dec(left_type.specifications) == Some(a@));
                        assert(spec_any_dec(right_type.specifications) == Some(b@));
                    }
                    if combined.is_empty() {
                        return primitive_number_type();
                    }
                    return anonymous_type(combined);
                },
                _ => {
                    return left_type;
                },
            }
        }
        return primitive_number_type();
    }
    if lt.is_number() && rt.is_measure() {
        let rd = rt.measure_type_decomposition();
        if *op == ArithmeticComputation::Multiply {
            return right_type;
        }
        if *op == ArithmeticComputation::Divide {
            match rd {
                Some(d) => {
                    if !d.is_empty() {
                        return anonymous_type(d.negated());
                    }
                    return primitive_number_type();
                },
                None => {
                    return primitive_number_type();
                },
            }
        }
        return undetermined();
    }
    if lt.is_number() && rt.is_ratio() {
        return primitive_number_type();
    }
    if lt.is_ratio() && rt.is_number() {
        if *op == ArithmeticComputation::Multiply {
            return primitive_number_type();
        }
        return left_type;
    }
    if lt.is_number() && rt.is_number() {
        return primitive_number_type();
    }
    if lt.is_ratio() && rt.is_ratio() {
        return left_type;
    }
    if (lt.is_date_range() && rt.is_date_range()) || (lt.is_number_range() && rt.is_number_range())
        || (lt.is_ratio_range() && rt.is_ratio_range()) || (lt.is_number_range() && rt.is_number())
        || (lt.is_ratio_range() && rt.is_ratio()) {
        if is_add_or_subtract(op) {
            return range_span_type(lt);
        }
        return undetermined();
    }
    if lt.is_measure_range() && rt.is_measure_range() {
        if is_add_or_subtract(op) && range_matches_range_measure(lt, rt) {
            return range_span_type(lt);
        }
        return undetermined();
    }
    if lt.is_measure_range() && rt.is_measure() {
        if is_add_or_subtract(op) && range_matches_measure_type(lt, rt) {
            return range_span_type(lt);
        }
        return undetermined();
    }
    if (lt.is_number() && rt.is_number_range()) || (lt.is_ratio() && rt.is_ratio_range()) {
        if is_add_or_subtract(op) {
            return range_span_type(rt);
        }
        return undetermined();
    }
    if lt.is_measure() && rt.is_measure_range() {
        if is_add_or_subtract(op) && range_matches_measure_type(rt, lt) {
            return range_span_type(rt);
        }
        return undetermined();
    }
    if lt.is_date_range() && rt.is_measure() && rt.is_duration_like_measure() {
        if is_add_or_subtract(op) {
            return range_span_type(lt);
        }
        return undetermined();
    }
    if lt.is_date_range() && rt.is_measure() && rt.is_calendar_like_measure() {
        if is_add_or_subtract(op) {
            return left_type;
        }
        return undetermined();
    }
    if lt.is_measure() && rt.is_date_range() && lt.is_duration_like_measure() {
        if is_add_or_subtract(op) {
            return range_span_type(rt);
        }
        return undetermined();
    }
    if lt.is_measure() && rt.is_date_range() && lt.is_calendar_like_measure() {
        if is_add_or_subtract(op) {
            return right_type;
        }
        return undetermined();
    }
    proof {
        assert(spec_arith_once(*left_type, *op, *right_type) is None);
    }
    if swapped {
        undetermined()
    } else {
        proof {
            assert(spec_arith_safe(*right_type, *op, *left_type));
        }
        compute_arithmetic_result_type_recursive(right_type, op, left_type, true)
    }
}


// ---------------------------------------------------------------------------
// Other forms
// ---------------------------------------------------------------------------

fn veto() -> (r: Arc<LemmaType>)
    ensures
        is_veto_type(*r),
{
    Arc::new(LemmaType::veto_type())
}

/// The primitive boolean type.
pub open spec fn is_primitive_boolean(t: LemmaType) -> bool {
    t.name is None && t.extends == TypeExtends::Primitive && t.measure_binding_unit is None
        && t.specifications is Boolean
}

/// Type of a range literal from its endpoint types: the range of the left endpoint's
/// kind when the endpoints are compatible, else undetermined.
pub fn infer_range_type_from_endpoint_types(left_type: &LemmaType, right_type: &LemmaType) -> (r: Arc<LemmaType>)
    ensures
        crate::values::spec_endpoints_compatible(*left_type, *right_type) ==> r.name is None && r.extends
            == TypeExtends::Primitive && r.measure_binding_unit is None
            && crate::types::spec_range_of_element(left_type.specifications, Some(r.specifications)),
        !crate::values::spec_endpoints_compatible(*left_type, *right_type) ==> is_undetermined_type(*r),
{
    match crate::values::range_type_specification_from_endpoints(left_type, right_type) {
        Some(spec) => Arc::new(LemmaType::primitive(spec)),
        None => undetermined(),
    }
}

/// Type of `left and right`: veto when either is veto, undetermined unless both are
/// boolean, else boolean.
pub fn logical_and_type(left: &LemmaType, right: &LemmaType) -> (r: Arc<LemmaType>)
    ensures
        (left.specifications is Veto || right.specifications is Veto) ==> is_veto_type(*r),
        !(left.specifications is Veto || right.specifications is Veto) && !(left.specifications is Boolean
            && right.specifications is Boolean) ==> is_undetermined_type(*r),
        !(left.specifications is Veto || right.specifications is Veto) && left.specifications is Boolean
            && right.specifications is Boolean ==> is_primitive_boolean(*r),
{
    if left.vetoed() || right.vetoed() {
        return veto();
    }
    if left.is_undetermined() || right.is_undetermined() || !left.is_boolean() || !right.is_boolean() {
        return undetermined();
    }
    primitive_boolean_arc()
}

/// Type of `not operand`: veto, undetermined, or boolean.
pub fn logical_not_type(operand: &LemmaType) -> (r: Arc<LemmaType>)
    ensures
        operand.specifications is Veto ==> is_veto_type(*r),
        operand.specifications is Undetermined ==> is_undetermined_type(*r),
        !(operand.specifications is Veto || operand.specifications is Undetermined) ==> is_primitive_boolean(*r),
{
    if operand.vetoed() {
        return veto();
    }
    if operand.is_undetermined() {
        return undetermined();
    }
    primitive_boolean_arc()
}

/// Type of a comparison: veto, undetermined, or boolean.
pub fn comparison_type(left: &LemmaType, right: &LemmaType) -> (r: Arc<LemmaType>)
    ensures
        (left.specifications is Veto || right.specifications is Veto) ==> is_veto_type(*r),
        !(left.specifications is Veto || right.specifications is Veto) && (left.specifications is Undetermined
            || right.specifications is Undetermined) ==> is_undetermined_type(*r),
        !(left.specifications is Veto || right.specifications is Veto || left.specifications is Undetermined
            || right.specifications is Undetermined) ==> is_primitive_boolean(*r),
{
    if left.vetoed() || right.vetoed() {
        return veto();
    }
    if left.is_undetermined() || right.is_undetermined() {
        return undetermined();
    }
    primitive_boolean_arc()
}

/// Type of a date predicate (`in past`, ...): veto or boolean.
pub fn date_predicate_type(operand: &LemmaType) -> (r: Arc<LemmaType>)
    ensures
        operand.specifications is Veto ==> is_veto_type(*r),
        !(operand.specifications is Veto) ==> is_primitive_boolean(*r),
{
    if operand.vetoed() {
        return veto();
    }
    primitive_boolean_arc()
}

/// Type of a past/future range: veto or a date range.
pub fn past_future_range_type(offset: &LemmaType) -> (r: Arc<LemmaType>)
    ensures
        offset.specifications is Veto ==> is_veto_type(*r),
        !(offset.specifications is Veto) ==> r.name is None && r.extends == TypeExtends::Primitive
            && r.measure_binding_unit is None && r.specifications is DateRange,
{
    if offset.vetoed() {
        return veto();
    }
    primitive_date_range_arc()
}

/// Type of `is veto`: boolean.
pub fn result_is_veto_type() -> (r: Arc<LemmaType>)
    ensures
        is_primitive_boolean(*r),
{
    primitive_boolean_arc()
}

/// Index of the first body that is neither veto nor undetermined, or -1.
pub open spec fn first_determined(bodies: Seq<Arc<LemmaType>>) -> int
    decreases bodies.len(),
{
    if bodies.len() == 0 {
        -1
    } else if !(bodies[0].specifications is Veto || bodies[0].specifications is Undetermined) {
        0
    } else if first_determined(bodies.drop_first()) >= 0 {
        1 + first_determined(bodies.drop_first())
    } else {
        -1
    }
}

/// Type of a conditional: the first body type that is neither veto nor undetermined,
/// else veto. There must be at least one body.
pub fn piecewise_type(bodies: Vec<Arc<LemmaType>>) -> (r: Arc<LemmaType>)
    requires
        bodies@.len() > 0,
    ensures
        first_determined(bodies@) >= 0 ==> r == bodies@[first_determined(bodies@)],
        first_determined(bodies@) < 0 ==> is_veto_type(*r),
{
    let ghost all = bodies@;
    let count = bodies.len();
    let mut rest = bodies;
    let mut skipped: usize = 0;
    proof {
        assert(all.subrange(0, 0) =~= Seq::<Arc<LemmaType>>::empty());
    }
    while rest.len() > 0
        invariant
            all == bodies@,
            rest@ == all.subrange(skipped as int, all.len() as int),
            skipped <= all.len(),
            all.len() == count,
            forall|i: int| 0 <= i < skipped ==> (#[trigger] all[i]).specifications is Veto || all[i].specifications is Undetermined,
        decreases rest@.len(),
    {
        let ty = rest.remove(0);
        proof {
            assert(ty == all[skipped as int]);
            assert(rest@ =~= all.subrange(skipped + 1, all.len() as int));
        }
        if !ty.vetoed() && !ty.is_undetermined() {
            proof {
                assert(!(all[skipped as int].specifications is Veto || all[skipped as int].specifications is Undetermined));
                lemma_first_determined(all, skipped as int);
                assert(first_determined(all) == skipped as int);
            }
            return ty;
        }
        skipped = skipped + 1;
    }
    proof {
        lemma_first_determined(all, all.len() as int);
    }
    veto()
}

proof fn lemma_first_determined(bodies: Seq<Arc<LemmaType>>, k: int)
    requires
        0 <= k <= bodies.len(),
        forall|i: int| 0 <= i < k ==> (#[trigger] bodies[i]).specifications is Veto || bodies[i].specifications is Undetermined,
    ensures
        k < bodies.len() && !(bodies[k].specifications is Veto || bodies[k].specifications is Undetermined) ==> first_determined(bodies) == k,
        k == bodies.len() ==> first_determined(bodies) < 0,
    decreases k,
{
    if k > 0 {
        assert forall|i: int| 0 <= i < k - 1 implies (#[trigger] bodies.drop_first()[i]).specifications is Veto
            || bodies.drop_first()[i].specifications is Undetermined by {
            assert(bodies.drop_first()[i] == bodies[i + 1]);
        }
        lemma_first_determined(bodies.drop_first(), k - 1);
        assert(bodies[0].specifications is Veto || bodies[0].specifications is Undetermined);
        if k < bodies.len() {
            assert(bodies.drop_first()[k - 1] == bodies[k]);
        }
    } else if bodies.len() == 0 {
    }
}

/// Target of an `as` conversion.
#[derive(Debug, Clone, PartialEq, Eq)]
pub enum SemanticConversionTarget {
    Type(PrimitiveKind),
    /// Convert into `unit_name` of the measure or ratio type it is declared on.
    Unit {
        unit_name: String,
        owning_type: Arc<LemmaType>,
    },
}

/// Type of `source as target`: number, text and boolean conversions give those
/// primitives; another primitive kind keeps the source when it is of that kind (else
/// undetermined); a unit gives the owning type bound to that unit.
pub fn unit_conversion_type(source: Arc<LemmaType>, target: &SemanticConversionTarget) -> (r: Arc<LemmaType>)
    ensures
        match *target {
            SemanticConversionTarget::Type(PrimitiveKind::Number) => is_primitive_number(*r),
            SemanticConversionTarget::Type(PrimitiveKind::Text) => r.name is None && r.extends == TypeExtends::Primitive
                && r.measure_binding_unit is None && r.specifications is Text,
            SemanticConversionTarget::Type(PrimitiveKind::Boolean) => is_primitive_boolean(*r),
            SemanticConversionTarget::Type(kind) => if crate::lemma_type::spec_matches_kind(source.specifications, kind) {
                r == source
            } else {
                is_undetermined_type(*r)
            },
            SemanticConversionTarget::Unit { unit_name, owning_type } => r.name == owning_type.name
                && r.extends == owning_type.extends && r.measure_binding_unit == Some(unit_name)
                && crate::equality::spec_eq(r.specifications, owning_type.specifications),
        },
{
    match target {
        SemanticConversionTarget::Type(PrimitiveKind::Number) => primitive_number_type(),
        SemanticConversionTarget::Type(PrimitiveKind::Text) => crate::values::primitive_text_arc(),
        SemanticConversionTarget::Type(PrimitiveKind::Boolean) => primitive_boolean_arc(),
        SemanticConversionTarget::Type(kind) => {
            if source.matches_primitive_kind(*kind) {
                source
            } else {
                undetermined()
            }
        },
        SemanticConversionTarget::Unit { unit_name, owning_type } => {
            let copy = copy_lemma_type(&**owning_type);
            Arc::new(copy.with_measure_binding_unit(unit_name.clone()))
        },
    }
}

/// Two types describe the same values: the same kind and, for measures and measure
/// ranges, the same dimensions. Names and constraints may differ.
pub open spec fn spec_same_value_type(a: LemmaType, b: LemmaType) -> bool {
    crate::lemma_type::spec_same_kind(a.specifications, b.specifications) && ((a.specifications is Measure
        || a.specifications is MeasureRange) ==> spec_any_dec(a.specifications) == spec_any_dec(b.specifications))
}

/// Whether two types describe the same values: the same kind and, for measures and
/// measure ranges, the same decomposition.
pub fn same_value_type(left: &LemmaType, right: &LemmaType) -> (b: bool)
    ensures
        b == spec_same_value_type(*left, *right),
{
    if !left.has_same_base_type(right) {
        return false;
    }
    proof {
        crate::lemma_type::lemma_same_kind_same_variant(left.specifications, right.specifications);
    }
    match (&left.specifications, &right.specifications) {
        (TypeSpecification::Measure { decomposition: a, .. }, TypeSpecification::Measure { decomposition: b, .. }) => {
            decomposition_same(a, b)
        },
        (
            TypeSpecification::MeasureRange { decomposition: a, .. },
            TypeSpecification::MeasureRange { decomposition: b, .. },
        ) => decomposition_same(a, b),
        _ => {
            true
        },
    }
}

/// Describing the same values is an equivalence: reflexive, symmetric and transitive.
pub proof fn lemma_same_value_type_is_an_equivalence(a: LemmaType, b: LemmaType, c: LemmaType)
    ensures
        spec_same_value_type(a, a),
        spec_same_value_type(a, b) ==> spec_same_value_type(b, a),
        spec_same_value_type(a, b) && spec_same_value_type(b, c) ==> spec_same_value_type(a, c),
{
    crate::lemma_type::lemma_same_kind_same_variant(a.specifications, b.specifications);
    crate::lemma_type::lemma_same_kind_same_variant(b.specifications, c.specifications);
}

/// The ratio type unit conversions of a ratio or ratio-range value use: the type
/// itself for a ratio, else the unbounded primitive ratio over the range's units.
pub fn ratio_element_type_for_api(lemma_type: &LemmaType) -> (r: LemmaType)
    requires
        lemma_type.specifications is Ratio || lemma_type.specifications is RatioRange,
    ensures
        lemma_type.specifications is Ratio ==> r.name == lemma_type.name && r.extends == lemma_type.extends
            && r.measure_binding_unit == lemma_type.measure_binding_unit && crate::equality::spec_eq(r.specifications, lemma_type.specifications),
        lemma_type.specifications is RatioRange ==> {
            &&& r.name is None
            &&& r.extends == TypeExtends::Primitive
            &&& r.measure_binding_unit is None
            &&& r.specifications matches TypeSpecification::Ratio { minimum, maximum, decimals, units, help }
                && minimum is None && maximum is None && decimals is None && units.0@
                == lemma_type.specifications->RatioRange_units.0@ && help@.len() == 0
        },
{
    match &lemma_type.specifications {
        TypeSpecification::Ratio { .. } => copy_lemma_type(lemma_type),
        _ => {
            let element = match lemma_type.specifications.element_from_range() {
                Some(e) => e,
                None => vstd::pervasive::unreached(),
            };
            match element {
                TypeSpecification::Ratio { units, decimals, .. } => LemmaType::primitive(
                    TypeSpecification::Ratio { minimum: None, maximum: None, decimals, units, help: String::new() },
                ),
                _ => vstd::pervasive::unreached(),
            }
        },
    }
}

} // verus!
