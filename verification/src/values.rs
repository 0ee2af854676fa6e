//! Literal values: value kinds, untyped and typed literals, calendar units and the
//! bound values that suggestions and fills carry.

use vstd::prelude::*;
use vstd::string::StringExecFns;
use std::sync::Arc;
use crate::lemma_type::{anonymous_measure_type, spec_is_anonymous_measure, spec_is_calendar_like, spec_is_duration_like, spec_measure_decomposition, spec_measure_family_name, spec_measure_units, spec_runtime_signature, declares_measure_unit, spec_measure_unit_factor};
use crate::types::spec_range_of_element;
use crate::rational::{checked_div, checked_mul, spec_div, spec_mul, NumericFailure, RationalInteger};
use crate::signature::{sig_view, SigView};
use crate::temporal::{SemanticDateTime, SemanticTime};
use crate::text::compare_text;
use crate::types::{LemmaType, TypeExtends, TypeSpecification};
use crate::decimal::{decimal_value, rational_from_decimal};
use rust_decimal::Decimal;
use crate::units::{first_named, measure_unit_names_of, month_name, year_name, BaseMeasureVector};

verus! {

/// Calendar unit of a calendar measure value.
#[derive(Debug, Clone, Copy, PartialEq, Eq, Hash, Structural)]
pub enum SemanticCalendarUnit {
    Month,
    Year,
}

pub open spec fn spec_calendar_unit_name(u: SemanticCalendarUnit) -> Seq<char> {
    match u {
        SemanticCalendarUnit::Month => month_name(),
        SemanticCalendarUnit::Year => year_name(),
    }
}

impl SemanticCalendarUnit {
    /// The singular unit name: `month` or `year`.
    pub fn to_name(&self) -> (r: String)
        ensures
            r@ == spec_calendar_unit_name(*self),
    {
        proof {
            reveal_strlit("month");
            reveal_strlit("year");
            assert("month"@ =~= month_name());
            assert("year"@ =~= year_name());
        }
        match self {
            SemanticCalendarUnit::Month => String::from_str("month"),
            SemanticCalendarUnit::Year => String::from_str("year"),
        }
    }
}

/// The calendar unit named `month` or `year`.
pub fn semantic_calendar_unit_from_unit_name(unit_name: &str) -> (r: SemanticCalendarUnit)
    requires
        unit_name@ == month_name() || unit_name@ == year_name(),
    ensures
        spec_calendar_unit_name(r) == unit_name@,
{
    proof {
        reveal_strlit("month");
        assert("month"@ =~= month_name());
    }
    if compare_text(unit_name, "month") == 0 {
        SemanticCalendarUnit::Month
    } else {
        SemanticCalendarUnit::Year
    }
}

/// The calendar unit named by the first entry of a calendar measure signature.
pub fn semantic_calendar_unit_from_measure_signature(signature: &[(String, i32)]) -> (r: SemanticCalendarUnit)
    requires
        signature@.len() > 0,
        signature@[0].0@ == month_name() || signature@[0].0@ == year_name(),
    ensures
        spec_calendar_unit_name(r) == signature@[0].0@,
{
    semantic_calendar_unit_from_unit_name(signature[0].0.as_str())
}

/// The calendar unit of a calendar-like measure type: from its runtime signature, or
/// `Month` when that signature is empty.
pub fn semantic_calendar_unit_from_measure_type(lemma_type: &LemmaType) -> (r: SemanticCalendarUnit)
    requires
        spec_is_calendar_like(*lemma_type),
        spec_runtime_signature(*lemma_type).len() > 0 ==> (spec_runtime_signature(*lemma_type)[0].0
            == month_name() || spec_runtime_signature(*lemma_type)[0].0 == year_name()),
    ensures
        spec_runtime_signature(*lemma_type).len() == 0 ==> r == SemanticCalendarUnit::Month,
        spec_runtime_signature(*lemma_type).len() > 0 ==> spec_calendar_unit_name(r)
            == spec_runtime_signature(*lemma_type)[0].0,
{
    let signature = lemma_type.measure_runtime_signature();
    if signature.len() == 0 {
        return SemanticCalendarUnit::Month;
    }
    proof {
        assert(sig_view(signature@)[0] == (signature@[0].0@, signature@[0].1 as int));
    }
    semantic_calendar_unit_from_measure_signature(signature.as_slice())
}

/// Value payload of a literal.
#[derive(Debug, PartialEq, Eq, Hash)]
pub enum ValueKind {
    Number(RationalInteger),
    /// Measure magnitude in canonical (base-unit) space.
    Measure(RationalInteger),
    Text(String),
    Date(SemanticDateTime),
    Time(SemanticTime),
    Boolean(bool),
    /// Ratio canonical magnitude.
    Ratio(RationalInteger),
    Range(Box<LiteralValue>, Box<LiteralValue>),
}

/// Bytes needed for a magnitude's numerator and denominator (at least one each).
pub open spec fn rational_byte_estimate(r: RationalInteger) -> int {
    let n: int = (crate::rational::bit_length(crate::rational::abs(r.num())) + 7) as int / 8;
    let d: int = (crate::rational::bit_length(crate::rational::abs(r.den())) + 7) as int / 8;
    (if n < 1 { 1 } else { n }) + (if d < 1 { 1 } else { d })
}

/// Structural byte-size estimate of a value.
pub open spec fn spec_byte_size(v: ValueKind) -> int
    decreases v,
{
    match v {
        ValueKind::Number(r) => rational_byte_estimate(r),
        ValueKind::Measure(r) => rational_byte_estimate(r),
        ValueKind::Ratio(r) => rational_byte_estimate(r),
        ValueKind::Text(s) => vstd::utf8::encode_utf8(s@).len() as int,
        ValueKind::Date(_) => 30,
        ValueKind::Time(_) => 12,
        ValueKind::Boolean(_) => 5,
        ValueKind::Range(l, r) => spec_byte_size(l.value) + 3 + spec_byte_size(r.value),
    }
}

fn rational_bytes(r: &RationalInteger) -> (n: usize)
    ensures
        n == rational_byte_estimate(*r),
{
    let nb = r.numer_magnitude_bits();
    let db = r.denom_magnitude_bits();
    let n1: usize = ((nb as usize) + 7) / 8;
    let d1: usize = ((db as usize) + 7) / 8;
    let n2: usize = if n1 < 1 { 1 } else { n1 };
    let d2: usize = if d1 < 1 { 1 } else { d1 };
    n2 + d2
}

impl ValueKind {
    /// Cheap structural byte-size estimate (an upper bound within a constant factor).
    pub fn structural_byte_size(&self) -> (n: usize)
        requires
            spec_byte_size(*self) <= usize::MAX,
        ensures
            n == spec_byte_size(*self),
        decreases *self,
    {
        match self {
            ValueKind::Number(r) => rational_bytes(r),
            ValueKind::Measure(r) => rational_bytes(r),
            ValueKind::Ratio(r) => rational_bytes(r),
            ValueKind::Text(s) => s.as_str().len(),
            ValueKind::Date(_) => 30,
            ValueKind::Time(_) => 12,
            ValueKind::Boolean(_) => 5,
            ValueKind::Range(l, r) => {
                proof {
                    assert(spec_byte_size(l.value) >= 0 && spec_byte_size(r.value) >= 0) by {
                        lemma_byte_size_nonneg(l.value);
                        lemma_byte_size_nonneg(r.value);
                    }
                }
                let a = l.value.structural_byte_size();
                let b = r.value.structural_byte_size();
                a + 3 + b
            },
        }
    }
}

proof fn lemma_byte_size_nonneg(v: ValueKind)
    ensures
        spec_byte_size(v) >= 0,
    decreases v,
{
    match v {
        ValueKind::Range(l, r) => {
            lemma_byte_size_nonneg(l.value);
            lemma_byte_size_nonneg(r.value);
        },
        _ => {},
    }
}

/// A literal value without a type.
#[derive(Debug, PartialEq, Eq, Hash)]
pub struct LiteralValue {
    pub value: ValueKind,
}

/// An exact copy of a value.
pub fn copy_value(v: &ValueKind) -> (r: ValueKind)
    ensures
        r == *v,
    decreases *v,
{
    match v {
        ValueKind::Number(n) => ValueKind::Number(*n),
        ValueKind::Measure(n) => ValueKind::Measure(*n),
        ValueKind::Text(s) => ValueKind::Text(s.clone()),
        ValueKind::Date(d) => ValueKind::Date(*d),
        ValueKind::Time(t) => ValueKind::Time(*t),
        ValueKind::Boolean(b) => ValueKind::Boolean(*b),
        ValueKind::Ratio(n) => ValueKind::Ratio(*n),
        ValueKind::Range(l, r) => {
            let lv = copy_value(&l.value);
            let rv = copy_value(&r.value);
            ValueKind::Range(Box::new(LiteralValue { value: lv }), Box::new(LiteralValue { value: rv }))
        },
    }
}

impl Clone for ValueKind {
    fn clone(&self) -> (r: Self)
        ensures
            r == *self,
    {
        copy_value(self)
    }
}

impl Clone for LiteralValue {
    fn clone(&self) -> (r: Self)
        ensures
            r == *self,
    {
        LiteralValue { value: copy_value(&self.value) }
    }
}

impl LiteralValue {
    pub fn new(value: ValueKind) -> (r: LiteralValue)
        ensures
            r.value == value,
    {
        LiteralValue { value }
    }

    pub fn text(s: String) -> (r: LiteralValue)
        ensures
            r.value == ValueKind::Text(s),
    {
        LiteralValue { value: ValueKind::Text(s) }
    }

    pub fn number(n: RationalInteger) -> (r: LiteralValue)
        ensures
            r.value == ValueKind::Number(n),
    {
        LiteralValue { value: ValueKind::Number(n) }
    }

    pub fn measure(n: RationalInteger) -> (r: LiteralValue)
        ensures
            r.value == ValueKind::Measure(n),
    {
        LiteralValue { value: ValueKind::Measure(n) }
    }

    /// A measure; the type is carried by the caller, not the value.
    pub fn measure_with_type(n: RationalInteger, _lemma_type: Arc<LemmaType>) -> (r: LiteralValue)
        ensures
            r.value == ValueKind::Measure(n),
    {
        LiteralValue::measure(n)
    }

    /// A measure; the bound unit is carried by the type, not the value.
    pub fn measure_with_bound_unit(n: RationalInteger, _unit_name: String, _lemma_type: Arc<LemmaType>) -> (r: LiteralValue)
        ensures
            r.value == ValueKind::Measure(n),
    {
        LiteralValue::measure(n)
    }

    pub fn measure_with_signature(n: RationalInteger, _lemma_type: Arc<LemmaType>) -> (r: LiteralValue)
        ensures
            r.value == ValueKind::Measure(n),
    {
        LiteralValue::measure(n)
    }

    pub fn number_with_type(n: RationalInteger, _lemma_type: Arc<LemmaType>) -> (r: LiteralValue)
        ensures
            r.value == ValueKind::Number(n),
    {
        LiteralValue::number(n)
    }

    pub fn ratio_with_type(n: RationalInteger, _lemma_type: Arc<LemmaType>) -> (r: LiteralValue)
        ensures
            r.value == ValueKind::Ratio(n),
    {
        LiteralValue::ratio(n)
    }

    pub fn ratio_with_bound_unit(n: RationalInteger, _unit_name: String, _lemma_type: Arc<LemmaType>) -> (r: LiteralValue)
        ensures
            r.value == ValueKind::Ratio(n),
    {
        LiteralValue::ratio(n)
    }

    pub fn text_with_type(s: String, _lemma_type: Arc<LemmaType>) -> (r: LiteralValue)
        ensures
            r.value == ValueKind::Text(s),
    {
        LiteralValue::text(s)
    }

    pub fn date_with_type(dt: SemanticDateTime, _lemma_type: Arc<LemmaType>) -> (r: LiteralValue)
        ensures
            r.value == ValueKind::Date(dt),
    {
        LiteralValue::date(dt)
    }

    pub fn time_with_type(t: SemanticTime, _lemma_type: Arc<LemmaType>) -> (r: LiteralValue)
        ensures
            r.value == ValueKind::Time(t),
    {
        LiteralValue::time(t)
    }

    /// A calendar quantity: a measure magnitude (unit and type are carried by the caller).
    pub fn calendar(value: RationalInteger, _unit: SemanticCalendarUnit, _lemma_type: Arc<LemmaType>) -> (r: LiteralValue)
        ensures
            r.value == ValueKind::Measure(value),
    {
        LiteralValue::measure(value)
    }

    pub fn calendar_with_type(value: RationalInteger, unit: SemanticCalendarUnit, lemma_type: Arc<LemmaType>) -> (r: LiteralValue)
        ensures
            r.value == ValueKind::Measure(value),
    {
        LiteralValue::calendar(value, unit, lemma_type)
    }

    pub fn number_interpreted_as_measure(value: RationalInteger, _unit_name: String) -> (r: LiteralValue)
        ensures
            r.value == ValueKind::Measure(value),
    {
        LiteralValue::measure(value)
    }

    pub fn from_bool(b: bool) -> (r: LiteralValue)
        ensures
            r.value == ValueKind::Boolean(b),
    {
        LiteralValue { value: ValueKind::Boolean(b) }
    }

    /// A date literal from a resolved date-time.
    pub fn from_datetime(dt: &SemanticDateTime) -> (r: LiteralValue)
        ensures
            r.value == ValueKind::Date(*dt),
    {
        LiteralValue::date(*dt)
    }

    pub fn date(dt: SemanticDateTime) -> (r: LiteralValue)
        ensures
            r.value == ValueKind::Date(dt),
    {
        LiteralValue { value: ValueKind::Date(dt) }
    }

    pub fn time(t: SemanticTime) -> (r: LiteralValue)
        ensures
            r.value == ValueKind::Time(t),
    {
        LiteralValue { value: ValueKind::Time(t) }
    }

    pub fn ratio(n: RationalInteger) -> (r: LiteralValue)
        ensures
            r.value == ValueKind::Ratio(n),
    {
        LiteralValue { value: ValueKind::Ratio(n) }
    }

    /// A number holding a decimal's exact value.
    pub fn number_from_decimal(decimal: Decimal) -> (r: LiteralValue)
        ensures
            r.value == ValueKind::Number(decimal_value(decimal)),
    {
        LiteralValue::number(rational_from_decimal(&decimal))
    }

    /// A number holding a decimal's exact value; the type is carried by the caller.
    pub fn number_with_type_from_decimal(decimal: Decimal, _lemma_type: Arc<LemmaType>) -> (r: LiteralValue)
        ensures
            r.value == ValueKind::Number(decimal_value(decimal)),
    {
        LiteralValue::number_from_decimal(decimal)
    }

    /// A calendar quantity holding a decimal's exact value.
    pub fn calendar_from_decimal(value: Decimal, unit: SemanticCalendarUnit, lemma_type: Arc<LemmaType>) -> (r: LiteralValue)
        ensures
            r.value == ValueKind::Measure(decimal_value(value)),
    {
        LiteralValue::calendar(rational_from_decimal(&value), unit, lemma_type)
    }

    /// A ratio holding a decimal's exact value.
    pub fn ratio_from_decimal(r: Decimal) -> (out: LiteralValue)
        ensures
            out.value == ValueKind::Ratio(decimal_value(r)),
    {
        LiteralValue::ratio(rational_from_decimal(&r))
    }

    pub fn range(left: LiteralValue, right: LiteralValue) -> (r: LiteralValue)
        ensures
            r.value == ValueKind::Range(Box::new(left), Box::new(right)),
    {
        LiteralValue { value: ValueKind::Range(Box::new(left), Box::new(right)) }
    }

    /// Structural byte-size estimate.
    pub fn byte_size(&self) -> (n: usize)
        requires
            spec_byte_size(self.value) <= usize::MAX,
        ensures
            n == spec_byte_size(self.value),
    {
        self.value.structural_byte_size()
    }

    /// Seconds of a duration measure: the canonical magnitude divided by the factor of
    /// the type's `second` unit.
    pub fn duration_canonical_seconds(&self, lemma_type: &LemmaType) -> (r: RationalInteger)
        requires
            self.value is Measure,
            spec_is_duration_like(*lemma_type),
            first_named(measure_unit_names_of(spec_measure_units(lemma_type.specifications)), "second"@) >= 0,
            spec_div(
                self.value->Measure_0,
                spec_measure_units(lemma_type.specifications)[first_named(
                    measure_unit_names_of(spec_measure_units(lemma_type.specifications)),
                    "second"@,
                )].factor,
            ) is Ok,
        ensures
            Ok::<RationalInteger, NumericFailure>(r) == spec_div(
                self.value->Measure_0,
                spec_measure_units(lemma_type.specifications)[first_named(
                    measure_unit_names_of(spec_measure_units(lemma_type.specifications)),
                    "second"@,
                )].factor,
            ),
    {
        let magnitude = match &self.value {
            ValueKind::Measure(m) => m,
            _ => vstd::pervasive::unreached(),
        };
        let factor = lemma_type.measure_unit_factor("second");
        match checked_div(magnitude, factor) {
            Ok(q) => q,
            Err(_) => vstd::pervasive::unreached(),
        }
    }

    /// Months of a calendar measure: the canonical magnitude divided by the factor of
    /// the type's `month` unit.
    pub fn calendar_canonical_months(&self, lemma_type: &LemmaType) -> (r: RationalInteger)
        requires
            self.value is Measure,
            spec_is_calendar_like(*lemma_type),
            first_named(measure_unit_names_of(spec_measure_units(lemma_type.specifications)), "month"@) >= 0,
            spec_div(
                self.value->Measure_0,
                spec_measure_units(lemma_type.specifications)[first_named(
                    measure_unit_names_of(spec_measure_units(lemma_type.specifications)),
                    "month"@,
                )].factor,
            ) is Ok,
        ensures
            Ok::<RationalInteger, NumericFailure>(r) == spec_div(
                self.value->Measure_0,
                spec_measure_units(lemma_type.specifications)[first_named(
                    measure_unit_names_of(spec_measure_units(lemma_type.specifications)),
                    "month"@,
                )].factor,
            ),
    {
        let magnitude = match &self.value {
            ValueKind::Measure(m) => m,
            _ => vstd::pervasive::unreached(),
        };
        let factor = lemma_type.measure_unit_factor("month");
        match checked_div(magnitude, factor) {
            Ok(q) => q,
            Err(_) => vstd::pervasive::unreached(),
        }
    }
}


/// A copy of a type: names, extension and binding equal, the specification a clone.
pub fn copy_lemma_type(t: &LemmaType) -> (r: LemmaType)
    ensures
        r.name == t.name,
        r.extends == t.extends,
        r.measure_binding_unit == t.measure_binding_unit,
        crate::equality::spec_eq(r.specifications, t.specifications),
{
    let name = match &t.name {
        Some(n) => Some(n.clone()),
        None => None,
    };
    let binding = match &t.measure_binding_unit {
        Some(n) => Some(n.clone()),
        None => None,
    };
    LemmaType {
        name,
        specifications: crate::equality::copy_specification(&t.specifications),
        extends: t.extends.duplicate(),
        measure_binding_unit: binding,
    }
}

/// Primitive type of a specification kind, shared behind an `Arc`.
pub fn primitive_boolean_arc() -> (r: Arc<LemmaType>)
    ensures
        r.name is None && r.extends == TypeExtends::Primitive && r.measure_binding_unit is None
            && r.specifications is Boolean,
{
    Arc::new(LemmaType::primitive(TypeSpecification::boolean()))
}

pub fn primitive_number_arc() -> (r: Arc<LemmaType>)
    ensures
        r.name is None && r.extends == TypeExtends::Primitive && r.measure_binding_unit is None
            && r.specifications is Number,
{
    Arc::new(LemmaType::primitive(TypeSpecification::number()))
}

pub fn primitive_text_arc() -> (r: Arc<LemmaType>)
    ensures
        r.name is None && r.extends == TypeExtends::Primitive && r.measure_binding_unit is None
            && r.specifications is Text,
{
    Arc::new(LemmaType::primitive(TypeSpecification::text()))
}

pub fn primitive_date_arc() -> (r: Arc<LemmaType>)
    ensures
        r.name is None && r.extends == TypeExtends::Primitive && r.measure_binding_unit is None
            && r.specifications is Date,
{
    Arc::new(LemmaType::primitive(TypeSpecification::date()))
}

pub fn primitive_date_range_arc() -> (r: Arc<LemmaType>)
    ensures
        r.name is None && r.extends == TypeExtends::Primitive && r.measure_binding_unit is None
            && r.specifications is DateRange,
{
    Arc::new(LemmaType::primitive(TypeSpecification::date_range()))
}

pub fn primitive_time_arc() -> (r: Arc<LemmaType>)
    ensures
        r.name is None && r.extends == TypeExtends::Primitive && r.measure_binding_unit is None
            && r.specifications is Time,
{
    Arc::new(LemmaType::primitive(TypeSpecification::time()))
}

pub fn primitive_ratio_arc() -> (r: Arc<LemmaType>)
    ensures
        r.name is None && r.extends == TypeExtends::Primitive && r.measure_binding_unit is None
            && r.specifications is Ratio,
{
    Arc::new(LemmaType::primitive(TypeSpecification::ratio()))
}

/// Whether a value has the shape a specification accepts (bounds are checked elsewhere).
pub open spec fn spec_value_matches(value: ValueKind, s: TypeSpecification) -> bool {
    match (s, value) {
        (TypeSpecification::Number { .. }, ValueKind::Number(_)) => true,
        (TypeSpecification::Text { .. }, ValueKind::Text(_)) => true,
        (TypeSpecification::Boolean { .. }, ValueKind::Boolean(_)) => true,
        (TypeSpecification::Date { .. }, ValueKind::Date(_)) => true,
        (TypeSpecification::Time { .. }, ValueKind::Time(_)) => true,
        (TypeSpecification::Measure { .. }, ValueKind::Measure(_)) => true,
        (TypeSpecification::Ratio { .. }, ValueKind::Ratio(_)) => true,
        (TypeSpecification::Ratio { .. }, ValueKind::Number(_)) => true,
        (TypeSpecification::NumberRange { .. }, ValueKind::Range(_, _)) => true,
        (TypeSpecification::DateRange { .. }, ValueKind::Range(_, _)) => true,
        (TypeSpecification::TimeRange { .. }, ValueKind::Range(_, _)) => true,
        (TypeSpecification::RatioRange { .. }, ValueKind::Range(_, _)) => true,
        (TypeSpecification::MeasureRange { .. }, ValueKind::Range(_, _)) => true,
        (TypeSpecification::Veto { .. }, _) => true,
        (TypeSpecification::Undetermined, _) => true,
        _ => false,
    }
}

/// Whether a value has the shape a specification accepts.
pub fn value_kind_matches_spec(value: &ValueKind, type_spec: &TypeSpecification) -> (b: bool)
    ensures
        b == spec_value_matches(*value, *type_spec),
{
    match (type_spec, value) {
        (TypeSpecification::Number { .. }, ValueKind::Number(_)) => true,
        (TypeSpecification::Text { .. }, ValueKind::Text(_)) => true,
        (TypeSpecification::Boolean { .. }, ValueKind::Boolean(_)) => true,
        (TypeSpecification::Date { .. }, ValueKind::Date(_)) => true,
        (TypeSpecification::Time { .. }, ValueKind::Time(_)) => true,
        (TypeSpecification::Measure { .. }, ValueKind::Measure(_)) => true,
        (TypeSpecification::Ratio { .. }, ValueKind::Ratio(_)) => true,
        (TypeSpecification::Ratio { .. }, ValueKind::Number(_)) => true,
        (TypeSpecification::NumberRange { .. }, ValueKind::Range(_, _)) => true,
        (TypeSpecification::DateRange { .. }, ValueKind::Range(_, _)) => true,
        (TypeSpecification::TimeRange { .. }, ValueKind::Range(_, _)) => true,
        (TypeSpecification::RatioRange { .. }, ValueKind::Range(_, _)) => true,
        (TypeSpecification::MeasureRange { .. }, ValueKind::Range(_, _)) => true,
        (TypeSpecification::Veto { .. }, _) => true,
        (TypeSpecification::Undetermined, _) => true,
        _ => false,
    }
}


/// Whether two endpoint types can form a range: both dates, both times, both numbers,
/// both ratios, or both measures of one family or of equal decomposition with an
/// anonymous side.
pub open spec fn spec_endpoints_compatible(left: LemmaType, right: LemmaType) -> bool {
    match (left.specifications, right.specifications) {
        (TypeSpecification::Date { .. }, TypeSpecification::Date { .. }) => true,
        (TypeSpecification::Time { .. }, TypeSpecification::Time { .. }) => true,
        (TypeSpecification::Number { .. }, TypeSpecification::Number { .. }) => true,
        (TypeSpecification::Ratio { .. }, TypeSpecification::Ratio { .. }) => true,
        (TypeSpecification::Measure { .. }, TypeSpecification::Measure { .. }) => {
            (spec_measure_family_name(left) is Some && spec_measure_family_name(left)
                == spec_measure_family_name(right)) || ((spec_is_anonymous_measure(left)
                || spec_is_anonymous_measure(right)) && spec_measure_decomposition(left) is Some
                && spec_measure_decomposition(left) == spec_measure_decomposition(right))
        },
        _ => false,
    }
}

fn range_endpoints_compatible(left: &LemmaType, right: &LemmaType) -> (b: bool)
    ensures
        b == spec_endpoints_compatible(*left, *right),
{
    match (&left.specifications, &right.specifications) {
        (TypeSpecification::Date { .. }, TypeSpecification::Date { .. }) => true,
        (TypeSpecification::Time { .. }, TypeSpecification::Time { .. }) => true,
        (TypeSpecification::Number { .. }, TypeSpecification::Number { .. }) => true,
        (TypeSpecification::Ratio { .. }, TypeSpecification::Ratio { .. }) => true,
        (TypeSpecification::Measure { .. }, TypeSpecification::Measure { .. }) => {
            left.same_measure_family(right) || left.compatible_with_anonymous_measure(right)
                || right.compatible_with_anonymous_measure(left)
        },
        _ => false,
    }
}

/// Range specification inferred from two compatible endpoint types.
pub fn range_type_specification_from_endpoints(left: &LemmaType, right: &LemmaType) -> (r: Option<TypeSpecification>)
    ensures
        !spec_endpoints_compatible(*left, *right) ==> r is None,
        spec_endpoints_compatible(*left, *right) ==> spec_range_of_element(left.specifications, r),
{
    if !range_endpoints_compatible(left, right) {
        return None;
    }
    left.specifications.range_from_element()
}

/// A literal value with its resolved type.
#[derive(Debug, Clone, PartialEq, Eq, Hash)]
pub struct TypedLiteral {
    pub value: ValueKind,
    pub lemma_type: Arc<LemmaType>,
}

impl TypedLiteral {
    /// The value without its type.
    pub fn to_literal(&self) -> (r: LiteralValue)
        ensures
            r.value == self.value,
    {
        LiteralValue { value: copy_value(&self.value) }
    }

    /// The value without its type, consuming the literal.
    pub fn into_literal(self) -> (r: LiteralValue)
        ensures
            r.value == self.value,
    {
        LiteralValue { value: self.value }
    }

    pub fn text(s: String) -> (r: TypedLiteral)
        ensures
            r.value == ValueKind::Text(s),
            r.lemma_type.specifications is Text && r.lemma_type.name is None,
    {
        TypedLiteral { value: ValueKind::Text(s), lemma_type: primitive_text_arc() }
    }

    pub fn text_with_type(s: String, lemma_type: Arc<LemmaType>) -> (r: TypedLiteral)
        ensures
            r == (TypedLiteral { value: ValueKind::Text(s), lemma_type }),
    {
        TypedLiteral { value: ValueKind::Text(s), lemma_type }
    }

    pub fn number(n: RationalInteger) -> (r: TypedLiteral)
        ensures
            r.value == ValueKind::Number(n),
            r.lemma_type.specifications is Number && r.lemma_type.name is None,
    {
        TypedLiteral { value: ValueKind::Number(n), lemma_type: primitive_number_arc() }
    }

    pub fn number_with_type(n: RationalInteger, lemma_type: Arc<LemmaType>) -> (r: TypedLiteral)
        ensures
            r == (TypedLiteral { value: ValueKind::Number(n), lemma_type }),
    {
        TypedLiteral { value: ValueKind::Number(n), lemma_type }
    }

    pub fn measure_with_type(n: RationalInteger, lemma_type: Arc<LemmaType>) -> (r: TypedLiteral)
        ensures
            r == (TypedLiteral { value: ValueKind::Measure(n), lemma_type }),
    {
        TypedLiteral { value: ValueKind::Measure(n), lemma_type }
    }

    pub fn measure_with_signature(n: RationalInteger, lemma_type: Arc<LemmaType>) -> (r: TypedLiteral)
        ensures
            r == (TypedLiteral { value: ValueKind::Measure(n), lemma_type }),
    {
        TypedLiteral { value: ValueKind::Measure(n), lemma_type }
    }

    /// A measure whose type (a copy of `lemma_type`) is bound to `unit_name`.
    pub fn measure_with_bound_unit(n: RationalInteger, unit_name: String, lemma_type: Arc<LemmaType>) -> (r: TypedLiteral)
        ensures
            r.value == ValueKind::Measure(n),
            r.lemma_type.measure_binding_unit == Some(unit_name),
            r.lemma_type.name == lemma_type.name,
            r.lemma_type.extends == lemma_type.extends,
            crate::equality::spec_eq(r.lemma_type.specifications, lemma_type.specifications),
    {
        let copy = copy_lemma_type(&*lemma_type);
        TypedLiteral { value: ValueKind::Measure(n), lemma_type: Arc::new(copy.with_measure_binding_unit(unit_name)) }
    }

    /// A number read as a measure in `unit_name`: an anonymous measure type of
    /// decomposition `{unit_name: 1}`, or dimensionless for an empty name.
    pub fn number_interpreted_as_measure(value: RationalInteger, unit_name: String) -> (r: TypedLiteral)
        ensures
            r.value == ValueKind::Measure(value),
            spec_is_anonymous_measure(*r.lemma_type),
            r.lemma_type.measure_binding_unit is None,
            unit_name@.len() == 0 ==> spec_measure_decomposition(*r.lemma_type) == Some(Seq::<(Seq<char>, int)>::empty()),
            unit_name@.len() > 0 ==> spec_measure_decomposition(*r.lemma_type) == Some(seq![(unit_name@, 1int)]),
    {
        let lemma_type = if unit_name.as_str().is_empty() {
            Arc::new(anonymous_measure_type())
        } else {
            Arc::new(LemmaType::anonymous_for_decomposition(BaseMeasureVector::single(unit_name, 1)))
        };
        TypedLiteral { value: ValueKind::Measure(value), lemma_type }
    }

    pub fn from_bool(b: bool) -> (r: TypedLiteral)
        ensures
            r.value == ValueKind::Boolean(b),
            r.lemma_type.specifications is Boolean && r.lemma_type.name is None,
    {
        TypedLiteral { value: ValueKind::Boolean(b), lemma_type: primitive_boolean_arc() }
    }

    pub fn from_datetime(dt: &SemanticDateTime) -> (r: TypedLiteral)
        ensures
            r.value == ValueKind::Date(*dt),
            r.lemma_type.specifications is Date && r.lemma_type.name is None,
    {
        TypedLiteral::date(*dt)
    }

    pub fn date(dt: SemanticDateTime) -> (r: TypedLiteral)
        ensures
            r.value == ValueKind::Date(dt),
            r.lemma_type.specifications is Date && r.lemma_type.name is None,
    {
        TypedLiteral { value: ValueKind::Date(dt), lemma_type: primitive_date_arc() }
    }

    pub fn date_with_type(dt: SemanticDateTime, lemma_type: Arc<LemmaType>) -> (r: TypedLiteral)
        ensures
            r == (TypedLiteral { value: ValueKind::Date(dt), lemma_type }),
    {
        TypedLiteral { value: ValueKind::Date(dt), lemma_type }
    }

    pub fn time(t: SemanticTime) -> (r: TypedLiteral)
        ensures
            r.value == ValueKind::Time(t),
            r.lemma_type.specifications is Time && r.lemma_type.name is None,
    {
        TypedLiteral { value: ValueKind::Time(t), lemma_type: primitive_time_arc() }
    }

    pub fn time_with_type(t: SemanticTime, lemma_type: Arc<LemmaType>) -> (r: TypedLiteral)
        ensures
            r == (TypedLiteral { value: ValueKind::Time(t), lemma_type }),
    {
        TypedLiteral { value: ValueKind::Time(t), lemma_type }
    }

    /// A calendar quantity: a measure bound to the unit's name.
    pub fn calendar(value: RationalInteger, unit: SemanticCalendarUnit, lemma_type: Arc<LemmaType>) -> (r: TypedLiteral)
        ensures
            r.value == ValueKind::Measure(value),
            r.lemma_type.measure_binding_unit is Some
                && r.lemma_type.measure_binding_unit->0@ == spec_calendar_unit_name(unit),
            r.lemma_type.name == lemma_type.name,
            r.lemma_type.extends == lemma_type.extends,
            crate::equality::spec_eq(r.lemma_type.specifications, lemma_type.specifications),
    {
        let unit_name = unit.to_name();
        TypedLiteral::measure_with_bound_unit(value, unit_name, lemma_type)
    }

    pub fn calendar_with_type(value: RationalInteger, unit: SemanticCalendarUnit, lemma_type: Arc<LemmaType>) -> (r: TypedLiteral)
        ensures
            r.value == ValueKind::Measure(value),
            r.lemma_type.measure_binding_unit is Some
                && r.lemma_type.measure_binding_unit->0@ == spec_calendar_unit_name(unit),
            r.lemma_type.name == lemma_type.name,
            r.lemma_type.extends == lemma_type.extends,
            crate::equality::spec_eq(r.lemma_type.specifications, lemma_type.specifications),
    {
        TypedLiteral::calendar(value, unit, lemma_type)
    }

    pub fn ratio(n: RationalInteger) -> (r: TypedLiteral)
        ensures
            r.value == ValueKind::Ratio(n),
            r.lemma_type.specifications is Ratio && r.lemma_type.name is None,
    {
        TypedLiteral { value: ValueKind::Ratio(n), lemma_type: primitive_ratio_arc() }
    }

    /// A primitive number holding a decimal's exact value.
    pub fn number_from_decimal(decimal: Decimal) -> (r: TypedLiteral)
        ensures
            r.value == ValueKind::Number(decimal_value(decimal)),
            r.lemma_type.specifications is Number && r.lemma_type.name is None,
    {
        TypedLiteral::number(rational_from_decimal(&decimal))
    }

    /// A number of the given type holding a decimal's exact value.
    pub fn number_with_type_from_decimal(decimal: Decimal, lemma_type: Arc<LemmaType>) -> (r: TypedLiteral)
        ensures
            r.value == ValueKind::Number(decimal_value(decimal)),
            r.lemma_type == lemma_type,
    {
        TypedLiteral::number_with_type(rational_from_decimal(&decimal), lemma_type)
    }

    /// A calendar quantity holding a decimal's exact value, bound to the unit's name.
    pub fn calendar_from_decimal(value: Decimal, unit: SemanticCalendarUnit, lemma_type: Arc<LemmaType>) -> (r: TypedLiteral)
        ensures
            r.value == ValueKind::Measure(decimal_value(value)),
            r.lemma_type.measure_binding_unit is Some
                && r.lemma_type.measure_binding_unit->0@ == spec_calendar_unit_name(unit),
            r.lemma_type.name == lemma_type.name,
            r.lemma_type.extends == lemma_type.extends,
            crate::equality::spec_eq(r.lemma_type.specifications, lemma_type.specifications),
    {
        TypedLiteral::calendar(rational_from_decimal(&value), unit, lemma_type)
    }

    /// A primitive ratio holding a decimal's exact value.
    pub fn ratio_from_decimal(r: Decimal) -> (out: TypedLiteral)
        ensures
            out.value == ValueKind::Ratio(decimal_value(r)),
            out.lemma_type.specifications is Ratio && out.lemma_type.name is None,
    {
        TypedLiteral::ratio(rational_from_decimal(&r))
    }

    pub fn ratio_with_type(n: RationalInteger, lemma_type: Arc<LemmaType>) -> (r: TypedLiteral)
        ensures
            r == (TypedLiteral { value: ValueKind::Ratio(n), lemma_type }),
    {
        TypedLiteral { value: ValueKind::Ratio(n), lemma_type }
    }

    /// A ratio whose type (a copy of `lemma_type`) is bound to `unit_name`.
    pub fn ratio_with_bound_unit(n: RationalInteger, unit_name: String, lemma_type: Arc<LemmaType>) -> (r: TypedLiteral)
        ensures
            r.value == ValueKind::Ratio(n),
            r.lemma_type.measure_binding_unit == Some(unit_name),
            r.lemma_type.name == lemma_type.name,
            r.lemma_type.extends == lemma_type.extends,
            crate::equality::spec_eq(r.lemma_type.specifications, lemma_type.specifications),
    {
        let copy = copy_lemma_type(&*lemma_type);
        TypedLiteral { value: ValueKind::Ratio(n), lemma_type: Arc::new(copy.with_measure_binding_unit(unit_name)) }
    }

    /// A range literal of two compatible endpoints, typed by the range built from the
    /// left endpoint's type.
    pub fn range(left: TypedLiteral, right: TypedLiteral) -> (r: TypedLiteral)
        requires
            spec_endpoints_compatible(*left.lemma_type, *right.lemma_type),
        ensures
            r.value == ValueKind::Range(Box::new(LiteralValue { value: left.value }), Box::new(LiteralValue { value: right.value })),
            r.lemma_type.name is None && r.lemma_type.extends == TypeExtends::Primitive
                && r.lemma_type.measure_binding_unit is None,
            spec_range_of_element(left.lemma_type.specifications, Some(r.lemma_type.specifications)),
    {
        let specifications = match range_type_specification_from_endpoints(&*left.lemma_type, &*right.lemma_type) {
            Some(s) => s,
            None => vstd::pervasive::unreached(),
        };
        TypedLiteral {
            value: ValueKind::Range(Box::new(left.into_literal()), Box::new(right.into_literal())),
            lemma_type: Arc::new(LemmaType::primitive(specifications)),
        }
    }

    /// The literal's type.
    pub fn get_type(&self) -> (r: &LemmaType)
        ensures
            *r == *self.lemma_type,
    {
        &*self.lemma_type
    }

    /// Structural byte-size estimate.
    pub fn byte_size(&self) -> (n: usize)
        requires
            spec_byte_size(self.value) <= usize::MAX,
        ensures
            n == spec_byte_size(self.value),
    {
        self.value.structural_byte_size()
    }
}

/// The single unit, with exponent one, of a runtime signature.
pub open spec fn single_unit(sig: SigView) -> Option<Seq<char>> {
    if sig.len() == 1 && sig[0].1 == 1 {
        Some(sig[0].0)
    } else {
        None
    }
}

/// A measure literal re-canonicalized after its type's unit factors were resolved:
/// when the previous type's runtime signature is a single unit whose factor changed,
/// the magnitude is multiplied by the resolved factor and divided by the stored one.
/// Other values are unchanged.
pub open spec fn spec_refresh(v: ValueKind, previous: LemmaType, resolved: LemmaType) -> Result<ValueKind, NumericFailure> {
    match v {
        ValueKind::Measure(m) => match single_unit(spec_runtime_signature(previous)) {
            Some(name) => {
                let stored = spec_measure_unit_factor(previous, name);
                let now = spec_measure_unit_factor(resolved, name);
                if stored == now {
                    Ok(v)
                } else {
                    match spec_mul(m, now) {
                        Ok(scaled) => match spec_div(scaled, stored) {
                            Ok(x) => Ok(ValueKind::Measure(x)),
                            Err(e) => Err(e),
                        },
                        Err(e) => Err(e),
                    }
                }
            },
            None => Ok(v),
        },
        _ => Ok(v),
    }
}

/// What refreshing a measure literal needs: a measure previous type, and the single
/// runtime unit (when there is one) declared on both types.
pub open spec fn refresh_ready(v: ValueKind, previous: LemmaType, resolved: LemmaType) -> bool {
    v is Measure ==> {
        &&& (previous.measure_binding_unit is Some || previous.specifications is Measure
            || previous.specifications is MeasureRange)
        &&& (single_unit(spec_runtime_signature(previous)) matches Some(name) ==> declares_measure_unit(previous, name)
            && declares_measure_unit(resolved, name))
    }
}

/// Re-canonicalize a measure literal after compound unit factors were resolved. A
/// literal canonicalized with its unit's earlier factor is multiplied by
/// `resolved_factor / stored_factor`; on failure the literal is left as it was.
pub fn refresh_measure_literal_canonical_magnitude(
    lit: &mut LiteralValue,
    previous_type: &LemmaType,
    resolved_type: &LemmaType,
) -> (r: Result<(), NumericFailure>)
    requires
        refresh_ready(old(lit).value, *previous_type, *resolved_type),
    ensures
        match spec_refresh(old(lit).value, *previous_type, *resolved_type) {
            Ok(v) => r is Ok && final(lit).value == v,
            Err(e) => r == Err::<(), NumericFailure>(e) && *final(lit) == *old(lit),
        },
{
    let magnitude = match &lit.value {
        ValueKind::Measure(m) => *m,
        _ => {
            return Ok(());
        },
    };
    let signature = previous_type.measure_runtime_signature();
    if signature.len() != 1 || signature[0].1 != 1 {
        proof {
            assert(sig_view(signature@).len() == signature@.len());
            if signature@.len() == 1 {
                assert(sig_view(signature@)[0].1 == signature@[0].1 as int);
            }
        }
        return Ok(());
    }
    let unit_name = signature[0].0.as_str();
    proof {
        assert(sig_view(signature@)[0].0 == signature@[0].0@);
        assert(single_unit(spec_runtime_signature(*previous_type)) == Some(unit_name@));
    }
    let stored_factor = previous_type.measure_unit_factor(unit_name);
    let resolved_factor = resolved_type.measure_unit_factor(unit_name);
    if *stored_factor == *resolved_factor {
        return Ok(());
    }
    let scaled = match checked_mul(&magnitude, resolved_factor) {
        Ok(s) => s,
        Err(e) => {
            return Err(e);
        },
    };
    let refreshed = match checked_div(&scaled, stored_factor) {
        Ok(x) => x,
        Err(e) => {
            return Err(e);
        },
    };
    lit.value = ValueKind::Measure(refreshed);
    Ok(())
}

} // verus!
