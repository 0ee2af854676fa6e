//! Structural equality of resolved types: the same comparison the types' derived
//! equality makes, stated over views and decided by verified code.

use vstd::prelude::*;
use crate::rational::RationalInteger;
use crate::text::compare_text;
use crate::types::{LemmaType, TypeExtends, TypeSpecification};
use crate::units::{BaseMeasureVector, MeasureTrait, MeasureUnit, MeasureUnits, RatioUnit, RatioUnits};

verus! {

pub open spec fn opt_text_eq(a: Option<String>, b: Option<String>) -> bool {
    match (a, b) {
        (Some(x), Some(y)) => x@ == y@,
        (None, None) => true,
        _ => false,
    }
}

pub open spec fn bound_eq(a: Option<(RationalInteger, String)>, b: Option<(RationalInteger, String)>) -> bool {
    match (a, b) {
        (Some(x), Some(y)) => x.0 == y.0 && x.1@ == y.1@,
        (None, None) => true,
        _ => false,
    }
}

pub open spec fn decomposition_eq(a: Option<BaseMeasureVector>, b: Option<BaseMeasureVector>) -> bool {
    match (a, b) {
        (Some(x), Some(y)) => x@ == y@,
        (None, None) => true,
        _ => false,
    }
}

pub open spec fn measure_unit_eq(a: MeasureUnit, b: MeasureUnit) -> bool {
    &&& a.name@ == b.name@
    &&& a.factor == b.factor
    &&& a.decomposition@ == b.decomposition@
    &&& a.minimum == b.minimum
    &&& a.maximum == b.maximum
    &&& a.suggestion_magnitude == b.suggestion_magnitude
}

pub open spec fn measure_units_eq(a: Seq<MeasureUnit>, b: Seq<MeasureUnit>) -> bool {
    a.len() == b.len() && forall|i: int| 0 <= i < a.len() ==> #[trigger] measure_unit_eq(a[i], b[i])
}

pub open spec fn ratio_unit_eq(a: RatioUnit, b: RatioUnit) -> bool {
    &&& a.name@ == b.name@
    &&& a.value == b.value
    &&& a.minimum == b.minimum
    &&& a.maximum == b.maximum
    &&& a.suggestion_magnitude == b.suggestion_magnitude
}

pub open spec fn ratio_units_eq(a: Seq<RatioUnit>, b: Seq<RatioUnit>) -> bool {
    a.len() == b.len() && forall|i: int| 0 <= i < a.len() ==> #[trigger] ratio_unit_eq(a[i], b[i])
}

pub open spec fn texts_eq(a: Seq<String>, b: Seq<String>) -> bool {
    a.len() == b.len() && forall|i: int| 0 <= i < a.len() ==> #[trigger] a[i]@ == b[i]@
}

/// Field-by-field equality of two specifications.
pub open spec fn spec_eq(a: TypeSpecification, b: TypeSpecification) -> bool {
    match (a, b) {
        (TypeSpecification::Boolean { help: h1 }, TypeSpecification::Boolean { help: h2 }) => h1@ == h2@,
        (
            TypeSpecification::Measure { minimum: a1, maximum: a2, decimals: a3, units: a4, traits: a5, decomposition: a6, help: a7 },
            TypeSpecification::Measure { minimum: b1, maximum: b2, decimals: b3, units: b4, traits: b5, decomposition: b6, help: b7 },
        ) => bound_eq(a1, b1) && bound_eq(a2, b2) && a3 == b3 && measure_units_eq(a4.0@, b4.0@) && a5@ == b5@
            && decomposition_eq(a6, b6) && a7@ == b7@,
        (
            TypeSpecification::Number { minimum: a1, maximum: a2, decimals: a3, help: a4 },
            TypeSpecification::Number { minimum: b1, maximum: b2, decimals: b3, help: b4 },
        ) => a1 == b1 && a2 == b2 && a3 == b3 && a4@ == b4@,
        (
            TypeSpecification::NumberRange { lower: a1, upper: a2, minimum: a3, maximum: a4, help: a5 },
            TypeSpecification::NumberRange { lower: b1, upper: b2, minimum: b3, maximum: b4, help: b5 },
        ) => a1 == b1 && a2 == b2 && a3 == b3 && a4 == b4 && a5@ == b5@,
        (
            TypeSpecification::Ratio { minimum: a1, maximum: a2, decimals: a3, units: a4, help: a5 },
            TypeSpecification::Ratio { minimum: b1, maximum: b2, decimals: b3, units: b4, help: b5 },
        ) => a1 == b1 && a2 == b2 && a3 == b3 && ratio_units_eq(a4.0@, b4.0@) && a5@ == b5@,
        (
            TypeSpecification::RatioRange { lower: a1, upper: a2, minimum: a3, maximum: a4, units: a5, help: a6 },
            TypeSpecification::RatioRange { lower: b1, upper: b2, minimum: b3, maximum: b4, units: b5, help: b6 },
        ) => a1 == b1 && a2 == b2 && a3 == b3 && a4 == b4 && ratio_units_eq(a5.0@, b5.0@) && a6@ == b6@,
        (
            TypeSpecification::Text { length: a1, options: a2, help: a3 },
            TypeSpecification::Text { length: b1, options: b2, help: b3 },
        ) => a1 == b1 && texts_eq(a2@, b2@) && a3@ == b3@,
        (
            TypeSpecification::Date { minimum: a1, maximum: a2, help: a3 },
            TypeSpecification::Date { minimum: b1, maximum: b2, help: b3 },
        ) => a1 == b1 && a2 == b2 && a3@ == b3@,
        (
            TypeSpecification::DateRange { lower: a1, upper: a2, minimum: a3, maximum: a4, help: a5 },
            TypeSpecification::DateRange { lower: b1, upper: b2, minimum: b3, maximum: b4, help: b5 },
        ) => a1 == b1 && a2 == b2 && bound_eq(a3, b3) && bound_eq(a4, b4) && a5@ == b5@,
        (
            TypeSpecification::Time { minimum: a1, maximum: a2, help: a3 },
            TypeSpecification::Time { minimum: b1, maximum: b2, help: b3 },
        ) => a1 == b1 && a2 == b2 && a3@ == b3@,
        (
            TypeSpecification::TimeRange { lower: a1, upper: a2, minimum: a3, maximum: a4, help: a5 },
            TypeSpecification::TimeRange { lower: b1, upper: b2, minimum: b3, maximum: b4, help: b5 },
        ) => a1 == b1 && a2 == b2 && bound_eq(a3, b3) && bound_eq(a4, b4) && a5@ == b5@,
        (
            TypeSpecification::MeasureRange { lower: a1, upper: a2, minimum: a3, maximum: a4, units: a5, decomposition: a6, help: a7 },
            TypeSpecification::MeasureRange { lower: b1, upper: b2, minimum: b3, maximum: b4, units: b5, decomposition: b6, help: b7 },
        ) => bound_eq(a1, b1) && bound_eq(a2, b2) && bound_eq(a3, b3) && bound_eq(a4, b4)
            && measure_units_eq(a5.0@, b5.0@) && decomposition_eq(a6, b6) && a7@ == b7@,
        (TypeSpecification::Veto { message: m1 }, TypeSpecification::Veto { message: m2 }) => opt_text_eq(m1, m2),
        (TypeSpecification::Undetermined, TypeSpecification::Undetermined) => true,
        _ => false,
    }
}

pub open spec fn extends_eq(a: TypeExtends, b: TypeExtends) -> bool {
    match (a, b) {
        (TypeExtends::Primitive, TypeExtends::Primitive) => true,
        (
            TypeExtends::Custom { parent: p1, family: f1, defining_spec: d1 },
            TypeExtends::Custom { parent: p2, family: f2, defining_spec: d2 },
        ) => p1@ == p2@ && f1@ == f2@ && d1 == d2,
        _ => false,
    }
}

/// Field-by-field equality of two types.
pub open spec fn lemma_type_eq(a: LemmaType, b: LemmaType) -> bool {
    &&& opt_text_eq(a.name, b.name)
    &&& spec_eq(a.specifications, b.specifications)
    &&& extends_eq(a.extends, b.extends)
    &&& opt_text_eq(a.measure_binding_unit, b.measure_binding_unit)
}

fn text_eq(a: &String, b: &String) -> (r: bool)
    ensures
        r == (a@ == b@),
{
    compare_text(a.as_str(), b.as_str()) == 0
}

fn opt_text_same(a: &Option<String>, b: &Option<String>) -> (r: bool)
    ensures
        r == opt_text_eq(*a, *b),
{
    match (a, b) {
        (Some(x), Some(y)) => text_eq(x, y),
        (None, None) => true,
        _ => false,
    }
}

fn bound_same(a: &Option<(RationalInteger, String)>, b: &Option<(RationalInteger, String)>) -> (r: bool)
    ensures
        r == bound_eq(*a, *b),
{
    match (a, b) {
        (Some(x), Some(y)) => x.0 == y.0 && text_eq(&x.1, &y.1),
        (None, None) => true,
        _ => false,
    }
}

/// Whether two optional decompositions are equal.
pub fn decomposition_same(a: &Option<BaseMeasureVector>, b: &Option<BaseMeasureVector>) -> (r: bool)
    ensures
        r == decomposition_eq(*a, *b),
{
    match (a, b) {
        (Some(x), Some(y)) => x.same_as(y),
        (None, None) => true,
        _ => false,
    }
}

/// Whether two measure unit tables are equal.
pub fn measure_units_same(a: &MeasureUnits, b: &MeasureUnits) -> (r: bool)
    ensures
        r == measure_units_eq(a.0@, b.0@),
{
    let n = a.0.len();
    if n != b.0.len() {
        return false;
    }
    let mut i: usize = 0;
    while i < n
        invariant
            n == a.0@.len(),
            n == b.0@.len(),
            i <= n,
            forall|j: int| 0 <= j < i ==> #[trigger] measure_unit_eq(a.0@[j], b.0@[j]),
        decreases n - i,
    {
        let x = &a.0[i];
        let y = &b.0[i];
        if !(text_eq(&x.name, &y.name) && x.factor == y.factor && x.decomposition.same_as(&y.decomposition)
            && x.minimum == y.minimum && x.maximum == y.maximum && x.suggestion_magnitude == y.suggestion_magnitude) {
            proof {
                assert(!measure_unit_eq(a.0@[i as int], b.0@[i as int]));
            }
            return false;
        }
        i = i + 1;
    }
    true
}

/// Whether two ratio unit tables are equal.
pub fn ratio_units_same(a: &RatioUnits, b: &RatioUnits) -> (r: bool)
    ensures
        r == ratio_units_eq(a.0@, b.0@),
{
    let n = a.0.len();
    if n != b.0.len() {
        return false;
    }
    let mut i: usize = 0;
    while i < n
        invariant
            n == a.0@.len(),
            n == b.0@.len(),
            i <= n,
            forall|j: int| 0 <= j < i ==> #[trigger] ratio_unit_eq(a.0@[j], b.0@[j]),
        decreases n - i,
    {
        let x = &a.0[i];
        let y = &b.0[i];
        if !(text_eq(&x.name, &y.name) && x.value == y.value && x.minimum == y.minimum && x.maximum == y.maximum
            && x.suggestion_magnitude == y.suggestion_magnitude) {
            proof {
                assert(!ratio_unit_eq(a.0@[i as int], b.0@[i as int]));
            }
            return false;
        }
        i = i + 1;
    }
    true
}

fn texts_same(a: &Vec<String>, b: &Vec<String>) -> (r: bool)
    ensures
        r == texts_eq(a@, b@),
{
    let n = a.len();
    if n != b.len() {
        return false;
    }
    let mut i: usize = 0;
    while i < n
        invariant
            n == a@.len(),
            n == b@.len(),
            i <= n,
            forall|j: int| 0 <= j < i ==> #[trigger] a@[j]@ == b@[j]@,
        decreases n - i,
    {
        if !text_eq(&a[i], &b[i]) {
            return false;
        }
        i = i + 1;
    }
    true
}

fn traits_same(a: &Vec<MeasureTrait>, b: &Vec<MeasureTrait>) -> (r: bool)
    ensures
        r == (a@ == b@),
{
    let n = a.len();
    if n != b.len() {
        return false;
    }
    let mut i: usize = 0;
    while i < n
        invariant
            n == a@.len(),
            n == b@.len(),
            i <= n,
            forall|j: int| 0 <= j < i ==> a@[j] == b@[j],
        decreases n - i,
    {
        if a[i] != b[i] {
            return false;
        }
        i = i + 1;
    }
    proof {
        assert(a@ =~= b@);
    }
    true
}

/// Whether two specifications are equal field by field.
pub fn specification_same(a: &TypeSpecification, b: &TypeSpecification) -> (r: bool)
    ensures
        r == spec_eq(*a, *b),
{
    match (a, b) {
        (TypeSpecification::Boolean { help: h1 }, TypeSpecification::Boolean { help: h2 }) => text_eq(h1, h2),
        (
            TypeSpecification::Measure { minimum: a1, maximum: a2, decimals: a3, units: a4, traits: a5, decomposition: a6, help: a7 },
            TypeSpecification::Measure { minimum: b1, maximum: b2, decimals: b3, units: b4, traits: b5, decomposition: b6, help: b7 },
        ) => bound_same(a1, b1) && bound_same(a2, b2) && *a3 == *b3 && measure_units_same(a4, b4) && traits_same(a5, b5)
            && decomposition_same(a6, b6) && text_eq(a7, b7),
        (
            TypeSpecification::Number { minimum: a1, maximum: a2, decimals: a3, help: a4 },
            TypeSpecification::Number { minimum: b1, maximum: b2, decimals: b3, help: b4 },
        ) => *a1 == *b1 && *a2 == *b2 && *a3 == *b3 && text_eq(a4, b4),
        (
            TypeSpecification::NumberRange { lower: a1, upper: a2, minimum: a3, maximum: a4, help: a5 },
            TypeSpecification::NumberRange { lower: b1, upper: b2, minimum: b3, maximum: b4, help: b5 },
        ) => *a1 == *b1 && *a2 == *b2 && *a3 == *b3 && *a4 == *b4 && text_eq(a5, b5),
        (
            TypeSpecification::Ratio { minimum: a1, maximum: a2, decimals: a3, units: a4, help: a5 },
            TypeSpecification::Ratio { minimum: b1, maximum: b2, decimals: b3, units: b4, help: b5 },
        ) => *a1 == *b1 && *a2 == *b2 && *a3 == *b3 && ratio_units_same(a4, b4) && text_eq(a5, b5),
        (
            TypeSpecification::RatioRange { lower: a1, upper: a2, minimum: a3, maximum: a4, units: a5, help: a6 },
            TypeSpecification::RatioRange { lower: b1, upper: b2, minimum: b3, maximum: b4, units: b5, help: b6 },
        ) => *a1 == *b1 && *a2 == *b2 && *a3 == *b3 && *a4 == *b4 && ratio_units_same(a5, b5) && text_eq(a6, b6),
        (
            TypeSpecification::Text { length: a1, options: a2, help: a3 },
            TypeSpecification::Text { length: b1, options: b2, help: b3 },
        ) => *a1 == *b1 && texts_same(a2, b2) && text_eq(a3, b3),
        (
            TypeSpecification::Date { minimum: a1, maximum: a2, help: a3 },
            TypeSpecification::Date { minimum: b1, maximum: b2, help: b3 },
        ) => *a1 == *b1 && *a2 == *b2 && text_eq(a3, b3),
        (
            TypeSpecification::DateRange { lower: a1, upper: a2, minimum: a3, maximum: a4, help: a5 },
            TypeSpecification::DateRange { lower: b1, upper: b2, minimum: b3, maximum: b4, help: b5 },
        ) => *a1 == *b1 && *a2 == *b2 && bound_same(a3, b3) && bound_same(a4, b4) && text_eq(a5, b5),
        (
            TypeSpecification::Time { minimum: a1, maximum: a2, help: a3 },
            TypeSpecification::Time { minimum: b1, maximum: b2, help: b3 },
        ) => *a1 == *b1 && *a2 == *b2 && text_eq(a3, b3),
        (
            TypeSpecification::TimeRange { lower: a1, upper: a2, minimum: a3, maximum: a4, help: a5 },
            TypeSpecification::TimeRange { lower: b1, upper: b2, minimum: b3, maximum: b4, help: b5 },
        ) => *a1 == *b1 && *a2 == *b2 && bound_same(a3, b3) && bound_same(a4, b4) && text_eq(a5, b5),
        (
            TypeSpecification::MeasureRange { lower: a1, upper: a2, minimum: a3, maximum: a4, units: a5, decomposition: a6, help: a7 },
            TypeSpecification::MeasureRange { lower: b1, upper: b2, minimum: b3, maximum: b4, units: b5, decomposition: b6, help: b7 },
        ) => bound_same(a1, b1) && bound_same(a2, b2) && bound_same(a3, b3) && bound_same(a4, b4)
            && measure_units_same(a5, b5) && decomposition_same(a6, b6) && text_eq(a7, b7),
        (TypeSpecification::Veto { message: m1 }, TypeSpecification::Veto { message: m2 }) => opt_text_same(m1, m2),
        (TypeSpecification::Undetermined, TypeSpecification::Undetermined) => true,
        _ => false,
    }
}

fn extends_same(a: &TypeExtends, b: &TypeExtends) -> (r: bool)
    ensures
        r == extends_eq(*a, *b),
{
    match (a, b) {
        (TypeExtends::Primitive, TypeExtends::Primitive) => true,
        (
            TypeExtends::Custom { parent: p1, family: f1, defining_spec: d1 },
            TypeExtends::Custom { parent: p2, family: f2, defining_spec: d2 },
        ) => text_eq(p1, p2) && text_eq(f1, f2) && *d1 == *d2,
        _ => false,
    }
}

/// Whether two types are equal field by field.
pub fn lemma_type_same(a: &LemmaType, b: &LemmaType) -> (r: bool)
    ensures
        r == lemma_type_eq(*a, *b),
{
    opt_text_same(&a.name, &b.name) && specification_same(&a.specifications, &b.specifications)
        && extends_same(&a.extends, &b.extends) && opt_text_same(&a.measure_binding_unit, &b.measure_binding_unit)
}

fn copy_texts(v: &Vec<String>) -> (r: Vec<String>)
    ensures
        texts_eq(r@, v@),
{
    let mut out: Vec<String> = Vec::new();
    let n = v.len();
    let mut i: usize = 0;
    while i < n
        invariant
            n == v@.len(),
            i <= n,
            out@.len() == i,
            forall|j: int| 0 <= j < i ==> #[trigger] out@[j]@ == v@[j]@,
        decreases n - i,
    {
        out.push(v[i].clone());
        i = i + 1;
    }
    out
}

fn copy_trait_list(v: &Vec<MeasureTrait>) -> (r: Vec<MeasureTrait>)
    ensures
        r@ == v@,
{
    let mut out: Vec<MeasureTrait> = Vec::new();
    let n = v.len();
    let mut i: usize = 0;
    while i < n
        invariant
            n == v@.len(),
            i <= n,
            out@ =~= v@.subrange(0, i as int),
        decreases n - i,
    {
        out.push(v[i]);
        i = i + 1;
    }
    proof {
        assert(v@.subrange(0, n as int) =~= v@);
    }
    out
}

fn copy_decomposition(o: &Option<BaseMeasureVector>) -> (r: Option<BaseMeasureVector>)
    ensures
        decomposition_eq(r, *o),
{
    match o {
        Some(v) => Some(v.duplicate()),
        None => None,
    }
}

fn copy_opt_text(o: &Option<String>) -> (r: Option<String>)
    ensures
        r == *o,
{
    match o {
        Some(t) => Some(t.clone()),
        None => None,
    }
}

fn copy_measure_units(u: &MeasureUnits) -> (r: MeasureUnits)
    ensures
        measure_units_eq(r.0@, u.0@),
{
    u.clone()
}

fn copy_ratio_units(u: &RatioUnits) -> (r: RatioUnits)
    ensures
        ratio_units_eq(r.0@, u.0@),
{
    let r = u.clone();
    proof {
        assert forall|i: int| 0 <= i < r.0@.len() implies #[trigger] ratio_unit_eq(r.0@[i], u.0@[i]) by {
            assert(r.0@[i] == u.0@[i]);
        }
    }
    r
}

/// A copy of a specification, equal to it field by field.
pub fn copy_specification(s: &TypeSpecification) -> (r: TypeSpecification)
    ensures
        spec_eq(r, *s),
{
    match s {
        TypeSpecification::Boolean { help } => TypeSpecification::Boolean { help: help.clone() },
        TypeSpecification::Measure { minimum, maximum, decimals, units, traits, decomposition, help } => TypeSpecification::Measure {
            minimum: crate::types::copy_bound(minimum),
            maximum: crate::types::copy_bound(maximum),
            decimals: *decimals,
            units: copy_measure_units(units),
            traits: copy_trait_list(traits),
            decomposition: copy_decomposition(decomposition),
            help: help.clone(),
        },
        TypeSpecification::Number { minimum, maximum, decimals, help } => TypeSpecification::Number {
            minimum: *minimum,
            maximum: *maximum,
            decimals: *decimals,
            help: help.clone(),
        },
        TypeSpecification::NumberRange { lower, upper, minimum, maximum, help } => TypeSpecification::NumberRange {
            lower: *lower,
            upper: *upper,
            minimum: *minimum,
            maximum: *maximum,
            help: help.clone(),
        },
        TypeSpecification::Ratio { minimum, maximum, decimals, units, help } => TypeSpecification::Ratio {
            minimum: *minimum,
            maximum: *maximum,
            decimals: *decimals,
            units: copy_ratio_units(units),
            help: help.clone(),
        },
        TypeSpecification::RatioRange { lower, upper, minimum, maximum, units, help } => TypeSpecification::RatioRange {
            lower: *lower,
            upper: *upper,
            minimum: *minimum,
            maximum: *maximum,
            units: copy_ratio_units(units),
            help: help.clone(),
        },
        TypeSpecification::Text { length, options, help } => TypeSpecification::Text {
            length: *length,
            options: copy_texts(options),
            help: help.clone(),
        },
        TypeSpecification::Date { minimum, maximum, help } => TypeSpecification::Date {
            minimum: *minimum,
            maximum: *maximum,
            help: help.clone(),
        },
        TypeSpecification::DateRange { lower, upper, minimum, maximum, help } => TypeSpecification::DateRange {
            lower: *lower,
            upper: *upper,
            minimum: crate::types::copy_bound(minimum),
            maximum: crate::types::copy_bound(maximum),
            help: help.clone(),
        },
        TypeSpecification::Time { minimum, maximum, help } => TypeSpecification::Time {
            minimum: *minimum,
            maximum: *maximum,
            help: help.clone(),
        },
        TypeSpecification::TimeRange { lower, upper, minimum, maximum, help } => TypeSpecification::TimeRange {
            lower: *lower,
            upper: *upper,
            minimum: crate::types::copy_bound(minimum),
            maximum: crate::types::copy_bound(maximum),
            help: help.clone(),
        },
        TypeSpecification::MeasureRange { lower, upper, minimum, maximum, units, decomposition, help } => TypeSpecification::MeasureRange {
            lower: crate::types::copy_bound(lower),
            upper: crate::types::copy_bound(upper),
            minimum: crate::types::copy_bound(minimum),
            maximum: crate::types::copy_bound(maximum),
            units: copy_measure_units(units),
            decomposition: copy_decomposition(decomposition),
            help: help.clone(),
        },
        TypeSpecification::Veto { message } => TypeSpecification::Veto { message: copy_opt_text(message) },
        TypeSpecification::Undetermined => TypeSpecification::Undetermined,
    }
}

/// Every specification equals itself field by field.
pub proof fn lemma_spec_eq_reflexive(s: TypeSpecification)
    ensures
        spec_eq(s, s),
{
    match s {
        TypeSpecification::Measure { units, .. } => {
            assert forall|i: int| 0 <= i < units.0@.len() implies #[trigger] measure_unit_eq(units.0@[i], units.0@[i]) by {}
        },
        TypeSpecification::MeasureRange { units, .. } => {
            assert forall|i: int| 0 <= i < units.0@.len() implies #[trigger] measure_unit_eq(units.0@[i], units.0@[i]) by {}
        },
        TypeSpecification::Ratio { units, .. } => {
            assert forall|i: int| 0 <= i < units.0@.len() implies #[trigger] ratio_unit_eq(units.0@[i], units.0@[i]) by {}
        },
        TypeSpecification::RatioRange { units, .. } => {
            assert forall|i: int| 0 <= i < units.0@.len() implies #[trigger] ratio_unit_eq(units.0@[i], units.0@[i]) by {}
        },
        TypeSpecification::Veto { message } => {
            match message {
                Some(m) => {},
                None => {},
            }
        },
        _ => {},
    }
}

} // verus!
