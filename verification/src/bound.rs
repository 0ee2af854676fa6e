//! Suggestion and fill values with the unit they were written in, and the display
//! unit a data input is shown in.

use vstd::prelude::*;
use vstd::string::StringExecFns;
use std::sync::Arc;
use crate::rational::{checked_mul, spec_failure_message, spec_mul, RationalInteger};
use crate::types::{LemmaType, TypeSpecification};
use crate::units::{first_named, measure_unit_names_of, MeasureUnit, MeasureUnits};
use crate::values::{copy_lemma_type, copy_value, LiteralValue, ValueKind};
use crate::text::text_result;

verus! {

/// A default captured while constraints are applied, before unit factors are final.
#[derive(Debug, Clone, PartialEq, Eq, Hash)]
pub enum RawSuggestion {
    Value(ValueKind),
    /// Measure magnitude in the written unit (canonicalized later).
    Measure {
        magnitude: RationalInteger,
        unit_name: String,
    },
    /// A canonical value plus the written unit name for display binding.
    UnitBound {
        value: ValueKind,
        unit_name: String,
    },
}

/// A canonical suggestion or fill value plus the measure unit it was written in.
#[derive(Debug, Clone, PartialEq, Eq, Hash)]
pub struct BoundValueKind {
    pub value: ValueKind,
    pub measure_binding_unit: Option<String>,
}

impl BoundValueKind {
    /// A value with no written unit.
    pub fn unbound(value: ValueKind) -> (r: BoundValueKind)
        ensures
            r == (BoundValueKind { value, measure_binding_unit: None }),
    {
        BoundValueKind { value, measure_binding_unit: None }
    }

    /// A value with an optional written unit.
    pub fn with_binding(value: ValueKind, measure_binding_unit: Option<String>) -> (r: BoundValueKind)
        ensures
            r == (BoundValueKind { value, measure_binding_unit }),
    {
        BoundValueKind { value, measure_binding_unit }
    }

    /// The value as a literal.
    pub fn to_literal(&self) -> (r: LiteralValue)
        ensures
            r.value == self.value,
    {
        LiteralValue { value: copy_value(&self.value) }
    }

    /// Written-unit agreement for a sum of two bound values: the left unit when there
    /// is one (equal or conflicting), else the right one.
    pub fn agree_or_left_binding(left: Option<&String>, right: Option<&String>) -> (r: Option<String>)
        ensures
            r == (match left {
                Some(a) => Some(*a),
                None => match right {
                    Some(b) => Some(*b),
                    None => None,
                },
            }),
    {
        match left {
            Some(a) => Some(a.clone()),
            None => match right {
                Some(b) => Some(b.clone()),
                None => None,
            },
        }
    }
}

/// Names joined by `, `.
pub open spec fn joined_names(names: Seq<Seq<char>>) -> Seq<char>
    decreases names.len(),
{
    if names.len() == 0 {
        Seq::empty()
    } else if names.len() == 1 {
        names[0]
    } else {
        joined_names(names.drop_last()) + ", "@ + names.last()
    }
}

pub(crate) fn format_measure_units_list(units: &MeasureUnits) -> (r: String)
    ensures
        r@ == joined_names(measure_unit_names_of(units.0@)),
{
    let ghost names = measure_unit_names_of(units.0@);
    let mut out = String::new();
    let n = units.0.len();
    let mut i: usize = 0;
    proof {
        assert(names.subrange(0, 0) =~= Seq::<Seq<char>>::empty());
    }
    while i < n
        invariant
            n == units.0@.len(),
            names == measure_unit_names_of(units.0@),
            i <= n,
            out@ == joined_names(names.subrange(0, i as int)),
        decreases n - i,
    {
        proof {
            assert(names.subrange(0, i + 1).drop_last() =~= names.subrange(0, i as int));
            assert(names[i as int] == units.0@[i as int].name@);
        }
        if i > 0 {
            out.append(", ");
        }
        out.append(units.0[i].name.as_str());
        proof {
            if i == 0 {
                assert(out@ =~= names.subrange(0, 1)[0]);
            }
        }
        i = i + 1;
    }
    proof {
        assert(names.subrange(0, n as int) =~= names);
    }
    out
}

/// The message for a unit that a measure type does not declare.
pub open spec fn spec_unknown_unit_message(unit_name: Seq<char>, owner: Seq<char>, units: Seq<MeasureUnit>) -> Seq<char> {
    "Unit '"@ + unit_name + "' is not defined on '"@ + owner + "'. Valid units are: "@
        + joined_names(measure_unit_names_of(units)) + "."@
}

/// Canonical magnitude of a bound written in a declared unit, or why it has none.
pub open spec fn spec_bound_to_canonical(
    magnitude: RationalInteger,
    unit_name: Seq<char>,
    units: Seq<MeasureUnit>,
    owner: Seq<char>,
    command: Seq<char>,
) -> Result<RationalInteger, Seq<char>> {
    let k = first_named(measure_unit_names_of(units), unit_name);
    if k < 0 {
        Err(spec_unknown_unit_message(unit_name, owner, units))
    } else {
        match spec_mul(magnitude, units[k].factor) {
            Ok(v) => Ok(v),
            Err(f) => Err(command + ": unit conversion overflow: "@ + spec_failure_message(f)),
        }
    }
}

/// Canonical magnitude of a bound written in a declared unit: the magnitude times the
/// unit's factor. Fails when the unit is not declared or the product overflows.
pub fn measure_declared_bound_to_canonical(
    magnitude: &RationalInteger,
    unit_name: &str,
    units: &MeasureUnits,
    owner: &str,
    command: &str,
) -> (r: Result<RationalInteger, String>)
    ensures
        text_result(r) == spec_bound_to_canonical(*magnitude, unit_name@, units.0@, owner@, command@),
        first_named(measure_unit_names_of(units.0@), unit_name@) < 0 ==> r is Err && r->Err_0@
            == spec_unknown_unit_message(unit_name@, owner@, units.0@),
        first_named(measure_unit_names_of(units.0@), unit_name@) >= 0 ==> {
            let factor = units.0@[first_named(measure_unit_names_of(units.0@), unit_name@)].factor;
            match spec_mul(*magnitude, factor) {
                Ok(v) => r == Ok::<RationalInteger, String>(v),
                Err(f) => r is Err && r->Err_0@ == command@ + ": unit conversion overflow: "@
                    + spec_failure_message(f),
            }
        },
{
    match units.get(unit_name) {
        None => {
            let mut msg = String::from_str("Unit '");
            msg.append(unit_name);
            msg.append("' is not defined on '");
            msg.append(owner);
            msg.append("'. Valid units are: ");
            let list = format_measure_units_list(units);
            msg.append(list.as_str());
            msg.append(".");
            Err(msg)
        },
        Some(unit) => match checked_mul(magnitude, &unit.factor) {
            Ok(v) => Ok(v),
            Err(f) => {
                let mut msg = String::from_str(command);
                msg.append(": unit conversion overflow: ");
                msg.append(f.message());
                Err(msg)
            },
        },
    }
}

/// Turn a raw suggestion into a bound value: values pass through, unit-bound values
/// keep their unit, and measure magnitudes are canonicalized against the measure's
/// declared units.
pub fn bound_value_kind_from_raw_suggestion(
    raw: RawSuggestion,
    specifications: &TypeSpecification,
    owner: &str,
) -> (r: Result<BoundValueKind, String>)
    ensures
        match raw {
            RawSuggestion::Value(vk) => r == Ok::<BoundValueKind, String>(BoundValueKind { value: vk, measure_binding_unit: None }),
            RawSuggestion::UnitBound { value, unit_name } => r == Ok::<BoundValueKind, String>(
                BoundValueKind { value, measure_binding_unit: Some(unit_name) },
            ),
            RawSuggestion::Measure { magnitude, unit_name } => match *specifications {
                TypeSpecification::Measure { units, .. } => {
                    let i = first_named(measure_unit_names_of(units.0@), unit_name@);
                    if i < 0 {
                        r is Err && r->Err_0@ == spec_unknown_unit_message(unit_name@, owner@, units.0@)
                    } else {
                        match spec_mul(magnitude, units.0@[i].factor) {
                            Ok(v) => r == Ok::<BoundValueKind, String>(
                                BoundValueKind { value: ValueKind::Measure(v), measure_binding_unit: Some(unit_name) },
                            ),
                            Err(f) => r is Err && r->Err_0@ == "suggest"@ + ": unit conversion overflow: "@
                                + spec_failure_message(f),
                        }
                    }
                },
                _ => r is Err && r->Err_0@ == "BUG: RawSuggestion::Measure for non-measure type '"@ + owner@ + "'"@,
            },
        },
{
    match raw {
        RawSuggestion::Value(vk) => Ok(BoundValueKind::unbound(vk)),
        RawSuggestion::UnitBound { value, unit_name } => Ok(BoundValueKind { value, measure_binding_unit: Some(unit_name) }),
        RawSuggestion::Measure { magnitude, unit_name } => match specifications {
            TypeSpecification::Measure { units, .. } => {
                match measure_declared_bound_to_canonical(&magnitude, unit_name.as_str(), units, owner, "suggest") {
                    Ok(canonical) => Ok(BoundValueKind { value: ValueKind::Measure(canonical), measure_binding_unit: Some(unit_name) }),
                    Err(e) => Err(e),
                }
            },
            _ => {
                let mut msg = String::from_str("BUG: RawSuggestion::Measure for non-measure type '");
                msg.append(owner);
                msg.append("'");
                Err(msg)
            },
        },
    }
}

pub open spec fn binding_of(b: Option<BoundValueKind>) -> Option<String> {
    match b {
        Some(v) => v.measure_binding_unit,
        None => None,
    }
}

/// Display unit of a data input: the schema's own binding, else the settled value's,
/// else the fill's, else the suggestion's.
pub open spec fn spec_display_binding(
    schema: LemmaType,
    settled: Option<BoundValueKind>,
    fill: Option<BoundValueKind>,
    suggestion: Option<BoundValueKind>,
) -> Option<String> {
    if schema.measure_binding_unit is Some {
        schema.measure_binding_unit
    } else if binding_of(settled) is Some {
        binding_of(settled)
    } else if binding_of(fill) is Some {
        binding_of(fill)
    } else {
        binding_of(suggestion)
    }
}

fn binding_copy(b: Option<&BoundValueKind>) -> (r: Option<String>)
    ensures
        r == binding_of(match b {
            Some(v) => Some(*v),
            None => None,
        }),
{
    match b {
        Some(v) => match &v.measure_binding_unit {
            Some(u) => Some(u.clone()),
            None => None,
        },
        None => None,
    }
}

pub open spec fn deref_opt(b: Option<&BoundValueKind>) -> Option<BoundValueKind> {
    match b {
        Some(v) => Some(*v),
        None => None,
    }
}

/// Display unit of a data input: schema binding > settled > fill > suggestion.
pub fn display_binding_unit(
    schema: &LemmaType,
    settled: Option<&BoundValueKind>,
    fill: Option<&BoundValueKind>,
    suggestion: Option<&BoundValueKind>,
) -> (r: Option<String>)
    ensures
        r == spec_display_binding(*schema, deref_opt(settled), deref_opt(fill), deref_opt(suggestion)),
{
    if let Some(unit) = &schema.measure_binding_unit {
        return Some(unit.clone());
    }
    let s = binding_copy(settled);
    if s.is_some() {
        return s;
    }
    let f = binding_copy(fill);
    if f.is_some() {
        return f;
    }
    binding_copy(suggestion)
}

/// The schema type stamped with its display unit (when one wins).
pub fn lemma_type_with_display_binding(
    schema: &LemmaType,
    settled: Option<&BoundValueKind>,
    fill: Option<&BoundValueKind>,
    suggestion: Option<&BoundValueKind>,
) -> (r: LemmaType)
    ensures
        r.name == schema.name,
        r.extends == schema.extends,
        crate::equality::spec_eq(r.specifications, schema.specifications),
        r.measure_binding_unit == (match spec_display_binding(*schema, deref_opt(settled), deref_opt(fill), deref_opt(suggestion)) {
            Some(u) => Some(u),
            None => schema.measure_binding_unit,
        }),
{
    let copy = copy_lemma_type(schema);
    match display_binding_unit(schema, settled, fill, suggestion) {
        Some(unit) => copy.with_measure_binding_unit(unit),
        None => copy,
    }
}

/// Like [`lemma_type_with_display_binding`], shared behind an `Arc`.
pub fn lemma_type_arc_with_display_binding(
    schema: &Arc<LemmaType>,
    settled: Option<&BoundValueKind>,
    fill: Option<&BoundValueKind>,
    suggestion: Option<&BoundValueKind>,
) -> (r: Arc<LemmaType>)
    ensures
        r.name == schema.name,
        r.extends == schema.extends,
        crate::equality::spec_eq(r.specifications, schema.specifications),
        r.measure_binding_unit == (match spec_display_binding(**schema, deref_opt(settled), deref_opt(fill), deref_opt(suggestion)) {
            Some(u) => Some(u),
            None => schema.measure_binding_unit,
        }),
        schema.measure_binding_unit is Some || spec_display_binding(**schema, deref_opt(settled), deref_opt(fill), deref_opt(suggestion)) is None
            ==> r == *schema,
{
    if schema.measure_binding_unit.is_none() {
        match display_binding_unit(&**schema, settled, fill, suggestion) {
            Some(unit) => {
                return Arc::new(copy_lemma_type(&**schema).with_measure_binding_unit(unit));
            },
            None => {},
        }
    }
    proof {
        let ghost sp = schema.specifications;
        crate::equality::lemma_spec_eq_reflexive(sp);
    }
    crate::decomposition::share(schema)
}

} // verus!
