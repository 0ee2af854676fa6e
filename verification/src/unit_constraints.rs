//! Per-unit copies of a measure type's bounds and suggestion: each declared unit
//! carries the canonical value converted into that unit.

use vstd::prelude::*;
use vstd::string::StringExecFns;
use crate::bound::{measure_declared_bound_to_canonical, spec_bound_to_canonical};
use crate::lemma_type::{canonical_flags, first_canonical_unit, lemma_first_true_bounds};
use crate::rational::{checked_div, checked_mul, spec_div, spec_failure_message, spec_mul, RationalInteger};
use crate::types::TypeSpecification;
use crate::units::{lemma_first_named_facts, measure_unit_names_of, MeasureUnit, MeasureUnits, RatioUnit, RatioUnits};
use crate::values::ValueKind;

verus! {

/// Which per-unit constraint a canonical value is copied into.
#[derive(Debug, Clone, Copy, PartialEq, Eq, Structural)]
pub enum UnitConstraintField {
    Minimum,
    Maximum,
    SuggestionMagnitude,
}

/// A measure unit with one constraint set.
pub open spec fn with_measure_constraint(u: MeasureUnit, f: UnitConstraintField, m: RationalInteger) -> MeasureUnit {
    match f {
        UnitConstraintField::Minimum => MeasureUnit { minimum: Some(m), ..u },
        UnitConstraintField::Maximum => MeasureUnit { maximum: Some(m), ..u },
        UnitConstraintField::SuggestionMagnitude => MeasureUnit { suggestion_magnitude: Some(m), ..u },
    }
}

/// Index of the first measure unit whose factor a canonical value cannot be divided
/// by, or -1.
pub open spec fn first_division_failure(units: Seq<MeasureUnit>, c: RationalInteger) -> int
    decreases units.len(),
{
    if units.len() == 0 {
        -1
    } else if first_division_failure(units.drop_last(), c) >= 0 {
        first_division_failure(units.drop_last(), c)
    } else if spec_div(c, units.last().factor) is Err {
        units.len() - 1
    } else {
        -1
    }
}

/// The units after copying a canonical value into each, in order, up to the first
/// that fails; that one and the rest are left as they were.
pub open spec fn synced_measure_units(units: Seq<MeasureUnit>, c: RationalInteger, f: UnitConstraintField) -> Seq<MeasureUnit> {
    let k = first_division_failure(units, c);
    Seq::new(
        units.len(),
        |i: int|
            if k < 0 || i < k {
                with_measure_constraint(units[i], f, spec_div(c, units[i].factor)->Ok_0)
            } else {
                units[i]
            },
    )
}

/// Why copying a canonical value into the units failed, if it did.
pub open spec fn measure_sync_error(units: Seq<MeasureUnit>, c: RationalInteger) -> Option<Seq<char>> {
    let k = first_division_failure(units, c);
    if k < 0 {
        None
    } else {
        Some(
            "cannot derive per-unit constraint for unit '"@ + units[k].name@ + "': "@ + spec_failure_message(
                spec_div(c, units[k].factor)->Err_0,
            ),
        )
    }
}

proof fn lemma_division_failure_step(units: Seq<MeasureUnit>, c: RationalInteger, i: int)
    requires
        0 <= i < units.len(),
        first_division_failure(units.subrange(0, i), c) == -1,
    ensures
        first_division_failure(units.subrange(0, i + 1), c) == (if spec_div(c, units[i].factor) is Err {
            i
        } else {
            -1
        }),
{
    assert(units.subrange(0, i + 1).drop_last() =~= units.subrange(0, i));
}

proof fn lemma_division_failure_prefix(units: Seq<MeasureUnit>, c: RationalInteger, k: int)
    requires
        0 <= k <= units.len(),
        first_division_failure(units.subrange(0, k), c) >= 0,
    ensures
        first_division_failure(units, c) == first_division_failure(units.subrange(0, k), c),
    decreases units.len(),
{
    if k == units.len() {
        assert(units.subrange(0, k) =~= units);
    } else {
        assert(units.drop_last().subrange(0, k) =~= units.subrange(0, k));
        lemma_division_failure_prefix(units.drop_last(), c, k);
    }
}

proof fn lemma_division_failure_bounds(units: Seq<MeasureUnit>, c: RationalInteger)
    ensures
        -1 <= first_division_failure(units, c) < units.len(),
        first_division_failure(units, c) >= 0 ==> spec_div(c, units[first_division_failure(units, c)].factor) is Err,
        forall|i: int| 0 <= i < units.len() && (first_division_failure(units, c) < 0 || i < first_division_failure(units, c))
            ==> spec_div(c, (#[trigger] units[i]).factor) is Ok,
    decreases units.len(),
{
    if units.len() > 0 {
        lemma_division_failure_bounds(units.drop_last(), c);
        assert forall|i: int| 0 <= i < units.len() - 1 implies #[trigger] units[i] == units.drop_last()[i] by {}
    }
}

fn set_measure_constraint(unit: MeasureUnit, field: UnitConstraintField, m: RationalInteger) -> (r: MeasureUnit)
    ensures
        r == with_measure_constraint(unit, field, m),
{
    let mut u = unit;
    match field {
        UnitConstraintField::Minimum => {
            u.minimum = Some(m);
        },
        UnitConstraintField::Maximum => {
            u.maximum = Some(m);
        },
        UnitConstraintField::SuggestionMagnitude => {
            u.suggestion_magnitude = Some(m);
        },
    }
    u
}

/// Copy a canonical value into every unit: the value divided by the unit's factor.
/// On the first division that fails, that unit and the rest are left as they were.
pub fn sync_measure_units_from_canonical(
    units: &mut MeasureUnits,
    canonical: &RationalInteger,
    field: UnitConstraintField,
) -> (r: Result<(), String>)
    ensures
        final(units).0@ == synced_measure_units(old(units).0@, *canonical, field),
        match measure_sync_error(old(units).0@, *canonical) {
            None => r is Ok,
            Some(m) => r is Err && r->Err_0@ == m,
        },
{
    let ghost old_units = units.0@;
    let mut rest: Vec<MeasureUnit> = Vec::new();
    std::mem::swap(&mut rest, &mut units.0);
    let n = rest.len();
    let mut out: Vec<MeasureUnit> = Vec::new();
    let mut i: usize = 0;
    proof {
        assert(old_units.subrange(0, 0) =~= Seq::<MeasureUnit>::empty());
        lemma_division_failure_bounds(old_units, *canonical);
    }
    while i < n
        invariant
            n == old_units.len(),
            old_units == old(units).0@,
            i <= n,
            rest@ == old_units.subrange(i as int, n as int),
            out@.len() == i,
            first_division_failure(old_units.subrange(0, i as int), *canonical) == -1,
            forall|j: int|
                0 <= j < i ==> #[trigger] out@[j] == with_measure_constraint(
                    old_units[j],
                    field,
                    spec_div(*canonical, old_units[j].factor)->Ok_0,
                ),
        decreases n - i,
    {
        let unit = rest.remove(0);
        proof {
            assert(unit == old_units[i as int]);
            assert(rest@ =~= old_units.subrange(i + 1, n as int));
            lemma_division_failure_step(old_units, *canonical, i as int);
        }
        match checked_div(canonical, &unit.factor) {
            Ok(m) => {
                out.push(set_measure_constraint(unit, field, m));
            },
            Err(failure) => {
                let mut msg = String::from_str("cannot derive per-unit constraint for unit '");
                msg.append(unit.name.as_str());
                msg.append("': ");
                msg.append(failure.message());
                let ghost prefix = out@;
                out.push(unit);
                out.append(&mut rest);
                units.0 = out;
                proof {
                    lemma_division_failure_prefix(old_units, *canonical, i + 1);
                    assert(units.0@ =~= synced_measure_units(old_units, *canonical, field));
                }
                return Err(msg);
            },
        }
        i = i + 1;
    }
    units.0 = out;
    proof {
        assert(old_units.subrange(0, n as int) =~= old_units);
        assert(units.0@ =~= synced_measure_units(old_units, *canonical, field));
    }
    Ok(())
}

/// A ratio unit with one constraint set.
pub open spec fn with_ratio_constraint(u: RatioUnit, f: UnitConstraintField, m: RationalInteger) -> RatioUnit {
    match f {
        UnitConstraintField::Minimum => RatioUnit { minimum: Some(m), ..u },
        UnitConstraintField::Maximum => RatioUnit { maximum: Some(m), ..u },
        UnitConstraintField::SuggestionMagnitude => RatioUnit { suggestion_magnitude: Some(m), ..u },
    }
}

/// Index of the first ratio unit whose value a canonical ratio cannot be multiplied
/// by, or -1.
pub open spec fn first_product_failure(units: Seq<RatioUnit>, c: RationalInteger) -> int
    decreases units.len(),
{
    if units.len() == 0 {
        -1
    } else if first_product_failure(units.drop_last(), c) >= 0 {
        first_product_failure(units.drop_last(), c)
    } else if spec_mul(c, units.last().value) is Err {
        units.len() - 1
    } else {
        -1
    }
}

/// The ratio units after copying a canonical ratio into each, in order, up to the
/// first that fails; that one and the rest are left as they were.
pub open spec fn synced_ratio_units(units: Seq<RatioUnit>, c: RationalInteger, f: UnitConstraintField) -> Seq<RatioUnit> {
    let k = first_product_failure(units, c);
    Seq::new(
        units.len(),
        |i: int|
            if k < 0 || i < k {
                with_ratio_constraint(units[i], f, spec_mul(c, units[i].value)->Ok_0)
            } else {
                units[i]
            },
    )
}

/// Why copying a canonical ratio into the units failed, if it did.
pub open spec fn ratio_sync_error(units: Seq<RatioUnit>, c: RationalInteger) -> Option<Seq<char>> {
    let k = first_product_failure(units, c);
    if k < 0 {
        None
    } else {
        Some(
            "cannot derive per-unit constraint for ratio unit '"@ + units[k].name@ + "': "@ + spec_failure_message(
                spec_mul(c, units[k].value)->Err_0,
            ),
        )
    }
}

proof fn lemma_product_failure_step(units: Seq<RatioUnit>, c: RationalInteger, i: int)
    requires
        0 <= i < units.len(),
        first_product_failure(units.subrange(0, i), c) == -1,
    ensures
        first_product_failure(units.subrange(0, i + 1), c) == (if spec_mul(c, units[i].value) is Err {
            i
        } else {
            -1
        }),
{
    assert(units.subrange(0, i + 1).drop_last() =~= units.subrange(0, i));
}

proof fn lemma_product_failure_prefix(units: Seq<RatioUnit>, c: RationalInteger, k: int)
    requires
        0 <= k <= units.len(),
        first_product_failure(units.subrange(0, k), c) >= 0,
    ensures
        first_product_failure(units, c) == first_product_failure(units.subrange(0, k), c),
    decreases units.len(),
{
    if k == units.len() {
        assert(units.subrange(0, k) =~= units);
    } else {
        assert(units.drop_last().subrange(0, k) =~= units.subrange(0, k));
        lemma_product_failure_prefix(units.drop_last(), c, k);
    }
}

fn set_ratio_constraint(unit: RatioUnit, field: UnitConstraintField, m: RationalInteger) -> (r: RatioUnit)
    ensures
        r == with_ratio_constraint(unit, field, m),
{
    let mut u = unit;
    match field {
        UnitConstraintField::Minimum => {
            u.minimum = Some(m);
        },
        UnitConstraintField::Maximum => {
            u.maximum = Some(m);
        },
        UnitConstraintField::SuggestionMagnitude => {
            u.suggestion_magnitude = Some(m);
        },
    }
    u
}

/// Copying a canonical ratio into the ratio units writes, in every unit the copy
/// reaches, exactly the chosen field: the canonical ratio times the unit's value; the
/// unit's name, value and other two fields stay as they were. Units at or after the
/// first failing product are left unchanged.
pub proof fn lemma_ratio_sync_sets_only_the_chosen_field(units: Seq<RatioUnit>, c: RationalInteger, f: UnitConstraintField, i: int)
    requires
        0 <= i < units.len(),
    ensures
        synced_ratio_units(units, c, f).len() == units.len(),
        ({
            let k = first_product_failure(units, c);
            let u = units[i];
            let v = synced_ratio_units(units, c, f)[i];
            if k < 0 || i < k {
                &&& v.name == u.name
                &&& v.value == u.value
                &&& v.minimum == (if f == UnitConstraintField::Minimum { Some(spec_mul(c, u.value)->Ok_0) } else { u.minimum })
                &&& v.maximum == (if f == UnitConstraintField::Maximum { Some(spec_mul(c, u.value)->Ok_0) } else { u.maximum })
                &&& v.suggestion_magnitude == (if f == UnitConstraintField::SuggestionMagnitude {
                    Some(spec_mul(c, u.value)->Ok_0)
                } else {
                    u.suggestion_magnitude
                })
            } else {
                v == u
            }
        }),
{
}

/// Copying a canonical value into the measure units writes, in every unit the copy
/// reaches, exactly the chosen field: the canonical value divided by the unit's factor;
/// everything else in the unit stays as it was. Units at or after the first failing
/// division are left unchanged.
pub proof fn lemma_measure_sync_sets_only_the_chosen_field(units: Seq<MeasureUnit>, c: RationalInteger, f: UnitConstraintField, i: int)
    requires
        0 <= i < units.len(),
    ensures
        synced_measure_units(units, c, f).len() == units.len(),
        ({
            let k = first_division_failure(units, c);
            let u = units[i];
            let v = synced_measure_units(units, c, f)[i];
            if k < 0 || i < k {
                &&& v.name == u.name
                &&& v.factor == u.factor
                &&& v.decomposition == u.decomposition
                &&& v.minimum == (if f == UnitConstraintField::Minimum { Some(spec_div(c, u.factor)->Ok_0) } else { u.minimum })
                &&& v.maximum == (if f == UnitConstraintField::Maximum { Some(spec_div(c, u.factor)->Ok_0) } else { u.maximum })
                &&& v.suggestion_magnitude == (if f == UnitConstraintField::SuggestionMagnitude {
                    Some(spec_div(c, u.factor)->Ok_0)
                } else {
                    u.suggestion_magnitude
                })
            } else {
                v == u
            }
        }),
{
}

/// Copy a canonical ratio into every ratio unit: the ratio times the unit's value.
/// On the first product that fails, that unit and the rest are left as they were.
pub fn sync_ratio_units_from_canonical(
    units: &mut RatioUnits,
    canonical: &RationalInteger,
    field: UnitConstraintField,
) -> (r: Result<(), String>)
    ensures
        final(units).0@ == synced_ratio_units(old(units).0@, *canonical, field),
        match ratio_sync_error(old(units).0@, *canonical) {
            None => r is Ok,
            Some(m) => r is Err && r->Err_0@ == m,
        },
{
    let ghost old_units = units.0@;
    let mut rest: Vec<RatioUnit> = Vec::new();
    std::mem::swap(&mut rest, &mut units.0);
    let n = rest.len();
    let mut out: Vec<RatioUnit> = Vec::new();
    let mut i: usize = 0;
    proof {
        assert(old_units.subrange(0, 0) =~= Seq::<RatioUnit>::empty());
    }
    while i < n
        invariant
            n == old_units.len(),
            old_units == old(units).0@,
            i <= n,
            rest@ == old_units.subrange(i as int, n as int),
            out@.len() == i,
            first_product_failure(old_units.subrange(0, i as int), *canonical) == -1,
            forall|j: int|
                0 <= j < i ==> #[trigger] out@[j] == with_ratio_constraint(
                    old_units[j],
                    field,
                    spec_mul(*canonical, old_units[j].value)->Ok_0,
                ),
        decreases n - i,
    {
        let unit = rest.remove(0);
        proof {
            assert(unit == old_units[i as int]);
            assert(rest@ =~= old_units.subrange(i + 1, n as int));
            lemma_product_failure_step(old_units, *canonical, i as int);
        }
        match checked_mul(canonical, &unit.value) {
            Ok(m) => {
                out.push(set_ratio_constraint(unit, field, m));
            },
            Err(failure) => {
                let mut msg = String::from_str("cannot derive per-unit constraint for ratio unit '");
                msg.append(unit.name.as_str());
                msg.append("': ");
                msg.append(failure.message());
                out.push(unit);
                out.append(&mut rest);
                units.0 = out;
                proof {
                    lemma_product_failure_prefix(old_units, *canonical, i + 1);
                    assert(units.0@ =~= synced_ratio_units(old_units, *canonical, field));
                }
                return Err(msg);
            },
        }
        i = i + 1;
    }
    units.0 = out;
    proof {
        assert(old_units.subrange(0, n as int) =~= old_units);
        assert(units.0@ =~= synced_ratio_units(old_units, *canonical, field));
    }
    Ok(())
}

/// Copy a measure suggestion into every unit (for a measure value; anything else is
/// left alone). The unit the suggestion is written against is the canonical one, or
/// else the first declared.
pub fn sync_measure_suggestion_units(units: &mut MeasureUnits, default: &ValueKind, owner_name: &str) -> (r: Result<(), String>)
    requires
        default is Measure ==> old(units).0@.len() > 0,
    ensures
        match *default {
            ValueKind::Measure(m) => final(units).0@ == synced_measure_units(old(units).0@, m, UnitConstraintField::SuggestionMagnitude)
                && match measure_sync_error(old(units).0@, m) {
                None => r is Ok,
                Some(e) => r is Err && r->Err_0@ == e,
            },
            _ => *final(units) == *old(units) && r is Ok,
        },
{
    let magnitude = match default {
        ValueKind::Measure(m) => *m,
        _ => {
            return Ok(());
        },
    };
    proof {
        lemma_first_true_bounds(canonical_flags(units.0@));
    }
    let index = match first_canonical_unit(units) {
        Some(i) => i,
        None => 0,
    };
    let unit_name = units.0[index].name.clone();
    proof {
        let names = measure_unit_names_of(units.0@);
        assert(names[index as int] == unit_name@);
        lemma_first_named_facts(names, unit_name@);
    }
    match units.get(unit_name.as_str()) {
        Some(_) => {},
        None => vstd::pervasive::unreached(),
    }
    sync_measure_units_from_canonical(units, &magnitude, UnitConstraintField::SuggestionMagnitude)
}

/// Copy a ratio suggestion into every ratio unit (anything but a ratio value is left
/// alone).
pub fn sync_ratio_suggestion_units(units: &mut RatioUnits, default: &ValueKind) -> (r: Result<(), String>)
    ensures
        match *default {
            ValueKind::Ratio(c) => final(units).0@ == synced_ratio_units(old(units).0@, c, UnitConstraintField::SuggestionMagnitude)
                && match ratio_sync_error(old(units).0@, c) {
                None => r is Ok,
                Some(e) => r is Err && r->Err_0@ == e,
            },
            _ => *final(units) == *old(units) && r is Ok,
        },
{
    match default {
        ValueKind::Ratio(canonical) => sync_ratio_units_from_canonical(units, canonical, UnitConstraintField::SuggestionMagnitude),
        _ => Ok(()),
    }
}

/// One bound's stage of finalizing: convert the declared bound to the canonical unit
/// and copy it into every unit. The error carries the units as they were left.
pub open spec fn bound_stage(
    units: Seq<MeasureUnit>,
    bound: Option<(RationalInteger, String)>,
    owner_name: Seq<char>,
    command: Seq<char>,
    f: UnitConstraintField,
) -> Result<Seq<MeasureUnit>, (Seq<MeasureUnit>, Seq<char>)> {
    match bound {
        None => Ok(units),
        Some(b) => match spec_bound_to_canonical(b.0, b.1@, units, owner_name, command) {
            Err(e) => Err((units, e)),
            Ok(c) => match measure_sync_error(units, c) {
                None => Ok(synced_measure_units(units, c, f)),
                Some(e) => Err((synced_measure_units(units, c, f), e)),
            },
        },
    }
}

/// The suggestion's stage of finalizing.
pub open spec fn suggestion_stage(units: Seq<MeasureUnit>, suggestion: Option<ValueKind>) -> Result<
    Seq<MeasureUnit>,
    (Seq<MeasureUnit>, Seq<char>),
> {
    match suggestion {
        Some(ValueKind::Measure(m)) => match measure_sync_error(units, m) {
            None => Ok(synced_measure_units(units, m, UnitConstraintField::SuggestionMagnitude)),
            Some(e) => Err((synced_measure_units(units, m, UnitConstraintField::SuggestionMagnitude), e)),
        },
        _ => Ok(units),
    }
}

/// Finalizing a measure's unit table: the minimum, then the maximum, then the
/// suggestion, stopping at the first failure.
pub open spec fn finalize_stages(
    units: Seq<MeasureUnit>,
    minimum: Option<(RationalInteger, String)>,
    maximum: Option<(RationalInteger, String)>,
    suggestion: Option<ValueKind>,
    owner_name: Seq<char>,
) -> Result<Seq<MeasureUnit>, (Seq<MeasureUnit>, Seq<char>)> {
    match bound_stage(units, minimum, owner_name, "minimum"@, UnitConstraintField::Minimum) {
        Err(x) => Err(x),
        Ok(u1) => match bound_stage(u1, maximum, owner_name, "maximum"@, UnitConstraintField::Maximum) {
            Err(x) => Err(x),
            Ok(u2) => suggestion_stage(u2, suggestion),
        },
    }
}

/// The value a borrowed suggestion refers to.
pub open spec fn suggestion_value(s: Option<&ValueKind>) -> Option<ValueKind> {
    match s {
        Some(v) => Some(*v),
        None => None,
    }
}

fn bound_stage_exec(
    units: &mut MeasureUnits,
    bound: &Option<(RationalInteger, String)>,
    owner_name: &str,
    command: &str,
    field: UnitConstraintField,
) -> (r: Result<(), String>)
    ensures
        match bound_stage(old(units).0@, *bound, owner_name@, command@, field) {
            Ok(u) => r is Ok && final(units).0@ == u,
            Err((u, e)) => r is Err && r->Err_0@ == e && final(units).0@ == u,
        },
{
    match bound {
        None => Ok(()),
        Some(b) => {
            let canonical = match measure_declared_bound_to_canonical(&b.0, b.1.as_str(), units, owner_name, command) {
                Ok(c) => c,
                Err(e) => {
                    return Err(e);
                },
            };
            sync_measure_units_from_canonical(units, &canonical, field)
        },
    }
}

/// Whether every unit carries a minimum, a maximum, or a suggestion.
pub open spec fn all_units_have(units: Seq<MeasureUnit>, f: UnitConstraintField) -> bool {
    forall|i: int|
        0 <= i < units.len() ==> match f {
            UnitConstraintField::Minimum => (#[trigger] units[i]).minimum is Some,
            UnitConstraintField::Maximum => units[i].maximum is Some,
            UnitConstraintField::SuggestionMagnitude => units[i].suggestion_magnitude is Some,
        }
}

proof fn lemma_sync_sets_field(units: Seq<MeasureUnit>, c: RationalInteger, f: UnitConstraintField, g: UnitConstraintField)
    requires
        measure_sync_error(units, c) is None,
    ensures
        all_units_have(synced_measure_units(units, c, f), f),
        all_units_have(units, g) ==> all_units_have(synced_measure_units(units, c, f), g),
{
}

/// Give every unit of a measure type the per-unit minimum, maximum and suggestion
/// implied by the type's declared bounds and suggestion. Anything but a measure is
/// left alone. On failure the units are left as far as the failing step got.
pub fn finalize_measure_unit_constraint_magnitudes(
    specification: &mut TypeSpecification,
    declared_suggestion: Option<&ValueKind>,
    owner_name: &str,
) -> (r: Result<(), String>)
    requires
        ((*old(specification)) is Measure && declared_suggestion is Some) ==> (declared_suggestion->0 is Measure
            <==> (*old(specification))->Measure_units.0@.len() > 0),
    ensures
        !((*old(specification)) is Measure) ==> *final(specification) == *old(specification) && r is Ok,
        (*old(specification)) is Measure ==> {
            let s = *old(specification);
            let t = *final(specification);
            &&& t is Measure
            &&& t->Measure_minimum == s->Measure_minimum
            &&& t->Measure_maximum == s->Measure_maximum
            &&& t->Measure_decimals == s->Measure_decimals
            &&& t->Measure_traits == s->Measure_traits
            &&& t->Measure_decomposition == s->Measure_decomposition
            &&& t->Measure_help == s->Measure_help
            &&& match finalize_stages(
                s->Measure_units.0@,
                s->Measure_minimum,
                s->Measure_maximum,
                suggestion_value(declared_suggestion),
                owner_name@,
            ) {
                Ok(u) => r is Ok && t->Measure_units.0@ == u,
                Err((u, e)) => r is Err && r->Err_0@ == e && t->Measure_units.0@ == u,
            }
            &&& r is Ok ==> (s->Measure_minimum is Some ==> all_units_have(t->Measure_units.0@, UnitConstraintField::Minimum))
                && (s->Measure_maximum is Some ==> all_units_have(t->Measure_units.0@, UnitConstraintField::Maximum))
                && (declared_suggestion is Some ==> all_units_have(
                t->Measure_units.0@,
                UnitConstraintField::SuggestionMagnitude,
            ))
        },
{
    let mut owned = TypeSpecification::Undetermined;
    std::mem::swap(&mut owned, specification);
    match owned {
        TypeSpecification::Measure { minimum, maximum, decimals, units, traits, decomposition, help } => {
            let mut units = units;
            let ghost u0 = units.0@;
            proof {
                reveal_strlit("minimum");
                reveal_strlit("maximum");
            }
            let result = match bound_stage_exec(&mut units, &minimum, owner_name, "minimum", UnitConstraintField::Minimum) {
                Err(e) => Err(e),
                Ok(()) => {
                    let ghost u1 = units.0@;
                    match bound_stage_exec(&mut units, &maximum, owner_name, "maximum", UnitConstraintField::Maximum) {
                        Err(e) => Err(e),
                        Ok(()) => {
                            let ghost u2 = units.0@;
                            proof {
                                if minimum is Some {
                                    let b = minimum->0;
                                    assert(spec_bound_to_canonical(b.0, b.1@, u0, owner_name@, "minimum"@) is Ok);
                                    let c = spec_bound_to_canonical(b.0, b.1@, u0, owner_name@, "minimum"@)->Ok_0;
                                    lemma_sync_sets_field(u0, c, UnitConstraintField::Minimum, UnitConstraintField::Minimum);
                                }
                                if maximum is Some {
                                    let b = maximum->0;
                                    let c = spec_bound_to_canonical(b.0, b.1@, u1, owner_name@, "maximum"@)->Ok_0;
                                    lemma_sync_sets_field(u1, c, UnitConstraintField::Maximum, UnitConstraintField::Minimum);
                                    lemma_sync_sets_field(u1, c, UnitConstraintField::Maximum, UnitConstraintField::Maximum);
                                }
                            }
                            match declared_suggestion {
                                Some(v) => {
                                    let r = sync_measure_suggestion_units(&mut units, v, owner_name);
                                    proof {
                                        if let ValueKind::Measure(m) = *v {
                                            if measure_sync_error(u2, m) is None {
                                                lemma_sync_sets_field(u2, m, UnitConstraintField::SuggestionMagnitude, UnitConstraintField::Minimum);
                                                lemma_sync_sets_field(u2, m, UnitConstraintField::SuggestionMagnitude, UnitConstraintField::Maximum);
                                                lemma_sync_sets_field(u2, m, UnitConstraintField::SuggestionMagnitude, UnitConstraintField::SuggestionMagnitude);
                                            }
                                        }
                                    }
                                    r
                                },
                                None => Ok(()),
                            }
                        },
                    }
                },
            };
            *specification = TypeSpecification::Measure { minimum, maximum, decimals, units, traits, decomposition, help };
            result
        },
        other => {
            *specification = other;
            Ok(())
        },
    }
}

} // verus!
