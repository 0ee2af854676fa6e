//! Units of each measure or ratio family, gathered over every type in scope that
//! belongs to the family: the family's root first, then its extensions by depth.

use vstd::prelude::*;
use std::sync::Arc;
use crate::types::{LemmaType, TypeExtends, TypeSpecification};
use crate::lemma_type::{spec_measure_family_name, spec_name, spec_ratio_family_name, spec_measure_units, spec_ratio_units, str_views};
use crate::text::text_views;
use crate::units::{measure_unit_names_of, ratio_unit_names_of, MeasureUnit, MeasureUnits, RatioUnit, RatioUnits};
use crate::equality::{measure_unit_eq, measure_units_eq};
use crate::text::{compare_text, seq_lt};
use crate::unit_index::UnitIndex;
use crate::decomposition::share;

verus! {

/// Which family a type is gathered under.
#[derive(Debug, Clone, Copy, PartialEq, Eq, Structural)]
pub enum FamilySide {
    /// Measure family, else ratio family.
    Unit,
    Measure,
    Ratio,
}

/// The unit family of a type: its measure family, else its ratio family.
pub open spec fn spec_unit_family(t: LemmaType) -> Option<Seq<char>> {
    match spec_measure_family_name(t) {
        Some(f) => Some(f),
        None => spec_ratio_family_name(t),
    }
}

pub open spec fn side_family(t: LemmaType, side: FamilySide) -> Option<Seq<char>> {
    match side {
        FamilySide::Unit => spec_unit_family(t),
        FamilySide::Measure => spec_measure_family_name(t),
        FamilySide::Ratio => spec_ratio_family_name(t),
    }
}

/// The types of `s` in family `family` (on the given side), in order.
pub open spec fn members(s: Seq<Arc<LemmaType>>, family: Seq<char>, side: FamilySide) -> Seq<Arc<LemmaType>>
    decreases s.len(),
{
    if s.len() == 0 {
        Seq::empty()
    } else if side_family(*s.last(), side) == Some(family) {
        members(s.drop_last(), family, side).push(s.last())
    } else {
        members(s.drop_last(), family, side)
    }
}

/// The first type of `fam` with the given name.
pub open spec fn lookup(fam: Seq<Arc<LemmaType>>, name: Seq<char>) -> Option<Arc<LemmaType>>
    decreases fam.len(),
{
    if fam.len() == 0 {
        None
    } else if spec_name(*fam[0]) == name {
        Some(fam[0])
    } else {
        lookup(fam.drop_first(), name)
    }
}

/// Extension depth of `t` within the family `fam`: 0 for a primitive, one more than
/// the parent's depth for an extension, 1 when the parent is not in the family;
/// `None` when the parent chain does not end within `fuel` steps.
pub open spec fn depth_of(fam: Seq<Arc<LemmaType>>, t: LemmaType, fuel: nat) -> Option<nat>
    decreases fuel,
{
    match t.extends {
        TypeExtends::Primitive => Some(0),
        TypeExtends::Custom { parent, .. } => if fuel == 0 {
            None
        } else {
            match lookup(fam, parent@) {
                None => Some(1),
                Some(p) => match depth_of(fam, *p, (fuel - 1) as nat) {
                    Some(d) => Some(d + 1),
                    None => None,
                },
            }
        },
    }
}

/// The depth of `t` in `fam`, with the chain bounded by the family's size.
pub open spec fn depth(fam: Seq<Arc<LemmaType>>, t: LemmaType) -> nat {
    match depth_of(fam, t, fam.len()) {
        Some(d) => d,
        None => 0,
    }
}

/// `a` comes before `b`: smaller depth, or the same depth and a smaller name.
pub open spec fn key_lt(fam: Seq<Arc<LemmaType>>, a: LemmaType, b: LemmaType) -> bool {
    depth(fam, a) < depth(fam, b) || (depth(fam, a) == depth(fam, b) && seq_lt(spec_name(a), spec_name(b)))
}

/// Index of the first type of `c` with the smallest key.
pub open spec fn min_index(fam: Seq<Arc<LemmaType>>, c: Seq<Arc<LemmaType>>) -> int
    decreases c.len(),
{
    if c.len() <= 1 {
        0
    } else {
        let m = min_index(fam, c.drop_last());
        if key_lt(fam, *c.last(), *c[m]) {
            c.len() - 1
        } else {
            m
        }
    }
}

pub proof fn lemma_min_index_bounds(fam: Seq<Arc<LemmaType>>, c: Seq<Arc<LemmaType>>)
    requires
        c.len() > 0,
    ensures
        0 <= min_index(fam, c) < c.len(),
    decreases c.len(),
{
    if c.len() > 1 {
        lemma_min_index_bounds(fam, c.drop_last());
    }
}

/// `c` ordered by (depth, name), equal keys keeping their order.
pub open spec fn ordered(fam: Seq<Arc<LemmaType>>, c: Seq<Arc<LemmaType>>) -> Seq<Arc<LemmaType>>
    decreases c.len(),
{
    if c.len() == 0 {
        Seq::empty()
    } else {
        let m = min_index(fam, c);
        proof {
            lemma_min_index_bounds(fam, c);
        }
        seq![c[m]] + ordered(fam, c.remove(m))
    }
}

/// `acc` followed by those units of `units` whose names are not yet present.
pub open spec fn add_new_measure_units(acc: Seq<MeasureUnit>, units: Seq<MeasureUnit>) -> Seq<MeasureUnit>
    decreases units.len(),
{
    if units.len() == 0 {
        acc
    } else {
        let a = add_new_measure_units(acc, units.drop_last());
        if measure_unit_names_of(a).contains(units.last().name@) {
            a
        } else {
            a.push(units.last())
        }
    }
}

pub open spec fn add_new_ratio_units(acc: Seq<RatioUnit>, units: Seq<RatioUnit>) -> Seq<RatioUnit>
    decreases units.len(),
{
    if units.len() == 0 {
        acc
    } else {
        let a = add_new_ratio_units(acc, units.drop_last());
        if ratio_unit_names_of(a).contains(units.last().name@) {
            a
        } else {
            a.push(units.last())
        }
    }
}

/// The units of `ts`, in order, each name kept at its first declaration.
pub open spec fn merged_measure(ts: Seq<Arc<LemmaType>>) -> Seq<MeasureUnit>
    decreases ts.len(),
{
    if ts.len() == 0 {
        Seq::empty()
    } else {
        add_new_measure_units(merged_measure(ts.drop_last()), spec_measure_units(ts.last().specifications))
    }
}

pub open spec fn merged_ratio(ts: Seq<Arc<LemmaType>>) -> Seq<RatioUnit>
    decreases ts.len(),
{
    if ts.len() == 0 {
        Seq::empty()
    } else {
        add_new_ratio_units(merged_ratio(ts.drop_last()), spec_ratio_units(ts.last().specifications))
    }
}

/// Every type of a family has a parent chain that ends.
pub open spec fn depths_defined(s: Seq<Arc<LemmaType>>) -> bool {
    forall|i: int| 0 <= i < s.len() && (#[trigger] spec_unit_family(*s[i])) is Some ==> depth_of(
        members(s, spec_unit_family(*s[i])->0, FamilySide::Unit),
        *s[i],
        members(s, spec_unit_family(*s[i])->0, FamilySide::Unit).len(),
    ) is Some
}

fn in_family(t: &LemmaType, family: &str, side: FamilySide) -> (b: bool)
    ensures
        b == (side_family(*t, side) == Some(family@)),
{
    let f = match side {
        FamilySide::Unit => t.unit_family_name(),
        FamilySide::Measure => t.measure_family_name(),
        FamilySide::Ratio => t.ratio_family_name(),
    };
    match f {
        Some(name) => compare_text(name, family) == 0,
        None => false,
    }
}

fn collect_members(values: &Vec<Arc<LemmaType>>, family: &str, side: FamilySide) -> (r: Vec<Arc<LemmaType>>)
    ensures
        r@ == members(values@, family@, side),
{
    let mut out: Vec<Arc<LemmaType>> = Vec::new();
    let n = values.len();
    let mut i: usize = 0;
    while i < n
        invariant
            n == values@.len(),
            i <= n,
            out@ == members(values@.subrange(0, i as int), family@, side),
        decreases n - i,
    {
        proof {
            assert(values@.subrange(0, i + 1).drop_last() =~= values@.subrange(0, i as int));
            assert(values@.subrange(0, i + 1).last() == values@[i as int]);
        }
        if in_family(&*values[i], family, side) {
            out.push(share(&values[i]));
        }
        i = i + 1;
    }
    proof {
        assert(values@.subrange(0, n as int) =~= values@);
    }
    out
}

fn lookup_exec<'a>(fam: &'a Vec<Arc<LemmaType>>, name: &str) -> (r: Option<&'a Arc<LemmaType>>)
    ensures
        match r {
            Some(p) => lookup(fam@, name@) == Some(*p),
            None => lookup(fam@, name@) is None,
        },
{
    let n = fam.len();
    let mut i: usize = 0;
    proof {
        assert(fam@.subrange(0, n as int) =~= fam@);
    }
    while i < n
        invariant
            n == fam@.len(),
            i <= n,
            lookup(fam@, name@) == lookup(fam@.subrange(i as int, n as int), name@),
        decreases n - i,
    {
        proof {
            assert(fam@.subrange(i as int, n as int)[0] == fam@[i as int]);
            assert(fam@.subrange(i as int, n as int).drop_first() =~= fam@.subrange(i + 1, n as int));
        }
        let candidate = fam[i].name();
        if compare_text(candidate.as_str(), name) == 0 {
            return Some(&fam[i]);
        }
        i = i + 1;
    }
    None
}

fn type_depth(fam: &Vec<Arc<LemmaType>>, t: &LemmaType) -> (d: usize)
    requires
        depth_of(fam@, *t, fam@.len()) is Some,
    ensures
        d == depth(fam@, *t),
{
    let ghost n: nat = fam@.len();
    let mut current: &LemmaType = t;
    let mut fuel: usize = fam.len();
    let mut d: usize = 0;
    loop
        invariant
            n == fam@.len(),
            depth_of(fam@, *t, n) is Some,
            depth_of(fam@, *current, fuel as nat) is Some,
            depth_of(fam@, *t, n)->0 == depth_of(fam@, *current, fuel as nat)->0 + d,
            d + fuel <= n,
            n <= usize::MAX,
        decreases fuel,
    {
        match &current.extends {
            TypeExtends::Primitive => {
                return d;
            },
            TypeExtends::Custom { parent, .. } => {
                assert(fuel > 0);
                d = d + 1;
                match lookup_exec(fam, parent.as_str()) {
                    None => {
                        return d;
                    },
                    Some(p) => {
                        current = &**p;
                        fuel = fuel - 1;
                    },
                }
            },
        }
    }
}

fn key_less(fam: &Vec<Arc<LemmaType>>, a: &LemmaType, b: &LemmaType) -> (r: bool)
    requires
        depth_of(fam@, *a, fam@.len()) is Some,
        depth_of(fam@, *b, fam@.len()) is Some,
    ensures
        r == key_lt(fam@, *a, *b),
{
    let da = type_depth(fam, a);
    let db = type_depth(fam, b);
    if da < db {
        return true;
    }
    if da > db {
        return false;
    }
    let na = a.name();
    let nb = b.name();
    compare_text(na.as_str(), nb.as_str()) == -1
}

pub open spec fn depths_known(fam: Seq<Arc<LemmaType>>, c: Seq<Arc<LemmaType>>) -> bool {
    forall|i: int| 0 <= i < c.len() ==> depth_of(fam, *(#[trigger] c[i]), fam.len()) is Some
}

fn min_index_exec(fam: &Vec<Arc<LemmaType>>, rem: &Vec<Arc<LemmaType>>) -> (m: usize)
    requires
        rem@.len() > 0,
        depths_known(fam@, rem@),
    ensures
        m == min_index(fam@, rem@),
{
    let n = rem.len();
    let mut m: usize = 0;
    let mut i: usize = 1;
    proof {
        assert(rem@.subrange(0, 1).len() == 1);
    }
    while i < n
        invariant
            n == rem@.len(),
            1 <= i <= n,
            depths_known(fam@, rem@),
            m == min_index(fam@, rem@.subrange(0, i as int)),
        decreases n - i,
    {
        proof {
            lemma_min_index_bounds(fam@, rem@.subrange(0, i as int));
            let sub = rem@.subrange(0, i + 1);
            assert(sub.drop_last() =~= rem@.subrange(0, i as int));
            assert(sub.last() == rem@[i as int]);
            assert(sub[m as int] == rem@[m as int]);
        }
        if key_less(fam, &*rem[i], &*rem[m]) {
            m = i;
        }
        i = i + 1;
    }
    proof {
        assert(rem@.subrange(0, n as int) =~= rem@);
    }
    m
}

proof fn lemma_names_of_eq(a: Seq<MeasureUnit>, b: Seq<MeasureUnit>)
    requires
        measure_units_eq(a, b),
    ensures
        measure_unit_names_of(a) =~= measure_unit_names_of(b),
{
    assert forall|i: int| 0 <= i < a.len() implies measure_unit_names_of(a)[i] == measure_unit_names_of(b)[i] by {
        assert(measure_unit_eq(a[i], b[i]));
    }
}

fn has_measure_name(units: &Vec<MeasureUnit>, name: &str) -> (b: bool)
    ensures
        b == measure_unit_names_of(units@).contains(name@),
{
    let n = units.len();
    let mut i: usize = 0;
    while i < n
        invariant
            n == units@.len(),
            i <= n,
            forall|j: int| 0 <= j < i ==> units@[j].name@ != name@,
        decreases n - i,
    {
        if compare_text(units[i].name.as_str(), name) == 0 {
            proof {
                assert(measure_unit_names_of(units@)[i as int] == name@);
            }
            return true;
        }
        i = i + 1;
    }
    proof {
        if measure_unit_names_of(units@).contains(name@) {
            let k = choose|k: int| 0 <= k < measure_unit_names_of(units@).len() && measure_unit_names_of(units@)[k] == name@;
            assert(units@[k].name@ == name@);
        }
    }
    false
}

fn add_measure_units(merged: &mut Vec<MeasureUnit>, units: &Vec<MeasureUnit>, Ghost(acc): Ghost<Seq<MeasureUnit>>)
    requires
        measure_units_eq(old(merged)@, acc),
    ensures
        measure_units_eq(final(merged)@, add_new_measure_units(acc, units@)),
{
    let n = units.len();
    let mut j: usize = 0;
    proof {
        assert(units@.subrange(0, 0) =~= Seq::<MeasureUnit>::empty());
    }
    while j < n
        invariant
            n == units@.len(),
            j <= n,
            measure_units_eq(merged@, add_new_measure_units(acc, units@.subrange(0, j as int))),
        decreases n - j,
    {
        let ghost spec_before = add_new_measure_units(acc, units@.subrange(0, j as int));
        proof {
            let sub = units@.subrange(0, j + 1);
            assert(sub.drop_last() =~= units@.subrange(0, j as int));
            assert(sub.last() == units@[j as int]);
            lemma_names_of_eq(merged@, spec_before);
        }
        if !has_measure_name(merged, units[j].name.as_str()) {
            let c = units[j].clone();
            let ghost before = merged@;
            merged.push(c);
            proof {
                let target = spec_before.push(units@[j as int]);
                assert forall|i: int| 0 <= i < merged@.len() implies #[trigger] measure_unit_eq(merged@[i], target[i]) by {
                    if i < before.len() {
                        assert(measure_unit_eq(before[i], spec_before[i]));
                    }
                }
            }
        }
        j = j + 1;
    }
    proof {
        assert(units@.subrange(0, n as int) =~= units@);
    }
}

fn measure_units_of(t: &LemmaType) -> (r: Option<&Vec<MeasureUnit>>)
    ensures
        match r {
            Some(u) => u@ == spec_measure_units(t.specifications),
            None => spec_measure_units(t.specifications) == Seq::<MeasureUnit>::empty(),
        },
{
    match &t.specifications {
        TypeSpecification::Measure { units, .. } => Some(&units.0),
        TypeSpecification::MeasureRange { units, .. } => Some(&units.0),
        _ => None,
    }
}

/// The units of `cands`, taken in (depth, name) order, each name at its first
/// declaration.
fn merge_measure_in_order(fam: &Vec<Arc<LemmaType>>, cands: Vec<Arc<LemmaType>>) -> (r: Vec<MeasureUnit>)
    requires
        depths_known(fam@, cands@),
    ensures
        measure_units_eq(r@, merged_measure(ordered(fam@, cands@))),
{
    let mut rem = cands;
    let mut merged: Vec<MeasureUnit> = Vec::new();
    let ghost mut taken: Seq<Arc<LemmaType>> = Seq::empty();
    proof {
        assert(taken + ordered(fam@, rem@) =~= ordered(fam@, cands@));
    }
    while rem.len() > 0
        invariant
            depths_known(fam@, rem@),
            taken + ordered(fam@, rem@) == ordered(fam@, cands@),
            measure_units_eq(merged@, merged_measure(taken)),
        decreases rem@.len(),
    {
        let m = min_index_exec(fam, &rem);
        proof {
            lemma_min_index_bounds(fam@, rem@);
        }
        let ghost old_rem = rem@;
        let t = rem.remove(m);
        proof {
            assert(rem@ =~= old_rem.remove(m as int));
            assert forall|i: int| 0 <= i < rem@.len() implies depth_of(fam@, *(#[trigger] rem@[i]), fam@.len()) is Some by {
                if i < m {
                    assert(rem@[i] == old_rem[i]);
                } else {
                    assert(rem@[i] == old_rem[i + 1]);
                }
            }
            assert(ordered(fam@, old_rem) == seq![old_rem[m as int]] + ordered(fam@, old_rem.remove(m as int)));
            assert(taken.push(t) + ordered(fam@, rem@) =~= taken + ordered(fam@, old_rem));
            assert(taken.push(t).drop_last() =~= taken);
        }
        match measure_units_of(&*t) {
            Some(units) => {
                add_measure_units(&mut merged, units, Ghost(merged_measure(taken)));
            },
            None => {
                proof {
                    assert(add_new_measure_units(merged_measure(taken), Seq::<MeasureUnit>::empty()) == merged_measure(taken));
                }
            },
        }
        proof {
            taken = taken.push(t);
        }
    }
    proof {
        assert(ordered(fam@, rem@) =~= Seq::<Arc<LemmaType>>::empty());
        assert(taken =~= ordered(fam@, cands@));
    }
    merged
}

fn has_ratio_name(units: &Vec<RatioUnit>, name: &str) -> (b: bool)
    ensures
        b == ratio_unit_names_of(units@).contains(name@),
{
    let n = units.len();
    let mut i: usize = 0;
    while i < n
        invariant
            n == units@.len(),
            i <= n,
            forall|j: int| 0 <= j < i ==> units@[j].name@ != name@,
        decreases n - i,
    {
        if compare_text(units[i].name.as_str(), name) == 0 {
            proof {
                assert(ratio_unit_names_of(units@)[i as int] == name@);
            }
            return true;
        }
        i = i + 1;
    }
    proof {
        if ratio_unit_names_of(units@).contains(name@) {
            let k = choose|k: int| 0 <= k < ratio_unit_names_of(units@).len() && ratio_unit_names_of(units@)[k] == name@;
            assert(units@[k].name@ == name@);
        }
    }
    false
}

fn add_ratio_units(merged: &mut Vec<RatioUnit>, units: &Vec<RatioUnit>)
    ensures
        final(merged)@ == add_new_ratio_units(old(merged)@, units@),
{
    let ghost acc = merged@;
    let n = units.len();
    let mut j: usize = 0;
    proof {
        assert(units@.subrange(0, 0) =~= Seq::<RatioUnit>::empty());
    }
    while j < n
        invariant
            n == units@.len(),
            j <= n,
            merged@ == add_new_ratio_units(acc, units@.subrange(0, j as int)),
        decreases n - j,
    {
        proof {
            let sub = units@.subrange(0, j + 1);
            assert(sub.drop_last() =~= units@.subrange(0, j as int));
            assert(sub.last() == units@[j as int]);
        }
        if !has_ratio_name(merged, units[j].name.as_str()) {
            let c = units[j].clone();
            merged.push(c);
        }
        j = j + 1;
    }
    proof {
        assert(units@.subrange(0, n as int) =~= units@);
    }
}

fn ratio_units_of(t: &LemmaType) -> (r: Option<&Vec<RatioUnit>>)
    ensures
        match r {
            Some(u) => u@ == spec_ratio_units(t.specifications),
            None => spec_ratio_units(t.specifications) == Seq::<RatioUnit>::empty(),
        },
{
    match &t.specifications {
        TypeSpecification::Ratio { units, .. } => Some(&units.0),
        TypeSpecification::RatioRange { units, .. } => Some(&units.0),
        _ => None,
    }
}

/// The ratio units of `cands`, taken in (depth, name) order, each name at its first
/// declaration.
fn merge_ratio_in_order(fam: &Vec<Arc<LemmaType>>, cands: Vec<Arc<LemmaType>>) -> (r: Vec<RatioUnit>)
    requires
        depths_known(fam@, cands@),
    ensures
        r@ == merged_ratio(ordered(fam@, cands@)),
{
    let mut rem = cands;
    let mut merged: Vec<RatioUnit> = Vec::new();
    let ghost mut taken: Seq<Arc<LemmaType>> = Seq::empty();
    proof {
        assert(taken + ordered(fam@, rem@) =~= ordered(fam@, cands@));
    }
    while rem.len() > 0
        invariant
            depths_known(fam@, rem@),
            taken + ordered(fam@, rem@) == ordered(fam@, cands@),
            merged@ == merged_ratio(taken),
        decreases rem@.len(),
    {
        let m = min_index_exec(fam, &rem);
        proof {
            lemma_min_index_bounds(fam@, rem@);
        }
        let ghost old_rem = rem@;
        let t = rem.remove(m);
        proof {
            assert(rem@ =~= old_rem.remove(m as int));
            assert forall|i: int| 0 <= i < rem@.len() implies depth_of(fam@, *(#[trigger] rem@[i]), fam@.len()) is Some by {
                if i < m {
                    assert(rem@[i] == old_rem[i]);
                } else {
                    assert(rem@[i] == old_rem[i + 1]);
                }
            }
            assert(ordered(fam@, old_rem) == seq![old_rem[m as int]] + ordered(fam@, old_rem.remove(m as int)));
            assert(taken.push(t) + ordered(fam@, rem@) =~= taken + ordered(fam@, old_rem));
            assert(taken.push(t).drop_last() =~= taken);
        }
        match ratio_units_of(&*t) {
            Some(units) => {
                add_ratio_units(&mut merged, units);
            },
            None => {},
        }
        proof {
            taken = taken.push(t);
        }
    }
    proof {
        assert(ordered(fam@, rem@) =~= Seq::<Arc<LemmaType>>::empty());
        assert(taken =~= ordered(fam@, cands@));
    }
    merged
}

proof fn lemma_members_from(s: Seq<Arc<LemmaType>>, family: Seq<char>, side: FamilySide)
    ensures
        forall|i: int| 0 <= i < members(s, family, side).len() ==> exists|j: int|
            0 <= j < s.len() && s[j] == #[trigger] members(s, family, side)[i] && side_family(*s[j], side) == Some(family),
    decreases s.len(),
{
    if s.len() > 0 {
        lemma_members_from(s.drop_last(), family, side);
        let m = members(s.drop_last(), family, side);
        assert forall|i: int| 0 <= i < members(s, family, side).len() implies exists|j: int|
            0 <= j < s.len() && s[j] == #[trigger] members(s, family, side)[i] && side_family(*s[j], side) == Some(family) by {
            if i < m.len() {
                let j = choose|j: int| 0 <= j < s.drop_last().len() && s.drop_last()[j] == m[i] && side_family(*s.drop_last()[j], side) == Some(family);
                assert(s[j] == s.drop_last()[j]);
            } else {
                assert(s[s.len() - 1] == s.last());
            }
        }
    }
}

/// Measure and ratio members of a family have their parent chains defined.
proof fn lemma_side_depths_known(s: Seq<Arc<LemmaType>>, family: Seq<char>, side: FamilySide)
    requires
        depths_defined(s),
        side != FamilySide::Unit,
    ensures
        depths_known(members(s, family, FamilySide::Unit), members(s, family, side)),
{
    lemma_members_from(s, family, side);
    let c = members(s, family, side);
    assert forall|i: int| 0 <= i < c.len() implies depth_of(members(s, family, FamilySide::Unit), *(#[trigger] c[i]),
        members(s, family, FamilySide::Unit).len()) is Some by {
        let j = choose|j: int| 0 <= j < s.len() && s[j] == c[i] && side_family(*s[j], side) == Some(family);
        assert(spec_unit_family(*s[j]) == Some(family));
    }
}

/// The merged measure units of a family.
pub open spec fn family_measure_units(s: Seq<Arc<LemmaType>>, family: Seq<char>) -> Seq<MeasureUnit> {
    merged_measure(ordered(members(s, family, FamilySide::Unit), members(s, family, FamilySide::Measure)))
}

/// The merged ratio units of a family.
pub open spec fn family_ratio_units(s: Seq<Arc<LemmaType>>, family: Seq<char>) -> Seq<RatioUnit> {
    merged_ratio(ordered(members(s, family, FamilySide::Unit), members(s, family, FamilySide::Ratio)))
}

/// The unit names of a family: its merged measure units', else its merged ratio units'.
pub open spec fn family_names(s: Seq<Arc<LemmaType>>, family: Seq<char>) -> Seq<Seq<char>> {
    if family_measure_units(s, family).len() > 0 {
        measure_unit_names_of(family_measure_units(s, family))
    } else {
        ratio_unit_names_of(family_ratio_units(s, family))
    }
}

/// Precomputed units for one measure or ratio family.
pub struct FamilyUnitEntry {
    pub family: String,
    pub family_bare_names: Vec<String>,
    pub merged_measure_units: Option<MeasureUnits>,
    pub merged_ratio_units: Option<RatioUnits>,
}

/// `e` holds what the types `s` give family `e.family`.
pub open spec fn entry_matches(e: FamilyUnitEntry, s: Seq<Arc<LemmaType>>) -> bool {
    let f = e.family@;
    &&& (match e.merged_measure_units {
        Some(u) => family_measure_units(s, f).len() > 0 && measure_units_eq(u.0@, family_measure_units(s, f)),
        None => family_measure_units(s, f).len() == 0,
    })
    &&& (match e.merged_ratio_units {
        Some(u) => family_ratio_units(s, f).len() > 0 && u.0@ == family_ratio_units(s, f),
        None => family_ratio_units(s, f).len() == 0,
    })
    &&& crate::text::text_views(e.family_bare_names@) == family_names(s, f)
}

fn measure_names_owned(units: &Vec<MeasureUnit>) -> (r: Vec<String>)
    ensures
        crate::text::text_views(r@) == measure_unit_names_of(units@),
{
    let mut out: Vec<String> = Vec::new();
    let n = units.len();
    let mut i: usize = 0;
    while i < n
        invariant
            n == units@.len(),
            i <= n,
            crate::text::text_views(out@) =~= measure_unit_names_of(units@.subrange(0, i as int)),
        decreases n - i,
    {
        let ghost before = out@;
        out.push(units[i].name.clone());
        proof {
            assert(crate::text::text_views(out@) =~= crate::text::text_views(before).push(units@[i as int].name@));
            assert(measure_unit_names_of(units@.subrange(0, i + 1)) =~= measure_unit_names_of(units@.subrange(0, i as int)).push(units@[i as int].name@));
        }
        i = i + 1;
    }
    proof {
        assert(units@.subrange(0, n as int) =~= units@);
    }
    out
}

fn ratio_names_owned(units: &Vec<RatioUnit>) -> (r: Vec<String>)
    ensures
        crate::text::text_views(r@) == ratio_unit_names_of(units@),
{
    let mut out: Vec<String> = Vec::new();
    let n = units.len();
    let mut i: usize = 0;
    while i < n
        invariant
            n == units@.len(),
            i <= n,
            crate::text::text_views(out@) =~= ratio_unit_names_of(units@.subrange(0, i as int)),
        decreases n - i,
    {
        let ghost before = out@;
        out.push(units[i].name.clone());
        proof {
            assert(crate::text::text_views(out@) =~= crate::text::text_views(before).push(units@[i as int].name@));
            assert(ratio_unit_names_of(units@.subrange(0, i + 1)) =~= ratio_unit_names_of(units@.subrange(0, i as int)).push(units@[i as int].name@));
        }
        i = i + 1;
    }
    proof {
        assert(units@.subrange(0, n as int) =~= units@);
    }
    out
}

/// The entry of one family: its merged measure and ratio units and its unit names.
fn build_family_entry(values: &Vec<Arc<LemmaType>>, family: &str) -> (r: FamilyUnitEntry)
    requires
        depths_defined(values@),
    ensures
        r.family@ == family@,
        entry_matches(r, values@),
{
    let fam = collect_members(values, family, FamilySide::Unit);
    let measure_types = collect_members(values, family, FamilySide::Measure);
    let ratio_types = collect_members(values, family, FamilySide::Ratio);
    proof {
        lemma_side_depths_known(values@, family@, FamilySide::Measure);
        lemma_side_depths_known(values@, family@, FamilySide::Ratio);
    }
    let merged_measure = merge_measure_in_order(&fam, measure_types);
    let merged_ratio = merge_ratio_in_order(&fam, ratio_types);
    proof {
        lemma_names_of_eq(merged_measure@, family_measure_units(values@, family@));
    }
    let family_bare_names = if merged_measure.len() > 0 {
        measure_names_owned(&merged_measure)
    } else {
        ratio_names_owned(&merged_ratio)
    };
    let merged_measure_units = if merged_measure.len() > 0 {
        Some(MeasureUnits(merged_measure))
    } else {
        None
    };
    let merged_ratio_units = if merged_ratio.len() > 0 {
        Some(RatioUnits(merged_ratio))
    } else {
        None
    };
    FamilyUnitEntry { family: family.to_string(), family_bare_names, merged_measure_units, merged_ratio_units }
}

/// Some type of `s` has unit family `f`.
pub open spec fn has_family(s: Seq<Arc<LemmaType>>, f: Seq<char>) -> bool {
    exists|j: int| 0 <= j < s.len() && spec_unit_family(*(#[trigger] s[j])) == Some(f)
}

/// Two types of one family with the same name are the same type.
pub open spec fn names_consistent(s: Seq<Arc<LemmaType>>) -> bool {
    forall|i: int, j: int|
        0 <= i < s.len() && 0 <= j < s.len() && (#[trigger] spec_unit_family(*s[i])) is Some
            && spec_unit_family(*s[i]) == #[trigger] spec_unit_family(*s[j]) && spec_name(*s[i]) == spec_name(*s[j])
            ==> *s[i] == *s[j]
}

fn has_text(v: &Vec<String>, x: &str) -> (b: bool)
    ensures
        b == crate::text::text_views(v@).contains(x@),
{
    let n = v.len();
    let mut i: usize = 0;
    while i < n
        invariant
            n == v@.len(),
            i <= n,
            forall|j: int| 0 <= j < i ==> v@[j]@ != x@,
        decreases n - i,
    {
        if compare_text(v[i].as_str(), x) == 0 {
            proof {
                assert(crate::text::text_views(v@)[i as int] == x@);
            }
            return true;
        }
        i = i + 1;
    }
    proof {
        if crate::text::text_views(v@).contains(x@) {
            let k = choose|k: int| 0 <= k < crate::text::text_views(v@).len() && crate::text::text_views(v@)[k] == x@;
            assert(v@[k]@ == x@);
        }
    }
    false
}

fn distinct_families(values: &Vec<Arc<LemmaType>>) -> (r: Vec<String>)
    ensures
        crate::text::text_views(r@).no_duplicates(),
        forall|f: Seq<char>| crate::text::text_views(r@).contains(f) <==> has_family(values@, f),
{
    let mut out: Vec<String> = Vec::new();
    let n = values.len();
    let mut i: usize = 0;
    while i < n
        invariant
            n == values@.len(),
            i <= n,
            crate::text::text_views(out@).no_duplicates(),
            forall|f: Seq<char>| crate::text::text_views(out@).contains(f) <==> has_family(values@.subrange(0, i as int), f),
        decreases n - i,
    {
        let ghost before = out@;
        proof {
            assert forall|f: Seq<char>| has_family(values@.subrange(0, i + 1), f) <==> (has_family(values@.subrange(0, i as int), f)
                || spec_unit_family(*values@[i as int]) == Some(f)) by {
                let s1 = values@.subrange(0, i + 1);
                let s0 = values@.subrange(0, i as int);
                if has_family(s1, f) {
                    let j = choose|j: int| 0 <= j < s1.len() && spec_unit_family(*(#[trigger] s1[j])) == Some(f);
                    if j < i {
                        assert(values@.subrange(0, i as int)[j] == values@[j]);
                    }
                }
                if has_family(values@.subrange(0, i as int), f) {
                    let j = choose|j: int| 0 <= j < s0.len() && spec_unit_family(*(#[trigger] s0[j])) == Some(f);
                    assert(values@.subrange(0, i + 1)[j] == values@[j]);
                }
                if spec_unit_family(*values@[i as int]) == Some(f) {
                    assert(values@.subrange(0, i + 1)[i as int] == values@[i as int]);
                }
            }
        }
        match values[i].unit_family_name() {
            Some(f) => {
                if !has_text(&out, f) {
                    out.push(f.to_string());
                    proof {
                        let tb = crate::text::text_views(before);
                        let ta = crate::text::text_views(out@);
                        assert(ta =~= tb.push(f@));
                        assert forall|g: Seq<char>| ta.contains(g) <==> (tb.contains(g) || g == f@) by {
                            if tb.contains(g) {
                                let k = choose|k: int| 0 <= k < tb.len() && tb[k] == g;
                                assert(ta[k] == g);
                            }
                            if g == f@ {
                                assert(ta[tb.len() as int] == g);
                            }
                            if ta.contains(g) {
                                let k = choose|k: int| 0 <= k < ta.len() && ta[k] == g;
                                if k < tb.len() {
                                    assert(tb[k] == g);
                                }
                            }
                        }
                    }
                }
            },
            None => {},
        }
        i = i + 1;
    }
    proof {
        assert(values@.subrange(0, n as int) =~= values@);
    }
    out
}

/// Family-keyed unit data for the types in scope, ordered by family name.
pub struct FamilyUnitCatalog {
    entries: Vec<FamilyUnitEntry>,
}

impl View for FamilyUnitCatalog {
    type V = Seq<FamilyUnitEntry>;

    closed spec fn view(&self) -> Seq<FamilyUnitEntry> {
        self.entries@
    }
}

/// The family names of the entries, in order.
pub open spec fn entry_families(e: Seq<FamilyUnitEntry>) -> Seq<Seq<char>> {
    e.map_values(|x: FamilyUnitEntry| x.family@)
}

impl FamilyUnitCatalog {
    /// One entry per family of the types in scope, ordered by family name.
    pub fn build(unit_index: &UnitIndex) -> (r: FamilyUnitCatalog)
        requires
            depths_defined(unit_index@),
            names_consistent(unit_index@),
        ensures
            crate::text::strictly_sorted(entry_families(r@)),
            forall|f: Seq<char>| entry_families(r@).contains(f) <==> has_family(unit_index@, f),
            forall|i: int| 0 <= i < r@.len() ==> entry_matches(#[trigger] r@[i], unit_index@),
    {
        let values = unit_index.values();
        let families = distinct_families(values);
        let sorted = crate::text::sort_texts(&families);
        let mut entries: Vec<FamilyUnitEntry> = Vec::new();
        let n = sorted.len();
        let mut i: usize = 0;
        while i < n
            invariant
                n == sorted@.len(),
                i <= n,
                values@ == unit_index@,
                depths_defined(values@),
                entries@.len() == i,
                forall|k: int| 0 <= k < i ==> (#[trigger] entries@[k]).family@ == sorted@[k]@,
                forall|k: int| 0 <= k < i ==> entry_matches(#[trigger] entries@[k], values@),
            decreases n - i,
        {
            let entry = build_family_entry(values, sorted[i].as_str());
            entries.push(entry);
            i = i + 1;
        }
        proof {
            assert(entry_families(entries@) =~= crate::text::text_views(sorted@));
        }
        FamilyUnitCatalog { entries }
    }
}

/// The unit names a type declares: its measure units', else its ratio units'.
pub open spec fn declared_names(t: LemmaType) -> Seq<Seq<char>> {
    if (t.specifications is Measure || t.specifications is MeasureRange) && spec_measure_units(t.specifications).len() > 0 {
        measure_unit_names_of(spec_measure_units(t.specifications))
    } else if (t.specifications is Ratio || t.specifications is RatioRange) && spec_ratio_units(t.specifications).len() > 0 {
        ratio_unit_names_of(spec_ratio_units(t.specifications))
    } else {
        Seq::empty()
    }
}

/// `acc` followed by the names of `xs` not yet present, in order.
pub open spec fn dedup_push(acc: Seq<Seq<char>>, xs: Seq<Seq<char>>) -> Seq<Seq<char>>
    decreases xs.len(),
{
    if xs.len() == 0 {
        acc
    } else {
        let a = dedup_push(acc, xs.drop_last());
        if a.contains(xs.last()) {
            a
        } else {
            a.push(xs.last())
        }
    }
}

/// Index of the entry of family `f`.
pub open spec fn find_entry(es: Seq<FamilyUnitEntry>, f: Seq<char>, n: int) -> Option<int>
    decreases n,
{
    if n <= 0 {
        None
    } else {
        match find_entry(es, f, n - 1) {
            Some(i) => Some(i),
            None => if es[n - 1].family@ == f {
                Some(n - 1)
            } else {
                None
            },
        }
    }
}

/// The entry holds every name of `d` among its unit names.
pub open spec fn covers(e: FamilyUnitEntry, d: Seq<Seq<char>>) -> bool {
    forall|k: int| 0 <= k < d.len() ==> text_views(e.family_bare_names@).contains(#[trigger] d[k])
}

/// Indices of the first `n` entries that cover `d`, ascending.
pub open spec fn covering(es: Seq<FamilyUnitEntry>, d: Seq<Seq<char>>, n: int) -> Seq<int>
    decreases n,
{
    if n <= 0 {
        Seq::empty()
    } else if covers(es[n - 1], d) {
        covering(es, d, n - 1).push(n - 1)
    } else {
        covering(es, d, n - 1)
    }
}

/// The entry a type's units expand through: its family's, else the only family that
/// holds every unit the type declares.
pub open spec fn spec_entry_index(es: Seq<FamilyUnitEntry>, t: LemmaType) -> Option<int> {
    match spec_unit_family(t) {
        Some(f) => find_entry(es, f, es.len() as int),
        None => {
            let d = declared_names(t);
            let c = covering(es, d, es.len() as int);
            if d.len() > 0 && c.len() == 1 {
                Some(c[0])
            } else {
                None
            }
        },
    }
}

/// Unit names for a type's result maps: the names it declares, then its family's.
pub open spec fn spec_ordered_bare_names(es: Seq<FamilyUnitEntry>, t: LemmaType) -> Seq<Seq<char>> {
    let d = dedup_push(Seq::empty(), declared_names(t));
    match spec_entry_index(es, t) {
        None => d,
        Some(i) => if d.len() == 0 {
            text_views(es[i].family_bare_names@)
        } else {
            dedup_push(d, text_views(es[i].family_bare_names@))
        },
    }
}

fn dedup_append(out: &mut Vec<String>, xs: &Vec<&str>)
    ensures
        text_views(final(out)@) == dedup_push(text_views(old(out)@), str_views(xs@)),
{
    let ghost acc = text_views(out@);
    let n = xs.len();
    let mut j: usize = 0;
    proof {
        assert(str_views(xs@).subrange(0, 0) =~= Seq::<Seq<char>>::empty());
    }
    while j < n
        invariant
            n == xs@.len(),
            j <= n,
            text_views(out@) == dedup_push(acc, str_views(xs@).subrange(0, j as int)),
        decreases n - j,
    {
        proof {
            let sub = str_views(xs@).subrange(0, j + 1);
            assert(sub.drop_last() =~= str_views(xs@).subrange(0, j as int));
            assert(sub.last() == xs@[j as int]@);
        }
        if !has_text(out, xs[j]) {
            let ghost before = out@;
            out.push(xs[j].to_string());
            proof {
                assert(text_views(out@) =~= text_views(before).push(xs@[j as int]@));
            }
        }
        j = j + 1;
    }
    proof {
        assert(str_views(xs@).subrange(0, n as int) =~= str_views(xs@));
    }
}

fn copy_strings(v: &Vec<String>) -> (r: Vec<String>)
    ensures
        text_views(r@) == text_views(v@),
{
    let mut out: Vec<String> = Vec::new();
    let n = v.len();
    let mut i: usize = 0;
    while i < n
        invariant
            n == v@.len(),
            i <= n,
            text_views(out@) =~= text_views(v@.subrange(0, i as int)),
        decreases n - i,
    {
        let ghost before = out@;
        out.push(v[i].clone());
        proof {
            assert(text_views(out@) =~= text_views(before).push(v@[i as int]@));
            assert(text_views(v@.subrange(0, i + 1)) =~= text_views(v@.subrange(0, i as int)).push(v@[i as int]@));
        }
        i = i + 1;
    }
    proof {
        assert(v@.subrange(0, n as int) =~= v@);
    }
    out
}

fn strings_as_strs(v: &Vec<String>) -> (r: Vec<&str>)
    ensures
        str_views(r@) == text_views(v@),
{
    let mut out: Vec<&str> = Vec::new();
    let n = v.len();
    let mut i: usize = 0;
    while i < n
        invariant
            n == v@.len(),
            i <= n,
            str_views(out@) =~= text_views(v@.subrange(0, i as int)),
        decreases n - i,
    {
        let ghost before = out@;
        out.push(v[i].as_str());
        proof {
            assert(str_views(out@) =~= str_views(before).push(v@[i as int]@));
            assert(text_views(v@.subrange(0, i + 1)) =~= text_views(v@.subrange(0, i as int)).push(v@[i as int]@));
        }
        i = i + 1;
    }
    proof {
        assert(v@.subrange(0, n as int) =~= v@);
    }
    out
}

fn declared_names_exec(t: &LemmaType) -> (r: Vec<&str>)
    ensures
        str_views(r@) == declared_names(*t),
{
    match t.measure_unit_names() {
        Some(names) => names,
        None => match t.ratio_unit_names() {
            Some(names) => names,
            None => {
                let v: Vec<&str> = Vec::new();
                proof {
                    assert(str_views(v@) =~= Seq::<Seq<char>>::empty());
                }
                v
            },
        },
    }
}

/// The unit names a type declares, each once (measure units, else ratio units).
pub fn declared_bare_names_only(lemma_type: &LemmaType) -> (r: Vec<String>)
    ensures
        text_views(r@) == dedup_push(Seq::empty(), declared_names(*lemma_type)),
{
    let mut names: Vec<String> = Vec::new();
    proof {
        assert(text_views(names@) =~= Seq::<Seq<char>>::empty());
    }
    let declared = declared_names_exec(lemma_type);
    dedup_append(&mut names, &declared);
    names
}

fn unit_expansion_family_name(lemma_type: &LemmaType) -> (r: Option<String>)
    ensures
        match r {
            Some(f) => spec_unit_family(*lemma_type) == Some(f@),
            None => spec_unit_family(*lemma_type) is None,
        },
{
    if let Some(family) = lemma_type.unit_family_name() {
        return Some(family.to_string());
    }
    match crate::types::range_element_type_specification(&lemma_type.specifications) {
        Some(element) => {
            let primitive = LemmaType::primitive(element);
            match primitive.unit_family_name() {
                Some(f) => Some(f.to_string()),
                None => None,
            }
        },
        None => None,
    }
}

fn covers_exec(e: &FamilyUnitEntry, d: &Vec<&str>) -> (b: bool)
    ensures
        b == covers(*e, str_views(d@)),
{
    let n = d.len();
    let mut k: usize = 0;
    while k < n
        invariant
            n == d@.len(),
            k <= n,
            forall|j: int| 0 <= j < k ==> text_views(e.family_bare_names@).contains(#[trigger] str_views(d@)[j]),
        decreases n - k,
    {
        if !has_text(&e.family_bare_names, d[k]) {
            proof {
                assert(str_views(d@)[k as int] == d@[k as int]@);
            }
            return false;
        }
        proof {
            assert(str_views(d@)[k as int] == d@[k as int]@);
        }
        k = k + 1;
    }
    true
}


proof fn lemma_find_entry_stable(es: Seq<FamilyUnitEntry>, f: Seq<char>, k: int, m: int)
    requires
        k <= m,
        find_entry(es, f, k) is Some,
    ensures
        find_entry(es, f, m) == find_entry(es, f, k),
    decreases m - k,
{
    if k < m {
        lemma_find_entry_stable(es, f, k, m - 1);
    }
}

proof fn lemma_covering_grows(es: Seq<FamilyUnitEntry>, d: Seq<Seq<char>>, k: int, m: int)
    requires
        0 <= k <= m,
    ensures
        covering(es, d, m).len() >= covering(es, d, k).len(),
        covering(es, d, k).len() > 0 ==> covering(es, d, m)[0] == covering(es, d, k)[0],
    decreases m - k,
{
    if k < m {
        lemma_covering_grows(es, d, k, m - 1);
    }
}

impl FamilyUnitCatalog {
    /// The entry a type's units expand through: its family's entry, else, for a type
    /// without a family that declares units, the only family holding all of them.
    pub fn entry_for_type(&self, lemma_type: &LemmaType) -> (r: Option<&FamilyUnitEntry>)
        ensures
            match r {
                Some(e) => spec_entry_index(self@, *lemma_type) matches Some(i) && 0 <= i < self@.len() && *e == self@[i],
                None => spec_entry_index(self@, *lemma_type) is None,
            },
    {
        let n = self.entries.len();
        match unit_expansion_family_name(lemma_type) {
            Some(family) => {
                let mut i: usize = 0;
                while i < n
                    invariant
                        n == self@.len(),
                        i <= n,
                        find_entry(self@, family@, i as int) is None,
                        spec_unit_family(*lemma_type) == Some(family@),
                    decreases n - i,
                {
                    if compare_text(self.entries[i].family.as_str(), family.as_str()) == 0 {
                        proof {
                            assert(find_entry(self@, family@, i + 1) == Some(i as int));
                            lemma_find_entry_stable(self@, family@, i + 1, n as int);
                            assert(spec_unit_family(*lemma_type) == Some(family@));
                            assert(find_entry(self@, family@, self@.len() as int) == Some(i as int));
                            assert(spec_entry_index(self@, *lemma_type) == Some(i as int));
                        }
                        return Some(&self.entries[i]);
                    }
                    i = i + 1;
                }
                None
            },
            None => {
                let declared = declared_names_exec(lemma_type);
                if declared.len() == 0 {
                    return None;
                }
                let mut matched: Option<usize> = None;
                let mut i: usize = 0;
                while i < n
                    invariant
                        n == self@.len(),
                        i <= n,
                        str_views(declared@) == declared_names(*lemma_type),
                        declared@.len() > 0,
                        spec_unit_family(*lemma_type) is None,
                        covering(self@, declared_names(*lemma_type), i as int).len() <= 1,
                        match matched {
                            Some(m) => m < i && covering(self@, declared_names(*lemma_type), i as int) == seq![m as int],
                            None => covering(self@, declared_names(*lemma_type), i as int).len() == 0,
                        },
                    decreases n - i,
                {
                    if covers_exec(&self.entries[i], &declared) {
                        if matched.is_some() {
                            proof {
                                assert(covering(self@, declared_names(*lemma_type), i + 1).len() == 2);
                                lemma_covering_grows(self@, declared_names(*lemma_type), i + 1, n as int);
                                assert(spec_unit_family(*lemma_type) is None);
                                assert(covering(self@, declared_names(*lemma_type), self@.len() as int).len() >= 2);
                                assert(spec_entry_index(self@, *lemma_type) is None);
                            }
                            return None;
                        }
                        matched = Some(i);
                        proof {
                            assert(covering(self@, declared_names(*lemma_type), i + 1) =~= seq![i as int]);
                        }
                    }
                    i = i + 1;
                }
                match matched {
                    Some(m) => Some(&self.entries[m]),
                    None => None,
                }
            },
        }
    }

    /// Unit names for a type's result maps: the units it declares first, then the rest
    /// of its family's units; just its own when no family entry applies.
    pub fn ordered_bare_names_for_type(&self, lemma_type: &LemmaType) -> (r: Vec<String>)
        ensures
            text_views(r@) == spec_ordered_bare_names(self@, *lemma_type),
    {
        let mut names = declared_bare_names_only(lemma_type);
        match self.entry_for_type(lemma_type) {
            None => names,
            Some(entry) => {
                if names.len() == 0 {
                    copy_strings(&entry.family_bare_names)
                } else {
                    let family_names = strings_as_strs(&entry.family_bare_names);
                    dedup_append(&mut names, &family_names);
                    names
                }
            },
        }
    }
}

pub open spec fn decomposition_view(o: Option<crate::units::BaseMeasureVector>) -> Option<crate::signature::SigView> {
    match o {
        Some(v) => Some(v@),
        None => None,
    }
}

/// Both specifications are the same unit-bearing kind and agree on every field but
/// their units.
pub open spec fn same_but_units(a: TypeSpecification, b: TypeSpecification) -> bool {
    match (a, b) {
        (
            TypeSpecification::Measure { minimum: a1, maximum: a2, decimals: a3, traits: a4, decomposition: a5, help: a6, .. },
            TypeSpecification::Measure { minimum: b1, maximum: b2, decimals: b3, traits: b4, decomposition: b5, help: b6, .. },
        ) => a1 == b1 && a2 == b2 && a3 == b3 && a4@ == b4@ && decomposition_view(a5) == decomposition_view(b5) && a6@ == b6@,
        (
            TypeSpecification::MeasureRange { lower: a1, upper: a2, minimum: a3, maximum: a4, decomposition: a5, help: a6, .. },
            TypeSpecification::MeasureRange { lower: b1, upper: b2, minimum: b3, maximum: b4, decomposition: b5, help: b6, .. },
        ) => a1 == b1 && a2 == b2 && a3 == b3 && a4 == b4 && decomposition_view(a5) == decomposition_view(b5) && a6@ == b6@,
        (
            TypeSpecification::Ratio { minimum: a1, maximum: a2, decimals: a3, help: a4, .. },
            TypeSpecification::Ratio { minimum: b1, maximum: b2, decimals: b3, help: b4, .. },
        ) => a1 == b1 && a2 == b2 && a3 == b3 && a4@ == b4@,
        (
            TypeSpecification::RatioRange { lower: a1, upper: a2, minimum: a3, maximum: a4, help: a5, .. },
            TypeSpecification::RatioRange { lower: b1, upper: b2, minimum: b3, maximum: b4, help: b5, .. },
        ) => a1 == b1 && a2 == b2 && a3 == b3 && a4 == b4 && a5@ == b5@,
        _ => false,
    }
}

pub open spec fn carries_units(s: TypeSpecification) -> bool {
    s is Measure || s is MeasureRange || s is Ratio || s is RatioRange
}

/// The measure units a type shows with: its family's merged units when it has an
/// entry with some, else its own.
pub open spec fn show_measure_units(es: Seq<FamilyUnitEntry>, t: LemmaType) -> Seq<MeasureUnit> {
    match spec_entry_index(es, t) {
        Some(i) => match es[i].merged_measure_units {
            Some(u) => u.0@,
            None => spec_measure_units(t.specifications),
        },
        None => spec_measure_units(t.specifications),
    }
}

pub open spec fn show_ratio_units(es: Seq<FamilyUnitEntry>, t: LemmaType) -> Seq<RatioUnit> {
    match spec_entry_index(es, t) {
        Some(i) => match es[i].merged_ratio_units {
            Some(u) => u.0@,
            None => spec_ratio_units(t.specifications),
        },
        None => spec_ratio_units(t.specifications),
    }
}

fn copy_decomposition(o: &Option<crate::units::BaseMeasureVector>) -> (r: Option<crate::units::BaseMeasureVector>)
    ensures
        decomposition_view(r) == decomposition_view(*o),
{
    match o {
        Some(v) => Some(v.duplicate()),
        None => None,
    }
}

fn copy_traits(v: &Vec<crate::units::MeasureTrait>) -> (r: Vec<crate::units::MeasureTrait>)
    ensures
        r@ == v@,
{
    let mut out: Vec<crate::units::MeasureTrait> = Vec::new();
    let n = v.len();
    let mut i: usize = 0;
    while i < n
        invariant
            n == v@.len(),
            i <= n,
            out@ =~= v@.subrange(0, i as int),
        decreases n - i,
    {
        out.push(v[i]);
        i = i + 1;
    }
    proof {
        assert(v@.subrange(0, n as int) =~= v@);
    }
    out
}

fn pick_measure_units(entry: Option<&FamilyUnitEntry>, own: &MeasureUnits) -> (r: MeasureUnits)
    ensures
        measure_units_eq(r.0@, match entry {
            Some(e) => match e.merged_measure_units {
                Some(u) => u.0@,
                None => own.0@,
            },
            None => own.0@,
        }),
{
    match entry {
        Some(e) => match &e.merged_measure_units {
            Some(u) => u.clone(),
            None => own.clone(),
        },
        None => own.clone(),
    }
}

fn pick_ratio_units(entry: Option<&FamilyUnitEntry>, own: &RatioUnits) -> (r: RatioUnits)
    ensures
        r.0@ == (match entry {
            Some(e) => match e.merged_ratio_units {
                Some(u) => u.0@,
                None => own.0@,
            },
            None => own.0@,
        }),
{
    match entry {
        Some(e) => match &e.merged_ratio_units {
            Some(u) => u.clone(),
            None => own.clone(),
        },
        None => own.clone(),
    }
}

impl FamilyUnitCatalog {
    /// `rule_type` with its units replaced by its family's merged units, for showing
    /// a rule's schema.
    pub fn rule_type_for_show(&self, rule_type: &LemmaType) -> (r: LemmaType)
        ensures
            r.name == rule_type.name,
            r.extends == rule_type.extends,
            r.measure_binding_unit == rule_type.measure_binding_unit,
            carries_units(rule_type.specifications) ==> same_but_units(rule_type.specifications, r.specifications),
            (rule_type.specifications is Measure || rule_type.specifications is MeasureRange) ==> measure_units_eq(
                spec_measure_units(r.specifications),
                show_measure_units(self@, *rule_type),
            ),
            (rule_type.specifications is Ratio || rule_type.specifications is RatioRange) ==> spec_ratio_units(r.specifications)
                == show_ratio_units(self@, *rule_type),
            !carries_units(rule_type.specifications) ==> crate::equality::spec_eq(r.specifications, rule_type.specifications),
    {
        let entry = self.entry_for_type(rule_type);
        let specifications = match &rule_type.specifications {
            TypeSpecification::Measure { minimum, maximum, decimals, units, traits, decomposition, help } => TypeSpecification::Measure {
                minimum: crate::types::copy_bound(minimum),
                maximum: crate::types::copy_bound(maximum),
                decimals: *decimals,
                units: pick_measure_units(entry, units),
                traits: copy_traits(traits),
                decomposition: copy_decomposition(decomposition),
                help: help.clone(),
            },
            TypeSpecification::MeasureRange { lower, upper, minimum, maximum, units, decomposition, help } => TypeSpecification::MeasureRange {
                lower: crate::types::copy_bound(lower),
                upper: crate::types::copy_bound(upper),
                minimum: crate::types::copy_bound(minimum),
                maximum: crate::types::copy_bound(maximum),
                units: pick_measure_units(entry, units),
                decomposition: copy_decomposition(decomposition),
                help: help.clone(),
            },
            TypeSpecification::Ratio { minimum, maximum, decimals, units, help } => TypeSpecification::Ratio {
                minimum: *minimum,
                maximum: *maximum,
                decimals: *decimals,
                units: pick_ratio_units(entry, units),
                help: help.clone(),
            },
            TypeSpecification::RatioRange { lower, upper, minimum, maximum, units, help } => TypeSpecification::RatioRange {
                lower: *lower,
                upper: *upper,
                minimum: *minimum,
                maximum: *maximum,
                units: pick_ratio_units(entry, units),
                help: help.clone(),
            },
            _ => {
                return crate::values::copy_lemma_type(rule_type);
            },
        };
        let name = match &rule_type.name {
            Some(n) => Some(n.clone()),
            None => None,
        };
        let binding = match &rule_type.measure_binding_unit {
            Some(n) => Some(n.clone()),
            None => None,
        };
        LemmaType { name, specifications, extends: rule_type.extends.duplicate(), measure_binding_unit: binding }
    }
}

} // verus!
