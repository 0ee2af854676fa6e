//! Unit tables and dimensional decompositions.
//!
//! A [`BaseMeasureVector`] maps base dimension names to exponents and is kept sorted
//! by name, as an ordered map would keep it. Measure and ratio unit tables list the
//! declared units of a type with their conversion factors.

use vstd::prelude::*;
use crate::rational::RationalInteger;
use crate::rational::{rational_new, rational_one};
use crate::signature::{add_entry, has_name, is_canonical_form, lemma_prefix_step, lemma_sig_view_push, lemma_total_append, lemma_total_scaled, lemma_total_single, no_zero, partial_sums_fit, scaled, sig_view, strictly_sorted, total, SigView};
use crate::text::{compare_text, seq_lt};
use crate::equality::{measure_unit_eq, measure_units_eq};

verus! {

/// Marker traits of a measure type that give it temporal meaning.
#[derive(Debug, Clone, Copy, PartialEq, Eq, Hash, Structural)]
pub enum MeasureTrait {
    Duration,
    Calendar,
}

/// Dimensional decomposition: base dimension names with exponents, sorted by name.
#[derive(Debug, PartialEq, Eq, Hash)]
pub struct BaseMeasureVector {
    entries: Vec<(String, i32)>,
}

impl View for BaseMeasureVector {
    type V = SigView;

    closed spec fn view(&self) -> SigView {
        sig_view(self.entries@)
    }
}

impl BaseMeasureVector {
    #[verifier::type_invariant]
    closed spec fn inv(self) -> bool {
        strictly_sorted(sig_view(self.entries@))
    }

    /// The empty decomposition (dimensionless).
    pub fn new() -> (r: BaseMeasureVector)
        ensures
            r@ == Seq::<(Seq<char>, int)>::empty(),
    {
        let r = BaseMeasureVector { entries: Vec::new() };
        proof {
            assert(sig_view(r.entries@) =~= Seq::<(Seq<char>, int)>::empty());
        }
        r
    }

    /// A decomposition holding one dimension.
    pub fn single(name: String, exponent: i32) -> (r: BaseMeasureVector)
        ensures
            r@ == seq![(name@, exponent as int)],
    {
        let mut entries: Vec<(String, i32)> = Vec::new();
        entries.push((name, exponent));
        let r = BaseMeasureVector { entries };
        proof {
            assert(sig_view(r.entries@) =~= seq![(name@, exponent as int)]);
        }
        r
    }

    /// The entries, sorted strictly ascending by name.
    pub fn entries(&self) -> (r: &Vec<(String, i32)>)
        ensures
            sig_view(r@) == self@,
            strictly_sorted(self@),
    {
        proof {
            use_type_invariant(self);
        }
        &self.entries
    }

    /// Number of dimensions listed.
    pub fn len(&self) -> (n: usize)
        ensures
            n == self@.len(),
    {
        self.entries.len()
    }

    /// Whether no dimension is listed.
    pub fn is_empty(&self) -> (b: bool)
        ensures
            b == (self@.len() == 0),
    {
        self.entries.len() == 0
    }

    /// Exponent recorded for `name`, if any.
    pub fn get(&self, name: &str) -> (r: Option<i32>)
        ensures
            r is Some <==> has_name(self@, name@),
            r is Some ==> r->0 as int == total(self@, name@),
    {
        proof {
            use_type_invariant(self);
        }
        let ghost s = self@;
        let n = self.entries.len();
        let mut i: usize = 0;
        while i < n
            invariant
                n == self.entries@.len(),
                s == sig_view(self.entries@),
                strictly_sorted(s),
                i <= n,
                forall|j: int| 0 <= j < i ==> #[trigger] s[j].0 != name@,
            decreases n - i,
        {
            if compare_text(self.entries[i].0.as_str(), name) == 0 {
                proof {
                    assert(s[i as int].0 == name@);
                    crate::signature::lemma_total_sorted_entry(s, i as int);
                }
                return Some(self.entries[i].1);
            }
            i = i + 1;
        }
        proof {
            assert(!has_name(s, name@));
        }
        None
    }

    /// Whether two decompositions list the same dimensions with the same exponents.
    pub fn same_as(&self, other: &BaseMeasureVector) -> (b: bool)
        ensures
            b == (self@ == other@),
    {
        let n = self.entries.len();
        if n != other.entries.len() {
            proof {
                assert(self@.len() != other@.len());
            }
            return false;
        }
        let mut i: usize = 0;
        while i < n
            invariant
                n == self.entries@.len(),
                n == other.entries@.len(),
                i <= n,
                forall|j: int| 0 <= j < i ==> #[trigger] self@[j] == other@[j],
            decreases n - i,
        {
            if compare_text(self.entries[i].0.as_str(), other.entries[i].0.as_str()) != 0
                || self.entries[i].1 != other.entries[i].1 {
                proof {
                    assert(self@[i as int] != other@[i as int]);
                }
                return false;
            }
            i = i + 1;
        }
        proof {
            assert(self@ =~= other@);
        }
        true
    }

    /// A copy with the same entries.
    pub fn duplicate(&self) -> (r: BaseMeasureVector)
        ensures
            r@ == self@,
    {
        proof {
            use_type_invariant(self);
        }
        let mut entries: Vec<(String, i32)> = Vec::new();
        let n = self.entries.len();
        let mut i: usize = 0;
        while i < n
            invariant
                n == self.entries@.len(),
                i <= n,
                strictly_sorted(sig_view(self.entries@)),
                sig_view(entries@) == sig_view(self.entries@).subrange(0, i as int),
            decreases n - i,
        {
            let name = self.entries[i].0.clone();
            let ghost before = entries@;
            entries.push((name, self.entries[i].1));
            proof {
                assert(entries@ =~= before.push(entries@.last()));
                lemma_sig_view_push(before, entries@.last());
                assert(sig_view(entries@) =~= sig_view(self.entries@).subrange(0, i + 1));
            }
            i = i + 1;
        }
        proof {
            assert(sig_view(self.entries@).subrange(0, n as int) =~= sig_view(self.entries@));
        }
        BaseMeasureVector { entries }
    }
}

impl BaseMeasureVector {
    /// The decomposition with every exponent negated.
    pub fn negated(&self) -> (r: BaseMeasureVector)
        requires
            forall|i: int| 0 <= i < self@.len() ==> #[trigger] self@[i].1 != i32::MIN,
        ensures
            r@ == scaled(self@, -1),
    {
        proof {
            use_type_invariant(self);
        }
        let mut entries: Vec<(String, i32)> = Vec::new();
        let n = self.entries.len();
        let mut i: usize = 0;
        while i < n
            invariant
                n == self.entries@.len(),
                i <= n,
                sig_view(self.entries@) == self@,
                strictly_sorted(self@),
                forall|j: int| 0 <= j < self@.len() ==> #[trigger] self@[j].1 != i32::MIN,
                sig_view(entries@) == scaled(self@.subrange(0, i as int), -1),
            decreases n - i,
        {
            let name = self.entries[i].0.clone();
            let e = self.entries[i].1;
            proof {
                assert(self@[i as int] == (self.entries@[i as int].0@, e as int));
                assert(self@[i as int].1 == e as int);
            }
            let ghost before = entries@;
            entries.push((name, -e));
            proof {
                assert(entries@ =~= before.push(entries@.last()));
                lemma_sig_view_push(before, entries@.last());
                assert(sig_view(entries@) =~= scaled(self@.subrange(0, i + 1), -1));
            }
            i = i + 1;
        }
        proof {
            assert(self@.subrange(0, n as int) =~= self@);
            assert forall|a: int, b: int| 0 <= a < b < sig_view(entries@).len() implies seq_lt(#[trigger] sig_view(entries@)[a].0, #[trigger] sig_view(entries@)[b].0) by {
                assert(sig_view(entries@)[a].0 == self@[a].0);
                assert(sig_view(entries@)[b].0 == self@[b].0);
            }
        }
        BaseMeasureVector { entries }
    }
}

impl Clone for BaseMeasureVector {
    fn clone(&self) -> (r: Self)
        ensures
            r@ == self@,
    {
        self.duplicate()
    }
}

/// Name of the base dimension shared by duration units.
pub open spec fn duration_dimension() -> Seq<char> {
    seq!['d', 'u', 'r', 'a', 't', 'i', 'o', 'n']
}

/// Name of the base dimension shared by calendar units.
pub open spec fn calendar_dimension() -> Seq<char> {
    seq!['c', 'a', 'l', 'e', 'n', 'd', 'a', 'r']
}

/// The decomposition `{duration: 1}`.
pub fn duration_decomposition() -> (r: BaseMeasureVector)
    ensures
        r@ == seq![(duration_dimension(), 1int)],
{
    proof {
        reveal_strlit("duration");
        assert("duration"@ =~= duration_dimension());
    }
    BaseMeasureVector::single(String::from_str("duration"), 1)
}

/// The decomposition `{calendar: 1}`.
pub fn calendar_decomposition() -> (r: BaseMeasureVector)
    ensures
        r@ == seq![(calendar_dimension(), 1int)],
{
    proof {
        reveal_strlit("calendar");
        assert("calendar"@ =~= calendar_dimension());
    }
    BaseMeasureVector::single(String::from_str("calendar"), 1)
}

/// Combine two decompositions by adding (multiply) or subtracting (divide) the right
/// exponents into the left ones. A dimension the right side touches is kept exactly
/// when its sum is not zero; the other left dimensions are kept as they were.
pub fn combine_decompositions(left: &BaseMeasureVector, right: &BaseMeasureVector, is_multiply: bool) -> (r: BaseMeasureVector)
    requires
        !is_multiply ==> forall|i: int| 0 <= i < right@.len() ==> #[trigger] right@[i].1 != i32::MIN,
        partial_sums_fit(left@ + scaled(right@, if is_multiply { 1 } else { -1 })),
    ensures
        forall|n: Seq<char>| #[trigger] total(r@, n) == total(left@, n) + (if is_multiply { 1int } else { -1int }) * total(right@, n),
        forall|n: Seq<char>| #[trigger] has_name(r@, n) <==> (if has_name(right@, n) {
            total(r@, n) != 0
        } else {
            has_name(left@, n)
        }),
        no_zero(left@) ==> no_zero(r@),
        strictly_sorted(r@),
{
    let ghost f: int = if is_multiply { 1 } else { -1 };
    let ghost l = left@;
    let rv = right.entries();
    let ghost rs = right@;
    let base = left.duplicate();
    proof {
        use_type_invariant(&base);
    }
    let mut acc = base.entries;
    proof {
        assert(l + scaled(rs.subrange(0, 0), f) =~= l);
    }
    let n = rv.len();
    let mut k: usize = 0;
    while k < n
        invariant
            n == rs.len(),
            sig_view(rv@) == rs,
            f == (if is_multiply { 1int } else { -1int }),
            !is_multiply ==> forall|i: int| 0 <= i < rs.len() ==> #[trigger] rs[i].1 != i32::MIN,
            partial_sums_fit(l + scaled(rs, f)),
            k <= n,
            strictly_sorted(sig_view(acc@)),
            no_zero(l) ==> no_zero(sig_view(acc@)),
            forall|m: Seq<char>| #[trigger] total(sig_view(acc@), m) == total(l + scaled(rs.subrange(0, k as int), f), m),
            forall|m: Seq<char>| #[trigger] has_name(sig_view(acc@), m) <==> (if has_name(rs.subrange(0, k as int), m) {
                total(sig_view(acc@), m) != 0
            } else {
                has_name(l, m)
            }),
        decreases n - k,
    {
        let name = &rv[k].0;
        let e = rv[k].1;
        proof {
            assert(rs[k as int] == (name@, e as int));
            assert(rs[k as int].1 == e as int);
        }
        let delta = if is_multiply { e } else { -e };
        let ghost before = sig_view(acc@);
        let ghost pk = rs.subrange(0, k as int);
        let ghost pk1 = rs.subrange(0, k + 1);
        proof {
            lemma_prefix_step(rs, k as int);
            assert(pk1 =~= pk.push(rs[k as int]));
            assert(rs[k as int] == (name@, e as int));
            let whole = l + scaled(rs, f);
            assert(l + scaled(pk1, f) =~= whole.subrange(0, l.len() + k + 1));
            let _ = total(whole.subrange(0, l.len() + k + 1), name@);
            assert(scaled(pk1, f) =~= scaled(pk, f).push((name@, f * e)));
            assert(l + scaled(pk1, f) =~= (l + scaled(pk, f)).push((name@, f * e)));
            lemma_total_append(l + scaled(pk, f), seq![(name@, f * e)], name@);
            assert((l + scaled(pk, f)).push((name@, f * e)) =~= (l + scaled(pk, f)) + seq![(name@, f * e)]);
            lemma_total_single((name@, f * e), name@);
        }
        add_entry(&mut acc, name, delta);
        proof {
            assert forall|m: Seq<char>| #[trigger] total(sig_view(acc@), m) == total(l + scaled(pk1, f), m) by {
                lemma_total_append(l + scaled(pk, f), seq![(name@, f * e)], m);
                assert((l + scaled(pk, f)).push((name@, f * e)) =~= (l + scaled(pk, f)) + seq![(name@, f * e)]);
                lemma_total_single((name@, f * e), m);
            }
            assert forall|m: Seq<char>| #[trigger] has_name(sig_view(acc@), m) <==> (if has_name(pk1, m) {
                total(sig_view(acc@), m) != 0
            } else {
                has_name(l, m)
            }) by {
                if has_name(pk1, m) && m != name@ {
                    let i = choose|i: int| 0 <= i < pk1.len() && pk1[i].0 == m;
                    assert(pk[i].0 == m);
                }
                if has_name(pk, m) {
                    let i = choose|i: int| 0 <= i < pk.len() && pk[i].0 == m;
                    assert(pk1[i].0 == m);
                }
                if m == name@ {
                    assert(pk1[k as int].0 == m);
                }
            }
        }
        k = k + 1;
    }
    proof {
        assert(rs.subrange(0, n as int) =~= rs);
        assert forall|m: Seq<char>| #[trigger] total(sig_view(acc@), m) == total(l, m) + f * total(rs, m) by {
            lemma_total_append(l, scaled(rs, f), m);
            lemma_total_scaled(rs, f, m);
        }
    }
    BaseMeasureVector { entries: acc }
}

/// Entries with a nonzero exponent, in order.
pub open spec fn nonzero_entries(s: SigView) -> SigView
    decreases s.len(),
{
    if s.len() == 0 {
        s
    } else if s.last().1 != 0 {
        nonzero_entries(s.drop_last()).push(s.last())
    } else {
        nonzero_entries(s.drop_last())
    }
}

proof fn lemma_nonzero_entries(s: SigView)
    requires
        strictly_sorted(s),
    ensures
        strictly_sorted(nonzero_entries(s)),
        no_zero(nonzero_entries(s)),
        forall|n: Seq<char>| #[trigger] total(nonzero_entries(s), n) == total(s, n),
        forall|i: int| 0 <= i < nonzero_entries(s).len() ==> #[trigger] has_name(s, nonzero_entries(s)[i].0),
    decreases s.len(),
{
    if s.len() > 0 {
        let p = s.drop_last();
        assert(strictly_sorted(p)) by {
            assert forall|i: int, j: int| 0 <= i < j < p.len() implies seq_lt(#[trigger] p[i].0, #[trigger] p[j].0) by {
                assert(p[i] == s[i] && p[j] == s[j]);
            }
        }
        lemma_nonzero_entries(p);
        let q = nonzero_entries(p);
        assert forall|n: Seq<char>| #[trigger] total(nonzero_entries(s), n) == total(s, n) by {
            assert(total(q, n) == total(p, n));
            if s.last().1 != 0 {
                assert(nonzero_entries(s).drop_last() =~= q);
                assert(nonzero_entries(s).last() == s.last());
                assert(total(nonzero_entries(s), n) == total(q, n) + (if s.last().0 == n { s.last().1 } else { 0 }));
            } else {
                assert(nonzero_entries(s) == q);
            }
        }
        assert forall|i: int| 0 <= i < nonzero_entries(s).len() implies #[trigger] has_name(s, nonzero_entries(s)[i].0) by {
            if i < q.len() {
                assert(nonzero_entries(s)[i] == q[i]);
                assert(has_name(p, q[i].0));
                let j = choose|j: int| 0 <= j < p.len() && p[j].0 == q[i].0;
                assert(s[j] == p[j]);
            } else {
                assert(nonzero_entries(s)[i] == s.last());
                assert(s[s.len() - 1] == s.last());
            }
        }
        if s.last().1 != 0 {
            let t = nonzero_entries(s);
            assert forall|i: int, j: int| 0 <= i < j < t.len() implies seq_lt(#[trigger] t[i].0, #[trigger] t[j].0) by {
                if j == t.len() - 1 {
                    assert(t[i] == q[i]);
                    assert(has_name(p, q[i].0));
                    let k = choose|k: int| 0 <= k < p.len() && p[k].0 == q[i].0;
                    assert(s[k] == p[k]);
                    assert(s[s.len() - 1] == s.last());
                } else {
                    assert(t[i] == q[i] && t[j] == q[j]);
                }
            }
        }
    }
}

/// Convert a decomposition into canonical signature form (zero exponents dropped).
pub fn base_measure_vector_as_signature(decomposition: &BaseMeasureVector) -> (r: Vec<(String, i32)>)
    ensures
        sig_view(r@) == nonzero_entries(decomposition@),
        is_canonical_form(sig_view(r@), decomposition@),
{
    let v = decomposition.entries();
    let ghost s = decomposition@;
    let mut out: Vec<(String, i32)> = Vec::new();
    let n = v.len();
    let mut k: usize = 0;
    while k < n
        invariant
            n == s.len(),
            sig_view(v@) == s,
            k <= n,
            sig_view(out@) == nonzero_entries(s.subrange(0, k as int)),
        decreases n - k,
    {
        proof {
            lemma_prefix_step(s, k as int);
        }
        if v[k].1 != 0 {
            let name = v[k].0.clone();
            let ghost before = out@;
            out.push((name, v[k].1));
            proof {
                assert(out@ =~= before.push(out@.last()));
                lemma_sig_view_push(before, out@.last());
            }
        }
        k = k + 1;
    }
    proof {
        assert(s.subrange(0, n as int) =~= s);
        lemma_nonzero_entries(s);
    }
    out
}

/// A declared measure unit: its name, its factor to the type's canonical unit, its
/// own decomposition and optional bounds and suggestion expressed in that unit.
#[derive(Debug, PartialEq, Eq, Hash)]
pub struct MeasureUnit {
    pub name: String,
    pub factor: RationalInteger,
    pub decomposition: BaseMeasureVector,
    pub minimum: Option<RationalInteger>,
    pub maximum: Option<RationalInteger>,
    pub suggestion_magnitude: Option<RationalInteger>,
}

impl MeasureUnit {
    /// Whether this unit is the canonical one (factor exactly one).
    pub fn is_canonical_factor(&self) -> (b: bool)
        ensures
            b == (self.factor.num() == 1 && self.factor.den() == 1),
    {
        self.factor.numer() == 1 && self.factor.denom() == 1
    }
}

/// The declared units of a measure type, in declaration order.
#[derive(Debug, PartialEq, Eq, Hash)]
pub struct MeasureUnits(pub Vec<MeasureUnit>);

/// Index of the first unit in `names` called `name`, or -1.
pub open spec fn first_named(names: Seq<Seq<char>>, name: Seq<char>) -> int
    decreases names.len(),
{
    if names.len() == 0 {
        -1
    } else if first_named(names.drop_last(), name) >= 0 {
        first_named(names.drop_last(), name)
    } else if names.last() == name {
        names.len() - 1
    } else {
        -1
    }
}

pub open spec fn measure_unit_names_of(units: Seq<MeasureUnit>) -> Seq<Seq<char>> {
    units.map_values(|u: MeasureUnit| u.name@)
}

pub open spec fn ratio_unit_names_of(units: Seq<RatioUnit>) -> Seq<Seq<char>> {
    units.map_values(|u: RatioUnit| u.name@)
}

proof fn lemma_first_named_step(names: Seq<Seq<char>>, k: int, name: Seq<char>)
    requires
        0 <= k < names.len(),
        first_named(names.subrange(0, k), name) == -1,
    ensures
        first_named(names.subrange(0, k + 1), name) == (if names[k] == name { k } else { -1 }),
{
    assert(names.subrange(0, k + 1).drop_last() =~= names.subrange(0, k));
}

proof fn lemma_first_named_prefix(names: Seq<Seq<char>>, k: int, name: Seq<char>)
    requires
        0 <= k <= names.len(),
        first_named(names.subrange(0, k), name) >= 0,
    ensures
        first_named(names, name) == first_named(names.subrange(0, k), name),
    decreases names.len(),
{
    if k == names.len() {
        assert(names.subrange(0, k) =~= names);
    } else {
        assert(names.drop_last().subrange(0, k) =~= names.subrange(0, k));
        lemma_first_named_prefix(names.drop_last(), k, name);
    }
}

pub(crate) proof fn lemma_first_named_facts(names: Seq<Seq<char>>, name: Seq<char>)
    ensures
        -1 <= first_named(names, name) < names.len(),
        first_named(names, name) >= 0 ==> names[first_named(names, name)] == name,
        first_named(names, name) == -1 <==> !names.contains(name),
    decreases names.len(),
{
    if names.len() > 0 {
        lemma_first_named_facts(names.drop_last(), name);
        if names.drop_last().contains(name) {
            let i = choose|i: int| 0 <= i < names.drop_last().len() && names.drop_last()[i] == name;
            assert(names[i] == name);
        }
        if names.contains(name) && !names.drop_last().contains(name) {
            let i = choose|i: int| 0 <= i < names.len() && names[i] == name;
            if i < names.len() - 1 {
                assert(names.drop_last()[i] == name);
            }
        }
        if first_named(names, name) == names.len() - 1 {
            assert(names[names.len() - 1] == name);
        }
    }
}

impl MeasureUnits {
    /// An empty table.
    pub fn new() -> (r: MeasureUnits)
        ensures
            r.0@ == Seq::<MeasureUnit>::empty(),
    {
        MeasureUnits(Vec::new())
    }

    /// Append a unit.
    pub fn push(&mut self, unit: MeasureUnit)
        ensures
            final(self).0@ == old(self).0@.push(unit),
    {
        self.0.push(unit);
    }

    /// Number of units.
    pub fn len(&self) -> (n: usize)
        ensures
            n == self.0@.len(),
    {
        self.0.len()
    }

    /// Whether the table is empty.
    pub fn is_empty(&self) -> (b: bool)
        ensures
            b == (self.0@.len() == 0),
    {
        self.0.len() == 0
    }

    /// Index of the first unit called `name`.
    pub fn position(&self, name: &str) -> (r: Option<usize>)
        ensures
            r is Some <==> first_named(measure_unit_names_of(self.0@), name@) >= 0,
            r is Some ==> r->0 as int == first_named(measure_unit_names_of(self.0@), name@),
    {
        let n = self.0.len();
        let mut i: usize = 0;
        let ghost ns = measure_unit_names_of(self.0@);
        proof {
            assert(ns.subrange(0, 0) =~= Seq::<Seq<char>>::empty());
        }
        while i < n
            invariant
                n == self.0@.len(),
                ns == measure_unit_names_of(self.0@),
                i <= n,
                first_named(ns.subrange(0, i as int), name@) == -1,
            decreases n - i,
        {
            proof {
                lemma_first_named_step(ns, i as int, name@);
            }
            if compare_text(self.0[i].name.as_str(), name) == 0 {
                proof {
                    assert(ns[i as int] == self.0@[i as int].name@);
                    lemma_first_named_prefix(ns, i + 1, name@);
                }
                return Some(i);
            }
            proof {
                assert(ns[i as int] == self.0@[i as int].name@);
            }
            i = i + 1;
        }
        proof {
            assert(ns.subrange(0, n as int) =~= ns);
        }
        None
    }

    /// The first unit called `name`.
    pub fn get(&self, name: &str) -> (r: Option<&MeasureUnit>)
        ensures
            r is Some <==> first_named(measure_unit_names_of(self.0@), name@) >= 0,
            r is Some ==> *r->0 == self.0@[first_named(measure_unit_names_of(self.0@), name@)],
    {
        proof {
            lemma_first_named_facts(measure_unit_names_of(self.0@), name@);
        }
        match self.position(name) {
            Some(i) => Some(&self.0[i]),
            None => None,
        }
    }
}

/// A declared ratio unit: its name, its value (how many units make one whole) and
/// optional bounds and suggestion in that unit.
#[derive(Debug, PartialEq, Eq, Hash)]
pub struct RatioUnit {
    pub name: String,
    pub value: RationalInteger,
    pub minimum: Option<RationalInteger>,
    pub maximum: Option<RationalInteger>,
    pub suggestion_magnitude: Option<RationalInteger>,
}

/// The declared units of a ratio type, in declaration order.
#[derive(Debug, PartialEq, Eq, Hash)]
pub struct RatioUnits(pub Vec<RatioUnit>);

impl RatioUnits {
    /// An empty table.
    pub fn new() -> (r: RatioUnits)
        ensures
            r.0@ == Seq::<RatioUnit>::empty(),
    {
        RatioUnits(Vec::new())
    }

    /// Number of units.
    pub fn len(&self) -> (n: usize)
        ensures
            n == self.0@.len(),
    {
        self.0.len()
    }

    /// Whether the table is empty.
    pub fn is_empty(&self) -> (b: bool)
        ensures
            b == (self.0@.len() == 0),
    {
        self.0.len() == 0
    }

    /// Index of the first unit called `name`.
    pub fn position(&self, name: &str) -> (r: Option<usize>)
        ensures
            r is Some <==> first_named(ratio_unit_names_of(self.0@), name@) >= 0,
            r is Some ==> r->0 as int == first_named(ratio_unit_names_of(self.0@), name@),
    {
        let n = self.0.len();
        let mut i: usize = 0;
        let ghost ns = ratio_unit_names_of(self.0@);
        proof {
            assert(ns.subrange(0, 0) =~= Seq::<Seq<char>>::empty());
        }
        while i < n
            invariant
                n == self.0@.len(),
                ns == ratio_unit_names_of(self.0@),
                i <= n,
                first_named(ns.subrange(0, i as int), name@) == -1,
            decreases n - i,
        {
            proof {
                lemma_first_named_step(ns, i as int, name@);
            }
            if compare_text(self.0[i].name.as_str(), name) == 0 {
                proof {
                    assert(ns[i as int] == self.0@[i as int].name@);
                    lemma_first_named_prefix(ns, i + 1, name@);
                }
                return Some(i);
            }
            proof {
                assert(ns[i as int] == self.0@[i as int].name@);
            }
            i = i + 1;
        }
        proof {
            assert(ns.subrange(0, n as int) =~= ns);
        }
        None
    }

    /// The first unit called `name`.
    pub fn get(&self, name: &str) -> (r: Option<&RatioUnit>)
        ensures
            r is Some <==> first_named(ratio_unit_names_of(self.0@), name@) >= 0,
            r is Some ==> *r->0 == self.0@[first_named(ratio_unit_names_of(self.0@), name@)],
    {
        proof {
            lemma_first_named_facts(ratio_unit_names_of(self.0@), name@);
        }
        match self.position(name) {
            Some(i) => Some(&self.0[i]),
            None => None,
        }
    }
}

pub open spec fn month_name() -> Seq<char> {
    seq!['m', 'o', 'n', 't', 'h']
}

pub open spec fn year_name() -> Seq<char> {
    seq!['y', 'e', 'a', 'r']
}

/// Factor of a calendar unit relative to the month: `month` is 1, `year` is 12, any
/// other name is not a calendar unit.
pub fn calendar_unit_factor(name: &str) -> (r: Option<RationalInteger>)
    ensures
        r is Some <==> (name@ == month_name() || name@ == year_name()),
        name@ == month_name() ==> r == Some(crate::rational::spec_one()) && r->0.num() == 1 && r->0.den() == 1,
        name@ == year_name() ==> r == Some(RationalInteger::from_parts(12, 1)) && r->0.num() == 12 && r->0.den() == 1,
{
    proof {
        reveal_strlit("month");
        reveal_strlit("year");
        assert("month"@ =~= month_name());
        assert("year"@ =~= year_name());
    }
    if compare_text(name, "month") == 0 {
        Some(rational_one())
    } else if compare_text(name, "year") == 0 {
        Some(rational_new(12, 1))
    } else {
        None
    }
}


impl Clone for MeasureUnit {
    fn clone(&self) -> (r: Self)
        ensures
            measure_unit_eq(r, *self),
    {
        MeasureUnit {
            name: self.name.clone(),
            factor: self.factor,
            decomposition: self.decomposition.duplicate(),
            minimum: self.minimum,
            maximum: self.maximum,
            suggestion_magnitude: self.suggestion_magnitude,
        }
    }
}

impl Clone for MeasureUnits {
    fn clone(&self) -> (r: Self)
        ensures
            measure_units_eq(r.0@, self.0@),
    {
        let mut out: Vec<MeasureUnit> = Vec::new();
        let n = self.0.len();
        let mut i: usize = 0;
        while i < n
            invariant
                n == self.0@.len(),
                i <= n,
                out@.len() == i,
                forall|j: int| 0 <= j < i ==> #[trigger] measure_unit_eq(out@[j], self.0@[j]),
            decreases n - i,
        {
            out.push(self.0[i].clone());
            i = i + 1;
        }
        MeasureUnits(out)
    }
}

impl Clone for RatioUnit {
    fn clone(&self) -> (r: Self)
        ensures
            r == *self,
    {
        RatioUnit {
            name: self.name.clone(),
            value: self.value,
            minimum: self.minimum,
            maximum: self.maximum,
            suggestion_magnitude: self.suggestion_magnitude,
        }
    }
}

impl Clone for RatioUnits {
    fn clone(&self) -> (r: Self)
        ensures
            r.0@ == self.0@,
    {
        let mut out: Vec<RatioUnit> = Vec::new();
        let n = self.0.len();
        let mut i: usize = 0;
        while i < n
            invariant
                n == self.0@.len(),
                i <= n,
                out@ == self.0@.subrange(0, i as int),
            decreases n - i,
        {
            out.push(self.0[i].clone());
            proof {
                assert(out@ =~= self.0@.subrange(0, i + 1));
            }
            i = i + 1;
        }
        proof {
            assert(self.0@.subrange(0, n as int) =~= self.0@);
        }
        RatioUnits(out)
    }
}

} // verus!
