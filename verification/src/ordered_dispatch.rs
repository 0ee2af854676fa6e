//! Ordered dispatch: the key type, comparison classes and region model behind a
//! dispatch table.
//!
//! A chain of arms that all compare one scrutinee against constants is decided by a
//! linear reverse scan. The same decision can be made by a binary search once the
//! constants are sorted, because every arm predicate is constant over each region of
//! the domain the constants cut it into.
//!
//! For breakpoints `b_0 < b_1 < ... < b_{n-1}` the domain splits into `2n + 1`
//! regions, alternating open intervals and points: `regions[2i]` is the open
//! interval `(b_{i-1}, b_i)` and `regions[2i+1]` is the point `b_i`.

use vstd::prelude::*;
use vstd::string::StringExecFns;
use std::cmp::Ordering;
use crate::comparison::{holds, ComparisonComputation};
use crate::rational::{spec_failure_message, try_cmp, NumericFailure, RationalInteger};
use crate::lemma_type::{spec_is_calendar_like, spec_is_duration_like, spec_matches_kind};
use crate::types::{LemmaType, PrimitiveKind};
use crate::values::{LiteralValue, ValueKind};
use crate::temporal::{datetime_instant, datetime_micros, datetime_valid, time_instant, time_micros, time_valid};
use crate::text::{compare_text, lemma_lt_irreflexive, lemma_lt_transitive, lemma_lt_trichotomy, seq_lt};

verus! {

/// One breakpoint of a dispatch table. Dates and times are held as instants
/// (microseconds since the epoch, in UTC).
#[derive(Debug, Clone, PartialEq, Eq, Hash)]
pub enum DispatchKey {
    Text(String),
    /// Stored magnitude of a number, ratio or measure (canonical space).
    Rational(RationalInteger),
    Date(i64),
    Time(i64),
}

/// A probe used while searching a table; text and rationals are borrowed.
#[derive(Debug, Clone, Copy)]
pub enum DispatchProbe<'a> {
    Text(&'a str),
    Rational(&'a RationalInteger),
    Date(i64),
    Time(i64),
}

/// The value a key or probe is ordered by.
pub enum OrderAtom {
    Text(Seq<char>),
    Rational(int, int),
    Date(int),
    Time(int),
}

pub open spec fn key_atom(k: DispatchKey) -> OrderAtom {
    match k {
        DispatchKey::Text(s) => OrderAtom::Text(s@),
        DispatchKey::Rational(r) => OrderAtom::Rational(r.num(), r.den()),
        DispatchKey::Date(t) => OrderAtom::Date(t as int),
        DispatchKey::Time(t) => OrderAtom::Time(t as int),
    }
}

pub open spec fn probe_atom(p: DispatchProbe) -> OrderAtom {
    match p {
        DispatchProbe::Text(s) => OrderAtom::Text(s@),
        DispatchProbe::Rational(r) => OrderAtom::Rational(r.num(), r.den()),
        DispatchProbe::Date(t) => OrderAtom::Date(t as int),
        DispatchProbe::Time(t) => OrderAtom::Time(t as int),
    }
}

/// Both atoms belong to one comparison class.
pub open spec fn same_class(a: OrderAtom, b: OrderAtom) -> bool {
    match (a, b) {
        (OrderAtom::Text(_), OrderAtom::Text(_)) => true,
        (OrderAtom::Rational(_, _), OrderAtom::Rational(_, _)) => true,
        (OrderAtom::Date(_), OrderAtom::Date(_)) => true,
        (OrderAtom::Time(_), OrderAtom::Time(_)) => true,
        _ => false,
    }
}

pub open spec fn int_sign(a: int, b: int) -> int {
    if a < b {
        -1
    } else if a == b {
        0
    } else {
        1
    }
}

/// Sign of `a - b` within one class: texts by code points, rationals by value,
/// instants numerically.
pub open spec fn atom_sign(a: OrderAtom, b: OrderAtom) -> int {
    match (a, b) {
        (OrderAtom::Text(x), OrderAtom::Text(y)) => if seq_lt(x, y) {
            -1
        } else if x == y {
            0
        } else {
            1
        },
        (OrderAtom::Rational(an, ad), OrderAtom::Rational(bn, bd)) => int_sign(an * bd, bn * ad),
        (OrderAtom::Date(x), OrderAtom::Date(y)) => int_sign(x, y),
        (OrderAtom::Time(x), OrderAtom::Time(y)) => int_sign(x, y),
        _ => 0,
    }
}

/// Rational atoms carry positive denominators.
pub open spec fn atom_wf(a: OrderAtom) -> bool {
    match a {
        OrderAtom::Rational(_, d) => d > 0,
        _ => true,
    }
}

pub proof fn lemma_key_atom_wf(k: DispatchKey)
    ensures
        atom_wf(key_atom(k)),
{
    if let DispatchKey::Rational(r) = k {
        r.lemma_den_positive();
    }
}

pub proof fn lemma_probe_atom_wf(p: DispatchProbe)
    ensures
        atom_wf(probe_atom(p)),
{
    if let DispatchProbe::Rational(r) = p {
        r.lemma_den_positive();
    }
}

proof fn lemma_cross_lt(an: int, ad: int, bn: int, bd: int, cn: int, cd: int)
    by (nonlinear_arith)
    requires
        ad > 0,
        bd > 0,
        cd > 0,
        an * bd < bn * ad,
        bn * cd <= cn * bd,
    ensures
        an * cd < cn * ad,
{
    assert(an * bd * cd < bn * ad * cd);
    assert(bn * cd * ad <= cn * bd * ad);
}

proof fn lemma_cross_le_lt(an: int, ad: int, bn: int, bd: int, cn: int, cd: int)
    by (nonlinear_arith)
    requires
        ad > 0,
        bd > 0,
        cd > 0,
        an * bd <= bn * ad,
        bn * cd < cn * bd,
    ensures
        an * cd < cn * ad,
{
    assert(an * bd * cd <= bn * ad * cd);
    assert(bn * cd * ad < cn * bd * ad);
}

/// The class order is antisymmetric: swapping the operands negates the sign.
pub proof fn lemma_sign_antisymmetric(a: OrderAtom, b: OrderAtom)
    requires
        same_class(a, b),
    ensures
        atom_sign(b, a) == -atom_sign(a, b),
{
    match (a, b) {
        (OrderAtom::Text(x), OrderAtom::Text(y)) => {
            lemma_lt_trichotomy(x, y);
        },
        _ => {},
    }
}

/// `a < b <= c` and `a <= b < c` both give `a < c`.
pub proof fn lemma_sign_transitive(a: OrderAtom, b: OrderAtom, c: OrderAtom)
    requires
        same_class(a, b),
        same_class(b, c),
        atom_wf(a),
        atom_wf(b),
        atom_wf(c),
        (atom_sign(a, b) == -1 && atom_sign(b, c) != 1) || (atom_sign(a, b) != 1 && atom_sign(b, c) == -1),
    ensures
        atom_sign(a, c) == -1,
{
    match (a, b, c) {
        (OrderAtom::Text(x), OrderAtom::Text(y), OrderAtom::Text(z)) => {
            lemma_lt_trichotomy(x, y);
            lemma_lt_trichotomy(y, z);
            lemma_lt_trichotomy(x, z);
            if seq_lt(x, y) && seq_lt(y, z) {
                lemma_lt_transitive(x, y, z);
            }
        },
        (OrderAtom::Rational(an, ad), OrderAtom::Rational(bn, bd), OrderAtom::Rational(cn, cd)) => {
            if an * bd < bn * ad && bn * cd <= cn * bd {
                lemma_cross_lt(an, ad, bn, bd, cn, cd);
            } else {
                lemma_cross_le_lt(an, ad, bn, bd, cn, cd);
            }
        },
        _ => {},
    }
}

/// Keys sorted strictly ascending within one class.
pub open spec fn keys_strictly_sorted(s: Seq<DispatchKey>) -> bool {
    forall|i: int, j: int| 0 <= i < j < s.len() ==> same_class(key_atom(#[trigger] s[i]), key_atom(#[trigger] s[j]))
        && atom_sign(key_atom(s[i]), key_atom(s[j])) == -1
}

/// Every key is of the probe's class.
pub open spec fn keys_of_class(s: Seq<DispatchKey>, p: OrderAtom) -> bool {
    forall|i: int| 0 <= i < s.len() ==> same_class(key_atom(#[trigger] s[i]), p)
}

/// Whether comparing key `k` against probe atom `p` stays within machine range.
pub open spec fn comparable(k: OrderAtom, p: OrderAtom) -> bool {
    match (k, p) {
        (OrderAtom::Rational(an, ad), OrderAtom::Rational(bn, bd)) => i128::MIN <= an * bd <= i128::MAX
            && i128::MIN <= bn * ad <= i128::MAX,
        _ => true,
    }
}

impl DispatchKey {
    /// This key as a search probe.
    pub fn as_probe(&self) -> (r: DispatchProbe<'_>)
        ensures
            probe_atom(r) == key_atom(*self),
    {
        match self {
            DispatchKey::Text(text) => DispatchProbe::Text(text.as_str()),
            DispatchKey::Rational(magnitude) => DispatchProbe::Rational(magnitude),
            DispatchKey::Date(moment) => DispatchProbe::Date(*moment),
            DispatchKey::Time(moment) => DispatchProbe::Time(*moment),
        }
    }

    /// Sign of this key minus a probe of the same class (-1, 0 or 1); `Overflow` when
    /// comparing two rationals leaves the machine range.
    pub fn sign_against(&self, other: &DispatchProbe) -> (r: Result<i8, NumericFailure>)
        requires
            same_class(key_atom(*self), probe_atom(*other)),
        ensures
            r is Ok <==> comparable(key_atom(*self), probe_atom(*other)),
            r is Err ==> r == Err::<i8, NumericFailure>(NumericFailure::Overflow),
            r matches Ok(c) ==> c == atom_sign(key_atom(*self), probe_atom(*other)),
    {
        match self.try_compare(other) {
            Ok(Ordering::Less) => Ok(-1),
            Ok(Ordering::Equal) => Ok(0),
            Ok(Ordering::Greater) => Ok(1),
            Err(e) => Err(e),
        }
    }

    /// Order this key against a probe of the same class; `Overflow` when comparing
    /// two rationals leaves the machine range.
    pub fn try_compare(&self, other: &DispatchProbe) -> (r: Result<Ordering, NumericFailure>)
        requires
            same_class(key_atom(*self), probe_atom(*other)),
        ensures
            r is Ok <==> comparable(key_atom(*self), probe_atom(*other)),
            r is Err ==> r == Err::<Ordering, NumericFailure>(NumericFailure::Overflow),
            r == Ok::<Ordering, NumericFailure>(Ordering::Less) <==> (r is Ok && atom_sign(key_atom(*self), probe_atom(*other)) == -1),
            r == Ok::<Ordering, NumericFailure>(Ordering::Equal) <==> (r is Ok && atom_sign(key_atom(*self), probe_atom(*other)) == 0),
            r == Ok::<Ordering, NumericFailure>(Ordering::Greater) <==> (r is Ok && atom_sign(key_atom(*self), probe_atom(*other)) == 1),
    {
        match (self, other) {
            (DispatchKey::Text(left), DispatchProbe::Text(right)) => {
                let c = compare_text(left.as_str(), right);
                if c == -1 {
                    Ok(Ordering::Less)
                } else if c == 0 {
                    Ok(Ordering::Equal)
                } else {
                    Ok(Ordering::Greater)
                }
            },
            (DispatchKey::Rational(left), DispatchProbe::Rational(right)) => try_cmp(left, right),
            (DispatchKey::Date(left), DispatchProbe::Date(right)) => {
                if *left < *right {
                    Ok(Ordering::Less)
                } else if *left == *right {
                    Ok(Ordering::Equal)
                } else {
                    Ok(Ordering::Greater)
                }
            },
            (DispatchKey::Time(left), DispatchProbe::Time(right)) => {
                if *left < *right {
                    Ok(Ordering::Less)
                } else if *left == *right {
                    Ok(Ordering::Equal)
                } else {
                    Ok(Ordering::Greater)
                }
            },
            _ => vstd::pervasive::unreached(),
        }
    }
}


// ---------------------------------------------------------------------------
// Regions
// ---------------------------------------------------------------------------

/// Number of regions for `boundary_count` breakpoints.
pub fn region_count(boundary_count: usize) -> (n: usize)
    requires
        2 * boundary_count + 1 <= usize::MAX,
    ensures
        n == 2 * boundary_count + 1,
{
    2 * boundary_count + 1
}

/// The inclusive region spans on which `operator` against breakpoint `k` (of `n`)
/// holds: one span, or two for `is not`.
pub open spec fn spec_regions_matching(op: ComparisonComputation, k: int, n: int) -> (Option<(int, int)>, Option<(int, int)>) {
    let point = 2 * k + 1;
    let last = 2 * n;
    match op {
        ComparisonComputation::Is => (Some((point, point)), None),
        ComparisonComputation::IsNot => (Some((0, point - 1)), Some((point + 1, last))),
        ComparisonComputation::GreaterThan => (Some((point + 1, last)), None),
        ComparisonComputation::GreaterThanOrEqual => (Some((point, last)), None),
        ComparisonComputation::LessThan => (Some((0, point - 1)), None),
        ComparisonComputation::LessThanOrEqual => (Some((0, point)), None),
    }
}

pub open spec fn in_span(span: Option<(int, int)>, r: int) -> bool {
    match span {
        Some((a, b)) => a <= r <= b,
        None => false,
    }
}

/// Region `r` is claimed by `op` against breakpoint `k` of `n`.
pub open spec fn claims(op: ComparisonComputation, k: int, n: int, r: int) -> bool {
    in_span(spec_regions_matching(op, k, n).0, r) || in_span(spec_regions_matching(op, k, n).1, r)
}

pub open spec fn span_view(s: Option<(usize, usize)>) -> Option<(int, int)> {
    match s {
        Some((a, b)) => Some((a as int, b as int)),
        None => None,
    }
}

/// Inclusive region spans in which `operator` against the breakpoint at
/// `boundary_index` holds.
pub fn regions_matching(operator: &ComparisonComputation, boundary_index: usize, boundary_count: usize) -> (r: [Option<(usize, usize)>; 2])
    requires
        boundary_index < boundary_count,
        2 * boundary_count + 1 <= usize::MAX,
    ensures
        span_view(r[0]) == spec_regions_matching(*operator, boundary_index as int, boundary_count as int).0,
        span_view(r[1]) == spec_regions_matching(*operator, boundary_index as int, boundary_count as int).1,
{
    let point = 2 * boundary_index + 1;
    let last = 2 * boundary_count;
    match operator {
        ComparisonComputation::Is => [Some((point, point)), None],
        ComparisonComputation::IsNot => [Some((0, point - 1)), Some((point + 1, last))],
        ComparisonComputation::GreaterThan => [Some((point + 1, last)), None],
        ComparisonComputation::GreaterThanOrEqual => [Some((point, last)), None],
        ComparisonComputation::LessThan => [Some((0, point - 1)), None],
        ComparisonComputation::LessThanOrEqual => [Some((0, point)), None],
    }
}

/// Where region `r` lies relative to breakpoint `k`: -1 below, 0 at, 1 above.
pub open spec fn region_side(r: int, k: int) -> int {
    int_sign(r, 2 * k + 1)
}

/// The regions an operator claims against a breakpoint are exactly those on which
/// the comparison holds: `op` claims region `r` iff `v op b_k` for the values `v` of
/// region `r`, whose order against `b_k` is `region_side(r, k)`.
pub proof fn lemma_regions_match_predicate(op: ComparisonComputation, k: int, n: int, r: int)
    requires
        0 <= k < n,
        0 <= r <= 2 * n,
    ensures
        claims(op, k, n, r) <==> holds(op, region_side(r, k), 0),
{
}

/// The spans stay within the region table.
pub proof fn lemma_regions_in_table(op: ComparisonComputation, k: int, n: int, r: int)
    requires
        0 <= k < n,
        claims(op, k, n, r),
    ensures
        0 <= r <= 2 * n,
{
}

/// Index of the region holding `value` among strictly sorted breakpoints: `2i + 1`
/// when the value equals breakpoint `i`, else `2i` where `i` breakpoints lie below it.
/// `Overflow` when a rational comparison leaves the machine range.
pub fn region_for_value(boundaries: &[DispatchKey], value: &DispatchProbe) -> (r: Result<usize, NumericFailure>)
    requires
        keys_strictly_sorted(boundaries@),
        keys_of_class(boundaries@, probe_atom(*value)),
        2 * boundaries@.len() + 1 <= usize::MAX,
    ensures
        (forall|k: int| 0 <= k < boundaries@.len() ==> comparable(key_atom(#[trigger] boundaries@[k]), probe_atom(*value))) ==> r is Ok,
        r is Err ==> r == Err::<usize, NumericFailure>(NumericFailure::Overflow),
        r matches Ok(region) ==> region <= 2 * boundaries@.len() && forall|k: int| 0 <= k < boundaries@.len()
            ==> #[trigger] atom_sign(key_atom(boundaries@[k]), probe_atom(*value)) == int_sign(2 * k + 1, region as int),
{
    let ghost v = probe_atom(*value);
    proof {
        lemma_probe_atom_wf(*value);
    }
    let len = boundaries.len();
    let mut low: usize = 0;
    let mut high: usize = len;
    while low < high
        invariant
            len == boundaries@.len(),
            v == probe_atom(*value),
            atom_wf(v),
            keys_strictly_sorted(boundaries@),
            keys_of_class(boundaries@, v),
            low <= high <= len,
            forall|i: int| 0 <= i < low ==> #[trigger] atom_sign(key_atom(boundaries@[i]), v) == -1,
            forall|i: int| high <= i < len ==> #[trigger] atom_sign(key_atom(boundaries@[i]), v) != -1,
        decreases high - low,
    {
        let middle = low + (high - low) / 2;
        proof {
            assert(same_class(key_atom(boundaries@[middle as int]), v));
        }
        let c = boundaries[middle].sign_against(value);
        match c {
            Err(e) => {
                return Err(e);
            },
            Ok(sign) => {
                if sign == -1 {
                    {
                        proof {
                            assert forall|i: int| 0 <= i < middle + 1 implies #[trigger] atom_sign(key_atom(boundaries@[i]), v) == -1 by {
                                if i < middle {
                                    let bi = key_atom(boundaries@[i]);
                                    let bm = key_atom(boundaries@[middle as int]);
                                    assert(same_class(bi, bm) && atom_sign(bi, bm) == -1);
                                    lemma_key_atom_wf(boundaries@[i]);
                                    lemma_key_atom_wf(boundaries@[middle as int]);
                                    lemma_sign_transitive(bi, bm, v);
                                }
                            }
                        }
                        low = middle + 1;
                    }
                } else {
                    {
                        proof {
                            assert forall|i: int| middle <= i < len implies #[trigger] atom_sign(key_atom(boundaries@[i]), v) != -1 by {
                                if i > middle {
                                    let bi = key_atom(boundaries@[i]);
                                    let bm = key_atom(boundaries@[middle as int]);
                                    assert(same_class(bm, bi) && atom_sign(bm, bi) == -1);
                                    lemma_key_atom_wf(boundaries@[i]);
                                    lemma_key_atom_wf(boundaries@[middle as int]);
                                    if atom_sign(bi, v) == -1 {
                                        lemma_sign_transitive(bm, bi, v);
                                    }
                                }
                            }
                        }
                        high = middle;
                    }
                }
            },
        }
    }
    let mut found = false;
    if low < len {
        proof {
            assert(same_class(key_atom(boundaries@[low as int]), v));
        }
        match boundaries[low].sign_against(value) {
            Err(e) => {
                return Err(e);
            },
            Ok(sign) => {
                found = sign == 0;
            },
        }
    }
    let region = if found { 2 * low + 1 } else { 2 * low };
    proof {
        assert forall|k: int| 0 <= k < len implies #[trigger] atom_sign(key_atom(boundaries@[k]), v) == int_sign(2 * k + 1, region as int) by {
            let bk = key_atom(boundaries@[k]);
            lemma_key_atom_wf(boundaries@[k]);
            if k < low {
            } else if k == low {
                assert(atom_sign(bk, v) != -1);
            } else {
                let bl = key_atom(boundaries@[low as int]);
                lemma_key_atom_wf(boundaries@[low as int]);
                assert(same_class(bl, bk) && atom_sign(bl, bk) == -1);
                assert(atom_sign(bk, v) != -1);
                assert(atom_sign(bl, v) != -1);
                lemma_sign_antisymmetric(bl, v);
                lemma_sign_antisymmetric(bk, v);
                lemma_sign_antisymmetric(bl, bk);
                assert(same_class(v, bl));
                lemma_sign_transitive(v, bl, bk);
            }
        }
    }
    Ok(region)
}


impl DispatchKey {
    /// An exact copy of this key.
    pub fn duplicate(&self) -> (r: DispatchKey)
        ensures
            r == *self,
    {
        match self {
            DispatchKey::Text(t) => DispatchKey::Text(t.clone()),
            DispatchKey::Rational(q) => DispatchKey::Rational(*q),
            DispatchKey::Date(m) => DispatchKey::Date(*m),
            DispatchKey::Time(m) => DispatchKey::Time(*m),
        }
    }
}

/// All keys share one comparison class.
pub open spec fn keys_one_class(s: Seq<DispatchKey>) -> bool {
    forall|i: int, j: int| 0 <= i < s.len() && 0 <= j < s.len() ==> same_class(key_atom(#[trigger] s[i]), key_atom(#[trigger] s[j]))
}

pub proof fn lemma_sign_reflexive(a: OrderAtom)
    ensures
        atom_sign(a, a) == 0,
{
    if let OrderAtom::Text(x) = a {
        lemma_lt_irreflexive(x);
    }
}

proof fn lemma_insert_keeps_sorted(before: Seq<DispatchKey>, pos: int, k: DispatchKey, region: int)
    requires
        keys_strictly_sorted(before),
        keys_of_class(before, key_atom(k)),
        region == 2 * pos,
        0 <= pos <= before.len(),
        forall|j: int| 0 <= j < before.len() ==> #[trigger] atom_sign(key_atom(before[j]), key_atom(k)) == int_sign(2 * j + 1, region),
    ensures
        keys_strictly_sorted(before.insert(pos, k)),
{
    let out = before.insert(pos, k);
    let v = key_atom(k);
    assert forall|a: int, b: int| 0 <= a < b < out.len() implies same_class(key_atom(#[trigger] out[a]), key_atom(#[trigger] out[b]))
        && atom_sign(key_atom(out[a]), key_atom(out[b])) == -1 by {
        if b < pos {
            assert(out[a] == before[a] && out[b] == before[b]);
        } else if b == pos {
            assert(out[a] == before[a]);
            assert(atom_sign(key_atom(before[a]), v) == int_sign(2 * a + 1, region));
        } else if a == pos {
            assert(out[b] == before[b - 1]);
            let bb = key_atom(before[b - 1]);
            assert(atom_sign(bb, v) == int_sign(2 * (b - 1) + 1, region));
            assert(same_class(bb, v));
            lemma_sign_antisymmetric(bb, v);
        } else if a < pos {
            assert(out[a] == before[a] && out[b] == before[b - 1]);
        } else {
            assert(out[a] == before[a - 1] && out[b] == before[b - 1]);
        }
    }
}

proof fn lemma_insert_keeps_membership(keys: Seq<DispatchKey>, before: Seq<DispatchKey>, out: Seq<DispatchKey>, t: int, pos: int)
    requires
        0 <= t < keys.len(),
        0 <= pos <= before.len(),
        out == before.insert(pos, keys[t]),
        forall|j: int| 0 <= j < before.len() ==> drawn_from(keys, t, #[trigger] before[j]),
        forall|i: int| 0 <= i < t ==> equal_value_in(before, #[trigger] keys[i]),
    ensures
        forall|j: int| 0 <= j < out.len() ==> drawn_from(keys, t + 1, #[trigger] out[j]),
        forall|i: int| 0 <= i < t + 1 ==> equal_value_in(out, #[trigger] keys[i]),
{
    assert forall|j2: int| 0 <= j2 < out.len() implies drawn_from(keys, t + 1, #[trigger] out[j2]) by {
        if j2 < pos {
            assert(out[j2] == before[j2]);
            assert(drawn_from(keys, t, before[j2]));
            let i = choose|i: int| 0 <= i < t && #[trigger] keys[i] == before[j2];
            assert(keys[i] == out[j2]);
        } else if j2 == pos {
            assert(keys[t] == out[j2]);
        } else {
            assert(out[j2] == before[j2 - 1]);
            assert(drawn_from(keys, t, before[j2 - 1]));
            let i = choose|i: int| 0 <= i < t && #[trigger] keys[i] == before[j2 - 1];
            assert(keys[i] == out[j2]);
        }
    }
    assert forall|i: int| 0 <= i < t + 1 implies equal_value_in(out, #[trigger] keys[i]) by {
        if i == t {
            lemma_sign_reflexive(key_atom(keys[i]));
            assert(out[pos] == keys[i]);
            assert(atom_sign(key_atom(keys[i]), key_atom(out[pos])) == 0);
        } else {
            assert(equal_value_in(before, keys[i]));
            let j = choose|j: int| 0 <= j < before.len() && atom_sign(key_atom(keys[i]), key_atom(#[trigger] before[j])) == 0;
            if j < pos {
                assert(out[j] == before[j]);
                assert(atom_sign(key_atom(keys[i]), key_atom(out[j])) == 0);
            } else {
                assert(out[j + 1] == before[j]);
                assert(atom_sign(key_atom(keys[i]), key_atom(out[j + 1])) == 0);
            }
        }
    }
}

/// Some key of `v` equals `k` in value.
pub open spec fn equal_value_in(v: Seq<DispatchKey>, k: DispatchKey) -> bool {
    exists|j: int| 0 <= j < v.len() && atom_sign(key_atom(k), key_atom(#[trigger] v[j])) == 0
}

/// `k` is one of the first `t` keys.
pub open spec fn drawn_from(keys: Seq<DispatchKey>, t: int, k: DispatchKey) -> bool {
    exists|i: int| 0 <= i < t && #[trigger] keys[i] == k
}

/// Sorted, deduplicated breakpoints: strictly ascending, every input key equal in
/// value to one of them, each of them one of the inputs. `Overflow` when comparing two
/// rationals leaves the machine range.
pub fn sorted_unique_boundaries(keys: Vec<DispatchKey>) -> (r: Result<Vec<DispatchKey>, NumericFailure>)
    requires
        keys_one_class(keys@),
        2 * keys@.len() + 1 <= usize::MAX,
    ensures
        (forall|i: int, j: int| 0 <= i < keys@.len() && 0 <= j < keys@.len() ==> comparable(key_atom(#[trigger] keys@[i]), key_atom(#[trigger] keys@[j]))) ==> r is Ok,
        r is Err ==> r == Err::<Vec<DispatchKey>, NumericFailure>(NumericFailure::Overflow),
        r matches Ok(v) ==> {
            &&& keys_strictly_sorted(v@)
            &&& v@.len() <= keys@.len()
            &&& forall|i: int| 0 <= i < keys@.len() ==> equal_value_in(v@, #[trigger] keys@[i])
            &&& forall|j: int| 0 <= j < v@.len() ==> drawn_from(keys@, keys@.len() as int, #[trigger] v@[j])
        },
{
    let mut out: Vec<DispatchKey> = Vec::new();
    let n = keys.len();
    let mut t: usize = 0;
    while t < n
        invariant
            n == keys@.len(),
            2 * keys@.len() + 1 <= usize::MAX,
            keys_one_class(keys@),
            t <= n,
            out@.len() <= t,
            keys_strictly_sorted(out@),
            forall|j: int| 0 <= j < out@.len() ==> drawn_from(keys@, t as int, #[trigger] out@[j]),
            forall|i: int| 0 <= i < t ==> equal_value_in(out@, #[trigger] keys@[i]),
        decreases n - t,
    {
        let probe = keys[t].as_probe();
        proof {
            assert forall|j: int| 0 <= j < out@.len() implies same_class(key_atom(#[trigger] out@[j]), probe_atom(probe)) by {
                assert(drawn_from(keys@, t as int, out@[j]));
                let i = choose|i: int| 0 <= i < t && #[trigger] keys@[i] == out@[j];
                assert(same_class(key_atom(keys@[i]), key_atom(keys@[t as int])));
            }
        }
        let found = region_for_value(out.as_slice(), &probe);
        let region = match found {
            Ok(rg) => rg,
            Err(e) => {
                proof {
                    if forall|i: int, j: int| 0 <= i < keys@.len() && 0 <= j < keys@.len() ==> comparable(key_atom(#[trigger] keys@[i]), key_atom(#[trigger] keys@[j])) {
                        assert forall|k: int| 0 <= k < out@.len() implies comparable(key_atom(#[trigger] out@[k]), probe_atom(probe)) by {
                            assert(drawn_from(keys@, t as int, out@[k]));
                            let i = choose|i: int| 0 <= i < t && #[trigger] keys@[i] == out@[k];
                            assert(comparable(key_atom(keys@[i]), key_atom(keys@[t as int])));
                        }
                    }
                }
                return Err(e);
            },
        };
        let ghost v = key_atom(keys@[t as int]);
        let ghost before = out@;
        proof {
            lemma_key_atom_wf(keys@[t as int]);
        }
        if region % 2 == 1 {
            proof {
                let j = (region - 1) / 2;
                assert(atom_sign(key_atom(out@[j as int]), v) == int_sign(2 * j + 1, region as int));
                assert(same_class(key_atom(out@[j as int]), v));
                lemma_sign_antisymmetric(key_atom(out@[j as int]), v);
                assert(atom_sign(key_atom(keys@[t as int]), key_atom(out@[j as int])) == 0);
                assert(equal_value_in(out@, keys@[t as int]));
                assert forall|j2: int| 0 <= j2 < out@.len() implies drawn_from(keys@, t + 1, #[trigger] out@[j2]) by {
                    assert(drawn_from(keys@, t as int, out@[j2]));
                    let i = choose|i: int| 0 <= i < t && #[trigger] keys@[i] == out@[j2];
                    assert(keys@[i] == out@[j2]);
                }
            }
        } else {
            let pos = region / 2;
            let key = keys[t].duplicate();
            out.insert(pos, key);
            proof {
                assert(out@ == before.insert(pos as int, keys@[t as int]));
                lemma_insert_keeps_sorted(before, pos as int, keys@[t as int], region as int);
                lemma_insert_keeps_membership(keys@, before, out@, t as int, pos as int);
            }
        }
        t = t + 1;
    }
    Ok(out)
}


// ---------------------------------------------------------------------------
// Painting arms onto regions: last arm wins
// ---------------------------------------------------------------------------

/// Arm `a` of a table claims region `r`.
pub open spec fn arm_claims<T>(arm: (ComparisonComputation, usize, T), n: int, r: int) -> bool {
    claims(arm.0, arm.1 as int, n, r)
}

/// Index of the last arm claiming region `r`, or -1.
pub open spec fn last_claim<T>(arms: Seq<(ComparisonComputation, usize, T)>, n: int, r: int) -> int
    decreases arms.len(),
{
    if arms.len() == 0 {
        -1
    } else if arm_claims(arms.last(), n, r) {
        arms.len() - 1
    } else {
        last_claim(arms.drop_last(), n, r)
    }
}

/// The body a region ends with: that of the last arm claiming it, else the default.
pub open spec fn last_wins<T>(arms: Seq<(ComparisonComputation, usize, T)>, n: int, default: T, r: int) -> T {
    let j = last_claim(arms, n, r);
    if j >= 0 {
        arms[j].2
    } else {
        default
    }
}

/// Filling the region table arm by arm, each arm overwriting the regions it claims.
pub open spec fn forward_fill<T>(arms: Seq<(ComparisonComputation, usize, T)>, n: int, default: T) -> Seq<T>
    decreases arms.len(),
{
    if arms.len() == 0 {
        Seq::new((2 * n + 1) as nat, |r: int| default)
    } else {
        let prev = forward_fill(arms.drop_last(), n, default);
        Seq::new((2 * n + 1) as nat, |r: int| if arm_claims(arms.last(), n, r) {
            arms.last().2
        } else {
            prev[r]
        })
    }
}

pub proof fn lemma_last_claim<T>(arms: Seq<(ComparisonComputation, usize, T)>, n: int, r: int)
    ensures
        -1 <= last_claim(arms, n, r) < arms.len(),
        last_claim(arms, n, r) >= 0 ==> arm_claims(arms[last_claim(arms, n, r)], n, r),
        forall|j: int| last_claim(arms, n, r) < j < arms.len() ==> !arm_claims(#[trigger] arms[j], n, r),
    decreases arms.len(),
{
    if arms.len() > 0 {
        lemma_last_claim(arms.drop_last(), n, r);
        if !arm_claims(arms.last(), n, r) {
            assert(last_claim(arms, n, r) == last_claim(arms.drop_last(), n, r));
            assert forall|j: int| last_claim(arms, n, r) < j < arms.len() implies !arm_claims(#[trigger] arms[j], n, r) by {
                if j < arms.len() - 1 {
                    assert(arms[j] == arms.drop_last()[j]);
                }
            }
            if last_claim(arms, n, r) >= 0 {
                assert(arms[last_claim(arms, n, r)] == arms.drop_last()[last_claim(arms, n, r)]);
            }
        }
    }
}

/// Painting last-match-wins equals filling forward: the region table that keeps the
/// last claiming arm's body is the one obtained by applying the arms in order.
pub proof fn lemma_last_wins_is_forward_fill<T>(arms: Seq<(ComparisonComputation, usize, T)>, n: int, default: T, r: int)
    requires
        0 <= r <= 2 * n,
    ensures
        forward_fill(arms, n, default).len() == 2 * n + 1,
        forward_fill(arms, n, default)[r] == last_wins(arms, n, default, r),
    decreases arms.len(),
{
    if arms.len() > 0 {
        lemma_last_wins_is_forward_fill(arms.drop_last(), n, default, r);
        lemma_last_claim(arms.drop_last(), n, r);
        if !arm_claims(arms.last(), n, r) {
            let j = last_claim(arms.drop_last(), n, r);
            if j >= 0 {
                assert(arms[j] == arms.drop_last()[j]);
            }
        }
    }
}

/// The jump array: `next[i] == i` marks region `i` unpainted; a painted `i` points
/// past a run of painted regions; `next[n]` is the sentinel.
pub open spec fn jump_inv(next: Seq<usize>, n: int) -> bool {
    &&& next.len() == n + 1
    &&& next[n] == n
    &&& forall|i: int| 0 <= i <= n ==> i <= #[trigger] next[i] <= n
    &&& forall|i: int, j: int| #![trigger next[i], next[j]] 0 <= i <= j <= n && j < next[i] ==> next[j] != j
}

pub open spec fn painted(next: Seq<usize>, i: int) -> bool {
    next[i] != i
}

proof fn lemma_run_painted(next: Seq<usize>, n: int, i: int, j: int)
    requires
        jump_inv(next, n),
        0 <= i <= j <= n,
        j < next[i],
    ensures
        painted(next, j),
{
    assert(next[j] != j);
}

/// First unpainted index at or after `start`, compressing the path walked.
fn find(next: &mut Vec<usize>, start: usize, Ghost(n): Ghost<int>) -> (root: usize)
    requires
        jump_inv(old(next)@, n),
        start <= n,
    ensures
        jump_inv(final(next)@, n),
        forall|i: int| 0 <= i <= n ==> painted(final(next)@, i) == painted(old(next)@, i),
        start <= root <= n,
        !painted(final(next)@, root as int),
        forall|j: int| start <= j < root ==> painted(final(next)@, j),
{
    let mut root = start;
    while next[root] != root
        invariant
            jump_inv(next@, n),
            next@ == old(next)@,
            start <= root <= n,
            forall|j: int| start <= j < root ==> painted(next@, j),
        decreases n - root,
    {
        proof {
            assert forall|j: int| start <= j < next@[root as int] implies painted(next@, j) by {
                if j >= root {
                    lemma_run_painted(next@, n, root as int, j);
                }
            }
        }
        root = next[root];
    }
    let mut index = start;
    while index != root
        invariant
            jump_inv(next@, n),
            forall|i: int| 0 <= i <= n ==> painted(next@, i) == painted(old(next)@, i),
            start <= index <= root <= n,
            next@[root as int] == root,
            forall|j: int| start <= j < root ==> painted(next@, j),
        decreases root - index,
    {
        let parent = next[index];
        proof {
            assert(painted(next@, index as int));
            if parent > root {
                assert(next@[root as int] != root);
            }
        }
        let ghost before = next@;
        next.set(index, root);
        proof {
            assert forall|j: int| start <= j < root implies painted(next@, j) by {
                if j != index {
                    assert(next@[j] == before[j]);
                    assert(painted(before, j));
                } else {
                    assert(next@[j] == root);
                }
            }
            assert forall|i: int| 0 <= i <= n implies painted(next@, i) == painted(old(next)@, i) by {
                if i != index {
                    assert(next@[i] == before[i]);
                }
            }
            assert forall|i: int, j: int| #![trigger next@[i], next@[j]] 0 <= i <= j <= n && j < next@[i] implies next@[j] != j by {
                if i == index {
                    assert(painted(before, j));
                    if j == index {
                    } else {
                        assert(next@[j] == before[j]);
                    }
                } else {
                    assert(next@[i] == before[i]);
                    if j == index {
                        assert(next@[j] == root);
                    } else {
                        assert(next@[j] == before[j]);
                    }
                }
            }
        }
        index = parent;
    }
    root
}

/// What painting one span does: every unpainted region of `[start, end]` takes
/// `body`; painted regions and regions outside keep their body.
fn paint_span<T: Copy>(regions: &mut Vec<T>, next: &mut Vec<usize>, start: usize, end: usize, body: T, Ghost(n): Ghost<int>)
    requires
        jump_inv(old(next)@, n),
        old(regions)@.len() == n,
        start <= end < n,
    ensures
        jump_inv(final(next)@, n),
        final(regions)@.len() == n,
        forall|r: int| 0 <= r < n ==> #[trigger] painted(final(next)@, r) == (painted(old(next)@, r) || start <= r <= end),
        forall|r: int| 0 <= r < n ==> #[trigger] final(regions)@[r] == (if !painted(old(next)@, r) && start <= r <= end {
            body
        } else {
            old(regions)@[r]
        }),
{
    let ghost next0 = next@;
    let ghost regions0 = regions@;
    let mut index = find(next, start, Ghost(n));
    while index <= end
        invariant
            jump_inv(next@, n),
            regions@.len() == n,
            start <= index <= n,
            start <= end < n,
            !painted(next@, index as int),
            forall|j: int| start <= j < index ==> painted(next@, j),
            forall|r: int| 0 <= r < n ==> #[trigger] painted(next@, r) == (painted(next0, r) || (start <= r < index && r <= end)),
            forall|r: int| 0 <= r < n ==> #[trigger] regions@[r] == (if !painted(next0, r) && start <= r < index && r <= end {
                body
            } else {
                regions0[r]
            }),
        decreases n - index,
    {
        regions.set(index, body);
        let ghost pre_find = next@;
        let after = find(next, index + 1, Ghost(n));
        let ghost before = next@;
        next.set(index, after);
        proof {
            assert forall|j: int| start <= j < after implies painted(next@, j) by {
                if j != index {
                    assert(next@[j] == before[j]);
                    if j < index {
                        assert(painted(pre_find, j));
                        assert(painted(before, j) == painted(pre_find, j));
                    } else {
                        assert(index + 1 <= j < after);
                        assert(painted(before, j));
                    }
                }
            }
            assert forall|r: int| 0 <= r < n implies #[trigger] regions@[r] == (if !painted(next0, r) && start <= r < after && r <= end {
                body
            } else {
                regions0[r]
            }) by {
                if r == index {
                    assert(!painted(pre_find, r));
                } else {
                    assert(painted(before, r) == painted(pre_find, r));
                    if index < r < after {
                        assert(painted(before, r));
                    }
                }
            }
            assert forall|i: int, j: int| #![trigger next@[i], next@[j]] 0 <= i <= j <= n && j < next@[i] implies next@[j] != j by {
                if i == index {
                    if j != index {
                        assert(painted(before, j));
                        assert(next@[j] == before[j]);
                    }
                } else {
                    assert(next@[i] == before[i]);
                    if j == index {
                    } else {
                        assert(next@[j] == before[j]);
                        if j < before[i] {
                            assert(before[j] != j);
                        }
                    }
                    if index < before[i] && i <= index {
                        assert(before[index as int] != index);
                    }
                }
            }
            assert forall|r: int| 0 <= r < n implies #[trigger] painted(next@, r) == (painted(next0, r) || (start <= r < after && r <= end)) by {
                if r != index {
                    assert(next@[r] == before[r]);
                    assert(painted(before, r) == painted(pre_find, r));
                }
            }
        }
        index = after;
    }
    proof {
        assert forall|r: int| 0 <= r < n implies #[trigger] painted(next@, r) == (painted(next0, r) || start <= r <= end) by {
            if start <= r <= end {
                assert(r < index);
            }
        }
    }
}

/// Region bodies for last-match-wins arm coverage. `arms` is earliest-first, each
/// `(operator, breakpoint index, body)`; later arms win; uncovered regions keep
/// `default_body`. Arms are painted last-first through a next-unpainted jump array,
/// so each region is painted at most once.
pub fn paint_dispatch_regions<T: Copy>(boundary_count: usize, default_body: T, arms: &[(ComparisonComputation, usize, T)]) -> (regions: Vec<T>)
    requires
        2 * boundary_count + 2 <= usize::MAX,
        forall|a: int| 0 <= a < arms@.len() ==> (#[trigger] arms@[a]).1 < boundary_count,
    ensures
        regions@.len() == 2 * boundary_count + 1,
        forall|r: int| 0 <= r < regions@.len() ==> #[trigger] regions@[r] == last_wins(arms@, boundary_count as int, default_body, r),
{
    let n = region_count(boundary_count);
    let ghost bc = boundary_count as int;
    let mut regions: Vec<T> = Vec::new();
    let mut next: Vec<usize> = Vec::new();
    let mut i: usize = 0;
    while i < n
        invariant
            n == 2 * boundary_count + 1,
            2 * boundary_count + 2 <= usize::MAX,
            i <= n,
            regions@.len() == i,
            next@.len() == i,
            forall|r: int| 0 <= r < i ==> #[trigger] regions@[r] == default_body,
            forall|r: int| 0 <= r < i ==> #[trigger] next@[r] == r,
        decreases n - i,
    {
        regions.push(default_body);
        next.push(i);
        i = i + 1;
    }
    next.push(n);
    proof {
        assert forall|a: int, b: int| #![trigger next@[a], next@[b]] 0 <= a <= b <= n && b < next@[a] implies next@[b] != b by {
            assert(next@[a] == a);
        }
    }
    let m = arms.len();
    let mut done = m;
    proof {
        assert forall|r: int| 0 <= r < n implies #[trigger] painted(next@, r) == (last_claim(arms@, bc, r) >= done) by {
            lemma_last_claim(arms@, bc, r);
            assert(next@[r] == r);
        }
        assert forall|r: int| 0 <= r < n implies #[trigger] regions@[r] == (if last_claim(arms@, bc, r) >= done {
            arms@[last_claim(arms@, bc, r)].2
        } else {
            default_body
        }) by {
            lemma_last_claim(arms@, bc, r);
        }
    }
    while done > 0
        invariant
            n == 2 * boundary_count + 1,
            bc == boundary_count,
            m == arms@.len(),
            done <= m,
            jump_inv(next@, n as int),
            regions@.len() == n,
            forall|a: int| 0 <= a < arms@.len() ==> (#[trigger] arms@[a]).1 < boundary_count,
            forall|r: int| 0 <= r < n ==> #[trigger] painted(next@, r) == (last_claim(arms@, bc, r) >= done),
            forall|r: int| 0 <= r < n ==> #[trigger] regions@[r] == (if last_claim(arms@, bc, r) >= done {
                arms@[last_claim(arms@, bc, r)].2
            } else {
                default_body
            }),
        decreases done,
    {
        done = done - 1;
        let (operator, boundary_index, body) = arms[done];
        let spans = regions_matching(&operator, boundary_index, boundary_count);
        let ghost next_before = next@;
        let ghost regions_before = regions@;
        let ghost sv0 = span_view(spans[0]);
        let ghost sv1 = span_view(spans[1]);
        proof {
            assert(body == arms@[done as int].2);
            assert forall|r: int| 0 <= r < n implies #[trigger] arm_claims(arms@[done as int], bc, r) == (in_span(sv0, r) || in_span(sv1, r)) by {}
        }
        if let Some((start, end)) = spans[0] {
            proof {
                lemma_regions_in_table(operator, boundary_index as int, bc, start as int);
                lemma_regions_in_table(operator, boundary_index as int, bc, end as int);
            }
            paint_span(&mut regions, &mut next, start, end, body, Ghost(n as int));
        }
        let ghost next_mid = next@;
        let ghost regions_mid = regions@;
        proof {
            assert forall|r: int| 0 <= r < n implies #[trigger] painted(next_mid, r) == (painted(next_before, r) || in_span(sv0, r))
                && regions_mid[r] == (if !painted(next_before, r) && in_span(sv0, r) { body } else { regions_before[r] }) by {}
        }
        if let Some((start, end)) = spans[1] {
            proof {
                lemma_regions_in_table(operator, boundary_index as int, bc, start as int);
                lemma_regions_in_table(operator, boundary_index as int, bc, end as int);
            }
            paint_span(&mut regions, &mut next, start, end, body, Ghost(n as int));
        }
        proof {
            assert forall|r: int| 0 <= r < n implies #[trigger] painted(next@, r) == (painted(next_mid, r) || in_span(sv1, r))
                && regions@[r] == (if !painted(next_mid, r) && in_span(sv1, r) { body } else { regions_mid[r] }) by {}
            assert forall|r: int| 0 <= r < n implies #[trigger] regions@[r] == (if last_claim(arms@, bc, r) >= done {
                    arms@[last_claim(arms@, bc, r)].2
                } else {
                    default_body
                }) by {
                lemma_last_claim(arms@, bc, r);
                let lc = last_claim(arms@, bc, r);
                let c = arm_claims(arms@[done as int], bc, r);
                assert(painted(next_before, r) == (lc >= done + 1));
                assert(painted(next_mid, r) == (painted(next_before, r) || in_span(sv0, r)));
                assert(regions_mid[r] == (if !painted(next_before, r) && in_span(sv0, r) { body } else { regions_before[r] }));
                assert(regions@[r] == (if !painted(next_mid, r) && in_span(sv1, r) { body } else { regions_mid[r] }));
                if c {
                    assert(lc >= done);
                } else {
                    assert(lc != done);
                }
            }
            assert forall|r: int| 0 <= r < n implies #[trigger] painted(next@, r) == (last_claim(arms@, bc, r) >= done) by {
                lemma_last_claim(arms@, bc, r);
                let lc = last_claim(arms@, bc, r);
                let c = arm_claims(arms@[done as int], bc, r);
                assert(painted(next_before, r) == (lc >= done + 1));
                assert(painted(next_mid, r) == (painted(next_before, r) || in_span(sv0, r)));
                assert(painted(next@, r) == (painted(next_mid, r) || in_span(sv1, r)));
                if c {
                    assert(lc >= done);
                } else {
                    assert(lc != done);
                }
            }
        }
    }
    regions
}

/// Whether a region table is an exclusive point table: every interval region holds
/// the default body (`regions[0]`) and no point region holds a nested table body.
pub fn is_exclusive_point_table<F: Fn(u64) -> bool>(regions: &[u64], point_is_nested: F) -> (b: bool)
    requires
        regions@.len() > 0,
        forall|x: u64| call_requires(point_is_nested, (x,)),
    ensures
        b ==> forall|i: int| 0 <= i < regions@.len() && i % 2 == 0 ==> #[trigger] regions@[i] == regions@[0],
        b ==> forall|i: int| 0 <= i < regions@.len() && i % 2 == 1 ==> call_ensures(point_is_nested, (#[trigger] regions@[i],), false),
        !b ==> exists|i: int| 0 <= i < regions@.len() && ((i % 2 == 0 && #[trigger] regions@[i] != regions@[0]) || (i % 2 == 1
            && call_ensures(point_is_nested, (regions@[i],), true))),
{
    let default = regions[0];
    let n = regions.len();
    let mut index: usize = 0;
    while index < n
        invariant
            n == regions@.len(),
            default == regions@[0],
            index <= n,
            forall|x: u64| call_requires(point_is_nested, (x,)),
            forall|i: int| 0 <= i < index && i % 2 == 0 ==> #[trigger] regions@[i] == regions@[0],
            forall|i: int| 0 <= i < index && i % 2 == 1 ==> call_ensures(point_is_nested, (#[trigger] regions@[i],), false),
        decreases n - index,
    {
        let body = regions[index];
        if index % 2 == 0 {
            if body != default {
                return false;
            }
        } else if point_is_nested(body) {
            return false;
        }
        index = index + 1;
    }
    true
}


// ---------------------------------------------------------------------------
// Classes
// ---------------------------------------------------------------------------

/// The comparison class a dispatch table keys on.
#[derive(Debug, Clone, Copy, PartialEq, Eq, Structural)]
pub enum DispatchClass {
    /// Text compares with `is` and `is not` only.
    Text,
    Rational,
    Date,
    Time,
}

/// The class of one `(scrutinee type, key)` pair, when the pair is decided by
/// directly ordering the two values.
pub open spec fn spec_class_for_pair(t: LemmaType, key: ValueKind) -> Option<DispatchClass> {
    match key {
        ValueKind::Text(_) => if spec_matches_kind(t.specifications, PrimitiveKind::Text) { Some(DispatchClass::Text) } else { None },
        ValueKind::Date(_) => if spec_matches_kind(t.specifications, PrimitiveKind::Date) { Some(DispatchClass::Date) } else { None },
        ValueKind::Time(_) => if spec_matches_kind(t.specifications, PrimitiveKind::Time) { Some(DispatchClass::Time) } else { None },
        ValueKind::Ratio(_) => if spec_matches_kind(t.specifications, PrimitiveKind::Ratio) { Some(DispatchClass::Rational) } else { None },
        ValueKind::Number(_) => if spec_matches_kind(t.specifications, PrimitiveKind::Number) || spec_is_duration_like(t)
            || spec_is_calendar_like(t) {
            Some(DispatchClass::Rational)
        } else {
            None
        },
        ValueKind::Measure(_) => if !spec_matches_kind(t.specifications, PrimitiveKind::Number) && t.specifications is Measure {
            Some(DispatchClass::Rational)
        } else {
            None
        },
        ValueKind::Boolean(_) => None,
        ValueKind::Range(_, _) => None,
    }
}

/// The class shared by a scrutinee type and every key, or `None` when there are no
/// keys, the scrutinee is undetermined, a range or boolean, or some pair has no
/// class or a different one.
pub open spec fn spec_classify(t: LemmaType, keys: Seq<LiteralValue>) -> Option<DispatchClass> {
    if keys.len() == 0 || t.specifications is Undetermined || t.specifications is Boolean
        || t.specifications is DateRange || t.specifications is TimeRange || t.specifications is NumberRange
        || t.specifications is MeasureRange || t.specifications is RatioRange {
        None
    } else if spec_class_for_pair(t, keys[0].value) is Some && forall|i: int| 0 <= i < keys.len()
        ==> #[trigger] spec_class_for_pair(t, keys[i].value) == spec_class_for_pair(t, keys[0].value) {
        spec_class_for_pair(t, keys[0].value)
    } else {
        None
    }
}

fn class_for_pair(scrutinee_type: &LemmaType, key: &LiteralValue) -> (r: Option<DispatchClass>)
    ensures
        r == spec_class_for_pair(*scrutinee_type, key.value),
{
    match &key.value {
        ValueKind::Text(_) => if scrutinee_type.matches_primitive_kind(PrimitiveKind::Text) { Some(DispatchClass::Text) } else { None },
        ValueKind::Date(_) => if scrutinee_type.matches_primitive_kind(PrimitiveKind::Date) { Some(DispatchClass::Date) } else { None },
        ValueKind::Time(_) => if scrutinee_type.matches_primitive_kind(PrimitiveKind::Time) { Some(DispatchClass::Time) } else { None },
        ValueKind::Ratio(_) => if scrutinee_type.matches_primitive_kind(PrimitiveKind::Ratio) { Some(DispatchClass::Rational) } else { None },
        ValueKind::Number(_) => {
            if scrutinee_type.matches_primitive_kind(PrimitiveKind::Number) {
                return Some(DispatchClass::Rational);
            }
            if scrutinee_type.is_duration_like_measure() || scrutinee_type.is_calendar_like() {
                Some(DispatchClass::Rational)
            } else {
                None
            }
        },
        ValueKind::Measure(_) => {
            if scrutinee_type.matches_primitive_kind(PrimitiveKind::Number) {
                return None;
            }
            if !scrutinee_type.is_measure() {
                return None;
            }
            Some(DispatchClass::Rational)
        },
        ValueKind::Boolean(_) => None,
        ValueKind::Range(_, _) => None,
    }
}

/// The class shared by a scrutinee type and every key, or `None` when the pattern
/// does not apply.
pub fn classify_dispatch(scrutinee_type: &LemmaType, keys: &[&LiteralValue]) -> (r: Option<DispatchClass>)
    ensures
        r == spec_classify(*scrutinee_type, keys@.map_values(|k: &LiteralValue| *k)),
{
    let ghost ks = keys@.map_values(|k: &LiteralValue| *k);
    if keys.len() == 0 {
        return None;
    }
    if scrutinee_type.is_undetermined() || scrutinee_type.is_range() || scrutinee_type.is_boolean() {
        return None;
    }
    let first = class_for_pair(scrutinee_type, keys[0]);
    proof {
        assert(ks[0] == *keys@[0]);
    }
    let established = match first {
        Some(c) => c,
        None => {
            return None;
        },
    };
    let n = keys.len();
    let mut i: usize = 1;
    while i < n
        invariant
            n == keys@.len(),
            ks == keys@.map_values(|k: &LiteralValue| *k),
            1 <= i <= n,
            spec_class_for_pair(*scrutinee_type, ks[0].value) == Some(established),
            forall|j: int| 0 <= j < i ==> #[trigger] spec_class_for_pair(*scrutinee_type, ks[j].value) == Some(established),
        decreases n - i,
    {
        let c = class_for_pair(scrutinee_type, keys[i]);
        proof {
            assert(ks[i as int] == *keys@[i as int]);
        }
        match c {
            Some(k) => {
                if k != established {
                    return None;
                }
            },
            None => {
                return None;
            },
        }
        i = i + 1;
    }
    Some(established)
}


// ---------------------------------------------------------------------------
// Keys and probes of literal values
// ---------------------------------------------------------------------------

/// Failure building a dispatch key from a literal.
#[derive(Debug, Clone, PartialEq, Eq)]
pub enum DispatchKeyBuildError {
    /// Calendar conversion failed.
    CalendarFailure(String),
    /// A value kind ordered dispatch never keys on.
    Unsupported,
}

/// The key a value orders by, when it has one: texts, magnitudes of numbers,
/// ratios and measures, and the UTC instants of valid dates and times.
pub open spec fn spec_key_of(value: ValueKind) -> Option<OrderAtom> {
    match value {
        ValueKind::Text(t) => Some(OrderAtom::Text(t@)),
        ValueKind::Number(m) => Some(OrderAtom::Rational(m.num(), m.den())),
        ValueKind::Measure(m) => Some(OrderAtom::Rational(m.num(), m.den())),
        ValueKind::Ratio(m) => Some(OrderAtom::Rational(m.num(), m.den())),
        ValueKind::Date(d) => if datetime_valid(d) { Some(OrderAtom::Date(datetime_micros(d))) } else { None },
        ValueKind::Time(t) => if time_valid(t) { Some(OrderAtom::Time(time_micros(t))) } else { None },
        ValueKind::Boolean(_) => None,
        ValueKind::Range(_, _) => None,
    }
}

/// A time is keyed by its UTC instant: a time written with an offset and the UTC time
/// whose clock reads that offset earlier fall on the same key, so they land in the same
/// dispatch region.
pub proof fn lemma_time_keys_are_utc_instants(a: crate::temporal::SemanticTime, b: crate::temporal::SemanticTime)
    requires
        time_valid(a),
        time_valid(b),
        crate::temporal::offset_seconds(b.timezone) == 0,
        crate::temporal::clock_micros(b.hour, b.minute, b.second, b.microsecond) + crate::temporal::offset_seconds(a.timezone)
            * 1000000 == crate::temporal::clock_micros(a.hour, a.minute, a.second, a.microsecond),
    ensures
        spec_key_of(ValueKind::Time(a)) == spec_key_of(ValueKind::Time(b)),
        spec_key_of(ValueKind::Time(b)) == Some(OrderAtom::Time(crate::temporal::clock_micros(b.hour, b.minute, b.second, b.microsecond))),
{
    crate::temporal::lemma_time_instant_is_its_utc_reading(a, b);
}

/// The messages a date or time outside the calendar is reported with.
pub open spec fn calendar_failure_message(m: Seq<char>) -> bool {
    m == "invalid calendar date"@ || m == "invalid time of day"@ || m == "invalid timezone offset"@
}

/// Owned key for plan storage, built from a literal's value.
pub fn dispatch_key_of_literal(value: &ValueKind) -> (r: Result<DispatchKey, DispatchKeyBuildError>)
    ensures
        r matches Ok(k) ==> spec_key_of(*value) == Some(key_atom(k)),
        r is Err ==> spec_key_of(*value) is None,
        r matches Err(DispatchKeyBuildError::CalendarFailure(m)) ==> calendar_failure_message(m@),
        r == Err::<DispatchKey, DispatchKeyBuildError>(DispatchKeyBuildError::Unsupported) <==> (value is Boolean || value is Range),
{
    match value {
        ValueKind::Text(text) => Ok(DispatchKey::Text(text.clone())),
        ValueKind::Number(magnitude) => Ok(DispatchKey::Rational(*magnitude)),
        ValueKind::Measure(magnitude) => Ok(DispatchKey::Rational(*magnitude)),
        ValueKind::Ratio(magnitude) => Ok(DispatchKey::Rational(*magnitude)),
        ValueKind::Date(date) => match datetime_instant(date) {
            Ok(moment) => Ok(DispatchKey::Date(moment)),
            Err(message) => Err(DispatchKeyBuildError::CalendarFailure(message)),
        },
        ValueKind::Time(time) => match time_instant(time) {
            Ok(moment) => Ok(DispatchKey::Time(moment)),
            Err(message) => Err(DispatchKeyBuildError::CalendarFailure(message)),
        },
        ValueKind::Boolean(_) => Err(DispatchKeyBuildError::Unsupported),
        ValueKind::Range(_, _) => Err(DispatchKeyBuildError::Unsupported),
    }
}

/// Result of turning a value into a dispatch probe.
#[derive(Debug)]
pub enum DispatchProbeOutcome<'a> {
    Probe(DispatchProbe<'a>),
    /// Calendar conversion failed.
    CalendarFailure(String),
    /// A value kind ordered dispatch never keys on.
    Unsupported,
}

/// The probe a value is searched with (borrowing texts and magnitudes).
pub fn dispatch_probe_of(value: &ValueKind) -> (r: DispatchProbeOutcome<'_>)
    ensures
        r matches DispatchProbeOutcome::Probe(p) ==> spec_key_of(*value) == Some(probe_atom(p)),
        r is CalendarFailure ==> spec_key_of(*value) is None && (value is Date || value is Time),
        r matches DispatchProbeOutcome::CalendarFailure(m) ==> calendar_failure_message(m@),
        r is Unsupported <==> (value is Boolean || value is Range),
{
    match value {
        ValueKind::Text(text) => DispatchProbeOutcome::Probe(DispatchProbe::Text(text.as_str())),
        ValueKind::Number(magnitude) => DispatchProbeOutcome::Probe(DispatchProbe::Rational(magnitude)),
        ValueKind::Measure(magnitude) => DispatchProbeOutcome::Probe(DispatchProbe::Rational(magnitude)),
        ValueKind::Ratio(magnitude) => DispatchProbeOutcome::Probe(DispatchProbe::Rational(magnitude)),
        ValueKind::Date(date) => match datetime_instant(date) {
            Ok(moment) => DispatchProbeOutcome::Probe(DispatchProbe::Date(moment)),
            Err(message) => DispatchProbeOutcome::CalendarFailure(message),
        },
        ValueKind::Time(time) => match time_instant(time) {
            Ok(moment) => DispatchProbeOutcome::Probe(DispatchProbe::Time(moment)),
            Err(message) => DispatchProbeOutcome::CalendarFailure(message),
        },
        ValueKind::Boolean(_) => DispatchProbeOutcome::Unsupported,
        ValueKind::Range(_, _) => DispatchProbeOutcome::Unsupported,
    }
}


/// Region of an evaluated scrutinee value; a calendar conversion failure or a
/// rational comparison overflow is the message the dispatch vetoes with.
pub fn region_of_scrutinee(boundaries: &[DispatchKey], value: &ValueKind) -> (r: Result<usize, String>)
    requires
        !(value is Boolean || value is Range),
        keys_strictly_sorted(boundaries@),
        spec_key_of(*value) is Some ==> keys_of_class(boundaries@, spec_key_of(*value)->0),
        2 * boundaries@.len() + 1 <= usize::MAX,
    ensures
        spec_key_of(*value) is None ==> (r matches Err(m) && calendar_failure_message(m@)),
        spec_key_of(*value) is Some && (forall|k: int| 0 <= k < boundaries@.len()
            ==> comparable(key_atom(#[trigger] boundaries@[k]), spec_key_of(*value)->0)) ==> r is Ok,
        spec_key_of(*value) is Some ==> (r matches Err(m) ==> m@ == spec_failure_message(NumericFailure::Overflow)),
        r matches Ok(region) ==> spec_key_of(*value) is Some && region <= 2 * boundaries@.len() && forall|k: int| 0 <= k < boundaries@.len()
            ==> #[trigger] atom_sign(key_atom(boundaries@[k]), spec_key_of(*value)->0) == int_sign(2 * k + 1, region as int),
{
    let probe = match dispatch_probe_of(value) {
        DispatchProbeOutcome::Probe(p) => p,
        DispatchProbeOutcome::CalendarFailure(message) => {
            return Err(message);
        },
        DispatchProbeOutcome::Unsupported => vstd::pervasive::unreached(),
    };
    match region_for_value(boundaries, &probe) {
        Ok(region) => Ok(region),
        Err(failure) => Err(String::from_str(failure.message())),
    }
}

/// Index of the last arm whose comparison holds for a value of order `v` against the
/// breakpoints, or -1: the linear reverse scan the table replaces.
pub open spec fn last_match<T>(arms: Seq<(ComparisonComputation, usize, T)>, boundaries: Seq<DispatchKey>, v: OrderAtom) -> int
    decreases arms.len(),
{
    if arms.len() == 0 {
        -1
    } else if holds(arms.last().0, atom_sign(v, key_atom(boundaries[arms.last().1 as int])), 0) {
        arms.len() - 1
    } else {
        last_match(arms.drop_last(), boundaries, v)
    }
}

/// The body the reverse scan selects for a value: the last matching arm's, else the default.
pub open spec fn scan_body<T>(arms: Seq<(ComparisonComputation, usize, T)>, boundaries: Seq<DispatchKey>, v: OrderAtom, default: T) -> T {
    let j = last_match(arms, boundaries, v);
    if j >= 0 {
        arms[j].2
    } else {
        default
    }
}

proof fn lemma_claims_iff_match<T>(arms: Seq<(ComparisonComputation, usize, T)>, boundaries: Seq<DispatchKey>, v: OrderAtom, r: int)
    requires
        0 <= r <= 2 * boundaries.len(),
        forall|a: int| 0 <= a < arms.len() ==> (#[trigger] arms[a]).1 < boundaries.len(),
        keys_of_class(boundaries, v),
        forall|k: int| 0 <= k < boundaries.len() ==> #[trigger] atom_sign(key_atom(boundaries[k]), v) == int_sign(2 * k + 1, r),
    ensures
        last_claim(arms, boundaries.len() as int, r) == last_match(arms, boundaries, v),
    decreases arms.len(),
{
    if arms.len() > 0 {
        let arm = arms.last();
        let k = arm.1 as int;
        assert(arms[arms.len() - 1] == arm);
        lemma_regions_match_predicate(arm.0, k, boundaries.len() as int, r);
        lemma_sign_antisymmetric(key_atom(boundaries[k]), v);
        assert forall|a: int| 0 <= a < arms.drop_last().len() implies (#[trigger] arms.drop_last()[a]).1 < boundaries.len() by {
            assert(arms.drop_last()[a] == arms[a]);
        }
        lemma_claims_iff_match(arms.drop_last(), boundaries, v, r);
    }
}

/// Table lookup agrees with the linear scan: for a value whose region among the
/// sorted breakpoints is `r`, the painted body of `r` is the body of the last arm
/// whose comparison holds for the value, or the default when none does.
pub proof fn lemma_table_lookup_is_last_match<T>(
    arms: Seq<(ComparisonComputation, usize, T)>,
    boundaries: Seq<DispatchKey>,
    v: OrderAtom,
    default: T,
    r: int,
)
    requires
        0 <= r <= 2 * boundaries.len(),
        forall|a: int| 0 <= a < arms.len() ==> (#[trigger] arms[a]).1 < boundaries.len(),
        keys_of_class(boundaries, v),
        forall|k: int| 0 <= k < boundaries.len() ==> #[trigger] atom_sign(key_atom(boundaries[k]), v) == int_sign(2 * k + 1, r),
    ensures
        last_wins(arms, boundaries.len() as int, default, r) == scan_body(arms, boundaries, v, default),
{
    lemma_claims_iff_match(arms, boundaries, v, r);
}

} // verus!
