//! Building an ordered dispatch table from an `unless` chain over one scrutinee:
//! classify the keys, collect sorted distinct breakpoints, and paint each arm's body
//! onto the regions its comparison claims, later arms winning.

use vstd::prelude::*;
use vstd::string::StringExecFns;
use crate::comparison::{holds, ComparisonComputation};
use crate::ordered_dispatch::{
    atom_sign, atom_wf, classify_dispatch, dispatch_key_of_literal, drawn_from, equal_value_in, int_sign, key_atom,
    keys_of_class, keys_one_class, keys_strictly_sorted, last_match, last_wins, lemma_key_atom_wf,
    lemma_sign_antisymmetric, lemma_table_lookup_is_last_match, paint_dispatch_regions, region_for_value, same_class,
    scan_body, sorted_unique_boundaries, spec_class_for_pair, spec_classify, spec_key_of, DispatchClass, DispatchKey,
    DispatchKeyBuildError, OrderAtom, calendar_failure_message, comparable, probe_atom,
};
use crate::rational::spec_failure_message;
use crate::types::LemmaType;
use crate::values::{LiteralValue, ValueKind};

verus! {

/// The order atoms of a list of key literals.
pub open spec fn literal_atoms(keys: Seq<LiteralValue>) -> Seq<OrderAtom> {
    keys.map_values(|k: LiteralValue| spec_key_of(k.value)->0)
}

/// Index of the last arm whose comparison of `v` against its own key holds, or -1:
/// the `unless` chain read from the bottom up.
pub open spec fn last_key_match(ops: Seq<ComparisonComputation>, atoms: Seq<OrderAtom>, v: OrderAtom) -> int
    decreases ops.len(),
{
    if ops.len() == 0 {
        -1
    } else if holds(ops.last(), atom_sign(v, atoms[ops.len() - 1]), 0) {
        ops.len() - 1
    } else {
        last_key_match(ops.drop_last(), atoms, v)
    }
}

/// The body an `unless` chain selects for a value: the last arm whose comparison
/// holds, else the default.
pub open spec fn chain_body<T>(ops: Seq<ComparisonComputation>, atoms: Seq<OrderAtom>, bodies: Seq<T>, v: OrderAtom, default: T) -> T {
    let j = last_key_match(ops, atoms, v);
    if j >= 0 {
        bodies[j]
    } else {
        default
    }
}

/// Whether some arm of a text table compares by order rather than (in)equality.
pub open spec fn orders_text(ops: Seq<ComparisonComputation>) -> bool {
    exists|i: int|
        0 <= i < ops.len() && !(#[trigger] ops[i] is Is || ops[i] is IsNot)
}

/// Whether a chain can become a table at all: its keys share one class with the
/// scrutinee, and text keys are only tested for (in)equality.
pub open spec fn dispatchable(t: LemmaType, keys: Seq<LiteralValue>, ops: Seq<ComparisonComputation>) -> bool {
    spec_classify(t, keys) is Some && !(spec_classify(t, keys) == Some(DispatchClass::Text) && orders_text(ops))
}

/// For every value of the keys' class, the table's region for it holds the body the
/// chain selects.
pub open spec fn table_agrees<T>(
    boundaries: Seq<DispatchKey>,
    regions: Seq<T>,
    ops: Seq<ComparisonComputation>,
    atoms: Seq<OrderAtom>,
    bodies: Seq<T>,
    default: T,
) -> bool {
    forall|v: OrderAtom, r: int|
        #![trigger regions[r], chain_body(ops, atoms, bodies, v, default)]
        atom_wf(v) && keys_of_class(boundaries, v) && 0 <= r <= 2 * boundaries.len() && (forall|k: int|
            0 <= k < boundaries.len() ==> #[trigger] atom_sign(key_atom(boundaries[k]), v) == int_sign(2 * k + 1, r))
            ==> regions[r] == chain_body(ops, atoms, bodies, v, default)
}

/// The class of a key's atom matches the class the pair was classified in.
pub open spec fn atom_in_class(a: OrderAtom, c: DispatchClass) -> bool {
    match (c, a) {
        (DispatchClass::Text, OrderAtom::Text(_)) => true,
        (DispatchClass::Rational, OrderAtom::Rational(_, _)) => true,
        (DispatchClass::Date, OrderAtom::Date(_)) => true,
        (DispatchClass::Time, OrderAtom::Time(_)) => true,
        _ => false,
    }
}

proof fn lemma_pair_class_atom(t: LemmaType, v: ValueKind)
    requires
        spec_class_for_pair(t, v) is Some,
        spec_key_of(v) is Some,
    ensures
        atom_in_class(spec_key_of(v)->0, spec_class_for_pair(t, v)->0),
{
}

/// Comparing against either of two equal values gives the same sign.
proof fn lemma_sign_substitute(v: OrderAtom, x: OrderAtom, y: OrderAtom)
    requires
        same_class(v, x),
        same_class(x, y),
        atom_wf(v),
        atom_wf(x),
        atom_wf(y),
        atom_sign(x, y) == 0,
    ensures
        atom_sign(v, x) == atom_sign(v, y),
{
    match (v, x, y) {
        (OrderAtom::Text(a), OrderAtom::Text(b), OrderAtom::Text(c)) => {
            crate::text::lemma_lt_trichotomy(b, c);
        },
        (OrderAtom::Rational(vn, vd), OrderAtom::Rational(xn, xd), OrderAtom::Rational(yn, yd)) => {
            assert((vn * xd - xn * vd) * yd == xd * (vn * yd - yn * vd)) by (nonlinear_arith)
                requires
                    xn * yd == yn * xd,
            ;
            assert((vn * xd < xn * vd) == (vn * yd < yn * vd)) by (nonlinear_arith)
                requires
                    (vn * xd - xn * vd) * yd == xd * (vn * yd - yn * vd),
                    xd > 0,
                    yd > 0,
            ;
            assert((vn * xd == xn * vd) == (vn * yd == yn * vd)) by (nonlinear_arith)
                requires
                    (vn * xd - xn * vd) * yd == xd * (vn * yd - yn * vd),
                    xd > 0,
                    yd > 0,
            ;
        },
        _ => {},
    }
}

proof fn lemma_chain_is_scan<T>(
    arms: Seq<(ComparisonComputation, usize, T)>,
    ops: Seq<ComparisonComputation>,
    atoms: Seq<OrderAtom>,
    bodies: Seq<T>,
    boundaries: Seq<DispatchKey>,
    v: OrderAtom,
    m: int,
)
    requires
        0 <= m <= arms.len(),
        arms.len() == ops.len(),
        ops.len() <= atoms.len(),
        ops.len() <= bodies.len(),
        atom_wf(v),
        forall|a: int|
            0 <= a < arms.len() ==> {
                &&& (#[trigger] arms[a]).0 == ops[a]
                &&& arms[a].2 == bodies[a]
                &&& arms[a].1 < boundaries.len()
                &&& same_class(v, key_atom(boundaries[arms[a].1 as int]))
                &&& same_class(key_atom(boundaries[arms[a].1 as int]), atoms[a])
                &&& atom_wf(atoms[a])
                &&& atom_sign(key_atom(boundaries[arms[a].1 as int]), atoms[a]) == 0
            },
    ensures
        last_match(arms.subrange(0, m), boundaries, v) == last_key_match(ops.subrange(0, m), atoms, v),
    decreases m,
{
    if m > 0 {
        assert(arms.subrange(0, m).drop_last() =~= arms.subrange(0, m - 1));
        assert(ops.subrange(0, m).drop_last() =~= ops.subrange(0, m - 1));
        assert(arms.subrange(0, m).last() == arms[m - 1]);
        assert(ops.subrange(0, m).last() == ops[m - 1]);
        let b = key_atom(boundaries[arms[m - 1].1 as int]);
        lemma_key_atom_wf(boundaries[arms[m - 1].1 as int]);
        lemma_sign_substitute(v, b, atoms[m - 1]);
        lemma_chain_is_scan(arms, ops, atoms, bodies, boundaries, v, m - 1);
    }
}

fn ordered_dispatch_error(message: &str) -> (r: String)
    ensures
        r@ == "ordered dispatch: "@ + message@,
{
    let mut out = String::from_str("ordered dispatch: ");
    out.append(message);
    out
}

fn literal_refs(key_literals: &[LiteralValue]) -> (r: Vec<&LiteralValue>)
    ensures
        r@.map_values(|k: &LiteralValue| *k) == key_literals@,
{
    let n = key_literals.len();
    let mut key_refs: Vec<&LiteralValue> = Vec::new();
    let mut i: usize = 0;
    while i < n
        invariant
            n == key_literals@.len(),
            i <= n,
            key_refs@.map_values(|k: &LiteralValue| *k) == key_literals@.subrange(0, i as int),
        decreases n - i,
    {
        let ghost before = key_refs@;
        key_refs.push(&key_literals[i]);
        proof {
            assert(key_refs@ == before.push(&key_literals@[i as int]));
            assert(key_refs@.map_values(|k: &LiteralValue| *k) =~= before.map_values(|k: &LiteralValue| *k).push(
                key_literals@[i as int],
            ));
            assert(key_literals@.subrange(0, i + 1) =~= key_literals@.subrange(0, i as int).push(key_literals@[i as int]));
        }
        i = i + 1;
    }
    proof {
        assert(key_literals@.subrange(0, n as int) =~= key_literals@);
    }
    key_refs
}

fn any_ordering_operator(operators: &[ComparisonComputation]) -> (b: bool)
    ensures
        b == orders_text(operators@),
{
    let mut k: usize = 0;
    while k < operators.len()
        invariant
            k <= operators@.len(),
            forall|j: int| 0 <= j < k ==> (#[trigger] operators@[j] is Is || operators@[j] is IsNot),
        decreases operators@.len() - k,
    {
        match operators[k] {
            ComparisonComputation::Is => {},
            ComparisonComputation::IsNot => {},
            _ => {
                proof {
                    assert(!(operators@[k as int] is Is || operators@[k as int] is IsNot));
                }
                return true;
            },
        }
        k = k + 1;
    }
    false
}

/// Keys of all literals already classified in one class: their order atoms all lie in
/// that class.
fn dispatch_keys(scrutinee_type: &LemmaType, class: DispatchClass, key_literals: &[LiteralValue]) -> (r: Result<
    Vec<DispatchKey>,
    String,
>)
    requires
        forall|j: int|
            0 <= j < key_literals@.len() ==> spec_class_for_pair(*scrutinee_type, (#[trigger] key_literals@[j]).value)
                == Some(class),
    ensures
        r matches Ok(keys) ==> {
            &&& keys@.len() == key_literals@.len()
            &&& forall|j: int| 0 <= j < keys@.len() ==> spec_key_of((#[trigger] key_literals@[j]).value) == Some(key_atom(keys@[j]))
            &&& keys_one_class(keys@)
        },
        r matches Err(m) ==> exists|i: int|
            0 <= i < key_literals@.len() && spec_key_of((#[trigger] key_literals@[i]).value) is None && exists|c: Seq<char>|
                calendar_failure_message(c) && m@ == "ordered dispatch: "@ + c,
{
    let n = key_literals.len();
    let mut keys: Vec<DispatchKey> = Vec::new();
    let mut i: usize = 0;
    while i < n
        invariant
            n == key_literals@.len(),
            i <= n,
            keys@.len() == i,
            forall|j: int|
                0 <= j < key_literals@.len() ==> spec_class_for_pair(*scrutinee_type, (#[trigger] key_literals@[j]).value)
                    == Some(class),
            forall|j: int| 0 <= j < i ==> spec_key_of((#[trigger] key_literals@[j]).value) == Some(key_atom(keys@[j])),
            forall|j: int| 0 <= j < i ==> atom_in_class(key_atom(#[trigger] keys@[j]), class),
        decreases n - i,
    {
        proof {
            assert(spec_class_for_pair(*scrutinee_type, key_literals@[i as int].value) == Some(class));
        }
        match dispatch_key_of_literal(&key_literals[i].value) {
            Ok(key) => {
                proof {
                    lemma_pair_class_atom(*scrutinee_type, key_literals@[i as int].value);
                }
                keys.push(key);
            },
            Err(DispatchKeyBuildError::CalendarFailure(message)) => {
                let m = ordered_dispatch_error(message.as_str());
                proof {
                    assert(spec_key_of(key_literals@[i as int].value) is None);
                    assert(calendar_failure_message(message@) && m@ == "ordered dispatch: "@ + message@);
                }
                return Err(m);
            },
            Err(DispatchKeyBuildError::Unsupported) => {
                vstd::pervasive::unreached()
            },
        }
        i = i + 1;
    }
    proof {
        assert forall|a: int, b: int| 0 <= a < keys@.len() && 0 <= b < keys@.len() implies same_class(
            key_atom(#[trigger] keys@[a]),
            key_atom(#[trigger] keys@[b]),
        ) by {
            assert(atom_in_class(key_atom(keys@[a]), class));
            assert(atom_in_class(key_atom(keys@[b]), class));
        }
    }
    Ok(keys)
}

fn duplicate_keys(keys: &Vec<DispatchKey>) -> (r: Vec<DispatchKey>)
    ensures
        r@ == keys@,
{
    let n = keys.len();
    let mut copy: Vec<DispatchKey> = Vec::new();
    let mut i: usize = 0;
    while i < n
        invariant
            n == keys@.len(),
            i <= n,
            copy@ == keys@.subrange(0, i as int),
        decreases n - i,
    {
        let k = keys[i].duplicate();
        copy.push(k);
        proof {
            assert(copy@ =~= keys@.subrange(0, i + 1));
        }
        i = i + 1;
    }
    proof {
        assert(keys@.subrange(0, n as int) =~= keys@);
    }
    copy
}

/// Every pair of keys compares within machine range.
pub open spec fn keys_comparable(keys: Seq<DispatchKey>) -> bool {
    forall|a: int, b: int|
        0 <= a < keys.len() && 0 <= b < keys.len() ==> comparable(key_atom(#[trigger] keys[a]), key_atom(#[trigger] keys[b]))
}

/// The arms of a table: each operator and body with the index of the breakpoint equal
/// to its key.
fn place_arms<T: Copy>(
    operators: &[ComparisonComputation],
    keys: &Vec<DispatchKey>,
    boundaries: &Vec<DispatchKey>,
    bodies: &[T],
) -> (r: Result<Vec<(ComparisonComputation, usize, T)>, String>)
    requires
        operators@.len() == keys@.len(),
        bodies@.len() == keys@.len(),
        boundaries@.len() <= keys@.len(),
        2 * keys@.len() + 2 <= usize::MAX,
        keys_strictly_sorted(boundaries@),
        keys_one_class(keys@),
        forall|j: int| 0 <= j < keys@.len() ==> equal_value_in(boundaries@, #[trigger] keys@[j]),
        forall|j: int| 0 <= j < boundaries@.len() ==> drawn_from(keys@, keys@.len() as int, #[trigger] boundaries@[j]),
    ensures
        keys_comparable(keys@) ==> r is Ok,
        r matches Err(m) ==> m@ == "ordered dispatch: "@ + spec_failure_message(crate::rational::NumericFailure::Overflow),
        r matches Ok(arms) ==> {
            &&& arms@.len() == keys@.len()
            &&& forall|a: int|
                0 <= a < arms@.len() ==> {
                    &&& (#[trigger] arms@[a]).0 == operators@[a]
                    &&& arms@[a].2 == bodies@[a]
                    &&& arms@[a].1 < boundaries@.len()
                    &&& atom_sign(key_atom(boundaries@[arms@[a].1 as int]), key_atom(keys@[a])) == 0
                }
        },
{
    let n = keys.len();
    let ghost bs = boundaries@;
    let mut arms: Vec<(ComparisonComputation, usize, T)> = Vec::new();
    let mut i: usize = 0;
    while i < n
        invariant
            n == keys@.len(),
            n == operators@.len(),
            n == bodies@.len(),
            bs == boundaries@,
            bs.len() <= n,
            2 * n + 2 <= usize::MAX,
            i <= n,
            keys_strictly_sorted(bs),
            keys_one_class(keys@),
            forall|j: int| 0 <= j < n ==> equal_value_in(bs, #[trigger] keys@[j]),
            forall|j: int| 0 <= j < bs.len() ==> drawn_from(keys@, n as int, #[trigger] bs[j]),
            arms@.len() == i,
            forall|a: int|
                0 <= a < i ==> {
                    &&& (#[trigger] arms@[a]).0 == operators@[a]
                    &&& arms@[a].2 == bodies@[a]
                    &&& arms@[a].1 < bs.len()
                    &&& atom_sign(key_atom(bs[arms@[a].1 as int]), key_atom(keys@[a])) == 0
                },
        decreases n - i,
    {
        let probe = keys[i].as_probe();
        let ghost v = key_atom(keys@[i as int]);
        proof {
            assert forall|k: int| 0 <= k < bs.len() implies same_class(key_atom(#[trigger] bs[k]), probe_atom(probe)) by {
                assert(drawn_from(keys@, n as int, bs[k]));
                let t = choose|t: int| 0 <= t < n && #[trigger] keys@[t] == bs[k];
                assert(same_class(key_atom(keys@[t]), key_atom(keys@[i as int])));
            }
        }
        let region = match region_for_value(boundaries.as_slice(), &probe) {
            Ok(rg) => rg,
            Err(failure) => {
                proof {
                    if keys_comparable(keys@) {
                        assert forall|k: int| 0 <= k < bs.len() implies comparable(key_atom(#[trigger] bs[k]), probe_atom(probe)) by {
                            assert(drawn_from(keys@, n as int, bs[k]));
                            let t = choose|t: int| 0 <= t < n && #[trigger] keys@[t] == bs[k];
                            assert(comparable(key_atom(keys@[t]), key_atom(keys@[i as int])));
                        }
                    }
                }
                return Err(ordered_dispatch_error(failure.message()));
            },
        };
        proof {
            assert(equal_value_in(bs, keys@[i as int]));
        }
        let ghost j = choose|j: int| 0 <= j < bs.len() && atom_sign(key_atom(keys@[i as int]), key_atom(#[trigger] bs[j])) == 0;
        proof {
            assert(atom_sign(key_atom(bs[j]), v) == int_sign(2 * j + 1, region as int));
            assert(drawn_from(keys@, n as int, bs[j]));
            let t = choose|t: int| 0 <= t < n && #[trigger] keys@[t] == bs[j];
            assert(same_class(key_atom(keys@[t]), v));
            lemma_sign_antisymmetric(v, key_atom(bs[j]));
            assert(region as int == 2 * j + 1);
        }
        let index = (region - 1) / 2;
        arms.push((operators[i], index, bodies[i]));
        proof {
            assert(index as int == j);
            lemma_sign_antisymmetric(v, key_atom(bs[j]));
            assert(arms@[i as int].1 == index);
        }
        i = i + 1;
    }
    Ok(arms)
}

proof fn lemma_last_match_range<T>(arms: Seq<(ComparisonComputation, usize, T)>, bs: Seq<DispatchKey>, v: OrderAtom)
    ensures
        -1 <= last_match(arms, bs, v) < arms.len(),
    decreases arms.len(),
{
    if arms.len() > 0 {
        lemma_last_match_range(arms.drop_last(), bs, v);
    }
}

proof fn lemma_table_agrees<T>(
    arms: Seq<(ComparisonComputation, usize, T)>,
    keys: Seq<DispatchKey>,
    bs: Seq<DispatchKey>,
    regions: Seq<T>,
    ops: Seq<ComparisonComputation>,
    atoms: Seq<OrderAtom>,
    bodies: Seq<T>,
    default: T,
)
    requires
        arms.len() == keys.len(),
        ops.len() == keys.len(),
        bodies.len() == keys.len(),
        atoms.len() == keys.len(),
        forall|a: int| 0 <= a < keys.len() ==> #[trigger] atoms[a] == key_atom(keys[a]),
        forall|j: int| 0 <= j < bs.len() ==> drawn_from(keys, keys.len() as int, #[trigger] bs[j]),
        keys_one_class(keys),
        regions.len() == 2 * bs.len() + 1,
        forall|r: int| 0 <= r < regions.len() ==> #[trigger] regions[r] == last_wins(arms, bs.len() as int, default, r),
        forall|a: int|
            0 <= a < arms.len() ==> {
                &&& (#[trigger] arms[a]).0 == ops[a]
                &&& arms[a].2 == bodies[a]
                &&& arms[a].1 < bs.len()
                &&& atom_sign(key_atom(bs[arms[a].1 as int]), key_atom(keys[a])) == 0
            },
    ensures
        table_agrees(bs, regions, ops, atoms, bodies, default),
{
    assert forall|v: OrderAtom, r: int|
        #![trigger regions[r], chain_body(ops, atoms, bodies, v, default)]
        atom_wf(v) && keys_of_class(bs, v) && 0 <= r <= 2 * bs.len() && (forall|k: int|
            0 <= k < bs.len() ==> #[trigger] atom_sign(key_atom(bs[k]), v) == int_sign(2 * k + 1, r))
            implies regions[r] == chain_body(ops, atoms, bodies, v, default) by {
        assert forall|a: int| 0 <= a < arms.len() implies (#[trigger] arms[a]).1 < bs.len() by {}
        lemma_table_lookup_is_last_match(arms, bs, v, default, r);
        assert forall|a: int| 0 <= a < arms.len() implies {
            &&& (#[trigger] arms[a]).0 == ops[a]
            &&& arms[a].2 == bodies[a]
            &&& arms[a].1 < bs.len()
            &&& same_class(v, key_atom(bs[arms[a].1 as int]))
            &&& same_class(key_atom(bs[arms[a].1 as int]), atoms[a])
            &&& atom_wf(atoms[a])
            &&& atom_sign(key_atom(bs[arms[a].1 as int]), atoms[a]) == 0
        } by {
            let k = arms[a].1 as int;
            assert(same_class(key_atom(bs[k]), v));
            assert(drawn_from(keys, keys.len() as int, bs[k]));
            let t = choose|t: int| 0 <= t < keys.len() && #[trigger] keys[t] == bs[k];
            assert(same_class(key_atom(keys[t]), key_atom(keys[a])));
            lemma_key_atom_wf(keys[a]);
        }
        lemma_chain_is_scan(arms, ops, atoms, bodies, bs, v, arms.len() as int);
        assert(arms.subrange(0, arms.len() as int) =~= arms);
        assert(ops.subrange(0, ops.len() as int) =~= ops);
        let j = last_match(arms, bs, v);
        assert(j == last_key_match(ops, atoms, v));
        crate::ordered_dispatch::lemma_last_claim(arms, bs.len() as int, r);
        lemma_last_match_range(arms, bs, v);
        assert(regions[r] == last_wins(arms, bs.len() as int, default, r));
        assert(last_wins(arms, bs.len() as int, default, r) == scan_body(arms, bs, v, default));
        if j >= 0 {
            assert(arms[j].2 == bodies[j]);
        }
    }
}

/// Build the table of an `unless` chain `operators[i] keys[i] → bodies[i]` over one
/// scrutinee: `None` when the chain does not dispatch (keys of mixed or unsupported
/// classes, or text compared by order). Otherwise the strictly sorted distinct
/// breakpoints and the body of each of their `2n + 1` regions, which for every value
/// equals the body the chain itself selects. A date or time key outside the calendar
/// fails with its message; a rational comparison outside the machine range fails
/// with `numeric overflow`.
pub fn build_ordered_dispatch<T: Copy>(
    scrutinee_type: &LemmaType,
    operators: &[ComparisonComputation],
    key_literals: &[LiteralValue],
    default_body: T,
    bodies: &[T],
) -> (r: Result<Option<(Vec<DispatchKey>, Vec<T>)>, String>)
    requires
        operators@.len() == key_literals@.len(),
        operators@.len() == bodies@.len(),
        2 * key_literals@.len() + 2 <= usize::MAX,
    ensures
        !dispatchable(*scrutinee_type, key_literals@, operators@) <==> r == Ok::<
            Option<(Vec<DispatchKey>, Vec<T>)>,
            String,
        >(None),
        dispatchable(*scrutinee_type, key_literals@, operators@) && literals_keyed(key_literals@) && literals_comparable(
            key_literals@,
        ) ==> r is Ok,
        r matches Err(m) ==> (exists|i: int|
            0 <= i < key_literals@.len() && spec_key_of((#[trigger] key_literals@[i]).value) is None && exists|c: Seq<char>|
                calendar_failure_message(c) && m@ == "ordered dispatch: "@ + c) || m@ == "ordered dispatch: "@
            + spec_failure_message(crate::rational::NumericFailure::Overflow),
        r matches Ok(Some(table)) ==> {
            &&& literals_keyed(key_literals@)
            &&& keys_strictly_sorted(table.0@)
            &&& table.1@.len() == 2 * table.0@.len() + 1
            &&& table_agrees(table.0@, table.1@, operators@, literal_atoms(key_literals@), bodies@, default_body)
        },
{
    let key_refs = literal_refs(key_literals);
    let class = match classify_dispatch(scrutinee_type, key_refs.as_slice()) {
        Some(c) => c,
        None => {
            return Ok(None);
        },
    };
    if class == DispatchClass::Text && any_ordering_operator(operators) {
        return Ok(None);
    }
    proof {
        assert(spec_classify(*scrutinee_type, key_literals@) == Some(class));
        assert forall|j: int| 0 <= j < key_literals@.len() implies spec_class_for_pair(
            *scrutinee_type,
            (#[trigger] key_literals@[j]).value,
        ) == Some(class) by {}
    }
    let keys = match dispatch_keys(scrutinee_type, class, key_literals) {
        Ok(k) => k,
        Err(m) => {
            return Err(m);
        },
    };
    let ghost atoms = literal_atoms(key_literals@);
    proof {
        assert forall|a: int| 0 <= a < keys@.len() implies #[trigger] atoms[a] == key_atom(keys@[a]) by {
            assert(spec_key_of(key_literals@[a].value) == Some(key_atom(keys@[a])));
        }
        if literals_comparable(key_literals@) {
            assert forall|a: int, b: int| 0 <= a < keys@.len() && 0 <= b < keys@.len() implies comparable(
                key_atom(#[trigger] keys@[a]),
                key_atom(#[trigger] keys@[b]),
            ) by {
                assert(spec_key_of(key_literals@[a].value) == Some(key_atom(keys@[a])));
                assert(spec_key_of(key_literals@[b].value) == Some(key_atom(keys@[b])));
            }
        }
    }
    let boundaries = match sorted_unique_boundaries(duplicate_keys(&keys)) {
        Ok(b) => b,
        Err(failure) => {
            return Err(ordered_dispatch_error(failure.message()));
        },
    };
    let arms = match place_arms(operators, &keys, &boundaries, bodies) {
        Ok(a) => a,
        Err(m) => {
            return Err(m);
        },
    };
    let regions = paint_dispatch_regions(boundaries.len(), default_body, arms.as_slice());
    proof {
        lemma_table_agrees(arms@, keys@, boundaries@, regions@, operators@, atoms, bodies@, default_body);
    }
    Ok(Some((boundaries, regions)))
}

/// Every key literal has an order atom (no date or time outside the calendar).
pub open spec fn literals_keyed(keys: Seq<LiteralValue>) -> bool {
    forall|i: int| 0 <= i < keys.len() ==> spec_key_of((#[trigger] keys[i]).value) is Some
}

/// Every pair of key literals compares within machine range.
pub open spec fn literals_comparable(keys: Seq<LiteralValue>) -> bool {
    forall|i: int, j: int|
        0 <= i < keys.len() && 0 <= j < keys.len() ==> comparable(
            spec_key_of((#[trigger] keys[i]).value)->0,
            spec_key_of((#[trigger] keys[j]).value)->0,
        )
}

} // verus!
