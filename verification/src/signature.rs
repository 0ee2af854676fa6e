//! Unit signatures: `(unit name, exponent)` lists, their canonical form and algebra.
//!
//! A signature is canonical when it is sorted strictly ascending by unit name and
//! holds no zero exponent. Canonicalization sums the exponents of each name.

use vstd::prelude::*;
use vstd::string::StringExecFns;
use crate::text::{decimal_text, push_decimal, seq_lt, compare_text, lemma_lt_irreflexive, lemma_lt_trichotomy, lemma_lt_transitive};

verus! {

/// Mathematical form of a signature: names as character sequences, exponents as integers.
pub type SigView = Seq<(Seq<char>, int)>;

pub open spec fn entry_view(p: (String, i32)) -> (Seq<char>, int) {
    (p.0@, p.1 as int)
}

pub open spec fn sig_view(s: Seq<(String, i32)>) -> SigView {
    s.map_values(|p: (String, i32)| entry_view(p))
}

/// Sum of the exponents written for `name`.
pub open spec fn total(s: SigView, name: Seq<char>) -> int
    decreases s.len(),
{
    if s.len() == 0 {
        0
    } else {
        total(s.drop_last(), name) + (if s.last().0 == name {
            s.last().1
        } else {
            0
        })
    }
}

pub open spec fn strictly_sorted(s: SigView) -> bool {
    forall|i: int, j: int| 0 <= i < j < s.len() ==> seq_lt(#[trigger] s[i].0, #[trigger] s[j].0)
}

pub open spec fn has_name(s: SigView, name: Seq<char>) -> bool {
    exists|i: int| 0 <= i < s.len() && s[i].0 == name
}

pub open spec fn no_zero(s: SigView) -> bool {
    forall|i: int| 0 <= i < s.len() ==> #[trigger] s[i].1 != 0
}

/// `out` is the canonical form of `input`: sorted by name, no zero exponent, and each
/// name carries the sum of the exponents `input` writes for it.
pub open spec fn is_canonical_form(out: SigView, input: SigView) -> bool {
    &&& strictly_sorted(out)
    &&& no_zero(out)
    &&& forall|name: Seq<char>| #[trigger] total(out, name) == total(input, name)
}

/// Exponents multiplied by `factor` (1 or -1).
pub open spec fn scaled(s: SigView, factor: int) -> SigView {
    s.map_values(|p: (Seq<char>, int)| (p.0, factor * p.1))
}

// ---------------------------------------------------------------------------
// Lemmas about sums over signatures
// ---------------------------------------------------------------------------

pub proof fn lemma_total_append(a: SigView, b: SigView, name: Seq<char>)
    ensures
        total(a + b, name) == total(a, name) + total(b, name),
    decreases b.len(),
{
    if b.len() == 0 {
        assert(a + b =~= a);
    } else {
        lemma_total_append(a, b.drop_last(), name);
        assert((a + b).drop_last() =~= a + b.drop_last());
        assert((a + b).last() == b.last());
    }
}

pub proof fn lemma_total_single(e: (Seq<char>, int), name: Seq<char>)
    ensures
        total(seq![e], name) == (if e.0 == name {
            e.1
        } else {
            0
        }),
{
    reveal_with_fuel(total, 2);
    assert(seq![e].drop_last() =~= Seq::<(Seq<char>, int)>::empty());
    assert(seq![e].last() == e);
}

pub proof fn lemma_total_absent(s: SigView, name: Seq<char>)
    requires
        !has_name(s, name),
    ensures
        total(s, name) == 0,
    decreases s.len(),
{
    if s.len() > 0 {
        assert(!has_name(s.drop_last(), name)) by {
            if has_name(s.drop_last(), name) {
                let i = choose|i: int| 0 <= i < s.drop_last().len() && s.drop_last()[i].0 == name;
                assert(s[i].0 == name);
            }
        }
        lemma_total_absent(s.drop_last(), name);
        assert(s.last() == s[s.len() - 1]);
    }
}

/// In a strictly sorted signature, the sum for a present name is its one entry.
pub proof fn lemma_total_sorted_entry(s: SigView, i: int)
    requires
        strictly_sorted(s),
        0 <= i < s.len(),
    ensures
        total(s, s[i].0) == s[i].1,
{
    let name = s[i].0;
    let a = s.subrange(0, i);
    let b = s.subrange(i + 1, s.len() as int);
    assert(s =~= a + seq![s[i]] + b);
    assert(!has_name(a, name)) by {
        if has_name(a, name) {
            let k = choose|k: int| 0 <= k < a.len() && a[k].0 == name;
            assert(seq_lt(s[k].0, s[i].0));
            lemma_lt_irreflexive(name);
        }
    }
    assert(!has_name(b, name)) by {
        if has_name(b, name) {
            let k = choose|k: int| 0 <= k < b.len() && b[k].0 == name;
            assert(seq_lt(s[i].0, s[i + 1 + k].0));
            lemma_lt_irreflexive(name);
        }
    }
    lemma_total_absent(a, name);
    lemma_total_absent(b, name);
    lemma_total_append(a + seq![s[i]], b, name);
    lemma_total_append(a, seq![s[i]], name);
    lemma_total_single(s[i], name);
}

/// A sorted signature without zero exponents holds exactly the names whose sum is nonzero.
pub proof fn lemma_has_name_iff_nonzero(s: SigView, name: Seq<char>)
    requires
        strictly_sorted(s),
        no_zero(s),
    ensures
        has_name(s, name) <==> total(s, name) != 0,
{
    if has_name(s, name) {
        let i = choose|i: int| 0 <= i < s.len() && s[i].0 == name;
        lemma_total_sorted_entry(s, i);
    } else {
        lemma_total_absent(s, name);
    }
}

pub proof fn lemma_prefix_step(s: SigView, k: int)
    requires
        0 <= k < s.len(),
    ensures
        s.subrange(0, k + 1).drop_last() =~= s.subrange(0, k),
        s.subrange(0, k + 1).last() == s[k],
{
}

// ---------------------------------------------------------------------------
// The sorted-entry update shared by canonicalization and decomposition algebra
// ---------------------------------------------------------------------------

/// What adding `delta` for `name` does to a sorted signature `s`, giving `t`.
pub open spec fn added(s: SigView, t: SigView, name: Seq<char>, delta: int) -> bool {
    &&& strictly_sorted(t)
    &&& forall|n: Seq<char>| #[trigger]
        total(t, n) == total(s, n) + (if n == name {
            delta
        } else {
            0
        })
    &&& forall|n: Seq<char>| #[trigger]
        has_name(t, n) <==> (if n == name {
            total(s, n) + delta != 0
        } else {
            has_name(s, n)
        })
    &&& no_zero(s) ==> no_zero(t)
}

/// Facts about the split point `j` found by scanning a sorted signature for `name`.
pub open spec fn split_at_name(s: SigView, j: int, name: Seq<char>) -> bool {
    &&& 0 <= j <= s.len()
    &&& forall|i: int| 0 <= i < j ==> seq_lt(#[trigger] s[i].0, name)
    &&& j < s.len() ==> !seq_lt(s[j].0, name)
}

proof fn lemma_split_after(s: SigView, j: int, name: Seq<char>, i: int)
    requires
        strictly_sorted(s),
        split_at_name(s, j, name),
        j < s.len(),
        s[j].0 != name,
        j <= i < s.len(),
    ensures
        seq_lt(name, s[i].0),
{
    lemma_lt_trichotomy(s[j].0, name);
    if i > j {
        lemma_lt_transitive(name, s[j].0, s[i].0);
    }
}

proof fn lemma_add_existing_remove(s: SigView, t: SigView, j: int, name: Seq<char>, delta: int)
    requires
        strictly_sorted(s),
        0 <= j < s.len(),
        s[j].0 == name,
        s[j].1 + delta == 0,
        t == s.subrange(0, j) + s.subrange(j + 1, s.len() as int),
    ensures
        added(s, t, name, delta),
{
    let a = s.subrange(0, j);
    let c = s.subrange(j + 1, s.len() as int);
    let e = s[j];
    assert(s =~= a + seq![e] + c);
    lemma_total_sorted_entry(s, j);
    assert forall|n: Seq<char>| #[trigger]
        total(t, n) == total(s, n) + (if n == name {
            delta
        } else {
            0
        }) by {
        lemma_total_append(a, c, n);
        lemma_total_append(a + seq![e], c, n);
        lemma_total_append(a, seq![e], n);
        lemma_total_single(e, n);
    }
    assert forall|p: int, q: int| 0 <= p < q < t.len() implies seq_lt(
        #[trigger] t[p].0,
        #[trigger] t[q].0,
    ) by {
        let p2 = if p < j {
            p
        } else {
            p + 1
        };
        let q2 = if q < j {
            q
        } else {
            q + 1
        };
        assert(t[p] == s[p2]);
        assert(t[q] == s[q2]);
    }
    assert forall|n: Seq<char>| #[trigger]
        has_name(t, n) <==> (if n == name {
            total(s, n) + delta != 0
        } else {
            has_name(s, n)
        }) by {
        if has_name(t, n) {
            let i = choose|i: int| 0 <= i < t.len() && t[i].0 == n;
            if i < j {
                assert(t[i] == s[i]);
                if n == name {
                    assert(seq_lt(s[i].0, s[j].0));
                    lemma_lt_irreflexive(name);
                }
            } else {
                assert(t[i] == s[i + 1]);
                if n == name {
                    assert(seq_lt(s[j].0, s[i + 1].0));
                    lemma_lt_irreflexive(name);
                }
            }
        }
        if n != name && has_name(s, n) {
            let i = choose|i: int| 0 <= i < s.len() && s[i].0 == n;
            if i < j {
                assert(t[i] == s[i]);
            } else if i > j {
                assert(t[i - 1] == s[i]);
            }
        }
    }
    assert(no_zero(s) ==> no_zero(t)) by {
        if no_zero(s) {
            assert forall|i: int| 0 <= i < t.len() implies #[trigger] t[i].1 != 0 by {
                if i < j {
                    assert(t[i] == s[i]);
                } else {
                    assert(t[i] == s[i + 1]);
                }
            }
        }
    }
}

proof fn lemma_add_existing_update(s: SigView, t: SigView, j: int, name: Seq<char>, delta: int)
    requires
        strictly_sorted(s),
        0 <= j < s.len(),
        s[j].0 == name,
        s[j].1 + delta != 0,
        t == s.update(j, (name, s[j].1 + delta)),
    ensures
        added(s, t, name, delta),
{
    let a = s.subrange(0, j);
    let c = s.subrange(j + 1, s.len() as int);
    let e = s[j];
    let e2 = (name, s[j].1 + delta);
    assert(s =~= a + seq![e] + c);
    assert(t =~= a + seq![e2] + c);
    lemma_total_sorted_entry(s, j);
    assert forall|n: Seq<char>| #[trigger]
        total(t, n) == total(s, n) + (if n == name {
            delta
        } else {
            0
        }) by {
        lemma_total_append(a + seq![e2], c, n);
        lemma_total_append(a, seq![e2], n);
        lemma_total_single(e2, n);
        lemma_total_append(a + seq![e], c, n);
        lemma_total_append(a, seq![e], n);
        lemma_total_single(e, n);
    }
    assert forall|p: int, q: int| 0 <= p < q < t.len() implies seq_lt(
        #[trigger] t[p].0,
        #[trigger] t[q].0,
    ) by {
        assert(t[p].0 == s[p].0);
        assert(t[q].0 == s[q].0);
    }
    assert forall|n: Seq<char>| #[trigger]
        has_name(t, n) <==> (if n == name {
            total(s, n) + delta != 0
        } else {
            has_name(s, n)
        }) by {
        assert(t[j].0 == name);
        if has_name(s, n) {
            let i = choose|i: int| 0 <= i < s.len() && s[i].0 == n;
            assert(t[i].0 == s[i].0);
        }
        if has_name(t, n) {
            let i = choose|i: int| 0 <= i < t.len() && t[i].0 == n;
            assert(t[i].0 == s[i].0);
        }
    }
}

proof fn lemma_add_absent_insert(s: SigView, t: SigView, j: int, name: Seq<char>, delta: int)
    requires
        strictly_sorted(s),
        split_at_name(s, j, name),
        j < s.len() ==> s[j].0 != name,
        delta != 0,
        t == s.insert(j, (name, delta)),
    ensures
        added(s, t, name, delta),
        !has_name(s, name),
{
    let a = s.subrange(0, j);
    let b = s.subrange(j, s.len() as int);
    let e = (name, delta);
    assert(s =~= a + b);
    assert(t =~= a + seq![e] + b);
    assert(!has_name(s, name)) by {
        if has_name(s, name) {
            let i = choose|i: int| 0 <= i < s.len() && s[i].0 == name;
            if i >= j {
                lemma_split_after(s, j, name, i);
            }
            lemma_lt_irreflexive(name);
        }
    }
    lemma_total_absent(s, name);
    assert forall|n: Seq<char>| #[trigger]
        total(t, n) == total(s, n) + (if n == name {
            delta
        } else {
            0
        }) by {
        lemma_total_append(a + seq![e], b, n);
        lemma_total_append(a, seq![e], n);
        lemma_total_single(e, n);
        lemma_total_append(a, b, n);
    }
    assert forall|n: Seq<char>| #[trigger]
        has_name(t, n) <==> (if n == name {
            total(s, n) + delta != 0
        } else {
            has_name(s, n)
        }) by {
        assert(t[j].0 == name);
        if has_name(s, n) {
            let i = choose|i: int| 0 <= i < s.len() && s[i].0 == n;
            if i < j {
                assert(t[i] == s[i]);
            } else {
                assert(t[i + 1] == s[i]);
            }
        }
        if has_name(t, n) && n != name {
            let i = choose|i: int| 0 <= i < t.len() && t[i].0 == n;
            if i < j {
                assert(t[i] == s[i]);
            } else if i > j {
                assert(t[i] == s[i - 1]);
            }
        }
    }
    assert forall|p: int, q: int| 0 <= p < q < t.len() implies seq_lt(
        #[trigger] t[p].0,
        #[trigger] t[q].0,
    ) by {
        if q < j {
            assert(t[p] == s[p] && t[q] == s[q]);
        } else if q == j {
            assert(t[p] == s[p]);
        } else if p == j {
            assert(t[q] == s[q - 1]);
            lemma_split_after(s, j, name, q - 1);
        } else if p < j {
            assert(t[p] == s[p] && t[q] == s[q - 1]);
            lemma_split_after(s, j, name, q - 1);
            lemma_lt_transitive(s[p].0, name, s[q - 1].0);
        } else {
            assert(t[p] == s[p - 1] && t[q] == s[q - 1]);
        }
    }
    assert(no_zero(s) ==> no_zero(t)) by {
        if no_zero(s) {
            assert forall|i: int| 0 <= i < t.len() implies #[trigger] t[i].1 != 0 by {
                if i < j {
                    assert(t[i] == s[i]);
                } else if i > j {
                    assert(t[i] == s[i - 1]);
                }
            }
        }
    }
}

/// Add `delta` to the entry for `name` in a strictly sorted signature, inserting it
/// when absent and removing it when the sum reaches zero.
pub(crate) fn add_entry(v: &mut Vec<(String, i32)>, name: &String, delta: i32)
    requires
        strictly_sorted(sig_view(old(v)@)),
        i32::MIN <= total(sig_view(old(v)@), name@) + delta <= i32::MAX,
    ensures
        added(sig_view(old(v)@), sig_view(final(v)@), name@, delta as int),
{
    let ghost s = sig_view(v@);
    let len = v.len();
    let mut j: usize = 0;
    while j < len && compare_text(v[j].0.as_str(), name.as_str()) == -1
        invariant
            len == v@.len(),
            s == sig_view(v@),
            j <= len,
            forall|i: int| 0 <= i < j ==> seq_lt(#[trigger] s[i].0, name@),
        decreases len - j,
    {
        j = j + 1;
    }
    let found = j < len && compare_text(v[j].0.as_str(), name.as_str()) == 0;
    proof {
        assert(split_at_name(s, j as int, name@));
    }
    if found {
        proof {
            lemma_total_sorted_entry(s, j as int);
        }
        let cur = v[j].1;
        let new_value = cur + delta;
        if new_value == 0 {
            v.remove(j);
            proof {
                assert(sig_view(v@) =~= s.subrange(0, j as int) + s.subrange(j + 1, s.len() as int));
                lemma_add_existing_remove(s, sig_view(v@), j as int, name@, delta as int);
            }
        } else {
            let entry_name = v[j].0.clone();
            v.set(j, (entry_name, new_value));
            proof {
                assert(sig_view(v@) =~= s.update(j as int, (name@, s[j as int].1 + delta)));
                lemma_add_existing_update(s, sig_view(v@), j as int, name@, delta as int);
            }
        }
    } else if delta != 0 {
        let owned = name.clone();
        v.insert(j, (owned, delta));
        proof {
            assert(sig_view(v@) =~= s.insert(j as int, (name@, delta as int)));
            lemma_add_absent_insert(s, sig_view(v@), j as int, name@, delta as int);
        }
    } else {
        proof {
            assert(!has_name(s, name@)) by {
                if has_name(s, name@) {
                    let i = choose|i: int| 0 <= i < s.len() && s[i].0 == name@;
                    if i >= j {
                        lemma_split_after(s, j as int, name@, i);
                    }
                    lemma_lt_irreflexive(name@);
                }
            }
            lemma_total_absent(s, name@);
        }
    }
}


// ---------------------------------------------------------------------------
// Canonicalization and the signature algebra
// ---------------------------------------------------------------------------

pub proof fn lemma_sig_view_push(s: Seq<(String, i32)>, x: (String, i32))
    ensures
        sig_view(s.push(x)) =~= sig_view(s).push(entry_view(x)),
{
    assert forall|i: int| 0 <= i < s.len() + 1 implies #[trigger] sig_view(s.push(x))[i] == sig_view(s).push(entry_view(x))[i] by {
        if i < s.len() {
            assert(s.push(x)[i] == s[i]);
        }
    }
}

proof fn lemma_scaled_push(s: SigView, x: (Seq<char>, int), f: int)
    ensures
        scaled(s.push(x), f) =~= scaled(s, f).push((x.0, f * x.1)),
{
}

/// Every running per-name sum over `s`, taken in order, fits in an `i32`.
pub open spec fn partial_sums_fit(s: SigView) -> bool {
    forall|k: int, name: Seq<char>|
        0 <= k <= s.len() ==> i32::MIN <= #[trigger] total(s.subrange(0, k), name) <= i32::MAX
}

/// Canonicalize a unit signature: sum duplicate entries by name, drop zero exponents,
/// sort ascending by unit name.
pub fn canonicalize_signature(signature: &[(String, i32)]) -> (result: Vec<(String, i32)>)
    requires
        partial_sums_fit(sig_view(signature@)),
    ensures
        is_canonical_form(sig_view(result@), sig_view(signature@)),
{
    let ghost input = sig_view(signature@);
    let mut acc: Vec<(String, i32)> = Vec::new();
    let n = signature.len();
    let mut k: usize = 0;
    proof {
        assert(sig_view(acc@) =~= Seq::<(Seq<char>, int)>::empty());
        assert(input.subrange(0, 0) =~= Seq::<(Seq<char>, int)>::empty());
    }
    while k < n
        invariant
            n == signature@.len(),
            input == sig_view(signature@),
            partial_sums_fit(input),
            k <= n,
            strictly_sorted(sig_view(acc@)),
            no_zero(sig_view(acc@)),
            forall|name: Seq<char>| #[trigger]
                total(sig_view(acc@), name) == total(input.subrange(0, k as int), name),
        decreases n - k,
    {
        let name = &signature[k].0;
        let delta = signature[k].1;
        proof {
            lemma_prefix_step(input, k as int);
            assert(input[k as int] == (name@, delta as int));
            let _ = total(input.subrange(0, k + 1), name@);
            assert(total(input.subrange(0, k + 1), name@) == total(input.subrange(0, k as int), name@)
                + delta);
        }
        let ghost before = sig_view(acc@);
        add_entry(&mut acc, name, delta);
        proof {
            assert forall|m: Seq<char>| #[trigger]
                total(sig_view(acc@), m) == total(input.subrange(0, k + 1), m) by {
                lemma_prefix_step(input, k as int);
                assert(total(sig_view(acc@), m) == total(before, m) + (if m == name@ {
                    delta as int
                } else {
                    0
                }));
            }
        }
        k = k + 1;
    }
    proof {
        assert(input.subrange(0, n as int) =~= input);
    }
    acc
}

/// Return a copy of `signature` with every exponent negated.
pub fn negate_signature(signature: &[(String, i32)]) -> (result: Vec<(String, i32)>)
    requires
        forall|i: int| 0 <= i < signature@.len() ==> #[trigger] signature@[i].1 != i32::MIN,
    ensures
        sig_view(result@) == scaled(sig_view(signature@), -1),
{
    let mut out: Vec<(String, i32)> = Vec::new();
    let n = signature.len();
    let mut k: usize = 0;
    while k < n
        invariant
            n == signature@.len(),
            k <= n,
            forall|i: int| 0 <= i < signature@.len() ==> #[trigger] signature@[i].1 != i32::MIN,
            sig_view(out@) == scaled(sig_view(signature@.subrange(0, k as int)), -1),
        decreases n - k,
    {
        let name = signature[k].0.clone();
        let e = signature[k].1;
        let ghost before = out@;
        out.push((name, -e));
        proof {
            assert(signature@.subrange(0, k + 1) =~= signature@.subrange(0, k as int).push(
                signature@[k as int],
            ));
            assert(out@ =~= before.push(out@.last()));
            lemma_sig_view_push(before, out@.last());
            lemma_sig_view_push(signature@.subrange(0, k as int), signature@[k as int]);
            lemma_scaled_push(sig_view(signature@.subrange(0, k as int)), entry_view(signature@[k as int]), -1);
            assert(sig_view(out@) =~= scaled(sig_view(signature@.subrange(0, k + 1)), -1));
        }
        k = k + 1;
    }
    proof {
        assert(signature@.subrange(0, n as int) =~= signature@);
    }
    out
}

/// Combine two symbolic unit signatures under multiplication (exponents added) or
/// division (right-hand exponents subtracted). The result is in canonical form.
pub fn combine_signatures(left: &[(String, i32)], right: &[(String, i32)], is_multiply: bool) -> (result: Vec<(String, i32)>)
    requires
        !is_multiply ==> forall|i: int| 0 <= i < right@.len() ==> #[trigger] right@[i].1 != i32::MIN,
        partial_sums_fit(
            sig_view(left@) + scaled(sig_view(right@), if is_multiply { 1 } else { -1 }),
        ),
    ensures
        is_canonical_form(
            sig_view(result@),
            sig_view(left@) + scaled(sig_view(right@), if is_multiply { 1 } else { -1 }),
        ),
{
    let mut all: Vec<(String, i32)> = Vec::new();
    let nl = left.len();
    let mut k: usize = 0;
    while k < nl
        invariant
            nl == left@.len(),
            k <= nl,
            sig_view(all@) == sig_view(left@.subrange(0, k as int)),
        decreases nl - k,
    {
        let name = left[k].0.clone();
        let ghost before = all@;
        all.push((name, left[k].1));
        proof {
            assert(left@.subrange(0, k + 1) =~= left@.subrange(0, k as int).push(left@[k as int]));
            assert(all@ =~= before.push(all@.last()));
            lemma_sig_view_push(before, all@.last());
            lemma_sig_view_push(left@.subrange(0, k as int), left@[k as int]);
            assert(sig_view(all@) =~= sig_view(left@.subrange(0, k + 1)));
        }
        k = k + 1;
    }
    proof {
        assert(left@.subrange(0, nl as int) =~= left@);
    }
    let ghost f: int = if is_multiply { 1 } else { -1 };
    let nr = right.len();
    let mut j: usize = 0;
    while j < nr
        invariant
            nr == right@.len(),
            j <= nr,
            f == (if is_multiply { 1int } else { -1int }),
            !is_multiply ==> forall|i: int| 0 <= i < right@.len() ==> #[trigger] right@[i].1 != i32::MIN,
            sig_view(all@) == sig_view(left@) + scaled(sig_view(right@.subrange(0, j as int)), f),
        decreases nr - j,
    {
        let name = right[j].0.clone();
        let e = right[j].1;
        let delta = if is_multiply { e } else { -e };
        let ghost before = all@;
        all.push((name, delta));
        proof {
            assert(right@.subrange(0, j + 1) =~= right@.subrange(0, j as int).push(right@[j as int]));
            assert(all@ =~= before.push(all@.last()));
            lemma_sig_view_push(before, all@.last());
            lemma_sig_view_push(right@.subrange(0, j as int), right@[j as int]);
            lemma_scaled_push(sig_view(right@.subrange(0, j as int)), entry_view(right@[j as int]), f);
            assert(sig_view(all@) =~= sig_view(left@) + scaled(sig_view(right@.subrange(0, j + 1)), f));
        }
        j = j + 1;
    }
    proof {
        assert(right@.subrange(0, nr as int) =~= right@);
    }
    canonicalize_signature(all.as_slice())
}


// ---------------------------------------------------------------------------
// Laws of the signature algebra
// ---------------------------------------------------------------------------

pub proof fn lemma_total_scaled(s: SigView, f: int, name: Seq<char>)
    requires
        f == 1 || f == -1,
    ensures
        total(scaled(s, f), name) == f * total(s, name),
    decreases s.len(),
{
    if s.len() > 0 {
        assert(scaled(s, f).drop_last() =~= scaled(s.drop_last(), f));
        lemma_total_scaled(s.drop_last(), f, name);
    }
}

proof fn lemma_sorted_drop_last(s: SigView)
    requires
        strictly_sorted(s),
        no_zero(s),
        s.len() > 0,
    ensures
        strictly_sorted(s.drop_last()),
        no_zero(s.drop_last()),
        forall|n: Seq<char>| #[trigger] total(s.drop_last(), n) == total(s, n) - (if n == s.last().0 {
            s.last().1
        } else {
            0
        }),
{
    assert forall|i: int, j: int| 0 <= i < j < s.drop_last().len() implies seq_lt(
        #[trigger] s.drop_last()[i].0,
        #[trigger] s.drop_last()[j].0,
    ) by {
        assert(s.drop_last()[i] == s[i] && s.drop_last()[j] == s[j]);
    }
    assert forall|i: int| 0 <= i < s.drop_last().len() implies #[trigger] s.drop_last()[i].1 != 0 by {
        assert(s.drop_last()[i] == s[i]);
    }
}

/// A canonical signature is determined by its per-name sums: two sorted, zero-free
/// signatures with equal sums for every name are equal.
pub proof fn lemma_canonical_unique(a: SigView, b: SigView)
    requires
        strictly_sorted(a),
        no_zero(a),
        strictly_sorted(b),
        no_zero(b),
        forall|n: Seq<char>| #[trigger] total(a, n) == total(b, n),
    ensures
        a == b,
    decreases a.len(),
{
    if a.len() == 0 || b.len() == 0 {
        if a.len() > 0 {
            assert(has_name(a, a[0].0));
            lemma_has_name_iff_nonzero(a, a[0].0);
            lemma_total_absent(b, a[0].0);
        }
        if b.len() > 0 {
            assert(has_name(b, b[0].0));
            lemma_has_name_iff_nonzero(b, b[0].0);
            lemma_total_absent(a, b[0].0);
        }
        assert(a =~= b);
    } else {
        let la = a.last().0;
        let lb = b.last().0;
        assert(has_name(a, la) && a[a.len() - 1] == a.last());
        assert(has_name(b, lb) && b[b.len() - 1] == b.last());
        lemma_has_name_iff_nonzero(a, la);
        lemma_has_name_iff_nonzero(b, la);
        lemma_has_name_iff_nonzero(a, lb);
        lemma_has_name_iff_nonzero(b, lb);
        let i = choose|i: int| 0 <= i < a.len() && a[i].0 == lb;
        let j = choose|j: int| 0 <= j < b.len() && b[j].0 == la;
        if la != lb {
            if i < a.len() - 1 {
                assert(seq_lt(a[i].0, a[a.len() - 1].0));
            }
            if j < b.len() - 1 {
                assert(seq_lt(b[j].0, b[b.len() - 1].0));
            }
            lemma_lt_trichotomy(la, lb);
        }
        lemma_total_sorted_entry(a, a.len() - 1);
        lemma_total_sorted_entry(b, b.len() - 1);
        lemma_sorted_drop_last(a);
        lemma_sorted_drop_last(b);
        assert forall|n: Seq<char>| #[trigger] total(a.drop_last(), n) == total(b.drop_last(), n) by {
            assert(total(a.drop_last(), n) == total(a, n) - (if n == la { a.last().1 } else { 0 }));
            assert(total(b.drop_last(), n) == total(b, n) - (if n == lb { b.last().1 } else { 0 }));
        }
        lemma_canonical_unique(a.drop_last(), b.drop_last());
        assert(a =~= a.drop_last().push(a.last()));
        assert(b =~= b.drop_last().push(b.last()));
    }
}

/// The canonical form of a signature is unique.
pub proof fn lemma_canonical_form_unique(a: SigView, b: SigView, input: SigView)
    requires
        is_canonical_form(a, input),
        is_canonical_form(b, input),
    ensures
        a == b,
{
    lemma_canonical_unique(a, b);
}

/// Canonicalization is idempotent: the canonical form of a canonical signature is itself.
pub proof fn lemma_canonicalize_idempotent(input: SigView, once: SigView, twice: SigView)
    requires
        is_canonical_form(once, input),
        is_canonical_form(twice, once),
    ensures
        twice == once,
{
    lemma_canonical_unique(twice, once);
}

/// Dividing by what was multiplied undoes it: combining `left` with `right` under
/// multiplication and then the result with `right` under division gives the canonical
/// form of `left`.
pub proof fn lemma_combine_multiply_then_divide(left: SigView, right: SigView, product: SigView, back: SigView)
    requires
        is_canonical_form(product, left + scaled(right, 1)),
        is_canonical_form(back, product + scaled(right, -1)),
    ensures
        is_canonical_form(back, left),
{
    assert forall|n: Seq<char>| #[trigger] total(back, n) == total(left, n) by {
        lemma_total_append(product, scaled(right, -1), n);
        lemma_total_append(left, scaled(right, 1), n);
        lemma_total_scaled(right, 1, n);
        lemma_total_scaled(right, -1, n);
    }
}

/// Multiplication of signatures is commutative.
pub proof fn lemma_combine_multiply_commutes(left: SigView, right: SigView, lr: SigView, rl: SigView)
    requires
        is_canonical_form(lr, left + scaled(right, 1)),
        is_canonical_form(rl, right + scaled(left, 1)),
    ensures
        lr == rl,
{
    assert forall|n: Seq<char>| #[trigger] total(lr, n) == total(rl, n) by {
        lemma_total_append(left, scaled(right, 1), n);
        lemma_total_append(right, scaled(left, 1), n);
        lemma_total_scaled(right, 1, n);
        lemma_total_scaled(left, 1, n);
    }
    lemma_canonical_unique(lr, rl);
}


// ---------------------------------------------------------------------------
// Operator-style rendering
// ---------------------------------------------------------------------------

/// Entries with positive exponents, in order.
pub open spec fn numerator_terms(c: SigView) -> SigView
    decreases c.len(),
{
    if c.len() == 0 {
        c
    } else if c.last().1 > 0 {
        numerator_terms(c.drop_last()).push(c.last())
    } else {
        numerator_terms(c.drop_last())
    }
}

/// Entries with negative exponents, in order, with the exponents made positive.
pub open spec fn denominator_terms(c: SigView) -> SigView
    decreases c.len(),
{
    if c.len() == 0 {
        c
    } else if c.last().1 < 0 {
        denominator_terms(c.drop_last()).push((c.last().0, -c.last().1))
    } else {
        denominator_terms(c.drop_last())
    }
}

/// `name` for exponent 1, `name^n` otherwise.
pub open spec fn term_text(e: (Seq<char>, int)) -> Seq<char> {
    if e.1 == 1 {
        e.0
    } else {
        e.0 + seq!['^'] + decimal_text(e.1 as nat)
    }
}

/// Terms joined by `*`.
pub open spec fn product_text(t: SigView) -> Seq<char>
    decreases t.len(),
{
    if t.len() == 0 {
        Seq::empty()
    } else if t.len() == 1 {
        term_text(t[0])
    } else {
        product_text(t.drop_last()) + seq!['*'] + term_text(t.last())
    }
}

/// Operator-style text of a canonical signature: `num`, `1/den`, `num/den` or empty.
pub open spec fn operator_style_text(c: SigView) -> Seq<char> {
    let num = numerator_terms(c);
    let den = denominator_terms(c);
    if num.len() == 0 && den.len() == 0 {
        Seq::empty()
    } else if den.len() == 0 {
        product_text(num)
    } else if num.len() == 0 {
        seq!['1', '/'] + product_text(den)
    } else {
        product_text(num) + seq!['/'] + product_text(den)
    }
}

fn push_term(out: &mut String, name: &String, exponent: i32)
    requires
        exponent >= 1,
    ensures
        final(out)@ == old(out)@ + term_text((name@, exponent as int)),
{
    out.append(name.as_str());
    if exponent != 1 {
        proof {
            reveal_strlit("^");
        }
        out.append("^");
        push_decimal(out, exponent as u128);
    }
}

fn render_product(terms: &Vec<(String, i32)>) -> (r: String)
    requires
        forall|i: int| 0 <= i < terms@.len() ==> #[trigger] terms@[i].1 >= 1,
    ensures
        r@ == product_text(sig_view(terms@)),
{
    let ghost t = sig_view(terms@);
    let mut out = String::new();
    let n = terms.len();
    let mut k: usize = 0;
    while k < n
        invariant
            n == terms@.len(),
            t == sig_view(terms@),
            k <= n,
            forall|i: int| 0 <= i < terms@.len() ==> #[trigger] terms@[i].1 >= 1,
            out@ == product_text(t.subrange(0, k as int)),
        decreases n - k,
    {
        proof {
            lemma_prefix_step(t, k as int);
        }
        if k > 0 {
            proof {
                reveal_strlit("*");
            }
            out.append("*");
        }
        push_term(&mut out, &terms[k].0, terms[k].1);
        proof {
            if k == 0 {
                assert(t.subrange(0, 1)[0] == t[0]);
            }
        }
        k = k + 1;
    }
    proof {
        assert(t.subrange(0, n as int) =~= t);
    }
    out
}

/// Format a canonical unit signature in operator style: numerator units (positive
/// exponents) joined by `*`, then `/` and the denominator units (negative exponents,
/// shown positive); `1/` when there is no numerator; exponents above 1 as `^n`.
/// The input is canonicalized first.
pub fn format_signature_operator_style(signature: &[(String, i32)]) -> (result: String)
    requires
        partial_sums_fit(sig_view(signature@)),
        forall|n: Seq<char>| #[trigger] total(sig_view(signature@), n) != i32::MIN,
    ensures
        forall|c: SigView| is_canonical_form(c, sig_view(signature@)) ==> result@ == operator_style_text(c),
{
    let canonical = canonicalize_signature(signature);
    let ghost c = sig_view(canonical@);
    let mut numerator: Vec<(String, i32)> = Vec::new();
    let mut denominator: Vec<(String, i32)> = Vec::new();
    let n = canonical.len();
    let mut k: usize = 0;
    while k < n
        invariant
            n == canonical@.len(),
            c == sig_view(canonical@),
            is_canonical_form(c, sig_view(signature@)),
            forall|m: Seq<char>| #[trigger] total(sig_view(signature@), m) != i32::MIN,
            k <= n,
            sig_view(numerator@) == numerator_terms(c.subrange(0, k as int)),
            sig_view(denominator@) == denominator_terms(c.subrange(0, k as int)),
            forall|i: int| 0 <= i < numerator@.len() ==> #[trigger] numerator@[i].1 >= 1,
            forall|i: int| 0 <= i < denominator@.len() ==> #[trigger] denominator@[i].1 >= 1,
        decreases n - k,
    {
        proof {
            lemma_prefix_step(c, k as int);
            lemma_total_sorted_entry(c, k as int);
            assert(total(sig_view(signature@), c[k as int].0) == c[k as int].1);
        }
        let name = canonical[k].0.clone();
        let exponent = canonical[k].1;
        if exponent > 0 {
            let ghost before = numerator@;
            numerator.push((name, exponent));
            proof {
                assert(numerator@ =~= before.push(numerator@.last()));
                lemma_sig_view_push(before, numerator@.last());
            }
        } else if exponent < 0 {
            let ghost before = denominator@;
            denominator.push((name, -exponent));
            proof {
                assert(denominator@ =~= before.push(denominator@.last()));
                lemma_sig_view_push(before, denominator@.last());
            }
        }
        k = k + 1;
    }
    proof {
        assert(c.subrange(0, n as int) =~= c);
        assert forall|c2: SigView| is_canonical_form(c2, sig_view(signature@)) implies c2 == c by {
            lemma_canonical_form_unique(c2, c, sig_view(signature@));
        }
    }
    let num_empty = numerator.len() == 0;
    let den_empty = denominator.len() == 0;
    if num_empty && den_empty {
        String::new()
    } else if den_empty {
        render_product(&numerator)
    } else if num_empty {
        proof {
            reveal_strlit("1/");
        }
        let mut out = String::from_str("1/");
        let den = render_product(&denominator);
        out.append(den.as_str());
        out
    } else {
        proof {
            reveal_strlit("/");
        }
        let mut out = render_product(&numerator);
        out.append("/");
        let den = render_product(&denominator);
        out.append(den.as_str());
        out
    }
}

} // verus!
