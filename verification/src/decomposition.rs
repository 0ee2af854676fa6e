//! Looking up the declared measure types in scope that share a decomposition.

use vstd::prelude::*;
use vstd::string::StringExecFns;
use std::sync::Arc;
use crate::lemma_type::{spec_measure_decomposition, spec_measure_family_name};
use crate::signature::SigView;
use crate::text::{compare_text, sort_texts, strictly_sorted, text_views};
use crate::types::LemmaType;
use crate::unit_index::UnitIndex;
use crate::units::BaseMeasureVector;

verus! {

/// Outcome of looking up the measure types in scope by decomposition.
#[derive(Debug, Clone, PartialEq, Eq)]
pub enum DecompositionMatch {
    /// No declared measure type in scope has this decomposition.
    NoMatch,
    /// Exactly one measure family in scope has this decomposition.
    Unique(Arc<LemmaType>),
    /// Several measure families share this decomposition; their names, sorted.
    Multiple(Vec<String>),
}

/// `Arc::clone`: another handle to the same value.
#[verifier::external_body]
pub(crate) fn share<T>(a: &Arc<T>) -> (r: Arc<T>)
    ensures
        r == *a,
{
    Arc::clone(a)
}

/// A measure type whose resolved decomposition is `d`.
pub open spec fn decomposition_matches(t: LemmaType, d: SigView) -> bool {
    t.specifications is Measure && spec_measure_decomposition(t) == Some(d)
}

/// The measure families of `s` with decomposition `d`, in order of first appearance,
/// each with the first type of that family.
pub open spec fn family_list(s: Seq<Arc<LemmaType>>, d: SigView) -> Seq<(Seq<char>, Arc<LemmaType>)>
    decreases s.len(),
{
    if s.len() == 0 {
        Seq::empty()
    } else {
        let prev = family_list(s.drop_last(), d);
        let t = *s.last();
        if decomposition_matches(t, d) {
            let f = spec_measure_family_name(t)->0;
            if family_names(prev).contains(f) {
                prev
            } else {
                prev.push((f, s.last()))
            }
        } else {
            prev
        }
    }
}

/// The names of a family list.
pub open spec fn family_names(l: Seq<(Seq<char>, Arc<LemmaType>)>) -> Seq<Seq<char>> {
    l.map_values(|p: (Seq<char>, Arc<LemmaType>)| p.0)
}

/// Every matching type in scope has a family name.
pub open spec fn families_named(s: Seq<Arc<LemmaType>>, d: SigView) -> bool {
    forall|i: int| 0 <= i < s.len() && decomposition_matches(*#[trigger] s[i], d) ==> spec_measure_family_name(*s[i]) is Some
}

proof fn lemma_family_names_distinct(s: Seq<Arc<LemmaType>>, d: SigView)
    ensures
        family_names(family_list(s, d)).no_duplicates(),
    decreases s.len(),
{
    if s.len() > 0 {
        lemma_family_names_distinct(s.drop_last(), d);
        let prev = family_list(s.drop_last(), d);
        let t = *s.last();
        if decomposition_matches(t, d) {
            let f = spec_measure_family_name(t)->0;
            if !family_names(prev).contains(f) {
                assert(family_names(prev.push((f, s.last()))) =~= family_names(prev).push(f));
            }
        }
    }
}

proof fn lemma_family_list_matches(s: Seq<Arc<LemmaType>>, d: SigView)
    ensures
        forall|i: int| 0 <= i < family_list(s, d).len() ==> decomposition_matches(*(#[trigger] family_list(s, d)[i]).1, d),
    decreases s.len(),
{
    if s.len() > 0 {
        lemma_family_list_matches(s.drop_last(), d);
        let prev = family_list(s.drop_last(), d);
        let t = *s.last();
        if decomposition_matches(t, d) {
            let f = spec_measure_family_name(t)->0;
            if !family_names(prev).contains(f) {
                let l = prev.push((f, s.last()));
                assert forall|i: int| 0 <= i < l.len() implies decomposition_matches(*(#[trigger] l[i]).1, d) by {
                    if i < prev.len() {
                        assert(l[i] == prev[i]);
                    }
                }
            }
        }
    }
}

fn contains_text(v: &Vec<String>, s: &str) -> (b: bool)
    ensures
        b == text_views(v@).contains(s@),
{
    let n = v.len();
    let mut i: usize = 0;
    while i < n
        invariant
            n == v@.len(),
            i <= n,
            forall|k: int| 0 <= k < i ==> (#[trigger] text_views(v@)[k]) != s@,
        decreases n - i,
    {
        if compare_text(v[i].as_str(), s) == 0 {
            proof {
                assert(text_views(v@)[i as int] == s@);
            }
            return true;
        }
        i = i + 1;
    }
    false
}

/// The measure families in `unit_index` whose declared decomposition is exactly
/// `decomposition`: none, the first type of the only such family, or the sorted
/// names of all of them.
pub fn find_unique_measure_type_in_unit_index(unit_index: &UnitIndex, decomposition: &BaseMeasureVector) -> (r: DecompositionMatch)
    requires
        families_named(unit_index@, decomposition@),
    ensures
        ({
            let l = family_list(unit_index@, decomposition@);
            match r {
                DecompositionMatch::NoMatch => l.len() == 0,
                DecompositionMatch::Unique(t) => l.len() == 1 && t == l[0].1 && decomposition_matches(*t, decomposition@),
                DecompositionMatch::Multiple(names) => {
                    &&& l.len() > 1
                    &&& names@.len() == l.len()
                    &&& strictly_sorted(text_views(names@))
                    &&& forall|x: Seq<char>| text_views(names@).contains(x) <==> family_names(l).contains(x)
                }
            }
        }),
{
    let types = unit_index.values();
    let ghost d = decomposition@;
    let mut names: Vec<String> = Vec::new();
    let mut firsts: Vec<&Arc<LemmaType>> = Vec::new();
    let n = types.len();
    let mut i: usize = 0;
    while i < n
        invariant
            n == types@.len(),
            types@ == unit_index@,
            d == decomposition@,
            i <= n,
            families_named(types@, d),
            text_views(names@) == family_names(family_list(types@.subrange(0, i as int), d)),
            firsts@.map_values(|a: &Arc<LemmaType>| *a) == family_list(types@.subrange(0, i as int), d).map_values(
                |p: (Seq<char>, Arc<LemmaType>)| p.1,
            ),
        decreases n - i,
    {
        let t = &types[i];
        let ghost prefix = types@.subrange(0, i as int);
        let ghost next = types@.subrange(0, i + 1);
        proof {
            assert(next.drop_last() =~= prefix);
            assert(next.last() == types@[i as int]);
        }
        let matches = if t.is_measure() {
            match t.measure_type_decomposition() {
                Some(own) => own.same_as(decomposition),
                None => false,
            }
        } else {
            false
        };
        if matches {
            proof {
                assert(decomposition_matches(*types@[i as int], d));
            }
            let family = match t.measure_family_name() {
                Some(f) => f,
                None => vstd::pervasive::unreached(),
            };
            if !contains_text(&names, family) {
                let ghost before_names = names@;
                let ghost before_firsts = firsts@;
                names.push(String::from_str(family));
                firsts.push(t);
                proof {
                    let prev = family_list(prefix, d);
                    assert(family_list(next, d) == prev.push((family@, types@[i as int])));
                    assert(text_views(names@) =~= text_views(before_names).push(family@));
                    assert(family_names(prev.push((family@, types@[i as int]))) =~= family_names(prev).push(family@));
                    assert(firsts@.map_values(|a: &Arc<LemmaType>| *a) =~= before_firsts.map_values(
                        |a: &Arc<LemmaType>| *a,
                    ).push(types@[i as int]));
                    assert(prev.push((family@, types@[i as int])).map_values(|p: (Seq<char>, Arc<LemmaType>)| p.1)
                        =~= prev.map_values(|p: (Seq<char>, Arc<LemmaType>)| p.1).push(types@[i as int]));
                }
            }
        }
        i = i + 1;
    }
    proof {
        assert(types@.subrange(0, n as int) =~= types@);
        lemma_family_names_distinct(types@, d);
        lemma_family_list_matches(types@, d);
    }
    let ghost l = family_list(types@, d);
    proof {
        assert(names@.len() == l.len()) by {
            assert(text_views(names@).len() == family_names(l).len());
        }
        assert(firsts@.len() == l.len()) by {
            assert(firsts@.map_values(|a: &Arc<LemmaType>| *a).len() == l.map_values(|p: (Seq<char>, Arc<LemmaType>)| p.1).len());
        }
    }
    if names.len() == 0 {
        DecompositionMatch::NoMatch
    } else if names.len() == 1 {
        proof {
            assert(firsts@.map_values(|a: &Arc<LemmaType>| *a)[0] == *firsts@[0]);
            assert(l.map_values(|p: (Seq<char>, Arc<LemmaType>)| p.1)[0] == l[0].1);
        }
        DecompositionMatch::Unique(share(firsts[0]))
    } else {
        let sorted = sort_texts(&names);
        DecompositionMatch::Multiple(sorted)
    }
}

} // verus!
