//! Resolved paths to data and rules through `uses` hops, and their input keys.

use vstd::prelude::*;
use vstd::string::StringExecFns;
use crate::text::compare_text;

verus! {

/// One cross-spec hop: the `uses` alias, the target repository (`None` for the
/// unnamed workspace) and the target spec.
#[derive(Debug, Clone, PartialEq, Eq, PartialOrd, Ord, Hash)]
pub struct PathSegment {
    pub uses: String,
    pub repository: Option<String>,
    pub spec: String,
}

/// `alias.` for every hop, in order.
pub open spec fn hops_prefix(segments: Seq<PathSegment>) -> Seq<char>
    decreases segments.len(),
{
    if segments.len() == 0 {
        Seq::empty()
    } else {
        hops_prefix(segments.drop_last()) + segments.last().uses@ + "."@
    }
}

/// Dot-separated key: the aliases of the hops, then the final name.
pub open spec fn spec_input_key(segments: Seq<PathSegment>, last: Seq<char>) -> Seq<char> {
    hops_prefix(segments) + last
}

fn push_hops(out: &mut String, segments: &Vec<PathSegment>)
    ensures
        final(out)@ == old(out)@ + hops_prefix(segments@),
{
    let ghost start = out@;
    let n = segments.len();
    let mut i: usize = 0;
    proof {
        assert(segments@.subrange(0, 0) =~= Seq::<PathSegment>::empty());
    }
    while i < n
        invariant
            n == segments@.len(),
            i <= n,
            out@ == start + hops_prefix(segments@.subrange(0, i as int)),
        decreases n - i,
    {
        proof {
            assert(segments@.subrange(0, i + 1).drop_last() =~= segments@.subrange(0, i as int));
        }
        out.append(segments[i].uses.as_str());
        out.append(".");
        proof {
            assert(out@ =~= start + hops_prefix(segments@.subrange(0, i + 1)));
        }
        i = i + 1;
    }
    proof {
        assert(segments@.subrange(0, n as int) =~= segments@);
    }
}

/// `uses → spec`, or `uses → repository spec` when the hop names a repository.
pub open spec fn spec_segment_display(s: PathSegment) -> Seq<char> {
    match s.repository {
        Some(repo) => s.uses@ + " → "@ + repo@ + " "@ + s.spec@,
        None => s.uses@ + " → "@ + s.spec@,
    }
}

impl PathSegment {
    /// Display form of the hop.
    pub fn display(&self) -> (r: String)
        ensures
            r@ == spec_segment_display(*self),
    {
        let mut out = String::from_str(self.uses.as_str());
        out.append(" → ");
        if let Some(repo) = &self.repository {
            out.append(repo.as_str());
            out.append(" ");
        }
        out.append(self.spec.as_str());
        out
    }
}

/// Resolved path to a datum.
#[derive(Debug, Clone, PartialEq, Eq, PartialOrd, Ord, Hash)]
pub struct DataPath {
    pub segments: Vec<PathSegment>,
    pub data: String,
}

impl DataPath {
    pub fn new(segments: Vec<PathSegment>, data: String) -> (r: DataPath)
        ensures
            r == (DataPath { segments, data }),
    {
        DataPath { segments, data }
    }

    /// A path with no cross-spec hop.
    pub fn local(data: String) -> (r: DataPath)
        ensures
            r.segments@.len() == 0,
            r.data == data,
    {
        DataPath { segments: Vec::new(), data }
    }

    /// Key used to match user-provided data values (`alias.name`); also its display.
    pub fn input_key(&self) -> (r: String)
        ensures
            r@ == spec_input_key(self.segments@, self.data@),
    {
        let mut s = String::new();
        push_hops(&mut s, &self.segments);
        s.append(self.data.as_str());
        s
    }
}

/// Resolved path to a rule.
#[derive(Debug, Clone, PartialEq, Eq, PartialOrd, Ord, Hash)]
pub struct RulePath {
    pub segments: Vec<PathSegment>,
    pub rule: String,
}

impl RulePath {
    pub fn new(segments: Vec<PathSegment>, rule: String) -> (r: RulePath)
        ensures
            r == (RulePath { segments, rule }),
    {
        RulePath { segments, rule }
    }

    /// Key for show and run (`alias.rule`); also its display.
    pub fn input_key(&self) -> (r: String)
        ensures
            r@ == spec_input_key(self.segments@, self.rule@),
    {
        if self.segments.len() == 0 {
            proof {
                assert(hops_prefix(self.segments@) =~= Seq::<char>::empty());
            }
            return self.rule.clone();
        }
        let mut s = String::new();
        push_hops(&mut s, &self.segments);
        s.append(self.rule.as_str());
        s
    }
}

/// An input key depends only on the hops' aliases and the final name: two paths whose
/// hops carry the same aliases in the same order, whatever repositories and specs
/// they lead to, have the same key for the same name (the data and rule keys share
/// this one definition).
pub proof fn lemma_input_key_depends_on_aliases_only(a: Seq<PathSegment>, b: Seq<PathSegment>, name: Seq<char>)
    requires
        a.len() == b.len(),
        forall|i: int| 0 <= i < a.len() ==> (#[trigger] a[i]).uses@ == b[i].uses@,
    ensures
        spec_input_key(a, name) == spec_input_key(b, name),
    decreases a.len(),
{
    lemma_hops_depend_on_aliases_only(a, b);
}

proof fn lemma_hops_depend_on_aliases_only(a: Seq<PathSegment>, b: Seq<PathSegment>)
    requires
        a.len() == b.len(),
        forall|i: int| 0 <= i < a.len() ==> (#[trigger] a[i]).uses@ == b[i].uses@,
    ensures
        hops_prefix(a) == hops_prefix(b),
    decreases a.len(),
{
    if a.len() > 0 {
        assert forall|i: int| 0 <= i < a.drop_last().len() implies (#[trigger] a.drop_last()[i]).uses@ == b.drop_last()[i].uses@ by {
            assert(a.drop_last()[i] == a[i]);
            assert(b.drop_last()[i] == b[i]);
        }
        lemma_hops_depend_on_aliases_only(a.drop_last(), b.drop_last());
        assert(a.last() == a[a.len() - 1]);
        assert(b.last() == b[b.len() - 1]);
    }
}

/// What a reference datum copies its value from.
#[derive(Debug, Clone, PartialEq, Eq)]
pub enum ReferenceTarget {
    Data(DataPath),
    Rule(RulePath),
}

fn contains_key(keys: &[String], key: &String) -> (b: bool)
    ensures
        b == exists|i: int| 0 <= i < keys@.len() && keys@[i]@ == key@,
{
    let n = keys.len();
    let mut i: usize = 0;
    while i < n
        invariant
            n == keys@.len(),
            i <= n,
            forall|j: int| 0 <= j < i ==> keys@[j]@ != key@,
        decreases n - i,
    {
        if compare_text(keys[i].as_str(), key.as_str()) == 0 {
            return true;
        }
        i = i + 1;
    }
    false
}

/// Whether `key` is among `keys`.
pub open spec fn has_key(keys: Seq<String>, key: Seq<char>) -> bool {
    exists|i: int| 0 <= i < keys.len() && keys[i]@ == key
}

/// Project rule dependencies (in their set order) to show keys. Every dependency's key
/// must be a show key.
pub fn project_depends_on_rules(deps: &[RulePath], show_keys: &[String]) -> (out: Vec<String>)
    requires
        forall|i: int| 0 <= i < deps@.len() ==> has_key(show_keys@, spec_input_key(#[trigger] deps@[i].segments@, deps@[i].rule@)),
    ensures
        out@.len() == deps@.len(),
        forall|i: int| 0 <= i < deps@.len() ==> #[trigger] out@[i]@ == spec_input_key(deps@[i].segments@, deps@[i].rule@),
{
    let mut out: Vec<String> = Vec::new();
    let n = deps.len();
    let mut i: usize = 0;
    while i < n
        invariant
            n == deps@.len(),
            i <= n,
            out@.len() == i,
            forall|j: int| 0 <= j < deps@.len() ==> has_key(show_keys@, spec_input_key(#[trigger] deps@[j].segments@, deps@[j].rule@)),
            forall|j: int| 0 <= j < i ==> #[trigger] out@[j]@ == spec_input_key(deps@[j].segments@, deps@[j].rule@),
        decreases n - i,
    {
        let key = deps[i].input_key();
        proof {
            assert(has_key(show_keys@, spec_input_key(deps@[i as int].segments@, deps@[i as int].rule@)));
        }
        if !contains_key(show_keys, &key) {
            vstd::pervasive::unreached::<()>();
        }
        out.push(key);
        i = i + 1;
    }
    out
}

} // verus!
