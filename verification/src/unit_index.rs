//! The unit names visible in an expression scope and the types that declare them.

use vstd::prelude::*;
use vstd::string::StringExecFns;
use std::sync::Arc;
use crate::types::LemmaType;
use crate::lemma_type::{declares_measure_unit, declares_ratio_unit, spec_measure_unit_factor};
use crate::rational::{
    checked_div, checked_mul, rational_one, spec_div, spec_mul, spec_one, NumericFailure, RationalInteger,
};

verus! {

/// Whether a type declares a measure or ratio unit of that name.
pub open spec fn declares_unit(t: LemmaType, name: Seq<char>) -> bool {
    declares_measure_unit(t, name) || declares_ratio_unit(t, name)
}

/// The types of `s` that declare `name`, in order.
pub open spec fn owners_in(s: Seq<Arc<LemmaType>>, name: Seq<char>) -> Seq<Arc<LemmaType>>
    decreases s.len(),
{
    if s.len() == 0 {
        Seq::empty()
    } else if declares_unit(*s.last(), name) {
        owners_in(s.drop_last(), name).push(s.last())
    } else {
        owners_in(s.drop_last(), name)
    }
}

/// The message for a unit no type in scope declares.
pub open spec fn unknown_unit_message(name: Seq<char>) -> Seq<char> {
    "unknown unit '"@ + name + "'"@
}

/// The message for a unit several types in scope declare.
pub open spec fn ambiguous_unit_message(name: Seq<char>) -> Seq<char> {
    "ambiguous unit '"@ + name + "' is declared by more than one type"@
}

/// Resolving a unit name: its only declaring type, else why not.
pub open spec fn spec_resolve(s: Seq<Arc<LemmaType>>, name: Seq<char>) -> Result<Arc<LemmaType>, Seq<char>> {
    let owners = owners_in(s, name);
    if owners.len() == 1 {
        Ok(owners[0])
    } else if owners.len() == 0 {
        Err(unknown_unit_message(name))
    } else {
        Err(ambiguous_unit_message(name))
    }
}

/// Types whose units are in scope, in the order they were added.
pub struct UnitIndex {
    types: Vec<Arc<LemmaType>>,
}

impl View for UnitIndex {
    type V = Seq<Arc<LemmaType>>;

    closed spec fn view(&self) -> Seq<Arc<LemmaType>> {
        self.types@
    }
}

impl UnitIndex {
    /// An index with no units.
    pub fn new() -> (r: UnitIndex)
        ensures
            r@ == Seq::<Arc<LemmaType>>::empty(),
    {
        UnitIndex { types: Vec::new() }
    }

    /// The types in scope, in the order they were added.
    pub fn values(&self) -> (r: &Vec<Arc<LemmaType>>)
        ensures
            r@ == self@,
    {
        &self.types
    }

    /// Bring a type's declared units into scope.
    pub fn add_type(&mut self, lemma_type: Arc<LemmaType>)
        ensures
            final(self)@ == old(self)@.push(lemma_type),
    {
        self.types.push(lemma_type);
    }

    /// The types that declare `unit_name`, in the order they were added.
    pub fn owners_for(&self, unit_name: &str) -> (r: Vec<&Arc<LemmaType>>)
        ensures
            r@.map_values(|a: &Arc<LemmaType>| *a) == owners_in(self@, unit_name@),
    {
        let mut out: Vec<&Arc<LemmaType>> = Vec::new();
        let n = self.types.len();
        let mut i: usize = 0;
        while i < n
            invariant
                n == self@.len(),
                i <= n,
                out@.map_values(|a: &Arc<LemmaType>| *a) == owners_in(self@.subrange(0, i as int), unit_name@),
            decreases n - i,
        {
            let t = &self.types[i];
            proof {
                assert(self@.subrange(0, i + 1).drop_last() =~= self@.subrange(0, i as int));
                assert(self@.subrange(0, i + 1).last() == self@[i as int]);
            }
            if t.declares_measure_unit(unit_name) || t.declares_ratio_unit(unit_name) {
                let ghost before = out@;
                out.push(t);
                proof {
                    assert(out@.map_values(|a: &Arc<LemmaType>| *a) =~= before.map_values(|a: &Arc<LemmaType>| *a).push(
                        *t,
                    ));
                }
            }
            i = i + 1;
        }
        proof {
            assert(self@.subrange(0, n as int) =~= self@);
        }
        out
    }

    /// The one type that declares `unit_name`, when exactly one does.
    pub fn unique_owner(&self, unit_name: &str) -> (r: Option<&Arc<LemmaType>>)
        ensures
            r is Some <==> owners_in(self@, unit_name@).len() == 1,
            r is Some ==> *r->0 == owners_in(self@, unit_name@)[0],
    {
        let owners = self.owners_for(unit_name);
        proof {
            assert(owners@.map_values(|a: &Arc<LemmaType>| *a).len() == owners@.len());
        }
        if owners.len() == 1 {
            proof {
                assert(owners@.map_values(|a: &Arc<LemmaType>| *a)[0] == *owners@[0]);
            }
            Some(owners[0])
        } else {
            None
        }
    }

    /// Resolve a unit name to the one type that declares it.
    pub fn resolve(&self, unit_name: &str) -> (r: Result<&Arc<LemmaType>, String>)
        ensures
            match spec_resolve(self@, unit_name@) {
                Ok(t) => r is Ok && *r->Ok_0 == t,
                Err(m) => r is Err && r->Err_0@ == m,
            },
    {
        let owners = self.owners_for(unit_name);
        proof {
            assert(owners@.map_values(|a: &Arc<LemmaType>| *a).len() == owners@.len());
        }
        if owners.len() == 1 {
            proof {
                assert(owners@.map_values(|a: &Arc<LemmaType>| *a)[0] == *owners@[0]);
            }
            return Ok(owners[0]);
        }
        if owners.len() == 0 {
            let mut msg = String::from_str("unknown unit '");
            msg.append(unit_name);
            msg.append("'");
            return Err(msg);
        }
        let mut msg = String::from_str("ambiguous unit '");
        msg.append(unit_name);
        msg.append("' is declared by more than one type");
        Err(msg)
    }
}

/// The type a borrowed owner refers to.
pub open spec fn owner_value(owner: Option<&LemmaType>) -> Option<LemmaType> {
    match owner {
        Some(t) => Some(*t),
        None => None,
    }
}

/// Whether the owner itself declares `name` as a measure unit.
pub open spec fn owner_declares(owner: Option<LemmaType>, name: Seq<char>) -> bool {
    owner matches Some(o) && declares_measure_unit(o, name)
}

/// Whether `name` has a factor: the owner declares it, or exactly one type in scope
/// declares it as a measure unit.
pub open spec fn factor_resolvable(index: Seq<Arc<LemmaType>>, owner: Option<LemmaType>, name: Seq<char>) -> bool {
    owner_declares(owner, name) || (owners_in(index, name).len() == 1 && declares_measure_unit(
        *owners_in(index, name)[0],
        name,
    ))
}

/// The factor of `name`: from the owner when it declares the unit, otherwise from the
/// only type in scope that does.
pub open spec fn resolved_factor(index: Seq<Arc<LemmaType>>, owner: Option<LemmaType>, name: Seq<char>) -> RationalInteger {
    if owner_declares(owner, name) {
        spec_measure_unit_factor(owner->0, name)
    } else {
        spec_measure_unit_factor(*owners_in(index, name)[0], name)
    }
}

/// `f^k` by repeated multiplication, failing as soon as a product overflows.
pub open spec fn rational_power(f: RationalInteger, k: nat) -> Result<RationalInteger, NumericFailure>
    decreases k,
{
    if k == 0 {
        Ok(spec_one())
    } else {
        match rational_power(f, (k - 1) as nat) {
            Ok(t) => spec_mul(t, f),
            Err(e) => Err(e),
        }
    }
}

/// Magnitude of an exponent.
pub open spec fn exponent_magnitude(e: i32) -> nat {
    if e < 0 {
        (-e) as nat
    } else {
        e as nat
    }
}

/// Product of `factor^exponent` over a signature, taken left to right; the first
/// failing step decides the error.
pub open spec fn spec_signature_factor(
    signature: Seq<(String, i32)>,
    index: Seq<Arc<LemmaType>>,
    owner: Option<LemmaType>,
) -> Result<RationalInteger, NumericFailure>
    decreases signature.len(),
{
    if signature.len() == 0 {
        Ok(spec_one())
    } else {
        match spec_signature_factor(signature.drop_last(), index, owner) {
            Ok(acc) => {
                let e = signature.last().1;
                match rational_power(resolved_factor(index, owner, signature.last().0@), exponent_magnitude(e)) {
                    Ok(term) => if e >= 0 {
                        spec_mul(acc, term)
                    } else {
                        spec_div(acc, term)
                    },
                    Err(x) => Err(x),
                }
            },
            Err(x) => Err(x),
        }
    }
}

proof fn lemma_power_error_sticks(f: RationalInteger, k: nat, m: nat)
    requires
        k <= m,
        rational_power(f, k) is Err,
    ensures
        rational_power(f, m) == rational_power(f, k),
    decreases m,
{
    if k < m {
        lemma_power_error_sticks(f, k, (m - 1) as nat);
    }
}

proof fn lemma_factor_error_sticks(
    signature: Seq<(String, i32)>,
    k: int,
    index: Seq<Arc<LemmaType>>,
    owner: Option<LemmaType>,
)
    requires
        0 <= k <= signature.len(),
        spec_signature_factor(signature.subrange(0, k), index, owner) is Err,
    ensures
        spec_signature_factor(signature, index, owner) == spec_signature_factor(signature.subrange(0, k), index, owner),
    decreases signature.len(),
{
    if k < signature.len() {
        assert(signature.drop_last().subrange(0, k) =~= signature.subrange(0, k));
        lemma_factor_error_sticks(signature.drop_last(), k, index, owner);
    } else {
        assert(signature.subrange(0, k) =~= signature);
    }
}

fn power_of(factor: &RationalInteger, exponent: u32) -> (r: Result<RationalInteger, NumericFailure>)
    ensures
        r == rational_power(*factor, exponent as nat),
{
    let mut term = rational_one();
    let mut k: u32 = 0;
    while k < exponent
        invariant
            k <= exponent,
            rational_power(*factor, k as nat) == Ok::<RationalInteger, NumericFailure>(term),
        decreases exponent - k,
    {
        match checked_mul(&term, factor) {
            Ok(next) => {
                term = next;
            },
            Err(e) => {
                proof {
                    lemma_power_error_sticks(*factor, (k + 1) as nat, exponent as nat);
                }
                return Err(e);
            },
        }
        k = k + 1;
    }
    Ok(term)
}

/// The numeric factor of a unit signature relative to canonical bases: the product of
/// `factor^exponent` over its entries, where a unit's factor comes from `owner` when
/// it declares the unit and otherwise from the only type in scope that declares it.
/// Fails with the first overflow or division by zero.
pub fn signature_factor(
    signature: &[(String, i32)],
    expression_units: &UnitIndex,
    owner: Option<&LemmaType>,
) -> (r: Result<RationalInteger, NumericFailure>)
    requires
        forall|i: int|
            0 <= i < signature@.len() ==> factor_resolvable(
                expression_units@,
                owner_value(owner),
                (#[trigger] signature@[i]).0@,
            ),
    ensures
        r == spec_signature_factor(signature@, expression_units@, owner_value(owner)),
{
    let ghost index = expression_units@;
    let ghost own = owner_value(owner);
    let mut acc = rational_one();
    let n = signature.len();
    let mut i: usize = 0;
    proof {
        assert(signature@.subrange(0, 0) =~= Seq::<(String, i32)>::empty());
    }
    while i < n
        invariant
            n == signature@.len(),
            i <= n,
            index == expression_units@,
            own == owner_value(owner),
            forall|j: int| 0 <= j < signature@.len() ==> factor_resolvable(index, own, (#[trigger] signature@[j]).0@),
            spec_signature_factor(signature@.subrange(0, i as int), index, own) == Ok::<
                RationalInteger,
                NumericFailure,
            >(acc),
        decreases n - i,
    {
        let name = signature[i].0.as_str();
        let exponent = signature[i].1;
        proof {
            assert(factor_resolvable(index, own, signature@[i as int].0@));
            assert(signature@.subrange(0, i + 1).drop_last() =~= signature@.subrange(0, i as int));
            assert(signature@.subrange(0, i + 1).last() == signature@[i as int]);
        }
        let owner_has = match owner {
            Some(o) => o.declares_measure_unit(name),
            None => false,
        };
        let factor: &RationalInteger = if owner_has {
            match owner {
                Some(o) => o.measure_unit_factor(name),
                None => vstd::pervasive::unreached(),
            }
        } else {
            match expression_units.unique_owner(name) {
                Some(t) => t.measure_unit_factor(name),
                None => vstd::pervasive::unreached(),
            }
        };
        proof {
            assert(*factor == resolved_factor(index, own, name@));
        }
        let magnitude: u32 = if exponent < 0 {
            (0 - (exponent as i64)) as u32
        } else {
            exponent as u32
        };
        let step = match power_of(factor, magnitude) {
            Ok(term) => if exponent >= 0 {
                checked_mul(&acc, &term)
            } else {
                checked_div(&acc, &term)
            },
            Err(e) => Err(e),
        };
        match step {
            Ok(next) => {
                acc = next;
            },
            Err(e) => {
                proof {
                    lemma_factor_error_sticks(signature@, i + 1, index, own);
                }
                return Err(e);
            },
        }
        i = i + 1;
    }
    proof {
        assert(signature@.subrange(0, n as int) =~= signature@);
    }
    Ok(acc)
}

} // verus!
