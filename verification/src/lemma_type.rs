//! Constructors and classification predicates of [`LemmaType`].

use vstd::prelude::*;
use vstd::string::StringExecFns;
use crate::rational::RationalInteger;
use crate::signature::{sig_view, SigView};
use crate::text::compare_text;
use crate::types::{spec_type_label, type_label, LemmaType, PrimitiveKind, TypeExtends, TypeSpecification};
use crate::units::{
    base_measure_vector_as_signature, calendar_dimension, duration_dimension, first_named,
    measure_unit_names_of, nonzero_entries, ratio_unit_names_of, BaseMeasureVector, MeasureTrait,
    MeasureUnit, MeasureUnits, RatioUnit, RatioUnits,
};

verus! {

/// Name of a type: its own name, or the label of its specification kind.
pub open spec fn spec_name(t: LemmaType) -> Seq<char> {
    match t.name {
        Some(n) => n@,
        None => spec_type_label(t.specifications),
    }
}

/// Whether a measure type carries the given trait.
pub open spec fn spec_has_trait(t: LemmaType, tr: MeasureTrait) -> bool {
    match t.specifications {
        TypeSpecification::Measure { traits, .. } => traits@.contains(tr),
        _ => false,
    }
}

/// Unnamed measure (an intermediate of cross-axis arithmetic).
pub open spec fn spec_is_anonymous_measure(t: LemmaType) -> bool {
    t.name is None && t.specifications is Measure
}

/// The resolved decomposition of a measure type, as a signature.
pub open spec fn spec_measure_decomposition(t: LemmaType) -> Option<SigView> {
    match t.specifications {
        TypeSpecification::Measure { decomposition, .. } => match decomposition {
            Some(d) => Some(d@),
            None => None,
        },
        _ => None,
    }
}

pub open spec fn spec_is_duration_like(t: LemmaType) -> bool {
    t.specifications is Measure && (spec_has_trait(t, MeasureTrait::Duration) || (
    spec_is_anonymous_measure(t) && spec_measure_decomposition(t) == Some(
        seq![(duration_dimension(), 1int)],
    )))
}

pub open spec fn spec_is_calendar_like(t: LemmaType) -> bool {
    t.specifications is Measure && (spec_has_trait(t, MeasureTrait::Calendar) || (
    spec_is_anonymous_measure(t) && spec_measure_decomposition(t) == Some(
        seq![(calendar_dimension(), 1int)],
    )))
}

/// Family root name of a measure or ratio type (`kind_ok` selects which).
pub open spec fn spec_family_name(t: LemmaType, kind_ok: bool) -> Option<Seq<char>> {
    if !kind_ok {
        None
    } else {
        match t.extends {
            TypeExtends::Custom { family, .. } => Some(family@),
            TypeExtends::Primitive => match t.name {
                Some(n) => Some(n@),
                None => None,
            },
        }
    }
}

pub open spec fn spec_measure_family_name(t: LemmaType) -> Option<Seq<char>> {
    spec_family_name(t, t.specifications is Measure)
}

pub open spec fn spec_ratio_family_name(t: LemmaType) -> Option<Seq<char>> {
    spec_family_name(t, t.specifications is Ratio)
}

/// Same specification kind, ignoring constraints.
pub open spec fn spec_same_kind(a: TypeSpecification, b: TypeSpecification) -> bool {
    spec_type_label(a) == spec_type_label(b)
}

/// Kinds with the same label are the same kind (for measures and measure ranges).
pub proof fn lemma_same_kind_same_variant(a: TypeSpecification, b: TypeSpecification)
    ensures
        spec_same_kind(a, b) ==> ((a is Measure <==> b is Measure) && (a is MeasureRange <==> b is MeasureRange)),
{
    reveal_strlit("boolean");
    reveal_strlit("measure");
    reveal_strlit("measure range");
    reveal_strlit("number");
    reveal_strlit("number range");
    reveal_strlit("text");
    reveal_strlit("date");
    reveal_strlit("date range");
    reveal_strlit("time");
    reveal_strlit("time range");
    reveal_strlit("ratio");
    reveal_strlit("ratio range");
    reveal_strlit("veto");
    reveal_strlit("undetermined");
    let la = spec_type_label(a);
    let lb = spec_type_label(b);
    if la == lb {
        assert(la.len() == lb.len());
        if la.len() > 0 {
            assert(la[0] == lb[0]);
        }
        if la.len() > 8 {
            assert(la[8] == lb[8]);
        }
    }
}

fn contains_trait(traits: &Vec<MeasureTrait>, wanted: MeasureTrait) -> (b: bool)
    ensures
        b == traits@.contains(wanted),
{
    let n = traits.len();
    let mut i: usize = 0;
    while i < n
        invariant
            n == traits@.len(),
            i <= n,
            forall|j: int| 0 <= j < i ==> traits@[j] != wanted,
        decreases n - i,
    {
        if traits[i] == wanted {
            return true;
        }
        i = i + 1;
    }
    false
}

impl LemmaType {
    /// A named type.
    pub fn new(name: String, specifications: TypeSpecification, extends: TypeExtends) -> (r: LemmaType)
        ensures
            r == (LemmaType { name: Some(name), specifications, extends, measure_binding_unit: None }),
    {
        LemmaType { name: Some(name), specifications, extends, measure_binding_unit: None }
    }

    /// An anonymous type.
    pub fn without_name(specifications: TypeSpecification, extends: TypeExtends) -> (r: LemmaType)
        ensures
            r == (LemmaType { name: None, specifications, extends, measure_binding_unit: None }),
    {
        LemmaType { name: None, specifications, extends, measure_binding_unit: None }
    }

    /// An anonymous type extending a primitive.
    pub fn primitive(specifications: TypeSpecification) -> (r: LemmaType)
        ensures
            r == (LemmaType {
                name: None,
                specifications,
                extends: TypeExtends::Primitive,
                measure_binding_unit: None,
            }),
    {
        LemmaType { name: None, specifications, extends: TypeExtends::Primitive, measure_binding_unit: None }
    }

    /// This type with its measure values bound to `unit_name`.
    pub fn with_measure_binding_unit(self, unit_name: String) -> (r: LemmaType)
        ensures
            r == (LemmaType { measure_binding_unit: Some(unit_name), ..self }),
    {
        let mut t = self;
        t.measure_binding_unit = Some(unit_name);
        t
    }

    /// Replace the units and decomposition of a measure type by what `f` makes of
    /// them; every other specification passes through unchanged.
    pub fn map_measure<F>(self, f: F) -> (r: LemmaType)
        where
            F: FnOnce(MeasureUnits, Option<BaseMeasureVector>) -> (MeasureUnits, Option<BaseMeasureVector>),
        requires
            self.specifications is Measure ==> f.requires(
                (self.specifications->Measure_units, self.specifications->Measure_decomposition),
            ),
        ensures
            r.name == self.name,
            r.extends == self.extends,
            r.measure_binding_unit == self.measure_binding_unit,
            !(self.specifications is Measure) ==> r.specifications == self.specifications,
            self.specifications is Measure ==> {
                &&& r.specifications is Measure
                &&& f.ensures(
                    (self.specifications->Measure_units, self.specifications->Measure_decomposition),
                    (r.specifications->Measure_units, r.specifications->Measure_decomposition),
                )
                &&& r.specifications->Measure_minimum == self.specifications->Measure_minimum
                &&& r.specifications->Measure_maximum == self.specifications->Measure_maximum
                &&& r.specifications->Measure_decimals == self.specifications->Measure_decimals
                &&& r.specifications->Measure_traits == self.specifications->Measure_traits
                &&& r.specifications->Measure_help == self.specifications->Measure_help
            },
    {
        let LemmaType { name, specifications, extends, measure_binding_unit } = self;
        let specifications = match specifications {
            TypeSpecification::Measure { minimum, maximum, decimals, units, traits, decomposition, help } => {
                let (units, decomposition) = f(units, decomposition);
                TypeSpecification::Measure { minimum, maximum, decimals, units, traits, decomposition, help }
            },
            other => other,
        };
        LemmaType { name, specifications, extends, measure_binding_unit }
    }

    /// The type's name, or the label of its kind when it has none.
    pub fn name(&self) -> (r: String)
        ensures
            r@ == spec_name(*self),
    {
        match &self.name {
            Some(n) => n.clone(),
            None => String::from_str(type_label(&self.specifications)),
        }
    }

    pub fn is_boolean(&self) -> (b: bool)
        ensures
            b == self.specifications is Boolean,
    {
        matches!(self.specifications, TypeSpecification::Boolean { .. })
    }

    pub fn is_measure(&self) -> (b: bool)
        ensures
            b == self.specifications is Measure,
    {
        matches!(self.specifications, TypeSpecification::Measure { .. })
    }

    pub fn is_measure_range(&self) -> (b: bool)
        ensures
            b == self.specifications is MeasureRange,
    {
        matches!(self.specifications, TypeSpecification::MeasureRange { .. })
    }

    pub fn is_number(&self) -> (b: bool)
        ensures
            b == self.specifications is Number,
    {
        matches!(self.specifications, TypeSpecification::Number { .. })
    }

    pub fn is_number_range(&self) -> (b: bool)
        ensures
            b == self.specifications is NumberRange,
    {
        matches!(self.specifications, TypeSpecification::NumberRange { .. })
    }

    /// Measure or number.
    pub fn is_numeric(&self) -> (b: bool)
        ensures
            b == (self.specifications is Measure || self.specifications is Number),
    {
        matches!(self.specifications, TypeSpecification::Measure { .. } | TypeSpecification::Number { .. })
    }

    pub fn is_text(&self) -> (b: bool)
        ensures
            b == self.specifications is Text,
    {
        matches!(self.specifications, TypeSpecification::Text { .. })
    }

    pub fn is_date(&self) -> (b: bool)
        ensures
            b == self.specifications is Date,
    {
        matches!(self.specifications, TypeSpecification::Date { .. })
    }

    pub fn is_date_range(&self) -> (b: bool)
        ensures
            b == self.specifications is DateRange,
    {
        matches!(self.specifications, TypeSpecification::DateRange { .. })
    }

    pub fn is_time_range(&self) -> (b: bool)
        ensures
            b == self.specifications is TimeRange,
    {
        matches!(self.specifications, TypeSpecification::TimeRange { .. })
    }

    pub fn is_time(&self) -> (b: bool)
        ensures
            b == self.specifications is Time,
    {
        matches!(self.specifications, TypeSpecification::Time { .. })
    }

    pub fn is_ratio(&self) -> (b: bool)
        ensures
            b == self.specifications is Ratio,
    {
        matches!(self.specifications, TypeSpecification::Ratio { .. })
    }

    pub fn is_ratio_range(&self) -> (b: bool)
        ensures
            b == self.specifications is RatioRange,
    {
        matches!(self.specifications, TypeSpecification::RatioRange { .. })
    }

    /// Any of the five range kinds.
    pub fn is_range(&self) -> (b: bool)
        ensures
            b == (self.specifications is DateRange || self.specifications is TimeRange
                || self.specifications is NumberRange || self.specifications is MeasureRange
                || self.specifications is RatioRange),
    {
        matches!(
            self.specifications,
            TypeSpecification::DateRange { .. } | TypeSpecification::TimeRange { .. }
                | TypeSpecification::NumberRange { .. } | TypeSpecification::MeasureRange { .. }
                | TypeSpecification::RatioRange { .. }
        )
    }

    /// Whether this is the veto type.
    pub fn vetoed(&self) -> (b: bool)
        ensures
            b == self.specifications is Veto,
    {
        matches!(self.specifications, TypeSpecification::Veto { .. })
    }

    /// Whether this is the undetermined sentinel.
    pub fn is_undetermined(&self) -> (b: bool)
        ensures
            b == self.specifications is Undetermined,
    {
        matches!(self.specifications, TypeSpecification::Undetermined)
    }

    /// Whether a measure text input left empty vetoes (everything but text).
    pub fn empty_runtime_input_vetoes(&self) -> (b: bool)
        ensures
            b == !(self.specifications is Text),
    {
        !matches!(self.specifications, TypeSpecification::Text { .. })
    }

    pub fn has_trait_duration(&self) -> (b: bool)
        ensures
            b == spec_has_trait(*self, MeasureTrait::Duration),
    {
        match &self.specifications {
            TypeSpecification::Measure { traits, .. } => contains_trait(traits, MeasureTrait::Duration),
            _ => false,
        }
    }

    pub fn has_trait_calendar(&self) -> (b: bool)
        ensures
            b == spec_has_trait(*self, MeasureTrait::Calendar),
    {
        match &self.specifications {
            TypeSpecification::Measure { traits, .. } => contains_trait(traits, MeasureTrait::Calendar),
            _ => false,
        }
    }

    /// Unnamed measure.
    pub fn is_anonymous_measure(&self) -> (b: bool)
        ensures
            b == spec_is_anonymous_measure(*self),
    {
        self.name.is_none() && matches!(self.specifications, TypeSpecification::Measure { .. })
    }

    /// Decomposition of a measure type (`None` until resolved).
    pub fn measure_type_decomposition(&self) -> (r: Option<&BaseMeasureVector>)
        requires
            self.specifications is Measure,
        ensures
            match r {
                Some(d) => spec_measure_decomposition(*self) == Some(d@),
                None => spec_measure_decomposition(*self) is None,
            },
    {
        match &self.specifications {
            TypeSpecification::Measure { decomposition, .. } => match decomposition {
                Some(d) => Some(d),
                None => None,
            },
            _ => None,
        }
    }

    /// A measure with the duration trait, or an anonymous measure of decomposition
    /// `{duration: 1}`.
    pub fn is_duration_like_measure(&self) -> (b: bool)
        ensures
            b == spec_is_duration_like(*self),
    {
        if !self.is_measure() {
            return false;
        }
        if self.has_trait_duration() {
            return true;
        }
        if !self.is_anonymous_measure() {
            return false;
        }
        match self.measure_type_decomposition() {
            Some(d) => {
                let reference = crate::units::duration_decomposition();
                d.same_as(&reference)
            },
            None => false,
        }
    }

    pub fn is_duration_like(&self) -> (b: bool)
        ensures
            b == spec_is_duration_like(*self),
    {
        self.is_duration_like_measure()
    }

    /// A measure with the calendar trait, or an anonymous measure of decomposition
    /// `{calendar: 1}`.
    pub fn is_calendar_like_measure(&self) -> (b: bool)
        ensures
            b == spec_is_calendar_like(*self),
    {
        if !self.is_measure() {
            return false;
        }
        if self.has_trait_calendar() {
            return true;
        }
        if !self.is_anonymous_measure() {
            return false;
        }
        match self.measure_type_decomposition() {
            Some(d) => {
                let reference = crate::units::calendar_decomposition();
                d.same_as(&reference)
            },
            None => false,
        }
    }

    pub fn is_calendar_like(&self) -> (b: bool)
        ensures
            b == spec_is_calendar_like(*self),
    {
        self.is_calendar_like_measure()
    }

    /// A measure range whose decomposition is `{calendar: 1}`.
    pub fn is_calendar_measure_range(&self) -> (b: bool)
        ensures
            b == (match self.specifications {
                TypeSpecification::MeasureRange { decomposition, .. } => match decomposition {
                    Some(d) => d@ == seq![(calendar_dimension(), 1int)],
                    None => false,
                },
                _ => false,
            }),
    {
        match &self.specifications {
            TypeSpecification::MeasureRange { decomposition, .. } => match decomposition {
                Some(d) => {
                    let reference = crate::units::calendar_decomposition();
                    d.same_as(&reference)
                },
                None => false,
            },
            _ => false,
        }
    }

    pub fn is_calendar_like_range(&self) -> (b: bool)
        ensures
            b == (match self.specifications {
                TypeSpecification::MeasureRange { decomposition, .. } => match decomposition {
                    Some(d) => d@ == seq![(calendar_dimension(), 1int)],
                    None => false,
                },
                _ => false,
            }),
    {
        self.is_calendar_measure_range()
    }

    /// Same specification kind, ignoring names and constraints.
    pub fn has_same_base_type(&self, other: &LemmaType) -> (b: bool)
        ensures
            b == spec_same_kind(self.specifications, other.specifications),
    {
        proof {
            reveal_strlit("boolean");
            reveal_strlit("measure");
            reveal_strlit("measure range");
            reveal_strlit("number");
            reveal_strlit("number range");
            reveal_strlit("text");
            reveal_strlit("date");
            reveal_strlit("date range");
            reveal_strlit("time");
            reveal_strlit("time range");
            reveal_strlit("ratio");
            reveal_strlit("ratio range");
            reveal_strlit("veto");
            reveal_strlit("undetermined");
        }
        compare_text(type_label(&self.specifications), type_label(&other.specifications)) == 0
    }

    /// Family root of a measure type: the `family` of a custom extension, or the type's
    /// own name when it extends a primitive.
    pub fn measure_family_name(&self) -> (r: Option<&str>)
        ensures
            match r {
                Some(s) => spec_measure_family_name(*self) == Some(s@),
                None => spec_measure_family_name(*self) is None,
            },
    {
        if !self.is_measure() {
            return None;
        }
        match &self.extends {
            TypeExtends::Custom { family, .. } => Some(family.as_str()),
            TypeExtends::Primitive => match &self.name {
                Some(n) => Some(n.as_str()),
                None => None,
            },
        }
    }

    /// Family root of a ratio type.
    pub fn ratio_family_name(&self) -> (r: Option<&str>)
        ensures
            match r {
                Some(s) => spec_ratio_family_name(*self) == Some(s@),
                None => spec_ratio_family_name(*self) is None,
            },
    {
        if !self.is_ratio() {
            return None;
        }
        match &self.extends {
            TypeExtends::Custom { family, .. } => Some(family.as_str()),
            TypeExtends::Primitive => match &self.name {
                Some(n) => Some(n.as_str()),
                None => None,
            },
        }
    }

    /// The family of a measure or, failing that, a ratio type.
    pub fn unit_family_name(&self) -> (r: Option<&str>)
        ensures
            match r {
                Some(s) => (spec_measure_family_name(*self) == Some(s@)) || (spec_measure_family_name(*self) is None
                    && spec_ratio_family_name(*self) == Some(s@)),
                None => spec_measure_family_name(*self) is None && spec_ratio_family_name(*self) is None,
            },
    {
        match self.measure_family_name() {
            Some(f) => Some(f),
            None => self.ratio_family_name(),
        }
    }

    /// Both measures of the same named family.
    pub fn same_measure_family(&self, other: &LemmaType) -> (b: bool)
        ensures
            b == (self.specifications is Measure && other.specifications is Measure
                && spec_measure_family_name(*self) is Some
                && spec_measure_family_name(*self) == spec_measure_family_name(*other)),
    {
        if !self.is_measure() || !other.is_measure() {
            return false;
        }
        match (self.measure_family_name(), other.measure_family_name()) {
            (Some(a), Some(b)) => compare_text(a, b) == 0,
            _ => false,
        }
    }

    /// Both measures, at least one anonymous, with equal resolved decompositions.
    pub fn compatible_with_anonymous_measure(&self, other: &LemmaType) -> (b: bool)
        ensures
            b == (self.specifications is Measure && other.specifications is Measure
                && (spec_is_anonymous_measure(*self) || spec_is_anonymous_measure(*other))
                && spec_measure_decomposition(*self) is Some
                && spec_measure_decomposition(*self) == spec_measure_decomposition(*other)),
    {
        if !self.is_measure() || !other.is_measure() {
            return false;
        }
        if !self.is_anonymous_measure() && !other.is_anonymous_measure() {
            return false;
        }
        match (self.measure_type_decomposition(), other.measure_type_decomposition()) {
            (Some(a), Some(b)) => a.same_as(b),
            _ => false,
        }
    }

    /// The veto type.
    pub fn veto_type() -> (r: LemmaType)
        ensures
            r == (LemmaType {
                name: None,
                specifications: TypeSpecification::Veto { message: None },
                extends: TypeExtends::Primitive,
                measure_binding_unit: None,
            }),
    {
        LemmaType::primitive(TypeSpecification::veto())
    }

    /// The undetermined sentinel type.
    pub fn undetermined_type() -> (r: LemmaType)
        ensures
            r == (LemmaType {
                name: None,
                specifications: TypeSpecification::Undetermined,
                extends: TypeExtends::Primitive,
                measure_binding_unit: None,
            }),
    {
        LemmaType::primitive(TypeSpecification::Undetermined)
    }

    /// Display decimal places of a number, measure or ratio type.
    pub fn decimal_places(&self) -> (r: Option<u8>)
        ensures
            r == (match self.specifications {
                TypeSpecification::Number { decimals, .. } => decimals,
                TypeSpecification::Measure { decimals, .. } => decimals,
                TypeSpecification::Ratio { decimals, .. } => decimals,
                _ => None,
            }),
    {
        match &self.specifications {
            TypeSpecification::Number { decimals, .. } => *decimals,
            TypeSpecification::Measure { decimals, .. } => *decimals,
            TypeSpecification::Ratio { decimals, .. } => *decimals,
            _ => None,
        }
    }

    /// An anonymous measure type for a decomposition.
    pub fn anonymous_for_decomposition(decomposition: BaseMeasureVector) -> (r: LemmaType)
        ensures
            r.name is None,
            r.extends == TypeExtends::Primitive,
            r.measure_binding_unit is None,
            r.specifications matches TypeSpecification::Measure {
                minimum, maximum, decimals, units, traits, decomposition: d, help,
            } && minimum is None && maximum is None && decimals is None && units.0@.len() == 0
                && traits@.len() == 0 && d == Some(decomposition) && help@.len() == 0,
    {
        LemmaType {
            name: None,
            specifications: TypeSpecification::Measure {
                minimum: None,
                maximum: None,
                decimals: None,
                units: MeasureUnits::new(),
                traits: Vec::new(),
                decomposition: Some(decomposition),
                help: String::new(),
            },
            extends: TypeExtends::Primitive,
            measure_binding_unit: None,
        }
    }
}

/// Anonymous measure type with an empty (dimensionless) decomposition.
pub fn anonymous_measure_type() -> (r: LemmaType)
    ensures
        spec_is_anonymous_measure(r),
        spec_measure_decomposition(r) == Some(Seq::<(Seq<char>, int)>::empty()),
        r.extends == TypeExtends::Primitive,
        r.measure_binding_unit is None,
{
    LemmaType::anonymous_for_decomposition(BaseMeasureVector::new())
}


/// The character sequences of borrowed texts.
pub open spec fn str_views(s: Seq<&str>) -> Seq<Seq<char>> {
    s.map_values(|x: &str| x@)
}

/// Index of the first `true` flag, or -1.
pub open spec fn first_true(flags: Seq<bool>) -> int
    decreases flags.len(),
{
    if flags.len() == 0 {
        -1
    } else if first_true(flags.drop_last()) >= 0 {
        first_true(flags.drop_last())
    } else if flags.last() {
        flags.len() - 1
    } else {
        -1
    }
}

pub open spec fn canonical_flags(units: Seq<MeasureUnit>) -> Seq<bool> {
    units.map_values(|u: MeasureUnit| u.factor.num() == 1 && u.factor.den() == 1)
}

proof fn lemma_first_true_prefix(flags: Seq<bool>, k: int)
    requires
        0 <= k <= flags.len(),
        first_true(flags.subrange(0, k)) >= 0,
    ensures
        first_true(flags) == first_true(flags.subrange(0, k)),
    decreases flags.len(),
{
    if k == flags.len() {
        assert(flags.subrange(0, k) =~= flags);
    } else {
        assert(flags.drop_last().subrange(0, k) =~= flags.subrange(0, k));
        lemma_first_true_prefix(flags.drop_last(), k);
    }
}

pub(crate) proof fn lemma_first_true_bounds(flags: Seq<bool>)
    ensures
        -1 <= first_true(flags) < flags.len(),
        first_true(flags) >= 0 ==> flags[first_true(flags)],
    decreases flags.len(),
{
    if flags.len() > 0 {
        lemma_first_true_bounds(flags.drop_last());
    }
}

pub(crate) fn first_canonical_unit(units: &MeasureUnits) -> (r: Option<usize>)
    ensures
        r is Some <==> first_true(canonical_flags(units.0@)) >= 0,
        r is Some ==> r->0 as int == first_true(canonical_flags(units.0@)),
{
    let ghost flags = canonical_flags(units.0@);
    let n = units.0.len();
    let mut i: usize = 0;
    proof {
        assert(flags.subrange(0, 0) =~= Seq::<bool>::empty());
    }
    while i < n
        invariant
            n == units.0@.len(),
            flags == canonical_flags(units.0@),
            i <= n,
            first_true(flags.subrange(0, i as int)) == -1,
        decreases n - i,
    {
        proof {
            assert(flags.subrange(0, i + 1).drop_last() =~= flags.subrange(0, i as int));
            assert(flags[i as int] == (units.0@[i as int].factor.num() == 1 && units.0@[i as int].factor.den() == 1));
        }
        if units.0[i].is_canonical_factor() {
            proof {
                lemma_first_true_prefix(flags, i + 1);
            }
            return Some(i);
        }
        i = i + 1;
    }
    proof {
        assert(flags.subrange(0, n as int) =~= flags);
    }
    None
}

/// Runtime signature of a measure unit table with its decomposition.
pub open spec fn spec_table_signature(units: Seq<MeasureUnit>, decomposition: Option<BaseMeasureVector>) -> SigView {
    let i = first_true(canonical_flags(units));
    if i >= 0 {
        seq![(units[i].name@, 1int)]
    } else if units.len() > 0 {
        seq![(units[0].name@, 1int)]
    } else {
        match decomposition {
            Some(d) => nonzero_entries(d@),
            None => Seq::empty(),
        }
    }
}

/// Runtime unit signature of a measure or measure-range type: the bound unit when
/// one is set, else the canonical unit, else the first declared unit, else the
/// decomposition (zero exponents dropped), else empty.
pub open spec fn spec_runtime_signature(t: LemmaType) -> SigView {
    match t.measure_binding_unit {
        Some(b) => seq![(b@, 1int)],
        None => match t.specifications {
            TypeSpecification::Measure { units, decomposition, .. } => spec_table_signature(units.0@, decomposition),
            TypeSpecification::MeasureRange { units, decomposition, .. } => spec_table_signature(units.0@, decomposition),
            _ => Seq::empty(),
        },
    }
}

fn table_signature(units: &MeasureUnits, decomposition: &Option<BaseMeasureVector>) -> (r: Vec<(String, i32)>)
    ensures
        sig_view(r@) == spec_table_signature(units.0@, *decomposition),
{
    proof {
        lemma_first_true_bounds(canonical_flags(units.0@));
    }
    match first_canonical_unit(units) {
        Some(i) => {
            let name = units.0[i].name.clone();
            let r = vec![(name, 1i32)];
            proof {
                assert(sig_view(r@) =~= seq![(units.0@[i as int].name@, 1int)]);
            }
            r
        },
        None => {
            if units.0.len() > 0 {
                let name = units.0[0].name.clone();
                let r = vec![(name, 1i32)];
                proof {
                    assert(sig_view(r@) =~= seq![(units.0@[0].name@, 1int)]);
                }
                r
            } else {
                match decomposition {
                    Some(d) => base_measure_vector_as_signature(d),
                    None => {
                        let r: Vec<(String, i32)> = Vec::new();
                        proof {
                            assert(sig_view(r@) =~= Seq::<(Seq<char>, int)>::empty());
                        }
                        r
                    },
                }
            }
        },
    }
}

/// Label shown for a data input: the parent type name for custom types, else the
/// type name (or the kind label when the name is the key itself).
pub open spec fn spec_input_type_label(t: LemmaType, key: Seq<char>) -> Seq<char> {
    match t.extends {
        TypeExtends::Custom { parent, .. } => parent@,
        TypeExtends::Primitive => if spec_name(t) == key {
            spec_type_label(t.specifications)
        } else {
            spec_name(t)
        },
    }
}

/// `key` alone when the type label adds nothing, else `key [label]`.
pub open spec fn spec_label_for_data_input(t: LemmaType, key: Seq<char>) -> Seq<char> {
    let label = spec_input_type_label(t, key);
    if label == key {
        key
    } else {
        key + " ["@ + label + "]"@
    }
}

/// The units of a measure or measure-range specification.
pub open spec fn spec_measure_units(s: TypeSpecification) -> Seq<MeasureUnit> {
    match s {
        TypeSpecification::Measure { units, .. } => units.0@,
        TypeSpecification::MeasureRange { units, .. } => units.0@,
        _ => Seq::empty(),
    }
}

/// The units of a ratio or ratio-range specification.
pub open spec fn spec_ratio_units(s: TypeSpecification) -> Seq<RatioUnit> {
    match s {
        TypeSpecification::Ratio { units, .. } => units.0@,
        TypeSpecification::RatioRange { units, .. } => units.0@,
        _ => Seq::empty(),
    }
}

fn measure_names<'a>(units: &'a MeasureUnits) -> (r: Vec<&'a str>)
    ensures
        str_views(r@) == measure_unit_names_of(units.0@),
{
    let mut out: Vec<&'a str> = Vec::new();
    let n = units.0.len();
    let mut i: usize = 0;
    while i < n
        invariant
            n == units.0@.len(),
            i <= n,
            str_views(out@) == measure_unit_names_of(units.0@).subrange(0, i as int),
        decreases n - i,
    {
        let ghost before = out@;
        out.push(units.0[i].name.as_str());
        proof {
            let target = measure_unit_names_of(units.0@).subrange(0, i + 1);
            assert(str_views(before).len() == i as int);
            assert(before.len() == i as int);
            assert(out@ =~= before.push(out@[i as int]));
            assert forall|j: int| 0 <= j < out@.len() implies #[trigger] str_views(out@)[j] == target[j] by {
                if j < i {
                    assert(out@[j] == before[j]);
                    assert(str_views(before)[j] == target[j]);
                }
            }
            assert(str_views(out@) =~= target);
        }
        i = i + 1;
    }
    proof {
        assert(measure_unit_names_of(units.0@).subrange(0, n as int) =~= measure_unit_names_of(units.0@));
    }
    out
}

fn ratio_names<'a>(units: &'a RatioUnits) -> (r: Vec<&'a str>)
    ensures
        str_views(r@) == ratio_unit_names_of(units.0@),
{
    let mut out: Vec<&'a str> = Vec::new();
    let n = units.0.len();
    let mut i: usize = 0;
    while i < n
        invariant
            n == units.0@.len(),
            i <= n,
            str_views(out@) == ratio_unit_names_of(units.0@).subrange(0, i as int),
        decreases n - i,
    {
        let ghost before = out@;
        out.push(units.0[i].name.as_str());
        proof {
            let target = ratio_unit_names_of(units.0@).subrange(0, i + 1);
            assert(str_views(before).len() == i as int);
            assert(before.len() == i as int);
            assert(out@ =~= before.push(out@[i as int]));
            assert forall|j: int| 0 <= j < out@.len() implies #[trigger] str_views(out@)[j] == target[j] by {
                if j < i {
                    assert(out@[j] == before[j]);
                    assert(str_views(before)[j] == target[j]);
                }
            }
            assert(str_views(out@) =~= target);
        }
        i = i + 1;
    }
    proof {
        assert(ratio_unit_names_of(units.0@).subrange(0, n as int) =~= ratio_unit_names_of(units.0@));
    }
    out
}

impl LemmaType {
    /// Example literal of this type's kind, for help text.
    pub fn example_value(&self) -> (r: &'static str)
        requires
            !(self.specifications is Undetermined),
        ensures
            r@ == (match self.specifications {
                TypeSpecification::Text { .. } => "\"hello world\""@,
                TypeSpecification::Measure { .. } => "12.50 eur"@,
                TypeSpecification::MeasureRange { .. } => "30 kilogram...35 kilogram"@,
                TypeSpecification::Number { .. } => "3.14"@,
                TypeSpecification::NumberRange { .. } => "0...100"@,
                TypeSpecification::Boolean { .. } => "true"@,
                TypeSpecification::Date { .. } => "2023-12-25T14:30:00Z"@,
                TypeSpecification::DateRange { .. } => "2024-01-01...2024-12-31"@,
                TypeSpecification::TimeRange { .. } => "09:00...17:00"@,
                TypeSpecification::Veto { .. } => "veto"@,
                TypeSpecification::Time { .. } => "14:30:00"@,
                TypeSpecification::Ratio { .. } => "50%"@,
                TypeSpecification::RatioRange { .. } => "10%...50%"@,
                TypeSpecification::Undetermined => Seq::empty(),
            }),
    {
        match &self.specifications {
            TypeSpecification::Text { .. } => "\"hello world\"",
            TypeSpecification::Measure { .. } => "12.50 eur",
            TypeSpecification::MeasureRange { .. } => "30 kilogram...35 kilogram",
            TypeSpecification::Number { .. } => "3.14",
            TypeSpecification::NumberRange { .. } => "0...100",
            TypeSpecification::Boolean { .. } => "true",
            TypeSpecification::Date { .. } => "2023-12-25T14:30:00Z",
            TypeSpecification::DateRange { .. } => "2024-01-01...2024-12-31",
            TypeSpecification::TimeRange { .. } => "09:00...17:00",
            TypeSpecification::Veto { .. } => "veto",
            TypeSpecification::Time { .. } => "14:30:00",
            TypeSpecification::Ratio { .. } => "50%",
            TypeSpecification::RatioRange { .. } => "10%...50%",
            TypeSpecification::Undetermined => "",
        }
    }

    /// Runtime unit signature for measure arithmetic and display.
    pub fn measure_runtime_signature(&self) -> (r: Vec<(String, i32)>)
        requires
            self.measure_binding_unit is Some || self.specifications is Measure
                || self.specifications is MeasureRange,
        ensures
            sig_view(r@) == spec_runtime_signature(*self),
    {
        if let Some(binding) = &self.measure_binding_unit {
            let r = vec![(binding.clone(), 1i32)];
            proof {
                assert(sig_view(r@) =~= seq![(binding@, 1int)]);
            }
            return r;
        }
        match &self.specifications {
            TypeSpecification::Measure { units, decomposition, .. } => table_signature(units, decomposition),
            TypeSpecification::MeasureRange { units, decomposition, .. } => table_signature(units, decomposition),
            _ => Vec::new(),
        }
    }

    /// First declared ratio unit of a ratio or ratio-range type with units.
    pub fn ratio_primary_unit(&self) -> (r: Option<&str>)
        ensures
            (self.specifications is Ratio || self.specifications is RatioRange)
                && spec_ratio_units(self.specifications).len() > 0 ==> r is Some && r->0@
                == spec_ratio_units(self.specifications)[0].name@,
            !((self.specifications is Ratio || self.specifications is RatioRange)
                && spec_ratio_units(self.specifications).len() > 0) ==> r is None,
    {
        match &self.specifications {
            TypeSpecification::Ratio { units, .. } => if units.0.len() > 0 {
                Some(units.0[0].name.as_str())
            } else {
                None
            },
            TypeSpecification::RatioRange { units, .. } => if units.0.len() > 0 {
                Some(units.0[0].name.as_str())
            } else {
                None
            },
            _ => None,
        }
    }

    /// Declared ratio unit names when the type carries a non-empty ratio unit table.
    pub fn ratio_unit_names(&self) -> (r: Option<Vec<&str>>)
        ensures
            r is Some <==> ((self.specifications is Ratio || self.specifications is RatioRange)
                && spec_ratio_units(self.specifications).len() > 0),
            r is Some ==> str_views(r->0@) == ratio_unit_names_of(spec_ratio_units(self.specifications)),
    {
        match &self.specifications {
            TypeSpecification::Ratio { units, .. } => if units.0.len() > 0 {
                Some(ratio_names(units))
            } else {
                None
            },
            TypeSpecification::RatioRange { units, .. } => if units.0.len() > 0 {
                Some(ratio_names(units))
            } else {
                None
            },
            _ => None,
        }
    }

    /// Declared measure unit names when the type carries a non-empty unit table.
    pub fn measure_unit_names(&self) -> (r: Option<Vec<&str>>)
        ensures
            r is Some <==> ((self.specifications is Measure || self.specifications is MeasureRange)
                && spec_measure_units(self.specifications).len() > 0),
            r is Some ==> str_views(r->0@) == measure_unit_names_of(spec_measure_units(self.specifications)),
    {
        match &self.specifications {
            TypeSpecification::Measure { units, .. } => if units.0.len() > 0 {
                Some(measure_names(units))
            } else {
                None
            },
            TypeSpecification::MeasureRange { units, .. } => if units.0.len() > 0 {
                Some(measure_names(units))
            } else {
                None
            },
            _ => None,
        }
    }

    /// `key` or `key [label]` for a data input.
    pub fn label_for_data_input(&self, input_key: &str) -> (r: String)
        ensures
            r@ == spec_label_for_data_input(*self, input_key@),
    {
        let label: String = match self.extends.parent_name() {
            Some(parent) => String::from_str(parent),
            None => {
                let own_name = self.name();
                if compare_text(own_name.as_str(), input_key) == 0 {
                    String::from_str(type_label(&self.specifications))
                } else {
                    own_name
                }
            },
        };
        if compare_text(label.as_str(), input_key) == 0 {
            String::from_str(input_key)
        } else {
            let mut out = String::from_str(input_key);
            out.append(" [");
            out.append(label.as_str());
            out.append("]");
            out
        }
    }

    /// `Data <label>: <detail>` for a runtime data veto.
    pub fn data_veto_message(&self, input_key: &str, detail: &str) -> (r: String)
        ensures
            r@ == "Data "@ + spec_label_for_data_input(*self, input_key@) + ": "@ + detail@,
    {
        let mut out = String::from_str("Data ");
        let label = self.label_for_data_input(input_key);
        out.append(label.as_str());
        out.append(": ");
        out.append(detail);
        out
    }

    /// Factor of a declared unit of this measure type (the first unit of that name).
    pub fn measure_unit_factor(&self, unit_name: &str) -> (r: &RationalInteger)
        requires
            self.specifications is Measure || self.specifications is MeasureRange,
            first_named(measure_unit_names_of(spec_measure_units(self.specifications)), unit_name@) >= 0,
        ensures
            *r == spec_measure_units(self.specifications)[first_named(
                measure_unit_names_of(spec_measure_units(self.specifications)),
                unit_name@,
            )].factor,
    {
        let units = match &self.specifications {
            TypeSpecification::Measure { units, .. } => units,
            TypeSpecification::MeasureRange { units, .. } => units,
            _ => vstd::pervasive::unreached(),
        };
        match units.get(unit_name) {
            Some(u) => &u.factor,
            None => vstd::pervasive::unreached(),
        }
    }
}


/// Whether a type declares a measure unit of the given name.
pub open spec fn declares_measure_unit(t: LemmaType, name: Seq<char>) -> bool {
    first_named(measure_unit_names_of(spec_measure_units(t.specifications)), name) >= 0
}

/// Whether a type declares a ratio unit of the given name.
pub open spec fn declares_ratio_unit(t: LemmaType, name: Seq<char>) -> bool {
    first_named(ratio_unit_names_of(spec_ratio_units(t.specifications)), name) >= 0
}

/// Factor of the first measure unit of that name on a type.
pub open spec fn spec_measure_unit_factor(t: LemmaType, name: Seq<char>) -> RationalInteger {
    spec_measure_units(t.specifications)[first_named(measure_unit_names_of(spec_measure_units(t.specifications)), name)].factor
}

impl LemmaType {
    /// Whether this measure (or measure range) type declares a unit of that name.
    pub fn declares_measure_unit(&self, unit_name: &str) -> (b: bool)
        ensures
            b == declares_measure_unit(*self, unit_name@),
    {
        match &self.specifications {
            TypeSpecification::Measure { units, .. } => units.position(unit_name).is_some(),
            TypeSpecification::MeasureRange { units, .. } => units.position(unit_name).is_some(),
            _ => false,
        }
    }

    /// Whether this ratio (or ratio range) type declares a unit of that name.
    pub fn declares_ratio_unit(&self, unit_name: &str) -> (b: bool)
        ensures
            b == declares_ratio_unit(*self, unit_name@),
    {
        match &self.specifications {
            TypeSpecification::Ratio { units, .. } => units.position(unit_name).is_some(),
            TypeSpecification::RatioRange { units, .. } => units.position(unit_name).is_some(),
            _ => false,
        }
    }

    /// Value of a declared unit of this ratio type (the first unit of that name).
    pub fn ratio_unit_factor(&self, unit_name: &str) -> (r: &RationalInteger)
        requires
            self.specifications is Ratio,
            first_named(ratio_unit_names_of(spec_ratio_units(self.specifications)), unit_name@) >= 0,
        ensures
            *r == spec_ratio_units(self.specifications)[first_named(
                ratio_unit_names_of(spec_ratio_units(self.specifications)),
                unit_name@,
            )].value,
    {
        let units = match &self.specifications {
            TypeSpecification::Ratio { units, .. } => units,
            _ => vstd::pervasive::unreached(),
        };
        match units.get(unit_name) {
            Some(u) => &u.value,
            None => vstd::pervasive::unreached(),
        }
    }
}

/// Whether a specification is of a primitive kind (the seven scalar kinds only).
pub open spec fn spec_matches_kind(s: TypeSpecification, kind: PrimitiveKind) -> bool {
    match (kind, s) {
        (PrimitiveKind::Number, TypeSpecification::Number { .. }) => true,
        (PrimitiveKind::Text, TypeSpecification::Text { .. }) => true,
        (PrimitiveKind::Boolean, TypeSpecification::Boolean { .. }) => true,
        (PrimitiveKind::Date, TypeSpecification::Date { .. }) => true,
        (PrimitiveKind::Time, TypeSpecification::Time { .. }) => true,
        (PrimitiveKind::Ratio, TypeSpecification::Ratio { .. }) => true,
        (PrimitiveKind::Measure, TypeSpecification::Measure { .. }) => true,
        _ => false,
    }
}

impl LemmaType {
    /// Whether this type is of the given scalar primitive kind.
    pub fn matches_primitive_kind(&self, kind: PrimitiveKind) -> (b: bool)
        ensures
            b == spec_matches_kind(self.specifications, kind),
    {
        match (kind, &self.specifications) {
            (PrimitiveKind::Number, TypeSpecification::Number { .. }) => true,
            (PrimitiveKind::Text, TypeSpecification::Text { .. }) => true,
            (PrimitiveKind::Boolean, TypeSpecification::Boolean { .. }) => true,
            (PrimitiveKind::Date, TypeSpecification::Date { .. }) => true,
            (PrimitiveKind::Time, TypeSpecification::Time { .. }) => true,
            (PrimitiveKind::Ratio, TypeSpecification::Ratio { .. }) => true,
            (PrimitiveKind::Measure, TypeSpecification::Measure { .. }) => true,
            _ => false,
        }
    }
}

} // verus!
