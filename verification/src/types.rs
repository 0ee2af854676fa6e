//! Resolved types: the shape of a type specification, what a type extends, and the
//! classification predicates the planner asks of a [`LemmaType`].

use vstd::prelude::*;
use vstd::string::StringExecFns;
use crate::rational::RationalInteger;
use crate::temporal::{SemanticDateTime, SemanticTime};
use crate::equality::{decomposition_eq, measure_units_eq};
use crate::units::{BaseMeasureVector, MeasureTrait, MeasureUnits, RatioUnit, RatioUnits};

verus! {

/// Built-in primitive kinds of the language.
#[derive(Debug, Clone, Copy, PartialEq, Eq, Hash, Structural)]
pub enum PrimitiveKind {
    Boolean,
    Number,
    NumberRange,
    Text,
    Measure,
    MeasureRange,
    Ratio,
    RatioRange,
    Date,
    DateRange,
    Time,
    TimeRange,
}

/// Shape of a resolved type, with its constraints.
#[derive(Debug, Clone, PartialEq, Eq, Hash)]
pub enum TypeSpecification {
    Boolean {
        help: String,
    },
    Measure {
        minimum: Option<(RationalInteger, String)>,
        maximum: Option<(RationalInteger, String)>,
        decimals: Option<u8>,
        units: MeasureUnits,
        traits: Vec<MeasureTrait>,
        decomposition: Option<BaseMeasureVector>,
        help: String,
    },
    Number {
        minimum: Option<RationalInteger>,
        maximum: Option<RationalInteger>,
        decimals: Option<u8>,
        help: String,
    },
    NumberRange {
        lower: Option<RationalInteger>,
        upper: Option<RationalInteger>,
        minimum: Option<RationalInteger>,
        maximum: Option<RationalInteger>,
        help: String,
    },
    Ratio {
        minimum: Option<RationalInteger>,
        maximum: Option<RationalInteger>,
        decimals: Option<u8>,
        units: RatioUnits,
        help: String,
    },
    RatioRange {
        lower: Option<RationalInteger>,
        upper: Option<RationalInteger>,
        minimum: Option<RationalInteger>,
        maximum: Option<RationalInteger>,
        units: RatioUnits,
        help: String,
    },
    Text {
        length: Option<usize>,
        options: Vec<String>,
        help: String,
    },
    Date {
        minimum: Option<SemanticDateTime>,
        maximum: Option<SemanticDateTime>,
        help: String,
    },
    DateRange {
        lower: Option<SemanticDateTime>,
        upper: Option<SemanticDateTime>,
        minimum: Option<(RationalInteger, String)>,
        maximum: Option<(RationalInteger, String)>,
        help: String,
    },
    Time {
        minimum: Option<SemanticTime>,
        maximum: Option<SemanticTime>,
        help: String,
    },
    TimeRange {
        lower: Option<SemanticTime>,
        upper: Option<SemanticTime>,
        minimum: Option<(RationalInteger, String)>,
        maximum: Option<(RationalInteger, String)>,
        help: String,
    },
    MeasureRange {
        lower: Option<(RationalInteger, String)>,
        upper: Option<(RationalInteger, String)>,
        minimum: Option<(RationalInteger, String)>,
        maximum: Option<(RationalInteger, String)>,
        units: MeasureUnits,
        decomposition: Option<BaseMeasureVector>,
        help: String,
    },
    Veto {
        message: Option<String>,
    },
    /// Sentinel for a type that inference could not determine.
    Undetermined,
}

/// Display label of a specification kind.
pub open spec fn spec_type_label(s: TypeSpecification) -> Seq<char> {
    match s {
        TypeSpecification::Boolean { .. } => "boolean"@,
        TypeSpecification::Measure { .. } => "measure"@,
        TypeSpecification::MeasureRange { .. } => "measure range"@,
        TypeSpecification::Number { .. } => "number"@,
        TypeSpecification::NumberRange { .. } => "number range"@,
        TypeSpecification::Text { .. } => "text"@,
        TypeSpecification::Date { .. } => "date"@,
        TypeSpecification::DateRange { .. } => "date range"@,
        TypeSpecification::Time { .. } => "time"@,
        TypeSpecification::TimeRange { .. } => "time range"@,
        TypeSpecification::Ratio { .. } => "ratio"@,
        TypeSpecification::RatioRange { .. } => "ratio range"@,
        TypeSpecification::Veto { .. } => "veto"@,
        TypeSpecification::Undetermined => "undetermined"@,
    }
}

/// Help text of a specification (empty for veto and undetermined).
pub open spec fn spec_help(s: TypeSpecification) -> Seq<char> {
    match s {
        TypeSpecification::Boolean { help } => help@,
        TypeSpecification::Measure { help, .. } => help@,
        TypeSpecification::Number { help, .. } => help@,
        TypeSpecification::NumberRange { help, .. } => help@,
        TypeSpecification::Text { help, .. } => help@,
        TypeSpecification::Date { help, .. } => help@,
        TypeSpecification::DateRange { help, .. } => help@,
        TypeSpecification::Time { help, .. } => help@,
        TypeSpecification::TimeRange { help, .. } => help@,
        TypeSpecification::Ratio { help, .. } => help@,
        TypeSpecification::RatioRange { help, .. } => help@,
        TypeSpecification::MeasureRange { help, .. } => help@,
        TypeSpecification::Veto { .. } => Seq::empty(),
        TypeSpecification::Undetermined => Seq::empty(),
    }
}

/// Label of a specification kind (`number`, `measure range`, ...).
pub fn type_label(s: &TypeSpecification) -> (r: &'static str)
    ensures
        r@ == spec_type_label(*s),
{
    match s {
        TypeSpecification::Boolean { .. } => "boolean",
        TypeSpecification::Measure { .. } => "measure",
        TypeSpecification::MeasureRange { .. } => "measure range",
        TypeSpecification::Number { .. } => "number",
        TypeSpecification::NumberRange { .. } => "number range",
        TypeSpecification::Text { .. } => "text",
        TypeSpecification::Date { .. } => "date",
        TypeSpecification::DateRange { .. } => "date range",
        TypeSpecification::Time { .. } => "time",
        TypeSpecification::TimeRange { .. } => "time range",
        TypeSpecification::Ratio { .. } => "ratio",
        TypeSpecification::RatioRange { .. } => "ratio range",
        TypeSpecification::Veto { .. } => "veto",
        TypeSpecification::Undetermined => "undetermined",
    }
}

/// Default help text of a built-in primitive.
pub open spec fn spec_default_help(kind: PrimitiveKind) -> Seq<char> {
    match kind {
        PrimitiveKind::Boolean => "Whether this holds (true or false)."@,
        PrimitiveKind::Number => "A dimensionless number."@,
        PrimitiveKind::NumberRange => "The lower and upper bound of the number range."@,
        PrimitiveKind::Text => "A text value."@,
        PrimitiveKind::Measure => "A numeric amount in one of this type's units."@,
        PrimitiveKind::MeasureRange => "The lower and upper bound of the measure range in the same unit."@,
        PrimitiveKind::Ratio => "A ratio in one of this type's units (e.g. percent)."@,
        PrimitiveKind::RatioRange => "The lower and upper bound of the ratio range."@,
        PrimitiveKind::Date => "A date, or a date and time with optional timezone."@,
        PrimitiveKind::DateRange => "The start date and end date of the date range."@,
        PrimitiveKind::Time => "A time of day, with optional timezone."@,
        PrimitiveKind::TimeRange => "The start time and end time of the time range."@,
    }
}

/// Default help text of a built-in primitive.
pub fn default_help_for_primitive(kind: PrimitiveKind) -> (r: &'static str)
    ensures
        r@ == spec_default_help(kind),
{
    match kind {
        PrimitiveKind::Boolean => "Whether this holds (true or false).",
        PrimitiveKind::Number => "A dimensionless number.",
        PrimitiveKind::NumberRange => "The lower and upper bound of the number range.",
        PrimitiveKind::Text => "A text value.",
        PrimitiveKind::Measure => "A numeric amount in one of this type's units.",
        PrimitiveKind::MeasureRange => "The lower and upper bound of the measure range in the same unit.",
        PrimitiveKind::Ratio => "A ratio in one of this type's units (e.g. percent).",
        PrimitiveKind::RatioRange => "The lower and upper bound of the ratio range.",
        PrimitiveKind::Date => "A date, or a date and time with optional timezone.",
        PrimitiveKind::DateRange => "The start date and end date of the date range.",
        PrimitiveKind::Time => "A time of day, with optional timezone.",
        PrimitiveKind::TimeRange => "The start time and end time of the time range.",
    }
}

/// `percent` (value 100) then `permille` (value 1000), without bounds or suggestions.
pub open spec fn spec_default_ratio_units(units: Seq<RatioUnit>) -> bool {
    &&& units.len() == 2
    &&& units[0].name@ == "percent"@ && units[0].value.num() == 100 * units[0].value.den()
    &&& units[1].name@ == "permille"@ && units[1].value.num() == 1000 * units[1].value.den()
    &&& forall|i: int| 0 <= i < 2 ==> #[trigger] units[i].minimum is None && units[i].maximum is None
        && units[i].suggestion_magnitude is None
}

fn default_ratio_units() -> (r: RatioUnits)
    ensures
        spec_default_ratio_units(r.0@),
{
    let mut v: Vec<RatioUnit> = Vec::new();
    v.push(RatioUnit {
        name: String::from_str("percent"),
        value: crate::rational::rational_new(100, 1),
        minimum: None,
        maximum: None,
        suggestion_magnitude: None,
    });
    v.push(RatioUnit {
        name: String::from_str("permille"),
        value: crate::rational::rational_new(1000, 1),
        minimum: None,
        maximum: None,
        suggestion_magnitude: None,
    });
    RatioUnits(v)
}

impl TypeSpecification {
    /// The help text, or an empty text for veto and undetermined.
    pub fn help(&self) -> (r: &str)
        ensures
            r@ == spec_help(*self),
    {
        proof {
            reveal_strlit("");
        }
        match self {
            TypeSpecification::Boolean { help, .. } => help.as_str(),
            TypeSpecification::Measure { help, .. } => help.as_str(),
            TypeSpecification::Number { help, .. } => help.as_str(),
            TypeSpecification::NumberRange { help, .. } => help.as_str(),
            TypeSpecification::Text { help, .. } => help.as_str(),
            TypeSpecification::Date { help, .. } => help.as_str(),
            TypeSpecification::DateRange { help, .. } => help.as_str(),
            TypeSpecification::Time { help, .. } => help.as_str(),
            TypeSpecification::TimeRange { help, .. } => help.as_str(),
            TypeSpecification::Ratio { help, .. } => help.as_str(),
            TypeSpecification::RatioRange { help, .. } => help.as_str(),
            TypeSpecification::MeasureRange { help, .. } => help.as_str(),
            TypeSpecification::Veto { .. } => "",
            TypeSpecification::Undetermined => "",
        }
    }

    /// The veto specification without a message.
    pub fn veto() -> (r: TypeSpecification)
        ensures
            r == (TypeSpecification::Veto { message: None }),
    {
        TypeSpecification::Veto { message: None }
    }

    /// Plain boolean.
    pub fn boolean() -> (r: TypeSpecification)
        ensures
            r matches TypeSpecification::Boolean { help } && help@ == spec_default_help(PrimitiveKind::Boolean),
    {
        TypeSpecification::Boolean { help: String::from_str(default_help_for_primitive(PrimitiveKind::Boolean)) }
    }

    /// Plain number.
    pub fn number() -> (r: TypeSpecification)
        ensures
            r matches TypeSpecification::Number { minimum, maximum, decimals, help } && minimum is None
                && maximum is None && decimals is None && help@ == spec_default_help(PrimitiveKind::Number),
    {
        TypeSpecification::Number {
            minimum: None,
            maximum: None,
            decimals: None,
            help: String::from_str(default_help_for_primitive(PrimitiveKind::Number)),
        }
    }

    /// Plain measure without units.
    pub fn measure() -> (r: TypeSpecification)
        ensures
            r matches TypeSpecification::Measure { minimum, maximum, decimals, units, traits, decomposition, help }
                && minimum is None && maximum is None && decimals is None && units.0@.len() == 0
                && traits@.len() == 0 && decomposition is None && help@ == spec_default_help(PrimitiveKind::Measure),
    {
        TypeSpecification::Measure {
            minimum: None,
            maximum: None,
            decimals: None,
            units: MeasureUnits::new(),
            traits: Vec::new(),
            decomposition: None,
            help: String::from_str(default_help_for_primitive(PrimitiveKind::Measure)),
        }
    }

    /// Plain text.
    pub fn text() -> (r: TypeSpecification)
        ensures
            r matches TypeSpecification::Text { length, options, help } && length is None
                && options@.len() == 0 && help@ == spec_default_help(PrimitiveKind::Text),
    {
        TypeSpecification::Text {
            length: None,
            options: Vec::new(),
            help: String::from_str(default_help_for_primitive(PrimitiveKind::Text)),
        }
    }

    /// Plain date.
    pub fn date() -> (r: TypeSpecification)
        ensures
            r matches TypeSpecification::Date { minimum, maximum, help } && minimum is None
                && maximum is None && help@ == spec_default_help(PrimitiveKind::Date),
    {
        TypeSpecification::Date {
            minimum: None,
            maximum: None,
            help: String::from_str(default_help_for_primitive(PrimitiveKind::Date)),
        }
    }

    /// Plain time.
    pub fn time() -> (r: TypeSpecification)
        ensures
            r matches TypeSpecification::Time { minimum, maximum, help } && minimum is None
                && maximum is None && help@ == spec_default_help(PrimitiveKind::Time),
    {
        TypeSpecification::Time {
            minimum: None,
            maximum: None,
            help: String::from_str(default_help_for_primitive(PrimitiveKind::Time)),
        }
    }

    /// Plain number range.
    pub fn number_range() -> (r: TypeSpecification)
        ensures
            r matches TypeSpecification::NumberRange { lower, upper, minimum, maximum, help }
                && lower is None && upper is None && minimum is None && maximum is None
                && help@ == spec_default_help(PrimitiveKind::NumberRange),
    {
        TypeSpecification::NumberRange {
            lower: None,
            upper: None,
            minimum: None,
            maximum: None,
            help: String::from_str(default_help_for_primitive(PrimitiveKind::NumberRange)),
        }
    }

    /// Plain date range.
    pub fn date_range() -> (r: TypeSpecification)
        ensures
            r matches TypeSpecification::DateRange { lower, upper, minimum, maximum, help }
                && lower is None && upper is None && minimum is None && maximum is None
                && help@ == spec_default_help(PrimitiveKind::DateRange),
    {
        TypeSpecification::DateRange {
            lower: None,
            upper: None,
            minimum: None,
            maximum: None,
            help: String::from_str(default_help_for_primitive(PrimitiveKind::DateRange)),
        }
    }

    /// Plain time range.
    pub fn time_range() -> (r: TypeSpecification)
        ensures
            r matches TypeSpecification::TimeRange { lower, upper, minimum, maximum, help }
                && lower is None && upper is None && minimum is None && maximum is None
                && help@ == spec_default_help(PrimitiveKind::TimeRange),
    {
        TypeSpecification::TimeRange {
            lower: None,
            upper: None,
            minimum: None,
            maximum: None,
            help: String::from_str(default_help_for_primitive(PrimitiveKind::TimeRange)),
        }
    }

    /// Plain ratio with the `percent` (100 per whole) and `permille` (1000 per whole) units.
    pub fn ratio() -> (r: TypeSpecification)
        ensures
            r matches TypeSpecification::Ratio { minimum, maximum, decimals, units, help }
                && minimum is None && maximum is None && decimals is None
                && spec_default_ratio_units(units.0@)
                && help@ == spec_default_help(PrimitiveKind::Ratio),
    {
        TypeSpecification::Ratio {
            minimum: None,
            maximum: None,
            decimals: None,
            units: default_ratio_units(),
            help: String::from_str(default_help_for_primitive(PrimitiveKind::Ratio)),
        }
    }

    /// Plain ratio range with the default ratio units.
    pub fn ratio_range() -> (r: TypeSpecification)
        ensures
            r matches TypeSpecification::RatioRange { lower, upper, minimum, maximum, units, help }
                && lower is None && upper is None && minimum is None && maximum is None
                && spec_default_ratio_units(units.0@)
                && help@ == spec_default_help(PrimitiveKind::RatioRange),
    {
        TypeSpecification::RatioRange {
            lower: None,
            upper: None,
            minimum: None,
            maximum: None,
            units: default_ratio_units(),
            help: String::from_str(default_help_for_primitive(PrimitiveKind::RatioRange)),
        }
    }

    /// Plain measure range without units.
    pub fn measure_range() -> (r: TypeSpecification)
        ensures
            r matches TypeSpecification::MeasureRange { lower, upper, minimum, maximum, units, decomposition, help }
                && lower is None && upper is None && minimum is None && maximum is None
                && units.0@.len() == 0 && decomposition is None
                && help@ == spec_default_help(PrimitiveKind::MeasureRange),
    {
        TypeSpecification::MeasureRange {
            lower: None,
            upper: None,
            minimum: None,
            maximum: None,
            units: MeasureUnits::new(),
            decomposition: None,
            help: String::from_str(default_help_for_primitive(PrimitiveKind::MeasureRange)),
        }
    }
}

/// The plain specification of a primitive kind: no bounds, widths, decimals or traits,
/// no units but the ratio kinds' `percent` and `permille`, and the kind's default help.
pub open spec fn is_plain_primitive(kind: PrimitiveKind, r: TypeSpecification) -> bool {
    match kind {
        PrimitiveKind::Boolean => r matches TypeSpecification::Boolean { help } && help@ == spec_default_help(kind),
        PrimitiveKind::Number => r matches TypeSpecification::Number { minimum, maximum, decimals, help }
            && minimum is None && maximum is None && decimals is None && help@ == spec_default_help(kind),
        PrimitiveKind::Measure => r matches TypeSpecification::Measure {
            minimum,
            maximum,
            decimals,
            units,
            traits,
            decomposition,
            help,
        } && minimum is None && maximum is None && decimals is None && units.0@.len() == 0 && traits@.len() == 0
            && decomposition is None && help@ == spec_default_help(kind),
        PrimitiveKind::Text => r matches TypeSpecification::Text { length, options, help } && length is None
            && options@.len() == 0 && help@ == spec_default_help(kind),
        PrimitiveKind::Date => r matches TypeSpecification::Date { minimum, maximum, help } && minimum is None
            && maximum is None && help@ == spec_default_help(kind),
        PrimitiveKind::Time => r matches TypeSpecification::Time { minimum, maximum, help } && minimum is None
            && maximum is None && help@ == spec_default_help(kind),
        PrimitiveKind::NumberRange => r matches TypeSpecification::NumberRange { lower, upper, minimum, maximum, help }
            && lower is None && upper is None && minimum is None && maximum is None && help@ == spec_default_help(
            kind,
        ),
        PrimitiveKind::DateRange => r matches TypeSpecification::DateRange { lower, upper, minimum, maximum, help }
            && lower is None && upper is None && minimum is None && maximum is None && help@ == spec_default_help(
            kind,
        ),
        PrimitiveKind::TimeRange => r matches TypeSpecification::TimeRange { lower, upper, minimum, maximum, help }
            && lower is None && upper is None && minimum is None && maximum is None && help@ == spec_default_help(
            kind,
        ),
        PrimitiveKind::Ratio => r matches TypeSpecification::Ratio { minimum, maximum, decimals, units, help }
            && minimum is None && maximum is None && decimals is None && spec_default_ratio_units(units.0@)
            && help@ == spec_default_help(kind),
        PrimitiveKind::RatioRange => r matches TypeSpecification::RatioRange {
            lower,
            upper,
            minimum,
            maximum,
            units,
            help,
        } && lower is None && upper is None && minimum is None && maximum is None && spec_default_ratio_units(
            units.0@,
        ) && help@ == spec_default_help(kind),
        PrimitiveKind::MeasureRange => r matches TypeSpecification::MeasureRange {
            lower,
            upper,
            minimum,
            maximum,
            units,
            decomposition,
            help,
        } && lower is None && upper is None && minimum is None && maximum is None && units.0@.len() == 0
            && decomposition is None && help@ == spec_default_help(kind),
    }
}

/// The plain specification of a primitive kind.
pub fn type_spec_for_primitive(kind: PrimitiveKind) -> (r: TypeSpecification)
    ensures
        is_plain_primitive(kind, r),
{
    match kind {
        PrimitiveKind::Boolean => TypeSpecification::boolean(),
        PrimitiveKind::Measure => TypeSpecification::measure(),
        PrimitiveKind::MeasureRange => TypeSpecification::measure_range(),
        PrimitiveKind::Number => TypeSpecification::number(),
        PrimitiveKind::NumberRange => TypeSpecification::number_range(),
        PrimitiveKind::Ratio => TypeSpecification::ratio(),
        PrimitiveKind::RatioRange => TypeSpecification::ratio_range(),
        PrimitiveKind::Text => TypeSpecification::text(),
        PrimitiveKind::Date => TypeSpecification::date(),
        PrimitiveKind::DateRange => TypeSpecification::date_range(),
        PrimitiveKind::Time => TypeSpecification::time(),
        PrimitiveKind::TimeRange => TypeSpecification::time_range(),
    }
}

/// An exact copy of an optional bound written in a unit.
pub fn copy_bound(b: &Option<(RationalInteger, String)>) -> (r: Option<(RationalInteger, String)>)
    ensures
        r == *b,
{
    match b {
        Some(x) => Some((x.0, x.1.clone())),
        None => None,
    }
}

/// The range specification built from an element specification.
pub open spec fn spec_range_of_element(s: TypeSpecification, r: Option<TypeSpecification>) -> bool {
    match s {
        TypeSpecification::Number { minimum, maximum, .. } => r matches Some(
            TypeSpecification::NumberRange { lower, upper, minimum: wmin, maximum: wmax, help },
        ) && lower == minimum && upper == maximum && wmin is None && wmax is None
            && help@ == spec_default_help(PrimitiveKind::NumberRange),
        TypeSpecification::Measure { minimum, maximum, units, decomposition, .. } => r matches Some(
            TypeSpecification::MeasureRange { lower, upper, minimum: wmin, maximum: wmax, units: u2, decomposition: d2, help },
        ) && lower == minimum && upper == maximum && wmin is None && wmax is None
            && measure_units_eq(u2.0@, units.0@) && decomposition_eq(d2, decomposition)
            && help@ == spec_default_help(PrimitiveKind::MeasureRange),
        TypeSpecification::Date { minimum, maximum, .. } => r matches Some(
            TypeSpecification::DateRange { lower, upper, minimum: wmin, maximum: wmax, help },
        ) && lower == minimum && upper == maximum && wmin is None && wmax is None
            && help@ == spec_default_help(PrimitiveKind::DateRange),
        TypeSpecification::Time { minimum, maximum, .. } => r matches Some(
            TypeSpecification::TimeRange { lower, upper, minimum: wmin, maximum: wmax, help },
        ) && lower == minimum && upper == maximum && wmin is None && wmax is None
            && help@ == spec_default_help(PrimitiveKind::TimeRange),
        TypeSpecification::Ratio { minimum, maximum, units, .. } => r matches Some(
            TypeSpecification::RatioRange { lower, upper, minimum: wmin, maximum: wmax, units: u2, help },
        ) && lower == minimum && upper == maximum && wmin is None && wmax is None
            && u2.0@ == units.0@ && help@ == spec_default_help(PrimitiveKind::RatioRange),
        _ => r is None,
    }
}

/// The element specification taken from a range specification.
pub open spec fn spec_element_of_range(s: TypeSpecification, r: Option<TypeSpecification>) -> bool {
    match s {
        TypeSpecification::NumberRange { lower, upper, .. } => r matches Some(
            TypeSpecification::Number { minimum, maximum, decimals, help },
        ) && minimum == lower && maximum == upper && decimals is None && help@.len() == 0,
        TypeSpecification::MeasureRange { lower, upper, units, decomposition, .. } => r matches Some(
            TypeSpecification::Measure { minimum, maximum, decimals, units: u2, traits, decomposition: d2, help },
        ) && minimum == lower && maximum == upper && decimals is None
            && measure_units_eq(u2.0@, units.0@) && traits@.len() == 0 && decomposition_eq(d2, decomposition)
            && help@.len() == 0,
        TypeSpecification::DateRange { lower, upper, .. } => r matches Some(
            TypeSpecification::Date { minimum, maximum, help },
        ) && minimum == lower && maximum == upper && help@.len() == 0,
        TypeSpecification::TimeRange { lower, upper, .. } => r matches Some(
            TypeSpecification::Time { minimum, maximum, help },
        ) && minimum == lower && maximum == upper && help@.len() == 0,
        TypeSpecification::RatioRange { lower, upper, units, .. } => r matches Some(
            TypeSpecification::Ratio { minimum, maximum, decimals, units: u2, help },
        ) && minimum == lower && maximum == upper && decimals is None && u2.0@ == units.0@
            && help@.len() == 0,
        _ => r is None,
    }
}

impl TypeSpecification {
    /// Range specification for an element specification: the element's bounds become
    /// the range endpoints; no width bounds; default range help.
    pub fn range_from_element(&self) -> (r: Option<TypeSpecification>)
        ensures
            spec_range_of_element(*self, r),
    {
        match self {
            TypeSpecification::Number { minimum, maximum, .. } => Some(TypeSpecification::NumberRange {
                lower: *minimum,
                upper: *maximum,
                minimum: None,
                maximum: None,
                help: String::from_str(default_help_for_primitive(PrimitiveKind::NumberRange)),
            }),
            TypeSpecification::Measure { minimum, maximum, units, decomposition, .. } => Some(TypeSpecification::MeasureRange {
                lower: copy_bound(minimum),
                upper: copy_bound(maximum),
                minimum: None,
                maximum: None,
                units: units.clone(),
                decomposition: decomposition.clone(),
                help: String::from_str(default_help_for_primitive(PrimitiveKind::MeasureRange)),
            }),
            TypeSpecification::Date { minimum, maximum, .. } => Some(TypeSpecification::DateRange {
                lower: *minimum,
                upper: *maximum,
                minimum: None,
                maximum: None,
                help: String::from_str(default_help_for_primitive(PrimitiveKind::DateRange)),
            }),
            TypeSpecification::Time { minimum, maximum, .. } => Some(TypeSpecification::TimeRange {
                lower: *minimum,
                upper: *maximum,
                minimum: None,
                maximum: None,
                help: String::from_str(default_help_for_primitive(PrimitiveKind::TimeRange)),
            }),
            TypeSpecification::Ratio { minimum, maximum, units, .. } => Some(TypeSpecification::RatioRange {
                lower: *minimum,
                upper: *maximum,
                minimum: None,
                maximum: None,
                units: units.clone(),
                help: String::from_str(default_help_for_primitive(PrimitiveKind::RatioRange)),
            }),
            _ => None,
        }
    }

    /// Element specification of a range specification: the range endpoints become
    /// the element's bounds; no decimals, traits or help.
    pub fn element_from_range(&self) -> (r: Option<TypeSpecification>)
        ensures
            spec_element_of_range(*self, r),
    {
        match self {
            TypeSpecification::NumberRange { lower, upper, .. } => Some(TypeSpecification::Number {
                minimum: *lower,
                maximum: *upper,
                decimals: None,
                help: String::new(),
            }),
            TypeSpecification::MeasureRange { lower, upper, units, decomposition, .. } => Some(TypeSpecification::Measure {
                minimum: copy_bound(lower),
                maximum: copy_bound(upper),
                decimals: None,
                units: units.clone(),
                traits: Vec::new(),
                decomposition: decomposition.clone(),
                help: String::new(),
            }),
            TypeSpecification::DateRange { lower, upper, .. } => Some(TypeSpecification::Date {
                minimum: *lower,
                maximum: *upper,
                help: String::new(),
            }),
            TypeSpecification::TimeRange { lower, upper, .. } => Some(TypeSpecification::Time {
                minimum: *lower,
                maximum: *upper,
                help: String::new(),
            }),
            TypeSpecification::RatioRange { lower, upper, units, .. } => Some(TypeSpecification::Ratio {
                minimum: *lower,
                maximum: *upper,
                decimals: None,
                units: units.clone(),
                help: String::new(),
            }),
            _ => None,
        }
    }
}

/// Element specification for a range type.
pub fn range_element_type_specification(range_spec: &TypeSpecification) -> (r: Option<TypeSpecification>)
    ensures
        spec_element_of_range(*range_spec, r),
{
    range_spec.element_from_range()
}

/// Where the custom extension chain is rooted.
#[derive(Debug, Clone, Copy, PartialEq, Eq, Hash, Structural)]
pub enum TypeDefiningSpec {
    /// Parent type is defined in the same spec as this type.
    Local,
    /// Parent type was resolved from types loaded from another spec.
    Import,
}

/// What a type extends: a primitive, or a custom type (`parent`, rooted at `family`).
#[derive(Debug, Clone, PartialEq, Eq, Hash)]
pub enum TypeExtends {
    Primitive,
    Custom {
        parent: String,
        family: String,
        defining_spec: TypeDefiningSpec,
    },
}

impl TypeExtends {
    /// Custom extension whose parent chain is in the same spec.
    pub fn custom_local(parent: String, family: String) -> (r: TypeExtends)
        ensures
            r == (TypeExtends::Custom { parent, family, defining_spec: TypeDefiningSpec::Local }),
    {
        TypeExtends::Custom { parent, family, defining_spec: TypeDefiningSpec::Local }
    }

    /// The parent type name of a custom extension.
    pub fn parent_name(&self) -> (r: Option<&str>)
        ensures
            match *self {
                TypeExtends::Primitive => r is None,
                TypeExtends::Custom { parent, .. } => r is Some && r->0@ == parent@,
            },
    {
        match self {
            TypeExtends::Primitive => None,
            TypeExtends::Custom { parent, .. } => Some(parent.as_str()),
        }
    }

    /// A copy of this extension.
    pub fn duplicate(&self) -> (r: TypeExtends)
        ensures
            r == *self,
    {
        match self {
            TypeExtends::Primitive => TypeExtends::Primitive,
            TypeExtends::Custom { parent, family, defining_spec } => TypeExtends::Custom {
                parent: parent.clone(),
                family: family.clone(),
                defining_spec: *defining_spec,
            },
        }
    }
}

/// A resolved type: optional name, specification, what it extends, and the unit a
/// measure value is bound to for display and arithmetic.
#[derive(Debug, Clone, PartialEq, Eq, Hash)]
pub struct LemmaType {
    pub name: Option<String>,
    pub specifications: TypeSpecification,
    pub extends: TypeExtends,
    pub measure_binding_unit: Option<String>,
}

} // verus!
