//! Requirements a measure trait puts on its unit table, and the messages for
//! suggestions of the wrong shape.

use vstd::prelude::*;
use vstd::string::StringExecFns;
use crate::bound::{format_measure_units_list, joined_names};
use crate::units::{first_named, measure_unit_names_of, MeasureTrait, MeasureUnits};
use crate::rational::RationalInteger;

verus! {

/// What kind of value a `suggest` expects, when a calendar literal was given instead.
#[derive(Debug, Clone, Copy, PartialEq, Eq, Structural)]
pub enum SuggestionExpectation {
    MeasureUnits,
    Text,
    Number,
    Boolean,
    Date,
    Time,
    Ratio,
    NumberRange,
    DateRange,
    TimeRange,
    MeasureRange,
    RatioRange,
}

/// The advice after the calendar-unit sentence, by expectation.
pub open spec fn suggestion_advice(expectation: SuggestionExpectation, owner: Seq<char>, unit_list: Seq<char>) -> Seq<char> {
    match expectation {
        SuggestionExpectation::MeasureUnits => " Valid '"@ + owner + "' units are: "@ + unit_list + "."@,
        SuggestionExpectation::Text => " Please provide a text value in double quotes, for example `-> suggest \"my default value\"`."@,
        SuggestionExpectation::Number => " Please provide a number, for example `-> suggest 42`."@,
        SuggestionExpectation::Boolean => " Please provide true or false, for example `-> suggest true`."@,
        SuggestionExpectation::Date => " Please provide a date, for example `-> suggest 2024-06-15`."@,
        SuggestionExpectation::Time => " Please provide a time, for example `-> suggest 09:00:00`."@,
        SuggestionExpectation::Ratio => " Please provide a ratio, for example `-> suggest 25%`."@,
        SuggestionExpectation::RatioRange => " Please provide a ratio, for example `-> suggest 25%`."@,
        SuggestionExpectation::NumberRange => " Please provide a number range, for example `-> suggest 10...100`."@,
        SuggestionExpectation::DateRange => " Please provide a date range, for example `-> suggest 2024-01-01...2024-12-31`."@,
        SuggestionExpectation::TimeRange => " Please provide a time range, for example `-> suggest 09:00...17:00`."@,
        SuggestionExpectation::MeasureRange => " Please provide a range with units valid for '"@ + owner
            + "', for example `-> suggest 30 kilogram...35 kilogram`."@,
    }
}

/// The names of an optional unit table, joined (empty without a table).
pub open spec fn optional_unit_list(units: Option<MeasureUnits>) -> Seq<char> {
    match units {
        Some(u) => joined_names(measure_unit_names_of(u.0@)),
        None => Seq::empty(),
    }
}

/// The message for a calendar unit given where another kind of value was expected.
pub fn suggestion_value_mismatch_error(
    calendar_unit: &str,
    owner: &str,
    expectation: SuggestionExpectation,
    measure_units: Option<&MeasureUnits>,
) -> (r: String)
    ensures
        r@ == "Unit '"@ + calendar_unit@ + "' is for calendar data."@ + suggestion_advice(
            expectation,
            owner@,
            optional_unit_list(
                match measure_units {
                    Some(u) => Some(*u),
                    None => None,
                },
            ),
        ),
{
    let mut msg = String::from_str("Unit '");
    msg.append(calendar_unit);
    msg.append("' is for calendar data.");
    match expectation {
        SuggestionExpectation::MeasureUnits => {
            msg.append(" Valid '");
            msg.append(owner);
            msg.append("' units are: ");
            match measure_units {
                Some(units) => {
                    let list = format_measure_units_list(units);
                    msg.append(list.as_str());
                },
                None => {},
            }
            msg.append(".");
        },
        SuggestionExpectation::Text => {
            msg.append(" Please provide a text value in double quotes, for example `-> suggest \"my default value\"`.");
        },
        SuggestionExpectation::Number => {
            msg.append(" Please provide a number, for example `-> suggest 42`.");
        },
        SuggestionExpectation::Boolean => {
            msg.append(" Please provide true or false, for example `-> suggest true`.");
        },
        SuggestionExpectation::Date => {
            msg.append(" Please provide a date, for example `-> suggest 2024-06-15`.");
        },
        SuggestionExpectation::Time => {
            msg.append(" Please provide a time, for example `-> suggest 09:00:00`.");
        },
        SuggestionExpectation::Ratio => {
            msg.append(" Please provide a ratio, for example `-> suggest 25%`.");
        },
        SuggestionExpectation::RatioRange => {
            msg.append(" Please provide a ratio, for example `-> suggest 25%`.");
        },
        SuggestionExpectation::NumberRange => {
            msg.append(" Please provide a number range, for example `-> suggest 10...100`.");
        },
        SuggestionExpectation::DateRange => {
            msg.append(" Please provide a date range, for example `-> suggest 2024-01-01...2024-12-31`.");
        },
        SuggestionExpectation::TimeRange => {
            msg.append(" Please provide a time range, for example `-> suggest 09:00...17:00`.");
        },
        SuggestionExpectation::MeasureRange => {
            msg.append(" Please provide a range with units valid for '");
            msg.append(owner);
            msg.append("', for example `-> suggest 30 kilogram...35 kilogram`.");
        },
    }
    proof {
        let list = optional_unit_list(
            match measure_units {
                Some(u) => Some(*u),
                None => None,
            },
        );
        let first = "Unit '"@ + calendar_unit@ + "' is for calendar data."@;
        match expectation {
            SuggestionExpectation::MeasureUnits => {
                assert(msg@ =~= first + (" Valid '"@ + owner@ + "' units are: "@ + list + "."@));
            },
            SuggestionExpectation::MeasureRange => {
                assert(msg@ =~= first + (" Please provide a range with units valid for '"@ + owner@
                    + "', for example `-> suggest 30 kilogram...35 kilogram`."@));
            },
            _ => {},
        }
    }
    msg
}

/// The example a measure suggestion of the wrong shape is answered with.
pub open spec fn suggestion_example(traits: Seq<MeasureTrait>) -> Seq<char> {
    if traits.contains(MeasureTrait::Duration) {
        "4 week"@
    } else if traits.contains(MeasureTrait::Calendar) {
        "3 month"@
    } else {
        "30 kilogram"@
    }
}

fn has_trait(traits: &[MeasureTrait], wanted: MeasureTrait) -> (b: bool)
    ensures
        b == traits@.contains(wanted),
{
    let mut i: usize = 0;
    while i < traits.len()
        invariant
            i <= traits@.len(),
            forall|j: int| 0 <= j < i ==> traits@[j] != wanted,
        decreases traits@.len() - i,
    {
        if traits[i] == wanted {
            return true;
        }
        i = i + 1;
    }
    false
}

/// The message for a measure suggestion without a usable unit.
pub fn measure_suggestion_wrong_shape_error(owner: &str, traits: &[MeasureTrait]) -> (r: String)
    ensures
        r@ == "Please provide a value with a unit valid for '"@ + owner@ + "', for example `-> suggest "@
            + suggestion_example(traits@) + "`."@,
{
    let example = if has_trait(traits, MeasureTrait::Duration) {
        "4 week"
    } else if has_trait(traits, MeasureTrait::Calendar) {
        "3 month"
    } else {
        "30 kilogram"
    };
    let mut msg = String::from_str("Please provide a value with a unit valid for '");
    msg.append(owner);
    msg.append("', for example `-> suggest ");
    msg.append(example);
    msg.append("`.");
    msg
}

/// The keyword of a measure trait.
pub open spec fn spec_trait_name(t: MeasureTrait) -> Seq<char> {
    match t {
        MeasureTrait::Duration => "duration"@,
        MeasureTrait::Calendar => "calendar"@,
    }
}

/// The keyword of a measure trait.
pub fn measure_trait_name(measure_trait: MeasureTrait) -> (r: &'static str)
    ensures
        r@ == spec_trait_name(measure_trait),
{
    match measure_trait {
        MeasureTrait::Duration => "duration",
        MeasureTrait::Calendar => "calendar",
    }
}

/// A trait's anchor unit must be declared and canonical (factor one).
pub open spec fn spec_anchor_check(units: MeasureUnits, anchor: Seq<char>, missing: Seq<char>, not_one: Seq<char>) -> Result<(), Seq<char>> {
    let k = first_named(measure_unit_names_of(units.0@), anchor);
    if k < 0 {
        Err(missing)
    } else if !(units.0@[k].factor.num() == 1 && units.0@[k].factor.den() == 1) {
        Err(not_one)
    } else {
        Ok(())
    }
}

/// The calendar trait needs a canonical `month` unit.
pub fn validate_calendar_trait_requirements(units: &MeasureUnits) -> (r: Result<(), String>)
    ensures
        crate::text::text_result(r) == spec_anchor_check(
            *units,
            "month"@,
            "trait calendar requires a canonical 'month' unit declared before 'trait calendar'"@,
            "trait calendar requires unit month 1"@,
        ),
{
    match units.get("month") {
        None => Err(String::from_str("trait calendar requires a canonical 'month' unit declared before 'trait calendar'")),
        Some(month) => if !month.is_canonical_factor() {
            Err(String::from_str("trait calendar requires unit month 1"))
        } else {
            Ok(())
        },
    }
}

/// The duration trait needs a canonical `second` unit.
pub fn validate_duration_trait_requirements(units: &MeasureUnits) -> (r: Result<(), String>)
    ensures
        crate::text::text_result(r) == spec_anchor_check(
            *units,
            "second"@,
            "trait duration requires a canonical 'second' unit declared before 'trait duration'"@,
            "trait duration requires unit second 1"@,
        ),
{
    match units.get("second") {
        None => Err(String::from_str("trait duration requires a canonical 'second' unit declared before 'trait duration'")),
        Some(second) => if !second.is_canonical_factor() {
            Err(String::from_str("trait duration requires unit second 1"))
        } else {
            Ok(())
        },
    }
}

/// The answer for a whole-number constraint argument: the value when it is a
/// whole number in `0..=max`, else the message for a fraction or for a value
/// out of range.
pub open spec fn spec_whole_number(d: RationalInteger, max: int, ctx: Seq<char>, out_of_range: Seq<char>) -> Result<int, Seq<char>> {
    if d.den() != 1 {
        Err(ctx + " requires a whole number, got fractional value"@)
    } else if 0 <= d.num() <= max {
        Ok(d.num())
    } else {
        Err(ctx + out_of_range)
    }
}

/// A `decimals`-style argument as a `u8`: a whole number between 0 and 255.
pub fn decimal_to_u8(d: RationalInteger, ctx: &str) -> (r: Result<u8, String>)
    ensures
        match (r, spec_whole_number(d, u8::MAX as int, ctx@, " value out of range for u8"@)) {
            (Ok(v), Ok(n)) => v == n,
            (Err(e), Err(m)) => e@ == m,
            _ => false,
        },
{
    if !d.is_integer() {
        let mut msg = String::from_str(ctx);
        msg.append(" requires a whole number, got fractional value");
        return Err(msg);
    }
    match d.numer_to_u8() {
        Some(v) => Ok(v),
        None => {
            let mut msg = String::from_str(ctx);
            msg.append(" value out of range for u8");
            Err(msg)
        },
    }
}

/// A `length`-style argument as a `usize`: a whole number between 0 and `usize::MAX`.
pub fn decimal_to_usize(d: RationalInteger, ctx: &str) -> (r: Result<usize, String>)
    ensures
        match (r, spec_whole_number(d, usize::MAX as int, ctx@, " value out of range for usize"@)) {
            (Ok(v), Ok(n)) => v == n,
            (Err(e), Err(m)) => e@ == m,
            _ => false,
        },
{
    if !d.is_integer() {
        let mut msg = String::from_str(ctx);
        msg.append(" requires a whole number, got fractional value");
        return Err(msg);
    }
    match d.numer_to_usize() {
        Some(v) => Ok(v),
        None => {
            let mut msg = String::from_str(ctx);
            msg.append(" value out of range for usize");
            Err(msg)
        },
    }
}

} // verus!
