//! Arguments of type constraint commands, and how each command position reads them.

use vstd::prelude::*;
use vstd::string::StringExecFns;
use rust_decimal::Decimal;
use crate::bound::{format_measure_units_list, spec_unknown_unit_message};
use crate::constraint_messages::{optional_unit_list, suggestion_advice, suggestion_value_mismatch_error, SuggestionExpectation};
use crate::decimal::{decimal_value, rational_from_decimal};
use crate::range_bounds::{reject_negative_width_magnitude, spec_width_sign_check};
use crate::rational::RationalInteger;
use crate::temporal::{SemanticDateTime, SemanticTime};
use crate::text::{compare_text, text_result};
use crate::units::{first_named, measure_unit_names_of, MeasureTrait, MeasureUnits};

verus! {

/// A literal written as a command argument.
pub enum ConstraintValue {
    Number(Decimal),
    NumberWithUnit(Decimal, String),
    Text(String),
    Date(SemanticDateTime),
    Time(SemanticTime),
    Boolean(bool),
    Range(Box<ConstraintValue>, Box<ConstraintValue>),
}

/// The conversion part of a `unit` command: a factor, or a factor times a product of
/// other measures' units with exponents.
pub enum UnitArg {
    Factor(Decimal),
    Expr(Decimal, Vec<(String, i32)>),
}

/// One argument of a constraint command.
pub enum CommandArg {
    /// An identifier (a unit name, an option keyword, a trait name).
    Label(String),
    UnitExpr(UnitArg),
    Literal(ConstraintValue),
}

/// The kind name of a literal, for messages.
pub open spec fn spec_value_kind_name(v: ConstraintValue) -> Seq<char> {
    match v {
        ConstraintValue::Number(_) => "number"@,
        ConstraintValue::NumberWithUnit(_, _) => "number_with_unit"@,
        ConstraintValue::Text(_) => "text"@,
        ConstraintValue::Date(_) => "date"@,
        ConstraintValue::Time(_) => "time"@,
        ConstraintValue::Boolean(_) => "boolean"@,
        ConstraintValue::Range(_, _) => "range"@,
    }
}

/// The kind name of a literal, for messages.
pub fn value_kind_name(v: &ConstraintValue) -> (r: &'static str)
    ensures
        r@ == spec_value_kind_name(*v),
{
    match v {
        ConstraintValue::Number(_) => "number",
        ConstraintValue::NumberWithUnit(_, _) => "number_with_unit",
        ConstraintValue::Text(_) => "text",
        ConstraintValue::Date(_) => "date",
        ConstraintValue::Time(_) => "time",
        ConstraintValue::Boolean(_) => "boolean",
        ConstraintValue::Range(_, _) => "range",
    }
}

/// The literal in the first argument position, or why there is none.
pub open spec fn spec_require_literal(args: Seq<CommandArg>, cmd: Seq<char>) -> Result<ConstraintValue, Seq<char>> {
    if args.len() == 0 {
        Err(cmd + " requires an argument"@)
    } else {
        match args[0] {
            CommandArg::Literal(v) => Ok(v),
            CommandArg::Label(name) => Err(cmd + " requires a literal value, got identifier '"@ + name@ + "'"@),
            CommandArg::UnitExpr(_) => Err(cmd + " requires a literal value, got a unit expression (only valid for 'unit' command)"@),
        }
    }
}

/// The literal of the first argument; a label or a unit expression there is refused.
pub fn require_literal<'a>(args: &'a [CommandArg], cmd: &str) -> (r: Result<&'a ConstraintValue, String>)
    ensures
        match (r, spec_require_literal(args@, cmd@)) {
            (Ok(v), Ok(w)) => *v == w,
            (Err(e), Err(m)) => e@ == m,
            _ => false,
        },
{
    if args.len() == 0 {
        let mut msg = String::from_str(cmd);
        msg.append(" requires an argument");
        return Err(msg);
    }
    match &args[0] {
        CommandArg::Literal(v) => Ok(v),
        CommandArg::Label(name) => {
            let mut msg = String::from_str(cmd);
            msg.append(" requires a literal value, got identifier '");
            msg.append(name.as_str());
            msg.append("'");
            Err(msg)
        },
        CommandArg::UnitExpr(_) => {
            let mut msg = String::from_str(cmd);
            msg.append(" requires a literal value, got a unit expression (only valid for 'unit' command)");
            Err(msg)
        },
    }
}

/// What `help` does: a text literal becomes the help text.
pub open spec fn spec_help_command(args: Seq<CommandArg>) -> Result<Seq<char>, Seq<char>> {
    match spec_require_literal(args, "help"@) {
        Err(m) => Err(m),
        Ok(ConstraintValue::Text(s)) => Ok(s@),
        Ok(other) => Err("help requires a text literal (quoted string), got "@ + spec_value_kind_name(other)),
    }
}

/// Apply `help`: the text literal replaces the help text; anything else is refused
/// and leaves it unchanged.
pub fn apply_type_help_command(help: &mut String, args: &[CommandArg]) -> (r: Result<(), String>)
    ensures
        match spec_help_command(args@) {
            Ok(t) => r is Ok && final(help)@ == t,
            Err(m) => r is Err && r->Err_0@ == m && *final(help) == *old(help),
        },
{
    match require_literal(args, "help") {
        Err(e) => Err(e),
        Ok(ConstraintValue::Text(s)) => {
            *help = s.clone();
            Ok(())
        },
        Ok(other) => {
            let mut msg = String::from_str("help requires a text literal (quoted string), got ");
            msg.append(value_kind_name(other));
            Err(msg)
        },
    }
}

/// An option name: a text literal or an identifier.
pub open spec fn spec_option_name(arg: CommandArg, cmd: Seq<char>) -> Result<Seq<char>, Seq<char>> {
    match arg {
        CommandArg::Literal(ConstraintValue::Text(s)) => Ok(s@),
        CommandArg::Label(name) => Ok(name@),
        CommandArg::Literal(other) => Err(cmd + " requires a text literal or identifier, got "@ + spec_value_kind_name(other)),
        CommandArg::UnitExpr(_) => Err(cmd + " requires a text literal or identifier, got a unit expression"@),
    }
}

/// An option name from one argument: `option red` and `option "red"` both name `red`.
pub fn option_name(arg: &CommandArg, cmd: &str) -> (r: Result<String, String>)
    ensures
        match (r, spec_option_name(*arg, cmd@)) {
            (Ok(v), Ok(w)) => v@ == w,
            (Err(e), Err(m)) => e@ == m,
            _ => false,
        },
{
    match arg {
        CommandArg::Literal(ConstraintValue::Text(s)) => Ok(s.clone()),
        CommandArg::Label(name) => Ok(name.clone()),
        CommandArg::Literal(other) => {
            let mut msg = String::from_str(cmd);
            msg.append(" requires a text literal or identifier, got ");
            msg.append(value_kind_name(other));
            Err(msg)
        },
        CommandArg::UnitExpr(_) => {
            let mut msg = String::from_str(cmd);
            msg.append(" requires a text literal or identifier, got a unit expression");
            Err(msg)
        },
    }
}

/// An identifier argument.
pub open spec fn spec_label_name(arg: CommandArg, cmd: Seq<char>) -> Result<Seq<char>, Seq<char>> {
    match arg {
        CommandArg::Label(name) => Ok(name@),
        CommandArg::Literal(other) => Err(cmd + " requires an identifier, got "@ + spec_value_kind_name(other)),
        CommandArg::UnitExpr(_) => Err(cmd + " requires an identifier, got a unit expression"@),
    }
}

/// The identifier of one argument.
pub fn label_name(arg: &CommandArg, cmd: &str) -> (r: Result<String, String>)
    ensures
        match (r, spec_label_name(*arg, cmd@)) {
            (Ok(v), Ok(w)) => v@ == w,
            (Err(e), Err(m)) => e@ == m,
            _ => false,
        },
{
    match arg {
        CommandArg::Label(name) => Ok(name.clone()),
        CommandArg::Literal(other) => {
            let mut msg = String::from_str(cmd);
            msg.append(" requires an identifier, got ");
            msg.append(value_kind_name(other));
            Err(msg)
        },
        CommandArg::UnitExpr(_) => {
            let mut msg = String::from_str(cmd);
            msg.append(" requires an identifier, got a unit expression");
            Err(msg)
        },
    }
}

/// What `str::to_lowercase` gives for a text (Unicode lowercase mapping).
pub uninterp spec fn lowercase_text(s: Seq<char>) -> Seq<char>;

/// `str::to_lowercase`: the Unicode lowercase form, a function of the text alone.
#[verifier::external_body]
fn lowercase(s: &str) -> (r: String)
    ensures
        r@ == lowercase_text(s@),
{
    s.to_lowercase()
}

/// The trait a `trait` command names, compared trimmed and in lowercase.
pub open spec fn spec_measure_trait(args: Seq<CommandArg>) -> Result<MeasureTrait, Seq<char>> {
    if args.len() != 1 {
        Err("trait requires exactly one identifier argument"@)
    } else {
        match spec_label_name(args[0], "trait"@) {
            Err(m) => Err(m),
            Ok(name) => {
                let key = lowercase_text(crate::spec_set_id::trimmed(name));
                if key == "duration"@ {
                    Ok(MeasureTrait::Duration)
                } else if key == "calendar"@ {
                    Ok(MeasureTrait::Calendar)
                } else {
                    Err("Unknown measure trait '"@ + key + "'"@)
                }
            },
        }
    }
}

/// Read the measure trait of a `trait` command.
pub fn parse_measure_trait(args: &[CommandArg]) -> (r: Result<MeasureTrait, String>)
    ensures
        text_result(r) == spec_measure_trait(args@),
{
    proof {
        reveal_strlit("duration");
        reveal_strlit("calendar");
    }
    if args.len() != 1 {
        return Err(String::from_str("trait requires exactly one identifier argument"));
    }
    let name = match label_name(&args[0], "trait") {
        Ok(n) => n,
        Err(e) => {
            return Err(e);
        },
    };
    let key = lowercase(crate::spec_set_id::trim_text(name.as_str()));
    if compare_text(key.as_str(), "duration") == 0 {
        Ok(MeasureTrait::Duration)
    } else if compare_text(key.as_str(), "calendar") == 0 {
        Ok(MeasureTrait::Calendar)
    } else {
        let mut msg = String::from_str("Unknown measure trait '");
        msg.append(key.as_str());
        msg.append("'");
        Err(msg)
    }
}

/// A bare number argument as an exact rational.
pub open spec fn spec_decimal_literal(args: Seq<CommandArg>, cmd: Seq<char>) -> Result<RationalInteger, Seq<char>> {
    match spec_require_literal(args, cmd) {
        Err(m) => Err(m),
        Ok(ConstraintValue::Number(d)) => Ok(decimal_value(d)),
        Ok(other) => Err(cmd + " requires a number literal, got "@ + spec_value_kind_name(other)),
    }
}

/// Read a bare number literal (no unit, no ratio) as an exact rational.
pub fn require_decimal_literal(args: &[CommandArg], cmd: &str) -> (r: Result<RationalInteger, String>)
    ensures
        text_result(r) == spec_decimal_literal(args@, cmd@),
{
    match require_literal(args, cmd) {
        Err(e) => Err(e),
        Ok(ConstraintValue::Number(d)) => Ok(rational_from_decimal(d)),
        Ok(other) => {
            let mut msg = String::from_str(cmd);
            msg.append(" requires a number literal, got ");
            msg.append(value_kind_name(other));
            Err(msg)
        },
    }
}

/// A date literal argument.
pub open spec fn spec_date_literal(args: Seq<CommandArg>, cmd: Seq<char>) -> Result<SemanticDateTime, Seq<char>> {
    match spec_require_literal(args, cmd) {
        Err(m) => Err(m),
        Ok(ConstraintValue::Date(d)) => Ok(d),
        Ok(other) => Err(cmd + " requires a date literal (e.g. 2024-01-01), got "@ + spec_value_kind_name(other)),
    }
}

/// Read a date literal.
pub fn require_date_literal(args: &[CommandArg], cmd: &str) -> (r: Result<SemanticDateTime, String>)
    ensures
        text_result(r) == spec_date_literal(args@, cmd@),
{
    match require_literal(args, cmd) {
        Err(e) => Err(e),
        Ok(ConstraintValue::Date(d)) => Ok(*d),
        Ok(other) => {
            let mut msg = String::from_str(cmd);
            msg.append(" requires a date literal (e.g. 2024-01-01), got ");
            msg.append(value_kind_name(other));
            Err(msg)
        },
    }
}

/// A time literal argument.
pub open spec fn spec_time_literal(args: Seq<CommandArg>, cmd: Seq<char>) -> Result<SemanticTime, Seq<char>> {
    match spec_require_literal(args, cmd) {
        Err(m) => Err(m),
        Ok(ConstraintValue::Time(t)) => Ok(t),
        Ok(other) => Err(cmd + " requires a time literal (e.g. 12:30:00), got "@ + spec_value_kind_name(other)),
    }
}

/// Read a time literal.
pub fn require_time_literal(args: &[CommandArg], cmd: &str) -> (r: Result<SemanticTime, String>)
    ensures
        text_result(r) == spec_time_literal(args@, cmd@),
{
    match require_literal(args, cmd) {
        Err(e) => Err(e),
        Ok(ConstraintValue::Time(t)) => Ok(*t),
        Ok(other) => {
            let mut msg = String::from_str(cmd);
            msg.append(" requires a time literal (e.g. 12:30:00), got ");
            msg.append(value_kind_name(other));
            Err(msg)
        },
    }
}

/// A suggestion written in a calendar unit where another kind of value is expected
/// is refused with the advice for that expectation.
pub open spec fn spec_reject_calendar(value: ConstraintValue, owner: Seq<char>, expectation: SuggestionExpectation, measure_units: Option<MeasureUnits>) -> Result<(), Seq<char>> {
    match value {
        ConstraintValue::NumberWithUnit(_, unit) => if unit@ == crate::units::month_name() || unit@ == crate::units::year_name() {
            Err("Unit '"@ + unit@ + "' is for calendar data."@ + suggestion_advice(expectation, owner, optional_unit_list(measure_units)))
        } else {
            Ok(())
        },
        _ => Ok(()),
    }
}

/// Refuse a suggestion written in a calendar unit (`month`, `year`).
pub fn reject_calendar_for_suggestion(
    value: &ConstraintValue,
    owner: &str,
    expectation: SuggestionExpectation,
    measure_units: Option<&MeasureUnits>,
) -> (r: Result<(), String>)
    ensures
        text_result(r) == spec_reject_calendar(*value, owner@, expectation, match measure_units {
            Some(u) => Some(*u),
            None => None,
        }),
{
    if let ConstraintValue::NumberWithUnit(_, unit) = value {
        if crate::units::calendar_unit_factor(unit.as_str()).is_some() {
            return Err(suggestion_value_mismatch_error(unit.as_str(), owner, expectation, measure_units));
        }
    }
    Ok(())
}

/// A bound written as a measure literal in a declared unit: its magnitude and unit.
pub open spec fn spec_measure_declared_bound(args: Seq<CommandArg>, cmd: Seq<char>, units: MeasureUnits, owner: Seq<char>) -> Result<(RationalInteger, Seq<char>), Seq<char>> {
    match spec_require_literal(args, cmd) {
        Err(m) => Err(m),
        Ok(ConstraintValue::NumberWithUnit(n, unit)) => if first_named(measure_unit_names_of(units.0@), unit@) < 0 {
            Err(spec_unknown_unit_message(unit@, owner, units.0@))
        } else {
            Ok((decimal_value(n), unit@))
        },
        Ok(other) => Err(cmd + " requires a measure literal with a unit, got "@ + spec_value_kind_name(other)),
    }
}

/// Read a measure bound (`minimum 5 kilogram`): the unit must be declared.
pub fn parse_measure_declared_bound(args: &[CommandArg], cmd: &str, units: &MeasureUnits, owner: &str) -> (r: Result<(RationalInteger, String), String>)
    ensures
        match (r, spec_measure_declared_bound(args@, cmd@, *units, owner@)) {
            (Ok(v), Ok(w)) => v.0 == w.0 && v.1@ == w.1,
            (Err(e), Err(m)) => e@ == m,
            _ => false,
        },
{
    let lit = match require_literal(args, cmd) {
        Ok(l) => l,
        Err(e) => {
            return Err(e);
        },
    };
    match lit {
        ConstraintValue::NumberWithUnit(n, unit) => {
            if units.get(unit.as_str()).is_none() {
                let mut msg = String::from_str("Unit '");
                msg.append(unit.as_str());
                msg.append("' is not defined on '");
                msg.append(owner);
                msg.append("'. Valid units are: ");
                let list = format_measure_units_list(units);
                msg.append(list.as_str());
                msg.append(".");
                return Err(msg);
            }
            Ok((rational_from_decimal(n), unit.clone()))
        },
        other => {
            let mut msg = String::from_str(cmd);
            msg.append(" requires a measure literal with a unit, got ");
            msg.append(value_kind_name(other));
            Err(msg)
        },
    }
}

/// A width bound as declared: a non-negative measure literal and its unit name.
pub open spec fn spec_unresolved_width_bound(args: Seq<CommandArg>, cmd: Seq<char>) -> Result<(RationalInteger, Seq<char>), Seq<char>> {
    match spec_require_literal(args, cmd) {
        Err(m) => Err(m),
        Ok(ConstraintValue::NumberWithUnit(n, unit)) => match spec_width_sign_check(decimal_value(n), cmd) {
            Err(m) => Err(m),
            Ok(_) => Ok((decimal_value(n), unit@)),
        },
        Ok(other) => Err(cmd + " requires a measure literal with a unit, got "@ + spec_value_kind_name(other)),
    }
}

/// Read a width bound of a range type as declared; its unit is resolved later.
pub fn parse_unresolved_width_bound(args: &[CommandArg], cmd: &str) -> (r: Result<(RationalInteger, String), String>)
    ensures
        match (r, spec_unresolved_width_bound(args@, cmd@)) {
            (Ok(v), Ok(w)) => v.0 == w.0 && v.1@ == w.1,
            (Err(e), Err(m)) => e@ == m,
            _ => false,
        },
{
    let lit = match require_literal(args, cmd) {
        Ok(l) => l,
        Err(e) => {
            return Err(e);
        },
    };
    match lit {
        ConstraintValue::NumberWithUnit(n, unit) => {
            let magnitude = rational_from_decimal(n);
            match reject_negative_width_magnitude(&magnitude, cmd) {
                Err(e) => Err(e),
                Ok(()) => Ok((magnitude, unit.clone())),
            }
        },
        other => {
            let mut msg = String::from_str(cmd);
            msg.append(" requires a measure literal with a unit, got ");
            msg.append(value_kind_name(other));
            Err(msg)
        },
    }
}

/// The advice for a range suggestion that is not a range.
pub open spec fn range_shape_advice(expectation: SuggestionExpectation, owner: Seq<char>) -> Seq<char> {
    match expectation {
        SuggestionExpectation::NumberRange => "Please provide a number range, for example `-> suggest 10...100`."@,
        SuggestionExpectation::DateRange => "Please provide a date range, for example `-> suggest 2024-01-01...2024-12-31`."@,
        SuggestionExpectation::RatioRange => "Please provide a ratio range, for example `-> suggest 10%...50%`."@,
        _ => "Please provide a range with units valid for '"@ + owner + "', for example `-> suggest 30 kilogram...35 kilogram`."@,
    }
}

pub open spec fn is_range_expectation(e: SuggestionExpectation) -> bool {
    e == SuggestionExpectation::NumberRange || e == SuggestionExpectation::DateRange
        || e == SuggestionExpectation::RatioRange || e == SuggestionExpectation::MeasureRange
}

/// The two endpoints of a range suggestion, or why the suggestion is refused.
pub open spec fn spec_range_endpoints(args: Seq<CommandArg>, owner: Seq<char>, expectation: SuggestionExpectation, measure_units: Option<MeasureUnits>) -> Result<(ConstraintValue, ConstraintValue), Seq<char>> {
    match spec_require_literal(args, "suggest"@) {
        Err(m) => Err(m),
        Ok(v) => match spec_reject_calendar(v, owner, expectation, measure_units) {
            Err(m) => Err(m),
            Ok(_) => match v {
                ConstraintValue::Range(l, r) => Ok((*l, *r)),
                _ => Err(range_shape_advice(expectation, owner)),
            },
        },
    }
}

/// The endpoints of a range suggestion; a calendar unit or a value that is not a range
/// is refused with advice for the expected range kind.
pub fn require_suggestion_range_endpoints<'a>(
    args: &'a [CommandArg],
    owner: &str,
    expectation: SuggestionExpectation,
    measure_units: Option<&MeasureUnits>,
) -> (r: Result<(&'a ConstraintValue, &'a ConstraintValue), String>)
    requires
        is_range_expectation(expectation),
    ensures
        match (r, spec_range_endpoints(args@, owner@, expectation, match measure_units {
            Some(u) => Some(*u),
            None => None,
        })) {
            (Ok(v), Ok(w)) => *v.0 == w.0 && *v.1 == w.1,
            (Err(e), Err(m)) => e@ == m,
            _ => false,
        },
{
    let lit = match require_literal(args, "suggest") {
        Ok(l) => l,
        Err(e) => {
            return Err(e);
        },
    };
    match reject_calendar_for_suggestion(lit, owner, expectation, measure_units) {
        Err(e) => {
            return Err(e);
        },
        Ok(()) => {},
    }
    match lit {
        ConstraintValue::Range(left, right) => Ok((&**left, &**right)),
        _ => match expectation {
            SuggestionExpectation::NumberRange => Err(String::from_str(
                "Please provide a number range, for example `-> suggest 10...100`.",
            )),
            SuggestionExpectation::DateRange => Err(String::from_str(
                "Please provide a date range, for example `-> suggest 2024-01-01...2024-12-31`.",
            )),
            SuggestionExpectation::RatioRange => Err(String::from_str(
                "Please provide a ratio range, for example `-> suggest 10%...50%`.",
            )),
            _ => {
                let mut msg = String::from_str("Please provide a range with units valid for '");
                msg.append(owner);
                msg.append("', for example `-> suggest 30 kilogram...35 kilogram`.");
                Err(msg)
            },
        },
    }
}

} // verus!
