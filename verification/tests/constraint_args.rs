use lemma_planning::constraint_args::{
    apply_type_help_command, label_name, option_name, parse_measure_declared_bound, parse_measure_trait,
    parse_unresolved_width_bound, reject_calendar_for_suggestion, require_date_literal, require_decimal_literal,
    require_literal, require_suggestion_range_endpoints, CommandArg, ConstraintValue, UnitArg,
};
use lemma_planning::constraint_messages::SuggestionExpectation;
use lemma_planning::rational::{rational_new, rational_one};
use lemma_planning::temporal::SemanticDateTime;
use lemma_planning::units::{BaseMeasureVector, MeasureTrait, MeasureUnit, MeasureUnits};
use rust_decimal::Decimal;

fn kg_units() -> MeasureUnits {
    MeasureUnits(vec![MeasureUnit {
        name: "kilogram".into(),
        factor: rational_one(),
        decomposition: BaseMeasureVector::new(),
        minimum: None,
        maximum: None,
        suggestion_magnitude: None,
    }])
}

#[test]
fn literal_positions_refuse_labels_and_unit_expressions() {
    assert_eq!(require_literal(&[], "minimum").err(), Some("minimum requires an argument".to_string()));
    assert_eq!(
        require_literal(&[CommandArg::Label("red".into())], "minimum").err(),
        Some("minimum requires a literal value, got identifier 'red'".to_string())
    );
    assert_eq!(
        require_literal(&[CommandArg::UnitExpr(UnitArg::Factor(Decimal::ONE))], "minimum").err(),
        Some("minimum requires a literal value, got a unit expression (only valid for 'unit' command)".to_string())
    );
}

#[test]
fn help_takes_text_and_keeps_the_old_help_otherwise() {
    let mut help = "old".to_string();
    assert_eq!(apply_type_help_command(&mut help, &[CommandArg::Literal(ConstraintValue::Text("new".into()))]), Ok(()));
    assert_eq!(help, "new");
    let refused = apply_type_help_command(&mut help, &[CommandArg::Literal(ConstraintValue::Boolean(true))]);
    assert_eq!(refused, Err("help requires a text literal (quoted string), got boolean".to_string()));
    assert_eq!(help, "new");
}

#[test]
fn option_and_label_names() {
    assert_eq!(option_name(&CommandArg::Label("red".into()), "option"), Ok("red".to_string()));
    assert_eq!(option_name(&CommandArg::Literal(ConstraintValue::Text("blue".into())), "option"), Ok("blue".to_string()));
    assert_eq!(
        option_name(&CommandArg::Literal(ConstraintValue::Number(Decimal::ONE)), "option"),
        Err("option requires a text literal or identifier, got number".to_string())
    );
    assert_eq!(
        label_name(&CommandArg::Literal(ConstraintValue::Text("x".into())), "trait"),
        Err("trait requires an identifier, got text".to_string())
    );
}

#[test]
fn measure_traits_are_read_trimmed_and_in_lowercase() {
    assert_eq!(parse_measure_trait(&[CommandArg::Label(" Duration ".into())]), Ok(MeasureTrait::Duration));
    assert_eq!(parse_measure_trait(&[CommandArg::Label("calendar".into())]), Ok(MeasureTrait::Calendar));
    assert_eq!(parse_measure_trait(&[CommandArg::Label("Speed".into())]), Err("Unknown measure trait 'speed'".to_string()));
    assert_eq!(parse_measure_trait(&[]), Err("trait requires exactly one identifier argument".to_string()));
}

#[test]
fn number_date_and_measure_literals() {
    assert_eq!(
        require_decimal_literal(&[CommandArg::Literal(ConstraintValue::Number(Decimal::new(25, 1)))], "minimum"),
        Ok(rational_new(5, 2))
    );
    assert_eq!(
        require_decimal_literal(&[CommandArg::Literal(ConstraintValue::Text("5".into()))], "minimum"),
        Err("minimum requires a number literal, got text".to_string())
    );
    let day = SemanticDateTime { year: 2024, month: 1, day: 1, hour: 0, minute: 0, second: 0, microsecond: 0, timezone: None };
    assert_eq!(require_date_literal(&[CommandArg::Literal(ConstraintValue::Date(day))], "minimum"), Ok(day));
    let units = kg_units();
    let five_kg = [CommandArg::Literal(ConstraintValue::NumberWithUnit(Decimal::new(5, 0), "kilogram".into()))];
    assert_eq!(
        parse_measure_declared_bound(&five_kg, "minimum", &units, "mass"),
        Ok((rational_new(5, 1), "kilogram".to_string()))
    );
    let five_lb = [CommandArg::Literal(ConstraintValue::NumberWithUnit(Decimal::new(5, 0), "pound".into()))];
    assert_eq!(
        parse_measure_declared_bound(&five_lb, "minimum", &units, "mass"),
        Err("Unit 'pound' is not defined on 'mass'. Valid units are: kilogram.".to_string())
    );
    let negative = [CommandArg::Literal(ConstraintValue::NumberWithUnit(Decimal::new(-1, 0), "day".into()))];
    assert_eq!(parse_unresolved_width_bound(&negative, "minimum"), Err("minimum width must not be negative".to_string()));
    let two_days = [CommandArg::Literal(ConstraintValue::NumberWithUnit(Decimal::new(2, 0), "day".into()))];
    assert_eq!(parse_unresolved_width_bound(&two_days, "maximum"), Ok((rational_new(2, 1), "day".to_string())));
}

#[test]
fn calendar_units_are_refused_as_suggestions() {
    let month = ConstraintValue::NumberWithUnit(Decimal::new(3, 0), "month".into());
    assert_eq!(
        reject_calendar_for_suggestion(&month, "amount", SuggestionExpectation::Number, None),
        Err("Unit 'month' is for calendar data. Please provide a number, for example `-> suggest 42`.".to_string())
    );
    let kg = ConstraintValue::NumberWithUnit(Decimal::new(3, 0), "kilogram".into());
    assert_eq!(reject_calendar_for_suggestion(&kg, "amount", SuggestionExpectation::Number, None), Ok(()));
}

#[test]
fn range_suggestions_need_two_endpoints() {
    let range = [CommandArg::Literal(ConstraintValue::Range(
        Box::new(ConstraintValue::Number(Decimal::new(10, 0))),
        Box::new(ConstraintValue::Number(Decimal::new(100, 0))),
    ))];
    assert!(require_suggestion_range_endpoints(&range, "span", SuggestionExpectation::NumberRange, None).is_ok());
    let single = [CommandArg::Literal(ConstraintValue::Number(Decimal::new(10, 0)))];
    assert_eq!(
        require_suggestion_range_endpoints(&single, "span", SuggestionExpectation::NumberRange, None).err(),
        Some("Please provide a number range, for example `-> suggest 10...100`.".to_string())
    );
    assert_eq!(
        require_suggestion_range_endpoints(&single, "weight", SuggestionExpectation::MeasureRange, None).err(),
        Some("Please provide a range with units valid for 'weight', for example `-> suggest 30 kilogram...35 kilogram`.".to_string())
    );
}
