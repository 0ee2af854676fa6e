use std::sync::Arc;

use lemma_planning::data_definition::DataDefinition;
use lemma_planning::decomposition::{find_unique_measure_type_in_unit_index, DecompositionMatch};
use lemma_planning::rational::{rational_new, rational_one, NumericFailure, RationalInteger};
use lemma_planning::range_bounds::{check_range_bound_consistency, reject_negative_width_magnitude};
use lemma_planning::temporal::{SemanticDateTime, SemanticTime};
use lemma_planning::types::{LemmaType, TypeExtends, TypeSpecification};
use lemma_planning::unit_index::{signature_factor, UnitIndex};
use lemma_planning::unit_constraints::{
    finalize_measure_unit_constraint_magnitudes, sync_ratio_units_from_canonical, UnitConstraintField,
};
use lemma_planning::units::{RatioUnit, RatioUnits};
use lemma_planning::units::{
    calendar_decomposition, duration_decomposition, BaseMeasureVector, MeasureTrait, MeasureUnit, MeasureUnits,
};
use lemma_planning::values::{
    refresh_measure_literal_canonical_magnitude, LiteralValue, ValueKind,
};
use rust_decimal::Decimal;

fn sig(pairs: &[(&str, i32)]) -> Vec<(String, i32)> {
    pairs.iter().map(|(name, exponent)| (name.to_string(), *exponent)).collect()
}

fn unit(name: &str, factor: RationalInteger, decomposition: BaseMeasureVector) -> MeasureUnit {
    MeasureUnit {
        name: name.to_string(),
        factor,
        decomposition,
        minimum: None,
        maximum: None,
        suggestion_magnitude: None,
    }
}

fn measure_spec(units: Vec<MeasureUnit>, traits: Vec<MeasureTrait>, decomposition: Option<BaseMeasureVector>) -> TypeSpecification {
    TypeSpecification::Measure {
        minimum: None,
        maximum: None,
        decimals: None,
        units: MeasureUnits(units),
        traits,
        decomposition,
        help: String::new(),
    }
}

fn test_calendar_type_for_signature_factor() -> LemmaType {
    LemmaType::new(
        "calendar".to_string(),
        measure_spec(
            vec![
                unit("month", rational_one(), calendar_decomposition()),
                unit("year", rational_new(12, 1), calendar_decomposition()),
            ],
            vec![MeasureTrait::Calendar],
            Some(calendar_decomposition()),
        ),
        TypeExtends::Primitive,
    )
}

fn test_money_type_for_signature_factor() -> LemmaType {
    LemmaType::new(
        "money".to_string(),
        TypeSpecification::Measure {
            minimum: None,
            maximum: None,
            decimals: Some(2),
            units: MeasureUnits(vec![
                unit("eur", rational_one(), BaseMeasureVector::new()),
                unit("usd", rational_new(91, 100), BaseMeasureVector::new()),
            ]),
            traits: Vec::new(),
            decomposition: None,
            help: String::new(),
        },
        TypeExtends::Primitive,
    )
}

fn duration_type() -> LemmaType {
    LemmaType::new(
        "duration".to_string(),
        measure_spec(
            vec![
                unit("second", rational_one(), duration_decomposition()),
                unit("minute", rational_new(60, 1), duration_decomposition()),
                unit("hour", rational_new(3600, 1), duration_decomposition()),
            ],
            vec![MeasureTrait::Duration],
            Some(duration_decomposition()),
        ),
        TypeExtends::Primitive,
    )
}

fn length_type(name: &str, family: &str) -> LemmaType {
    let dims = BaseMeasureVector::single("length".to_string(), 1);
    LemmaType::new(
        name.to_string(),
        measure_spec(
            vec![unit(&format!("{name}_meter"), rational_one(), BaseMeasureVector::single("length".to_string(), 1))],
            Vec::new(),
            Some(dims),
        ),
        TypeExtends::custom_local("length".to_string(), family.to_string()),
    )
}

#[test]
fn signature_factor_with_calendar_units() {
    let calendar = test_calendar_type_for_signature_factor();
    let unit_index = UnitIndex::new();
    let sig_month_per_year = sig(&[("month", 1), ("year", -1)]);
    let factor = signature_factor(&sig_month_per_year, &unit_index, Some(&calendar)).expect("must not overflow");
    let expected = rational_new(1, 12);
    assert_eq!(factor, expected, "month/year factor must be 1/12");
}

#[test]
fn signature_factor_uses_owner_when_expression_index_empty() {
    let money = test_money_type_for_signature_factor();
    let expression_units = UnitIndex::new();
    let sig_usd = sig(&[("usd", 1)]);
    let factor = signature_factor(&sig_usd, &expression_units, Some(&money)).expect("must not overflow");
    assert_eq!(factor, rational_new(91, 100));
}

#[test]
fn signature_factor_falls_back_to_the_unique_owner_in_scope() {
    let mut index = UnitIndex::new();
    index.add_type(Arc::new(duration_type()));
    let factor = signature_factor(&sig(&[("hour", 2), ("minute", -1)]), &index, None).expect("fits");
    assert_eq!(factor, rational_new(216000, 1));
    let empty = signature_factor(&sig(&[]), &index, None).expect("fits");
    assert_eq!(empty, rational_one());
}

#[test]
fn signature_factor_reports_overflow() {
    let mut index = UnitIndex::new();
    index.add_type(Arc::new(duration_type()));
    let result = signature_factor(&sig(&[("hour", 12)]), &index, None);
    assert_eq!(result, Err(NumericFailure::Overflow));
}

#[test]
fn unit_index_resolves_unique_unknown_and_ambiguous_units() {
    let mut index = UnitIndex::new();
    index.add_type(Arc::new(duration_type()));
    index.add_type(Arc::new(length_type("road", "road")));
    index.add_type(Arc::new(length_type("road2", "road2")));
    let owner = index.resolve("minute").expect("declared once");
    assert_eq!(owner.name(), "duration");
    assert_eq!(index.owners_for("minute").len(), 1);
    assert_eq!(index.resolve("furlong").unwrap_err(), "unknown unit 'furlong'");
    assert!(index.unique_owner("furlong").is_none());
    let mut twice = UnitIndex::new();
    twice.add_type(Arc::new(duration_type()));
    twice.add_type(Arc::new(duration_type()));
    assert_eq!(twice.owners_for("hour").len(), 2);
    assert_eq!(
        twice.resolve("hour").unwrap_err(),
        "ambiguous unit 'hour' is declared by more than one type"
    );
}

#[test]
fn decomposition_lookup_finds_none_unique_and_multiple_families() {
    let length = BaseMeasureVector::single("length".to_string(), 1);
    let mut index = UnitIndex::new();
    assert_eq!(find_unique_measure_type_in_unit_index(&index, &length), DecompositionMatch::NoMatch);

    index.add_type(Arc::new(duration_type()));
    index.add_type(Arc::new(length_type("road", "road")));
    index.add_type(Arc::new(length_type("road_extended", "road")));
    match find_unique_measure_type_in_unit_index(&index, &length) {
        DecompositionMatch::Unique(t) => assert_eq!(t.name(), "road"),
        other => panic!("expected a unique family, got {other:?}"),
    }

    index.add_type(Arc::new(length_type("rail", "rail")));
    index.add_type(Arc::new(length_type("cable", "cable")));
    assert_eq!(
        find_unique_measure_type_in_unit_index(&index, &length),
        DecompositionMatch::Multiple(vec!["cable".to_string(), "rail".to_string(), "road".to_string()])
    );
}

fn number_range(lower: Option<RationalInteger>, upper: Option<RationalInteger>) -> TypeSpecification {
    TypeSpecification::NumberRange {
        lower,
        upper,
        minimum: None,
        maximum: None,
        help: String::new(),
    }
}

#[test]
fn range_endpoints_out_of_order_are_rejected() {
    let index = UnitIndex::new();
    assert_eq!(check_range_bound_consistency(&number_range(Some(rational_new(1, 1)), Some(rational_new(5, 1))), &index), Ok(()));
    assert_eq!(
        check_range_bound_consistency(&number_range(Some(rational_new(5, 1)), Some(rational_new(3, 2))), &index),
        Err("invalid range: lower 5 is greater than upper 3/2".to_string())
    );
    let widths = TypeSpecification::RatioRange {
        lower: None,
        upper: None,
        minimum: Some(rational_new(-1, 2)),
        maximum: Some(rational_new(-3, 4)),
        units: lemma_planning::units::RatioUnits(Vec::new()),
        help: String::new(),
    };
    assert_eq!(
        check_range_bound_consistency(&widths, &index),
        Err("invalid range: minimum width -1/2 is greater than maximum width -3/4".to_string())
    );
    assert_eq!(check_range_bound_consistency(&TypeSpecification::Undetermined, &index), Ok(()));
}

#[test]
fn measure_range_bounds_compare_in_the_canonical_unit() {
    let index = UnitIndex::new();
    let units = MeasureUnits(vec![
        unit("gram", rational_one(), BaseMeasureVector::new()),
        unit("kilogram", rational_new(1000, 1), BaseMeasureVector::new()),
    ]);
    let spec = |lower: (i64, &str), upper: (i64, &str)| TypeSpecification::MeasureRange {
        lower: Some((rational_new(lower.0, 1), lower.1.to_string())),
        upper: Some((rational_new(upper.0, 1), upper.1.to_string())),
        minimum: None,
        maximum: None,
        units: MeasureUnits(units.0.clone()),
        decomposition: None,
        help: String::new(),
    };
    assert_eq!(check_range_bound_consistency(&spec((900, "gram"), (1, "kilogram")), &index), Ok(()));
    assert_eq!(
        check_range_bound_consistency(&spec((2, "kilogram"), (1500, "gram")), &index),
        Err("invalid range: lower 2 kilogram is greater than upper 1500 gram".to_string())
    );
    assert_eq!(
        check_range_bound_consistency(&spec((2, "pound"), (1500, "gram")), &index),
        Err("Unit 'pound' is not defined on 'range'. Valid units are: gram, kilogram.".to_string())
    );
}

fn date(year: i32, month: u32, day: u32, hour: u32) -> SemanticDateTime {
    SemanticDateTime {
        year,
        month,
        day,
        hour,
        minute: 0,
        second: 0,
        microsecond: 0,
        timezone: None,
    }
}

#[test]
fn date_and_time_range_endpoints_and_widths_are_checked() {
    let mut index = UnitIndex::new();
    index.add_type(Arc::new(duration_type()));
    index.add_type(Arc::new(test_calendar_type_for_signature_factor()));
    let date_range = |lower: SemanticDateTime, upper: SemanticDateTime, minimum: Option<(i64, &str)>, maximum: Option<(i64, &str)>| {
        TypeSpecification::DateRange {
            lower: Some(lower),
            upper: Some(upper),
            minimum: minimum.map(|(m, u)| (rational_new(m, 1), u.to_string())),
            maximum: maximum.map(|(m, u)| (rational_new(m, 1), u.to_string())),
            help: String::new(),
        }
    };
    assert_eq!(
        check_range_bound_consistency(&date_range(date(2024, 3, 1, 0), date(2024, 2, 1, 0), None, None), &index),
        Err("invalid range: lower 2024-03-01 is greater than upper 2024-02-01".to_string())
    );
    assert_eq!(
        check_range_bound_consistency(&date_range(date(2024, 2, 1, 0), date(2024, 3, 1, 0), Some((2, "hour")), Some((90, "minute"))), &index),
        Err("invalid range: minimum width 2 hour is greater than maximum width 90 minute".to_string())
    );
    assert_eq!(
        check_range_bound_consistency(&date_range(date(2024, 2, 1, 0), date(2024, 3, 1, 0), Some((1, "hour")), Some((1, "month"))), &index),
        Err("invalid range: minimum and maximum width must not mix calendar and duration units".to_string())
    );
    assert_eq!(
        check_range_bound_consistency(&date_range(date(2024, 2, 1, 0), date(2024, 3, 1, 0), None, Some((1, "fortnight"))), &index),
        Err("maximum width unit 'fortnight': unknown unit 'fortnight' (add `uses lemma units` or declare the unit)".to_string())
    );
    assert_eq!(
        check_range_bound_consistency(&date_range(date(2024, 2, 1, 0), date(2024, 3, 1, 0), Some((1, "month")), Some((1, "year"))), &index),
        Ok(())
    );

    let time = |hour: u32| SemanticTime { hour, minute: 30, second: 0, microsecond: 0, timezone: None };
    let time_range = TypeSpecification::TimeRange {
        lower: Some(time(9)),
        upper: Some(time(17)),
        minimum: Some((rational_one(), "month".to_string())),
        maximum: None,
        help: String::new(),
    };
    assert_eq!(
        check_range_bound_consistency(&time_range, &index),
        Err("minimum width unit 'month' must be a duration unit".to_string())
    );
    let reversed = TypeSpecification::TimeRange {
        lower: Some(time(17)),
        upper: Some(time(9)),
        minimum: None,
        maximum: None,
        help: String::new(),
    };
    assert_eq!(
        check_range_bound_consistency(&reversed, &index),
        Err("invalid range: lower 17:30:00 is greater than upper 09:30:00".to_string())
    );
}

fn kilo_type(kilogram_factor: RationalInteger) -> LemmaType {
    let mut t = LemmaType::new(
        "mass".to_string(),
        measure_spec(
            vec![
                unit("gram", rational_one(), BaseMeasureVector::new()),
                unit("kilogram", kilogram_factor, BaseMeasureVector::new()),
            ],
            Vec::new(),
            None,
        ),
        TypeExtends::Primitive,
    );
    t.measure_binding_unit = Some("kilogram".to_string());
    t
}

#[test]
fn refresh_rescales_a_measure_literal_whose_unit_factor_changed() {
    let previous = kilo_type(rational_new(100, 1));
    let resolved = kilo_type(rational_new(1000, 1));
    let mut lit = LiteralValue::measure(rational_new(300, 1));
    refresh_measure_literal_canonical_magnitude(&mut lit, &previous, &resolved).expect("fits");
    assert_eq!(lit.value, ValueKind::Measure(rational_new(3000, 1)));

    let mut same = LiteralValue::measure(rational_new(300, 1));
    refresh_measure_literal_canonical_magnitude(&mut same, &resolved, &resolved).expect("fits");
    assert_eq!(same.value, ValueKind::Measure(rational_new(300, 1)));

    let mut text = LiteralValue::text("kg".to_string());
    refresh_measure_literal_canonical_magnitude(&mut text, &previous, &resolved).expect("untouched");
    assert_eq!(text.value, ValueKind::Text("kg".to_string()));
}

#[test]
fn data_definition_exposes_type_value_and_fill() {
    let ty = Arc::new(duration_type());
    let value = DataDefinition::Value {
        value: LiteralValue::number(rational_new(7, 1)),
        resolved_type: Arc::clone(&ty),
    };
    assert_eq!(value.lemma_type().map(|t| t.name()), Some("duration".to_string()));
    assert_eq!(value.schema_type().map(|t| t.name()), Some("duration".to_string()));
    assert_eq!(value.value().map(|l| l.value), Some(ValueKind::Number(rational_new(7, 1))));

    let declared = DataDefinition::TypeDeclaration {
        resolved_type: Arc::clone(&ty),
        declared_suggestion: Some(lemma_planning::bound::BoundValueKind::unbound(ValueKind::Boolean(true))),
        declared_fill: None,
    };
    assert!(declared.value().is_none());
    assert!(declared.bound_fill().is_none());
    assert_eq!(declared.bound_suggestion().map(|b| b.value.clone()), Some(ValueKind::Boolean(true)));

    let import = DataDefinition::Import { target_name: "pricing".to_string() };
    assert!(import.lemma_type().is_none());
    assert!(import.resolved_type_arc().is_none());
}

#[test]
fn decimals_lift_to_their_exact_rational_value() {
    assert_eq!(LiteralValue::number_from_decimal(Decimal::new(15, 1)).value, ValueKind::Number(rational_new(3, 2)));
    assert_eq!(LiteralValue::number_from_decimal(Decimal::from(20)).value, ValueKind::Number(rational_new(20, 1)));
    assert_eq!(LiteralValue::ratio_from_decimal(Decimal::new(-25, 2)).value, ValueKind::Ratio(rational_new(-1, 4)));
    let typed = lemma_planning::values::TypedLiteral::ratio_from_decimal(Decimal::new(1, 2));
    assert_eq!(typed.value, ValueKind::Ratio(rational_new(1, 100)));
}

fn mass_spec(minimum: Option<(i64, &str)>, maximum: Option<(i64, &str)>) -> TypeSpecification {
    TypeSpecification::Measure {
        minimum: minimum.map(|(m, u)| (rational_new(m, 1), u.to_string())),
        maximum: maximum.map(|(m, u)| (rational_new(m, 1), u.to_string())),
        decimals: None,
        units: MeasureUnits(vec![
            unit("gram", rational_one(), BaseMeasureVector::new()),
            unit("kilogram", rational_new(1000, 1), BaseMeasureVector::new()),
        ]),
        traits: Vec::new(),
        decomposition: None,
        help: String::new(),
    }
}

#[test]
fn finalize_copies_bounds_and_suggestion_into_every_unit() {
    let mut spec = mass_spec(Some((1, "kilogram")), Some((2500, "gram")));
    let suggestion = ValueKind::Measure(rational_new(500, 1));
    finalize_measure_unit_constraint_magnitudes(&mut spec, Some(&suggestion), "mass").expect("finalizes");
    let TypeSpecification::Measure { units, .. } = &spec else { panic!("still a measure") };
    let gram = &units.0[0];
    let kilogram = &units.0[1];
    assert_eq!(gram.minimum, Some(rational_new(1000, 1)));
    assert_eq!(kilogram.minimum, Some(rational_one()));
    assert_eq!(gram.maximum, Some(rational_new(2500, 1)));
    assert_eq!(kilogram.maximum, Some(rational_new(5, 2)));
    assert_eq!(gram.suggestion_magnitude, Some(rational_new(500, 1)));
    assert_eq!(kilogram.suggestion_magnitude, Some(rational_new(1, 2)));
}

#[test]
fn finalize_reports_an_undeclared_bound_unit_and_leaves_other_kinds_alone() {
    let mut spec = mass_spec(None, Some((3, "pound")));
    assert_eq!(
        finalize_measure_unit_constraint_magnitudes(&mut spec, None, "mass"),
        Err("Unit 'pound' is not defined on 'mass'. Valid units are: gram, kilogram.".to_string())
    );
    let mut number = TypeSpecification::number();
    finalize_measure_unit_constraint_magnitudes(&mut number, None, "count").expect("nothing to do");
    assert_eq!(number, TypeSpecification::number());
}

#[test]
fn ratio_units_take_the_canonical_ratio_times_their_value() {
    let ratio_unit = |name: &str, value: i64| RatioUnit {
        name: name.to_string(),
        value: rational_new(value, 1),
        minimum: None,
        maximum: None,
        suggestion_magnitude: None,
    };
    let mut units = RatioUnits(vec![ratio_unit("percent", 100), ratio_unit("permille", 1000)]);
    sync_ratio_units_from_canonical(&mut units, &rational_new(1, 2), UnitConstraintField::Minimum).expect("fits");
    assert_eq!(units.0[0].minimum, Some(rational_new(50, 1)));
    assert_eq!(units.0[1].minimum, Some(rational_new(500, 1)));
    assert_eq!(units.0[1].maximum, None);
}

#[test]
fn negative_widths_are_rejected() {
    assert_eq!(reject_negative_width_magnitude(&rational_new(3, 2), "minimum"), Ok(()));
    assert_eq!(reject_negative_width_magnitude(&rational_new(0, 1), "maximum"), Ok(()));
    assert_eq!(
        reject_negative_width_magnitude(&rational_new(-1, 3), "maximum"),
        Err("maximum width must not be negative".to_string())
    );
}
