use std::sync::Arc;

use lemma_planning::rational::{decimal_to_rational, rational_new, rational_one};
use lemma_planning::temporal::SemanticDateTime;
use lemma_planning::types::{
    default_help_for_primitive, type_spec_for_primitive, LemmaType, PrimitiveKind, TypeExtends, TypeSpecification,
};
use lemma_planning::units::{BaseMeasureVector, MeasureTrait, MeasureUnit, MeasureUnits};
use lemma_planning::values::TypedLiteral;
use rust_decimal::Decimal;

fn unit(name: &str, factor: lemma_planning::rational::RationalInteger) -> MeasureUnit {
    MeasureUnit {
        name: name.to_string(),
        factor,
        decomposition: BaseMeasureVector::new(),
        minimum: None,
        maximum: None,
        suggestion_magnitude: None,
    }
}

fn money_measure_type() -> LemmaType {
    LemmaType::new(
        "Money".to_string(),
        TypeSpecification::Measure {
            minimum: None,
            maximum: None,
            decimals: None,
            units: MeasureUnits(vec![
                unit("eur", rational_one()),
                unit("usd", decimal_to_rational(91, 2).expect("factor")),
            ]),
            traits: Vec::new(),
            decomposition: None,
            help: String::new(),
        },
        TypeExtends::Primitive,
    )
}

#[test]
fn measure_unit_names_for_named_measure() {
    let money = money_measure_type();
    assert_eq!(money.measure_unit_names(), Some(vec!["eur", "usd"]));
}

#[test]
fn element_from_range_returns_element_for_every_range_primitive() {
    type RangeElementMatcher = fn(&TypeSpecification) -> bool;
    let cases: [(PrimitiveKind, RangeElementMatcher); 5] = [
        (PrimitiveKind::NumberRange, |element| matches!(element, TypeSpecification::Number { .. })),
        (PrimitiveKind::MeasureRange, |element| matches!(element, TypeSpecification::Measure { .. })),
        (PrimitiveKind::RatioRange, |element| matches!(element, TypeSpecification::Ratio { .. })),
        (PrimitiveKind::DateRange, |element| matches!(element, TypeSpecification::Date { .. })),
        (PrimitiveKind::TimeRange, |element| matches!(element, TypeSpecification::Time { .. })),
    ];
    for (kind, matches_element) in cases {
        let range_spec = type_spec_for_primitive(kind);
        let element = range_spec
            .element_from_range()
            .unwrap_or_else(|| panic!("{kind:?} must define element_from_range"));
        assert!(matches_element(&element), "{kind:?} element must match documented mapping, got {element:?}");
    }
}

#[test]
fn element_from_range_returns_none_for_non_range_primitives() {
    let non_range = [
        type_spec_for_primitive(PrimitiveKind::Boolean),
        type_spec_for_primitive(PrimitiveKind::Measure),
        TypeSpecification::Undetermined,
        TypeSpecification::veto(),
    ];
    for spec in non_range {
        assert!(spec.element_from_range().is_none(), "{spec:?} must not define element_from_range");
    }
}

#[test]
fn default_primitive_help_is_goal_oriented() {
    let kinds = [
        PrimitiveKind::Boolean,
        PrimitiveKind::Measure,
        PrimitiveKind::MeasureRange,
        PrimitiveKind::Number,
        PrimitiveKind::NumberRange,
        PrimitiveKind::Ratio,
        PrimitiveKind::RatioRange,
        PrimitiveKind::Text,
        PrimitiveKind::Date,
        PrimitiveKind::DateRange,
        PrimitiveKind::Time,
        PrimitiveKind::TimeRange,
    ];
    for kind in kinds {
        let spec = type_spec_for_primitive(kind);
        let help = match &spec {
            TypeSpecification::Boolean { help, .. }
            | TypeSpecification::Number { help, .. }
            | TypeSpecification::NumberRange { help, .. }
            | TypeSpecification::Text { help, .. }
            | TypeSpecification::Measure { help, .. }
            | TypeSpecification::MeasureRange { help, .. }
            | TypeSpecification::Ratio { help, .. }
            | TypeSpecification::RatioRange { help, .. }
            | TypeSpecification::Date { help, .. }
            | TypeSpecification::DateRange { help, .. }
            | TypeSpecification::TimeRange { help, .. }
            | TypeSpecification::Time { help, .. } => help,
            TypeSpecification::Veto { .. } | TypeSpecification::Undetermined => {
                unreachable!("BUG: primitive kind {:?} mapped to non-primitive spec", kind)
            }
        };
        assert!(!help.is_empty(), "help for {:?}", kind);
        assert!(
            !help.to_ascii_lowercase().contains("format:"),
            "help for {:?} must not describe syntax: {:?}",
            kind,
            help
        );
        assert_eq!(help, default_help_for_primitive(kind));
    }
}

#[test]
fn test_literal_value_to_primitive_type() {
    let one = rational_new(1, 1);

    assert_eq!(TypedLiteral::text("".to_string()).lemma_type.name(), "text");
    assert_eq!(TypedLiteral::number(one).lemma_type.name(), "number");
    assert_eq!(TypedLiteral::from_bool(true).lemma_type.name(), "boolean");

    let dt = SemanticDateTime {
        year: 2024,
        month: 1,
        day: 1,
        hour: 0,
        minute: 0,
        second: 0,
        microsecond: 0,
        timezone: None,
    };
    assert_eq!(TypedLiteral::date(dt).lemma_type.name(), "date");
    assert_eq!(TypedLiteral::ratio_from_decimal(Decimal::new(1, 2)).lemma_type.name(), "ratio");
    let dur_type = LemmaType::new(
        "duration".to_string(),
        TypeSpecification::Measure {
            minimum: None,
            maximum: None,
            decimals: None,
            units: MeasureUnits(vec![unit("second", rational_one())]),
            traits: vec![MeasureTrait::Duration],
            decomposition: None,
            help: String::new(),
        },
        TypeExtends::Primitive,
    );
    assert_eq!(TypedLiteral::measure_with_type(one, Arc::new(dur_type)).lemma_type.name(), "duration");
}

#[test]
fn display_binding_reuses_the_schema_when_nothing_new_wins() {
    let bound = std::sync::Arc::new(
        lemma_planning::values::primitive_ratio_arc()
            .as_ref()
            .clone()
            .with_measure_binding_unit("percent".to_string()),
    );
    let same = lemma_planning::bound::lemma_type_arc_with_display_binding(&bound, None, None, None);
    assert!(std::sync::Arc::ptr_eq(&same, &bound));
    let plain = lemma_planning::values::primitive_ratio_arc();
    let still_plain = lemma_planning::bound::lemma_type_arc_with_display_binding(&plain, None, None, None);
    assert!(std::sync::Arc::ptr_eq(&still_plain, &plain));
    assert_eq!(still_plain.measure_binding_unit, None);
}
