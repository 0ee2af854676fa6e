use std::sync::Arc;

use lemma_planning::constraint_messages::{
    decimal_to_u8, decimal_to_usize,
    measure_suggestion_wrong_shape_error, measure_trait_name, suggestion_value_mismatch_error,
    validate_calendar_trait_requirements, validate_duration_trait_requirements, SuggestionExpectation,
};
use lemma_planning::rational::{rational_new, rational_one};
use lemma_planning::types::{LemmaType, TypeExtends, TypeSpecification};
use lemma_planning::typing::{ratio_element_type_for_api, same_value_type};
use lemma_planning::unit_constraints::sync_ratio_suggestion_units;
use lemma_planning::units::{BaseMeasureVector, MeasureTrait, MeasureUnit, MeasureUnits, RatioUnit, RatioUnits};
use lemma_planning::values::ValueKind;

fn unit(name: &str, factor: i64) -> MeasureUnit {
    MeasureUnit {
        name: name.to_string(),
        factor: rational_new(factor, 1),
        decomposition: BaseMeasureVector::new(),
        minimum: None,
        maximum: None,
        suggestion_magnitude: None,
    }
}

fn ratio_units() -> RatioUnits {
    RatioUnits(vec![RatioUnit {
        name: "percent".to_string(),
        value: rational_new(100, 1),
        minimum: None,
        maximum: None,
        suggestion_magnitude: None,
    }])
}

#[test]
fn calendar_units_in_suggestions_are_answered_by_expectation() {
    let units = MeasureUnits(vec![unit("gram", 1), unit("kilogram", 1000)]);
    assert_eq!(
        suggestion_value_mismatch_error("month", "mass", SuggestionExpectation::MeasureUnits, Some(&units)),
        "Unit 'month' is for calendar data. Valid 'mass' units are: gram, kilogram."
    );
    assert_eq!(
        suggestion_value_mismatch_error("year", "age", SuggestionExpectation::Number, None),
        "Unit 'year' is for calendar data. Please provide a number, for example `-> suggest 42`."
    );
    assert_eq!(
        suggestion_value_mismatch_error("month", "load", SuggestionExpectation::MeasureRange, None),
        "Unit 'month' is for calendar data. Please provide a range with units valid for 'load', for example `-> suggest 30 kilogram...35 kilogram`."
    );
    assert_eq!(
        suggestion_value_mismatch_error("month", "share", SuggestionExpectation::RatioRange, None),
        "Unit 'month' is for calendar data. Please provide a ratio, for example `-> suggest 25%`."
    );
}

#[test]
fn wrong_shape_suggestions_get_a_trait_specific_example() {
    assert_eq!(
        measure_suggestion_wrong_shape_error("wait", &[MeasureTrait::Duration]),
        "Please provide a value with a unit valid for 'wait', for example `-> suggest 4 week`."
    );
    assert_eq!(
        measure_suggestion_wrong_shape_error("term", &[MeasureTrait::Calendar]),
        "Please provide a value with a unit valid for 'term', for example `-> suggest 3 month`."
    );
    assert_eq!(
        measure_suggestion_wrong_shape_error("mass", &[]),
        "Please provide a value with a unit valid for 'mass', for example `-> suggest 30 kilogram`."
    );
    assert_eq!(measure_trait_name(MeasureTrait::Calendar), "calendar");
}

#[test]
fn traits_need_their_canonical_anchor_unit() {
    assert_eq!(validate_calendar_trait_requirements(&MeasureUnits(vec![unit("month", 1), unit("year", 12)])), Ok(()));
    assert_eq!(
        validate_calendar_trait_requirements(&MeasureUnits(vec![unit("year", 1)])),
        Err("trait calendar requires a canonical 'month' unit declared before 'trait calendar'".to_string())
    );
    assert_eq!(
        validate_duration_trait_requirements(&MeasureUnits(vec![unit("second", 60)])),
        Err("trait duration requires unit second 1".to_string())
    );
}

#[test]
fn same_value_type_compares_kind_and_dimensions() {
    let length = |name: &str, dim: &str| {
        LemmaType::new(
            name.to_string(),
            TypeSpecification::Measure {
                minimum: None,
                maximum: None,
                decimals: None,
                units: MeasureUnits(vec![unit("m", 1)]),
                traits: Vec::new(),
                decomposition: Some(BaseMeasureVector::single(dim.to_string(), 1)),
                help: String::new(),
            },
            TypeExtends::Primitive,
        )
    };
    assert!(same_value_type(&length("a", "length"), &length("b", "length")));
    assert!(!same_value_type(&length("a", "length"), &length("b", "mass")));
    let number = LemmaType::primitive(TypeSpecification::number());
    assert!(same_value_type(&number, &LemmaType::new("count".to_string(), TypeSpecification::number(), TypeExtends::Primitive)));
    assert!(!same_value_type(&number, &LemmaType::primitive(TypeSpecification::text())));
}

#[test]
fn ratio_ranges_convert_through_their_unbounded_element() {
    let range = LemmaType::primitive(TypeSpecification::RatioRange {
        lower: Some(rational_new(1, 10)),
        upper: None,
        minimum: None,
        maximum: None,
        units: ratio_units(),
        help: "share".to_string(),
    });
    let element = ratio_element_type_for_api(&range);
    match element.specifications {
        TypeSpecification::Ratio { minimum, maximum, decimals, units, help } => {
            assert_eq!(minimum, None);
            assert_eq!(maximum, None);
            assert_eq!(decimals, None);
            assert_eq!(units.0.len(), 1);
            assert_eq!(help, "");
        }
        other => panic!("expected a ratio, got {other:?}"),
    }
    let ratio = Arc::new(LemmaType::primitive(TypeSpecification::ratio()));
    assert!(ratio_element_type_for_api(&ratio).is_ratio());
}

#[test]
fn ratio_suggestions_are_copied_into_each_unit() {
    let mut units = ratio_units();
    sync_ratio_suggestion_units(&mut units, &ValueKind::Ratio(rational_new(1, 4))).expect("fits");
    assert_eq!(units.0[0].suggestion_magnitude, Some(rational_new(25, 1)));
    let mut untouched = ratio_units();
    sync_ratio_suggestion_units(&mut untouched, &ValueKind::Number(rational_one())).expect("not a ratio");
    assert_eq!(untouched.0[0].suggestion_magnitude, None);
}

#[test]
fn map_measure_replaces_units_and_decomposition_only() {
    let measure = LemmaType::new(
        "mass".to_string(),
        TypeSpecification::Measure {
            minimum: None,
            maximum: None,
            decimals: Some(2),
            units: MeasureUnits(vec![unit("gram", 1)]),
            traits: Vec::new(),
            decomposition: None,
            help: "weight".to_string(),
        },
        TypeExtends::Primitive,
    );
    let mapped = measure.map_measure(|mut units, _| {
        units.push(unit("kilogram", 1000));
        (units, Some(BaseMeasureVector::single("mass".to_string(), 1)))
    });
    match &mapped.specifications {
        TypeSpecification::Measure { decimals, units, decomposition, help, .. } => {
            assert_eq!(*decimals, Some(2));
            assert_eq!(units.0.len(), 2);
            assert_eq!(decomposition.as_ref().map(|d| d.entries().clone()), Some(vec![("mass".to_string(), 1)]));
            assert_eq!(help, "weight");
        }
        other => panic!("expected a measure, got {other:?}"),
    }
    let number = LemmaType::primitive(TypeSpecification::number());
    assert_eq!(number.clone().map_measure(|u, d| (u, d)), number);
}

#[test]
fn whole_number_arguments_become_u8_and_usize() {
    assert_eq!(decimal_to_u8(rational_new(2, 1), "decimals"), Ok(2));
    assert_eq!(decimal_to_u8(rational_new(255, 1), "decimals"), Ok(255));
    assert_eq!(decimal_to_usize(rational_new(12, 1), "length"), Ok(12));
    assert_eq!(decimal_to_usize(rational_new(0, 1), "length"), Ok(0));
}

#[test]
fn fractional_or_out_of_range_arguments_are_refused() {
    assert_eq!(
        decimal_to_u8(rational_new(5, 2), "decimals"),
        Err("decimals requires a whole number, got fractional value".to_string())
    );
    assert_eq!(
        decimal_to_u8(rational_new(256, 1), "decimals"),
        Err("decimals value out of range for u8".to_string())
    );
    assert_eq!(
        decimal_to_u8(rational_new(-1, 1), "decimals"),
        Err("decimals value out of range for u8".to_string())
    );
    assert_eq!(
        decimal_to_usize(rational_new(-3, 1), "length"),
        Err("length value out of range for usize".to_string())
    );
    assert_eq!(
        decimal_to_usize(rational_new(1, 3), "length"),
        Err("length requires a whole number, got fractional value".to_string())
    );
}
