use lemma_planning::comparison::{mirrored_comparison, negated_comparison, ComparisonComputation};
use lemma_planning::paths::{DataPath, PathSegment, RulePath};
use lemma_planning::rational::{rational_new, rational_one};
use lemma_planning::temporal::SemanticTime;
use lemma_planning::types::{TypeDefiningSpec, TypeExtends, TypeSpecification};
use lemma_planning::lemma_type::anonymous_measure_type;
use lemma_planning::types::LemmaType;
use lemma_planning::units::{
    calendar_decomposition, calendar_unit_factor, duration_decomposition, BaseMeasureVector,
    MeasureTrait, MeasureUnit, MeasureUnits,
};
use lemma_planning::values::{
    value_kind_matches_spec, SemanticCalendarUnit, TypedLiteral, ValueKind,
};

#[test]
fn data_path_and_rule_path_display_are_input_key() {
    let implicit = PathSegment {
        uses: "bag".to_string(),
        repository: None,
        spec: "bag".to_string(),
    };
    let explicit = PathSegment {
        uses: "bag".to_string(),
        repository: None,
        spec: "nut_bag".to_string(),
    };
    let named_repo = PathSegment {
        uses: "calc".to_string(),
        repository: Some("alpha".to_string()),
        spec: "pricing".to_string(),
    };

    assert_eq!(
        DataPath::new(vec![implicit.clone()], "weight".to_string()).input_key(),
        "bag.weight"
    );
    assert_eq!(
        DataPath::new(vec![explicit.clone()], "weight".to_string()).input_key(),
        "bag.weight"
    );
    assert_eq!(
        DataPath::new(vec![named_repo.clone()], "price".to_string()).input_key(),
        "calc.price"
    );
    assert_eq!(
        RulePath::new(vec![implicit], "cost".to_string()).input_key(),
        "bag.cost"
    );
    assert_eq!(
        RulePath::new(vec![explicit], "cost".to_string()).input_key(),
        "bag.cost"
    );
    assert_eq!(
        RulePath::new(vec![named_repo], "price".to_string()).input_key(),
        "calc.price"
    );

    assert_eq!(
        PathSegment {
            uses: "bag".to_string(),
            repository: None,
            spec: "nut_bag".to_string(),
        }
        .display(),
        "bag → nut_bag"
    );
    assert_eq!(
        PathSegment {
            uses: "calc".to_string(),
            repository: Some("alpha".to_string()),
            spec: "pricing".to_string(),
        }
        .display(),
        "calc → alpha pricing"
    );
}

#[test]
fn test_negated_comparison() {
    assert_eq!(
        negated_comparison(ComparisonComputation::LessThan),
        ComparisonComputation::GreaterThanOrEqual
    );
    assert_eq!(
        negated_comparison(ComparisonComputation::GreaterThanOrEqual),
        ComparisonComputation::LessThan
    );
    assert_eq!(
        negated_comparison(ComparisonComputation::Is),
        ComparisonComputation::IsNot
    );
    assert_eq!(
        negated_comparison(ComparisonComputation::IsNot),
        ComparisonComputation::Is
    );
}

#[test]
fn negation_and_mirror_are_involutions() {
    let all = [
        ComparisonComputation::LessThan,
        ComparisonComputation::LessThanOrEqual,
        ComparisonComputation::GreaterThan,
        ComparisonComputation::GreaterThanOrEqual,
        ComparisonComputation::Is,
        ComparisonComputation::IsNot,
    ];
    for op in all {
        assert_eq!(negated_comparison(negated_comparison(op)), op);
        assert_eq!(mirrored_comparison(mirrored_comparison(op)), op);
        assert_eq!(
            negated_comparison(mirrored_comparison(op)),
            mirrored_comparison(negated_comparison(op))
        );
    }
    assert_eq!(mirrored_comparison(ComparisonComputation::LessThan), ComparisonComputation::GreaterThan);
}

#[test]
fn test_type_display() {
    let specs = TypeSpecification::text();
    let lemma_type = LemmaType::new("name".to_string(), specs, TypeExtends::Primitive);
    assert_eq!(lemma_type.name(), "name");
    assert_eq!(LemmaType::primitive(TypeSpecification::number_range()).name(), "number range");
}

#[test]
fn test_literal_value_time_type() {
    let time = SemanticTime {
        hour: 14,
        minute: 30,
        second: 0,
        microsecond: 0,
        timezone: None,
    };
    let lit = TypedLiteral::time(time);
    assert_eq!(lit.lemma_type.name(), "time");
}

#[test]
fn test_measure_family_name_primitive_root() {
    let measure_spec = TypeSpecification::measure();
    let money_primitive = LemmaType::new(
        "money".to_string(),
        measure_spec.clone(),
        TypeExtends::Primitive,
    );
    assert_eq!(money_primitive.measure_family_name(), Some("money"));
}

#[test]
fn test_measure_family_name_custom() {
    let measure_spec = TypeSpecification::measure();
    let money_custom = LemmaType::new(
        "money".to_string(),
        measure_spec,
        TypeExtends::custom_local("money".to_string(), "money".to_string()),
    );
    assert_eq!(money_custom.measure_family_name(), Some("money"));
}

#[test]
fn test_same_measure_family_same_name_different_extends() {
    let measure_spec = TypeSpecification::measure();
    let money_primitive = LemmaType::new(
        "money".to_string(),
        measure_spec.clone(),
        TypeExtends::Primitive,
    );
    let money_custom = LemmaType::new(
        "money".to_string(),
        measure_spec,
        TypeExtends::custom_local("money".to_string(), "money".to_string()),
    );
    assert!(money_primitive.same_measure_family(&money_custom));
    assert!(money_custom.same_measure_family(&money_primitive));
}

#[test]
fn test_same_measure_family_parent_and_child() {
    let measure_spec = TypeSpecification::measure();
    let type_x = LemmaType::new("x".to_string(), measure_spec.clone(), TypeExtends::Primitive);
    let type_x2 = LemmaType::new(
        "x2".to_string(),
        measure_spec,
        TypeExtends::custom_local("x".to_string(), "x".to_string()),
    );
    assert_eq!(type_x.measure_family_name(), Some("x"));
    assert_eq!(type_x2.measure_family_name(), Some("x"));
    assert!(type_x.same_measure_family(&type_x2));
    assert!(type_x2.same_measure_family(&type_x));
}

#[test]
fn test_same_measure_family_siblings() {
    let measure_spec = TypeSpecification::measure();
    let type_x2_a = LemmaType::new(
        "x2a".to_string(),
        measure_spec.clone(),
        TypeExtends::custom_local("x".to_string(), "x".to_string()),
    );
    let type_x2_b = LemmaType::new(
        "x2b".to_string(),
        measure_spec,
        TypeExtends::custom_local("x".to_string(), "x".to_string()),
    );
    assert!(type_x2_a.same_measure_family(&type_x2_b));
}

#[test]
fn test_same_measure_family_different_families() {
    let measure_spec = TypeSpecification::measure();
    let money = LemmaType::new("money".to_string(), measure_spec.clone(), TypeExtends::Primitive);
    let temperature = LemmaType::new("temperature".to_string(), measure_spec, TypeExtends::Primitive);
    assert!(!money.same_measure_family(&temperature));
    assert!(!temperature.same_measure_family(&money));
}

#[test]
fn test_same_measure_family_measure_vs_non_measure() {
    let measure_spec = TypeSpecification::measure();
    let number_spec = TypeSpecification::number();
    let measure_type = LemmaType::new("money".to_string(), measure_spec, TypeExtends::Primitive);
    let number_type = LemmaType::new("amount".to_string(), number_spec, TypeExtends::Primitive);
    assert!(!measure_type.same_measure_family(&number_type));
    assert!(!number_type.same_measure_family(&measure_type));
}

#[test]
fn test_same_measure_family_anonymous_measures_are_not_family_compatible() {
    let left = LemmaType::anonymous_for_decomposition(duration_decomposition());
    let right = LemmaType::anonymous_for_decomposition(duration_decomposition());
    assert!(!left.same_measure_family(&right));
    assert!(left.compatible_with_anonymous_measure(&right));
}

#[test]
fn test_measure_family_name_non_measure_returns_none() {
    let number_spec = TypeSpecification::number();
    let number_type = LemmaType::new("amount".to_string(), number_spec, TypeExtends::Primitive);
    assert_eq!(number_type.measure_family_name(), None);
}

#[test]
fn test_lemma_type_inequality_local_vs_import_same_shape() {
    let measure_spec = TypeSpecification::measure();
    let local = LemmaType::new(
        "t".to_string(),
        measure_spec.clone(),
        TypeExtends::custom_local("money".to_string(), "money".to_string()),
    );
    let imported = LemmaType::new(
        "t".to_string(),
        measure_spec,
        TypeExtends::Custom {
            parent: "money".to_string(),
            family: "money".to_string(),
            defining_spec: TypeDefiningSpec::Import,
        },
    );
    assert_ne!(local, imported);
}

#[test]
fn test_lemma_type_equality_import_unit_variant() {
    let measure_spec = TypeSpecification::measure();
    let left = LemmaType::new(
        "t".to_string(),
        measure_spec.clone(),
        TypeExtends::Custom {
            parent: "money".to_string(),
            family: "money".to_string(),
            defining_spec: TypeDefiningSpec::Import,
        },
    );
    let right = LemmaType::new(
        "t".to_string(),
        measure_spec,
        TypeExtends::Custom {
            parent: "money".to_string(),
            family: "money".to_string(),
            defining_spec: TypeDefiningSpec::Import,
        },
    );
    assert_eq!(left, right);
}

#[test]
fn calendar_unit_factor_table_completeness() {
    for unit in &[SemanticCalendarUnit::Month, SemanticCalendarUnit::Year] {
        let name = unit.to_name();
        assert!(
            calendar_unit_factor(&name).is_some(),
            "calendar_unit_factor('{}') must return Some",
            name
        );
    }
    assert_eq!(calendar_unit_factor("year"), Some(rational_new(12, 1)));
    assert_eq!(calendar_unit_factor("month"), Some(rational_one()));
    assert_eq!(calendar_unit_factor("week"), None);
}

#[test]
fn semantic_calendar_unit_display_returns_singular() {
    assert_eq!(SemanticCalendarUnit::Month.to_name(), "month");
    assert_eq!(SemanticCalendarUnit::Year.to_name(), "year");
}

fn measure_type_with_kilogram() -> TypeSpecification {
    let mut units = MeasureUnits::new();
    units.push(MeasureUnit {
        name: "kilogram".to_string(),
        factor: rational_one(),
        minimum: None,
        maximum: None,
        suggestion_magnitude: None,
        decomposition: BaseMeasureVector::new(),
    });
    TypeSpecification::Measure {
        minimum: None,
        maximum: None,
        decimals: None,
        units,
        traits: Vec::new(),
        decomposition: None,
        help: String::new(),
    }
}

#[test]
fn value_kind_matches_spec_rejects_number_for_measure() {
    let n = ValueKind::Number(rational_new(10, 1));
    assert!(!value_kind_matches_spec(&n, &measure_type_with_kilogram()));
    let m = ValueKind::Measure(rational_new(10, 1));
    assert!(value_kind_matches_spec(&m, &measure_type_with_kilogram()));
    assert!(value_kind_matches_spec(&n, &TypeSpecification::ratio()));
}

#[test]
fn duration_and_calendar_likeness() {
    let anonymous_duration = LemmaType::anonymous_for_decomposition(duration_decomposition());
    assert!(anonymous_duration.is_duration_like());
    assert!(!anonymous_duration.is_calendar_like());
    let anonymous_calendar = LemmaType::anonymous_for_decomposition(calendar_decomposition());
    assert!(anonymous_calendar.is_calendar_like());
    let mut spec = TypeSpecification::measure();
    if let TypeSpecification::Measure { traits, .. } = &mut spec {
        traits.push(MeasureTrait::Duration);
    }
    let named = LemmaType::new("span".to_string(), spec, TypeExtends::Primitive);
    assert!(named.is_duration_like_measure());
    assert!(!anonymous_measure_type().is_duration_like());
}

#[test]
fn label_for_data_input_and_veto_message() {
    let age = LemmaType::new("age".to_string(), TypeSpecification::number(), TypeExtends::Primitive);
    assert_eq!(age.label_for_data_input("age"), "age [number]");
    assert_eq!(age.label_for_data_input("years"), "years [age]");
    let code = LemmaType::new(
        "gender_code".to_string(),
        TypeSpecification::text(),
        TypeExtends::custom_local("code".to_string(), "code".to_string()),
    );
    assert_eq!(code.label_for_data_input("gender"), "gender [code]");
    let number = LemmaType::primitive(TypeSpecification::number());
    assert_eq!(number.label_for_data_input("number"), "number");
    assert_eq!(age.data_veto_message("age", "too old"), "Data age [number]: too old");
}
