use lemma_planning::dispatch_build::build_ordered_dispatch;
use lemma_planning::comparison::ComparisonComputation;
use lemma_planning::ordered_dispatch::{
    classify_dispatch, dispatch_key_of_literal, is_exclusive_point_table, paint_dispatch_regions,
    region_count, region_for_value, regions_matching, sorted_unique_boundaries, DispatchClass,
    DispatchKey, DispatchKeyBuildError,
};
use lemma_planning::ordered_dispatch::{dispatch_probe_of, region_of_scrutinee, DispatchProbe, DispatchProbeOutcome};
use lemma_planning::rational::rational_new;
use std::cmp::Ordering;
use lemma_planning::temporal::{SemanticDateTime, SemanticTimezone};
use lemma_planning::values::{
    primitive_boolean_arc, primitive_number_arc, primitive_ratio_arc, primitive_text_arc,
    LiteralValue, ValueKind,
};

fn rational_key(numerator: i64) -> DispatchKey {
    DispatchKey::Rational(rational_new(numerator, 1))
}

fn text_key(text: &str) -> DispatchKey {
    DispatchKey::Text(text.to_string())
}

#[test]
fn greater_than_and_greater_or_equal_differ_only_at_the_point_region() {
    let strictly = regions_matching(&ComparisonComputation::GreaterThan, 1, 3);
    let inclusive = regions_matching(&ComparisonComputation::GreaterThanOrEqual, 1, 3);
    assert_eq!(strictly, [Some((4, 6)), None]);
    assert_eq!(inclusive, [Some((3, 6)), None]);
}

#[test]
fn less_than_and_less_or_equal_differ_only_at_the_point_region() {
    let strictly = regions_matching(&ComparisonComputation::LessThan, 1, 3);
    let inclusive = regions_matching(&ComparisonComputation::LessThanOrEqual, 1, 3);
    assert_eq!(strictly, [Some((0, 2)), None]);
    assert_eq!(inclusive, [Some((0, 3)), None]);
}

#[test]
fn is_not_claims_everything_except_its_point() {
    assert_eq!(
        regions_matching(&ComparisonComputation::IsNot, 1, 3),
        [Some((0, 2)), Some((4, 6))]
    );
}

#[test]
fn exclusive_point_table_requires_interval_default_and_flat_points() {
    assert!(is_exclusive_point_table(&[0, 1, 0, 2, 0], |_| false));
    assert!(!is_exclusive_point_table(&[0, 1, 3, 2, 0], |_| false));
    assert!(!is_exclusive_point_table(&[0, 1, 0, 2, 0], |body| body == 2));
}

fn forward_fill(boundary_count: usize, arms: &[(ComparisonComputation, usize, u8)]) -> Vec<u8> {
    let mut forward = vec![0u8; region_count(boundary_count)];
    for (operator, boundary_index, body) in arms {
        for (start, end) in regions_matching(operator, *boundary_index, boundary_count)
            .into_iter()
            .flatten()
        {
            forward[start..=end].fill(*body);
        }
    }
    forward
}

#[test]
fn paint_last_wins_matches_forward_overwrite_on_overlapping_spans() {
    let forward = {
        let mut regions = vec![0u8; 5];
        for (start, end) in regions_matching(&ComparisonComputation::GreaterThan, 0, 2)
            .into_iter()
            .flatten()
        {
            regions[start..=end].fill(1);
        }
        for (start, end) in regions_matching(&ComparisonComputation::GreaterThan, 1, 2)
            .into_iter()
            .flatten()
        {
            regions[start..=end].fill(2);
        }
        regions
    };
    let painted = paint_dispatch_regions(
        2,
        0u8,
        &[
            (ComparisonComputation::GreaterThan, 0, 1u8),
            (ComparisonComputation::GreaterThan, 1, 2u8),
        ],
    );
    assert_eq!(painted, forward);
    assert_eq!(painted, vec![0, 0, 1, 1, 2]);
}

#[test]
fn paint_is_not_and_duplicate_keys_agree_with_forward_fill() {
    let arms = [
        (ComparisonComputation::IsNot, 0usize, 1u8),
        (ComparisonComputation::Is, 0, 2u8),
        (ComparisonComputation::Is, 1, 3u8),
    ];
    let boundary_count = 2;
    let forward = forward_fill(boundary_count, &arms);
    assert_eq!(paint_dispatch_regions(boundary_count, 0u8, &arms), forward);
}

#[test]
fn paint_many_overlapping_arms_agrees_with_forward_fill() {
    let arms = [
        (ComparisonComputation::LessThanOrEqual, 3usize, 1u8),
        (ComparisonComputation::GreaterThan, 1, 2u8),
        (ComparisonComputation::IsNot, 2, 3u8),
        (ComparisonComputation::Is, 0, 4u8),
        (ComparisonComputation::GreaterThanOrEqual, 4, 5u8),
        (ComparisonComputation::LessThan, 1, 6u8),
    ];
    let boundary_count = 5;
    assert_eq!(paint_dispatch_regions(boundary_count, 0u8, &arms), forward_fill(boundary_count, &arms));
    assert_eq!(paint_dispatch_regions(0, 7u8, &[]), vec![7u8]);
}

#[test]
fn classify_dispatch_pairs_are_accepted_by_comparison_operation() {
    let cases: Vec<(LiteralValue, LiteralValue, ComparisonComputation)> = vec![
        (
            LiteralValue::number(rational_new(1, 1)),
            LiteralValue::number(rational_new(2, 1)),
            ComparisonComputation::LessThan,
        ),
        (
            LiteralValue::number(rational_new(3, 1)),
            LiteralValue::number(rational_new(3, 1)),
            ComparisonComputation::Is,
        ),
        (
            LiteralValue::text("NL".into()),
            LiteralValue::text("NL".into()),
            ComparisonComputation::Is,
        ),
        (
            LiteralValue::text("NL".into()),
            LiteralValue::text("BE".into()),
            ComparisonComputation::IsNot,
        ),
        (
            LiteralValue::ratio(rational_new(1, 2)),
            LiteralValue::ratio(rational_new(3, 4)),
            ComparisonComputation::LessThan,
        ),
    ];

    for (scrutinee, key, operator) in &cases {
        let scrutinee_type = match &scrutinee.value {
            ValueKind::Number(_) => primitive_number_arc(),
            ValueKind::Text(_) => primitive_text_arc(),
            ValueKind::Ratio(_) => primitive_ratio_arc(),
            other => panic!("unexpected scrutinee kind {other:?}"),
        };
        let class = classify_dispatch(scrutinee_type.as_ref(), &[key]).unwrap_or_else(|| {
            panic!(
                "classify_dispatch must accept {:?} vs {:?}",
                scrutinee.value, key.value
            )
        });
        if class == DispatchClass::Text {
            assert!(
                matches!(
                    operator,
                    ComparisonComputation::Is | ComparisonComputation::IsNot
                ),
                "text class only uses is / is not"
            );
        }
    }

    let boolean = LiteralValue::from_bool(true);
    assert!(
        classify_dispatch(primitive_boolean_arc().as_ref(), &[&boolean]).is_none(),
        "boolean scrutinees are not a dispatch class"
    );
}

#[test]
fn region_lookup_places_values_below_at_and_above_each_boundary() {
    let boundaries = vec![rational_key(0), rational_key(5), rational_key(10)];
    let cases = [(-1, 0usize), (0, 1), (3, 2), (5, 3), (7, 4), (10, 5), (11, 6)];
    for (value, expected) in cases {
        assert_eq!(
            region_for_value(&boundaries, &rational_key(value).as_probe()).expect("comparable"),
            expected
        );
    }
    assert_eq!(region_for_value(&[], &rational_key(42).as_probe()).expect("comparable"), 0);
}

#[test]
fn boundaries_are_sorted_and_deduplicated() {
    let sorted = sorted_unique_boundaries(vec![
        rational_key(5),
        rational_key(-2),
        rational_key(5),
        rational_key(0),
    ])
    .expect("comparable");
    assert_eq!(sorted, vec![rational_key(-2), rational_key(0), rational_key(5)]);
}

#[test]
fn text_boundaries_sort_lexicographically() {
    let sorted = sorted_unique_boundaries(vec![text_key("NL"), text_key("AD"), text_key("ZW")])
        .expect("comparable");
    assert_eq!(sorted, vec![text_key("AD"), text_key("NL"), text_key("ZW")]);
    assert_eq!(region_for_value(&sorted, &text_key("NL").as_probe()).expect("comparable"), 3);
    assert_eq!(region_for_value(&sorted, &text_key("BE").as_probe()).expect("comparable"), 2);
}

#[test]
fn date_keys_order_by_utc_instant() {
    let utc = SemanticDateTime { year: 2024, month: 1, day: 1, hour: 12, minute: 0, second: 0, microsecond: 0, timezone: None };
    let plus_two = SemanticDateTime {
        hour: 13,
        timezone: Some(SemanticTimezone { offset_hours: 2, offset_minutes: 0 }),
        ..utc
    };
    let a = dispatch_key_of_literal(&ValueKind::Date(utc)).expect("valid");
    let b = dispatch_key_of_literal(&ValueKind::Date(plus_two)).expect("valid");
    match (&a, &b) {
        (DispatchKey::Date(x), DispatchKey::Date(y)) => assert!(y < x),
        _ => panic!("expected date keys"),
    }
    let epoch = SemanticDateTime { year: 1970, month: 1, day: 1, hour: 0, minute: 0, second: 0, microsecond: 0, timezone: None };
    assert_eq!(dispatch_key_of_literal(&ValueKind::Date(epoch)).expect("valid"), DispatchKey::Date(0));
    let feb30 = SemanticDateTime { month: 2, day: 30, ..utc };
    assert!(matches!(
        dispatch_key_of_literal(&ValueKind::Date(feb30)),
        Err(DispatchKeyBuildError::CalendarFailure(_))
    ));
    assert_eq!(
        dispatch_key_of_literal(&ValueKind::Boolean(true)),
        Err(DispatchKeyBuildError::Unsupported)
    );
}

#[test]
fn dispatch_table_agrees_with_the_unless_chain() {
    let number = lemma_planning::types::LemmaType::primitive(lemma_planning::types::TypeSpecification::number());
    let keys = vec![
        LiteralValue::number(rational_new(10, 1)),
        LiteralValue::number(rational_new(20, 1)),
        LiteralValue::number(rational_new(10, 1)),
    ];
    let operators = [
        ComparisonComputation::LessThan,
        ComparisonComputation::GreaterThanOrEqual,
        ComparisonComputation::Is,
    ];
    let bodies = ["small", "large", "ten"];
    let (boundaries, regions) = build_ordered_dispatch(&number, &operators, &keys, "default", &bodies)
        .expect("fits")
        .expect("dispatches");
    assert_eq!(boundaries, vec![rational_key(10), rational_key(20)]);
    assert_eq!(regions, vec!["small", "ten", "default", "large", "large"]);

    for probe in [5i64, 10, 15, 20, 25] {
        let value = rational_new(probe, 1);
        let region = region_for_value(&boundaries, &DispatchKey::Rational(value).as_probe()).expect("fits");
        let mut chain = "default";
        for (index, operator) in operators.iter().enumerate() {
            let key = 10 + 10 * (index as i64 % 2);
            let holds = match operator {
                ComparisonComputation::LessThan => probe < key,
                ComparisonComputation::GreaterThanOrEqual => probe >= key,
                ComparisonComputation::Is => probe == key,
                _ => unreachable!(),
            };
            if holds {
                chain = bodies[index];
            }
        }
        assert_eq!(regions[region], chain, "probe {probe}");
    }
}

#[test]
fn dispatch_table_declines_text_ordering_and_mixed_keys() {
    let text = lemma_planning::types::LemmaType::primitive(lemma_planning::types::TypeSpecification::text());
    let keys = vec![LiteralValue::text("b".to_string())];
    let declined = build_ordered_dispatch(&text, &[ComparisonComputation::LessThan], &keys, 0u8, &[1u8]);
    assert_eq!(declined, Ok(None));
    let accepted = build_ordered_dispatch(&text, &[ComparisonComputation::IsNot], &keys, 0u8, &[1u8])
        .expect("fits")
        .expect("dispatches");
    assert_eq!(accepted.0, vec![text_key("b")]);
    assert_eq!(accepted.1, vec![1, 0, 1]);

    let number = lemma_planning::types::LemmaType::primitive(lemma_planning::types::TypeSpecification::number());
    let mixed = vec![LiteralValue::number(rational_new(1, 1)), LiteralValue::text("x".to_string())];
    assert_eq!(
        build_ordered_dispatch(&number, &[ComparisonComputation::Is, ComparisonComputation::Is], &mixed, 0u8, &[1u8, 2u8]),
        Ok(None)
    );
}

#[test]
fn dispatch_table_reports_a_date_outside_the_calendar() {
    let date = lemma_planning::types::LemmaType::primitive(lemma_planning::types::TypeSpecification::date());
    let bad = SemanticDateTime {
        year: 2024,
        month: 2,
        day: 30,
        hour: 0,
        minute: 0,
        second: 0,
        microsecond: 0,
        timezone: None,
    };
    let keys = vec![LiteralValue::date(bad)];
    assert_eq!(
        build_ordered_dispatch(&date, &[ComparisonComputation::LessThan], &keys, 0u8, &[1u8]),
        Err("ordered dispatch: invalid calendar date".to_string())
    );
}

fn predicate_holds(scrutinee: &DispatchKey, operator: &ComparisonComputation, boundary: &DispatchKey) -> bool {
    let ordering = scrutinee.try_compare(&boundary.as_probe()).expect("test keys compare without failure");
    match operator {
        ComparisonComputation::Is => ordering == Ordering::Equal,
        ComparisonComputation::IsNot => ordering != Ordering::Equal,
        ComparisonComputation::GreaterThan => ordering == Ordering::Greater,
        ComparisonComputation::GreaterThanOrEqual => ordering != Ordering::Less,
        ComparisonComputation::LessThan => ordering == Ordering::Less,
        ComparisonComputation::LessThanOrEqual => ordering != Ordering::Greater,
    }
}

fn all_operators() -> Vec<ComparisonComputation> {
    vec![
        ComparisonComputation::Is,
        ComparisonComputation::IsNot,
        ComparisonComputation::GreaterThan,
        ComparisonComputation::GreaterThanOrEqual,
        ComparisonComputation::LessThan,
        ComparisonComputation::LessThanOrEqual,
    ]
}

#[test]
fn empty_boundary_list_has_one_region() {
    assert_eq!(region_count(0), 1);
    assert_eq!(region_for_value(&[], &rational_key(42).as_probe()).expect("comparable"), 0);
}

#[test]
fn claimed_regions_agree_with_the_predicate_at_every_region() {
    let boundaries = vec![rational_key(0), rational_key(5), rational_key(10)];
    let representatives = [-5, 0, 2, 5, 7, 10, 15];
    assert_eq!(representatives.len(), region_count(boundaries.len()));

    for operator in all_operators() {
        for (boundary_index, boundary) in boundaries.iter().enumerate() {
            let mut claimed = vec![false; region_count(boundaries.len())];
            for span in regions_matching(&operator, boundary_index, boundaries.len()).into_iter().flatten() {
                let (start, end) = span;
                for region in claimed.iter_mut().take(end + 1).skip(start) {
                    *region = true;
                }
            }
            for (region, value) in representatives.iter().enumerate() {
                let scrutinee = rational_key(*value);
                assert_eq!(
                    region_for_value(&boundaries, &scrutinee.as_probe()).expect("comparable"),
                    region,
                    "representative {value} must sit in region {region}"
                );
                assert_eq!(
                    claimed[region],
                    predicate_holds(&scrutinee, &operator, boundary),
                    "operator {operator:?} against boundary index {boundary_index} disagrees at region {region} (value {value})"
                );
            }
        }
    }
}

#[test]
fn probe_of_text_and_rational_borrows_without_clone() {
    let text = ValueKind::Text("NL".to_string());
    let number = ValueKind::Number(rational_new(3, 1));
    match dispatch_probe_of(&text) {
        DispatchProbeOutcome::Probe(DispatchProbe::Text(borrowed)) => {
            assert_eq!(borrowed, "NL");
        }
        other => panic!("expected text probe, got {other:?}"),
    }
    match dispatch_probe_of(&number) {
        DispatchProbeOutcome::Probe(DispatchProbe::Rational(borrowed)) => {
            assert_eq!(*borrowed, rational_new(3, 1));
        }
        other => panic!("expected rational probe, got {other:?}"),
    }
}

#[test]
fn scrutinee_regions_and_calendar_failures() {
    let boundaries = vec![rational_key(10), rational_key(20)];
    assert_eq!(region_of_scrutinee(&boundaries, &ValueKind::Number(rational_new(5, 1))), Ok(0));
    assert_eq!(region_of_scrutinee(&boundaries, &ValueKind::Number(rational_new(10, 1))), Ok(1));
    assert_eq!(region_of_scrutinee(&boundaries, &ValueKind::Number(rational_new(15, 1))), Ok(2));
    assert_eq!(region_of_scrutinee(&boundaries, &ValueKind::Number(rational_new(25, 1))), Ok(4));
    let bad = SemanticDateTime { year: 2024, month: 2, day: 30, hour: 0, minute: 0, second: 0, microsecond: 0, timezone: None };
    assert_eq!(region_of_scrutinee(&[], &ValueKind::Date(bad)), Err("invalid calendar date".to_string()));
}
