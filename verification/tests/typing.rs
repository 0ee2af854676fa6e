use std::sync::Arc;

use lemma_planning::comparison::ArithmeticComputation;
use lemma_planning::rational::rational_one;
use lemma_planning::show::{conversion_target_from, ShowConversionTarget};
use lemma_planning::snapshot::{check_snapshot_header, checksum_verdict, frame_snapshot, unframe_body};
use lemma_planning::types::{LemmaType, PrimitiveKind, TypeExtends, TypeSpecification};
use lemma_planning::typing::{compute_arithmetic_result_type_recursive, SemanticConversionTarget};
use lemma_planning::units::{duration_decomposition, BaseMeasureVector, MeasureTrait, MeasureUnit, MeasureUnits};

fn measure(name: &str, dims: BaseMeasureVector, traits: Vec<MeasureTrait>) -> Arc<LemmaType> {
    Arc::new(LemmaType::new(
        name.to_string(),
        TypeSpecification::Measure {
            minimum: None,
            maximum: None,
            decimals: None,
            units: MeasureUnits(vec![MeasureUnit {
                name: format!("{name}_unit"),
                factor: rational_one(),
                decomposition: BaseMeasureVector::new(),
                minimum: None,
                maximum: None,
                suggestion_magnitude: None,
            }]),
            traits,
            decomposition: Some(dims),
            help: String::new(),
        },
        TypeExtends::Primitive,
    ))
}

fn primitive(spec: TypeSpecification) -> Arc<LemmaType> {
    Arc::new(LemmaType::primitive(spec))
}

fn decomposition_of(t: &LemmaType) -> Vec<(String, i32)> {
    match &t.specifications {
        TypeSpecification::Measure { decomposition: Some(d), .. } => d.entries().clone(),
        other => panic!("expected a measure, got {other:?}"),
    }
}

#[test]
fn number_arithmetic_stays_number() {
    let n = primitive(TypeSpecification::number());
    let r = compute_arithmetic_result_type_recursive(n.clone(), &ArithmeticComputation::Multiply, n, false);
    assert!(r.is_number());
    assert!(r.name.is_none());
}

#[test]
fn measure_products_combine_decompositions() {
    let length = BaseMeasureVector::single("length".to_string(), 1);
    let road = measure("road", length, Vec::new());
    let area = compute_arithmetic_result_type_recursive(road.clone(), &ArithmeticComputation::Multiply, road.clone(), false);
    assert!(area.is_anonymous_measure());
    assert_eq!(decomposition_of(&area), vec![("length".to_string(), 2)]);
    let ratio = compute_arithmetic_result_type_recursive(road.clone(), &ArithmeticComputation::Divide, road, false);
    assert!(ratio.is_number());
}

#[test]
fn number_over_measure_inverts_the_decomposition() {
    let n = primitive(TypeSpecification::number());
    let duration = measure("duration", duration_decomposition(), vec![MeasureTrait::Duration]);
    let frequency = compute_arithmetic_result_type_recursive(n, &ArithmeticComputation::Divide, duration, false);
    assert!(frequency.is_anonymous_measure());
    assert_eq!(decomposition_of(&frequency), vec![("duration".to_string(), -1)]);
}

#[test]
fn adding_a_number_to_a_measure_is_undetermined() {
    let n = primitive(TypeSpecification::number());
    let duration = measure("duration", duration_decomposition(), vec![MeasureTrait::Duration]);
    let left = compute_arithmetic_result_type_recursive(duration.clone(), &ArithmeticComputation::Add, n.clone(), false);
    assert!(left.is_undetermined());
    let scaled = compute_arithmetic_result_type_recursive(n, &ArithmeticComputation::Multiply, duration, false);
    assert_eq!(scaled.name(), "duration");
}

#[test]
fn dates_shift_by_durations_and_veto_propagates() {
    let date = primitive(TypeSpecification::date());
    let duration = measure("duration", duration_decomposition(), vec![MeasureTrait::Duration]);
    let later = compute_arithmetic_result_type_recursive(date.clone(), &ArithmeticComputation::Add, duration.clone(), false);
    assert!(later.is_date());
    let swapped = compute_arithmetic_result_type_recursive(duration, &ArithmeticComputation::Add, date.clone(), false);
    assert!(swapped.is_date());
    let veto = Arc::new(LemmaType::veto_type());
    assert!(compute_arithmetic_result_type_recursive(veto, &ArithmeticComputation::Add, date, false).vetoed());
}

#[test]
fn unrelated_kinds_are_undetermined_in_either_order() {
    let text = primitive(TypeSpecification::text());
    let n = primitive(TypeSpecification::number());
    let r = compute_arithmetic_result_type_recursive(n, &ArithmeticComputation::Add, text, false);
    assert!(r.is_undetermined());
}

#[test]
fn show_conversion_target_keeps_kind_or_unit_name() {
    assert_eq!(
        conversion_target_from(&SemanticConversionTarget::Type(PrimitiveKind::Number)),
        ShowConversionTarget::Type(PrimitiveKind::Number)
    );
    let owner = measure("duration", duration_decomposition(), vec![MeasureTrait::Duration]);
    assert_eq!(
        conversion_target_from(&SemanticConversionTarget::Unit { unit_name: "hour".to_string(), owning_type: owner }),
        ShowConversionTarget::Unit { unit_name: "hour".to_string() }
    );
}

#[test]
fn framed_snapshot_body_reads_back() {
    let header = [4u8, 76, 69, 77, 83];
    let body = b"the plan body".to_vec();
    let framed = frame_snapshot(&header, &body);
    assert_eq!(framed.len(), header.len() + body.len() + 4);
    assert_eq!(&framed[..header.len()], &header);
    let rest = &framed[header.len()..];
    assert_eq!(unframe_body(rest), Ok(body.clone()));
    let stored = u32::from_le_bytes([rest[rest.len() - 4], rest[rest.len() - 3], rest[rest.len() - 2], rest[rest.len() - 1]]);
    assert_eq!(stored, crc32c::crc32c(&body));
}

#[test]
fn corrupted_or_short_snapshots_are_rejected() {
    let framed = frame_snapshot(&[], b"abc");
    let mut flipped_body = framed.clone();
    flipped_body[1] ^= 0xff;
    let err = unframe_body(&flipped_body).unwrap_err();
    assert!(err.message.starts_with("engine snapshot checksum mismatch: stored 0x"), "{}", err.message);
    let mut flipped_crc = framed.clone();
    let last = flipped_crc.len() - 1;
    flipped_crc[last] ^= 0xff;
    assert!(unframe_body(&flipped_crc).unwrap_err().message.contains("checksum mismatch"));
    assert_eq!(
        unframe_body(&[1, 2]).unwrap_err().message,
        "engine snapshot body too short: 2 bytes after header, need at least 4 for the checksum"
    );
    assert_eq!(
        checksum_verdict(b"x", 0x0000_00ab, 0x1234_5678).unwrap_err().message,
        "engine snapshot checksum mismatch: stored 0x000000ab, computed 0x12345678"
    );
}

#[test]
fn snapshot_headers_need_the_magic_and_the_running_version() {
    assert_eq!(check_snapshot_header(b"LEMS", "1.2.3", "1.2.3"), Ok(()));
    assert_eq!(
        check_snapshot_header(b"XEMS", "1.2.3", "1.2.3").unwrap_err().message,
        "engine snapshot magic mismatch: expected [76, 69, 77, 83], got [88, 69, 77, 83]"
    );
    assert_eq!(
        check_snapshot_header(b"LEMS", "0.0.0-foreign", "1.2.3").unwrap_err().message,
        "engine snapshot version mismatch: snapshot is '0.0.0-foreign', this engine is '1.2.3'"
    );
}

#[test]
fn veto_beats_undetermined_and_undetermined_spreads_for_every_operator() {
    let ops = [
        ArithmeticComputation::Add,
        ArithmeticComputation::Subtract,
        ArithmeticComputation::Multiply,
        ArithmeticComputation::Divide,
        ArithmeticComputation::Modulo,
        ArithmeticComputation::Power,
    ];
    for op in ops.iter() {
        for swapped in [false, true] {
            let veto = Arc::new(LemmaType::veto_type());
            let undetermined = Arc::new(LemmaType::undetermined_type());
            let number = primitive(TypeSpecification::Number { minimum: None, maximum: None, decimals: None, help: String::new() });
            assert!(compute_arithmetic_result_type_recursive(undetermined.clone(), op, veto.clone(), swapped).vetoed());
            assert!(compute_arithmetic_result_type_recursive(number.clone(), op, veto, swapped).vetoed());
            assert!(compute_arithmetic_result_type_recursive(number.clone(), op, undetermined.clone(), swapped).is_undetermined());
            assert!(compute_arithmetic_result_type_recursive(undetermined, op, number, swapped).is_undetermined());
        }
    }
}
