use lemma_planning::signature::{
    canonicalize_signature, combine_signatures, format_signature_operator_style, negate_signature,
};

fn sig(pairs: &[(&str, i32)]) -> Vec<(String, i32)> {
    pairs.iter().map(|(s, e)| (s.to_string(), *e)).collect()
}

#[test]
fn combine_signatures_multiply_adds_exponents() {
    let left = sig(&[("eur", 1)]);
    let right = sig(&[("hour", -1)]);
    let result = combine_signatures(&left, &right, true);
    assert_eq!(result, sig(&[("eur", 1), ("hour", -1)]));
}

#[test]
fn combine_signatures_divide_subtracts_exponents() {
    let left = sig(&[("eur", 1)]);
    let right = sig(&[("hour", 1)]);
    let result = combine_signatures(&left, &right, false);
    assert_eq!(result, sig(&[("eur", 1), ("hour", -1)]));
}

#[test]
fn combine_signatures_cancels_to_empty() {
    let left = sig(&[("ce", 1), ("minute", -1)]);
    let right = sig(&[("minute", 1)]);
    let result = combine_signatures(&left, &right, true);
    assert_eq!(result, sig(&[("ce", 1)]));
}

#[test]
fn combine_signatures_output_is_canonical_form() {
    let left = sig(&[("eur", 1), ("hour", 1)]);
    let right = sig(&[("minute", 1)]);
    let result = combine_signatures(&left, &right, false);
    let expected = sig(&[("eur", 1), ("hour", 1), ("minute", -1)]);
    assert_eq!(result, expected);
}

#[test]
fn canonicalize_signature_drops_zero_exponents() {
    let sig_with_zero = sig(&[("eur", 1), ("hour", 0), ("minute", -1)]);
    let result = canonicalize_signature(&sig_with_zero);
    assert_eq!(result, sig(&[("eur", 1), ("minute", -1)]));
}

#[test]
fn canonicalize_signature_sorts_by_name() {
    let unsorted = sig(&[("minute", -1), ("eur", 1)]);
    let result = canonicalize_signature(&unsorted);
    assert_eq!(result, sig(&[("eur", 1), ("minute", -1)]));
}

#[test]
fn format_signature_operator_style_numerator_only() {
    let signature = sig(&[("eur", 1)]);
    let result = format_signature_operator_style(&signature);
    assert_eq!(result, "eur");
}

#[test]
fn format_signature_operator_style_with_denominator() {
    let signature = sig(&[("eur", 1), ("hour", -1)]);
    let result = format_signature_operator_style(&signature);
    assert_eq!(result, "eur/hour");
}

#[test]
fn format_signature_operator_style_denominator_only() {
    let signature = sig(&[("meter", -1)]);
    let result = format_signature_operator_style(&signature);
    assert_eq!(result, "1/meter");
}

#[test]
fn format_signature_operator_style_with_exponents() {
    let signature = sig(&[("meter", 2), ("second", -2)]);
    let result = format_signature_operator_style(&signature);
    assert_eq!(result, "meter^2/second^2");
}

#[test]
fn format_signature_operator_style_empty_and_multi_digit_exponent() {
    assert_eq!(format_signature_operator_style(&sig(&[])), "");
    assert_eq!(format_signature_operator_style(&sig(&[("meter", 1), ("meter", -1)])), "");
    assert_eq!(
        format_signature_operator_style(&sig(&[("kilogram", 1), ("meter", 12), ("second", -2), ("ampere", -1)])),
        "kilogram*meter^12/ampere*second^2"
    );
}

#[test]
fn canonicalize_sums_duplicates_and_is_idempotent() {
    let once = canonicalize_signature(&sig(&[("b", 2), ("a", 1), ("b", -1), ("c", 0), ("a", 2)]));
    assert_eq!(once, sig(&[("a", 3), ("b", 1)]));
    let twice = canonicalize_signature(&once);
    assert_eq!(twice, once);
}

#[test]
fn multiply_then_divide_returns_canonical_left() {
    let left = sig(&[("meter", 1), ("second", -1), ("meter", 1)]);
    let right = sig(&[("second", 2), ("kilogram", 1)]);
    let product = combine_signatures(&left, &right, true);
    assert_eq!(product, sig(&[("kilogram", 1), ("meter", 2), ("second", 1)]));
    let back = combine_signatures(&product, &right, false);
    assert_eq!(back, canonicalize_signature(&left));
}

#[test]
fn multiplication_commutes() {
    let left = sig(&[("eur", 1), ("hour", -1)]);
    let right = sig(&[("hour", 1), ("kilogram", 2)]);
    assert_eq!(combine_signatures(&left, &right, true), combine_signatures(&right, &left, true));
}

#[test]
fn negate_signature_flips_each_exponent() {
    assert_eq!(negate_signature(&sig(&[("eur", 1), ("hour", -2)])), sig(&[("eur", -1), ("hour", 2)]));
}
