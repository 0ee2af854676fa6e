use lemma_planning::spec_set_id::parse_spec_set_id;

#[test]
fn parse_name_only() {
    assert_eq!(parse_spec_set_id("pricing").unwrap(), "pricing".to_string());
    assert_eq!(parse_spec_set_id("  pricing  ").unwrap(), "pricing".to_string());
}

#[test]
fn repository_qualifier_rejected() {
    assert!(parse_spec_set_id("nl/tax pricing").is_err());
    assert!(parse_spec_set_id("@iso/countries alpha2").is_err());
}

#[test]
fn tilde_rejected() {
    assert!(parse_spec_set_id("pricing~a1b2c3d4").is_err());
}

#[test]
fn caret_rejected() {
    assert!(parse_spec_set_id("pricing^a1b2c3d4").is_err());
}

#[test]
fn empty_err() {
    assert!(parse_spec_set_id("").is_err());
    assert!(parse_spec_set_id("   ").is_err());
}

#[test]
fn error_messages_name_the_rule() {
    assert_eq!(parse_spec_set_id("\t ").unwrap_err().message, "Spec set identifier cannot be empty");
    assert_eq!(parse_spec_set_id("a~b").unwrap_err().message, "Spec set identifier cannot contain '~'");
    assert_eq!(parse_spec_set_id("a^b").unwrap_err().message, "Spec set identifier cannot contain '^'");
    assert_eq!(parse_spec_set_id("a b").unwrap_err().message, "Spec set identifier must be a single spec name");
    let long = "x".repeat(300);
    assert_eq!(
        parse_spec_set_id(&long).unwrap_err().message,
        "Spec name exceeds maximum length (256 characters)"
    );
    assert_eq!(parse_spec_set_id(&"y".repeat(256)).unwrap(), "y".repeat(256));
}

#[test]
fn parsing_a_parsed_identifier_changes_nothing() {
    let once = parse_spec_set_id("  pricing \t").expect("accepted");
    assert_eq!(once, "pricing");
    assert_eq!(parse_spec_set_id(&once), Ok(once.clone()));
}
