use specdoc::business_requirement_id::BusinessRequirementId;
use specdoc::SpecError;

#[test]
fn sorting() {
    let a = BusinessRequirementId::new("1.1").unwrap();
    let b = BusinessRequirementId::new("1.1.1").unwrap();
    let c = BusinessRequirementId::new("2.1").unwrap();
    let d = BusinessRequirementId::new("12.1").unwrap();

    assert!(a < b);
    assert!(b < c);
    assert!(c < d);
}

#[test]
fn parse_segments() {
    let id = BusinessRequirementId::new("1.2.3").unwrap();
    assert_eq!(id.0, vec![1u8, 2, 3]);
    let id = BusinessRequirementId::new("0").unwrap();
    assert_eq!(id.0, vec![0u8]);
    let id = BusinessRequirementId::new("255").unwrap();
    assert_eq!(id.0, vec![255u8]);
    let id = BusinessRequirementId::new("007").unwrap();
    assert_eq!(id.0, vec![7u8]);
}

#[test]
fn parse_rejects_malformed() {
    assert!(matches!(
        BusinessRequirementId::new(""),
        Err(SpecError::ParseError(_))
    ));
    assert!(matches!(
        BusinessRequirementId::new("1..2"),
        Err(SpecError::ParseError(_))
    ));
    assert!(matches!(
        BusinessRequirementId::new("1."),
        Err(SpecError::ParseError(_))
    ));
    assert!(matches!(
        BusinessRequirementId::new(".1"),
        Err(SpecError::ParseError(_))
    ));
    assert!(matches!(
        BusinessRequirementId::new("256"),
        Err(SpecError::ParseError(_))
    ));
    assert!(matches!(
        BusinessRequirementId::new("1.a"),
        Err(SpecError::ParseError(_))
    ));
    if let Err(SpecError::ParseError(m)) = BusinessRequirementId::new("1..2") {
        assert_eq!(m, "1..2");
    } else {
        panic!("expected a parse error");
    }
}

#[test]
fn display_round_trip() {
    let id = BusinessRequirementId::new("1.2.3").unwrap();
    let text = id.to_display_string();
    assert_eq!(text, "1.2.3");
    let again = BusinessRequirementId::new(&text).unwrap();
    assert!(again == id);

    // not byte-identical, but equal as an id
    let padded = BusinessRequirementId::new("01.002").unwrap();
    let text = padded.to_display_string();
    assert_eq!(text, "1.2");
    let again = BusinessRequirementId::new(&text).unwrap();
    assert!(again == padded);
}

#[test]
fn depth_and_markdown_level() {
    let id = BusinessRequirementId::new("1.2.3").unwrap();
    assert_eq!(id.elements_len(), 3);

    let br = specdoc::business_requirement::BusinessRequirement {
        id,
        name: String::from("top"),
        date: None,
        note: None,
        owner_id: None,
        persona_id: None,
    };
    assert_eq!(br.markdown_level(), 6);
}

#[test]
fn ordering_is_numeric_not_textual() {
    let two = BusinessRequirementId::new("2.1").unwrap();
    let twelve = BusinessRequirementId::new("12.1").unwrap();
    // as strings "12.1" < "2.1", but as ids the numeric order holds
    assert!("12.1" < "2.1");
    assert!(two < twelve);
    let prefix = BusinessRequirementId::new("3").unwrap();
    let longer = BusinessRequirementId::new("3.1").unwrap();
    assert!(prefix < longer);
}
