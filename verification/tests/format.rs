use dupscan::OutputFormat;

#[test]
fn known_format_names_parse_case_insensitively() {
    assert!(matches!(OutputFormat::from_str("human"), Ok(OutputFormat::Human)));
    assert!(matches!(OutputFormat::from_str("HUMAN"), Ok(OutputFormat::Human)));
    assert!(matches!(OutputFormat::from_str("HuMaN"), Ok(OutputFormat::Human)));
    assert!(matches!(OutputFormat::from_str("json"), Ok(OutputFormat::Json)));
    assert!(matches!(OutputFormat::from_str("JSON"), Ok(OutputFormat::Json)));
    assert!(matches!(OutputFormat::from_str("Json"), Ok(OutputFormat::Json)));
}

#[test]
fn unknown_format_name_is_rejected_with_its_input() {
    let err = OutputFormat::from_str("xml").unwrap_err();
    assert_eq!(err.input, "xml");
    assert_eq!(err.message(), "Cannot map xml to any output format");
}

#[test]
fn near_misses_are_rejected() {
    assert!(OutputFormat::from_str("").is_err());
    assert!(OutputFormat::from_str("humans").is_err());
    assert!(OutputFormat::from_str("jso").is_err());
    assert!(OutputFormat::from_str(" human").is_err());
}
