use vc_runtime::sim_args::{parse_pattern, parse_u64_text, validate_input, SimArgsError};

#[test]
fn parses_comma_separated_pattern() {
    assert_eq!(parse_pattern(Some("50, 180,+7".to_string())), Ok(vec![50, 180, 7]));
    assert_eq!(parse_pattern(None), Ok(Vec::new()));
    assert_eq!(parse_pattern(Some("   ".to_string())), Ok(Vec::new()));
}

#[test]
fn pattern_reports_the_first_unparsable_element() {
    assert_eq!(parse_pattern(Some("50,abc,x".to_string())), Err("abc".to_string()));
    assert_eq!(parse_pattern(Some("50,".to_string())), Err(String::new()));
    assert_eq!(
        parse_pattern(Some("18446744073709551616".to_string())),
        Err("18446744073709551616".to_string())
    );
}

#[test]
fn parses_like_str_parse() {
    for text in ["0", "+0", "18446744073709551615", "+", "", "-1", "1_0", "٣", "007"] {
        assert_eq!(parse_u64_text(text), text.parse::<u64>().ok(), "{text}");
    }
}

#[test]
fn validates_simulator_arguments() {
    assert_eq!(validate_input(1000, 100, 50, 6, None), Ok(()));
    assert_eq!(validate_input(0, 100, 50, 6, None), Err(SimArgsError::DurationZero));
    assert_eq!(validate_input(1000, 0, 50, 6, None), Err(SimArgsError::ChunkZero));
    assert_eq!(validate_input(1000, 100, 0, 6, None), Err(SimArgsError::HopZero));
    assert_eq!(validate_input(1000, 100, 50, 0, None), Err(SimArgsError::QueueCapacityZero));
    assert_eq!(validate_input(1000, 100, 50, 6, Some("10, ,20")), Ok(()));
    assert_eq!(
        validate_input(1000, 100, 50, 6, Some("10,0")),
        Err(SimArgsError::PatternValueNotPositive)
    );
    assert_eq!(
        validate_input(1000, 100, 50, 6, Some("10,ten")),
        Err(SimArgsError::PatternValueNotPositive)
    );
    assert_eq!(
        SimArgsError::PatternValueNotPositive.message(),
        "worker-ms-pattern values must all be > 0 (or omitted)"
    );
}

#[test]
fn validated_patterns_read_as_positive_times() {
    let text = "50, 180,+7";
    assert_eq!(validate_input(1000, 100, 50, 6, Some(text)), Ok(()));
    let values = parse_pattern(Some(text.to_string())).unwrap();
    assert!(values.iter().all(|v| *v > 0));
}
