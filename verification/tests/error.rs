use rad::error::{ErrorLevel, UnifiedError};

#[test]
fn test_unified_error_serialization() {
    let err = UnifiedError::l1("file not found", "Fs");
    assert_eq!(err.error_level(), ErrorLevel::L1);

    let json_str = err.to_json_string();
    assert!(json_str.contains("\"level\":\"L1\""));
    assert!(json_str.contains("\"message\":\"file not found\""));
    assert!(json_str.contains("\"category\":\"Fs\""));

    let deserialized = UnifiedError::from_json_string(&json_str).unwrap();
    match deserialized {
        UnifiedError::L1 { message, category } => {
            assert_eq!(message, "file not found");
            assert_eq!(category, "Fs");
        }
        _ => panic!("Expected L1 error"),
    }
}

#[test]
fn test_unified_error_l2() {
    let err = UnifiedError::l2("invalid syntax", "Parser");
    assert_eq!(err.error_level(), ErrorLevel::L2);

    let json_str = err.to_json_string();
    let deserialized = UnifiedError::from_json_string(&json_str).unwrap();
    match deserialized {
        UnifiedError::L2 { message, rollback_target } => {
            assert_eq!(message, "invalid syntax");
            assert_eq!(rollback_target, "Parser");
        }
        _ => panic!("Expected L2 error"),
    }
}

#[test]
fn test_unified_error_l3() {
    let err = UnifiedError::l3("token budget exceeded", Some(100), Some(80));
    assert_eq!(err.error_level(), ErrorLevel::L3);

    let json_str = err.to_json_string();
    let deserialized = UnifiedError::from_json_string(&json_str).unwrap();
    match deserialized {
        UnifiedError::L3 { message, prompt_tokens, limit } => {
            assert_eq!(message, "token budget exceeded");
            assert_eq!(prompt_tokens, Some(100));
            assert_eq!(limit, Some(80));
        }
        _ => panic!("Expected L3 error"),
    }
}

#[test]
fn error_json_is_read_back_in_either_serde_shape() {
    let pair = UnifiedError::from_json_string(r#"["L2", ["m", "n1"]]"#).unwrap();
    assert!(matches!(pair, UnifiedError::L2 { message, rollback_target } if message == "m" && rollback_target == "n1"));
    let missing = UnifiedError::from_json_string(r#"{"payload": {"message": "x"}, "level": "L3", "extra": 1}"#).unwrap();
    assert!(matches!(missing, UnifiedError::L3 { prompt_tokens: None, limit: None, .. }));
}

#[test]
fn malformed_error_json_reads_as_nothing() {
    assert!(UnifiedError::from_json_string("not json").is_none());
    assert!(UnifiedError::from_json_string(r#"{"level": "L4", "payload": {}}"#).is_none());
    assert!(UnifiedError::from_json_string(r#"{"level": "L1", "payload": {"message": "m"}}"#).is_none());
    assert!(UnifiedError::from_json_string(r#"{"level": "L3", "payload": {"message": "m", "limit": -1}}"#).is_none());
    assert!(UnifiedError::from_json_string(r#"{"level": "L1"}"#).is_none());
}

#[test]
fn error_texts_match_their_levels() {
    assert_eq!(UnifiedError::l1("m", "c").to_text(), "L1 (Adaptation) Error: m (c)");
    assert_eq!(UnifiedError::l2("m", "n1").to_text(), "L2 (Rollback) Error: m (rollback to: n1)");
    assert_eq!(UnifiedError::l3("m", Some(5), None).to_text(), "L3 (Reset) Error: m (tokens: Some(5)/None)");
}

#[test]
fn error_json_escapes_quotes_and_control_characters() {
    let s = UnifiedError::l1("a \"q\" \\ \n\t\u{1}", "C").to_json_string();
    assert_eq!(s, "{\"level\":\"L1\",\"payload\":{\"message\":\"a \\\"q\\\" \\\\ \\n\\t\\u0001\",\"category\":\"C\"}}");
    let l3 = UnifiedError::l3("x", None, Some(7)).to_json_string();
    assert_eq!(l3, "{\"level\":\"L3\",\"payload\":{\"message\":\"x\",\"prompt_tokens\":null,\"limit\":7}}");
}
