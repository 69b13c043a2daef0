use rad::error::UnifiedError;
use rad::http::validate_headers;
use rad::process::read_available;

fn s(x: &str) -> String {
    x.to_string()
}

#[test]
fn header_refusals_carry_http_texts() {
    let e = validate_headers(&vec![(s("bad name"), s("v"))]).unwrap_err();
    assert_eq!(e.to_text(), "L1 (Adaptation) Error: Invalid header name: invalid HTTP header name (Http)");
    let e = validate_headers(&vec![(s("X-Ok"), s("bad\nvalue"))]).unwrap_err();
    assert!(e.to_text().contains("failed to parse header value"), "{}", e.to_text());
    assert!(validate_headers(&vec![(s("X-Token_1"), s("tab\tand é"))]).is_ok());
    assert!(validate_headers(&vec![(s(""), s("v"))]).is_err());
    assert!(validate_headers(&vec![(s("naïve"), s("v"))]).is_err());
}

#[test]
fn available_output_is_joined_per_stream() {
    let (out, err, active) = read_available(vec![b"ab".to_vec(), b"c".to_vec()], vec![]);
    assert_eq!(out, b"abc".to_vec());
    assert!(err.is_empty());
    assert!(active);
    let (out, err, active) = read_available(vec![], vec![vec![]]);
    assert!(out.is_empty() && err.is_empty() && !active);
}

#[test]
fn every_error_round_trips_through_its_json_text() {
    for e in [
        UnifiedError::l1("a \"q\" \\ \n\u{1}", "Fs"),
        UnifiedError::l2("m", "node_3"),
        UnifiedError::l3("x", None, Some(u32::MAX)),
    ] {
        let back = UnifiedError::from_json_string(&e.to_json_string()).unwrap();
        assert_eq!(back.to_text(), e.to_text());
        assert_eq!(back.to_json_string(), e.to_json_string());
    }
}
