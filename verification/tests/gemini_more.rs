use anytomd::converter::gemini::parse_response;

#[test]
fn test_parse_response_valid() {
    let json = r#"{
        "candidates": [{
            "content": {
                "parts": [{
                    "text": "A photo of a sunset over the ocean."
                }]
            }
        }]
    }"#;
    let result = parse_response(json).unwrap();
    assert_eq!(result, "A photo of a sunset over the ocean.");
}

#[test]
fn test_parse_response_with_whitespace_trimmed() {
    let json = r#"{
        "candidates": [{
            "content": {
                "parts": [{
                    "text": "  A cat sitting on a chair.  \n"
                }]
            }
        }]
    }"#;
    let result = parse_response(json).unwrap();
    assert_eq!(result, "A cat sitting on a chair.");
}

#[test]
fn test_parse_response_api_error() {
    let json = r#"{
        "error": {
            "code": 403,
            "message": "API key not valid",
            "status": "PERMISSION_DENIED"
        }
    }"#;
    let result = parse_response(json);
    assert!(result.is_err());
    let err = result.unwrap_err();
    assert!(
        err.message().contains("API key not valid"),
        "error was: {err:?}"
    );
}

#[test]
fn test_parse_response_missing_candidates() {
    let json = r#"{"result": "unexpected"}"#;
    let result = parse_response(json);
    assert!(result.is_err());
    let err = result.unwrap_err();
    assert!(
        err.message().contains("unexpected Gemini response structure"),
        "error was: {err:?}"
    );
}

#[test]
fn test_parse_response_invalid_json() {
    let result = parse_response("not json");
    assert!(result.is_err());
    let err = result.unwrap_err();
    assert!(
        err.message().contains("failed to parse"),
        "error was: {err:?}"
    );
}

#[test]
fn test_parse_response_empty_candidates_array() {
    let json = r#"{"candidates": []}"#;
    let result = parse_response(json);
    assert!(result.is_err());
}
