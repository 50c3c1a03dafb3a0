use anytomd::converter::gemini::GeminiDescriber;

#[test]
fn test_gemini_describer_new() {
    let describer = GeminiDescriber::new("test-key".to_string());
    assert_eq!(describer.api_key, "test-key");
    assert_eq!(describer.model, "gemini-3-flash-preview");
}

#[test]
fn test_gemini_describer_with_model() {
    let describer =
        GeminiDescriber::new("key".to_string()).with_model("gemini-2.0-flash".to_string());
    assert_eq!(describer.model, "gemini-2.0-flash");
}
