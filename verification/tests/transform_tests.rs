use ai_cli::pipeline::{Transform, IdentityTransform, JsonExtractorTransform, SummarizerTransform,
    FallbackBehavior, JsonExtractorConfig};
use ai_cli::providers::Response;

#[test]
fn test_identity_transform() {
    let transform = IdentityTransform;
    let response = Response::new("test content").with_metadata("key", "value");

    let result = transform.transform(response.clone()).unwrap();
    assert_eq!(result.content, response.content);
    assert_eq!(result.metadata, response.metadata);
}

#[test]
fn test_json_extractor_transform() {
    let transform = JsonExtractorTransform::new("data");
    let json_content = r#"{"data": "extracted value", "other": "ignored"}"#;
    let response = Response::new(json_content);

    let result = transform.transform(response).unwrap();
    assert_eq!(result.content, "extracted value");
}

#[test]
fn test_json_extractor_missing_field() {
    let transform = JsonExtractorTransform::new("missing_field");
    let json_content = r#"{"other": "value"}"#;
    let response = Response::new(json_content);

    let result = transform.transform(response).unwrap();
    assert_eq!(result.content, json_content);
}

#[test]
fn test_json_extractor_missing_field_return_empty() {
    let transform =
        JsonExtractorTransform::with_fallback("missing_field", FallbackBehavior::ReturnEmpty);
    let json_content = r#"{"other": "value"}"#;
    let response = Response::new(json_content);

    let result = transform.transform(response).unwrap();
    assert_eq!(result.content, "");
}

#[test]
fn test_json_extractor_missing_field_return_error() {
    let transform =
        JsonExtractorTransform::with_fallback("missing_field", FallbackBehavior::ReturnError);
    let json_content = r#"{"other": "value"}"#;
    let response = Response::new(json_content);

    let result = transform.transform(response);
    assert!(result.is_err());
    let error = result.unwrap_err();
    assert!(error.message().contains("Field 'missing_field' not found"));
}

#[test]
fn test_json_extractor_invalid_json() {
    let transform = JsonExtractorTransform::new("field");
    let invalid_json = "not json content";
    let response = Response::new(invalid_json);

    let result = transform.transform(response);
    assert!(result.is_err());
    let error = result.unwrap_err();
    assert!(error.message().contains("JSON parsing failed"));
}

#[test]
fn test_json_extractor_non_string_value() {
    let transform = JsonExtractorTransform::new("number");
    let json_content = r#"{"number": 42, "bool": true, "array": [1, 2, 3]}"#;
    let response = Response::new(json_content);

    let result = transform.transform(response).unwrap();
    assert_eq!(result.content, "42");
}

#[test]
fn test_summarizer_transform() {
    let transform = SummarizerTransform::new(10);
    let long_content = "This is a very long content that needs to be summarized";
    let response = Response::new(long_content);

    let result = transform.transform(response).unwrap();
    assert!(result.content.chars().count() <= 10);
    assert_eq!(result.content, "This is a ");
}

#[test]
fn test_summarizer_unicode_handling() {
    let transform = SummarizerTransform::new(5);
    let unicode_content = "これは日本語のテスト";
    let response = Response::new(unicode_content);

    let result = transform.transform(response).unwrap();
    assert!(result.content.chars().count() <= 5);
    assert_eq!(result.content, "これは日本");
}

#[test]
fn test_summarizer_short_content() {
    let transform = SummarizerTransform::new(100);
    let short_content = "Short";
    let response = Response::new(short_content);

    let result = transform.transform(response).unwrap();
    assert_eq!(result.content, "Short");
}

#[test]
fn test_json_extractor_config() {
    let config = JsonExtractorConfig::new("field").with_fallback(FallbackBehavior::ReturnError);
    let transform = JsonExtractorTransform::with_config(config);

    assert_eq!(transform.name(), "json_extractor");
}

#[test]
fn test_json_extractor_boolean_value() {
    let transform = JsonExtractorTransform::new("bool");
    let json_content = r#"{"number": 42, "bool": true, "array": [1, 2, 3]}"#;
    let response = Response::new(json_content);

    let result = transform.transform(response).unwrap();
    assert_eq!(result.content, "true");
}

#[test]
fn test_transform_preserves_metadata() {
    let transform = JsonExtractorTransform::new("data");
    let response = Response::new(r#"{"data": "x"}"#).with_metadata("step_index", "3");
    let result = transform.transform(response).unwrap();
    assert!(result.metadata.contains_key("step_index"));
    assert_eq!(result.content, "x");
}
