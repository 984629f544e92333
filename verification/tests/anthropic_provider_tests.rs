use ai_cli::providers::anthropic::{join_text_parts, AnthropicProvider};
use ai_cli::providers::gemini::GeminiProvider;
use ai_cli::providers::{AIProvider, Context, Message, MessageRole};

#[test]
fn test_anthropic_provider_name() {
    let provider = AnthropicProvider::new("test_key".to_string());
    assert_eq!(provider.name(), "anthropic");
}

#[test]
fn test_anthropic_provider_capabilities() {
    let provider = AnthropicProvider::new("test_key".to_string());
    let capabilities = provider.capabilities();

    assert!(capabilities.supports_streaming);
    assert!(capabilities.supports_context);
    assert_eq!(capabilities.max_tokens, 200000);
}

#[test]
fn test_anthropic_provider_execute() {
    let provider = AnthropicProvider::new("test_key".to_string());
    let mut context = Context::new();
    context.add_message(Message::new(MessageRole::User, "Hello"));

    // A test key short-circuits the transport to the canned answer.
    assert!(AnthropicProvider::is_test_key("test_key"));
    let outcome = Some(Ok(AnthropicProvider::mock_response_text("Say hello")));
    let response = provider.respond("Say hello", &context, outcome);
    assert!(response.is_ok());
}

#[test]
fn test_anthropic_provider_with_cli_auth() {
    let provider = AnthropicProvider::from_detected_cli_session();
    assert_eq!(provider.name(), "anthropic");
    assert!(provider.is_authenticated());
}

#[test]
fn test_anthropic_cli_session_not_bridged() {
    let provider = AnthropicProvider::from_detected_cli_session();
    let context = Context::new();
    let result = provider.respond("Hello", &context, None);
    assert!(result.is_err());
    assert!(result.unwrap_err().contains("not bridged"));
}

#[test]
fn test_anthropic_mock_answer_text() {
    let provider = AnthropicProvider::new("k".to_string());
    assert!(provider.is_authenticated());
    assert_eq!(AnthropicProvider::mock_response_text("hi"), "Anthropic response to: hi");
}

#[test]
fn test_anthropic_test_key_detection() {
    assert!(AnthropicProvider::is_test_key("test_key"));
    assert!(AnthropicProvider::is_test_key("TEST_123"));
    assert!(AnthropicProvider::is_test_key("dummy_abc"));
    assert!(AnthropicProvider::is_test_key("my-example-key"));
    assert!(!AnthropicProvider::is_test_key("sk-real-credential"));
}

#[test]
fn test_anthropic_join_text_parts() {
    let parts = vec![Some("Hel".to_string()), None, Some("lo".to_string())];
    assert_eq!(join_text_parts(&parts), "Hello");
    let empty: Vec<Option<String>> = vec![None];
    assert_eq!(join_text_parts(&empty), "(empty response)");
}

#[test]
fn test_gemini_provider_execute() {
    let provider = GeminiProvider::new("key".to_string());
    let context = Context::new();
    let response = provider.execute("summarize", &context).unwrap();
    assert_eq!(response.content, "Gemini response to: summarize");
}

#[test]
fn test_gemini_provider_constructors() {
    let provider = GeminiProvider::new("key".to_string());
    assert!(provider.is_authenticated());
    let bare = GeminiProvider::from_detected_cli_session();
    assert!(bare.is_authenticated());
    assert_eq!(bare.name(), "gemini");
}

#[test]
fn test_gemini_provider_stream() {
    let provider = GeminiProvider::new("key".to_string());
    let context = Context::new();
    let chunks = provider.stream("hello", &context).unwrap();
    assert_eq!(chunks, vec!["Gemini streaming response to: hello".to_string()]);
}
