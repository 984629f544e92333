use ai_cli::providers::{AIProvider, Capabilities, Context, Response};

/// Mock provider for testing
struct MockProvider;

impl MockProvider {
    fn new() -> Self {
        MockProvider
    }
}

impl AIProvider for MockProvider {
    fn execute(&self, _prompt: &str, _context: &Context) -> Result<Response, String> {
        Ok(Response::new("test response"))
    }

    fn stream(&self, _prompt: &str, _context: &Context) -> Result<Vec<String>, String> {
        Ok(vec!["test".to_string()])
    }

    fn capabilities(&self) -> Capabilities {
        Capabilities { supports_streaming: true, supports_context: true, max_tokens: 4096 }
    }

    fn name(&self) -> &str {
        "mock"
    }
}

#[test]
fn test_provider_execute() {
    let provider = MockProvider::new();
    let context = Context::new();

    let response = provider.execute("test prompt", &context);

    assert!(response.is_ok());
    let response = response.unwrap();
    assert_eq!(response.content, "test response");
}

#[test]
fn test_provider_name() {
    let provider = MockProvider::new();

    assert_eq!(provider.name(), "mock");
}

#[test]
fn test_provider_capabilities() {
    let provider = MockProvider::new();

    let capabilities = provider.capabilities();
    assert!(capabilities.supports_streaming);
    assert!(capabilities.supports_context);
}

#[test]
fn test_provider_stream() {
    let provider = MockProvider::new();
    let context = Context::new();

    let stream = provider.stream("test prompt", &context);

    assert!(stream.is_ok());
}

#[test]
fn test_default_capabilities() {
    let caps = Capabilities::default();
    assert!(!caps.supports_streaming);
    assert!(!caps.supports_context);
    assert_eq!(caps.max_tokens, 4096);
}
