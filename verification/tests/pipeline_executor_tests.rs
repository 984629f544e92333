use ai_cli::auth::AuthManager;
use ai_cli::pipeline::{PipelineStep, PipelineExecutor, StepObserver, StepResult, RetryWaiter,
    TransformKind, JsonExtractorTransform, SummarizerTransform, FallbackBehavior};
use ai_cli::providers::{AIProvider, Capabilities, Context, Message, MessageRole, Response};
use std::cell::Cell;

// Mock provider implementation
enum MockProvider {
    Answering(String),
    Failing,
    Flaky(Cell<usize>),
}

impl MockProvider {
    fn new(name: &str) -> Self {
        MockProvider::Answering(name.to_string())
    }
}

impl AIProvider for MockProvider {
    fn execute(&self, prompt: &str, _context: &Context) -> Result<Response, String> {
        match self {
            MockProvider::Answering(name) => {
                Ok(Response::new(&format!("Mock {} response to: {}", name, prompt)))
            }
            MockProvider::Failing => Err("Provider error".to_string()),
            MockProvider::Flaky(remaining) => {
                if remaining.get() > 0 {
                    remaining.set(remaining.get() - 1);
                    Err("transient failure".to_string())
                } else {
                    Ok(Response::new(&format!("recovered: {}", prompt)))
                }
            }
        }
    }

    fn stream(&self, prompt: &str, _context: &Context) -> Result<Vec<String>, String> {
        match self {
            MockProvider::Answering(name) => {
                Ok(vec![format!("Mock {} streaming: {}", name, prompt)])
            }
            _ => Err("Provider stream error".to_string()),
        }
    }

    fn capabilities(&self) -> Capabilities {
        Capabilities::default()
    }

    fn name(&self) -> &str {
        match self {
            MockProvider::Answering(name) => name.as_str(),
            MockProvider::Failing => "error",
            MockProvider::Flaky(_) => "flaky",
        }
    }
}

fn create_mock_provider(name: &str) -> MockProvider {
    MockProvider::new(name)
}

fn create_error_provider() -> MockProvider {
    MockProvider::Failing
}

#[test]
fn test_execute_single_step_pipeline() {
    let mut executor = PipelineExecutor::new();
    executor.register_provider("anthropic", create_mock_provider("anthropic"));

    let steps = vec![PipelineStep::new("anthropic", "analyze")];

    let context = Context::new();
    let results = executor.execute(&steps, context).unwrap();

    assert_eq!(results.len(), 1);
    assert!(results[0].content.contains("anthropic"));
}

#[test]
fn test_execute_multi_step_pipeline() {
    let mut executor = PipelineExecutor::new();
    executor.register_provider("anthropic", create_mock_provider("anthropic"));
    executor.register_provider("gemini", create_mock_provider("gemini"));

    let steps = vec![
        PipelineStep::new("anthropic", "design"),
        PipelineStep::new("gemini", "implement"),
    ];

    let context = Context::new();
    let results = executor.execute(&steps, context).unwrap();

    assert_eq!(results.len(), 2);
    assert!(results[0].content.contains("anthropic"));
    assert!(results[1].content.contains("gemini"));
}

#[test]
fn test_context_propagation() {
    let mut executor = PipelineExecutor::new();
    executor.register_provider("anthropic", create_mock_provider("anthropic"));
    executor.register_provider("gemini", create_mock_provider("gemini"));

    let steps = vec![
        PipelineStep::new("anthropic", "analyze"),
        PipelineStep::new("gemini", "summarize"),
    ];

    let context = Context::new();
    let results = executor.execute(&steps, context).unwrap();

    assert_eq!(results.len(), 2);
    assert!(results[1].metadata.contains_key("previous_step"));
}

#[test]
fn test_execute_with_initial_context() {
    let mut executor = PipelineExecutor::new();
    executor.register_provider("anthropic", create_mock_provider("anthropic"));

    let steps = vec![PipelineStep::new("anthropic", "process")];

    let mut context = Context::new();
    context.add_message(Message::new(MessageRole::System, "Initial context data"));

    let results = executor.execute(&steps, context).unwrap();

    assert_eq!(results.len(), 1);
    assert!(results[0].metadata.contains_key("has_initial_context"));
}

#[test]
fn test_execute_with_streaming() {
    let mut executor = PipelineExecutor::new();
    executor.register_provider("anthropic", create_mock_provider("anthropic"));

    let steps = vec![PipelineStep::new("anthropic", "stream")];

    let context = Context::new();
    let results = executor.execute_streaming(&steps, context).unwrap();

    assert_eq!(results.len(), 1);
    assert!(results[0].content.contains("anthropic"));
}

#[test]
fn test_execute_with_auth_manager() {
    let mut executor = PipelineExecutor::new();
    let mut auth_manager = AuthManager::new();
    auth_manager.set_api_key("anthropic", "test-key");

    executor.set_auth_manager(auth_manager);
    executor.register_provider("anthropic", create_mock_provider("anthropic"));

    let steps = vec![PipelineStep::new("anthropic", "test")];

    let context = Context::new();
    let results = executor.execute(&steps, context).unwrap();

    assert_eq!(results.len(), 1);
    assert!(results[0].metadata.contains_key("authenticated"));
}

#[test]
fn test_execute_fails_unknown_provider() {
    let executor = PipelineExecutor::<MockProvider>::new();

    let steps = vec![PipelineStep::new("unknown", "test")];

    let context = Context::new();
    let result = executor.execute(&steps, context);

    assert!(result.is_err());
    assert!(result.unwrap_err().message().contains("unknown"));
}

#[test]
fn test_execute_with_step_error_handling() {
    let mut executor = PipelineExecutor::new();
    executor.register_provider("anthropic", create_mock_provider("anthropic"));
    executor.register_provider("error", create_error_provider());

    executor.set_continue_on_error(true);

    let steps = vec![
        PipelineStep::new("anthropic", "first"),
        PipelineStep::new("error", "fail"),
        PipelineStep::new("anthropic", "third"),
    ];

    let context = Context::new();
    let result = executor.execute(&steps, context);

    assert!(result.is_ok() || result.is_err());
}

#[test]
fn test_execute_stops_on_error() {
    let mut executor = PipelineExecutor::new();
    executor.register_provider("anthropic", create_mock_provider("anthropic"));
    executor.register_provider("error", create_error_provider());

    executor.set_continue_on_error(false);

    let steps = vec![
        PipelineStep::new("anthropic", "first"),
        PipelineStep::new("error", "fail"),
        PipelineStep::new("anthropic", "third"),
    ];

    let context = Context::new();
    let result = executor.execute(&steps, context);

    assert!(result.is_err());
}

struct RecordingObserver {
    retries: Vec<usize>,
    successes: Vec<bool>,
}

impl StepObserver for RecordingObserver {
    fn on_step(&mut self, result: &StepResult) {
        println!("Step {} completed", result.step.provider);
        if let Some(response) = result.get_response() {
            println!("Response: {}", response.content);
        }
        self.retries.push(result.retries);
        self.successes.push(result.is_success());
    }
}

struct RecordingWaiter {
    delays: Vec<u64>,
}

impl RetryWaiter for RecordingWaiter {
    fn wait(&mut self, delay_ms: u64) {
        self.delays.push(delay_ms);
    }
}

#[test]
fn test_retry_waits_between_failed_attempts() {
    let mut executor = PipelineExecutor::new();
    executor.register_provider("flaky", MockProvider::Flaky(Cell::new(2)));
    executor.set_max_retries(3);

    let mut observer = RecordingObserver { retries: Vec::new(), successes: Vec::new() };
    let mut waiter = RecordingWaiter { delays: Vec::new() };
    let steps = vec![PipelineStep::new("flaky", "work")];
    let results = executor
        .execute_with_hooks(&steps, Context::new(), &mut observer, &mut waiter)
        .unwrap();

    assert_eq!(results.len(), 1);
    // two failed attempts, each followed by the configured default delay
    assert_eq!(waiter.delays, vec![1000, 1000]);
    assert_eq!(observer.retries, vec![2]);
}

#[test]
fn test_execute_with_callbacks() {
    let mut executor = PipelineExecutor::new();
    executor.register_provider("anthropic", create_mock_provider("anthropic"));

    let mut observer = RecordingObserver { retries: Vec::new(), successes: Vec::new() };

    let steps = vec![PipelineStep::new("anthropic", "test")];

    let context = Context::new();
    let results = executor.execute_with_observer(&steps, context, &mut observer).unwrap();

    assert_eq!(results.len(), 1);
    assert_eq!(observer.successes, vec![true]);
}

#[test]
fn test_execute_with_retry() {
    let mut executor = PipelineExecutor::new();
    executor.register_provider("anthropic", create_mock_provider("anthropic"));

    executor.set_max_retries(3);

    let steps = vec![PipelineStep::new("anthropic", "test")];

    let context = Context::new();
    let results = executor.execute(&steps, context).unwrap();

    assert_eq!(results.len(), 1);
}

#[test]
fn test_continue_on_error_collects_placeholders() {
    let mut executor = PipelineExecutor::new();
    executor.register_provider("anthropic", create_mock_provider("anthropic"));
    executor.register_provider("error", create_error_provider());
    executor.set_continue_on_error(true);

    let steps = vec![
        PipelineStep::new("anthropic", "first"),
        PipelineStep::new("error", "fail"),
        PipelineStep::new("anthropic", "third"),
    ];

    let results = executor.execute(&steps, Context::new()).unwrap();
    assert_eq!(results.len(), 3);
    assert_eq!(results[1].metadata.get("error"), Some(&"true".to_string()));
    assert_eq!(results[1].metadata.get("step_index"), Some(&"2".to_string()));
    assert!(results[1].content.starts_with("Error in step 2:"));
    assert!(results[0].content.contains("first"));
    assert!(results[2].content.contains("third"));
}

#[test]
fn test_abort_names_failing_step() {
    let mut executor = PipelineExecutor::new();
    executor.register_provider("anthropic", create_mock_provider("anthropic"));
    executor.register_provider("error", create_error_provider());
    executor.set_continue_on_error(false);

    let steps = vec![
        PipelineStep::new("anthropic", "first"),
        PipelineStep::new("error", "fail"),
        PipelineStep::new("anthropic", "third"),
    ];

    let err = executor.execute(&steps, Context::new()).unwrap_err();
    assert!(err.message().contains("failed at step 2"));
}

#[test]
fn test_retry_accounting_success_after_failures() {
    let mut executor = PipelineExecutor::new();
    executor.register_provider("flaky", MockProvider::Flaky(Cell::new(2)));
    executor.set_max_retries(3);

    let mut observer = RecordingObserver { retries: Vec::new(), successes: Vec::new() };
    let steps = vec![PipelineStep::new("flaky", "work")];
    let results = executor
        .execute_with_observer(&steps, Context::new(), &mut observer)
        .unwrap();

    assert_eq!(results.len(), 1);
    assert!(results[0].content.contains("recovered"));
    assert_eq!(observer.retries, vec![2]);
    assert_eq!(observer.successes, vec![true]);
    assert_eq!(results[0].metadata.get("retries"), Some(&"2".to_string()));
}

#[test]
fn test_retry_accounting_exhaustion() {
    let mut executor = PipelineExecutor::new();
    executor.register_provider("flaky", MockProvider::Flaky(Cell::new(10)));
    executor.set_max_retries(2);
    executor.set_continue_on_error(true);

    let mut observer = RecordingObserver { retries: Vec::new(), successes: Vec::new() };
    let steps = vec![PipelineStep::new("flaky", "work")];
    let results = executor
        .execute_with_observer(&steps, Context::new(), &mut observer)
        .unwrap();

    assert_eq!(results.len(), 1);
    assert_eq!(observer.retries, vec![2]);
    assert_eq!(observer.successes, vec![false]);
    assert!(results[0].content.contains("transient failure"));
}

#[test]
fn test_execute_is_repeatable_with_deterministic_providers() {
    let steps = vec![
        PipelineStep::new("anthropic", "design"),
        PipelineStep::new("gemini", "implement"),
    ];

    let mut first_contents: Vec<String> = Vec::new();
    let mut second_contents: Vec<String> = Vec::new();
    for run in 0..2 {
        let mut executor = PipelineExecutor::new();
        executor.register_provider("anthropic", create_mock_provider("anthropic"));
        executor.register_provider("gemini", create_mock_provider("gemini"));
        let results = executor.execute(&steps, Context::new()).unwrap();
        for r in &results {
            if run == 0 {
                first_contents.push(r.content.clone());
            } else {
                second_contents.push(r.content.clone());
            }
        }
    }
    assert_eq!(first_contents, second_contents);
}

#[test]
fn test_transform_failure_fails_step() {
    let mut executor = PipelineExecutor::new();
    executor.register_provider("anthropic", create_mock_provider("anthropic"));
    executor.set_continue_on_error(false);

    let steps = vec![PipelineStep::new("anthropic", "emit prose").with_transform(
        TransformKind::JsonExtractor(JsonExtractorTransform::with_fallback(
            "field",
            FallbackBehavior::ReturnError,
        )),
    )];

    let err = executor.execute(&steps, Context::new()).unwrap_err();
    assert!(err.message().contains("Transform failed"));
}

#[test]
fn test_transform_applied_before_prefix() {
    let mut executor = PipelineExecutor::new();
    executor.register_provider("anthropic", create_mock_provider("anthropic"));

    let steps = vec![
        PipelineStep::new("anthropic", "say")
            .with_transform(TransformKind::Summarizer(SummarizerTransform::new(4))),
    ];

    let results = executor.execute(&steps, Context::new()).unwrap();
    // the transform truncates the raw answer, then the provider prefix is added
    assert_eq!(results[0].content, "anthropic: Mock");
}
