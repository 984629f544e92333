use ai_cli::providers::{Context, ContextErrorKind, Message, MessageRole, MetaValue, Response};

#[test]
fn test_context_state_persistence() {
    let mut context = Context::new();
    context.add_message(Message::new(MessageRole::System, "Initial system message"));
    context.add_file("/test/file.rs");

    let cloned_context = context.clone();
    assert_eq!(context.conversation_history.len(), cloned_context.conversation_history.len());
    assert_eq!(context.current_files.len(), cloned_context.current_files.len());

    let scoped = context.create_scoped("persistence");
    assert_eq!(context.conversation_history.len(), scoped.conversation_history.len());
    assert_eq!(context.current_files.len(), scoped.current_files.len());
}

#[test]
fn test_context_enhancement_with_responses() {
    let mut context = Context::new();
    let response = Response::new("Step result")
        .with_metadata("step_id", "1")
        .with_metadata("provider", "anthropic");

    context.enhance_with_response(&response);

    assert!(context.metadata.contains_key("last_response"));
    assert!(context.metadata.contains_key("step_results"));
}

#[test]
fn test_context_filtering_for_providers() {
    let mut context = Context::new();
    context.add_message(Message::new(MessageRole::System, "System message"));
    context.add_message(Message::new(MessageRole::User, "User message"));
    context.metadata.insert("sensitive_data".to_string(), MetaValue::Text("secret".to_string()));
    context.metadata.insert("public_data".to_string(), MetaValue::Text("public".to_string()));

    let excluded = vec!["sensitive_data".to_string()];
    let filtered_context = context.filter_for_provider("anthropic", &excluded);

    assert!(!filtered_context.metadata.contains_key("sensitive_data"));
    assert!(filtered_context.metadata.contains_key("public_data"));
    assert_eq!(filtered_context.conversation_history.len(), 2);
}

#[test]
fn test_context_validation() {
    let mut context = Context::new();

    assert!(context.validate().is_ok());

    context.metadata.insert("invalid_key".to_string(), MetaValue::Null);
    context.add_file("");

    assert!(context.validate().is_err());
}

#[test]
fn test_context_token_counting() {
    let mut context = Context::new();
    context.add_message(Message::new(MessageRole::User, "Hello world"));
    context.add_message(Message::new(MessageRole::Assistant, "Hi there!"));

    let token_count = context.estimate_tokens();
    assert!(token_count > 0);
}

#[test]
fn test_context_cleanup_and_truncation() {
    let mut context = Context::new();

    for i in 0..100 {
        context.add_message(Message::new(MessageRole::User, &format!("Message {}", i)));
    }

    assert_eq!(context.conversation_history.len(), 100);

    context.truncate_to_limit(50);
    assert_eq!(context.conversation_history.len(), 50);

    context.cleanup_expired(3600);
}

#[test]
fn test_context_scope_management() {
    let mut context = Context::new();
    context.add_message(Message::new(MessageRole::System, "Base context"));

    let mut scoped_context = context.create_scoped("pipeline_step_1");
    scoped_context.add_message(Message::new(MessageRole::User, "Scoped message"));

    assert_eq!(scoped_context.conversation_history.len(), 2);

    context.merge_scope(scoped_context);
    assert_eq!(context.conversation_history.len(), 2);
}

#[test]
fn test_context_file_tracking() {
    let mut context = Context::new();

    context.add_file_with_content("/test/file.rs", "fn main() {}");

    let content = context.get_file_content("/test/file.rs");
    assert!(content.is_some());
    assert_eq!(content.unwrap(), "fn main() {}");

    context.remove_file("/test/file.rs");
    assert!(context.get_file_content("/test/file.rs").is_none());
}

#[test]
fn test_context_environment_inheritance() {
    let mut base_context = Context::new();
    base_context.environment.insert("BASE_VAR".to_string(), "base_value".to_string());

    let mut child_context = Context::new();
    child_context.environment.insert("CHILD_VAR".to_string(), "child_value".to_string());

    child_context.inherit_environment(&base_context);

    assert!(child_context.environment.contains_key("BASE_VAR"));
    assert!(child_context.environment.contains_key("CHILD_VAR"));
    assert_eq!(child_context.environment.get("BASE_VAR"), Some(&"base_value".to_string()));
}

#[test]
fn test_context_diff_and_merge() {
    let mut context1 = Context::new();
    context1.add_message(Message::new(MessageRole::User, "Original message"));

    let mut context2 = context1.clone();
    context2.add_message(Message::new(MessageRole::Assistant, "New response"));

    let diff = context1.diff(&context2);
    assert!(!diff.is_empty());

    context1.apply_diff(diff);
    assert_eq!(context1.conversation_history.len(), 2);
    assert_eq!(context1.conversation_history.len(), context2.conversation_history.len());
}

#[test]
fn test_context_validation_error_kinds() {
    let mut with_traversal = Context::new();
    with_traversal.add_file("../secrets");
    let traversal_err = with_traversal.validate().unwrap_err();
    assert_eq!(traversal_err.kind, ContextErrorKind::UnsafeFilePath);
    assert_eq!(traversal_err.subject, "../secrets");
    assert!(traversal_err.message().contains("../secrets"));

    let mut empty_path = Context::new();
    empty_path.add_file("");
    assert_eq!(empty_path.validate().unwrap_err().kind, ContextErrorKind::EmptyFilePath);

    let mut null_meta = Context::new();
    null_meta.metadata.insert("invalid_key".to_string(), MetaValue::Null);
    let null_err = null_meta.validate().unwrap_err();
    assert_eq!(null_err.kind, ContextErrorKind::NullMetadata);
    assert_eq!(null_err.subject, "invalid_key");

    let mut big_meta = Context::new();
    big_meta.metadata.insert("blob".to_string(), MetaValue::Text("x".repeat(10001)));
    let meta_err = big_meta.validate().unwrap_err();
    assert_eq!(meta_err.kind, ContextErrorKind::OversizedMetadata);
    assert_eq!(meta_err.subject, "blob");

    let mut long_history = Context::new();
    for i in 0..1001 {
        long_history.add_message(Message::new(MessageRole::User, &format!("m{}", i)));
    }
    let history_err = long_history.validate().unwrap_err();
    assert_eq!(history_err.kind, ContextErrorKind::HistoryTooLong);
    assert_eq!(history_err.subject, "1001");

    let mut empty_env = Context::new();
    empty_env.environment.insert("".to_string(), "v".to_string());
    assert_eq!(empty_env.validate().unwrap_err().kind, ContextErrorKind::EmptyEnvironmentKey);

    let mut big_env = Context::new();
    big_env.environment.insert("K".to_string(), "v".repeat(1001));
    let env_err = big_env.validate().unwrap_err();
    assert_eq!(env_err.kind, ContextErrorKind::OversizedEnvironmentValue);
    assert_eq!(env_err.subject, "K");

    let mut big_file = Context::new();
    big_file.add_file_with_content("/big", &"y".repeat(100001));
    let file_err = big_file.validate().unwrap_err();
    assert_eq!(file_err.kind, ContextErrorKind::OversizedFileContent);
    assert_eq!(file_err.subject, "/big");
}

#[test]
fn test_token_estimate_exact_value() {
    let mut context = Context::new();
    context.add_message(Message::new(MessageRole::User, "Hello world"));
    context.add_message(Message::new(MessageRole::Assistant, "Hi there!"));

    // each message: 2 words -> 2 tokens (13/10 rounded down) + 5 role overhead;
    // plus the 50-token base overhead
    assert_eq!(context.estimate_tokens(), 2 + 5 + 2 + 5 + 50);
}

#[test]
fn test_filter_for_gemini_truncates_history() {
    let mut context = Context::new();
    for i in 0..12 {
        context.add_message(Message::new(MessageRole::User, &format!("m{}", i)));
    }
    let excluded: Vec<String> = Vec::new();
    let filtered = context.filter_for_provider("gemini", &excluded);
    assert_eq!(filtered.conversation_history.len(), 10);
    assert_eq!(filtered.conversation_history[0].content, "m2");

    let unfiltered = context.filter_for_provider("anthropic", &excluded);
    assert_eq!(unfiltered.conversation_history.len(), 12);
}

#[test]
fn test_filter_for_codex_sets_focus_mode() {
    let context = Context::new();
    let excluded: Vec<String> = Vec::new();
    let filtered = context.filter_for_provider("codex", &excluded);
    assert!(filtered.metadata.contains_key("focus_mode"));
    assert!(filtered.metadata.contains_key("filtered_for_provider"));
    assert_eq!(filtered.scopes.len(), 1);
    assert_eq!(filtered.scopes[0], "provider:codex");
}

#[test]
fn test_enhance_records_step_results_in_order() {
    let mut context = Context::new();
    context.enhance_with_response(&Response::new("first"));
    context.enhance_with_response(&Response::new("second"));

    match context.metadata.get("step_results") {
        Some(MetaValue::Records(records)) => {
            assert_eq!(records.len(), 2);
            assert_eq!(records[0].content, "first");
            assert_eq!(records[1].content, "second");
        }
        _ => panic!("expected a step-result log"),
    }
    match context.metadata.get("last_response") {
        Some(MetaValue::Text(t)) => assert_eq!(t, "second"),
        _ => panic!("expected a last response"),
    }
}

#[test]
fn test_enhance_copies_response_metadata() {
    let mut context = Context::new();
    let response = Response::new("out").with_metadata("provider", "anthropic");
    context.enhance_with_response(&response);
    match context.metadata.get("response_provider") {
        Some(MetaValue::Text(t)) => assert_eq!(t, "anthropic"),
        _ => panic!("expected the copied metadata entry"),
    }
}
