use ai_cli::pipeline::{PipelineStep, PipelineParser, ParseError};

#[test]
fn test_parse_simple_pipeline() {
    let input = "anthropic:設計 -> gemini:実装 -> codex:レビュー";
    let steps = PipelineParser::parse(input).unwrap();

    assert_eq!(steps.len(), 3);

    assert_eq!(steps[0].provider, "anthropic");
    assert_eq!(steps[0].action, "設計");

    assert_eq!(steps[1].provider, "gemini");
    assert_eq!(steps[1].action, "実装");

    assert_eq!(steps[2].provider, "codex");
    assert_eq!(steps[2].action, "レビュー");
}

#[test]
fn test_parse_two_step_pipeline() {
    let input = "anthropic:analyze -> gemini:summarize";
    let steps = PipelineParser::parse(input).unwrap();

    assert_eq!(steps.len(), 2);
    assert_eq!(steps[0].provider, "anthropic");
    assert_eq!(steps[0].action, "analyze");
    assert_eq!(steps[1].provider, "gemini");
    assert_eq!(steps[1].action, "summarize");
}

#[test]
fn test_parse_single_step() {
    let input = "anthropic:generate";
    let steps = PipelineParser::parse(input).unwrap();

    assert_eq!(steps.len(), 1);
    assert_eq!(steps[0].provider, "anthropic");
    assert_eq!(steps[0].action, "generate");
}

#[test]
fn test_parse_with_spaces() {
    let input = "anthropic:設計->gemini:実装";
    let steps = PipelineParser::parse(input).unwrap();

    assert_eq!(steps.len(), 2);
    assert_eq!(steps[0].provider, "anthropic");
    assert_eq!(steps[0].action, "設計");
}

#[test]
fn test_parse_with_extra_spaces() {
    let input = "  anthropic:design   ->   gemini:implement  ";
    let steps = PipelineParser::parse(input).unwrap();

    assert_eq!(steps.len(), 2);
    assert_eq!(steps[0].provider, "anthropic");
    assert_eq!(steps[0].action, "design");
}

#[test]
fn test_parse_invalid_format_missing_colon() {
    let input = "anthropic -> gemini:test";
    let result = PipelineParser::parse(input);

    assert!(result.is_err());
}

#[test]
fn test_parse_invalid_format_empty_provider() {
    let input = ":action -> gemini:test";
    let result = PipelineParser::parse(input);

    assert!(result.is_err());
}

#[test]
fn test_parse_invalid_format_empty_action() {
    let input = "anthropic: -> gemini:test";
    let result = PipelineParser::parse(input);

    assert!(result.is_err());
}

#[test]
fn test_parse_empty_string() {
    let input = "";
    let result = PipelineParser::parse(input);

    assert!(result.is_err());
}

#[test]
fn test_pipeline_step_creation() {
    let step = PipelineStep::new("anthropic", "analyze");

    assert_eq!(step.provider, "anthropic");
    assert_eq!(step.action, "analyze");
}

#[test]
fn test_pipeline_step_with_context() {
    let mut step = PipelineStep::new("anthropic", "design");
    step.set_context("Previous analysis results");

    assert_eq!(step.get_context(), Some("Previous analysis results".to_string()));
}

#[test]
fn test_pipeline_validate_providers() {
    let input = "anthropic:test -> unknown_provider:test";
    let steps = PipelineParser::parse(input).unwrap();

    let known = vec!["anthropic".to_string(), "gemini".to_string(), "codex".to_string()];
    let validation = PipelineParser::validate_providers(&steps, &known);
    assert!(validation.is_err());
}

#[test]
fn test_pipeline_validate_all_known_providers() {
    let input = "anthropic:test -> gemini:test -> codex:test";
    let steps = PipelineParser::parse(input).unwrap();

    let known = vec!["anthropic".to_string(), "gemini".to_string(), "codex".to_string()];
    let validation = PipelineParser::validate_providers(&steps, &known);
    assert!(validation.is_ok());
}

#[test]
fn test_parse_error_kinds() {
    assert!(matches!(PipelineParser::parse(""), Err(ParseError::EmptyPipeline)));
    assert!(matches!(PipelineParser::parse("   "), Err(ParseError::EmptyPipeline)));
    assert!(matches!(PipelineParser::parse("anthropic"), Err(ParseError::MissingColon)));
    assert!(matches!(PipelineParser::parse(":x"), Err(ParseError::EmptyProvider)));
    assert!(matches!(PipelineParser::parse("anthropic:"), Err(ParseError::EmptyAction)));
    assert!(matches!(
        PipelineParser::parse("a:b -> -> c:d"),
        Err(ParseError::EmptySegment)
    ));
}

#[test]
fn test_parse_format_round_trip() {
    let input = "  anthropic:設計 ->gemini:実装->   codex:レビュー ";
    let steps = PipelineParser::parse(input).unwrap();
    let formatted = PipelineParser::format(&steps);
    assert_eq!(formatted, "anthropic:設計 -> gemini:実装 -> codex:レビュー");
    let reparsed = PipelineParser::parse(&formatted).unwrap();
    assert!(steps == reparsed);
}

#[test]
fn test_action_may_contain_colons() {
    let steps = PipelineParser::parse("anthropic:do: the thing").unwrap();
    assert_eq!(steps.len(), 1);
    assert_eq!(steps[0].provider, "anthropic");
    assert_eq!(steps[0].action, "do: the thing");
}

#[test]
fn test_unknown_provider_error_names_offender() {
    let steps = PipelineParser::parse("anthropic:a -> mystery:b").unwrap();
    let known = vec!["anthropic".to_string()];
    let err = PipelineParser::validate_providers(&steps, &known).unwrap_err();
    assert_eq!(err.provider, "mystery");
    assert!(err.message().contains("mystery"));
    assert_eq!(err.known, known);
}
