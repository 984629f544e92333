use ai_cli::pipeline::{PipelineBuilder, PipelineParser, PipelineStep, IdentityTransform,
    TransformKind};

#[test]
fn test_pipeline_builder() {
    let pipeline = PipelineBuilder::new()
        .step("anthropic", "design")
        .step("gemini", "implement")
        .step_with_context("codex", "review", "Please check for security issues")
        .build();

    assert_eq!(pipeline.len(), 3);
    assert_eq!(pipeline[0].provider, "anthropic");
    assert_eq!(pipeline[2].get_context(), Some("Please check for security issues".to_string()));
}

#[test]
fn test_pipeline_format() {
    let steps = vec![
        PipelineStep::new("anthropic", "design"),
        PipelineStep::new("gemini", "implement"),
    ];

    let formatted = PipelineParser::format(&steps);
    assert_eq!(formatted, "anthropic:design -> gemini:implement");
}

#[test]
fn test_pipeline_step_with_transform() {
    let step = PipelineStep::new("anthropic", "design")
        .with_transform(TransformKind::Identity(IdentityTransform));

    assert!(step.has_transform());
    assert_eq!(step.provider, "anthropic");
    assert_eq!(step.action, "design");
}

#[test]
fn test_step_equality_ignores_transform_identity() {
    let a = PipelineStep::new("anthropic", "design")
        .with_transform(TransformKind::Identity(IdentityTransform));
    let b = PipelineStep::new("anthropic", "design")
        .with_transform(TransformKind::Summarizer(ai_cli::pipeline::SummarizerTransform::new(3)));
    let c = PipelineStep::new("anthropic", "design");
    assert!(a == b);
    assert!(!(a == c));
}
