//! Per-step response transforms: pass-through, JSON field extraction with a
//! configurable fallback, and code-point-safe truncation.

use vstd::prelude::*;
use vstd::string::*;
use crate::providers::Response;

verus! {

/// Why a transform failed.
#[derive(Debug)]
pub enum TransformError {
    /// The response content was not valid JSON.
    JsonParse,
    /// The requested field was absent and the fallback demands an error.
    FieldNotFound { field: String },
    /// A transform-specific failure.
    Operation(String),
}

/// The text of each transform failure.
pub open spec fn transform_error_text(e: TransformError) -> Seq<char> {
    match e {
        TransformError::JsonParse => "JSON parsing failed"@,
        TransformError::FieldNotFound { field } => "Field '"@ + field@ + "' not found in JSON"@,
        TransformError::Operation(m) => "Transform operation failed: "@ + m@,
    }
}

impl TransformError {
    /// A short description of the failure.
    pub fn message(&self) -> (r: String)
        ensures
            r@ == transform_error_text(*self),
    {
        match self {
            TransformError::JsonParse => String::from_str("JSON parsing failed"),
            TransformError::FieldNotFound { field } => {
                let mut s = String::from_str("Field '");
                s.append(field.as_str());
                s.append("' not found in JSON");
                s
            },
            TransformError::Operation(m) => {
                let mut s = String::from_str("Transform operation failed: ");
                s.append(m.as_str());
                s
            },
        }
    }
}

impl Clone for TransformError {
    fn clone(&self) -> (r: Self)
        ensures
            r == *self,
    {
        match self {
            TransformError::JsonParse => TransformError::JsonParse,
            TransformError::FieldNotFound { field } => TransformError::FieldNotFound {
                field: field.clone(),
            },
            TransformError::Operation(m) => TransformError::Operation(m.clone()),
        }
    }
}

/// What to do when the requested JSON field is absent.
#[derive(Clone, Copy, PartialEq, Eq, Structural, Debug)]
pub enum FallbackBehavior {
    /// Keep the original content unchanged.
    KeepOriginal,
    /// Clear the content to the empty string.
    ReturnEmpty,
    /// Fail the transform.
    ReturnError,
}

impl Default for FallbackBehavior {
    /// Keep the original content.
    fn default() -> (r: Self)
        ensures
            r == FallbackBehavior::KeepOriginal,
    {
        FallbackBehavior::KeepOriginal
    }
}

/// Which field to extract and what to do when it is missing.
#[derive(Debug)]
pub struct JsonExtractorConfig {
    pub field: String,
    pub fallback_behavior: FallbackBehavior,
}

impl JsonExtractorConfig {
    /// Extract `field`, keeping the original content when it is absent.
    pub fn new(field: &str) -> (r: Self)
        ensures
            r.field@ == field@,
            r.fallback_behavior == FallbackBehavior::KeepOriginal,
    {
        JsonExtractorConfig {
            field: String::from_str(field),
            fallback_behavior: FallbackBehavior::default(),
        }
    }

    /// The same configuration with another fallback.
    pub fn with_fallback(self, behavior: FallbackBehavior) -> (r: Self)
        ensures
            r.field@ == self.field@,
            r.fallback_behavior == behavior,
    {
        JsonExtractorConfig { field: self.field, fallback_behavior: behavior }
    }
}

impl Clone for JsonExtractorConfig {
    fn clone(&self) -> (r: Self)
        ensures
            r == *self,
    {
        JsonExtractorConfig {
            field: self.field.clone(),
            fallback_behavior: self.fallback_behavior,
        }
    }
}

/// What a JSON field lookup found.
#[derive(Debug)]
pub enum FieldLookup {
    /// The text is not a JSON document.
    NotJson,
    /// The document has no such field.
    Missing,
    /// The field's text: the string itself for a JSON string, the JSON
    /// rendering for any other value.
    Found(String),
}

/// What looking up `field` in `content` yields: `None` when the content is not
/// JSON, `Some(None)` when the field is absent, and `Some(Some(text))` with the
/// field's text otherwise.
pub uninterp spec fn json_field_text(content: Seq<char>, field: Seq<char>) -> Option<
    Option<Seq<char>>,
>;

/// Relies on serde_json::from_str and serde_json::Value::get: parses the
/// content as JSON and selects the named field, rendered as text — a JSON
/// string's value verbatim, any other value's JSON rendering. The result is a
/// function of the two arguments alone.
#[verifier::external_body]
fn lookup_json_field(content: &str, field: &str) -> (r: FieldLookup)
    ensures
        match r {
            FieldLookup::NotJson => json_field_text(content@, field@) is None,
            FieldLookup::Missing => json_field_text(content@, field@) == Some(
                Option::<Seq<char>>::None,
            ),
            FieldLookup::Found(s) => json_field_text(content@, field@) == Some(Some(s@)),
        },
{
    match serde_json::from_str::<serde_json::Value>(content) {
        Err(_) => FieldLookup::NotJson,
        Ok(v) => match v.get(field) {
            None => FieldLookup::Missing,
            Some(serde_json::Value::String(s)) => FieldLookup::Found(s.clone()),
            Some(other) => FieldLookup::Found(other.to_string()),
        },
    }
}

/// Extracts a field from JSON response content.
#[derive(Debug)]
pub struct JsonExtractorTransform {
    pub config: JsonExtractorConfig,
}

impl JsonExtractorTransform {
    /// Extract `field`, keeping the original content when it is absent.
    pub fn new(field: &str) -> (r: Self)
        ensures
            r.config.field@ == field@,
            r.config.fallback_behavior == FallbackBehavior::KeepOriginal,
    {
        JsonExtractorTransform { config: JsonExtractorConfig::new(field) }
    }

    /// Use the given configuration.
    pub fn with_config(config: JsonExtractorConfig) -> (r: Self)
        ensures
            r.config == config,
    {
        JsonExtractorTransform { config }
    }

    /// Extract `field` with the given fallback for a missing field.
    pub fn with_fallback(field: &str, behavior: FallbackBehavior) -> (r: Self)
        ensures
            r.config.field@ == field@,
            r.config.fallback_behavior == behavior,
    {
        JsonExtractorTransform { config: JsonExtractorConfig::new(field).with_fallback(behavior) }
    }

    /// Turn a lookup outcome into the step's new response: the field's text on
    /// a hit, the configured fallback on a miss, a parse error otherwise.
    pub fn apply_lookup(config: &JsonExtractorConfig, lookup: FieldLookup, response: Response) -> (r:
        Result<Response, TransformError>)
        ensures
            match lookup {
                FieldLookup::NotJson => r matches Err(TransformError::JsonParse),
                FieldLookup::Found(s) => r matches Ok(out) && out.content@ == s@ && out.metadata@
                    == response.metadata@ && out.metadata.kv() == response.metadata.kv(),
                FieldLookup::Missing => match config.fallback_behavior {
                    FallbackBehavior::KeepOriginal => r matches Ok(out) && out.content@
                        == response.content@ && out.metadata@ == response.metadata@
                        && out.metadata.kv() == response.metadata.kv(),
                    FallbackBehavior::ReturnEmpty => r matches Ok(out) && out.content@
                        == Seq::<char>::empty() && out.metadata@ == response.metadata@
                        && out.metadata.kv() == response.metadata.kv(),
                    FallbackBehavior::ReturnError => r matches Err(
                        TransformError::FieldNotFound { field },
                    ) && field@ == config.field@,
                },
            },
    {
        match lookup {
            FieldLookup::NotJson => Err(TransformError::JsonParse),
            FieldLookup::Found(s) => Ok(Response { content: s, metadata: response.metadata }),
            FieldLookup::Missing => match config.fallback_behavior {
                FallbackBehavior::KeepOriginal => Ok(response),
                FallbackBehavior::ReturnEmpty => Ok(
                    Response { content: String::new(), metadata: response.metadata },
                ),
                FallbackBehavior::ReturnError => Err(
                    TransformError::FieldNotFound { field: config.field.clone() },
                ),
            },
        }
    }

    /// Parse the response content as JSON and rewrite it to the configured
    /// field's text; fall back as configured when the field is absent.
    pub fn transform(&self, response: Response) -> (r: Result<Response, TransformError>)
        ensures
            match json_field_text(response.content@, self.config.field@) {
                None => r matches Err(TransformError::JsonParse),
                Some(Some(t)) => r matches Ok(out) && out.content@ == t && out.metadata@
                    == response.metadata@ && out.metadata.kv() == response.metadata.kv(),
                Some(None) => match self.config.fallback_behavior {
                    FallbackBehavior::KeepOriginal => r matches Ok(out) && out.content@
                        == response.content@ && out.metadata@ == response.metadata@
                        && out.metadata.kv() == response.metadata.kv(),
                    FallbackBehavior::ReturnEmpty => r matches Ok(out) && out.content@
                        == Seq::<char>::empty() && out.metadata@ == response.metadata@
                        && out.metadata.kv() == response.metadata.kv(),
                    FallbackBehavior::ReturnError => r matches Err(
                        TransformError::FieldNotFound { field },
                    ) && field@ == self.config.field@,
                },
            },
    {
        let lookup = lookup_json_field(response.content.as_str(), self.config.field.as_str());
        Self::apply_lookup(&self.config, lookup, response)
    }
}

impl Clone for JsonExtractorTransform {
    fn clone(&self) -> (r: Self)
        ensures
            r == *self,
    {
        JsonExtractorTransform { config: self.config.clone() }
    }
}

/// Truncates response content to a maximum number of Unicode scalar values.
#[derive(Debug)]
pub struct SummarizerTransform {
    pub max_length: usize,
}

impl SummarizerTransform {
    /// Keep at most `max_length` characters.
    pub fn new(max_length: usize) -> (r: Self)
        ensures
            r.max_length == max_length,
    {
        SummarizerTransform { max_length }
    }

    /// Truncate the content to the first `max_length` Unicode scalar values;
    /// shorter content is untouched. Never fails.
    pub fn transform(&self, response: Response) -> (r: Result<Response, TransformError>)
        ensures
            r matches Ok(out) && out.content@ == (if response.content@.len() > self.max_length {
                response.content@.take(self.max_length as int)
            } else {
                response.content@
            }) && out.metadata@ == response.metadata@ && out.metadata.kv()
                == response.metadata.kv(),
    {
        if response.content.as_str().unicode_len() > self.max_length {
            let truncated = String::from_str(
                response.content.as_str().substring_char(0, self.max_length),
            );
            Ok(Response { content: truncated, metadata: response.metadata })
        } else {
            Ok(response)
        }
    }
}

impl Clone for SummarizerTransform {
    fn clone(&self) -> (r: Self)
        ensures
            r == *self,
    {
        SummarizerTransform { max_length: self.max_length }
    }
}

/// Passes responses through unchanged.
#[derive(Clone, Copy, PartialEq, Eq, Structural, Debug)]
pub struct IdentityTransform;

impl IdentityTransform {
    /// Return the response unchanged.
    pub fn transform(&self, response: Response) -> (r: Result<Response, TransformError>)
        ensures
            r matches Ok(out) && out.content@ == response.content@ && out.metadata@
                == response.metadata@ && out.metadata.kv() == response.metadata.kv(),
    {
        Ok(response)
    }
}

/// A transform a pipeline step can carry.
#[derive(Debug)]
pub enum TransformKind {
    Identity(IdentityTransform),
    JsonExtractor(JsonExtractorTransform),
    Summarizer(SummarizerTransform),
}

/// Whether applying `t` to content succeeds.
pub open spec fn transform_ok(t: TransformKind, content: Seq<char>) -> bool {
    match t {
        TransformKind::Identity(_) => true,
        TransformKind::Summarizer(_) => true,
        TransformKind::JsonExtractor(j) => match json_field_text(content, j.config.field@) {
            None => false,
            Some(Some(_)) => true,
            Some(None) => !(j.config.fallback_behavior is ReturnError),
        },
    }
}

/// The content that applying `t` yields, when it succeeds.
pub open spec fn transform_content(t: TransformKind, content: Seq<char>) -> Seq<char> {
    match t {
        TransformKind::Identity(_) => content,
        TransformKind::Summarizer(s) => if content.len() > s.max_length {
            content.take(s.max_length as int)
        } else {
            content
        },
        TransformKind::JsonExtractor(j) => match json_field_text(content, j.config.field@) {
            Some(Some(v)) => v,
            Some(None) => if j.config.fallback_behavior is ReturnEmpty {
                Seq::empty()
            } else {
                content
            },
            None => content,
        },
    }
}

/// The failure text that applying `t` yields, when it fails. Only the JSON
/// extractor can fail: on malformed JSON, or on a missing field under the
/// error fallback.
pub open spec fn transform_fail_text(t: TransformKind, content: Seq<char>) -> Seq<char> {
    match t {
        TransformKind::JsonExtractor(j) => match json_field_text(content, j.config.field@) {
            None => "JSON parsing failed"@,
            Some(None) => "Field '"@ + j.config.field@ + "' not found in JSON"@,
            Some(Some(_)) => Seq::empty(),
        },
        _ => Seq::empty(),
    }
}

impl TransformKind {
    /// Apply this transform to a response. Success and the resulting content
    /// are exactly [`transform_ok`] and [`transform_content`]; metadata is
    /// never touched, and a failure's text is exactly [`transform_fail_text`].
    pub fn apply(&self, response: Response) -> (r: Result<Response, TransformError>)
        ensures
            r is Ok <==> transform_ok(*self, response.content@),
            r matches Ok(out) ==> out.content@ == transform_content(*self, response.content@)
                && out.metadata@ == response.metadata@ && out.metadata.kv()
                == response.metadata.kv(),
            r matches Err(e) ==> transform_error_text(e) == transform_fail_text(
                *self,
                response.content@,
            ),
    {
        match self {
            TransformKind::Identity(t) => t.transform(response),
            TransformKind::JsonExtractor(t) => t.transform(response),
            TransformKind::Summarizer(t) => t.transform(response),
        }
    }
}

impl Clone for TransformKind {
    fn clone(&self) -> (r: Self)
        ensures
            r == *self,
    {
        match self {
            TransformKind::Identity(t) => TransformKind::Identity(*t),
            TransformKind::JsonExtractor(t) => TransformKind::JsonExtractor(t.clone()),
            TransformKind::Summarizer(t) => TransformKind::Summarizer(t.clone()),
        }
    }
}

/// The capability every transform offers: rewrite one step's response before
/// it joins the pipeline result. Implementations decide their own behaviour,
/// so the trait itself carries no contract.
pub trait Transform {
    /// Rewrite a response, or fail the owning step.
    fn transform(&self, response: Response) -> Result<Response, TransformError>;

    /// The name of this transform.
    fn name(&self) -> &str;
}

impl Transform for IdentityTransform {
    fn transform(&self, response: Response) -> Result<Response, TransformError> {
        IdentityTransform::transform(self, response)
    }

    fn name(&self) -> &str {
        "identity"
    }
}

impl Transform for JsonExtractorTransform {
    fn transform(&self, response: Response) -> Result<Response, TransformError> {
        JsonExtractorTransform::transform(self, response)
    }

    fn name(&self) -> &str {
        "json_extractor"
    }
}

impl Transform for SummarizerTransform {
    fn transform(&self, response: Response) -> Result<Response, TransformError> {
        SummarizerTransform::transform(self, response)
    }

    fn name(&self) -> &str {
        "summarizer"
    }
}

} // verus!
