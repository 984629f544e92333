//! Provider-facing data types: responses, conversation messages, provider
//! capabilities, the shared [`Context`], and the capability trait that every
//! text provider implements.

use vstd::prelude::*;
use vstd::string::*;
use crate::strmap::StrMap;

pub mod context;
pub mod anthropic;
pub mod gemini;

pub use context::{Context, ContextDiff, ContextError, ContextErrorKind, MetaMap, MetaVal,
    MetaValue, StepRecord, RecordView};

verus! {

/// A provider's answer to one prompt: text plus string-keyed metadata.
#[derive(Debug)]
pub struct Response {
    pub content: String,
    pub metadata: StrMap,
}

impl Response {
    /// A response with the given content and no metadata.
    pub fn new(content: &str) -> (r: Self)
        ensures
            r.content@ == content@,
            r.metadata@ == Map::<Seq<char>, Seq<char>>::empty(),
            r.metadata.kv() == Seq::<(Seq<char>, Seq<char>)>::empty(),
    {
        Response { content: String::from_str(content), metadata: StrMap::new() }
    }

    /// The same response with one more metadata binding.
    pub fn with_metadata(self, key: &str, value: &str) -> (r: Self)
        ensures
            r.content@ == self.content@,
            r.metadata@ == self.metadata@.insert(key@, value@),
    {
        let mut metadata = self.metadata;
        metadata.insert(String::from_str(key), String::from_str(value));
        Response { content: self.content, metadata }
    }
}

impl Clone for Response {
    fn clone(&self) -> (r: Self)
        ensures
            r.content@ == self.content@,
            r.metadata@ == self.metadata@,
            r.metadata.kv() == self.metadata.kv(),
    {
        Response { content: self.content.clone(), metadata: self.metadata.clone() }
    }
}

/// Who said a message in the conversation.
#[derive(Clone, Copy, PartialEq, Eq, Structural, Debug)]
pub enum MessageRole {
    System,
    User,
    Assistant,
}

/// One entry of the conversation history.
#[derive(Debug)]
pub struct Message {
    pub role: MessageRole,
    pub content: String,
}

/// The mathematical content of a [`Message`].
pub struct MsgView {
    pub role: MessageRole,
    pub content: Seq<char>,
}

impl View for Message {
    type V = MsgView;

    open spec fn view(&self) -> MsgView {
        MsgView { role: self.role, content: self.content@ }
    }
}

impl DeepView for Message {
    type V = MsgView;

    open spec fn deep_view(&self) -> MsgView {
        self.view()
    }
}

impl Message {
    /// A message from `role` with the given text.
    pub fn new(role: MessageRole, content: &str) -> (r: Self)
        ensures
            r@ == (MsgView { role, content: content@ }),
    {
        Message { role, content: String::from_str(content) }
    }
}

impl Clone for Message {
    fn clone(&self) -> (r: Self)
        ensures
            r == *self,
    {
        Message { role: self.role, content: self.content.clone() }
    }
}

impl PartialEq for Message {
    /// Messages are equal when role and text agree.
    fn eq(&self, other: &Self) -> (r: bool) {
        self.role == other.role && self.content == other.content
    }
}

impl vstd::std_specs::cmp::PartialEqSpecImpl for Message {
    open spec fn obeys_eq_spec() -> bool {
        true
    }

    open spec fn eq_spec(&self, other: &Self) -> bool {
        self@ == other@
    }
}

/// What a provider supports and how much context it accepts.
#[derive(Clone, Copy, PartialEq, Eq, Structural, Debug)]
pub struct Capabilities {
    pub supports_streaming: bool,
    pub supports_context: bool,
    pub max_tokens: usize,
}

impl Default for Capabilities {
    /// No streaming, no context, a 4096-token window.
    fn default() -> (r: Self)
        ensures
            r == (Capabilities {
                supports_streaming: false,
                supports_context: false,
                max_tokens: 4096usize,
            }),
    {
        Capabilities { supports_streaming: false, supports_context: false, max_tokens: 4096 }
    }
}

/// The capability contract a text provider offers the executor. Implementations
/// decide their own behaviour, so no method carries a contract; the engine
/// states what holds of every outcome.
pub trait AIProvider {
    /// Answer one prompt given the shared context.
    fn execute(&self, prompt: &str, context: &Context) -> Result<Response, String>;

    /// Answer one prompt as a finite sequence of text chunks.
    fn stream(&self, prompt: &str, context: &Context) -> Result<Vec<String>, String>;

    /// What this provider supports.
    fn capabilities(&self) -> Capabilities;

    /// The stable name used as the registry key and DSL token.
    fn name(&self) -> &str;
}

} // verus!
