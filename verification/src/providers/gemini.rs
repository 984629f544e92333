//! The Gemini provider: a fully local implementation of the provider
//! capability contract that answers with a canned text once a credential is
//! present.

use vstd::prelude::*;
use vstd::string::*;
use crate::providers::{AIProvider, Capabilities, Context, Response};
use crate::strutil::{usize_to_string, dec_str};

verus! {

/// Gemini credential state: an explicit API key, or a detected CLI session.
pub struct GeminiProvider {
    api_key: Option<String>,
    is_cli_session: bool,
}

/// The canned answer for a prompt.
pub open spec fn gemini_text(prompt: Seq<char>) -> Seq<char> {
    "Gemini response to: "@ + prompt
}

/// The canned streaming answer for a prompt.
pub open spec fn gemini_stream_text(prompt: Seq<char>) -> Seq<char> {
    "Gemini streaming response to: "@ + prompt
}

/// The error reported when no credential is present.
pub open spec fn gemini_unauthenticated_text() -> Seq<char> {
    "Gemini provider not authenticated"@
}

/// The metadata a Gemini answer carries: the conversation length, noted
/// exactly when the context already has history.
pub open spec fn gemini_response_meta(context: &Context) -> Map<Seq<char>, Seq<char>> {
    if context.conversation_history@.len() > 0 {
        Map::<Seq<char>, Seq<char>>::empty().insert(
            "conversation_length"@,
            dec_str(context.conversation_history@.len() as int),
        )
    } else {
        Map::<Seq<char>, Seq<char>>::empty()
    }
}

impl GeminiProvider {
    /// The stored key, if any.
    pub closed spec fn key_view(&self) -> Option<Seq<char>> {
        match self.api_key {
            Some(ref k) => Some(k@),
            None => None,
        }
    }

    /// Whether a CLI session was detected.
    pub closed spec fn cli_session(&self) -> bool {
        self.is_cli_session
    }

    /// A provider backed by an explicit API key.
    pub fn new(api_key: String) -> (r: Self)
        ensures
            r.key_view() == Some(api_key@),
            !r.cli_session(),
    {
        GeminiProvider { api_key: Some(api_key), is_cli_session: false }
    }

    /// A provider for a CLI session the host already detected.
    pub fn from_detected_cli_session() -> (r: Self)
        ensures
            r.key_view() is None,
            r.cli_session(),
    {
        GeminiProvider { api_key: None, is_cli_session: true }
    }

    /// Whether any credential is present.
    pub fn is_authenticated(&self) -> (r: bool)
        ensures
            r == (self.key_view() is Some || self.cli_session()),
    {
        self.api_key.is_some() || self.is_cli_session
    }

    /// Answer a prompt: the canned text, with the conversation length noted
    /// when history exists; an unauthenticated provider fails instead.
    pub fn respond(&self, prompt: &str, context: &Context) -> (r: Result<Response, String>)
        ensures
            self.key_view() is None && !self.cli_session() ==> (r matches Err(e) && e@
                == gemini_unauthenticated_text()),
            self.key_view() is Some || self.cli_session() ==> (r matches Ok(resp) && resp.content@
                == gemini_text(prompt@) && resp.metadata@ == gemini_response_meta(context)),
    {
        if !self.is_authenticated() {
            return Err(String::from_str("Gemini provider not authenticated"));
        }
        let mut text = String::from_str("Gemini response to: ");
        text.append(prompt);
        let response = Response::new(text.as_str());
        if context.conversation_history.len() > 0 {
            let len_text = usize_to_string(context.conversation_history.len());
            Ok(response.with_metadata("conversation_length", len_text.as_str()))
        } else {
            Ok(response)
        }
    }

    /// Answer a prompt as one terminal chunk; an unauthenticated provider
    /// fails instead.
    pub fn respond_stream(&self, prompt: &str) -> (r: Result<Vec<String>, String>)
        ensures
            self.key_view() is None && !self.cli_session() ==> (r matches Err(e) && e@
                == gemini_unauthenticated_text()),
            self.key_view() is Some || self.cli_session() ==> (r matches Ok(chunks)
                && chunks.deep_view() == seq![gemini_stream_text(prompt@)]),
    {
        if !self.is_authenticated() {
            return Err(String::from_str("Gemini provider not authenticated"));
        }
        let mut text = String::from_str("Gemini streaming response to: ");
        text.append(prompt);
        let mut chunks: Vec<String> = Vec::new();
        chunks.push(text);
        proof {
            assert(chunks.deep_view() =~= seq![gemini_stream_text(prompt@)]);
        }
        Ok(chunks)
    }
}

impl AIProvider for GeminiProvider {
    fn execute(&self, prompt: &str, context: &Context) -> Result<Response, String> {
        self.respond(prompt, context)
    }

    fn stream(&self, prompt: &str, _context: &Context) -> Result<Vec<String>, String> {
        self.respond_stream(prompt)
    }

    fn capabilities(&self) -> Capabilities {
        Capabilities { supports_streaming: true, supports_context: true, max_tokens: 100000 }
    }

    fn name(&self) -> &str {
        "gemini"
    }
}

} // verus!
