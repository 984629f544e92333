//! The Anthropic provider's engine-side state and decision logic. The HTTP
//! transport lives with the host; this module decides what to answer given
//! the credential state and, when a key is present, the transport's outcome.

use vstd::prelude::*;
use vstd::string::*;
use crate::providers::{Capabilities, Context, Response};
use crate::strutil::{ci_occurs_at, ci_contains, ci_starts_with, ci_contains_str, usize_to_string,
    dec_str};

verus! {

/// Anthropic credential state: an explicit API key, or a detected CLI/desktop
/// session.
pub struct AnthropicProvider {
    api_key: Option<String>,
    is_cli_session: bool,
}

/// A key that marks a test or example configuration: it starts with `test_`
/// or `dummy_` or contains `example`, compared case-insensitively over ASCII
/// letters only; non-ASCII characters must match exactly.
pub open spec fn spec_is_test_key(k: Seq<char>) -> bool {
    ||| ci_occurs_at(k, "test_"@, 0)
    ||| ci_occurs_at(k, "dummy_"@, 0)
    ||| ci_contains(k, "example"@)
}

/// The canned answer used when no network call is made.
pub open spec fn mock_anthropic_text(prompt: Seq<char>) -> Seq<char> {
    "Anthropic response to: "@ + prompt
}

/// The error reported when only a CLI/desktop session was detected: the
/// session is not bridged to the API.
pub open spec fn cli_bridge_error_text() -> Seq<char> {
    "Anthropic CLI/Desktop session detected, but API access is not bridged. Set ANTHROPIC_API_KEY to call the API."@
}

impl AnthropicProvider {
    /// The stored key, if any.
    pub closed spec fn key_view(&self) -> Option<Seq<char>> {
        match self.api_key {
            Some(ref k) => Some(k@),
            None => None,
        }
    }

    /// Whether a CLI/desktop session was detected.
    pub closed spec fn cli_session(&self) -> bool {
        self.is_cli_session
    }

    /// A provider backed by an explicit API key.
    pub fn new(api_key: String) -> (r: Self)
        ensures
            r.key_view() == Some(api_key@),
            !r.cli_session(),
    {
        AnthropicProvider { api_key: Some(api_key), is_cli_session: false }
    }

    /// A provider for a CLI/desktop session the host already detected.
    pub fn from_detected_cli_session() -> (r: Self)
        ensures
            r.key_view() is None,
            r.cli_session(),
    {
        AnthropicProvider { api_key: None, is_cli_session: true }
    }

    /// Whether any credential is present.
    pub fn is_authenticated(&self) -> (r: bool)
        ensures
            r == (self.key_view() is Some || self.cli_session()),
    {
        self.api_key.is_some() || self.is_cli_session
    }

    /// The stored key, cloned out, for the host's transport.
    pub fn api_key(&self) -> (r: Option<String>)
        ensures
            match r {
                Some(k) => self.key_view() == Some(k@),
                None => self.key_view() is None,
            },
    {
        match &self.api_key {
            Some(k) => Some(k.clone()),
            None => None,
        }
    }

    /// Whether the stored key marks a test or example configuration, so that
    /// no network call should be made for it.
    pub fn is_test_key(key: &str) -> (r: bool)
        ensures
            r == spec_is_test_key(key@),
    {
        ci_starts_with(key, "test_") || ci_starts_with(key, "dummy_") || ci_contains_str(
            key,
            "example",
        )
    }

    /// The canned answer for a prompt when no network call is made.
    pub fn mock_response_text(prompt: &str) -> (r: String)
        ensures
            r@ == mock_anthropic_text(prompt@),
    {
        let mut s = String::from_str("Anthropic response to: ");
        s.append(prompt);
        s
    }

    /// Decide the step's answer from the credential state and, when a key is
    /// present, the transport's outcome: a keyed provider answers with the
    /// transport's text or propagates its failure; a bare CLI session is an
    /// error, because the session is not bridged to the API; with no
    /// credential at all, the canned answer is returned. A successful answer
    /// notes the conversation length when history exists.
    pub fn respond(&self, prompt: &str, context: &Context, api: Option<Result<String, String>>) -> (r:
        Result<Response, String>)
        requires
            self.key_view() is Some <==> api is Some,
        ensures
            match api {
                Some(outcome) => match outcome {
                    Ok(text) => r matches Ok(resp) && resp.content@ == text@ && resp.metadata@
                        == anthropic_response_meta(context),
                    Err(m) => r matches Err(e) && e@ == m@,
                },
                None => if self.cli_session() {
                    r matches Err(e) && e@ == cli_bridge_error_text()
                } else {
                    r matches Ok(resp) && resp.content@ == mock_anthropic_text(prompt@)
                        && resp.metadata@ == anthropic_response_meta(context)
                },
            },
    {
        match api {
            Some(outcome) => match outcome {
                Ok(text) => Ok(Self::annotate(Response::new(text.as_str()), context)),
                Err(m) => Err(m),
            },
            None => {
                if self.is_cli_session {
                    Err(
                        String::from_str(
                            "Anthropic CLI/Desktop session detected, but API access is not bridged. Set ANTHROPIC_API_KEY to call the API.",
                        ),
                    )
                } else {
                    let text = Self::mock_response_text(prompt);
                    Ok(Self::annotate(Response::new(text.as_str()), context))
                }
            },
        }
    }

    /// Note the conversation length on a response when history exists.
    fn annotate(response: Response, context: &Context) -> (r: Response)
        requires
            response.metadata@ == Map::<Seq<char>, Seq<char>>::empty(),
        ensures
            r.content@ == response.content@,
            r.metadata@ == anthropic_response_meta(context),
    {
        if context.conversation_history.len() > 0 {
            let len_text = usize_to_string(context.conversation_history.len());
            response.with_metadata("conversation_length", len_text.as_str())
        } else {
            response
        }
    }

    /// What this provider supports: streaming, context, and a 200,000-token
    /// window.
    pub fn capabilities(&self) -> (r: Capabilities)
        ensures
            r == (Capabilities {
                supports_streaming: true,
                supports_context: true,
                max_tokens: 200000usize,
            }),
    {
        Capabilities { supports_streaming: true, supports_context: true, max_tokens: 200000 }
    }

    /// The stable provider name.
    pub fn name(&self) -> (r: &str)
        ensures
            r@ == "anthropic"@,
    {
        "anthropic"
    }
}

/// The metadata a Anthropic answer carries: the conversation length, noted
/// exactly when the context already has history.
pub open spec fn anthropic_response_meta(context: &Context) -> Map<Seq<char>, Seq<char>> {
    if context.conversation_history@.len() > 0 {
        Map::<Seq<char>, Seq<char>>::empty().insert(
            "conversation_length"@,
            dec_str(context.conversation_history@.len() as int),
        )
    } else {
        Map::<Seq<char>, Seq<char>>::empty()
    }
}

/// The text parts of an API reply joined in order; absent parts contribute
/// nothing.
pub open spec fn join_parts(ps: Seq<Option<Seq<char>>>) -> Seq<char>
    decreases ps.len(),
{
    if ps.len() == 0 {
        Seq::empty()
    } else {
        (match ps[0] {
            Some(t) => t,
            None => Seq::empty(),
        }) + join_parts(ps.skip(1))
    }
}

/// Join the text parts of an API reply; an entirely empty reply becomes the
/// placeholder `(empty response)`.
pub fn join_text_parts(parts: &Vec<Option<String>>) -> (r: String)
    ensures
        r@ == (if join_parts(parts.deep_view()).len() == 0 {
            "(empty response)"@
        } else {
            join_parts(parts.deep_view())
        }),
{
    let ghost ps = parts.deep_view();
    let n = parts.len();
    let mut out = String::new();
    let mut i: usize = 0;
    proof {
        assert(ps.skip(0) =~= ps);
    }
    while i < n
        invariant
            i <= n,
            n == ps.len(),
            ps == parts.deep_view(),
            out@ + join_parts(ps.skip(i as int)) == join_parts(ps),
        decreases n - i,
    {
        proof {
            assert(ps.skip(i as int)[0] == ps[i as int]);
            assert(ps[i as int] == parts@[i as int].deep_view());
        }
        match &parts[i] {
            Some(t) => {
                out.append(t.as_str());
            },
            None => {},
        }
        proof {
            assert(ps.skip(i as int).skip(1) =~= ps.skip(i as int + 1));
        }
        i = i + 1;
    }
    proof {
        assert(ps.skip(n as int) =~= Seq::<Option<Seq<char>>>::empty());
        assert(out@ + Seq::<char>::empty() =~= out@);
    }
    if out.as_str().unicode_len() == 0 {
        String::from_str("(empty response)")
    } else {
        out
    }
}

} // verus!
