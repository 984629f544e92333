//! The pipeline executor: resolves each step's provider, builds the prompt,
//! retries transient failures, enriches and transforms the response, and
//! decides continue-versus-abort on error — one step at a time, in order,
//! because each step's prompt depends on the context the previous step left.

use vstd::prelude::*;
use vstd::string::*;
use vstd::pervasive::arbitrary;
use crate::providers::{AIProvider, Context, Message, MessageRole, Response};
use crate::auth::AuthManager;
use crate::pipeline::{PipelineStep, known_has};
use crate::pipeline::transform::{TransformKind, TransformError, transform_ok, transform_content,
    transform_fail_text, transform_error_text};
use crate::strutil::{str_eq, usize_to_string, u64_to_string, dec_str};
use crate::clock::now_millis;
use vstd::pervasive::VecAdditionalExecFns;

verus! {

/// Why a pipeline run or step failed.
#[derive(Debug)]
pub enum PipelineError {
    /// The step names a provider the executor does not know.
    UnknownProvider { provider: String },
    /// The provider itself reported a failure.
    Provider { message: String },
    /// The step's transform rejected the response.
    Transform { inner: TransformError },
    /// The whole run aborted at the given 1-based step.
    StepFailed { step_number: usize, cause: Box<PipelineError> },
}

/// The text of each pipeline failure.
pub open spec fn pipeline_error_text(e: PipelineError) -> Seq<char>
    decreases e,
{
    match e {
        PipelineError::UnknownProvider { provider } => "Unknown provider: "@ + provider@,
        PipelineError::Provider { message } => message@,
        PipelineError::Transform { inner } => "Transform failed: "@ + transform_error_text(inner),
        PipelineError::StepFailed { step_number, cause } => "Pipeline execution failed at step "@
            + dec_str(step_number as int) + ": "@ + pipeline_error_text(*cause),
    }
}

impl PipelineError {
    /// A description of the failure.
    pub fn message(&self) -> (r: String)
        ensures
            r@ == pipeline_error_text(*self),
        decreases *self,
    {
        match self {
            PipelineError::UnknownProvider { provider } => {
                let mut s = String::from_str("Unknown provider: ");
                s.append(provider.as_str());
                s
            },
            PipelineError::Provider { message } => message.clone(),
            PipelineError::Transform { inner } => {
                let mut s = String::from_str("Transform failed: ");
                let m = inner.message();
                s.append(m.as_str());
                s
            },
            PipelineError::StepFailed { step_number, cause } => {
                let mut s = String::from_str("Pipeline execution failed at step ");
                let n = usize_to_string(*step_number);
                s.append(n.as_str());
                s.append(": ");
                let m = cause.message();
                s.append(m.as_str());
                proof {
                    assert(s@ =~= "Pipeline execution failed at step "@ + dec_str(
                        *step_number as int,
                    ) + ": "@ + pipeline_error_text(**cause));
                }
                s
            },
        }
    }
}

impl Clone for PipelineError {
    fn clone(&self) -> (r: Self)
        ensures
            r == *self,
        decreases *self,
    {
        match self {
            PipelineError::UnknownProvider { provider } => PipelineError::UnknownProvider {
                provider: provider.clone(),
            },
            PipelineError::Provider { message } => PipelineError::Provider {
                message: message.clone(),
            },
            PipelineError::Transform { inner } => PipelineError::Transform {
                inner: inner.clone(),
            },
            PipelineError::StepFailed { step_number, cause } => PipelineError::StepFailed {
                step_number: *step_number,
                cause: Box::new((**cause).clone()),
            },
        }
    }
}

/// How the executor runs a pipeline.
#[derive(Clone, Copy, PartialEq, Eq, Structural, Debug)]
pub struct ExecutionConfig {
    /// Replace a failed step with a placeholder response instead of aborting.
    pub continue_on_error: bool,
    /// How many times a failed provider call is retried.
    pub max_retries: usize,
    /// How long to idle between retries, in milliseconds. The wait is
    /// performed by the run's [`RetryWaiter`] after every failed attempt
    /// that will be retried; with [`NoWait`] the engine moves straight to
    /// the next attempt.
    pub retry_delay_ms: u64,
    /// A per-call deadline in seconds. Advisory: not enforced by the core
    /// loop; a host should wrap provider calls in a deadline.
    pub timeout_seconds: Option<u64>,
}

impl Default for ExecutionConfig {
    /// Abort on error, no retries, a one-second retry delay, no timeout.
    fn default() -> (r: Self)
        ensures
            r == (ExecutionConfig {
                continue_on_error: false,
                max_retries: 0usize,
                retry_delay_ms: 1000u64,
                timeout_seconds: None::<u64>,
            }),
    {
        ExecutionConfig {
            continue_on_error: false,
            max_retries: 0,
            retry_delay_ms: 1000,
            timeout_seconds: None,
        }
    }
}

/// The default configuration: abort on error, no retries, a one-second retry
/// delay, no timeout.
pub open spec fn default_exec_config() -> ExecutionConfig {
    ExecutionConfig {
        continue_on_error: false,
        max_retries: 0usize,
        retry_delay_ms: 1000u64,
        timeout_seconds: None,
    }
}

/// The record of one executed step.
#[derive(Debug)]
pub struct StepResult {
    pub step: PipelineStep,
    pub response: Result<Response, PipelineError>,
    pub execution_time_ms: u64,
    pub retries: usize,
}

impl StepResult {
    /// Whether the step produced a response.
    pub fn is_success(&self) -> (r: bool)
        ensures
            r == (self.response is Ok),
    {
        self.response.is_ok()
    }

    /// Whether the step failed.
    pub fn is_error(&self) -> (r: bool)
        ensures
            r == (self.response is Err),
    {
        self.response.is_err()
    }

    /// The response, if the step succeeded.
    pub fn get_response(&self) -> (r: Option<&Response>)
        ensures
            match r {
                Some(resp) => self.response matches Ok(o) && *resp == o,
                None => self.response is Err,
            },
    {
        match &self.response {
            Ok(resp) => Some(resp),
            Err(_) => None,
        }
    }

    /// The error, if the step failed.
    pub fn get_error(&self) -> (r: Option<&PipelineError>)
        ensures
            match r {
                Some(e) => self.response matches Err(o) && *e == o,
                None => self.response is Ok,
            },
    {
        match &self.response {
            Ok(_) => None,
            Err(e) => Some(e),
        }
    }
}

/// A read-only sink for per-step results. Invoked after each step; it cannot
/// influence control flow, so it carries no contract.
pub trait StepObserver {
    /// Called once per executed step with its full record.
    fn on_step(&mut self, result: &StepResult);
}

/// The observer that ignores every step.
pub struct NoopObserver;

impl StepObserver for NoopObserver {
    fn on_step(&mut self, _result: &StepResult) {
    }
}

/// The host's suspension point between retry attempts. The engine calls it
/// with `retry_delay_ms` after every failed attempt that will be retried; a
/// host implements it with a real, cancellable sleep. It cannot influence
/// the result, so it carries no contract.
pub trait RetryWaiter {
    /// Idle for the configured delay before the next attempt.
    fn wait(&mut self, delay_ms: u64);
}

/// The waiter that moves straight to the next attempt.
pub struct NoWait;

impl RetryWaiter for NoWait {
    fn wait(&mut self, _delay_ms: u64) {
    }
}

// --- the mathematical account of a run ---

/// One provider call's final outcome is accepted: the provider is registered,
/// the call succeeded, and the step's transform (if any) accepts the content.
pub open spec fn step_passes(
    has_p: bool,
    t: Option<TransformKind>,
    out: Result<Response, String>,
) -> bool {
    has_p && out is Ok && (match t {
        Some(k) => transform_ok(k, out.unwrap().content@),
        None => true,
    })
}

/// The content a passing step contributes: the (possibly transformed) provider
/// content behind the `provider: ` prefix that marks it for downstream steps.
pub open spec fn step_ok_content(
    t: Option<TransformKind>,
    provider: Seq<char>,
    out: Result<Response, String>,
) -> Seq<char> {
    let raw = out.unwrap().content@;
    let c = match t {
        Some(k) => transform_content(k, raw),
        None => raw,
    };
    provider + ": "@ + c
}

/// The failure text of a step that does not pass: an unknown provider, the
/// provider's own error text, or the transform's failure text.
pub open spec fn step_fail_text(
    has_p: bool,
    t: Option<TransformKind>,
    provider: Seq<char>,
    out: Result<Response, String>,
) -> Seq<char> {
    if !has_p {
        "Unknown provider: "@ + provider
    } else {
        match out {
            Err(m) => m@,
            Ok(raw) => "Transform failed: "@ + transform_fail_text(t.unwrap(), raw.content@),
        }
    }
}

/// The placeholder content a failed step contributes under continue-on-error.
pub open spec fn placeholder_text(i: int, cause: Seq<char>) -> Seq<char> {
    "Error in step "@ + dec_str(i + 1) + ": "@ + cause
}

/// The metadata of a successful response after annotation at clock text `ts`:
/// the run markers are written over the provider's own entries in a fixed
/// order, each only when its condition holds, and nothing else changes.
pub open spec fn annotated_meta(
    m: Map<Seq<char>, Seq<char>>,
    authd: bool,
    has_hist: bool,
    idx: int,
    retries: int,
    ts: Seq<char>,
) -> Map<Seq<char>, Seq<char>> {
    let m1 = if authd {
        m.insert("authenticated"@, "true"@)
    } else {
        m
    };
    let m2 = if has_hist {
        m1.insert("has_initial_context"@, "true"@)
    } else {
        m1
    };
    let m3 = if idx > 0 {
        m2.insert("previous_step"@, "true"@)
    } else {
        m2
    };
    let m4 = m3.insert("step_index"@, dec_str(idx));
    let m5 = if retries > 0 {
        m4.insert("retries"@, dec_str(retries))
    } else {
        m4
    };
    m5.insert("execution_time"@, ts)
}

/// The context already holds conversation history.
pub open spec fn has_history_spec(c: &Context) -> bool {
    c.conversation_history@.len() > 0
}

/// The annotations of one returned response: a passing step carries its
/// 0-based step index, the authentication marker when an auth manager is
/// attached, and the previous-step marker after the first step; a failing
/// step's placeholder carries the error marker and the same 1-based index as
/// its text.
pub open spec fn response_annotated(resp: Response, authd: bool, j: int, passed: bool) -> bool {
    if passed {
        &&& resp.metadata@.contains_key("step_index"@)
        &&& resp.metadata@["step_index"@] == dec_str(j)
        &&& authd ==> resp.metadata@.contains_key("authenticated"@)
        &&& j > 0 ==> resp.metadata@.contains_key("previous_step"@)
    } else {
        &&& resp.metadata@.contains_key("error"@)
        &&& resp.metadata@["error"@] == "true"@
        &&& resp.metadata@.contains_key("step_index"@)
        &&& resp.metadata@["step_index"@] == dec_str(j + 1)
    }
}

/// What one step's recorded outcome must look like, given the provider call's
/// final outcome `out` and the run's annotation inputs.
pub open spec fn step_result_matches(
    known: Seq<Seq<char>>,
    step: PipelineStep,
    out: Result<Response, String>,
    authd: bool,
    has_hist: bool,
    idx: int,
    retries: int,
    resp: Result<Response, PipelineError>,
) -> bool {
    let has_p = known_has(known, step.provider@);
    let t = step.transform_view();
    if step_passes(has_p, t, out) {
        resp matches Ok(res) && res.content@ == step_ok_content(t, step.provider@, out) && (
        exists|ts: Seq<char>|
            res.metadata@ == #[trigger] annotated_meta(
                out.unwrap().metadata@,
                authd,
                has_hist,
                idx,
                retries,
                ts,
            ))
    } else {
        resp matches Err(e) && !(e is StepFailed) && pipeline_error_text(e) == step_fail_text(
            has_p,
            t,
            step.provider@,
            out,
        )
    }
}

/// The contents of a run from step `i` on, or the 0-based index of the step
/// that aborts it: a passing step contributes its content; a failing one
/// contributes its placeholder under continue-on-error and aborts otherwise.
pub open spec fn run_from(
    known: Seq<Seq<char>>,
    cfg: ExecutionConfig,
    steps: Seq<PipelineStep>,
    outs: Seq<Result<Response, String>>,
    i: int,
) -> Result<Seq<Seq<char>>, int>
    decreases steps.len() - i,
{
    if i < 0 || i >= steps.len() {
        Ok(Seq::empty())
    } else {
        let has_p = known_has(known, steps[i].provider@);
        let t = steps[i].transform_view();
        let out = outs[i];
        if step_passes(has_p, t, out) {
            match run_from(known, cfg, steps, outs, i + 1) {
                Ok(rest) => Ok(seq![step_ok_content(t, steps[i].provider@, out)] + rest),
                Err(j) => Err(j),
            }
        } else if cfg.continue_on_error {
            match run_from(known, cfg, steps, outs, i + 1) {
                Ok(rest) => Ok(
                    seq![
                        placeholder_text(i, step_fail_text(has_p, t, steps[i].provider@, out))
                    ] + rest,
                ),
                Err(j) => Err(j),
            }
        } else {
            Err(i)
        }
    }
}

/// The contents of a list of responses.
pub open spec fn contents_of(rs: Seq<Response>) -> Seq<Seq<char>> {
    rs.map(|i: int, r: Response| r.content@)
}

/// The relation between a run's return value and the per-step provider
/// outcomes it observed, for an executor with (`authd`) or without an auth
/// manager.
pub open spec fn pipeline_matches(
    known: Seq<Seq<char>>,
    authd: bool,
    cfg: ExecutionConfig,
    steps: Seq<PipelineStep>,
    outs: Seq<Result<Response, String>>,
    r: Result<Vec<Response>, PipelineError>,
) -> bool {
    &&& outs.len() == steps.len()
    &&& match r {
        Ok(responses) => {
            &&& run_from(known, cfg, steps, outs, 0) matches Ok(cs) && responses@.len()
                == cs.len() && (forall|j: int|
                0 <= j < cs.len() ==> (#[trigger] responses@[j]).content@ == cs[j])
            &&& forall|j: int|
                0 <= j < steps.len() ==> #[trigger] response_annotated(
                    responses@[j],
                    authd,
                    j,
                    step_passes(
                        known_has(known, steps[j].provider@),
                        steps[j].transform_view(),
                        outs[j],
                    ),
                )
        },
        Err(e) => {
            &&& run_from(known, cfg, steps, outs, 0) matches Err(k) && (e matches
                PipelineError::StepFailed { step_number, cause } && step_number == k + 1
                && pipeline_error_text(*cause) == step_fail_text(
                known_has(known, steps[k].provider@),
                steps[k].transform_view(),
                steps[k].provider@,
                outs[k],
            ))
        },
    }
}

/// One step's processed prefix fact used to assemble the whole run.
pub open spec fn step_matched(
    known: Seq<Seq<char>>,
    cfg: ExecutionConfig,
    steps: Seq<PipelineStep>,
    outs: Seq<Result<Response, String>>,
    contents: Seq<Seq<char>>,
    j: int,
) -> bool {
    let has_p = known_has(known, steps[j].provider@);
    let t = steps[j].transform_view();
    if step_passes(has_p, t, outs[j]) {
        contents[j] == step_ok_content(t, steps[j].provider@, outs[j])
    } else {
        cfg.continue_on_error && contents[j] == placeholder_text(
            j,
            step_fail_text(has_p, t, steps[j].provider@, outs[j]),
        )
    }
}

/// A run in which every step matched its outcome yields exactly the recorded
/// contents.
pub proof fn lemma_run_from_pointwise(
    known: Seq<Seq<char>>,
    cfg: ExecutionConfig,
    steps: Seq<PipelineStep>,
    outs: Seq<Result<Response, String>>,
    contents: Seq<Seq<char>>,
    i: int,
)
    requires
        0 <= i <= steps.len(),
        contents.len() == steps.len(),
        forall|j: int| i <= j < steps.len() ==> step_matched(known, cfg, steps, outs, contents, j),
    ensures
        run_from(known, cfg, steps, outs, i) == Ok::<Seq<Seq<char>>, int>(contents.skip(i)),
    decreases steps.len() - i,
{
    if i == steps.len() {
        assert(contents.skip(i) =~= Seq::<Seq<char>>::empty());
    } else {
        lemma_run_from_pointwise(known, cfg, steps, outs, contents, i + 1);
        assert(step_matched(known, cfg, steps, outs, contents, i));
        assert(seq![contents[i]] + contents.skip(i + 1) =~= contents.skip(i));
    }
}

/// A run whose first non-passing step is `k` aborts at `k` when
/// continue-on-error is off.
pub proof fn lemma_run_from_abort(
    known: Seq<Seq<char>>,
    cfg: ExecutionConfig,
    steps: Seq<PipelineStep>,
    outs: Seq<Result<Response, String>>,
    i: int,
    k: int,
)
    requires
        !cfg.continue_on_error,
        0 <= i <= k < steps.len(),
        forall|j: int|
            i <= j < k ==> step_passes(
                known_has(known, (#[trigger] steps[j]).provider@),
                steps[j].transform_view(),
                outs[j],
            ),
        !step_passes(known_has(known, steps[k].provider@), steps[k].transform_view(), outs[k]),
    ensures
        run_from(known, cfg, steps, outs, i) == Err::<Seq<Seq<char>>, int>(k),
    decreases steps.len() - i,
{
    if i < k {
        lemma_run_from_abort(known, cfg, steps, outs, i + 1, k);
    }
}

// --- laws of the run ---

/// Outcomes agree in everything the run can observe: success with equal
/// content, or failure with equal error text.
pub open spec fn out_content_eq(a: Result<Response, String>, b: Result<Response, String>) -> bool {
    match (a, b) {
        (Ok(x), Ok(y)) => x.content@ == y.content@,
        (Err(m), Err(n)) => m@ == n@,
        _ => false,
    }
}

/// Determinism of the engine: two runs over the same steps and configuration
/// whose provider outcomes agree in content and error text yield the same
/// result, content for content — response metadata, timing and retry counts
/// never influence the returned contents.
pub proof fn lemma_run_deterministic(
    known: Seq<Seq<char>>,
    cfg: ExecutionConfig,
    steps: Seq<PipelineStep>,
    outs1: Seq<Result<Response, String>>,
    outs2: Seq<Result<Response, String>>,
    i: int,
)
    requires
        outs1.len() == outs2.len(),
        steps.len() <= outs1.len(),
        forall|j: int| 0 <= j < outs1.len() ==> out_content_eq(outs1[j], outs2[j]),
    ensures
        run_from(known, cfg, steps, outs1, i) == run_from(known, cfg, steps, outs2, i),
    decreases steps.len() - i,
{
    if 0 <= i < steps.len() {
        lemma_run_deterministic(known, cfg, steps, outs1, outs2, i + 1);
        assert(out_content_eq(outs1[i], outs2[i]));
        let has_p = known_has(known, steps[i].provider@);
        let t = steps[i].transform_view();
        match (outs1[i], outs2[i]) {
            (Ok(x), Ok(y)) => {
                assert(x.content@ == y.content@);
                assert(step_passes(has_p, t, outs1[i]) == step_passes(has_p, t, outs2[i]));
                if step_passes(has_p, t, outs1[i]) {
                    assert(step_ok_content(t, steps[i].provider@, outs1[i]) == step_ok_content(
                        t,
                        steps[i].provider@,
                        outs2[i],
                    ));
                } else {
                    assert(step_fail_text(has_p, t, steps[i].provider@, outs1[i])
                        == step_fail_text(has_p, t, steps[i].provider@, outs2[i]));
                }
            },
            (Err(m), Err(n)) => {
                assert(m@ == n@);
            },
            _ => {},
        }
    }
}

/// With continue-on-error set, a run never aborts: it yields exactly one
/// content per remaining step, placeholders included.
pub proof fn lemma_continue_on_error_total(
    known: Seq<Seq<char>>,
    cfg: ExecutionConfig,
    steps: Seq<PipelineStep>,
    outs: Seq<Result<Response, String>>,
    i: int,
)
    requires
        cfg.continue_on_error,
        0 <= i <= steps.len(),
    ensures
        run_from(known, cfg, steps, outs, i) matches Ok(cs) && cs.len() == steps.len() - i,
    decreases steps.len() - i,
{
    if i < steps.len() {
        lemma_continue_on_error_total(known, cfg, steps, outs, i + 1);
    }
}

// --- retry accounting ---

/// The shape of a retry trace: at least one attempt, at most one more than
/// the retry budget, every attempt but the last failed, and a failing last
/// attempt means the budget was exhausted.
pub open spec fn retry_trace_wf(attempts: Seq<Result<Response, String>>, max_retries: int) -> bool {
    &&& 1 <= attempts.len() <= max_retries + 1
    &&& forall|i: int| 0 <= i < attempts.len() - 1 ==> (#[trigger] attempts[i]) is Err
    &&& (attempts.last() is Err ==> attempts.len() == max_retries + 1)
}

/// Retry accounting, the success side: when attempt `k` of a well-formed
/// trace succeeds, it is the last attempt, so the recorded retry count —
/// the trace length minus one — is exactly `k`, and `k` never exceeds the
/// budget.
pub proof fn lemma_retry_accounting(
    attempts: Seq<Result<Response, String>>,
    max_retries: int,
    k: int,
)
    requires
        retry_trace_wf(attempts, max_retries),
        0 <= k < attempts.len(),
        attempts[k] is Ok,
    ensures
        attempts.len() == k + 1,
        k <= max_retries,
{
    if k < attempts.len() - 1 {
        assert(attempts[k] is Err);
    }
}

/// Retry accounting, the exhaustion side: a well-formed trace that ends in
/// failure made exactly `max_retries + 1` attempts, every one of them failed,
/// and the recorded retry count is exactly `max_retries`.
pub proof fn lemma_retry_exhaustion(attempts: Seq<Result<Response, String>>, max_retries: int)
    requires
        retry_trace_wf(attempts, max_retries),
        attempts.last() is Err,
    ensures
        attempts.len() == max_retries + 1,
        forall|i: int| 0 <= i < attempts.len() ==> (#[trigger] attempts[i]) is Err,
{
    assert forall|i: int| 0 <= i < attempts.len() implies (#[trigger] attempts[i]) is Err by {
        if i == attempts.len() - 1 {
            assert(attempts.last() is Err);
        }
    }
}

// --- the executor ---

/// Runs pipelines against a registry of named providers.
pub struct PipelineExecutor<P> {
    providers: Vec<(String, P)>,
    auth_manager: Option<AuthManager>,
    config: ExecutionConfig,
}

impl<P: AIProvider> PipelineExecutor<P> {
    /// The registered provider names, in registration order.
    pub closed spec fn provider_names(&self) -> Seq<Seq<char>> {
        self.providers@.map(|i: int, e: (String, P)| e.0@)
    }

    /// The execution configuration.
    pub closed spec fn spec_config(&self) -> ExecutionConfig {
        self.config
    }

    /// Whether an auth manager is attached.
    pub closed spec fn has_auth(&self) -> bool {
        self.auth_manager is Some
    }

    /// Whether a provider of this name is registered.
    pub open spec fn has_provider_spec(&self, name: Seq<char>) -> bool {
        known_has(self.provider_names(), name)
    }

    /// An executor with no providers, no auth manager and the default
    /// configuration.
    pub fn new() -> (r: Self)
        ensures
            r.provider_names() == Seq::<Seq<char>>::empty(),
            r.spec_config() == default_exec_config(),
            !r.has_auth(),
    {
        let r = PipelineExecutor {
            providers: Vec::new(),
            auth_manager: None,
            config: ExecutionConfig::default(),
        };
        proof {
            assert(r.provider_names() =~= Seq::<Seq<char>>::empty());
        }
        r
    }

    /// An executor with the given configuration.
    pub fn with_config(config: ExecutionConfig) -> (r: Self)
        ensures
            r.provider_names() == Seq::<Seq<char>>::empty(),
            r.spec_config() == config,
            !r.has_auth(),
    {
        let r = PipelineExecutor { providers: Vec::new(), auth_manager: None, config };
        proof {
            assert(r.provider_names() =~= Seq::<Seq<char>>::empty());
        }
        r
    }

    /// Register a provider under a name; a provider already registered under
    /// that name is replaced.
    pub fn register_provider(&mut self, name: &str, provider: P)
        ensures
            old(self).has_provider_spec(name@) ==> final(self).provider_names() == old(
                self,
            ).provider_names(),
            !old(self).has_provider_spec(name@) ==> final(self).provider_names() == old(
                self,
            ).provider_names().push(name@),
            final(self).has_provider_spec(name@),
            final(self).spec_config() == old(self).spec_config(),
            final(self).has_auth() == old(self).has_auth(),
            forall|n: Seq<char>|
                old(self).has_provider_spec(n) ==> final(self).has_provider_spec(n),
    {
        let ghost old_names = self.provider_names();
        let pos = self.find_provider(name);
        match pos {
            Some(i) => {
                self.providers.set(i, (String::from_str(name), provider));
                proof {
                    assert(self.provider_names() =~= old_names.update(i as int, name@));
                    assert(self.provider_names() =~= old_names);
                    assert(self.provider_names()[i as int] == name@);
                    assert forall|n: Seq<char>| known_has(old_names, n) implies known_has(
                        self.provider_names(),
                        n,
                    ) by {
                        let j = choose|j: int| 0 <= j < old_names.len() && old_names[j] == n;
                        assert(self.provider_names()[j] == n);
                    }
                }
            },
            None => {
                self.providers.push((String::from_str(name), provider));
                proof {
                    assert(self.provider_names() =~= old_names.push(name@));
                    assert(self.provider_names()[old_names.len() as int] == name@);
                    assert forall|n: Seq<char>| known_has(old_names, n) implies known_has(
                        self.provider_names(),
                        n,
                    ) by {
                        let j = choose|j: int| 0 <= j < old_names.len() && old_names[j] == n;
                        assert(self.provider_names()[j] == n);
                    }
                }
            },
        }
    }

    /// The position of a registered provider.
    fn find_provider(&self, name: &str) -> (r: Option<usize>)
        ensures
            match r {
                Some(i) => i < self.provider_names().len() && self.provider_names()[i as int]
                    == name@,
                None => !self.has_provider_spec(name@),
            },
    {
        let n = self.providers.len();
        let mut i: usize = 0;
        while i < n
            invariant
                i <= n,
                n == self.providers@.len(),
                n == self.provider_names().len(),
                forall|j: int| 0 <= j < i ==> self.provider_names()[j] != name@,
            decreases n - i,
        {
            if str_eq(self.providers[i].0.as_str(), name) {
                proof {
                    assert(self.provider_names()[i as int] == name@);
                }
                return Some(i);
            }
            i = i + 1;
        }
        proof {
            if self.has_provider_spec(name@) {
                let j = choose|j: int|
                    0 <= j < self.provider_names().len() && self.provider_names()[j] == name@;
                assert(self.provider_names()[j] != name@);
            }
        }
        None
    }

    /// Attach an authentication manager; successful responses are then marked
    /// authenticated.
    pub fn set_auth_manager(&mut self, auth_manager: AuthManager)
        ensures
            final(self).has_auth(),
            final(self).provider_names() == old(self).provider_names(),
            final(self).spec_config() == old(self).spec_config(),
    {
        self.auth_manager = Some(auth_manager);
    }

    /// Replace the execution configuration.
    pub fn set_config(&mut self, config: ExecutionConfig)
        ensures
            final(self).spec_config() == config,
            final(self).provider_names() == old(self).provider_names(),
            final(self).has_auth() == old(self).has_auth(),
    {
        self.config = config;
    }

    /// Choose between aborting on a failed step and continuing with a
    /// placeholder.
    pub fn set_continue_on_error(&mut self, continue_on_error: bool)
        ensures
            final(self).spec_config() == (ExecutionConfig {
                continue_on_error,
                ..old(self).spec_config()
            }),
            final(self).provider_names() == old(self).provider_names(),
            final(self).has_auth() == old(self).has_auth(),
    {
        self.config.continue_on_error = continue_on_error;
    }

    /// Set the retry budget for failed provider calls.
    pub fn set_max_retries(&mut self, max_retries: usize)
        ensures
            final(self).spec_config() == (ExecutionConfig {
                max_retries,
                ..old(self).spec_config()
            }),
            final(self).provider_names() == old(self).provider_names(),
            final(self).has_auth() == old(self).has_auth(),
    {
        self.config.max_retries = max_retries;
    }

    /// The registered provider names.
    pub fn get_provider_names(&self) -> (r: Vec<String>)
        ensures
            r.deep_view() == self.provider_names(),
    {
        let n = self.providers.len();
        let mut names: Vec<String> = Vec::new();
        let mut i: usize = 0;
        while i < n
            invariant
                i <= n,
                n == self.providers@.len(),
                n == self.provider_names().len(),
                names@.len() == i,
                forall|j: int| 0 <= j < i ==> (#[trigger] names@[j])@ == self.provider_names()[j],
            decreases n - i,
        {
            names.push(self.providers[i].0.clone());
            i = i + 1;
        }
        proof {
            assert(names.deep_view() =~= self.provider_names());
        }
        names
    }

    /// Whether a provider of this name is registered.
    pub fn has_provider(&self, name: &str) -> (r: bool)
        ensures
            r == self.has_provider_spec(name@),
    {
        match self.find_provider(name) {
            Some(_) => true,
            None => false,
        }
    }

    /// The execution configuration.
    pub fn get_config(&self) -> (r: &ExecutionConfig)
        ensures
            *r == self.spec_config(),
    {
        &self.config
    }

    /// The effective prompt of a step: the action alone, or
    /// `action: static-context` when the step carries one.
    fn build_prompt(step: &PipelineStep) -> (r: String)
        ensures
            r@ == (match step.ctx_view() {
                Some(c) => step.action@ + ": "@ + c,
                None => step.action@,
            }),
    {
        match step.get_context() {
            Some(c) => {
                let mut s = step.action.clone();
                s.append(": ");
                s.append(c.as_str());
                s
            },
            None => step.action.clone(),
        }
    }

    /// Call the provider until it succeeds or the retry budget is spent,
    /// handing the configured delay to the waiter between attempts.
    fn run_with_retries<W: RetryWaiter>(
        provider: &P,
        prompt: &str,
        context: &Context,
        max_retries: usize,
        retry_delay_ms: u64,
        waiter: &mut W,
    ) -> (r: (Result<Response, String>, usize, Ghost<Seq<Result<Response, String>>>))
        ensures
            retry_trace_wf(r.2@, max_retries as int),
            r.0 == r.2@.last(),
            r.1 == r.2@.len() - 1,
            r.1 <= max_retries,
            r.0 is Err ==> r.1 == max_retries,
    {
        let mut retries: usize = 0;
        let ghost mut attempts: Seq<Result<Response, String>> = Seq::empty();
        loop
            invariant
                retries == attempts.len(),
                retries <= max_retries,
                forall|i: int| 0 <= i < attempts.len() ==> (#[trigger] attempts[i]) is Err,
            decreases max_retries - retries,
        {
            let out = provider.execute(prompt, context);
            proof {
                attempts = attempts.push(out);
            }
            match out {
                Ok(resp) => {
                    return (Ok(resp), retries, Ghost(attempts));
                },
                Err(m) => {
                    if retries >= max_retries {
                        return (Err(m), retries, Ghost(attempts));
                    }
                    retries = retries + 1;
                    if retry_delay_ms > 0 {
                        waiter.wait(retry_delay_ms);
                    }
                },
            }
        }
    }

    /// Annotate a successful response with run metadata: authentication,
    /// whether the shared context already holds history, whether a step came
    /// before, the step index, the retry count when non-zero, and the
    /// wall-clock completion time. The content is never touched.
    fn enhance_response(
        &self,
        response: Response,
        context: &Context,
        step_index: usize,
        retries: usize,
    ) -> (r: Response)
        ensures
            r.content@ == response.content@,
            exists|ts: Seq<char>|
                r.metadata@ == #[trigger] annotated_meta(
                    response.metadata@,
                    self.has_auth(),
                    has_history_spec(context),
                    step_index as int,
                    retries as int,
                    ts,
                ),
            self.has_auth() ==> r.metadata@.contains_key("authenticated"@)
                && r.metadata@["authenticated"@] == "true"@,
            context.conversation_history@.len() > 0 ==> r.metadata@.contains_key(
                "has_initial_context"@,
            ) && r.metadata@["has_initial_context"@] == "true"@,
            step_index > 0 ==> r.metadata@.contains_key("previous_step"@)
                && r.metadata@["previous_step"@] == "true"@,
            r.metadata@.contains_key("step_index"@) && r.metadata@["step_index"@] == dec_str(
                step_index as int,
            ),
            retries > 0 ==> r.metadata@.contains_key("retries"@) && r.metadata@["retries"@]
                == dec_str(retries as int),
            r.metadata@.contains_key("execution_time"@),
    {
        proof {
            lemma_annotation_keys_distinct();
        }
        let mut r = response;
        if self.auth_manager.is_some() {
            r = r.with_metadata("authenticated", "true");
        }
        if self.has_history(context) {
            r = r.with_metadata("has_initial_context", "true");
        }
        if step_index > 0 {
            r = r.with_metadata("previous_step", "true");
        }
        let idx = usize_to_string(step_index);
        r = r.with_metadata("step_index", idx.as_str());
        if retries > 0 {
            let rt = usize_to_string(retries);
            r = r.with_metadata("retries", rt.as_str());
        }
        let ts = u64_to_string(now_millis() / 1000);
        r = r.with_metadata("execution_time", ts.as_str());
        proof {
            assert(r.metadata@ == annotated_meta(
                response.metadata@,
                self.has_auth(),
                has_history_spec(context),
                step_index as int,
                retries as int,
                ts@,
            ));
        }
        r
    }

    /// Whether the shared context holds any conversation history.
    fn has_history(&self, context: &Context) -> (r: bool)
        ensures
            r == (context.conversation_history@.len() > 0),
    {
        context.conversation_history.len() > 0
    }

    /// Run one step: resolve the provider (an unknown name fails at once,
    /// without retries and without a provider call), build the prompt, call
    /// the provider with retries, enrich the response, apply the transform
    /// (whose failure fails the step without further retries), and prefix the
    /// content with the provider name.
    pub fn execute_step<W: RetryWaiter>(
        &self,
        step: &PipelineStep,
        context: &Context,
        step_index: usize,
        waiter: &mut W,
    ) -> (r: (StepResult, Ghost<Result<Response, String>>))
        ensures
            step_result_matches(
                self.provider_names(),
                *step,
                r.1@,
                self.has_auth(),
                has_history_spec(context),
                step_index as int,
                r.0.retries as int,
                r.0.response,
            ),
            r.0.retries <= self.spec_config().max_retries,
            !self.has_provider_spec(step.provider@) ==> r.0.retries == 0,
            self.has_provider_spec(step.provider@) ==> exists|
                attempts: Seq<Result<Response, String>>,
            |
                #[trigger] retry_trace_wf(attempts, self.spec_config().max_retries as int)
                    && r.0.retries == attempts.len() - 1 && attempts.last() == r.1@,
            r.0.response matches Err(PipelineError::Provider { .. }) ==> r.0.retries
                == self.spec_config().max_retries,
            r.0.response matches Ok(res) ==> res.metadata@.contains_key("step_index"@)
                && res.metadata@["step_index"@] == dec_str(step_index as int) && (self.has_auth()
                ==> res.metadata@.contains_key("authenticated"@)) && (step_index > 0
                ==> res.metadata@.contains_key("previous_step"@)),
    {
        let start = now_millis();
        let pos = self.find_provider(step.provider.as_str());
        match pos {
            None => {
                let error = PipelineError::UnknownProvider { provider: step.provider.clone() };
                let sr = StepResult {
                    step: step.clone(),
                    response: Err(error),
                    execution_time_ms: elapsed_since(start),
                    retries: 0,
                };
                (sr, Ghost(arbitrary()))
            },
            Some(idx) => {
                let prompt = Self::build_prompt(step);
                let (out, retries, trace) = Self::run_with_retries(
                    &self.providers[idx].1,
                    prompt.as_str(),
                    context,
                    self.config.max_retries,
                    self.config.retry_delay_ms,
                    waiter,
                );
                let ghost out_snap = out;
                proof {
                    assert(known_has(self.provider_names(), step.provider@)) by {
                        assert(self.provider_names()[idx as int] == step.provider@);
                    }
                }
                match out {
                    Err(m) => {
                        let sr = StepResult {
                            step: step.clone(),
                            response: Err(PipelineError::Provider { message: m }),
                            execution_time_ms: elapsed_since(start),
                            retries,
                        };
                        (sr, Ghost(out_snap))
                    },
                    Ok(resp) => {
                        let ghost raw_meta = resp.metadata@;
                        let enhanced = self.enhance_response(resp, context, step_index, retries);
                        let ghost enhanced_meta = enhanced.metadata@;
                        let ghost tsw = choose|ts: Seq<char>|
                            enhanced_meta == #[trigger] annotated_meta(
                                raw_meta,
                                self.has_auth(),
                                has_history_spec(context),
                                step_index as int,
                                retries as int,
                                ts,
                            );
                        let processed = match step.get_transform() {
                            Some(k) => {
                                match k.apply(enhanced) {
                                    Ok(t) => t,
                                    Err(e) => {
                                        let sr = StepResult {
                                            step: step.clone(),
                                            response: Err(PipelineError::Transform { inner: e }),
                                            execution_time_ms: elapsed_since(start),
                                            retries,
                                        };
                                        return (sr, Ghost(out_snap));
                                    },
                                }
                            },
                            None => enhanced,
                        };
                        let mut content = step.provider.clone();
                        content.append(": ");
                        content.append(processed.content.as_str());
                        let final_resp = Response { content, metadata: processed.metadata };
                        proof {
                            assert(final_resp.content@ =~= step.provider@ + ": "@
                                + processed.content@);
                        }
                        proof {
                            assert(final_resp.metadata@ == annotated_meta(
                                out_snap.unwrap().metadata@,
                                self.has_auth(),
                                has_history_spec(context),
                                step_index as int,
                                retries as int,
                                tsw,
                            ));
                        }
                        let sr = StepResult {
                            step: step.clone(),
                            response: Ok(final_resp),
                            execution_time_ms: elapsed_since(start),
                            retries,
                        };
                        (sr, Ghost(out_snap))
                    },
                }
            },
        }
    }

    /// Run the pipeline: each step in order, threading the shared context.
    /// The result matches [`pipeline_matches`] for some sequence of provider
    /// outcomes: with continue-on-error the run returns one response per step,
    /// placeholders included; otherwise the first failed step aborts the whole
    /// run with its 1-based index and no partial results. A passing step's
    /// response carries its 0-based step index and the run's markers; a
    /// placeholder is marked `error=true` and carries the same 1-based index
    /// as its text.
    pub fn execute(&self, steps: &Vec<PipelineStep>, context: Context) -> (r: Result<
        Vec<Response>,
        PipelineError,
    >)
        ensures
            exists|outs: Seq<Result<Response, String>>|
                #[trigger] pipeline_matches(
                    self.provider_names(),
                    self.has_auth(),
                    self.spec_config(),
                    steps@,
                    outs,
                    r,
                ),
            self.spec_config().continue_on_error ==> r is Ok,
            r matches Ok(rs) ==> rs@.len() == steps@.len(),
            r is Err ==> !self.spec_config().continue_on_error,
    {
        let mut observer = NoopObserver;
        let mut waiter = NoWait;
        self.execute_with_hooks(steps, context, &mut observer, &mut waiter)
    }

    /// Run the pipeline, handing each step's record to the observer; the
    /// engine moves straight to the next retry attempt. A host that wants the
    /// configured inter-retry delay runs [`Self::execute_with_hooks`] with a
    /// real waiter instead.
    pub fn execute_with_observer<O: StepObserver>(
        &self,
        steps: &Vec<PipelineStep>,
        context: Context,
        observer: &mut O,
    ) -> (r: Result<Vec<Response>, PipelineError>)
        ensures
            exists|outs: Seq<Result<Response, String>>|
                #[trigger] pipeline_matches(
                    self.provider_names(),
                    self.has_auth(),
                    self.spec_config(),
                    steps@,
                    outs,
                    r,
                ),
            self.spec_config().continue_on_error ==> r is Ok,
            r matches Ok(rs) ==> rs@.len() == steps@.len(),
            r is Err ==> !self.spec_config().continue_on_error,
    {
        let mut waiter = NoWait;
        self.execute_with_hooks(steps, context, observer, &mut waiter)
    }

    /// Run the pipeline with both host hooks: each step's record goes to the
    /// observer, and the waiter idles for `retry_delay_ms` between a step's
    /// failed attempts. Neither hook can influence the result; the observer
    /// sees every executed step except the one a non-continuing run aborts
    /// on.
    #[verifier::loop_isolation(false)]
    pub fn execute_with_hooks<O: StepObserver, W: RetryWaiter>(
        &self,
        steps: &Vec<PipelineStep>,
        context: Context,
        observer: &mut O,
        waiter: &mut W,
    ) -> (r: Result<Vec<Response>, PipelineError>)
        ensures
            exists|outs: Seq<Result<Response, String>>|
                #[trigger] pipeline_matches(
                    self.provider_names(),
                    self.has_auth(),
                    self.spec_config(),
                    steps@,
                    outs,
                    r,
                ),
            self.spec_config().continue_on_error ==> r is Ok,
            r matches Ok(rs) ==> rs@.len() == steps@.len(),
            r is Err ==> !self.spec_config().continue_on_error,
    {
        let ghost known = self.provider_names();
        let ghost authd = self.has_auth();
        let ghost cfg = self.spec_config();
        let mut ctx = context;
        let mut results: Vec<Response> = Vec::new();
        let ghost mut outs: Seq<Result<Response, String>> = Seq::empty();
        let n = steps.len();
        let mut i: usize = 0;
        while i < n
            invariant
                i <= n,
                outs.len() == i,
                results@.len() == i,
                forall|j: int|
                    0 <= j < i ==> step_matched(known, cfg, steps@, outs, contents_of(results@), j),
                forall|j: int|
                    0 <= j < i ==> #[trigger] response_annotated(
                        results@[j],
                        authd,
                        j,
                        step_passes(
                            known_has(known, steps@[j].provider@),
                            steps@[j].transform_view(),
                            outs[j],
                        ),
                    ),
            decreases n - i,
        {
            let ghost outs_before = outs;
            let ghost results_before = results@;
            let (step_result, out) = self.execute_step(&steps[i], &ctx, i, waiter);
            proof {
                outs = outs.push(out@);
            }
            match &step_result.response {
                Ok(response) => {
                    ctx.add_message(Message::new(MessageRole::Assistant, response.content.as_str()));
                    results.push(response.clone());
                    proof {
                        assert(contents_of(results@) =~= contents_of(results_before).push(
                            response.content@,
                        ));
                    }
                },
                Err(error) => {
                    if !self.config.continue_on_error {
                        let e = PipelineError::StepFailed {
                            step_number: i + 1,
                            cause: Box::new(error.clone()),
                        };
                        proof {
                            let k = i as int;
                            assert(!step_passes(
                                known_has(known, steps@[k].provider@),
                                steps@[k].transform_view(),
                                outs[k],
                            ));
                            assert forall|j: int| 0 <= j < k implies step_passes(
                                known_has(known, (#[trigger] steps@[j]).provider@),
                                steps@[j].transform_view(),
                                outs[j],
                            ) by {
                                assert(step_matched(
                                    known,
                                    cfg,
                                    steps@,
                                    outs_before,
                                    contents_of(results_before),
                                    j,
                                ));
                                assert(outs[j] == outs_before[j]);
                            }
                            let ghost padded = outs + Seq::new(
                                (steps@.len() - i - 1) as nat,
                                |q: int| outs[k],
                            );
                            assert(padded.len() == steps@.len());
                            assert(forall|j: int| 0 <= j <= k ==> padded[j] == outs[j]);
                            lemma_run_from_abort(known, cfg, steps@, padded, 0, k);
                            assert(pipeline_matches(known, authd, cfg, steps@, padded, Err(e)));
                        }
                        return Err(e);
                    }
                    let num = usize_to_string(i + 1);
                    let mut content = String::from_str("Error in step ");
                    content.append(num.as_str());
                    content.append(": ");
                    let cause_text = error.message();
                    content.append(cause_text.as_str());
                    proof {
                        reveal_strlit("error");
                        reveal_strlit("step_index");
                        assert("error"@.len() == 5);
                        assert("step_index"@.len() == 10);
                    }
                    let error_response = Response::new(content.as_str()).with_metadata(
                        "error",
                        "true",
                    ).with_metadata("step_index", num.as_str());
                    proof {
                        assert(error_response.content@ =~= placeholder_text(
                            i as int,
                            pipeline_error_text(*error),
                        )) by {
                            assert(content@ =~= "Error in step "@ + dec_str(i as int + 1) + ": "@
                                + pipeline_error_text(*error));
                        }
                    }
                    results.push(error_response.clone());
                    ctx.add_message(
                        Message::new(MessageRole::Assistant, error_response.content.as_str()),
                    );
                    proof {
                        assert(contents_of(results@) =~= contents_of(results_before).push(
                            error_response.content@,
                        ));
                    }
                },
            }
            observer.on_step(&step_result);
            proof {
                assert forall|j: int| 0 <= j < i + 1 implies step_matched(
                    known,
                    cfg,
                    steps@,
                    outs,
                    contents_of(results@),
                    j,
                ) by {
                    if j < i {
                        assert(step_matched(
                            known,
                            cfg,
                            steps@,
                            outs_before,
                            contents_of(results_before),
                            j,
                        ));
                        assert(outs[j] == outs_before[j]);
                        assert(contents_of(results@)[j] == contents_of(results_before)[j]);
                    }
                }
                assert forall|j: int| 0 <= j < i + 1 implies #[trigger] response_annotated(
                    results@[j],
                    authd,
                    j,
                    step_passes(
                        known_has(known, steps@[j].provider@),
                        steps@[j].transform_view(),
                        outs[j],
                    ),
                ) by {
                    if j < i {
                        assert(response_annotated(
                            results@[j],
                            authd,
                            j,
                            step_passes(
                                known_has(known, steps@[j].provider@),
                                steps@[j].transform_view(),
                                outs_before[j],
                            ),
                        ));
                        assert(outs[j] == outs_before[j]);
                        assert(results@[j] == results_before[j]);
                    }
                }
            }
            i = i + 1;
        }
        proof {
            lemma_run_from_pointwise(known, cfg, steps@, outs, contents_of(results@), 0);
            assert(contents_of(results@).skip(0) =~= contents_of(results@));
            assert(pipeline_matches(known, authd, cfg, steps@, outs, Ok(results)));
        }
        Ok(results)
    }

    /// Run the pipeline in streaming mode. Streaming currently collapses to a
    /// single terminal value per step, so this is the ordinary run.
    pub fn execute_streaming(&self, steps: &Vec<PipelineStep>, context: Context) -> (r: Result<
        Vec<Response>,
        PipelineError,
    >)
        ensures
            exists|outs: Seq<Result<Response, String>>|
                #[trigger] pipeline_matches(
                    self.provider_names(),
                    self.has_auth(),
                    self.spec_config(),
                    steps@,
                    outs,
                    r,
                ),
            self.spec_config().continue_on_error ==> r is Ok,
            r matches Ok(rs) ==> rs@.len() == steps@.len(),
            r is Err ==> !self.spec_config().continue_on_error,
    {
        self.execute(steps, context)
    }
}

impl<P: AIProvider> Default for PipelineExecutor<P> {
    /// An executor with no providers and the default configuration.
    fn default() -> (r: Self)
        ensures
            r.provider_names() == Seq::<Seq<char>>::empty(),
            r.spec_config() == default_exec_config(),
            !r.has_auth(),
    {
        PipelineExecutor::new()
    }
}

/// The six annotation keys the executor writes differ pairwise, so writing a
/// later one never disturbs an earlier one.
proof fn lemma_annotation_keys_distinct()
    ensures
        "authenticated"@ != "has_initial_context"@,
        "authenticated"@ != "previous_step"@,
        "authenticated"@ != "step_index"@,
        "authenticated"@ != "retries"@,
        "authenticated"@ != "execution_time"@,
        "has_initial_context"@ != "previous_step"@,
        "has_initial_context"@ != "step_index"@,
        "has_initial_context"@ != "retries"@,
        "has_initial_context"@ != "execution_time"@,
        "previous_step"@ != "step_index"@,
        "previous_step"@ != "retries"@,
        "previous_step"@ != "execution_time"@,
        "step_index"@ != "retries"@,
        "step_index"@ != "execution_time"@,
        "retries"@ != "execution_time"@,
{
    reveal_strlit("authenticated");
    reveal_strlit("has_initial_context");
    reveal_strlit("previous_step");
    reveal_strlit("step_index");
    reveal_strlit("retries");
    reveal_strlit("execution_time");
    assert("authenticated"@.len() == 13);
    assert("has_initial_context"@.len() == 19);
    assert("previous_step"@.len() == 13);
    assert("step_index"@.len() == 10);
    assert("retries"@.len() == 7);
    assert("execution_time"@.len() == 14);
    assert("authenticated"@[0] == 'a');
    assert("previous_step"@[0] == 'p');
}

/// Milliseconds elapsed since an earlier clock reading, zero if the clock
/// moved backwards.
fn elapsed_since(start: u64) -> (r: u64) {
    let now = now_millis();
    if now >= start {
        now - start
    } else {
        0
    }
}

} // verus!
