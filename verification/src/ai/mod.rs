//! The optional AI layer: a provider abstraction reachable only from
//! rule-produced `ai` actions.
//!
//! Enforced by construction: incoming events never reach AI implicitly
//! (a request exists only because a rule matched and its action was
//! configured as `ai`); the engine works completely without this layer
//! (`AiManager::disabled`); every call, result, and failure is counted.

use vstd::prelude::*;

use crate::json::clone_json;
use crate::metrics::{elapsed_ms, instant_now};
use crate::processing::{bump, inc};
use crate::rules::ActionRequest;
use crate::text::{concat2, owned};

verus! {

/// One inference request: the rule-selected, compressed context, never a
/// raw event stream.
#[derive(Debug, PartialEq)]
pub struct AiRequest {
    /// Rule that produced the request.
    pub rule_id: String,
    /// The action configuration that produced it.
    pub action_id: String,
    /// The rule's snapshot payload.
    pub payload: serde_json::Value,
    /// Event-time of the triggering input (ms).
    pub event_time_ms: i64,
}

/// A structured inference result plus usage.
#[derive(Debug, PartialEq)]
pub struct AiResult {
    /// Provider-defined structured output.
    pub output: serde_json::Value,
    /// Model identity that produced the result.
    pub model: String,
    /// Token usage, where the provider reports it.
    pub tokens_used: u64,
    /// Wall latency of the inference in ms.
    pub latency_ms: u64,
}

/// Provider errors: isolated like action failures, counted, never fatal.
#[derive(Debug, Clone, PartialEq)]
pub enum AiError {
    /// The provider failed to produce a result.
    ProviderFailed(String),
    /// The request was not convertible to the provider's input format.
    InvalidRequest(String),
}

/// The human-readable message of a provider error.
pub open spec fn ai_error_text(e: AiError) -> Seq<char> {
    match e {
        AiError::ProviderFailed(reason) => "ai provider failed: "@ + reason@,
        AiError::InvalidRequest(reason) => "invalid ai request: "@ + reason@,
    }
}

impl AiError {
    /// The human-readable message (what `Display` renders).
    pub fn message(&self) -> (r: String)
        ensures
            r@ == ai_error_text(*self),
    {
        match self {
            AiError::ProviderFailed(reason) => concat2("ai provider failed: ", reason.as_str()),
            AiError::InvalidRequest(reason) => concat2("invalid ai request: ", reason.as_str()),
        }
    }
}

/// The provider boundary: implementations run one inference to completion
/// and report failures as [`AiError`], never by panicking.
pub trait AiProvider: Send {
    /// Human-readable provider/model name for metrics.
    fn name(&self) -> &str;

    /// Runs one inference to completion.
    fn infer(&mut self, request: &AiRequest) -> Result<AiResult, AiError>;
}

/// Usage counters, a mandatory feature of the AI boundary.
#[derive(Debug, Clone, Copy, PartialEq, Eq)]
pub struct AiUsage {
    /// Inference calls attempted.
    pub calls: u64,
    /// Calls that returned `Ok`.
    pub calls_succeeded: u64,
    /// Calls that returned `Err` (isolated, never fatal).
    pub calls_failed: u64,
    /// Tokens consumed where reported.
    pub tokens_used: u64,
    /// Total inference wall time in ms.
    pub latency_ms: u64,
}

impl Default for AiUsage {
    fn default() -> (r: Self)
        ensures
            r == (AiUsage { calls: 0, calls_succeeded: 0, calls_failed: 0, tokens_used: 0, latency_ms: 0 }),
    {
        AiUsage { calls: 0, calls_succeeded: 0, calls_failed: 0, tokens_used: 0, latency_ms: 0 }
    }
}

/// How an AI request was resolved.
#[derive(Debug, PartialEq)]
pub enum AiOutcome {
    /// The provider produced a structured result.
    Completed(AiResult),
    /// The provider failed; the request is dropped and counted.
    Failed(AiError),
}

/// `a + b`, saturating at `u64::MAX`.
pub open spec fn add_sat(a: u64, b: u64) -> u64 {
    if a + b <= u64::MAX {
        (a + b) as u64
    } else {
        u64::MAX
    }
}

/// `a + b`, saturating at `u64::MAX`.
pub fn add_saturating(a: u64, b: u64) -> (r: u64)
    ensures
        r == add_sat(a, b),
{
    if b > u64::MAX - a {
        u64::MAX
    } else {
        a + b
    }
}

/// The message a request gets when no provider is configured.
pub open spec fn no_provider_text() -> Seq<char> {
    "no ai provider is configured"@
}

/// Owns the optional provider. Without one (the default), every request
/// fails fast with a counted error: the engine never depends on AI being
/// present.
pub struct AiManager {
    provider: Option<Box<dyn AiProvider>>,
    usage: AiUsage,
}

impl AiManager {
    /// The usage counters.
    pub closed spec fn usage_view(&self) -> AiUsage {
        self.usage
    }

    /// Whether a provider is configured.
    pub closed spec fn has_provider(&self) -> bool {
        self.provider is Some
    }

    /// No provider configured: AI is effectively absent (the default).
    pub fn disabled() -> (r: Self)
        ensures
            !r.has_provider(),
            r.usage_view() == (AiUsage { calls: 0, calls_succeeded: 0, calls_failed: 0, tokens_used: 0, latency_ms: 0 }),
    {
        AiManager { provider: None, usage: AiUsage::default() }
    }

    /// A configured provider.
    pub fn with_provider(provider: Box<dyn AiProvider>) -> (r: Self)
        ensures
            r.has_provider(),
            r.usage_view() == (AiUsage { calls: 0, calls_succeeded: 0, calls_failed: 0, tokens_used: 0, latency_ms: 0 }),
    {
        AiManager { provider: Some(provider), usage: AiUsage::default() }
    }

    /// Whether a provider is configured.
    pub fn enabled(&self) -> (r: bool)
        ensures
            r == self.has_provider(),
    {
        self.provider.is_some()
    }

    /// Handles one rule-produced request: the only path into a provider.
    /// Every call is counted, as a success (with its tokens) or a failure;
    /// its wall time is added to the latency total.
    pub fn handle(&mut self, request: &AiRequest) -> (r: AiOutcome)
        ensures
            final(self).has_provider() == old(self).has_provider(),
            final(self).usage_view().calls == inc(old(self).usage_view().calls),
            final(self).usage_view().latency_ms >= old(self).usage_view().latency_ms,
            !old(self).has_provider() ==> (r matches AiOutcome::Failed(AiError::ProviderFailed(m)) && m@
                == no_provider_text()),
            match r {
                AiOutcome::Completed(result) => {
                    &&& final(self).usage_view().calls_succeeded == inc(old(self).usage_view().calls_succeeded)
                    &&& final(self).usage_view().calls_failed == old(self).usage_view().calls_failed
                    &&& final(self).usage_view().tokens_used == add_sat(old(self).usage_view().tokens_used, result.tokens_used)
                },
                AiOutcome::Failed(_) => {
                    &&& final(self).usage_view().calls_succeeded == old(self).usage_view().calls_succeeded
                    &&& final(self).usage_view().calls_failed == inc(old(self).usage_view().calls_failed)
                    &&& final(self).usage_view().tokens_used == old(self).usage_view().tokens_used
                },
            },
    {
        self.usage.calls = bump(self.usage.calls);
        let started = instant_now();
        let outcome = match &mut self.provider {
            Some(provider) => match provider.infer(request) {
                Ok(result) => {
                    self.usage.calls_succeeded = bump(self.usage.calls_succeeded);
                    self.usage.tokens_used = add_saturating(self.usage.tokens_used, result.tokens_used);
                    AiOutcome::Completed(result)
                },
                Err(error) => {
                    self.usage.calls_failed = bump(self.usage.calls_failed);
                    AiOutcome::Failed(error)
                },
            },
            None => {
                self.usage.calls_failed = bump(self.usage.calls_failed);
                AiOutcome::Failed(AiError::ProviderFailed(owned("no ai provider is configured")))
            },
        };
        let spent = elapsed_ms(&started);
        self.usage.latency_ms = add_saturating(self.usage.latency_ms, spent);
        outcome
    }

    /// Usage snapshot for the status endpoint.
    pub fn usage(&self) -> (r: &AiUsage)
        ensures
            *r == self.usage_view(),
    {
        &self.usage
    }
}

/// Builds an [`AiRequest`] from a rule-produced action request: the only
/// way a request reaches the AI layer.
pub fn request_from_action(request: &ActionRequest, event_time_ms: i64) -> (r: AiRequest)
    ensures
        r.rule_id == request.rule_id,
        r.action_id == request.action,
        r.payload == request.payload,
        r.event_time_ms == event_time_ms,
{
    AiRequest {
        rule_id: request.rule_id.clone(),
        action_id: request.action.clone(),
        payload: clone_json(&request.payload),
        event_time_ms,
    }
}

/// A scripted in-memory provider for tests: serves its script in order,
/// no model required.
#[derive(Debug)]
pub struct ScriptedProvider {
    model: String,
    /// Responses served in order; an `Err` text fails that call.
    script: Vec<Result<(serde_json::Value, u64), String>>,
    calls_made: usize,
}

impl ScriptedProvider {
    /// The model name the provider reports.
    pub closed spec fn model_name(&self) -> Seq<char> {
        self.model@
    }

    /// The script, in serving order.
    pub closed spec fn script_view(&self) -> Seq<Result<(serde_json::Value, u64), String>> {
        self.script@
    }

    /// How many calls have been made.
    pub closed spec fn calls(&self) -> nat {
        self.calls_made as nat
    }

    /// Each script entry is `Ok((output, tokens))` or `Err(reason)`.
    pub fn new(model: &str, script: Vec<Result<(serde_json::Value, u64), String>>) -> (r: Self)
        ensures
            r.model_name() == model@,
            r.script_view() == script@,
            r.calls() == 0,
    {
        ScriptedProvider { model: owned(model), script, calls_made: 0 }
    }
}

impl AiProvider for ScriptedProvider {
    fn name(&self) -> (r: &str)
        ensures
            r@ == self.model_name(),
    {
        self.model.as_str()
    }

    fn infer(&mut self, request: &AiRequest) -> (r: Result<AiResult, AiError>)
        ensures
            final(self).model_name() == old(self).model_name(),
            final(self).script_view() == old(self).script_view(),
            final(self).calls() == if old(self).calls() < usize::MAX {
                old(self).calls() + 1
            } else {
                old(self).calls()
            },
            if old(self).calls() < old(self).script_view().len() {
                match old(self).script_view()[old(self).calls() as int] {
                    Ok((output, tokens)) => r matches Ok(res) && res.output == output && res.model@
                        == old(self).model_name() && res.tokens_used == tokens && res.latency_ms == 0,
                    Err(reason) => r == Err::<AiResult, AiError>(AiError::ProviderFailed(reason)),
                }
            } else {
                r matches Err(AiError::ProviderFailed(m)) && m@ == "scripted provider exhausted its script"@
            },
    {
        let index = self.calls_made;
        if self.calls_made < usize::MAX {
            self.calls_made = self.calls_made + 1;
        }
        if index < self.script.len() {
            match &self.script[index] {
                Ok((output, tokens)) => Ok(AiResult {
                    output: clone_json(output),
                    model: self.model.clone(),
                    tokens_used: *tokens,
                    latency_ms: 0,
                }),
                Err(reason) => Err(AiError::ProviderFailed(reason.clone())),
            }
        } else {
            Err(AiError::ProviderFailed(owned("scripted provider exhausted its script")))
        }
    }
}

} // verus!
