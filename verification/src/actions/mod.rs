//! The action layer: executes what rules request.
//!
//! `ActionDispatcher` runs each [`ActionRequest`] to completion, collects
//! every result, and never propagates a failure to the caller: a failed
//! external action cannot crash the runtime. Outcomes and counters are
//! honest: failures are observable, never hidden behind fake success.

pub mod error;
pub mod log_action;
pub mod webhook;

pub use error::{ActionConfigError, ActionConfigErrorView, ActionError};
pub use log_action::LogLevel;

use std::io::Write;

use vstd::prelude::*;

use crate::ai::{no_provider_text, request_from_action, AiManager, AiOutcome, AiUsage};
pub use crate::rules::ActionRequest;
use crate::json::{json_text, json_to_text};
use crate::metrics::{elapsed_ms, instant_now};
use crate::processing::{bump, inc};
use crate::text::{is_blank, lemma_blank_iff_trimmed_empty, str_blank, str_equal, str_trim, trimmed};

verus! {

/// What to execute for a configured action id. Network transports
/// implement this same trait; dispatch semantics do not change.
/// Implementations must not panic on plausible external failures:
/// returned errors become outcomes.
pub trait ActionExecutor: Send {
    /// Executes one request to completion.
    fn execute(&mut self, request: &ActionRequest, now_ms: i64) -> Result<ActionSummary, ActionError>;
}

/// The successful result of one action execution.
#[derive(Debug, PartialEq)]
pub struct ActionSummary {
    /// Human-readable detail (for the log action: the rendered line).
    pub detail: String,
}

impl Clone for ActionSummary {
    fn clone(&self) -> (r: Self)
        ensures
            r == *self,
    {
        ActionSummary { detail: self.detail.clone() }
    }
}

/// The behavior of a configured action.
#[derive(Debug, PartialEq)]
pub enum ActionKind {
    /// Writes one structured JSON line per execution.
    Log {
        /// Severity of the emitted line.
        level: LogLevel,
        /// Optional message template with `{rule_id}` / `{payload}`
        /// placeholders.
        template: Option<String>,
    },
    /// Sends the rule snapshot to the configured AI provider.
    Ai,
}

/// A configured action: its id plus its behavior.
#[derive(Debug, PartialEq)]
pub struct ActionDefinition {
    /// Unique, non-empty action id (rules reference this).
    pub id: String,
    /// What the action does.
    pub kind: ActionKind,
}

impl Clone for ActionKind {
    fn clone(&self) -> (r: Self)
        ensures
            r == *self,
    {
        match self {
            ActionKind::Log { level, template } => ActionKind::Log {
                level: *level,
                template: match template {
                    Some(t) => Some(t.clone()),
                    None => None,
                },
            },
            ActionKind::Ai => ActionKind::Ai,
        }
    }
}

impl Clone for ActionDefinition {
    fn clone(&self) -> (r: Self)
        ensures
            r == *self,
    {
        ActionDefinition { id: self.id.clone(), kind: self.kind.clone() }
    }
}

/// The result of one dispatched request: identity, outcome, and timing.
#[derive(Debug, PartialEq)]
pub struct ActionOutcome {
    /// Action that was attempted.
    pub action_id: String,
    /// Rule that produced the request.
    pub rule_id: String,
    /// `Ok(summary)` or the failure reason: collected, never propagated.
    pub result: Result<ActionSummary, ActionError>,
    /// Wall-cost of the execution in milliseconds (observability only).
    pub elapsed_ms: u64,
}

impl Clone for ActionOutcome {
    fn clone(&self) -> (r: Self)
        ensures
            r == *self,
    {
        ActionOutcome {
            action_id: self.action_id.clone(),
            rule_id: self.rule_id.clone(),
            result: match &self.result {
                Ok(s) => Ok(s.clone()),
                Err(e) => Err(e.clone()),
            },
            elapsed_ms: self.elapsed_ms,
        }
    }
}

/// Execution counters: failures must be observable, never hidden.
#[derive(Debug, Clone, Copy, PartialEq, Eq)]
pub struct ActionCounters {
    /// Requests dispatched.
    pub actions_attempted: u64,
    /// Executions that returned `Ok`.
    pub actions_succeeded: u64,
    /// Executions that returned `Err` (including unknown action ids).
    pub actions_failed: u64,
}

impl Default for ActionCounters {
    fn default() -> (r: Self)
        ensures
            r == (ActionCounters { actions_attempted: 0, actions_succeeded: 0, actions_failed: 0 }),
    {
        ActionCounters { actions_attempted: 0, actions_succeeded: 0, actions_failed: 0 }
    }
}

/// Trusted: writes one line to standard error (`writeln!` on
/// `std::io::stderr()`); a failed write is ignored.
#[verifier::external_body]
fn emit_stderr_line(line: &str) {
    let _ = writeln!(std::io::stderr(), "{line}");
}

/// The built-in log executor: renders the structured line and writes it
/// to standard error.
pub struct LogExecutor {
    /// Severity of the emitted line.
    pub level: LogLevel,
    /// Optional message template.
    pub template: Option<String>,
}

impl ActionExecutor for LogExecutor {
    fn execute(&mut self, request: &ActionRequest, now_ms: i64) -> (r: Result<ActionSummary, ActionError>)
        ensures
            *final(self) == *old(self),
            r matches Ok(s) && s.detail@ == log_action::log_line(
                request.rule_id@,
                request.action@,
                old(self).level,
                request.payload,
                now_ms,
                match old(self).template {
                    Some(t) => Some(t@),
                    None => None,
                },
            ),
    {
        let template = match &self.template {
            Some(t) => Some(t.as_str()),
            None => None,
        };
        let line = log_action::render_line(
            request.rule_id.as_str(),
            request.action.as_str(),
            self.level,
            &request.payload,
            now_ms,
            template,
        );
        emit_stderr_line(line.as_str());
        Ok(ActionSummary { detail: line })
    }
}

/// Marker executor for `ActionKind::Ai`: dispatch routes these requests
/// through the AI manager (the policy boundary) before reaching it.
struct AiExecutor;

impl ActionExecutor for AiExecutor {
    fn execute(&mut self, request: &ActionRequest, now_ms: i64) -> (r: Result<ActionSummary, ActionError>)
        ensures
            *final(self) == *old(self),
            r matches Ok(s) && s.detail@ == "ai action handled by the dispatcher"@,
    {
        Ok(ActionSummary { detail: crate::text::owned("ai action handled by the dispatcher") })
    }
}

/// The error a definition raises, given the definitions accepted before
/// it: its trimmed id must be non-empty and new.
pub open spec fn definition_error(d: ActionDefinition, earlier: Seq<ActionDefinition>) -> Option<ActionConfigErrorView> {
    let id = trimmed(d.id@);
    if id.len() == 0 {
        Some(ActionConfigErrorView::EmptyActionId(id))
    } else if exists|j: int| 0 <= j < earlier.len() && #[trigger] trimmed(earlier[j].id@) == id {
        Some(ActionConfigErrorView::DuplicateActionId(id))
    } else {
        None
    }
}

/// The first error of a definition list, checking in order.
pub open spec fn first_definition_error(ds: Seq<ActionDefinition>) -> Option<ActionConfigErrorView>
    decreases ds.len(),
{
    if ds.len() == 0 {
        None
    } else {
        match first_definition_error(ds.drop_last()) {
            Some(e) => Some(e),
            None => definition_error(ds.last(), ds.drop_last()),
        }
    }
}

/// An error in a prefix is the first error of the whole list.
proof fn lemma_first_definition_error_prefix(s: Seq<ActionDefinition>, k: int)
    requires
        0 <= k <= s.len(),
        first_definition_error(s.take(k)) is Some,
    ensures
        first_definition_error(s) == first_definition_error(s.take(k)),
    decreases s.len(),
{
    if k == s.len() {
        assert(s.take(k) =~= s);
    } else {
        assert(s.drop_last().take(k) =~= s.take(k));
        lemma_first_definition_error_prefix(s.drop_last(), k);
    }
}

/// The counters after one more outcome.
pub open spec fn count_outcome(c: ActionCounters, ok: bool) -> ActionCounters {
    ActionCounters {
        actions_attempted: inc(c.actions_attempted),
        actions_succeeded: if ok {
            inc(c.actions_succeeded)
        } else {
            c.actions_succeeded
        },
        actions_failed: if ok {
            c.actions_failed
        } else {
            inc(c.actions_failed)
        },
    }
}

/// The counters after a sequence of outcomes.
pub open spec fn count_outcomes(c: ActionCounters, outs: Seq<ActionOutcome>) -> ActionCounters
    decreases outs.len(),
{
    if outs.len() == 0 {
        c
    } else {
        count_outcome(count_outcomes(c, outs.drop_last()), outs.last().result is Ok)
    }
}

/// What dispatching `requests` in order does: one outcome per request,
/// for its action and rule; an action id that is neither configured nor
/// an AI action fails as unknown; the counters count every outcome; the
/// configured ids do not change.
pub open spec fn dispatched(
    pre: ActionDispatcher,
    post: ActionDispatcher,
    requests: Seq<ActionRequest>,
    r: Seq<ActionOutcome>,
    now_ms: i64,
) -> bool {
    &&& r.len() == requests.len()
    &&& forall|i: int| 0 <= i < r.len() ==> #[trigger] outcome_of(pre, requests[i], r[i], now_ms)
    &&& post.counter_values() == count_outcomes(pre.counter_values(), r)
    &&& post.ai_usage_view().calls == ai_calls(pre.ai_usage_view().calls, requests, pre.ai_ids())
    &&& post.action_ids() == pre.action_ids()
    &&& post.ai_ids() == pre.ai_ids()
    &&& post.ai_enabled() == pre.ai_enabled()
    &&& forall|j: int| #[trigger] post.log_setting(j) == pre.log_setting(j)
}

/// The outcome `o` answers `request` on dispatcher `d`: same action and
/// rule; an action id that is neither configured nor an AI action fails
/// as unknown; an AI action without a provider fails as such; a
/// configured log action (not routed to the AI layer) succeeds with its
/// rendered line.
pub open spec fn outcome_of(d: ActionDispatcher, request: ActionRequest, o: ActionOutcome, now_ms: i64) -> bool {
    let a = request.action@;
    &&& o.action_id == request.action
    &&& o.rule_id == request.rule_id
    &&& (!d.ai_ids().contains(a) && !d.action_ids().contains(a))
        ==> o.result == Err::<ActionSummary, ActionError>(ActionError::UnknownAction(request.action))
    &&& (d.ai_ids().contains(a) && !d.ai_enabled()) ==> (o.result matches Err(
        ActionError::ExecutionFailed { action_id: x, reason: m },
    ) && x == request.action && m@ == "ai provider failed: "@ + no_provider_text())
    &&& !d.ai_ids().contains(a) ==> match first_position(d.action_ids(), a) {
        Some(j) => match d.log_setting(j) {
            Some(setting) => o.result matches Ok(s) && s.detail@ == log_action::log_line(
                request.rule_id@,
                a,
                setting.0,
                request.payload,
                now_ms,
                setting.1,
            ),
            None => true,
        },
        None => true,
    }
}

/// The first position of `id` in `ids`, if any.
pub open spec fn first_position(ids: Seq<Seq<char>>, id: Seq<char>) -> Option<int> {
    if ids.contains(id) {
        Some(choose|j: int| 0 <= j < ids.len() && ids[j] == id && forall|k: int| 0 <= k < j ==> ids[k] != id)
    } else {
        None
    }
}

/// The AI call counter after `requests`: one more (saturating) for each
/// request whose action is routed to the AI layer.
pub open spec fn ai_calls(c: u64, requests: Seq<ActionRequest>, ai_ids: Seq<Seq<char>>) -> u64
    decreases requests.len(),
{
    if requests.len() == 0 {
        c
    } else {
        let before = ai_calls(c, requests.drop_last(), ai_ids);
        if ai_ids.contains(requests.last().action@) {
            inc(before)
        } else {
            before
        }
    }
}

/// An optional text as characters.
pub open spec fn text_option(o: Option<String>) -> Option<Seq<char>> {
    match o {
        Some(t) => Some(t@),
        None => None,
    }
}

/// The executor registered under an action id.
enum Executor {
    /// A configured log action.
    Log(LogExecutor),
    /// A configured AI action (reached through the AI layer).
    Ai(AiExecutor),
    /// An executor supplied from outside (e.g. a network transport).
    External(Box<dyn ActionExecutor>),
}

/// The log settings of an executor that is a log action.
spec fn log_of(e: Executor) -> Option<(LogLevel, Option<Seq<char>>)> {
    match e {
        Executor::Log(l) => Some((l.level, text_option(l.template))),
        _ => None,
    }
}

/// An executor supplied from outside, under its id.
fn external(entry: (String, Box<dyn ActionExecutor>)) -> (r: (String, Executor))
    ensures
        r.0 == entry.0,
        log_of(r.1) is None,
{
    let (id, executor) = entry;
    (id, Executor::External(executor))
}

/// Runs one executor on a request and hands it back.
fn run_executor(executor: Executor, request: &ActionRequest, now_ms: i64) -> (r: (
    Executor,
    Result<ActionSummary, ActionError>,
))
    ensures
        log_of(r.0) == log_of(executor),
        log_of(executor) matches Some(setting) ==> r.1 matches Ok(s) && s.detail@ == log_action::log_line(
            request.rule_id@,
            request.action@,
            setting.0,
            request.payload,
            now_ms,
            setting.1,
        ),
{
    match executor {
        Executor::Log(mut l) => {
            let result = l.execute(request, now_ms);
            (Executor::Log(l), result)
        },
        Executor::Ai(mut a) => {
            let result = a.execute(request, now_ms);
            (Executor::Ai(a), result)
        },
        Executor::External(mut b) => {
            let result = b.execute(request, now_ms);
            (Executor::External(b), result)
        },
    }
}


/// The texts of a list of strings.
pub open spec fn names_of(v: Seq<String>) -> Seq<Seq<char>> {
    v.map_values(|s: String| s@)
}

/// Executes rule-produced requests with failure isolation.
pub struct ActionDispatcher {
    executors: Vec<(String, Executor)>,
    counters: ActionCounters,
    /// The optional AI layer, reachable only through `ActionKind::Ai`
    /// executions.
    ai: AiManager,
    /// Action ids whose kind is `Ai` (fixed at construction).
    ai_actions: Vec<String>,
}

impl ActionDispatcher {
    /// The configured action ids, in definition order.
    pub closed spec fn action_ids(&self) -> Seq<Seq<char>> {
        self.executors@.map_values(|e: (String, Executor)| e.0@)
    }

    /// The level and message template of the action at position `j`, when
    /// it is a log action.
    pub closed spec fn log_setting(&self, j: int) -> Option<(LogLevel, Option<Seq<char>>)> {
        if 0 <= j < self.executors@.len() {
            log_of(self.executors@[j].1)
        } else {
            None
        }
    }

    /// The ids of the actions routed through the AI manager.
    pub closed spec fn ai_ids(&self) -> Seq<Seq<char>> {
        names_of(self.ai_actions@)
    }

    /// The execution counters.
    pub closed spec fn counter_values(&self) -> ActionCounters {
        self.counters
    }

    /// The AI usage counters.
    pub closed spec fn ai_usage_view(&self) -> AiUsage {
        self.ai.usage_view()
    }

    /// Whether an AI provider is configured.
    pub closed spec fn ai_enabled(&self) -> bool {
        self.ai.has_provider()
    }

    /// A dispatcher over executors registered by id (for transports and
    /// executors defined outside this module), with zeroed counters, no AI
    /// actions and no AI provider.
    pub fn with_executors(executors: Vec<(String, Box<dyn ActionExecutor>)>) -> (r: Self)
        ensures
            r.action_ids() == executors@.map_values(|e: (String, Box<dyn ActionExecutor>)| e.0@),
            r.ai_ids().len() == 0,
            r.counter_values() == (ActionCounters { actions_attempted: 0, actions_succeeded: 0, actions_failed: 0 }),
            !r.ai_enabled(),
            forall|j: int| #[trigger] r.log_setting(j) is None,
    {
        let ghost given = executors@;
        let mut supplied = executors;
        let mut registered: Vec<(String, Executor)> = Vec::new();
        let n = supplied.len();
        let mut i: usize = 0;
        while i < n
            invariant
                n == given.len(),
                supplied@.len() == n,
                i <= n,
                forall|j: int| i <= j < n ==> #[trigger] supplied@[j].0 == given[j].0,
                registered@.len() == i,
                forall|j: int| 0 <= j < i ==> (#[trigger] registered@[j]).0 == given[j].0 && log_of(registered@[j].1) is None,
            decreases n - i,
        {
            let placeholder: Box<dyn ActionExecutor> = Box::new(AiExecutor);
            let mut entry: (String, Box<dyn ActionExecutor>) = (String::new(), placeholder);
            supplied.set_and_swap(i, &mut entry);
            let ghost before = registered@;
            registered.push(external(entry));
            assert(forall|j: int| 0 <= j < i ==> registered@[j] == before[j]);
            i += 1;
        }
        let d = ActionDispatcher {
            executors: registered,
            counters: ActionCounters { actions_attempted: 0, actions_succeeded: 0, actions_failed: 0 },
            ai: AiManager::disabled(),
            ai_actions: Vec::new(),
        };
        proof {
            assert(names_of(d.ai_actions@) =~= Seq::<Seq<char>>::empty());
            assert(d.action_ids() =~= given.map_values(|e: (String, Box<dyn ActionExecutor>)| e.0@));
        }
        d
    }

    /// Validates the definitions and builds one executor per action.
    pub fn new(definitions: Vec<ActionDefinition>) -> (r: Result<Self, ActionConfigError>)
        ensures
            match r {
                Ok(d) => {
                    &&& first_definition_error(definitions@) is None
                    &&& d.action_ids() == definitions@.map_values(|x: ActionDefinition| trimmed(x.id@))
                    &&& d.counter_values() == (ActionCounters { actions_attempted: 0, actions_succeeded: 0, actions_failed: 0 })
                    &&& !d.ai_enabled()
                    &&& d.ai_usage_view() == (AiUsage { calls: 0, calls_succeeded: 0, calls_failed: 0, tokens_used: 0, latency_ms: 0 })
                    &&& forall|k: Seq<char>| #[trigger] d.ai_ids().contains(k) <==> exists|j: int|
                        0 <= j < definitions@.len() && definitions@[j].kind is Ai && #[trigger] trimmed(definitions@[j].id@) == k
                    &&& forall|j: int| 0 <= j < definitions@.len() ==> #[trigger] d.log_setting(j) == match definitions@[j].kind {
                        ActionKind::Log { level, template } => Some((level, text_option(template))),
                        ActionKind::Ai => None,
                    }
                },
                Err(e) => first_definition_error(definitions@) == Some(e@),
            },
    {
        let mut ai_actions: Vec<String> = Vec::new();
        let mut i: usize = 0;
        while i < definitions.len()
            invariant
                i <= definitions@.len(),
                forall|k: Seq<char>| #[trigger] names_of(ai_actions@).contains(k) <==> exists|j: int|
                    0 <= j < i && definitions@[j].kind is Ai && #[trigger] trimmed(definitions@[j].id@) == k,
            decreases definitions@.len() - i,
        {
            let ghost before = ai_actions@;
            match definitions[i].kind {
                ActionKind::Ai => {
                    let id = str_trim(definitions[i].id.as_str());
                    ai_actions.push(id);
                },
                _ => {},
            }
            proof {
                let v = names_of(ai_actions@);
                let b = names_of(before);
                assert forall|k: Seq<char>| #[trigger] v.contains(k) <==> exists|j: int|
                    0 <= j < i + 1 && definitions@[j].kind is Ai && #[trigger] trimmed(definitions@[j].id@) == k by {
                    if v.contains(k) {
                        let a = choose|a: int| 0 <= a < v.len() && v[a] == k;
                        if a < b.len() {
                            assert(b[a] == v[a]);
                            assert(b.contains(k));
                        }
                    }
                    if b.contains(k) {
                        let a = choose|a: int| 0 <= a < b.len() && b[a] == k;
                        assert(v[a] == b[a]);
                    }
                    if definitions@[i as int].kind is Ai && trimmed(definitions@[i as int].id@) == k {
                        assert(v[v.len() - 1] == k);
                    }
                }
            }
            i += 1;
        }
        let ghost ds = definitions@;
        let mut defs = definitions;
        let n = defs.len();
        let mut executors: Vec<(String, Executor)> = Vec::new();
        let mut i: usize = 0;
        while i < n
            invariant
                ds == definitions@,
                n == ds.len(),
                i <= n,
                defs@.len() == n,
                forall|j: int| i <= j < n ==> #[trigger] defs@[j] == ds[j],
                executors@.len() == i,
                forall|j: int| 0 <= j < i ==> #[trigger] executors@[j].0@ == trimmed(ds[j].id@),
                forall|j: int| 0 <= j < i ==> #[trigger] log_of(executors@[j].1) == match ds[j].kind {
                    ActionKind::Log { level, template } => Some((level, text_option(template))),
                    ActionKind::Ai => None,
                },
                first_definition_error(ds.take(i as int)) is None,
            decreases n - i,
        {
            let mut def = ActionDefinition { id: String::new(), kind: ActionKind::Ai };
            defs.set_and_swap(i, &mut def);
            let ghost earlier = ds.take(i as int);
            proof {
                let t = ds.take(i + 1);
                assert(t.drop_last() =~= earlier);
                assert(t.last() == ds[i as int]);
                lemma_blank_iff_trimmed_empty(def.id@);
            }
            let id = str_trim(def.id.as_str());
            if str_blank(def.id.as_str()) {
                proof {
                    lemma_first_definition_error_prefix(ds, i + 1);
                }
                return Err(ActionConfigError::EmptyActionId(id));
            }
            let mut k: usize = 0;
            while k < executors.len()
                invariant
                    ds == definitions@,
                    k <= executors@.len(),
                    executors@.len() == i,
                    n == ds.len(),
                    i < n,
                    earlier == ds.take(i as int),
                    first_definition_error(earlier) is None,
                    def == ds[i as int],
                    id@ == trimmed(ds[i as int].id@),
                    id@.len() > 0,
                    forall|j: int| 0 <= j < i ==> #[trigger] executors@[j].0@ == trimmed(ds[j].id@),
                    forall|q: int| 0 <= q < k ==> trimmed(#[trigger] earlier[q].id@) != id@,
                decreases executors@.len() - k,
            {
                proof {
                    assert(earlier[k as int] == ds[k as int]);
                }
                if str_equal(executors[k].0.as_str(), id.as_str()) {
                    proof {
                        let t = ds.take(i + 1);
                        assert(t.drop_last() =~= earlier);
                        assert(t.last() == ds[i as int]);
                        assert(trimmed(earlier[k as int].id@) == id@);
                        lemma_first_definition_error_prefix(ds, i + 1);
                    }
                    return Err(ActionConfigError::DuplicateActionId(id));
                }
                k += 1;
            }
            let executor = match def.kind {
                ActionKind::Log { level, template } => Executor::Log(LogExecutor { level, template }),
                ActionKind::Ai => Executor::Ai(AiExecutor),
            };
            let ghost before = executors@;
            let ghost id_view = id@;
            assert(id_view == trimmed(ds[i as int].id@));
            executors.push((id, executor));
            proof {
                assert forall|j: int| 0 <= j < i + 1 implies #[trigger] executors@[j].0@ == trimmed(ds[j].id@) by {
                    if j < i {
                        assert(executors@[j] == before[j]);
                        assert(before[j].0@ == trimmed(ds[j].id@));
                    } else {
                        assert(j == i);
                        assert(executors@[j].0@ == id_view);
                    }
                }
            }
            i += 1;
        }
        proof {
            assert(ds.take(n as int) =~= ds);
        }
        let d = ActionDispatcher { executors, counters: ActionCounters::default(), ai: AiManager::disabled(), ai_actions };
        proof {
            assert(d.action_ids() =~= ds.map_values(|x: ActionDefinition| trimmed(x.id@)));
        }
        Ok(d)
    }

    /// Replaces the AI layer (used by the runtime when configuration
    /// enables a provider).
    pub fn set_ai_manager(&mut self, ai: AiManager)
        ensures
            final(self).ai_enabled() == ai.has_provider(),
            final(self).ai_usage_view() == ai.usage_view(),
            final(self).action_ids() == old(self).action_ids(),
            final(self).ai_ids() == old(self).ai_ids(),
            final(self).counter_values() == old(self).counter_values(),
    {
        self.ai = ai;
    }

    /// Read-only AI usage snapshot for the status endpoint.
    pub fn ai_usage(&self) -> (r: AiUsage)
        ensures
            r == self.ai_usage_view(),
    {
        *self.ai.usage()
    }

    /// Counter snapshot.
    pub fn counters(&self) -> (r: &ActionCounters)
        ensures
            *r == self.counter_values(),
    {
        &self.counters
    }

    /// The position of the executor configured under `action_id`.
    fn executor_index(&self, action_id: &str) -> (r: Option<usize>)
        ensures
            match r {
                Some(i) => {
                    &&& i < self.action_ids().len()
                    &&& first_position(self.action_ids(), action_id@) == Some(i as int)
                },
                None => !self.action_ids().contains(action_id@),
            },
    {
        let mut i: usize = 0;
        while i < self.executors.len()
            invariant
                i <= self.executors@.len(),
                forall|j: int| 0 <= j < i ==> #[trigger] self.executors@[j].0@ != action_id@,
            decreases self.executors@.len() - i,
        {
            if str_equal(self.executors[i].0.as_str(), action_id) {
                proof {
                    let ids = self.action_ids();
                    assert(ids[i as int] == action_id@);
                    assert(ids.contains(action_id@));
                    assert forall|k: int| 0 <= k < i implies ids[k] != action_id@ by {
                        assert(ids[k] == self.executors@[k].0@);
                    }
                    let j = choose|j: int| 0 <= j < ids.len() && ids[j] == action_id@ && forall|k: int| 0 <= k < j ==> ids[k] != action_id@;
                    assert(j == i);
                }
                return Some(i);
            }
            i += 1;
        }
        proof {
            if self.action_ids().contains(action_id@) {
                let j = choose|j: int| 0 <= j < self.action_ids().len() && self.action_ids()[j] == action_id@;
                assert(self.executors@[j].0@ == action_id@);
            }
        }
        None
    }

    /// Whether the action is routed through the AI manager.
    fn is_ai_action(&self, action_id: &str) -> (r: bool)
        ensures
            r == self.ai_ids().contains(action_id@),
    {
        let mut i: usize = 0;
        while i < self.ai_actions.len()
            invariant
                i <= self.ai_actions@.len(),
                forall|j: int| 0 <= j < i ==> #[trigger] self.ai_actions@[j]@ != action_id@,
            decreases self.ai_actions@.len() - i,
        {
            if str_equal(self.ai_actions[i].as_str(), action_id) {
                proof {
                    assert(self.ai_ids()[i as int] == action_id@);
                }
                return true;
            }
            i += 1;
        }
        proof {
            if self.ai_ids().contains(action_id@) {
                let j = choose|j: int| 0 <= j < self.ai_ids().len() && self.ai_ids()[j] == action_id@;
                assert(self.ai_actions@[j]@ == action_id@);
            }
        }
        false
    }

    /// Dispatches every request in order, collecting one outcome per
    /// request. A failing action yields a failed outcome, never a panic,
    /// never an abort of the remaining requests. An action id that is
    /// neither configured nor an AI action fails as unknown; an AI action
    /// goes through the AI manager.
    #[verifier::rlimit(50)]
    pub fn dispatch(&mut self, requests: &[ActionRequest], now_ms: i64) -> (r: Vec<ActionOutcome>)
        ensures
            dispatched(*old(self), *final(self), requests@, r@, now_ms),
    {
        let ghost pre = *self;
        let mut outcomes: Vec<ActionOutcome> = Vec::new();
        let mut i: usize = 0;
        while i < requests.len()
            invariant
                i <= requests@.len(),
                outcomes@.len() == i,
                forall|j: int| 0 <= j < i ==> #[trigger] outcome_of(pre, requests@[j], outcomes@[j], now_ms),
                self.counters == count_outcomes(pre.counter_values(), outcomes@),
                self.ai_usage_view().calls == ai_calls(pre.ai_usage_view().calls, requests@.take(i as int), pre.ai_ids()),
                self.action_ids() == pre.action_ids(),
                self.ai_ids() == pre.ai_ids(),
                self.ai.has_provider() == pre.ai_enabled(),
                forall|j: int| #[trigger] self.log_setting(j) == pre.log_setting(j),
            decreases requests@.len() - i,
        {
            let request = &requests[i];
            let started = instant_now();
            let ghost top = *self;
            let ai = self.is_ai_action(request.action.as_str());
            let result = if ai {
                let ai_request = request_from_action(request, now_ms);
                match self.ai.handle(&ai_request) {
                    AiOutcome::Completed(done) => Ok(ActionSummary { detail: json_to_text(&done.output) }),
                    AiOutcome::Failed(error) => Err(
                        ActionError::ExecutionFailed { action_id: request.action.clone(), reason: error.message() },
                    ),
                }
            } else {
                match self.executor_index(request.action.as_str()) {
                    Some(k) => {
                        let ghost ids = self.action_ids();
                        let ghost cur = *self;
                        let placeholder = (String::new(), Executor::Ai(AiExecutor));
                        let mut entry: (String, Executor) = placeholder;
                        self.executors.set_and_swap(k, &mut entry);
                        let (name, executor) = entry;
                        proof {
                            assert(cur.log_setting(k as int) == pre.log_setting(k as int));
                            assert(cur.log_setting(k as int) == log_of(executor));
                        }
                        let (executor, result) = run_executor(executor, request, now_ms);
                        let mut back = (name, executor);
                        self.executors.set_and_swap(k, &mut back);
                        proof {
                            assert(self.action_ids() =~= ids);
                            assert forall|j: int| #[trigger] self.log_setting(j) == pre.log_setting(j) by {
                                assert(cur.log_setting(j) == pre.log_setting(j));
                                if 0 <= j < self.executors@.len() && j != k {
                                    assert(self.executors@[j] == cur.executors@[j]);
                                }
                            }
                        }
                        result
                    },
                    None => Err(ActionError::UnknownAction(request.action.clone())),
                }
            };
            proof {
                assert(self.executors@.len() == top.executors@.len());
                assert forall|j: int| #[trigger] self.log_setting(j) == pre.log_setting(j) by {
                    assert(top.log_setting(j) == pre.log_setting(j));
                }
            }
            let ghost settled = *self;
            let ok = result.is_ok();
            self.counters = ActionCounters {
                actions_attempted: bump(self.counters.actions_attempted),
                actions_succeeded: if ok {
                    bump(self.counters.actions_succeeded)
                } else {
                    self.counters.actions_succeeded
                },
                actions_failed: if ok {
                    self.counters.actions_failed
                } else {
                    bump(self.counters.actions_failed)
                },
            };
            let ghost before = outcomes@;
            outcomes.push(
                ActionOutcome {
                    action_id: request.action.clone(),
                    rule_id: request.rule_id.clone(),
                    result,
                    elapsed_ms: elapsed_ms(&started),
                },
            );
            proof {
                assert(outcomes@.drop_last() =~= before);
                assert(outcomes@[i as int] == outcomes@.last());
                assert(outcome_of(pre, requests@[i as int], outcomes@[i as int], now_ms));
                assert(self.executors@ == settled.executors@);
                assert forall|j: int| #[trigger] self.log_setting(j) == pre.log_setting(j) by {
                    assert(settled.log_setting(j) == pre.log_setting(j));
                }
                assert(requests@.take(i + 1).drop_last() =~= requests@.take(i as int));
                assert(requests@.take(i + 1).last() == requests@[i as int]);
            }
            i += 1;
        }
        proof {
            assert(requests@.take(requests@.len() as int) =~= requests@);
        }
        outcomes
    }
}

} // verus!
