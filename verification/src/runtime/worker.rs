//! The synchronous engine core the worker drives: pipeline, then state,
//! then rules, then actions. It is clock-free: `now_ms` comes from the
//! runtime, the only place wall time is read.

use vstd::prelude::*;

use crate::actions::{dispatched, ActionCounters, ActionDispatcher, ActionOutcome};
use crate::ai::AiUsage;
use crate::event::Event;
use crate::floatbits::FloatArith;
use crate::processing::{lemma_process_yields_at_most_one, process_step, Output, PipelineCounters, ProcessingPipeline};
use crate::rules::{evaluation, is_payload_of, ActionRequest, EvalInput, RuleEngine, RuleMatch};
use crate::state::store::{expiration, observed, StateStore};
use crate::state::StateCounters;

verus! {

/// How often the worker expires state, in seconds.
pub const EXPIRE_INTERVAL_SECS: u64 = 30;

/// The synchronous engine core: pipeline, state, rules and actions, plus
/// the requests of the last processed batch awaiting dispatch.
pub struct EngineCore<F: FloatArith> {
    pipeline: ProcessingPipeline<F>,
    state: StateStore,
    rules: RuleEngine,
    actions: ActionDispatcher,
    arith: F,
    pending: Vec<ActionRequest>,
    pending_accepted: Vec<bool>,
    /// Last known queue depth, reported by the worker for the status
    /// endpoint (a channel sender cannot observe the channel's length).
    pub last_queue_depth: usize,
}

/// What one pass through the core produced, for the HTTP response.
pub struct CoreOutcome {
    /// Per-event results for the batch, aligned with the request order.
    pub accepted: Vec<bool>,
    /// Executed action outcomes, across all events of the batch.
    pub action_outcomes: Vec<ActionOutcome>,
}

/// The counters the status endpoint reports, read from one core.
#[derive(Debug, Clone, Copy, PartialEq, Eq)]
pub struct CoreStatus {
    pub queue_depth: usize,
    pub pipeline: PipelineCounters,
    pub state_entries: usize,
    pub state: StateCounters,
    pub actions: ActionCounters,
    pub ai: AiUsage,
}

/// `i` is the rule input built from `o` against the store `s`.
pub open spec fn input_of(i: EvalInput, o: Output, s: StateStore) -> bool {
    &&& *i.state == s
    &&& match o {
        Output::Event(e) => i.aggregated is None && (i.event matches Some(ev) && *ev == e),
        Output::Aggregated(a) => i.event is None && (i.aggregated matches Some(ag) && *ag == a),
    }
}

/// `rs` are the requests the matches `ms` become, in order.
pub open spec fn requests_of<F: FloatArith>(arith: &F, ms: Seq<RuleMatch>, rs: Seq<ActionRequest>) -> bool {
    &&& rs.len() == ms.len()
    &&& forall|k: int|
        0 <= k < rs.len() ==> {
            &&& (#[trigger] rs[k]).rule_id == ms[k].rule_id
            &&& rs[k].action == ms[k].action
            &&& is_payload_of(arith, ms[k].snapshot, rs[k].payload)
        }
}

impl<F: FloatArith> EngineCore<F> {
    /// The pipeline.
    pub closed spec fn pipeline_value(&self) -> ProcessingPipeline<F> {
        self.pipeline
    }

    /// The state store.
    pub closed spec fn state_value(&self) -> StateStore {
        self.state
    }

    /// The rule engine.
    pub closed spec fn rule_engine(&self) -> RuleEngine {
        self.rules
    }

    /// The action dispatcher.
    pub closed spec fn dispatcher(&self) -> ActionDispatcher {
        self.actions
    }

    /// The arithmetic the core evaluates with.
    pub closed spec fn arith_value(&self) -> F {
        self.arith
    }

    /// The requests awaiting dispatch.
    pub closed spec fn pending_requests(&self) -> Seq<ActionRequest> {
        self.pending@
    }

    /// The per-event results of the batch awaiting dispatch.
    pub closed spec fn pending_results(&self) -> Seq<bool> {
        self.pending_accepted@
    }

    /// The last reported queue depth.
    pub closed spec fn queue_depth_value(&self) -> usize {
        self.last_queue_depth
    }

    /// Every part is well formed.
    pub closed spec fn wf(&self) -> bool {
        &&& self.pipeline.wf()
        &&& self.state.wf()
        &&& self.rules.wf()
    }
}

/// What one event does to the core: the pipeline processes it; an output
/// it yields is observed into state and then evaluated by the rules
/// against the updated state; the fired rules become requests. The
/// dispatcher is not involved.
pub open spec fn event_step<F: FloatArith>(
    pre: EngineCore<F>,
    post: EngineCore<F>,
    event: Event,
    reqs: Seq<ActionRequest>,
) -> bool {
    &&& post.dispatcher() == pre.dispatcher()
    &&& post.arith_value() == pre.arith_value()
    &&& exists|out: Seq<Output>|
        #[trigger] process_step(pre.pipeline_value(), post.pipeline_value(), event, out) && if out.len() == 0 {
            &&& post.state_value() == pre.state_value()
            &&& post.rule_engine() == pre.rule_engine()
            &&& reqs.len() == 0
        } else {
            &&& out.len() == 1
            &&& observed(pre.state_value(), post.state_value(), out[0])
            &&& exists|i: EvalInput, count_bits: u64, ms: Seq<RuleMatch>|
                #![trigger evaluation(pre.rule_engine(), post.rule_engine(), i, count_bits, ms)]
                {
                    &&& input_of(i, out[0], post.state_value())
                    &&& evaluation(pre.rule_engine(), post.rule_engine(), i, count_bits, ms)
                    &&& requests_of(&pre.arith_value(), ms, reqs)
                }
        }
}

/// `trace` is a run of the core over `events`: each event takes one
/// core of the trace to the next and produces the requests between its
/// two cuts.
pub open spec fn batch_run<F: FloatArith>(
    trace: Seq<EngineCore<F>>,
    cuts: Seq<int>,
    events: Seq<Event>,
    reqs: Seq<ActionRequest>,
) -> bool {
    &&& trace.len() == events.len() + 1
    &&& cuts.len() == events.len() + 1
    &&& cuts[0] == 0
    &&& cuts[events.len() as int] == reqs.len()
    &&& forall|i: int| 0 <= i < events.len() ==> #[trigger] run_step(trace, cuts, events, reqs, i)
}

/// Step `i` of a run: event `i` takes core `i` to core `i + 1` and
/// produces the requests between cuts `i` and `i + 1`.
pub open spec fn run_step<F: FloatArith>(
    trace: Seq<EngineCore<F>>,
    cuts: Seq<int>,
    events: Seq<Event>,
    reqs: Seq<ActionRequest>,
    i: int,
) -> bool {
    &&& 0 <= cuts[i] <= cuts[i + 1] <= reqs.len()
    &&& event_step(trace[i], trace[i + 1], events[i], reqs.subrange(cuts[i], cuts[i + 1]))
}

/// The events of a batch, in order, take the core from `pre` to `post`
/// (as far as pipeline, state, rules and dispatcher go) and produce the
/// requests `reqs`, each event's requests after those of the events
/// before it.
pub open spec fn batch_steps<F: FloatArith>(
    pre: EngineCore<F>,
    post: EngineCore<F>,
    events: Seq<Event>,
    reqs: Seq<ActionRequest>,
) -> bool {
    exists|trace: Seq<EngineCore<F>>, cuts: Seq<int>|
        #![trigger batch_run(trace, cuts, events, reqs)]
        {
            &&& batch_run(trace, cuts, events, reqs)
            &&& same_core(trace[0], pre)
            &&& same_core(trace[events.len() as int], post)
        }
}

/// Two cores agree in pipeline, state, rules, arithmetic and dispatcher.
pub open spec fn same_core<F: FloatArith>(a: EngineCore<F>, b: EngineCore<F>) -> bool {
    same_engine(a, b) && a.dispatcher() == b.dispatcher()
}

/// The pipeline, state, rules and arithmetic of two cores agree.
pub open spec fn same_engine<F: FloatArith>(a: EngineCore<F>, b: EngineCore<F>) -> bool {
    &&& a.pipeline_value() == b.pipeline_value()
    &&& a.state_value() == b.state_value()
    &&& a.rule_engine() == b.rule_engine()
    &&& a.arith_value() == b.arith_value()
}

/// The requests a list of matches becomes, in order.
fn requests_from<F: FloatArith>(matches: Vec<RuleMatch>, arith: &F) -> (r: Vec<ActionRequest>)
    ensures
        requests_of(arith, matches@, r@),
{
    let ghost ms = matches@;
    let mut rest = matches;
    let mut out: Vec<ActionRequest> = Vec::new();
    while rest.len() > 0
        invariant
            out@.len() + rest@.len() == ms.len(),
            rest@ == ms.skip(out@.len() as int),
            requests_of(arith, ms.take(out@.len() as int), out@),
        decreases rest@.len(),
    {
        let ghost k = out@.len() as int;
        let m = rest.remove(0);
        proof {
            assert(m == ms[k]);
            assert(rest@ =~= ms.skip(k + 1));
        }
        let request = ActionRequest::from_match(m, arith);
        out.push(request);
        proof {
            assert forall|q: int| 0 <= q < out@.len() implies {
                &&& (#[trigger] out@[q]).rule_id == ms.take(k + 1)[q].rule_id
                &&& out@[q].action == ms.take(k + 1)[q].action
                &&& is_payload_of(arith, ms.take(k + 1)[q].snapshot, out@[q].payload)
            } by {
                if q < k {
                    assert(ms.take(k + 1)[q] == ms.take(k)[q]);
                }
            }
        }
    }
    proof {
        assert(ms.take(ms.len() as int) =~= ms);
    }
    out
}

impl<F: FloatArith> EngineCore<F> {
    /// Builds a core from validated parts; `arith` supplies the binary64
    /// arithmetic the rules and request payloads need.
    pub fn new(
        pipeline: ProcessingPipeline<F>,
        state: StateStore,
        rules: RuleEngine,
        actions: ActionDispatcher,
        arith: F,
    ) -> (r: Self)
        requires
            pipeline.wf(),
            state.wf(),
            rules.wf(),
        ensures
            r.wf(),
            r.pipeline_value() == pipeline,
            r.state_value() == state,
            r.rule_engine() == rules,
            r.dispatcher() == actions,
            r.arith_value() == arith,
            r.pending_requests().len() == 0,
            r.pending_results().len() == 0,
            r.queue_depth_value() == 0,
    {
        EngineCore {
            pipeline,
            state,
            rules,
            actions,
            arith,
            pending: Vec::new(),
            pending_accepted: Vec::new(),
            last_queue_depth: 0,
        }
    }

    /// Runs one event through pipeline, state and rules, and returns the
    /// requests of the rules it fired.
    fn step_event(&mut self, event: Event) -> (reqs: Vec<ActionRequest>)
        requires
            old(self).wf(),
        ensures
            final(self).wf(),
            event_step(*old(self), *final(self), event, reqs@),
            final(self).pending_requests() == old(self).pending_requests(),
            final(self).pending_results() == old(self).pending_results(),
            final(self).queue_depth_value() == old(self).queue_depth_value(),
    {
        let ghost pre = *self;
        let ghost ev = event;
        let outputs = self.pipeline.process(event);
        proof {
            lemma_process_yields_at_most_one(pre.pipeline, self.pipeline, ev, outputs@);
        }
        if outputs.len() == 1 {
            let output = &outputs[0];
            self.state.observe(output);
            let ghost rules_before = self.rules;
            let reqs = match output {
                Output::Event(e) => {
                    let input = EvalInput::from_event(e, &self.state);
                    let ms = self.rules.evaluate(&input, &self.arith);
                    let ghost gms = ms@;
                    let reqs = requests_from(ms, &self.arith);
                    proof {
                        assert(input_of(input, outputs@[0], self.state));
                        assert(evaluation(pre.rule_engine(), self.rule_engine(), input, 0, gms));
                    }
                    reqs
                },
                Output::Aggregated(a) => {
                    let input = EvalInput::from_aggregated(a, &self.state);
                    let count_bits = self.arith.from_count(a.count);
                    let ms = self.rules.evaluate_resolved(&input, count_bits);
                    let ghost gms = ms@;
                    let reqs = requests_from(ms, &self.arith);
                    proof {
                        assert(input_of(input, outputs@[0], self.state));
                        assert(evaluation(pre.rule_engine(), self.rule_engine(), input, count_bits, gms));
                    }
                    reqs
                },
            };
            proof {
                assert(process_step(pre.pipeline_value(), self.pipeline_value(), ev, outputs@));
            }
            reqs
        } else {
            let r: Vec<ActionRequest> = Vec::new();
            proof {
                assert(process_step(pre.pipeline_value(), self.pipeline_value(), ev, outputs@));
            }
            r
        }
    }

    /// Runs the events of a batch, in arrival order, through pipeline,
    /// state and rules, and keeps their requests and per-event results
    /// for [`dispatch_pending`](Self::dispatch_pending). Returns whether
    /// any request is now pending.
    pub fn process_pipeline_and_state(&mut self, events: Vec<Event>, now_ms: i64) -> (r: bool)
        requires
            old(self).wf(),
        ensures
            final(self).wf(),
            final(self).pending_requests().len() >= old(self).pending_requests().len(),
            final(self).pending_requests().take(old(self).pending_requests().len() as int) == old(self).pending_requests(),
            batch_steps(
                *old(self),
                *final(self),
                events@,
                final(self).pending_requests().skip(old(self).pending_requests().len() as int),
            ),
            final(self).pending_results() == old(self).pending_results() + Seq::new(events@.len(), |i: int| true),
            final(self).queue_depth_value() == old(self).queue_depth_value(),
            r == (final(self).pending_requests().len() > 0),
    {
        let reqs = self.run_batch(&events);
        let mut reqs = reqs;
        let ghost before = self.pending@;
        let ghost added = reqs@;
        let ghost mid = *self;
        self.pending.append(&mut reqs);
        let mut i: usize = 0;
        let ghost results_before = self.pending_accepted@;
        while i < events.len()
            invariant
                i <= events@.len(),
                self.pending_accepted@ == results_before + Seq::new(i as nat, |q: int| true),
                same_engine(*self, mid),
                self.actions == mid.actions,
                self.pending@ == before + added,
                self.last_queue_depth == mid.last_queue_depth,
            decreases events@.len() - i,
        {
            self.pending_accepted.push(true);
            proof {
                assert(self.pending_accepted@ =~= results_before + Seq::new((i + 1) as nat, |q: int| true));
            }
            i += 1;
        }
        proof {
            assert(self.pending@.take(before.len() as int) =~= before);
            assert(self.pending@.skip(before.len() as int) =~= added);
            let (trace, cuts) = choose|trace: Seq<EngineCore<F>>, cuts: Seq<int>|
                #![trigger batch_run(trace, cuts, events@, added)]
                {
                    &&& batch_run(trace, cuts, events@, added)
                    &&& same_core(trace[0], *old(self))
                    &&& same_core(trace[events@.len() as int], mid)
                };
            assert(batch_run(trace, cuts, events@, added));
        }
        self.pending.len() > 0
    }

    /// Runs every event through pipeline, state and rules, in order, and
    /// returns the requests they produced.
    fn run_batch(&mut self, events: &Vec<Event>) -> (reqs: Vec<ActionRequest>)
        requires
            old(self).wf(),
        ensures
            final(self).wf(),
            batch_steps(*old(self), *final(self), events@, reqs@),
            final(self).dispatcher() == old(self).dispatcher(),
            final(self).pending_requests() == old(self).pending_requests(),
            final(self).pending_results() == old(self).pending_results(),
            final(self).queue_depth_value() == old(self).queue_depth_value(),
    {
        let ghost pre = *self;
        let mut reqs: Vec<ActionRequest> = Vec::new();
        let ghost mut trace: Seq<EngineCore<F>> = seq![pre];
        let ghost mut cuts: Seq<int> = seq![0int];
        let mut i: usize = 0;
        while i < events.len()
            invariant
                i <= events@.len(),
                self.wf(),
                batch_run(trace, cuts, events@.take(i as int), reqs@),
                trace[0] == pre,
                trace[i as int] == *self,
                self.dispatcher() == pre.dispatcher(),
                self.pending_requests() == pre.pending_requests(),
                self.pending_results() == pre.pending_results(),
                self.queue_depth_value() == pre.queue_depth_value(),
            decreases events@.len() - i,
        {
            let ghost before = *self;
            let ghost reqs_before = reqs@;
            let ghost old_trace = trace;
            let ghost old_cuts = cuts;
            let event = events[i].clone();
            let mut new_reqs = self.step_event(event);
            let ghost added = new_reqs@;
            reqs.append(&mut new_reqs);
            proof {
                trace = trace.push(*self);
                cuts = cuts.push(reqs@.len() as int);
                let t = events@.take(i + 1);
                assert(events@.take(i as int).len() == i);
                assert(old_cuts.len() == i + 1 && old_cuts[i as int] == reqs_before.len());
                assert(old_trace.len() == i + 1 && old_trace[i as int] == before);
                assert(cuts[i as int] == reqs_before.len() && cuts[i + 1] == reqs@.len());
                assert(trace[i as int] == before && trace[i + 1] == *self);
                assert(reqs@.subrange(reqs_before.len() as int, reqs@.len() as int) =~= added);
                assert forall|q: int| 0 <= q < t.len() implies #[trigger] run_step(trace, cuts, t, reqs@, q) by {
                    if q < i {
                        assert(run_step(old_trace, old_cuts, events@.take(i as int), reqs_before, q));
                        assert(t[q] == events@.take(i as int)[q]);
                        assert(old_trace[q] == trace[q] && old_trace[q + 1] == trace[q + 1]);
                        assert(old_cuts[q] == cuts[q] && old_cuts[q + 1] == cuts[q + 1]);
                        assert(reqs@.subrange(cuts[q], cuts[q + 1]) =~= reqs_before.subrange(cuts[q], cuts[q + 1]));
                    } else {
                        assert(t[q] == events@[i as int]);
                    }
                }
                assert(t.len() == i + 1);
                assert(trace.len() == t.len() + 1);
                assert(cuts.len() == t.len() + 1);
                assert(cuts[0] == 0);
                assert(cuts[t.len() as int] == reqs@.len());
                assert(batch_run(trace, cuts, t, reqs@));
            }
            i += 1;
        }
        proof {
            assert(events@.take(events@.len() as int) =~= events@);
            assert(batch_run(trace, cuts, events@, reqs@));
        }
        reqs
    }

    /// Dispatches the pending requests and returns them with the pending
    /// per-event results; nothing is pending afterwards.
    pub fn dispatch_pending(&mut self, now_ms: i64) -> (r: CoreOutcome)
        requires
            old(self).wf(),
        ensures
            final(self).wf(),
            same_engine(*old(self), *final(self)),
            r.accepted@ == old(self).pending_results(),
            dispatched(old(self).dispatcher(), final(self).dispatcher(), old(self).pending_requests(), r.action_outcomes@, now_ms),
            final(self).pending_requests().len() == 0,
            final(self).pending_results().len() == 0,
            final(self).queue_depth_value() == old(self).queue_depth_value(),
    {
        let mut requests: Vec<ActionRequest> = Vec::new();
        std::mem::swap(&mut requests, &mut self.pending);
        let mut accepted: Vec<bool> = Vec::new();
        std::mem::swap(&mut accepted, &mut self.pending_accepted);
        let action_outcomes = self.actions.dispatch(requests.as_slice(), now_ms);
        CoreOutcome { accepted, action_outcomes }
    }

    /// Processes a batch in arrival order: every event runs through
    /// pipeline, state and rules; then the requests of all of them are
    /// dispatched in order. Every event that reached the pipeline counts
    /// as accepted (drops happen inside the stages).
    pub fn process_batch(&mut self, events: Vec<Event>, now_ms: i64) -> (r: CoreOutcome)
        requires
            old(self).wf(),
        ensures
            final(self).wf(),
            r.accepted@ == Seq::new(events@.len(), |i: int| true),
            exists|mid: EngineCore<F>, reqs: Seq<ActionRequest>|
                #![trigger batch_steps(*old(self), mid, events@, reqs)]
                {
                    &&& batch_steps(*old(self), mid, events@, reqs)
                    &&& same_engine(mid, *final(self))
                    &&& dispatched(old(self).dispatcher(), final(self).dispatcher(), reqs, r.action_outcomes@, now_ms)
                },
            final(self).pending_requests() == old(self).pending_requests(),
            final(self).pending_results() == old(self).pending_results(),
            final(self).queue_depth_value() == old(self).queue_depth_value(),
    {
        let reqs = self.run_batch(&events);
        let ghost mid = *self;
        let mut accepted: Vec<bool> = Vec::new();
        let mut i: usize = 0;
        while i < events.len()
            invariant
                i <= events@.len(),
                accepted@ == Seq::new(i as nat, |q: int| true),
            decreases events@.len() - i,
        {
            accepted.push(true);
            proof {
                assert(accepted@ =~= Seq::new((i + 1) as nat, |q: int| true));
            }
            i += 1;
        }
        let action_outcomes = self.actions.dispatch(reqs.as_slice(), now_ms);
        proof {
            assert(batch_steps(*old(self), mid, events@, reqs@));
        }
        CoreOutcome { accepted, action_outcomes }
    }

    /// Processes one event through the full chain: pipeline, state, rules,
    /// then dispatch of the requests it produced. Every event reaches the
    /// pipeline, so the result is always `true`.
    pub fn process_event(&mut self, event: Event, now_ms: i64) -> (r: bool)
        requires
            old(self).wf(),
        ensures
            final(self).wf(),
            r,
            exists|mid: EngineCore<F>, reqs: Seq<ActionRequest>, outs: Seq<ActionOutcome>|
                #![trigger event_step(*old(self), mid, event, reqs), dispatched(old(self).dispatcher(), final(self).dispatcher(), reqs, outs, now_ms)]
                {
                    &&& event_step(*old(self), mid, event, reqs)
                    &&& same_engine(mid, *final(self))
                    &&& dispatched(old(self).dispatcher(), final(self).dispatcher(), reqs, outs, now_ms)
                },
            final(self).pending_requests() == old(self).pending_requests(),
            final(self).pending_results() == old(self).pending_results(),
            final(self).queue_depth_value() == old(self).queue_depth_value(),
    {
        let ghost ev = event;
        let reqs = self.step_event(event);
        let ghost mid = *self;
        let outcomes = self.actions.dispatch(reqs.as_slice(), now_ms);
        proof {
            assert(event_step(*old(self), mid, ev, reqs@));
            assert(dispatched(old(self).dispatcher(), self.dispatcher(), reqs@, outcomes@, now_ms));
        }
        true
    }

    /// Pipeline counters snapshot.
    pub fn pipeline_counters(&self) -> (r: PipelineCounters)
        ensures
            r == self.pipeline_value().counter_values(),
    {
        *self.pipeline.counters()
    }

    /// State counters snapshot.
    pub fn state_counters(&self) -> (r: StateCounters)
        ensures
            r == self.state_value().counter_values(),
    {
        *self.state.counters()
    }

    /// Action counters snapshot.
    pub fn action_counters(&self) -> (r: ActionCounters)
        ensures
            r == self.dispatcher().counter_values(),
    {
        *self.actions.counters()
    }

    /// AI usage snapshot (zeroed when no provider is configured).
    pub fn ai_usage(&self) -> (r: AiUsage)
        ensures
            r == self.dispatcher().ai_usage_view(),
    {
        self.actions.ai_usage()
    }

    /// Number of entries currently in state.
    pub fn state_entries(&self) -> (r: usize)
        ensures
            r == self.state_value().count(),
    {
        self.state.len()
    }

    /// Everything the status endpoint reports about the core.
    pub fn status(&self) -> (r: CoreStatus)
        ensures
            r.queue_depth == self.queue_depth_value(),
            r.pipeline == self.pipeline_value().counter_values(),
            r.state_entries == self.state_value().count(),
            r.state == self.state_value().counter_values(),
            r.actions == self.dispatcher().counter_values(),
            r.ai == self.dispatcher().ai_usage_view(),
    {
        CoreStatus {
            queue_depth: self.last_queue_depth,
            pipeline: self.pipeline_counters(),
            state_entries: self.state_entries(),
            state: self.state_counters(),
            actions: self.action_counters(),
            ai: self.ai_usage(),
        }
    }

    /// Runs periodic expiration on the state store and returns how many
    /// entries it removed.
    pub fn expire_state(&mut self, now_ms: i64) -> (r: usize)
        requires
            old(self).wf(),
        ensures
            final(self).wf(),
            exists|removed: Seq<crate::state::StateEntry>|
                #[trigger] expiration(old(self).state_value(), final(self).state_value(), now_ms, removed)
                    && r == removed.len(),
            final(self).pipeline_value() == old(self).pipeline_value(),
            final(self).rule_engine() == old(self).rule_engine(),
            final(self).dispatcher() == old(self).dispatcher(),
            final(self).arith_value() == old(self).arith_value(),
            final(self).pending_requests() == old(self).pending_requests(),
            final(self).pending_results() == old(self).pending_results(),
            final(self).queue_depth_value() == old(self).queue_depth_value(),
    {
        let removed = self.state.expire(now_ms);
        proof {
            assert(expiration(old(self).state_value(), self.state_value(), now_ms, removed@));
        }
        removed.len()
    }

    /// The rule engine, for periodic (state-trigger) evaluation.
    pub fn rules_mut(&mut self) -> (r: &mut RuleEngine)
        ensures
            *r == old(self).rule_engine(),
            final(self).rule_engine() == *final(r),
            final(self).pipeline_value() == old(self).pipeline_value(),
            final(self).state_value() == old(self).state_value(),
            final(self).dispatcher() == old(self).dispatcher(),
            final(self).arith_value() == old(self).arith_value(),
    {
        &mut self.rules
    }

    /// The state store, read-only.
    pub fn state(&self) -> (r: &StateStore)
        ensures
            *r == self.state_value(),
    {
        &self.state
    }

    /// The state store, for the restore path.
    pub fn state_mut(&mut self) -> (r: &mut StateStore)
        ensures
            *r == old(self).state_value(),
            final(self).state_value() == *final(r),
            final(self).pipeline_value() == old(self).pipeline_value(),
            final(self).rule_engine() == old(self).rule_engine(),
            final(self).dispatcher() == old(self).dispatcher(),
            final(self).arith_value() == old(self).arith_value(),
    {
        &mut self.state
    }
}

/// Milliseconds since the Unix epoch as the clock gives them (`None`
/// when the clock is before the epoch): `SystemTime::now()` and
/// `duration_since(UNIX_EPOCH)`, with `as_millis`. Nothing is promised of
/// the value, which comes from the system clock.
#[verifier::external_body]
fn epoch_elapsed_ms() -> Option<u128> {
    std::time::SystemTime::now().duration_since(std::time::UNIX_EPOCH).ok().map(|d| d.as_millis())
}

/// The wall-clock reading in milliseconds: the elapsed time truncated to
/// `i64`, or 0 when the clock is before the epoch.
pub fn unix_ms_of(elapsed: Option<u128>) -> (r: i64)
    ensures
        r == match elapsed {
            Some(ms) => ms as i64,
            None => 0,
        },
{
    match elapsed {
        Some(ms) => ms as i64,
        None => 0,
    }
}

/// Current wall-clock milliseconds since the Unix epoch: the only place
/// the runtime reads wall time for event-time purposes.
pub fn now_unix_ms() -> i64 {
    unix_ms_of(epoch_elapsed_ms())
}

} // verus!
