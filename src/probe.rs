//! The per-worker probing state machine.
//!
//! A worker waits at a barrier shared by all workers, sleeps its start offset,
//! then issues up to `probe_count` requests paced one second apart. Outcomes
//! are gathered into batches of at most [`BATCH_CAPACITY`] entries that are
//! handed to the aggregator. A non-success status is recorded and probing goes
//! on; a transport failure is recorded and ends the worker's probing.
//!
//! The machine only decides: the caller performs each [`ProbeAction`] and
//! reports what happened as a [`ProbeEvent`].

use vstd::prelude::*;
use crate::startup::NANOS_PER_SEC;

verus! {

/// The number of outcomes after which a batch is handed over.
pub const BATCH_CAPACITY: usize = 10;

/// The result of one probe.
#[derive(Debug)]
pub enum ProbeOutcome {
    /// The request succeeded after the given elapsed time.
    Latency { secs: u64, subsec_nanos: u32 },
    /// The request failed; the message describes how.
    Failure { message: String },
}

/// Outcomes of one worker, in the order they were recorded.
#[derive(Debug)]
pub struct MeasurementBatch {
    pub task_number: u32,
    pub outcomes: Vec<ProbeOutcome>,
}

/// What happened since the last action.
#[derive(Debug)]
pub enum ProbeEvent {
    /// All workers reached the barrier.
    BarrierReleased,
    /// The requested sleep is over.
    SleepElapsed,
    /// The request got a success response after the given elapsed time.
    Success { secs: u64, subsec_nanos: u32 },
    /// The request got a response with a non-success status.
    Rejected { message: String },
    /// The request failed below HTTP (connection, timeout, name lookup, TLS).
    TransportFailure { message: String },
}

/// What the worker is to do next.
#[derive(Clone, Copy, Debug, PartialEq, Eq, Structural)]
pub enum ProbeAction {
    AwaitBarrier,
    Sleep { nanos: u64 },
    Request,
    Stop,
}

#[derive(Clone, Copy, Debug, PartialEq, Eq, Structural)]
pub enum ProbePhase {
    WaitingAtBarrier,
    Jittering,
    /// Waiting for the response of probe `iteration`.
    Probing { iteration: u32 },
    /// Pausing before probe `next`.
    Pausing { next: u32 },
    Terminated,
}

/// The decision taken on one event: a batch to hand over, if any, and the
/// next action.
#[derive(Debug)]
pub struct ProbeStep {
    pub flush: Option<MeasurementBatch>,
    pub action: ProbeAction,
}

/// The abstract state of a worker.
pub struct ProbeTaskView {
    pub task_number: u32,
    pub probe_count: u32,
    pub jitter_nanos: u64,
    pub phase: ProbePhase,
    /// Outcomes recorded and not yet handed over.
    pub batch: Seq<ProbeOutcome>,
    /// Every outcome recorded so far, in order.
    pub history: Seq<ProbeOutcome>,
    /// The outcomes handed over so far, in order.
    pub delivered: Seq<ProbeOutcome>,
    /// Whether a transport failure ended probing.
    pub ended_early: bool,
}

pub open spec fn view_wf(v: ProbeTaskView) -> bool {
    &&& v.batch.len() < BATCH_CAPACITY
    &&& v.history == v.delivered + v.batch
    &&& match v.phase {
        ProbePhase::WaitingAtBarrier | ProbePhase::Jittering => v.history.len() == 0 && !v.ended_early,
        ProbePhase::Probing { iteration } => iteration < v.probe_count && v.history.len() == iteration
            && !v.ended_early,
        ProbePhase::Pausing { next } => next < v.probe_count && v.history.len() == next && !v.ended_early,
        ProbePhase::Terminated => v.batch.len() == 0 && v.history.len() <= v.probe_count && (!v.ended_early
            ==> v.history.len() == v.probe_count),
    }
}

/// The outcome a response event records.
pub open spec fn outcome_of(e: ProbeEvent) -> Option<ProbeOutcome> {
    match e {
        ProbeEvent::Success { secs, subsec_nanos } => Some(ProbeOutcome::Latency { secs, subsec_nanos }),
        ProbeEvent::Rejected { message } => Some(ProbeOutcome::Failure { message }),
        ProbeEvent::TransportFailure { message } => Some(ProbeOutcome::Failure { message }),
        _ => None,
    }
}

/// The action that the phase waits on.
pub open spec fn pending_action(v: ProbeTaskView) -> ProbeAction {
    match v.phase {
        ProbePhase::WaitingAtBarrier => ProbeAction::AwaitBarrier,
        ProbePhase::Jittering => ProbeAction::Sleep { nanos: v.jitter_nanos },
        ProbePhase::Probing { .. } => ProbeAction::Request,
        ProbePhase::Pausing { .. } => ProbeAction::Sleep { nanos: NANOS_PER_SEC },
        ProbePhase::Terminated => ProbeAction::Stop,
    }
}

/// Whether the event answers a request of the probing phase.
pub open spec fn is_response(v: ProbeTaskView, e: ProbeEvent) -> bool {
    v.phase is Probing && outcome_of(e) is Some
}

/// Whether the response ends probing: a transport failure, or the last probe.
pub open spec fn ends_probing(v: ProbeTaskView, e: ProbeEvent) -> bool {
    &&& is_response(v, e)
    &&& (e is TransportFailure || v.phase->Probing_iteration + 1 == v.probe_count)
}

/// Whether the event makes the worker hand over a batch: the batch is full,
/// or probing ends.
pub open spec fn flushes(v: ProbeTaskView, e: ProbeEvent) -> bool {
    is_response(v, e) && (v.batch.len() + 1 == BATCH_CAPACITY || ends_probing(v, e))
}

/// The state after an event. An event that the phase does not wait on
/// changes nothing.
pub open spec fn next_view(v: ProbeTaskView, e: ProbeEvent) -> ProbeTaskView {
    match (v.phase, e) {
        (ProbePhase::WaitingAtBarrier, ProbeEvent::BarrierReleased) => ProbeTaskView {
            phase: ProbePhase::Jittering,
            ..v
        },
        (ProbePhase::Jittering, ProbeEvent::SleepElapsed) => ProbeTaskView {
            phase: if v.probe_count == 0 {
                ProbePhase::Terminated
            } else {
                ProbePhase::Probing { iteration: 0 }
            },
            ..v
        },
        (ProbePhase::Pausing { next }, ProbeEvent::SleepElapsed) => ProbeTaskView {
            phase: ProbePhase::Probing { iteration: next },
            ..v
        },
        _ => if is_response(v, e) {
            let o = outcome_of(e)->Some_0;
            let full = v.batch.push(o);
            ProbeTaskView {
                phase: if ends_probing(v, e) {
                    ProbePhase::Terminated
                } else {
                    ProbePhase::Pausing { next: (v.phase->Probing_iteration + 1) as u32 }
                },
                batch: if flushes(v, e) { Seq::empty() } else { full },
                history: v.history.push(o),
                delivered: if flushes(v, e) { v.delivered + full } else { v.delivered },
                ended_early: e is TransportFailure,
                ..v
            }
        } else {
            v
        },
    }
}

/// The action after an event.
pub open spec fn next_action(v: ProbeTaskView, e: ProbeEvent) -> ProbeAction {
    pending_action(next_view(v, e))
}

/// One worker's probing run.
pub struct ProbeTask {
    task_number: u32,
    probe_count: u32,
    jitter_nanos: u64,
    phase: ProbePhase,
    batch: Vec<ProbeOutcome>,
    history: Ghost<Seq<ProbeOutcome>>,
    delivered: Ghost<Seq<ProbeOutcome>>,
    ended_early: bool,
}

impl View for ProbeTask {
    type V = ProbeTaskView;

    closed spec fn view(&self) -> ProbeTaskView {
        ProbeTaskView {
            task_number: self.task_number,
            probe_count: self.probe_count,
            jitter_nanos: self.jitter_nanos,
            phase: self.phase,
            batch: self.batch@,
            history: self.history@,
            delivered: self.delivered@,
            ended_early: self.ended_early,
        }
    }
}

impl ProbeTask {
    pub open spec fn wf(&self) -> bool {
        view_wf(self@)
    }

    /// A worker that has not reached the barrier yet.
    pub fn new(task_number: u32, probe_count: u32, jitter_nanos: u64) -> (r: ProbeTask)
        ensures
            r.wf(),
            r@.task_number == task_number,
            r@.probe_count == probe_count,
            r@.jitter_nanos == jitter_nanos,
            r@.phase == ProbePhase::WaitingAtBarrier,
            r@.history.len() == 0,
            r@.delivered.len() == 0,
            pending_action(r@) == ProbeAction::AwaitBarrier,
    {
        ProbeTask {
            task_number,
            probe_count,
            jitter_nanos,
            phase: ProbePhase::WaitingAtBarrier,
            batch: Vec::new(),
            history: Ghost(Seq::empty()),
            delivered: Ghost(Seq::empty()),
            ended_early: false,
        }
    }

    /// The action the worker waits to have performed.
    pub fn pending(&self) -> (r: ProbeAction)
        requires
            self.wf(),
        ensures
            r == pending_action(self@),
    {
        match self.phase {
            ProbePhase::WaitingAtBarrier => ProbeAction::AwaitBarrier,
            ProbePhase::Jittering => ProbeAction::Sleep { nanos: self.jitter_nanos },
            ProbePhase::Probing { .. } => ProbeAction::Request,
            ProbePhase::Pausing { .. } => ProbeAction::Sleep { nanos: NANOS_PER_SEC },
            ProbePhase::Terminated => ProbeAction::Stop,
        }
    }

    pub fn is_terminated(&self) -> (r: bool)
        ensures
            r == (self@.phase is Terminated),
    {
        matches!(self.phase, ProbePhase::Terminated)
    }

    /// Takes the outcomes gathered so far out of the batch.
    fn take_batch(&mut self) -> (r: MeasurementBatch)
        ensures
            r.task_number == old(self).task_number,
            r.outcomes@ == old(self).batch@,
            final(self).batch@.len() == 0,
            final(self).task_number == old(self).task_number,
            final(self).probe_count == old(self).probe_count,
            final(self).jitter_nanos == old(self).jitter_nanos,
            final(self).phase == old(self).phase,
            final(self).history == old(self).history,
            final(self).delivered == old(self).delivered,
            final(self).ended_early == old(self).ended_early,
    {
        let mut outcomes: Vec<ProbeOutcome> = Vec::new();
        std::mem::swap(&mut outcomes, &mut self.batch);
        MeasurementBatch { task_number: self.task_number, outcomes }
    }

    /// Records a response of the probing phase.
    fn record(&mut self, iteration: u32, outcome: ProbeOutcome, transport: bool) -> (r: Option<MeasurementBatch>)
        requires
            old(self).wf(),
            old(self)@.phase == (ProbePhase::Probing { iteration }),
        ensures
            ({
                let v = old(self)@;
                let ends = transport || iteration + 1 == v.probe_count;
                let fl = v.batch.len() + 1 == BATCH_CAPACITY || ends;
                &&& final(self)@ == ProbeTaskView {
                    phase: if ends {
                        ProbePhase::Terminated
                    } else {
                        ProbePhase::Pausing { next: (iteration + 1) as u32 }
                    },
                    batch: if fl { Seq::empty() } else { v.batch.push(outcome) },
                    history: v.history.push(outcome),
                    delivered: if fl { v.delivered + v.batch.push(outcome) } else { v.delivered },
                    ended_early: transport,
                    ..v
                }
                &&& (r is Some <==> fl)
                &&& (r matches Some(b) ==> b.task_number == v.task_number && b.outcomes@ == v.batch.push(outcome))
            }),
    {
        let ghost v = self@;
        proof {
            let ghost h = self.history@;
            self.history = Ghost(h.push(outcome));
        }
        self.batch.push(outcome);
        let last = iteration + 1 == self.probe_count;
        let full = self.batch.len() == BATCH_CAPACITY;
        self.ended_early = transport;
        self.phase = if transport || last {
            ProbePhase::Terminated
        } else {
            ProbePhase::Pausing { next: iteration + 1 }
        };
        if full || transport || last {
            proof {
                let ghost d = self.delivered@;
                self.delivered = Ghost(d + self.batch@);
            }
            let b = self.take_batch();
            assert(self.batch@ =~= Seq::<ProbeOutcome>::empty());
            Some(b)
        } else {
            None
        }
    }

    /// Advances the worker on an event and says what to do next.
    pub fn step(&mut self, event: ProbeEvent) -> (r: ProbeStep)
        requires
            old(self).wf(),
        ensures
            final(self).wf(),
            final(self)@ == next_view(old(self)@, event),
            r.action == next_action(old(self)@, event),
            r.flush is Some <==> flushes(old(self)@, event),
            r.flush matches Some(b) ==> b.task_number == old(self)@.task_number
                && b.outcomes@ == old(self)@.batch.push(outcome_of(event)->Some_0),
    {
        let ghost v = self@;
        let flush = match (self.phase, event) {
            (ProbePhase::WaitingAtBarrier, ProbeEvent::BarrierReleased) => {
                self.phase = ProbePhase::Jittering;
                None
            },
            (ProbePhase::Jittering, ProbeEvent::SleepElapsed) => {
                self.phase = if self.probe_count == 0 {
                    ProbePhase::Terminated
                } else {
                    ProbePhase::Probing { iteration: 0 }
                };
                None
            },
            (ProbePhase::Pausing { next }, ProbeEvent::SleepElapsed) => {
                self.phase = ProbePhase::Probing { iteration: next };
                None
            },
            (ProbePhase::Probing { iteration }, ProbeEvent::Success { secs, subsec_nanos }) => {
                self.record(iteration, ProbeOutcome::Latency { secs, subsec_nanos }, false)
            },
            (ProbePhase::Probing { iteration }, ProbeEvent::Rejected { message }) => {
                self.record(iteration, ProbeOutcome::Failure { message }, false)
            },
            (ProbePhase::Probing { iteration }, ProbeEvent::TransportFailure { message }) => {
                self.record(iteration, ProbeOutcome::Failure { message }, true)
            },
            _ => None,
        };
        assert(self@ =~= next_view(v, event));
        let action = self.pending();
        ProbeStep { flush, action }
    }
}

/// The number of outcomes that a fleet of workers has handed over.
pub open spec fn total_delivered(workers: Seq<ProbeTaskView>) -> int
    decreases workers.len(),
{
    if workers.len() == 0 {
        0
    } else {
        total_delivered(workers.drop_last()) + workers.last().delivered.len()
    }
}

/// A transport failure on a probe that is not the last one ends the worker:
/// it has recorded exactly one outcome per probe made, the failure included,
/// everything recorded has been handed over, and no later event makes it
/// hand over another batch or change its state.
pub proof fn lemma_transport_failure_ends(v: ProbeTaskView, message: String, later: ProbeEvent)
    requires
        view_wf(v),
        v.phase is Probing,
        v.phase->Probing_iteration + 1 < v.probe_count,
    ensures
        ({
            let w = next_view(v, ProbeEvent::TransportFailure { message });
            &&& w.history.len() == v.phase->Probing_iteration + 1
            &&& w.history.last() == (ProbeOutcome::Failure { message })
            &&& w.phase is Terminated
            &&& w.delivered == w.history
            &&& !flushes(w, later)
            &&& next_view(w, later) == w
            &&& next_action(w, later) == ProbeAction::Stop
        }),
{
    let w = next_view(v, ProbeEvent::TransportFailure { message });
    assert(w.delivered =~= w.history);
}

/// Once terminated, a worker has handed over at most one outcome per probe of
/// its budget, and exactly one per probe unless a transport failure ended it.
pub proof fn lemma_terminated_delivers_budget(v: ProbeTaskView)
    requires
        view_wf(v),
        v.phase is Terminated,
    ensures
        v.delivered.len() <= v.probe_count,
        !v.ended_early ==> v.delivered.len() == v.probe_count,
{
    assert(v.delivered =~= v.history);
}

/// Whether a transport failure ended a worker before it used its whole budget.
pub open spec fn cut_short(v: ProbeTaskView) -> bool {
    v.ended_early && v.delivered.len() < v.probe_count
}

/// Over a fleet of `task_count` terminated workers with a budget of
/// `probe_count` probes each, at most `task_count * probe_count` outcomes are
/// handed over, and exactly that many when no transport failure ended a
/// worker before its budget was used up.
pub proof fn lemma_fleet_delivers_budget(workers: Seq<ProbeTaskView>, probe_count: u32)
    requires
        forall|k: int| 0 <= k < workers.len() ==> view_wf(#[trigger] workers[k]),
        forall|k: int| 0 <= k < workers.len() ==> (#[trigger] workers[k]).phase is Terminated,
        forall|k: int| 0 <= k < workers.len() ==> (#[trigger] workers[k]).probe_count == probe_count,
    ensures
        total_delivered(workers) <= workers.len() * probe_count,
        (forall|k: int| 0 <= k < workers.len() ==> !cut_short(#[trigger] workers[k]))
            ==> total_delivered(workers) == workers.len() * probe_count,
    decreases workers.len(),
{
    if workers.len() > 0 {
        let rest = workers.drop_last();
        assert forall|k: int| 0 <= k < rest.len() implies view_wf(#[trigger] rest[k]) && rest[k].phase is Terminated
            && rest[k].probe_count == probe_count by {
            assert(rest[k] == workers[k]);
        }
        lemma_fleet_delivers_budget(rest, probe_count);
        lemma_terminated_delivers_budget(workers.last());
        assert(workers.len() * probe_count == rest.len() * probe_count + probe_count) by (nonlinear_arith)
            requires
                workers.len() == rest.len() + 1,
        ;
        if forall|k: int| 0 <= k < workers.len() ==> !cut_short(#[trigger] workers[k]) {
            assert forall|k: int| 0 <= k < rest.len() implies !cut_short(#[trigger] rest[k]) by {
                assert(rest[k] == workers[k]);
            }
            assert(!cut_short(workers[workers.len() - 1]));
            assert(total_delivered(rest) == rest.len() * probe_count);
            assert(workers.last().delivered.len() == probe_count);
            assert(total_delivered(workers) == total_delivered(rest) + workers.last().delivered.len());
        }
    } else {
        assert(workers.len() * probe_count == 0) by (nonlinear_arith)
            requires
                workers.len() == 0,
        ;
    }
}

/// The state after a sequence of events.
pub open spec fn run(v: ProbeTaskView, events: Seq<ProbeEvent>) -> ProbeTaskView
    decreases events.len(),
{
    if events.len() == 0 {
        v
    } else {
        next_view(run(v, events.drop_last()), events.last())
    }
}

/// Whether two events are of the same kind; what they carry (a latency, a
/// message) may differ.
pub open spec fn same_kind(a: ProbeEvent, b: ProbeEvent) -> bool {
    match (a, b) {
        (ProbeEvent::BarrierReleased, ProbeEvent::BarrierReleased) => true,
        (ProbeEvent::SleepElapsed, ProbeEvent::SleepElapsed) => true,
        (ProbeEvent::Success { .. }, ProbeEvent::Success { .. }) => true,
        (ProbeEvent::Rejected { .. }, ProbeEvent::Rejected { .. }) => true,
        (ProbeEvent::TransportFailure { .. }, ProbeEvent::TransportFailure { .. }) => true,
        _ => false,
    }
}

/// Whether two worker states agree in everything but the contents of the
/// recorded outcomes.
pub open spec fn same_shape(v: ProbeTaskView, w: ProbeTaskView) -> bool {
    &&& v.task_number == w.task_number
    &&& v.probe_count == w.probe_count
    &&& v.jitter_nanos == w.jitter_nanos
    &&& v.phase == w.phase
    &&& v.batch.len() == w.batch.len()
    &&& v.history.len() == w.history.len()
    &&& v.delivered.len() == w.delivered.len()
    &&& v.ended_early == w.ended_early
    &&& forall|k: int| 0 <= k < v.history.len() ==> ((#[trigger] v.history[k]) is Latency <==> w.history[k] is Latency)
}

/// Two runs that see events of the same kinds in the same order (a target
/// that answers alike) record and hand over the same number of outcomes, hand
/// over batches at the same steps, record successes and failures at the same
/// positions, and act alike; only latencies and messages may differ.
pub proof fn lemma_runs_agree(v: ProbeTaskView, w: ProbeTaskView, a: Seq<ProbeEvent>, b: Seq<ProbeEvent>)
    requires
        same_shape(v, w),
        a.len() == b.len(),
        forall|k: int| 0 <= k < a.len() ==> same_kind(#[trigger] a[k], b[k]),
    ensures
        same_shape(run(v, a), run(w, b)),
        a.len() > 0 ==> (flushes(run(v, a.drop_last()), a.last()) <==> flushes(run(w, b.drop_last()), b.last())),
        a.len() > 0 ==> next_action(run(v, a.drop_last()), a.last()) == next_action(run(w, b.drop_last()), b.last()),
    decreases a.len(),
{
    if a.len() > 0 {
        let a0 = a.drop_last();
        let b0 = b.drop_last();
        assert forall|k: int| 0 <= k < a0.len() implies same_kind(#[trigger] a0[k], b0[k]) by {
            assert(a0[k] == a[k] && b0[k] == b[k]);
        }
        lemma_runs_agree(v, w, a0, b0);
        assert(same_kind(a[a.len() - 1], b[b.len() - 1]));
        let x = run(v, a0);
        let y = run(w, b0);
        if is_response(x, a.last()) {
            let hx = x.history.push(outcome_of(a.last())->Some_0);
            let hy = y.history.push(outcome_of(b.last())->Some_0);
            assert forall|k: int| 0 <= k < hx.len() implies ((#[trigger] hx[k]) is Latency <==> hy[k] is Latency) by {
                if k < x.history.len() {
                    assert(hx[k] == x.history[k] && hy[k] == y.history[k]);
                }
            }
        }
    }
}

} // verus!
