//! The single consumer of all workers' batches: folds successful latencies,
//! in milliseconds, into a histogram, hands failures back for reporting, says
//! when the progress line is due, and computes the summary at the end.

use vstd::prelude::*;
use vstd::multiset::Multiset;
use histogram::Histogram;
use crate::probe::{cut_short, lemma_fleet_delivers_budget, total_delivered, view_wf, MeasurementBatch, ProbeOutcome, ProbeTaskView};

verus! {

#[verifier::external_type_specification]
#[verifier::external_body]
pub struct ExHistogram(Histogram);

/// Whether some bucket of a histogram holds a count.
pub uninterp spec fn histogram_has_values(h: Histogram) -> bool;

/// Whether a histogram has refused a value larger than it accepts.
pub uninterp spec fn histogram_refused_any(h: Histogram) -> bool;

/// The largest value a histogram accepts.
pub uninterp spec fn histogram_max_value(h: Histogram) -> u64;

/// What `minimum` answers for a histogram.
pub uninterp spec fn histogram_min_of(h: Histogram) -> u64;

/// What `maximum` answers for a histogram.
pub uninterp spec fn histogram_max_of(h: Histogram) -> u64;

/// The largest value that `Histogram::new` accepts.
pub const HISTOGRAM_MAX_VALUE: u64 = 60_000_000_000;

/// Relies on `histogram::Histogram::new`: an empty histogram with the default
/// configuration, whose largest accepted value is 60_000_000_000.
#[verifier::external_body]
fn histogram_new() -> (r: Histogram)
    ensures
        !histogram_has_values(r),
        !histogram_refused_any(r),
        histogram_max_value(r) == HISTOGRAM_MAX_VALUE,
{
    Histogram::new()
}

/// Relies on `histogram::Histogram::increment`: a value up to the largest
/// accepted one is counted in its bucket and `Ok` returned; a larger one is
/// counted as refused (`missed_large`) and `Err` returned.
#[verifier::external_body]
fn histogram_increment(h: &mut Histogram, value: u64) -> (r: Result<(), &'static str>)
    ensures
        histogram_max_value(*final(h)) == histogram_max_value(*old(h)),
        value <= histogram_max_value(*old(h)) ==> r is Ok && histogram_has_values(*final(h))
            && histogram_refused_any(*final(h)) == histogram_refused_any(*old(h)),
        value > histogram_max_value(*old(h)) ==> r is Err && histogram_refused_any(*final(h))
            && histogram_has_values(*final(h)) == histogram_has_values(*old(h)),
{
    h.increment(value)
}

/// Relies on `histogram::Histogram::minimum` (`percentile(0.0)`): the nominal
/// value of the lowest bucket that holds a count; it answers whenever some
/// bucket does.
#[verifier::external_body]
fn histogram_minimum(h: &Histogram) -> (r: Result<u64, &'static str>)
    ensures
        histogram_has_values(*h) ==> r is Ok,
        r matches Ok(v) ==> v == histogram_min_of(*h),
{
    h.minimum()
}

/// Relies on `histogram::Histogram::maximum` (`percentile(100.0)`): the
/// nominal value of the highest bucket that holds a count; it answers when
/// some bucket does and no value was refused, and bucket values grow with the
/// bucket, so it is never below the minimum.
#[verifier::external_body]
fn histogram_maximum(h: &Histogram) -> (r: Result<u64, &'static str>)
    ensures
        histogram_has_values(*h) && !histogram_refused_any(*h) ==> r is Ok,
        r matches Ok(v) ==> v == histogram_max_of(*h) && histogram_min_of(*h) <= v,
{
    h.maximum()
}

/// Relies on `histogram::Histogram::mean`: the mean of the bucket values,
/// rounded up; it answers whenever some value was counted.
#[verifier::external_body]
fn histogram_mean(h: &Histogram) -> (r: Result<u64, &'static str>)
    ensures
        histogram_has_values(*h) ==> r is Ok,
{
    h.mean()
}

/// Relies on `histogram::Histogram::stddev`: the standard deviation of the
/// bucket values, rounded up; it answers whenever some value was counted.
#[verifier::external_body]
fn histogram_stddev(h: &Histogram) -> (r: Option<u64>)
    ensures
        histogram_has_values(*h) ==> r is Some,
{
    h.stddev()
}

/// Milliseconds in an elapsed time, rounded down.
pub open spec fn millis_of(secs: u64, subsec_nanos: u32) -> int {
    secs * 1000 + subsec_nanos / 1_000_000
}

/// The elapsed time in whole milliseconds, if it fits in a `u64`.
pub fn latency_millis(secs: u64, subsec_nanos: u32) -> (r: Option<u64>)
    ensures
        r matches Some(m) ==> m == millis_of(secs, subsec_nanos),
        r is None <==> millis_of(secs, subsec_nanos) > u64::MAX,
{
    match secs.checked_mul(1000) {
        Some(ms) => ms.checked_add((subsec_nanos / 1_000_000) as u64),
        None => None,
    }
}

/// The histogram value that an outcome contributes: the latency of a success
/// in milliseconds, when the histogram accepts it.
pub open spec fn sample_of(o: ProbeOutcome) -> Option<u64> {
    match o {
        ProbeOutcome::Latency { secs, subsec_nanos } => if millis_of(secs, subsec_nanos) <= HISTOGRAM_MAX_VALUE {
            Some(millis_of(secs, subsec_nanos) as u64)
        } else {
            None
        },
        ProbeOutcome::Failure { .. } => None,
    }
}

/// Whether an outcome is a success whose latency the histogram cannot hold.
pub open spec fn out_of_range(o: ProbeOutcome) -> bool {
    o is Latency && sample_of(o) is None
}

/// The values a sequence of outcomes contributes to the histogram.
pub open spec fn samples_of(s: Seq<ProbeOutcome>) -> Multiset<u64>
    decreases s.len(),
{
    if s.len() == 0 {
        Multiset::empty()
    } else {
        let rest = samples_of(s.drop_last());
        match sample_of(s.last()) {
            Some(v) => rest.insert(v),
            None => rest,
        }
    }
}

/// The number of successes in a sequence of outcomes whose latency the
/// histogram cannot hold.
pub open spec fn out_of_range_count(s: Seq<ProbeOutcome>) -> nat
    decreases s.len(),
{
    if s.len() == 0 {
        0
    } else {
        out_of_range_count(s.drop_last()) + if out_of_range(s.last()) { 1nat } else { 0nat }
    }
}

/// The failure messages in a sequence of outcomes, in order.
pub open spec fn failures_of(s: Seq<ProbeOutcome>) -> Seq<String>
    decreases s.len(),
{
    if s.len() == 0 {
        Seq::empty()
    } else {
        let rest = failures_of(s.drop_last());
        match s.last() {
            ProbeOutcome::Failure { message } => rest.push(message),
            ProbeOutcome::Latency { .. } => rest,
        }
    }
}

/// Whether the progress line is repainted when the count of recorded latencies
/// goes from `before` to `after`: it crossed a multiple of 100, or it reached
/// the expected total.
pub open spec fn progress_due(before: int, after: int, expected: int) -> bool {
    before / 100 < after / 100 || (before < expected && expected <= after)
}

/// The abstract state of the aggregator.
pub struct AggregatorView {
    /// `task_count * probe_count`: the most outcomes the run can produce.
    pub expected: u64,
    /// Every outcome folded so far, in order of arrival.
    pub folded: Seq<ProbeOutcome>,
    /// The values the histogram holds.
    pub recorded: Multiset<u64>,
}

/// What folding one batch produced for the output.
#[derive(Debug)]
pub struct FoldReport {
    /// The worker the batch came from.
    pub task_number: u32,
    /// The failure messages of the batch, in order.
    pub failures: Vec<String>,
    /// Successes of the batch whose latency the histogram cannot hold.
    pub out_of_range: u64,
    /// The count of recorded latencies, when the progress line is due.
    pub progress: Option<u64>,
}

/// The summary statistics of a run, in milliseconds.
#[derive(Debug, Clone, Copy, PartialEq, Eq, Structural)]
pub struct Summary {
    pub minimum: u64,
    pub maximum: u64,
    pub mean: u64,
    pub stddev: u64,
}

#[derive(Debug)]
pub enum AggregationError {
    /// No latency was recorded during the run.
    NoData,
    /// The histogram could not answer a query.
    Histogram { message: &'static str },
}

pub struct Aggregator {
    histogram: Histogram,
    expected: u64,
    recorded: u64,
    failed: u64,
    dropped: u64,
    folded: Ghost<Seq<ProbeOutcome>>,
}

impl View for Aggregator {
    type V = AggregatorView;

    closed spec fn view(&self) -> AggregatorView {
        AggregatorView { expected: self.expected, folded: self.folded@, recorded: samples_of(self.folded@) }
    }
}

impl Aggregator {
    pub closed spec fn wf(&self) -> bool {
        &&& histogram_max_value(self.histogram) == HISTOGRAM_MAX_VALUE
        &&& (histogram_has_values(self.histogram) <==> samples_of(self.folded@).len() > 0)
        &&& (histogram_refused_any(self.histogram) ==> out_of_range_count(self.folded@) > 0)
        &&& self.recorded == samples_of(self.folded@).len()
        &&& self.dropped == out_of_range_count(self.folded@)
        &&& self.failed == failures_of(self.folded@).len()
        &&& self.folded@.len() <= u64::MAX
    }

    /// An aggregator for a run of `task_count` workers with a budget of
    /// `probe_count` probes each.
    pub fn new(task_count: u32, probe_count: u32) -> (r: Aggregator)
        ensures
            r.wf(),
            r@.expected == task_count * probe_count,
            r@.folded.len() == 0,
            r@.recorded.len() == 0,
    {
        assert(task_count * probe_count <= u32::MAX * u32::MAX) by (nonlinear_arith);
        Aggregator {
            histogram: histogram_new(),
            expected: (task_count as u64) * (probe_count as u64),
            recorded: 0,
            failed: 0,
            dropped: 0,
            folded: Ghost(Seq::empty()),
        }
    }

    /// The most outcomes the run can produce.
    pub fn expected(&self) -> (r: u64)
        ensures
            r == self@.expected,
    {
        self.expected
    }

    /// The number of latencies recorded in the histogram.
    pub fn recorded(&self) -> (r: u64)
        requires
            self.wf(),
        ensures
            r == self@.recorded.len(),
    {
        self.recorded
    }

    /// The number of outcomes folded so far.
    pub fn folded(&self) -> (r: u64)
        requires
            self.wf(),
        ensures
            r == self@.folded.len(),
    {
        proof { self.lemma_counts(); }
        self.recorded + self.failed + self.dropped
    }

    /// The number of failures folded so far.
    pub fn failed(&self) -> (r: u64)
        requires
            self.wf(),
        ensures
            r == failures_of(self@.folded).len(),
    {
        self.failed
    }

    /// The histogram of recorded latencies.
    pub fn histogram(&self) -> &Histogram {
        &self.histogram
    }

    proof fn lemma_counts(&self)
        requires
            self.wf(),
        ensures
            self@.folded.len() == self.recorded + self.failed + self.dropped,
    {
        lemma_outcome_partition(self.folded@);
    }

    /// Folds one batch: each success is recorded at its latency in whole
    /// milliseconds, each failure is handed back for reporting.
    pub fn fold_batch(&mut self, batch: MeasurementBatch) -> (r: FoldReport)
        requires
            old(self).wf(),
            old(self)@.folded.len() + batch.outcomes@.len() <= u64::MAX,
        ensures
            final(self).wf(),
            final(self)@.expected == old(self)@.expected,
            final(self)@.folded == old(self)@.folded + batch.outcomes@,
            final(self)@.recorded == old(self)@.recorded.add(samples_of(batch.outcomes@)),
            r.task_number == batch.task_number,
            r.failures@ == failures_of(batch.outcomes@),
            r.out_of_range == out_of_range_count(batch.outcomes@),
            r.progress is Some <==> progress_due(
                old(self)@.recorded.len() as int,
                final(self)@.recorded.len() as int,
                old(self)@.expected as int,
            ),
            r.progress matches Some(n) ==> n == final(self)@.recorded.len(),
    {
        let ghost start = self.folded@;
        let before = self.recorded;
        let task_number = batch.task_number;
        let mut outcomes = batch.outcomes;
        let ghost all = outcomes@;
        let n: usize = outcomes.len();
        let mut k: usize = 0;
        let mut failures: Vec<String> = Vec::new();
        let mut dropped: u64 = 0;
        proof {
            lemma_outcome_partition(start);
        }
        while outcomes.len() > 0
            invariant
                0 <= k <= all.len(),
                all.len() == n,
                outcomes@ == all.skip(k as int),
                histogram_max_value(self.histogram) == HISTOGRAM_MAX_VALUE,
                self.expected == old(self).expected,
                start == old(self).folded@,
                self.folded@ == start + all.take(k as int),
                histogram_has_values(self.histogram) <==> samples_of(self.folded@).len() > 0,
                histogram_refused_any(self.histogram) ==> out_of_range_count(self.folded@) > 0,
                self.recorded == samples_of(self.folded@).len(),
                self.dropped == out_of_range_count(self.folded@),
                self.failed == failures_of(self.folded@).len(),
                start.len() + all.len() <= u64::MAX,
                start.len() == old(self).recorded + old(self).failed + old(self).dropped,
                failures@ == failures_of(all.take(k as int)),
                dropped == out_of_range_count(all.take(k as int)),
            decreases outcomes.len(),
        {
            let ghost remaining = outcomes@;
            let o = outcomes.remove(0);
            assert(remaining.remove(0) =~= all.skip(k + 1));
            assert(o == all[k as int]);
            assert(remaining.len() > 0 ==> k < all.len());
            proof {
                lemma_outcome_partition(self.folded@);
                lemma_fold_step(start, all, k as int);
                lemma_outcome_partition(all.take(k as int));
            }
            match o {
                ProbeOutcome::Latency { secs, subsec_nanos } => {
                    match latency_millis(secs, subsec_nanos) {
                        Some(ms) => match histogram_increment(&mut self.histogram, ms) {
                            Ok(()) => {
                                self.recorded = self.recorded + 1;
                            },
                            Err(_) => {
                                self.dropped = self.dropped + 1;
                                dropped = dropped + 1;
                            },
                        },
                        None => {
                            self.dropped = self.dropped + 1;
                            dropped = dropped + 1;
                        },
                    }
                },
                ProbeOutcome::Failure { message } => {
                    failures.push(message);
                    self.failed = self.failed + 1;
                },
            }
            proof {
                let ghost f = self.folded@;
                self.folded = Ghost(f.push(all[k as int]));
            }
            k = k + 1;
        }
        proof {
            assert(all.take(all.len() as int) =~= all);
            lemma_samples_concat(start, all);
        }
        let after = self.recorded;
        let due = before / 100 < after / 100 || (before < self.expected && self.expected <= after);
        FoldReport {
            task_number,
            failures,
            out_of_range: dropped,
            progress: if due { Some(after) } else { None },
        }
    }

    /// The summary of the run: minimum, maximum, mean and standard deviation
    /// of the recorded latencies. A run that recorded none ends in
    /// [`AggregationError::NoData`].
    pub fn summary(&self) -> (r: Result<Summary, AggregationError>)
        requires
            self.wf(),
        ensures
            r matches Err(AggregationError::NoData) <==> self@.recorded.len() == 0,
            self@.recorded.len() > 0 && out_of_range_count(self@.folded) == 0 ==> r is Ok,
            r matches Ok(s) ==> s.minimum <= s.maximum,
    {
        if self.recorded == 0 {
            return Err(AggregationError::NoData);
        }
        let minimum = match histogram_minimum(&self.histogram) {
            Ok(v) => v,
            Err(message) => return Err(AggregationError::Histogram { message }),
        };
        let maximum = match histogram_maximum(&self.histogram) {
            Ok(v) => v,
            Err(message) => return Err(AggregationError::Histogram { message }),
        };
        let mean = match histogram_mean(&self.histogram) {
            Ok(v) => v,
            Err(message) => return Err(AggregationError::Histogram { message }),
        };
        let stddev = match histogram_stddev(&self.histogram) {
            Some(v) => v,
            None => return Err(AggregationError::Histogram { message: "no data" }),
        };
        Ok(Summary { minimum, maximum, mean, stddev })
    }
}

/// Every outcome is exactly one of: a recorded latency, a latency out of the
/// histogram's range, a failure.
pub proof fn lemma_outcome_partition(s: Seq<ProbeOutcome>)
    ensures
        s.len() == samples_of(s).len() + out_of_range_count(s) + failures_of(s).len(),
    decreases s.len(),
{
    if s.len() > 0 {
        lemma_outcome_partition(s.drop_last());
    }
}

proof fn lemma_fold_step(start: Seq<ProbeOutcome>, s: Seq<ProbeOutcome>, i: int)
    requires
        0 <= i < s.len(),
    ensures
        (start + s.take(i + 1)).drop_last() == start + s.take(i),
        (start + s.take(i + 1)).last() == s[i],
        s.take(i + 1).drop_last() == s.take(i),
        s.take(i + 1).last() == s[i],
        start + s.take(i + 1) == (start + s.take(i)).push(s[i]),
{
    assert((start + s.take(i + 1)).drop_last() =~= start + s.take(i));
    assert(s.take(i + 1).drop_last() =~= s.take(i));
    assert(start + s.take(i + 1) =~= (start + s.take(i)).push(s[i]));
}

/// Folding two sequences one after the other records the values of both.
pub proof fn lemma_samples_concat(a: Seq<ProbeOutcome>, b: Seq<ProbeOutcome>)
    ensures
        samples_of(a + b) == samples_of(a).add(samples_of(b)),
    decreases b.len(),
{
    if b.len() == 0 {
        assert(a + b =~= a);
        assert(samples_of(a).add(Multiset::empty()) =~= samples_of(a));
    } else {
        lemma_samples_concat(a, b.drop_last());
        assert((a + b).drop_last() =~= a + b.drop_last());
        assert((a + b).last() == b.last());
        match sample_of(b.last()) {
            Some(v) => {
                assert(samples_of(a).add(samples_of(b.drop_last())).insert(v) =~= samples_of(a).add(
                    samples_of(b.drop_last()).insert(v),
                ));
            },
            None => {},
        }
    }
}

/// When the aggregator has folded every batch of `task_count` terminated
/// workers exactly once, the successes and failures it counted are at most
/// `task_count * probe_count`, and exactly that many unless a transport
/// failure ended some worker before its budget was used up.
pub proof fn lemma_aggregate_within_budget(agg: AggregatorView, workers: Seq<ProbeTaskView>, probe_count: u32)
    requires
        forall|k: int| 0 <= k < workers.len() ==> view_wf(#[trigger] workers[k]),
        forall|k: int| 0 <= k < workers.len() ==> (#[trigger] workers[k]).phase is Terminated,
        forall|k: int| 0 <= k < workers.len() ==> (#[trigger] workers[k]).probe_count == probe_count,
        agg.folded.len() == total_delivered(workers),
    ensures
        samples_of(agg.folded).len() + out_of_range_count(agg.folded) + failures_of(agg.folded).len()
            <= workers.len() * probe_count,
        (forall|k: int| 0 <= k < workers.len() ==> !cut_short(#[trigger] workers[k])) ==> samples_of(
            agg.folded,
        ).len() + out_of_range_count(agg.folded) + failures_of(agg.folded).len() == workers.len() * probe_count,
{
    lemma_outcome_partition(agg.folded);
    lemma_fleet_delivers_budget(workers, probe_count);
}

} // verus!
