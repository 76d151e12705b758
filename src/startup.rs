//! Spreading the start of the timed probing phase over one second.

use vstd::prelude::*;

verus! {

/// Nanoseconds in one second.
pub const NANOS_PER_SEC: u64 = 1_000_000_000;

/// The spacing between the start offsets of consecutive workers:
/// one second divided by the number of workers, in whole nanoseconds.
pub open spec fn spec_jitter_step(task_count: u32) -> int
    recommends
        task_count >= 1,
{
    NANOS_PER_SEC as int / task_count as int
}

/// The start offset of worker `task_index`, in nanoseconds.
pub open spec fn spec_jitter(task_index: u32, task_count: u32) -> int
    recommends
        task_count >= 1,
{
    task_index as int * spec_jitter_step(task_count)
}

pub fn jitter_step_nanos(task_count: u32) -> (r: u64)
    requires
        task_count >= 1,
    ensures
        r == spec_jitter_step(task_count),
        r <= NANOS_PER_SEC,
{
    NANOS_PER_SEC / (task_count as u64)
}

/// The delay a worker sleeps after the shared barrier, so that the workers
/// start probing at evenly spaced instants within one second.
pub fn jitter_nanos(task_index: u32, task_count: u32) -> (r: u64)
    requires
        task_count >= 1,
    ensures
        r == spec_jitter(task_index, task_count),
{
    let step = jitter_step_nanos(task_count);
    assert(task_index as int * step as int <= u32::MAX as int * NANOS_PER_SEC as int) by (nonlinear_arith)
        requires
            step <= NANOS_PER_SEC,
    ;
    (task_index as u64) * step
}

/// The start offsets of the workers, taken in task order, rise by exactly one
/// step of `1s / task_count` each, the step is positive, and the last offset
/// lies strictly within the first second. (With more workers than
/// nanoseconds in a second the step is zero, so the count is bounded.)
pub proof fn lemma_jitter_spread(task_count: u32)
    requires
        1 <= task_count <= NANOS_PER_SEC,
    ensures
        spec_jitter_step(task_count) > 0,
        forall|i: u32|
            i + 1 < task_count ==> #[trigger] spec_jitter((i + 1) as u32, task_count) - spec_jitter(i, task_count)
                == spec_jitter_step(task_count),
        forall|i: u32, j: u32|
            i < j < task_count ==> #[trigger] spec_jitter(i, task_count) < #[trigger] spec_jitter(j, task_count),
        spec_jitter((task_count - 1) as u32, task_count) < NANOS_PER_SEC,
{
    let n = task_count as int;
    let step = NANOS_PER_SEC as int / n;
    vstd::arithmetic::div_mod::lemma_fundamental_div_mod(NANOS_PER_SEC as int, n);
    assert(step >= 1) by {
        vstd::arithmetic::div_mod::lemma_div_is_ordered(n, NANOS_PER_SEC as int, n);
        vstd::arithmetic::div_mod::lemma_div_by_self(n);
    }
    assert forall|i: u32| i + 1 < task_count implies #[trigger] spec_jitter((i + 1) as u32, task_count)
        - spec_jitter(i, task_count) == step by {
        assert((i as int + 1) * step == i as int * step + step) by (nonlinear_arith);
    }
    assert forall|i: u32, j: u32| i < j < task_count implies #[trigger] spec_jitter(i, task_count)
        < #[trigger] spec_jitter(j, task_count) by {
        assert(i as int * step < j as int * step) by (nonlinear_arith)
            requires
                i < j,
                step >= 1,
        ;
    }
    assert((n - 1) * step < NANOS_PER_SEC) by (nonlinear_arith)
        requires
            n * step <= NANOS_PER_SEC,
            step >= 1,
    ;
    assert(n * step <= NANOS_PER_SEC) by {
        assert(NANOS_PER_SEC as int % n >= 0);
    }
}

} // verus!
