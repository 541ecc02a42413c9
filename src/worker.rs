//! A worker's reaction to control events, as a function from its state and
//! the events it polled to its next state.
use vstd::prelude::*;
use crate::pipeline::PipelineVersion;
use crate::scheduler::FlowEfficientWorkerState;

verus! {

/// Counters the scheduler may use as hints.
#[derive(Clone, Copy, Debug, PartialEq, Eq, Structural, Default)]
pub struct PerformanceMetrics {
    pub rows_in_queues: u64,
}

/// Control events broadcast to workers.
#[derive(Clone, Copy, Debug, PartialEq, Eq, Structural)]
pub enum Event {
    /// A new pipeline (and its task graph) is in place.
    UpdatePipeline { version: PipelineVersion },
    /// Fresh counters.
    UpdatePerformanceMetrics { metrics: PerformanceMetrics },
}

/// What a worker keeps between cycles.
#[derive(Clone, Copy, Debug, PartialEq, Eq, Structural, Default)]
pub struct WorkerLoopState {
    pub pipeline_version: PipelineVersion,
    pub scheduler_state: FlowEfficientWorkerState,
    pub metrics: PerformanceMetrics,
}

/// The state after one event: a newer pipeline is taken up with the worker
/// back at the start of the new rotation; an older or equal version is
/// ignored; metrics replace the cached ones.
pub open spec fn after_event(s: WorkerLoopState, e: Event) -> WorkerLoopState {
    match e {
        Event::UpdatePipeline { version } => if version.version > s.pipeline_version.version {
            WorkerLoopState {
                pipeline_version: version,
                scheduler_state: FlowEfficientWorkerState { cursor: 0 },
                ..s
            }
        } else {
            s
        },
        Event::UpdatePerformanceMetrics { metrics } => WorkerLoopState { metrics, ..s },
    }
}

/// The state after the events polled, one per subscription, in order.
pub open spec fn after_events(s: WorkerLoopState, polls: Seq<Option<Event>>) -> WorkerLoopState
    decreases polls.len(),
{
    if polls.len() == 0 {
        s
    } else {
        let prev = after_events(s, polls.drop_last());
        match polls.last() {
            Some(e) => after_event(prev, e),
            None => prev,
        }
    }
}

/// Drains the control events a worker polled (at most one per
/// subscription) and returns its refreshed state.
pub fn handle_events(current_state: WorkerLoopState, polls: &Vec<Option<Event>>) -> (r: WorkerLoopState)
    ensures
        r == after_events(current_state, polls@),
        r.pipeline_version.version >= current_state.pipeline_version.version,
{
    let mut state = current_state;
    let mut i: usize = 0;
    while i < polls.len()
        invariant
            0 <= i <= polls@.len(),
            state == after_events(current_state, polls@.subrange(0, i as int)),
            state.pipeline_version.version >= current_state.pipeline_version.version,
        decreases polls@.len() - i,
    {
        proof {
            let pre = polls@.subrange(0, i + 1);
            assert(pre.drop_last() =~= polls@.subrange(0, i as int));
            assert(pre.last() == polls@[i as int]);
        }
        match polls[i] {
            Some(Event::UpdatePipeline { version }) => {
                if version.version > state.pipeline_version.version {
                    state = WorkerLoopState {
                        pipeline_version: version,
                        scheduler_state: FlowEfficientWorkerState { cursor: 0 },
                        metrics: state.metrics,
                    };
                }
            },
            Some(Event::UpdatePerformanceMetrics { metrics }) => {
                state = WorkerLoopState { metrics, ..state };
            },
            None => {},
        }
        i = i + 1;
    }
    assert(polls@.subrange(0, polls@.len() as int) =~= polls@);
    state
}

} // verus!
