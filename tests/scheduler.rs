use std::collections::VecDeque;

use springql::pipeline::Pipeline;
use springql::scheduler::{FlowEfficientScheduler, FlowEfficientWorkerState};
use springql::task_graph::TaskId;

fn t(pipeline: Pipeline, expected: Vec<TaskId>) {
    let mut expected = expected.into_iter().collect::<VecDeque<_>>();

    let worker_id: u64 = 0;
    let mut worker = FlowEfficientWorkerState::default();

    let mut scheduler = FlowEfficientScheduler::new();
    scheduler.update_pipeline(&pipeline);

    if let Some((first_task, next)) = scheduler.next_task(worker_id, worker) {
        worker = next;
        assert_eq!(first_task, expected.pop_front().unwrap());

        loop {
            let (next_task, next) = scheduler
                .next_task(worker_id, worker)
                .expect("task must be infinitely provided");
            worker = next;
            if next_task == first_task {
                return;
            }
            assert_eq!(next_task, expected.pop_front().unwrap());
        }
    } else {
        assert!(expected.is_empty())
    }
}

/// `(0)--a-->[1]--b-->[2]--c-->` -> `abc`
#[test]
fn test_linear_pipeline() {
    t(
        Pipeline::fx_linear(),
        vec![TaskId::fx_a(), TaskId::fx_b(), TaskId::fx_c()],
    )
}

/// -> `acebdf`
#[test]
fn test_pipeline_with_split() {
    t(
        Pipeline::fx_split(),
        vec![
            TaskId::fx_a(),
            TaskId::fx_c(),
            TaskId::fx_e(),
            TaskId::fx_b(),
            TaskId::fx_d(),
            TaskId::fx_f(),
        ],
    )
}

/// -> `acbde`
#[test]
fn test_pipeline_with_merge() {
    t(
        Pipeline::fx_split_merge(),
        vec![
            TaskId::fx_a(),
            TaskId::fx_c(),
            TaskId::fx_b(),
            TaskId::fx_d(),
            TaskId::fx_e(),
        ],
    )
}

/// -> `acfbdgehjlikm`
#[test]
fn test_complex_pipeline() {
    t(
        Pipeline::fx_complex(),
        vec![
            TaskId::fx_a(),
            TaskId::fx_c(),
            TaskId::fx_f(),
            TaskId::fx_b(),
            TaskId::fx_d(),
            TaskId::fx_g(),
            TaskId::fx_e(),
            TaskId::fx_h(),
            TaskId::fx_j(),
            TaskId::fx_l(),
            TaskId::fx_i(),
            TaskId::fx_k(),
            TaskId::fx_m(),
        ],
    )
}

#[test]
fn empty_pipeline_has_no_task() {
    let mut scheduler = FlowEfficientScheduler::new();
    assert!(scheduler.next_task(0, FlowEfficientWorkerState::default()).is_none());
}

#[test]
fn no_task_goes_to_two_workers() {
    let mut scheduler = FlowEfficientScheduler::new();
    scheduler.update_pipeline(&Pipeline::fx_linear());
    let (t1, _) = scheduler.next_task(1, FlowEfficientWorkerState::default()).unwrap();
    let (t2, _) = scheduler.next_task(2, FlowEfficientWorkerState::default()).unwrap();
    let (t3, _) = scheduler.next_task(3, FlowEfficientWorkerState::default()).unwrap();
    assert_eq!(t1, TaskId::fx_a());
    assert_eq!(t2, TaskId::fx_b());
    assert_eq!(t3, TaskId::fx_c());
    // every task is taken: a fourth worker gets nothing
    assert!(scheduler.next_task(4, FlowEfficientWorkerState::default()).is_none());
    // worker 1 finishes a and moves on; a is free again for worker 4
    scheduler.release(1);
    let (t4, _) = scheduler.next_task(4, FlowEfficientWorkerState::default()).unwrap();
    assert_eq!(t4, TaskId::fx_a());
}
