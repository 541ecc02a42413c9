//! Exclusion between task execution (shared, by workers) and pipeline
//! update (exclusive, by the coordinator).
use vstd::prelude::*;
use crate::error::SpringError;

verus! {

/// Proof of a held task-execution lease.
#[derive(Debug)]
pub struct TaskExecutionLockGuard {
    lease: (),
}

/// Proof of the held pipeline-update lock.
#[derive(Debug)]
pub struct PipelineUpdateLockGuard {
    exclusive: (),
}

/// Readers are workers running tasks; the writer is a pipeline update.
/// A writer that found readers is pending: no new lease is granted until it
/// has had its turn, so updates are not starved.
#[derive(Debug, Default)]
pub struct TaskExecutorLock {
    pub readers: u64,
    pub writer: bool,
    pub writer_pending: bool,
}

impl TaskExecutorLock {
    /// A writer never holds the lock while a worker does.
    pub open spec fn wf(&self) -> bool {
        self.writer ==> self.readers == 0
    }

    pub fn new() -> (r: TaskExecutorLock)
        ensures
            r.wf(),
            r.readers == 0,
            !r.writer,
            !r.writer_pending,
    {
        TaskExecutorLock { readers: 0, writer: false, writer_pending: false }
    }

    /// Takes the lock for a pipeline update: granted only when no worker
    /// holds a lease and no other update runs. Otherwise `Unavailable`, and
    /// the update becomes pending when workers hold leases (the coordinator
    /// waits for them to drop and asks again).
    pub fn pipeline_update(&mut self) -> (r: Result<PipelineUpdateLockGuard, SpringError>)
        requires
            old(self).wf(),
        ensures
            final(self).wf(),
            r is Ok <==> old(self).readers == 0 && !old(self).writer,
            r is Ok ==> final(self).writer && final(self).readers == 0 && !final(self).writer_pending,
            r matches Err(e) ==> e == SpringError::Unavailable && final(self).readers == old(self).readers
                && final(self).writer == old(self).writer
                && final(self).writer_pending == (old(self).writer_pending || !old(self).writer),
    {
        if self.readers == 0 && !self.writer {
            self.writer = true;
            self.writer_pending = false;
            Ok(PipelineUpdateLockGuard { exclusive: () })
        } else {
            if !self.writer {
                self.writer_pending = true;
            }
            Err(SpringError::Unavailable)
        }
    }

    pub fn release_pipeline_update(&mut self, guard: PipelineUpdateLockGuard)
        requires
            old(self).wf(),
        ensures
            final(self).wf(),
            !final(self).writer,
            final(self).readers == old(self).readers,
            final(self).writer_pending == old(self).writer_pending,
    {
        self.writer = false;
    }

    /// Takes a task-execution lease: fails with `Unavailable` while a
    /// pipeline update holds the lock or waits for it (the worker backs off
    /// and polls again).
    pub fn try_task_execution(&mut self) -> (r: Result<TaskExecutionLockGuard, SpringError>)
        requires
            old(self).wf(),
        ensures
            final(self).wf(),
            r is Ok <==> !old(self).writer && !old(self).writer_pending && old(self).readers < u64::MAX,
            r is Ok ==> final(self).readers == old(self).readers + 1 && !final(self).writer
                && final(self).writer_pending == old(self).writer_pending,
            r matches Err(e) ==> e == SpringError::Unavailable && *final(self) == *old(self),
    {
        if self.writer || self.writer_pending || self.readers == u64::MAX {
            Err(SpringError::Unavailable)
        } else {
            self.readers = self.readers + 1;
            Ok(TaskExecutionLockGuard { lease: () })
        }
    }

    pub fn release_task_execution(&mut self, guard: TaskExecutionLockGuard)
        requires
            old(self).wf(),
            old(self).readers > 0,
        ensures
            final(self).wf(),
            final(self).readers == old(self).readers - 1,
            final(self).writer == old(self).writer,
            final(self).writer_pending == old(self).writer_pending,
    {
        self.readers = self.readers - 1;
    }
}

} // verus!
