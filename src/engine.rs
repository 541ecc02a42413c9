//! The autonomous executor's state: the current pipeline, its task graph and
//! schedule, and the queues and windows of its tasks.
use vstd::prelude::*;
use crate::error::SpringError;
use crate::pipeline::{command_valid, options_ok, pipeline_added, AlterPipelineCommand, Pipeline, PumpQuery};
use crate::queue::{collected, time_insert, time_ordered, CollectSubtask, InQueueMetricsUpdateByCollect, QueueId, Repositories, RowQueue};
use crate::row::{Row, RowView, StreamColumns};
use crate::scheduler::{rotate, FlowEfficientScheduler, FlowEfficientWorkerState};
use crate::task::{output_row, project, project_spec, pumped, PumpTask, SinkTask, SourceTask, Task, TaskState};
use crate::task_graph::TaskEdge;
use crate::value::{SqlValue, NnSqlValue};
use crate::window::pane::aggregatable;
use crate::window::window::{content_after, Window, WindowDispatch, WindowOutput};
use crate::window::pane::pane_result;

verus! {

/// The executor: one queue (row or window) in front of each task, one
/// in-memory queue behind each sink, one window per windowed pump.
pub struct Engine {
    pub pipeline: Pipeline,
    pub scheduler: FlowEfficientScheduler,
    pub tasks: Vec<Task>,
    pub repos: Repositories,
    pub sink_queues: Vec<RowQueue>,
    pub windows: Vec<Option<Window>>,
    pub queue_capacity: usize,
}

/// The queue a task reads: its window queue when it has a window.
pub open spec fn input_id(windows: Seq<Option<Window>>, j: int) -> QueueId {
    if windows[j] is Some { QueueId::Window(j as usize) } else { QueueId::Row(j as usize) }
}

/// After a row `o` went to the readers of stream `n`: every task reading
/// `n` got `o` at the back of its input queue; every other queue is as it was.
pub open spec fn forwarded(
    before: Repositories,
    after: Repositories,
    edges: Seq<TaskEdge>,
    windows: Seq<Option<Window>>,
    n: usize,
    o: Option<RowView>,
) -> bool {
    &&& after.row_queues@.len() == before.row_queues@.len()
    &&& after.window_queues@.len() == before.window_queues@.len()
    &&& forall|j: int| 0 <= j < edges.len() ==> #[trigger] after.queue(input_id(windows, j)) == if edges[j].upstream
        == Some(n) && o is Some {
        arrive(before.queue(input_id(windows, j)), windows[j] is Some, o.unwrap())
    } else {
        before.queue(input_id(windows, j))
    }
    &&& forall|j: int| 0 <= j < edges.len() && windows[j] is Some ==> #[trigger] after.row_queues@[j]@ == before.row_queues@[j]@
    &&& forall|j: int| 0 <= j < edges.len() && windows[j] is None ==> #[trigger] after.window_queues@[j]@ == before.window_queues@[j]@
}

/// A queue after row `o` arrived: a window queue keeps rows ordered by
/// event time; a row queue appends.
pub open spec fn arrive(q: Seq<RowView>, windowed: bool, o: RowView) -> Seq<RowView> {
    if windowed { time_insert(q, o) } else { q.push(o) }
}

impl Engine {
    pub open spec fn edges(&self) -> Seq<TaskEdge> {
        self.scheduler.graph.edges@
    }

    pub open spec fn wf(&self) -> bool {
        let m = self.edges().len();
        &&& self.pipeline.wf()
        &&& self.scheduler.wf()
        &&& self.scheduler.graph.n_streams == self.pipeline.streams@.len()
        &&& m == self.pipeline.readers@.len() + self.pipeline.pumps@.len() + self.pipeline.writers@.len()
        &&& self.tasks@.len() == m
        &&& self.repos.row_queues@.len() == m
        &&& self.repos.window_queues@.len() == m
        &&& self.sink_queues@.len() == m
        &&& self.windows@.len() == m
        &&& self.repos.wf()
        &&& forall|j: int| 0 <= j < m ==> (#[trigger] self.sink_queues@[j]).wf()
        &&& forall|j: int| 0 <= j < m ==> (#[trigger] self.windows@[j] matches Some(w) ==> w.wf())
        &&& forall|j: int| 0 <= j < m ==> if #[trigger] self.windows@[j] is Some {
            time_ordered(self.repos.window_queues@[j]@)
        } else {
            self.repos.window_queues@[j]@.len() == 0
        }
        &&& forall|j: int| 0 <= j < m ==> (#[trigger] self.tasks@[j] matches Task::Pump(p) ==> p.pump < self.pipeline.pumps@.len())
    }

    /// An engine with an empty pipeline; every queue holds at most `queue_capacity` rows.
    pub fn new(queue_capacity: usize) -> (r: Engine)
        ensures
            r.wf(),
            r.pipeline.version.version == 0,
            r.pipeline.streams@.len() == 0,
            r.pipeline.pumps@.len() == 0,
            r.pipeline.readers@.len() == 0,
            r.pipeline.writers@.len() == 0,
            r.edges().len() == 0,
            r.queue_capacity == queue_capacity,
    {
        Engine {
            pipeline: Pipeline::new(),
            scheduler: FlowEfficientScheduler::new(),
            tasks: Vec::new(),
            repos: Repositories { row_queues: Vec::new(), window_queues: Vec::new() },
            sink_queues: Vec::new(),
            windows: Vec::new(),
            queue_capacity,
        }
    }

    fn input_of(&self, j: usize) -> (r: QueueId)
        requires
            self.wf(),
            j < self.edges().len(),
        ensures
            r == input_id(self.windows@, j as int),
    {
        if self.windows[j].is_some() { QueueId::Window(j) } else { QueueId::Row(j) }
    }

    fn is_full(&self, id: QueueId) -> (r: bool)
        requires
            self.repos.has(id),
        ensures
            r == !self.repos.room(id),
    {
        match id {
            QueueId::Row(i) => self.repos.row_queues[i].is_full(),
            QueueId::Window(i) => self.repos.window_queues[i].is_full(),
        }
    }

    pub open spec fn has_room_spec(&self, n: usize) -> bool {
        room_for(self.repos, self.edges(), self.windows@, n)
    }

    /// Whether every task that reads stream `n` has room for one more row.
    pub fn has_room(&self, n: usize) -> (r: bool)
        requires
            self.wf(),
        ensures
            r == self.has_room_spec(n),
    {
        let m = self.scheduler.graph.edges.len();
        let mut j: usize = 0;
        while j < m
            invariant
                self.wf(),
                m == self.edges().len(),
                0 <= j <= m,
                forall|x: int| 0 <= x < j && (#[trigger] self.edges()[x]).upstream == Some(n)
                    ==> self.repos.room(input_id(self.windows@, x)),
            decreases m - j,
        {
            if self.scheduler.graph.edges[j].upstream == Some(n) {
                let id = self.input_of(j);
                if self.is_full(id) {
                    return false;
                }
            }
            j = j + 1;
        }
        true
    }

    /// Hands a row to every task that reads stream `n`.
    pub fn forward(&mut self, n: usize, row: &Row)
        requires
            old(self).wf(),
            old(self).has_room_spec(n),
        ensures
            final(self).wf(),
            final(self).pipeline == old(self).pipeline,
            final(self).scheduler == old(self).scheduler,
            final(self).windows == old(self).windows,
            final(self).sink_queues == old(self).sink_queues,
            final(self).tasks == old(self).tasks,
            forwarded(old(self).repos, final(self).repos, old(self).edges(), old(self).windows@, n, Some(row@)),
    {
        let m = self.scheduler.graph.edges.len();
        let ghost before = self.repos;
        let ghost edges = self.edges();
        let ghost ws = self.windows@;
        let mut j: usize = 0;
        while j < m
            invariant
                self.wf(),
                m == edges.len(),
                edges == self.edges(),
                ws == self.windows@,
                self.pipeline == old(self).pipeline,
                self.scheduler == old(self).scheduler,
                self.windows == old(self).windows,
                self.sink_queues == old(self).sink_queues,
                self.tasks == old(self).tasks,
                0 <= j <= m,
                before == old(self).repos,
                old(self).has_room_spec(n),
                self.repos.row_queues@.len() == m,
                self.repos.window_queues@.len() == m,
                forall|x: int| 0 <= x < m ==> self.repos.row_queues@[x].capacity == before.row_queues@[x].capacity
                    && self.repos.window_queues@[x].capacity == before.window_queues@[x].capacity,
                forall|x: int| 0 <= x < j ==> #[trigger] self.repos.queue(input_id(ws, x)) == if edges[x].upstream == Some(n) {
                    arrive(before.queue(input_id(ws, x)), ws[x] is Some, row@)
                } else {
                    before.queue(input_id(ws, x))
                },
                forall|x: int| j <= x < m ==> #[trigger] self.repos.queue(input_id(ws, x)) == before.queue(input_id(ws, x)),
                forall|x: int| 0 <= x < m && ws[x] is Some ==> #[trigger] self.repos.row_queues@[x]@ == before.row_queues@[x]@,
                forall|x: int| 0 <= x < m && ws[x] is None ==> #[trigger] self.repos.window_queues@[x]@ == before.window_queues@[x]@,
            decreases m - j,
        {
            let ghost cur = self.repos;
            if self.scheduler.graph.edges[j].upstream == Some(n) {
                let copy = row.copy_row();
                let ghost rq = self.repos.row_queues@;
                let ghost wq = self.repos.window_queues@;
                assert(self.repos.queue(input_id(ws, j as int)) == before.queue(input_id(ws, j as int)));
                if self.windows[j].is_some() {
                    assert(self.repos.window_queues@[j as int].wf());
                    assert(time_ordered(self.repos.window_queues@[j as int]@));
                    let _ = self.repos.window_queues[j].insert_by_time(copy);
                    proof {
                        assert forall|x: int| 0 <= x < m && x != j implies #[trigger] self.repos.window_queues@[x] == wq[x] by {}
                    }
                } else {
                    assert(self.repos.row_queues@[j as int].wf());
                    let _ = self.repos.row_queues[j].push(copy);
                    proof {
                        assert forall|x: int| 0 <= x < m && x != j implies #[trigger] self.repos.row_queues@[x] == rq[x] by {}
                    }
                }
                proof {
                    assert forall|x: int| 0 <= x < m implies (#[trigger] self.repos.row_queues@[x]).wf() by {
                        if x != j { assert(self.repos.row_queues@[x] == rq[x]); }
                    }
                    assert forall|x: int| 0 <= x < m implies (#[trigger] self.repos.window_queues@[x]).wf() by {
                        if x != j { assert(self.repos.window_queues@[x] == wq[x]); }
                    }
                    assert forall|x: int| 0 <= x < m && x != j implies #[trigger] self.repos.queue(input_id(ws, x))
                        == cur.queue(input_id(ws, x)) by {
                        assert(self.repos.window_queues@[x] == wq[x]);
                        assert(self.repos.row_queues@[x] == rq[x]);
                    }
                    assert(self.repos.queue(input_id(ws, j as int)) == arrive(before.queue(input_id(ws, j as int)), ws[j as int] is Some, row@));
                    assert forall|x: int| 0 <= x < m implies if #[trigger] self.windows@[x] is Some {
                        time_ordered(self.repos.window_queues@[x]@)
                    } else {
                        self.repos.window_queues@[x]@.len() == 0
                    } by {
                        if x != j { assert(self.repos.window_queues@[x] == wq[x]); }
                    }
                }
            }
            j = j + 1;
        }
    }

    /// Takes the oldest row of task `k`'s input queue.
    fn collect(&mut self, k: usize) -> (r: Option<Row>)
        requires
            old(self).wf(),
            k < old(self).edges().len(),
        ensures
            final(self).wf(),
            final(self).pipeline == old(self).pipeline,
            final(self).scheduler == old(self).scheduler,
            final(self).windows == old(self).windows,
            final(self).sink_queues == old(self).sink_queues,
            final(self).tasks == old(self).tasks,
            exists|m| collected(old(self).repos, final(self).repos, input_id(old(self).windows@, k as int), input_watermark(*old(self), k as int), m)
                && (m matches Some((row, _)) ==> r == Some(row)) && (m is None ==> r is None),
    {
        let id = self.input_of(k);
        let c = CollectSubtask;
        let ghost before = self.repos;
        let mlen = self.scheduler.graph.edges.len();
        let wm: i64 = match &self.windows[k] {
            Some(w) => {
                assert(w.wf());
                w.watermark.as_nanos()
            },
            None => 0,
        };
        assert(wm == input_watermark(*old(self), k as int));
        let res = c.run(Some(id), &mut self.repos, wm);
        assert(collected(old(self).repos, self.repos, input_id(old(self).windows@, k as int), input_watermark(*old(self), k as int), res));
        proof {
            let m = mlen as int;
            assert forall|x: int| 0 <= x < m implies if #[trigger] self.windows@[x] is Some {
                time_ordered(self.repos.window_queues@[x]@)
            } else {
                self.repos.window_queues@[x]@.len() == 0
            } by {
                let q = QueueId::Window(x as usize);
                assert((x as usize) as int == x);
                assert(before.has(q));
                assert(before.queue(q) == before.window_queues@[x]@);
                if q != id {
                    assert(self.repos.queue(q) == before.queue(q));
                } else {
                    let o = before.queue(q);
                    let dd = self.repos.queue(q);
                    let lo = o.len() - dd.len();
                    assert(dd =~= o.subrange(lo, o.len() as int));
                    assert forall|a: int, b: int| 0 <= a < b < dd.len() implies
                        crate::row::event_time(#[trigger] dd[a]).nanos <= crate::row::event_time(#[trigger] dd[b]).nanos by {
                        assert(dd[a] == o[a + lo] && dd[b] == o[b + lo]);
                    }
                }
            }
        }
        match res {
            Some((row, _)) => Some(row),
            None => None,
        }
    }

    /// Runs one step of task `k`: it takes at most one row from its input
    /// and, while every reader downstream has room, passes on what it makes
    /// of it. `Ok(true)` when a row was taken. A task whose readers are full
    /// does nothing and returns `Ok(false)` (back-pressure).
    pub fn run_task(&mut self, k: usize) -> (r: Result<bool, SpringError>)
        requires
            old(self).wf(),
            k < old(self).edges().len(),
        ensures
            final(self).wf(),
            final(self).pipeline == old(self).pipeline,
            final(self).scheduler == old(self).scheduler,
            ran_task(*old(self), *final(self), k as int, r),
    {
        let m = self.scheduler.graph.edges.len();
        let downstream = self.scheduler.graph.edges[k].downstream;
        proof {
            assert(self.scheduler.graph.wf());
        }
        match &self.tasks[k] {
            Task::Sink(_) => {
                if self.sink_queues[k].is_full() {
                    return Ok(false);
                }
                let ghost before = self.repos;
                let row = self.collect(k);
                match row {
                    None => Ok(false),
                    Some(row) => {
                        proof {
                            let m0 = choose|m| collected(before, self.repos, input_id(self.windows@, k as int), input_watermark(*self, k as int), m)
                                && (m matches Some((r0, _)) ==> Some(row) == Some(r0)) && (m is None ==> Some(row) is None);
                            assert(before.has(input_id(self.windows@, k as int)));
                        }
                        let ghost sq = self.sink_queues@;
                        assert(self.sink_queues@[k as int].wf());
                        let _ = self.sink_queues[k].push(row);
                        proof {
                            assert forall|j: int| 0 <= j < m implies (#[trigger] self.sink_queues@[j]).wf() by {
                                if j != k { assert(self.sink_queues@[j] == sq[j]); }
                            }
                        }
                        Ok(true)
                    },
                }
            },
            Task::Source(_) => {
                let n = match downstream {
                    Some(n) => n,
                    None => { return Ok(false); },
                };
                if !self.has_room(n) {
                    return Ok(false);
                }
                let ghost before = self.repos;
                let row = self.collect(k);
                match row {
                    None => Ok(false),
                    Some(row) => {
                        proof {
                            let m = choose|m| collected(before, self.repos, input_id(self.windows@, k as int), input_watermark(*self, k as int), m)
                                && (m matches Some((r0, _)) ==> Some(row) == Some(r0));
                            lemma_room_kept(before, self.repos, self.edges(), self.windows@, n, input_id(self.windows@, k as int), input_watermark(*self, k as int), m);
                        }
                        self.forward(n, &row);
                        Ok(true)
                    },
                }
            },
            Task::Pump(p) => {
                let pi = p.pump;
                let n = match downstream {
                    Some(n) => n,
                    None => { return Ok(false); },
                };
                if !self.has_room(n) {
                    return Ok(false);
                }
                let ghost before = self.repos;
                let row = match self.collect(k) {
                    None => { return Ok(false); },
                    Some(row) => row,
                };
                let ghost mid = self.repos;
                proof {
                    let m = choose|m| collected(before, self.repos, input_id(self.windows@, k as int), input_watermark(*self, k as int), m)
                        && (m matches Some((r0, _)) ==> Some(row) == Some(r0)) && (m is None ==> Some(row) is None);
                    lemma_room_kept(before, self.repos, self.edges(), self.windows@, n, input_id(self.windows@, k as int), input_watermark(*self, k as int), m);
                    if self.windows@[k as int] is None && before.row_queues@[k as int]@.len() > 0 {
                        assert(before.queue(QueueId::Row(k)).len() > 0);
                        assert(m == Some((row, InQueueMetricsUpdateByCollect::Row { queue_id: k, rows_used: 1, bytes_used: crate::row::row_bytes(row@) })));
                        assert(collected(before, mid, QueueId::Row(k), input_watermark(*self, k as int), Some((row, InQueueMetricsUpdateByCollect::Row { queue_id: k, rows_used: 1, bytes_used: crate::row::row_bytes(row@) }))));
                    }
                }
                match &self.pipeline.pumps[pi].query {
                    PumpQuery::Project { projection, filter } => {
                        let out = match project(&row.columns.values, projection, filter) {
                            Ok(out) => out,
                            Err(e) => {
                                proof {
                                    let ghost old_e = *old(self);
                                    if old_e.windows@[k as int] is None && old_e.has_room_spec(n) && old_e.repos.row_queues@[k as int]@.len() > 0 {
                                        assert(collected(old_e.repos, mid, QueueId::Row(k), input_watermark(old_e, k as int), Some((row, InQueueMetricsUpdateByCollect::Row { queue_id: k, rows_used: 1, bytes_used: crate::row::row_bytes(row@) }))));
                                        assert(project_spec(row@.2, projection@, *filter) is Err);
                                    }
                                    assert(ran_task(*old(self), *self, k as int, Err(e)));
                                }
                                return Err(e);
                            },
                        };
                        match out {
                            None => {
                                proof {
                                    assert(forwarded(self.repos, self.repos, self.edges(), self.windows@, n, None));
                                }
                                Ok(true)
                            },
                            Some(values) => {
                                let shape = self.pipeline.streams[n].0.shape.copy_value();
                                let out_row = output_row(shape, values, &row);
                                self.forward(n, &out_row);
                                Ok(true)
                            },
                        }
                    },
                    PumpQuery::Window(op) => {
                        proof {
                            let m = choose|m| collected(before, mid, input_id(self.windows@, k as int), input_watermark(*self, k as int), m)
                                && (m matches Some((r0, _)) ==> Some(row) == Some(r0)) && (m is None ==> Some(row) is None);
                            if self.windows@[k as int] is Some {
                                assert(collected(before, mid, QueueId::Window(k), input_watermark(*self, k as int), m));
                            }
                        }
                        let ghost st = *self;
                        let r = self.run_window(k, n, &row, op.group_by, op.aggregated);
                        proof {
                            if r is Ok {
                                let outs = choose|outs: Seq<WindowOutput>| #[trigger] window_emitted(st, st.repos, *self, k as int, n, row@,
                                    op.group_by, op.aggregated, outs);
                                assert(st.windows == old(self).windows && st.pipeline == old(self).pipeline
                                    && st.scheduler == old(self).scheduler && st.repos == mid);
                                assert(window_emitted(*old(self), mid, *self, k as int, n, row@, op.group_by, op.aggregated, outs));
                            }
                        }
                        r
                    },
                }
            },
        }
    }

    /// Hands a row to task `k`'s window and passes on one row per group of
    /// every pane that closes: `(close_at, group key, aggregate)`.
    fn run_window(&mut self, k: usize, n: usize, row: &Row, group_by: usize, aggregated: usize) -> (r: Result<bool, SpringError>)
        requires
            old(self).wf(),
            k < old(self).edges().len(),
        ensures
            final(self).wf(),
            final(self).pipeline == old(self).pipeline,
            final(self).scheduler == old(self).scheduler,
            windowed_step(old(self).windows@[k as int], final(self).windows@[k as int], row@, group_by, aggregated, r),
            r is Ok ==> exists|outs: Seq<WindowOutput>| #[trigger] window_emitted(
                *old(self), old(self).repos, *final(self), k as int, n, row@, group_by, aggregated, outs),
    {
        let ghost start = self.repos;
        if group_by >= row.columns.values.len() || aggregated >= row.columns.values.len() {
            return Err(SpringError::Unavailable);
        }
        let key = row.columns.values[group_by].copy_value();
        let value = row.columns.values[aggregated].copy_value();
        let ok_value = match &value {
            SqlValue::Null => true,
            SqlValue::NotNull(nn) => nn.as_i64().is_some(),
        };
        if !ok_value {
            return Err(SpringError::Sql);
        }
        let rowtime = row.rowtime();
        if rowtime.nanos < crate::time::MIN_TIMESTAMP_NANOS || rowtime.nanos > crate::time::MAX_TIMESTAMP_NANOS {
            return Err(SpringError::InvalidFormat);
        }
        let res = self.dispatch_window(k, rowtime, &key, &value);
        let ghost after_dispatch = self.windows@[k as int];
        let outputs = match res {
            Err(e) => { return Err(e); },
            Ok(WindowDispatch::Dropped) => {
                proof {
                    assert(forwarded_all(start, self.repos, self.edges(), self.windows@, n, Seq::empty()));
                    assert(self.repos == start);
                    assert(window_rows(Seq::<WindowOutput>::empty(), self.pipeline.streams@[n as int].0.shape, row@.3) =~= Seq::empty());
                    assert(window_emitted(*old(self), old(self).repos, *self, k as int, n, row@, group_by, aggregated, Seq::<WindowOutput>::empty()));
                }
                return Ok(true);
            },
            Ok(WindowDispatch::Admitted(outputs)) => outputs,
        };
        let ghost shape_n = self.pipeline.streams@[n as int].0.shape;
        let ghost wsd = self.windows@;
        proof {
            assert(forwarded_all(start, self.repos, old(self).edges(), wsd, n, Seq::empty()));
        }
        proof {
            assert(outputs@.subrange(0, 0) =~= Seq::<WindowOutput>::empty());
            assert(window_rows(Seq::<WindowOutput>::empty(), shape_n, row@.3) =~= Seq::empty());
        }
        proof {
            assert(windowed_step(old(self).windows@[k as int], after_dispatch, row@, group_by, aggregated, Err(SpringError::Unavailable)));
            assert(windowed_step(old(self).windows@[k as int], after_dispatch, row@, group_by, aggregated, Ok(true)));
        }
        let mut i: usize = 0;
        while i < outputs.len()
            invariant
                self.wf(),
                self.pipeline == old(self).pipeline,
                self.scheduler == old(self).scheduler,
                self.windows@.len() == old(self).windows@.len(),
                self.windows@[k as int] == after_dispatch,
                k < self.windows@.len(),
                windowed_step(old(self).windows@[k as int], after_dispatch, row@, group_by, aggregated, Err(SpringError::Unavailable)),
                windowed_step(old(self).windows@[k as int], after_dispatch, row@, group_by, aggregated, Ok(true)),
                0 <= i <= outputs@.len(),
                shape_n == self.pipeline.streams@[n as int].0.shape,
                wsd == self.windows@,
                forwarded_all(start, self.repos, old(self).edges(), wsd, n,
                    window_rows(outputs@.subrange(0, i as int), shape_n, row@.3)),
            decreases outputs@.len() - i,
        {
            let out = &outputs[i];
            let ghost prefix = window_rows(outputs@.subrange(0, i as int), shape_n, row@.3);
            let mut g: usize = 0;
            while g < out.groups.len()
                invariant
                    self.wf(),
                    self.pipeline == old(self).pipeline,
                    self.scheduler == old(self).scheduler,
                    self.windows@.len() == old(self).windows@.len(),
                    self.windows@[k as int] == after_dispatch,
                    k < self.windows@.len(),
                    windowed_step(old(self).windows@[k as int], after_dispatch, row@, group_by, aggregated, Err(SpringError::Unavailable)),
                    0 <= g <= out.groups@.len(),
                    *out == outputs@[i as int],
                    i < outputs@.len(),
                    shape_n == self.pipeline.streams@[n as int].0.shape,
                    prefix == window_rows(outputs@.subrange(0, i as int), shape_n, row@.3),
                    wsd == self.windows@,
                    forwarded_all(start, self.repos, old(self).edges(), wsd, n,
                        prefix + pane_rows(*out, shape_n, row@.3).subrange(0, g as int)),
                decreases out.groups@.len() - g,
            {
                if n >= self.pipeline.streams.len() || !self.has_room(n) {
                    return Err(SpringError::Unavailable);
                }
                let shape = self.pipeline.streams[n].0.shape.copy_value();
                let values = vec![
                    SqlValue::NotNull(NnSqlValue::Timestamp(crate::time::Timestamp { nanos: out.close_at })),
                    out.groups[g].0.copy_value(),
                    out.groups[g].1.copy_value(),
                ];
                let out_row = Row::new(StreamColumns { shape, values }, row.arrival_rowtime);
                let ghost mid_repos = self.repos;
                self.forward(n, &out_row);
                proof {
                    let pr = pane_rows(*out, shape_n, row@.3);
                    assert(out_row@ == pr[g as int]);
                    assert(pr.subrange(0, g + 1) =~= pr.subrange(0, g as int).push(pr[g as int]));
                    assert(prefix + pr.subrange(0, g + 1) =~= (prefix + pr.subrange(0, g as int)).push(out_row@));
                    lemma_forwarded_all_push(start, mid_repos, self.repos, old(self).edges(), wsd, n,
                        prefix + pr.subrange(0, g as int), out_row@);
                }
                g = g + 1;
            }
            proof {
                let pr = pane_rows(*out, shape_n, row@.3);
                assert(pr.subrange(0, pr.len() as int) =~= pr);
                let s1 = outputs@.subrange(0, i + 1);
                assert(s1.drop_last() =~= outputs@.subrange(0, i as int));
                assert(s1.last() == outputs@[i as int]);
            }
            i = i + 1;
        }
        proof {
            assert(outputs@.subrange(0, outputs@.len() as int) =~= outputs@);
            assert(window_emitted(*old(self), old(self).repos, *self, k as int, n, row@, group_by, aggregated, outputs@));
        }
        Ok(true)
    }

    /// Applies a command to the pipeline and swaps in the new graph: queues
    /// and windows of tasks that persist (same id) are kept with their
    /// contents, those of vanished tasks are dropped, new tasks start empty.
    pub fn alter_pipeline(&mut self, cmd: AlterPipelineCommand) -> (r: Result<(), SpringError>)
        requires
            old(self).wf(),
        ensures
            final(self).wf(),
            r is Ok <==> command_valid(old(self).pipeline, cmd) && options_ok(cmd) && old(self).pipeline.version.version < u64::MAX,
            r is Ok ==> final(self).pipeline.version.version == old(self).pipeline.version.version + 1,
            r is Err ==> final(self).pipeline.version == old(self).pipeline.version,
            r is Err ==> final(self).pipeline.streams@ == old(self).pipeline.streams@
                && final(self).pipeline.pumps@ == old(self).pipeline.pumps@
                && final(self).pipeline.readers@ == old(self).pipeline.readers@
                && final(self).pipeline.writers@ == old(self).pipeline.writers@
                && final(self).scheduler == old(self).scheduler && final(self).tasks == old(self).tasks
                && final(self).repos == old(self).repos && final(self).sink_queues == old(self).sink_queues
                && final(self).windows == old(self).windows,
            r matches Err(e) ==> e == SpringError::Sql || e == SpringError::InvalidOption || e == SpringError::Unavailable,
            r matches Err(e) ==> (e == SpringError::Sql <==> !command_valid(old(self).pipeline, cmd)),
            r matches Err(e) ==> (e == SpringError::InvalidOption <==> command_valid(old(self).pipeline, cmd) && !options_ok(cmd)),
            r is Ok ==> pipeline_added(old(self).pipeline, final(self).pipeline, cmd),
            r is Ok ==> forall|x: int| 0 <= x < final(self).edges().len() && #[trigger] new_task(old(self).tasks@, final(self).edges(), x)
                ==> starts_empty(*final(self), x),
            r is Ok ==> forall|x: int, j: int| 0 <= x < final(self).edges().len() && 0 <= j < old(self).tasks@.len()
                ==> #[trigger] keeps_window(old(self).tasks@, old(self).windows@, final(self).edges(), final(self).windows@, x, j),
            r is Ok ==> forall|x: int, j: int| 0 <= x < final(self).edges().len() && 0 <= j < old(self).tasks@.len()
                ==> #[trigger] keeps_queues(old(self).tasks@, old(self).repos.row_queues@, old(self).repos.window_queues@,
                    old(self).sink_queues@, final(self).edges(), final(self).repos.row_queues@,
                    final(self).repos.window_queues@, final(self).sink_queues@, final(self).windows@, x, j),
    {
        let ghost before = self.pipeline.version;
        match self.pipeline.apply(cmd) {
            Ok(()) => {},
            Err(e) => {
                proof {
                    assert(self.edges().len() == self.pipeline.readers@.len() + self.pipeline.pumps@.len() + self.pipeline.writers@.len());
                }
                return Err(e);
            },
        }
        let ghost (t0, w0) = (self.tasks@, self.windows@);
        let ghost p0 = self.pipeline;
        let ghost (r0, q0, s0) = (self.repos.row_queues@, self.repos.window_queues@, self.sink_queues@);
        assert(t0 == old(self).tasks@ && w0 == old(self).windows@);
        self.rebuild();
        assert forall|x: int, j: int| 0 <= x < self.edges().len() && 0 <= j < old(self).tasks@.len()
            implies #[trigger] keeps_queues(old(self).tasks@, old(self).repos.row_queues@, old(self).repos.window_queues@,
                old(self).sink_queues@, self.edges(), self.repos.row_queues@, self.repos.window_queues@, self.sink_queues@, self.windows@, x, j) by {
            assert(keeps_queues(t0, r0, q0, s0, self.edges(), self.repos.row_queues@, self.repos.window_queues@, self.sink_queues@, self.windows@, x, j));
        }
        assert forall|x: int, j: int| 0 <= x < self.edges().len() && 0 <= j < old(self).tasks@.len()
            implies #[trigger] keeps_window(old(self).tasks@, old(self).windows@, self.edges(), self.windows@, x, j) by {
            assert(keeps_window(t0, w0, self.edges(), self.windows@, x, j));
        }
        Ok(())
    }

    /// Rebuilds the graph, schedule, tasks, queues and windows from the pipeline.
    fn rebuild(&mut self)
        requires
            old(self).pipeline.wf(),
            old(self).repos.wf(),
            forall|j: int| 0 <= j < old(self).sink_queues@.len() ==> (#[trigger] old(self).sink_queues@[j]).wf(),
            forall|j: int| 0 <= j < old(self).windows@.len() ==> (#[trigger] old(self).windows@[j] matches Some(w) ==> w.wf()),
            forall|j: int| 0 <= j < old(self).windows@.len() ==> if #[trigger] old(self).windows@[j] is Some {
                time_ordered(old(self).repos.window_queues@[j]@)
            } else {
                old(self).repos.window_queues@[j]@.len() == 0
            },
            old(self).tasks@.len() == old(self).repos.row_queues@.len(),
            old(self).tasks@.len() == old(self).repos.window_queues@.len(),
            old(self).tasks@.len() == old(self).sink_queues@.len(),
            old(self).tasks@.len() == old(self).windows@.len(),
        ensures
            final(self).wf(),
            final(self).pipeline == old(self).pipeline,
            forall|x: int, j: int| 0 <= x < final(self).edges().len() && 0 <= j < old(self).tasks@.len()
                ==> #[trigger] keeps_window(old(self).tasks@, old(self).windows@, final(self).edges(), final(self).windows@, x, j),
            forall|x: int, j: int| 0 <= x < final(self).edges().len() && 0 <= j < old(self).tasks@.len()
                ==> #[trigger] keeps_queues(old(self).tasks@, old(self).repos.row_queues@, old(self).repos.window_queues@,
                    old(self).sink_queues@, final(self).edges(), final(self).repos.row_queues@,
                    final(self).repos.window_queues@, final(self).sink_queues@, final(self).windows@, x, j),
            forall|x: int| 0 <= x < final(self).edges().len() && #[trigger] new_task(old(self).tasks@, final(self).edges(), x)
                ==> starts_empty(*final(self), x),
    {
        let ghost d0 = self.windows@;
        let ghost (a0, b0, c0) = (self.repos.row_queues@, self.repos.window_queues@, self.sink_queues@);
        let mut scheduler = FlowEfficientScheduler::new();
        scheduler.update_pipeline(&self.pipeline);
        let n_readers = self.pipeline.readers.len();
        let n_pumps = self.pipeline.pumps.len();
        let m = scheduler.graph.edges.len();
        let old_n = self.tasks.len();
        let cap = self.queue_capacity;
        let mut old_rq: Vec<RowQueue> = Vec::new();
        let mut old_wq: Vec<RowQueue> = Vec::new();
        let mut old_sq: Vec<RowQueue> = Vec::new();
        let mut old_ws: Vec<Option<Window>> = Vec::new();
        std::mem::swap(&mut old_rq, &mut self.repos.row_queues);
        std::mem::swap(&mut old_wq, &mut self.repos.window_queues);
        std::mem::swap(&mut old_sq, &mut self.sink_queues);
        std::mem::swap(&mut old_ws, &mut self.windows);
        let mut tasks: Vec<Task> = Vec::new();
        let mut rq: Vec<RowQueue> = Vec::new();
        let mut wq: Vec<RowQueue> = Vec::new();
        let mut sq: Vec<RowQueue> = Vec::new();
        let mut ws: Vec<Option<Window>> = Vec::new();
        let mut k: usize = 0;
        while k < m
            invariant
                scheduler.wf(),
                m == scheduler.graph.edges@.len(),
                m == n_readers + n_pumps + self.pipeline.writers@.len(),
                n_readers == self.pipeline.readers@.len(),
                n_pumps == self.pipeline.pumps@.len(),
                self.pipeline.wf(),
                self.pipeline == old(self).pipeline,
                old_n == self.tasks@.len(),
                old_rq@.len() == old_n,
                old_wq@.len() == old_n,
                old_sq@.len() == old_n,
                old_ws@.len() == old_n,
                forall|j: int| 0 <= j < old_n ==> (#[trigger] old_rq@[j]).wf(),
                forall|j: int| 0 <= j < old_n ==> (#[trigger] old_wq@[j]).wf(),
                forall|j: int| 0 <= j < old_n ==> (#[trigger] old_sq@[j]).wf(),
                forall|j: int| 0 <= j < old_n ==> (#[trigger] old_ws@[j] matches Some(w) ==> w.wf()),
                0 <= k <= m,
                tasks@.len() == k,
                rq@.len() == k,
                wq@.len() == k,
                sq@.len() == k,
                ws@.len() == k,
                forall|j: int| 0 <= j < k ==> (#[trigger] rq@[j]).wf(),
                forall|j: int| 0 <= j < k ==> (#[trigger] wq@[j]).wf(),
                forall|j: int| 0 <= j < k ==> (#[trigger] sq@[j]).wf(),
                forall|j: int| 0 <= j < k ==> (#[trigger] ws@[j] matches Some(w) ==> w.wf()),
                forall|j: int| 0 <= j < k ==> (#[trigger] tasks@[j] matches Task::Pump(p) ==> p.pump < n_pumps),
                self.tasks == old(self).tasks,
                d0 == old(self).windows@,
                forall|j: int| 0 <= j < old_n ==> (#[trigger] old_ws@[j]) == d0[j] || (old_ws@[j] is None
                    && exists|y: int| 0 <= y < k && (#[trigger] scheduler.graph.edges@[y]).id.name@ == self.tasks@[j].id_spec().name@),
                forall|x: int, j: int| 0 <= x < k && 0 <= j < old_n
                    ==> #[trigger] keeps_window(self.tasks@, d0, scheduler.graph.edges@, ws@, x, j),
                a0 == old(self).repos.row_queues@,
                b0 == old(self).repos.window_queues@,
                c0 == old(self).sink_queues@,
                a0.len() == old_n && b0.len() == old_n && c0.len() == old_n,
                old_rq@ == a0 && old_wq@ == b0 && old_sq@ == c0,
                forall|x: int, j: int| 0 <= x < k && 0 <= j < old_n
                    ==> #[trigger] keeps_queues(self.tasks@, a0, b0, c0, scheduler.graph.edges@, rq@, wq@, sq@, ws@, x, j),
                forall|x: int| 0 <= x < k ==> if #[trigger] ws@[x] is Some { time_ordered(wq@[x]@) } else { wq@[x]@.len() == 0 },
                forall|x: int| 0 <= x < k && #[trigger] new_task(self.tasks@, scheduler.graph.edges@, x) ==> rq@[x]@.len() == 0
                    && wq@[x]@.len() == 0 && sq@[x]@.len() == 0 && rq@[x].dropped == 0 && wq@[x].dropped == 0,
                forall|j: int| 0 <= j < old_n ==> if #[trigger] d0[j] is Some { time_ordered(b0[j]@) } else { b0[j]@.len() == 0 },
            decreases m - k,
        {
            let edge = &scheduler.graph.edges[k];
            let j = find_task(&self.tasks, &edge.id);
            // Tasks come in graph order: readers, then pumps, then writers.
            let pump_index: Option<usize> = if n_readers <= k && k - n_readers < n_pumps { Some(k - n_readers) } else { None };
            let wanted: Option<(crate::window::panes::WindowParameter, crate::window::pane::AggregateFunction)> = match pump_index {
                Some(pi) => match &self.pipeline.pumps[pi].query {
                    PumpQuery::Window(op) => Some((op.window, op.function)),
                    PumpQuery::Project { .. } => None,
                },
                None => None,
            };
            proof {
                if let Some(pi) = pump_index {
                    assert(crate::pipeline::pump_query_ok(self.pipeline.pumps@[pi as int].query));
                }
            }
            let mut r_q = RowQueue::new(cap);
            let mut w_q = RowQueue::new(cap);
            let mut s_q = RowQueue::new(cap);
            let mut win: Option<Window> = None;
            let ghost old_ws_before_take = old_ws@;
            if j < old_n {
                assert(old_rq@[j as int].wf() && old_wq@[j as int].wf() && old_sq@[j as int].wf()
                    && (old_ws@[j as int] matches Some(w) ==> w.wf()));
                let ghost d = old_ws@;
                r_q = old_rq[j].copy_queue();
                if wanted.is_some() {
                    w_q = old_wq[j].copy_queue();
                }
                s_q = old_sq[j].copy_queue();
                win = old_ws.remove(j);
                old_ws.insert(j, None);
                proof {
                    assert(old_ws@ == d.update(j as int, None));
                    assert forall|x: int| 0 <= x < old_n implies (#[trigger] old_ws@[x] matches Some(w) ==> w.wf()) by {
                        if x != j { assert(old_ws@[x] == d[x]); }
                    }
                    assert forall|x: int| 0 <= x < old_n implies (#[trigger] old_ws@[x]) == d0[x] || (old_ws@[x] is None
                        && exists|y: int| 0 <= y < k + 1 && (#[trigger] scheduler.graph.edges@[y]).id.name@ == self.tasks@[x].id_spec().name@) by {
                        if x != j {
                            assert(old_ws@[x] == d[x]);
                            if !(d[x] == d0[x]) {
                                let y = choose|y: int| 0 <= y < k && (#[trigger] scheduler.graph.edges@[y]).id.name@ == self.tasks@[x].id_spec().name@;
                                assert(0 <= y < k + 1);
                            }
                        } else {
                            assert(scheduler.graph.edges@[k as int].id.name@ == self.tasks@[x].id_spec().name@);
                        }
                    }
                }
            }
            assert(r_q.wf() && w_q.wf() && s_q.wf() && (win matches Some(w) ==> w.wf()));
            let ghost taken = win;
            let win = match wanted {
                None => None,
                Some((param, function)) => match win {
                    Some(w) => if w.panes.window_param == param && w.panes.function == function {
                        Some(w)
                    } else {
                        Some(Window::new(param, function))
                    },
                    None => Some(Window::new(param, function)),
                },
            };
            let id = edge.id.copy_id();
            let task = if k < n_readers {
                Task::Source(SourceTask { id, state: TaskState::Started })
            } else {
                match pump_index {
                    Some(pi) => Task::Pump(PumpTask { id, state: TaskState::Started, pump: pi }),
                    None => Task::Sink(SinkTask { id, state: TaskState::Started }),
                }
            };
            assert(win matches Some(w) ==> w.wf());
            assert(task matches Task::Pump(p) ==> p.pump < n_pumps);
            proof {
                if win is Some {
                    if j < old_n {
                        assert(w_q@ == b0[j as int]@);
                        if d0[j as int] is None {
                            assert(b0[j as int]@.len() == 0);
                        }
                    } else {
                        assert(w_q@.len() == 0);
                    }
                    assert(time_ordered(w_q@));
                } else {
                    assert(w_q@.len() == 0);
                }
            }
            let ghost (rq0, wq0, sq0, ws0, t0) = (rq@, wq@, sq@, ws@, tasks@);
            tasks.push(task);
            rq.push(r_q);
            wq.push(w_q);
            sq.push(s_q);
            ws.push(win);
            proof {
                assert forall|x: int| 0 <= x < k + 1 implies (#[trigger] rq@[x]).wf() by {
                    if x < k { assert(rq@[x] == rq0[x]); }
                }
                assert forall|x: int| 0 <= x < k + 1 implies (#[trigger] wq@[x]).wf() by {
                    if x < k { assert(wq@[x] == wq0[x]); }
                }
                assert forall|x: int| 0 <= x < k + 1 implies (#[trigger] sq@[x]).wf() by {
                    if x < k { assert(sq@[x] == sq0[x]); }
                }
                assert forall|x: int| 0 <= x < k + 1 implies (#[trigger] ws@[x] matches Some(w) ==> w.wf()) by {
                    if x < k { assert(ws@[x] == ws0[x]); }
                }
                assert forall|x: int| 0 <= x < k + 1 implies if #[trigger] ws@[x] is Some { time_ordered(wq@[x]@) } else { wq@[x]@.len() == 0 } by {
                    if x < k { assert(ws@[x] == ws0[x] && wq@[x] == wq0[x]); }
                }
                assert forall|x: int| 0 <= x < k + 1 && #[trigger] new_task(self.tasks@, scheduler.graph.edges@, x) implies rq@[x]@.len() == 0
                    && wq@[x]@.len() == 0 && sq@[x]@.len() == 0 && rq@[x].dropped == 0 && wq@[x].dropped == 0 by {
                    if x < k {
                        assert(rq@[x] == rq0[x] && wq@[x] == wq0[x] && sq@[x] == sq0[x]);
                    } else if j < old_n {
                        assert(self.tasks@[j as int].id_spec().name@ == scheduler.graph.edges@[x].id.name@);
                    }
                }
                assert forall|x: int| 0 <= x < k + 1 implies (#[trigger] tasks@[x] matches Task::Pump(p) ==> p.pump < n_pumps) by {
                    if x < k {
                        assert(tasks@[x] == t0[x]);
                    }
                }
                let edges = scheduler.graph.edges@;
                assert forall|x: int, jj: int| 0 <= x < k + 1 && 0 <= jj < old_n
                    implies #[trigger] keeps_window(self.tasks@, d0, edges, ws@, x, jj) by {
                    if x < k {
                        assert(ws@[x] == ws0[x]);
                        assert(keeps_window(self.tasks@, d0, edges, ws0, x, jj));
                    } else if self.tasks@[jj].id_spec().name@ == edges[x].id.name@
                        && (forall|i: int| 0 <= i < jj ==> (#[trigger] self.tasks@[i]).id_spec().name@ != edges[x].id.name@)
                        && (forall|y: int| 0 <= y < x ==> (#[trigger] edges[y]).id.name@ != edges[x].id.name@) {
                        // jj is the first old task with this id, as is j.
                        if j < jj {
                            assert(self.tasks@[j as int].id_spec().name@ == edges[x].id.name@);
                        }
                        assert(j == jj);
                        // No earlier new task had this id, so its window was not taken yet.
                        assert(old_ws_before_take[jj] == d0[jj]);
                        assert(taken == d0[jj]);
                    }
                }
                assert forall|x: int, jj: int| 0 <= x < k + 1 && 0 <= jj < old_n
                    implies #[trigger] keeps_queues(self.tasks@, a0, b0, c0, edges, rq@, wq@, sq@, ws@, x, jj) by {
                    if x < k {
                        assert(rq@[x] == rq0[x] && wq@[x] == wq0[x] && sq@[x] == sq0[x]);
                        assert(ws@[x] == ws0[x]);
                        assert(keeps_queues(self.tasks@, a0, b0, c0, edges, rq0, wq0, sq0, ws0, x, jj));
                    } else if same_instance(self.tasks@, edges, x, jj) {
                        if j < jj {
                            assert(self.tasks@[j as int].id_spec().name@ == edges[x].id.name@);
                        }
                        assert(j == jj);

                    }
                }
            }
            k = k + 1;
        }
        let mut stopped = tasks;
        std::mem::swap(&mut stopped, &mut self.tasks);
        self.repos.row_queues = rq;
        self.repos.window_queues = wq;
        self.sink_queues = sq;
        self.windows = ws;
        self.scheduler = scheduler;
    }

    /// Position of the source reader whose in-memory queue is `name`.
    pub fn source_queue(&self, name: &String) -> (r: Option<usize>)
        requires
            self.wf(),
        ensures
            r matches Some(i) ==> first_reader(self.pipeline.readers@, name@, i as int),
            r is None ==> forall|i: int| 0 <= i < self.pipeline.readers@.len() ==> (#[trigger] self.pipeline.readers@[i]).queue@ != name@,
    {
        let mut i: usize = 0;
        while i < self.pipeline.readers.len()
            invariant
                0 <= i <= self.pipeline.readers@.len(),
                forall|j: int| 0 <= j < i ==> (#[trigger] self.pipeline.readers@[j]).queue@ != name@,
            decreases self.pipeline.readers@.len() - i,
        {
            if self.pipeline.readers[i].queue == *name {
                return Some(i);
            }
            i = i + 1;
        }
        None
    }

    /// Position of the sink task whose writer's in-memory queue is `name`.
    fn sink_queue(&self, name: &String) -> (r: Option<usize>)
        requires
            self.wf(),
        ensures
            r matches Some(k) ==> k < self.edges().len() && self.pipeline.readers@.len() + self.pipeline.pumps@.len() <= k
                && first_writer(self.pipeline.writers@, name@, k - self.pipeline.readers@.len() - self.pipeline.pumps@.len()),
            r is None ==> forall|i: int| 0 <= i < self.pipeline.writers@.len() ==> (#[trigger] self.pipeline.writers@[i]).queue@ != name@,
    {
        let m = self.scheduler.graph.edges.len();
        let base = self.pipeline.readers.len() + self.pipeline.pumps.len();
        let mut i: usize = 0;
        while i < self.pipeline.writers.len()
            invariant
                0 <= i <= self.pipeline.writers@.len(),
                self.wf(),
                base == self.pipeline.readers@.len() + self.pipeline.pumps@.len(),
                m == self.edges().len(),
                forall|j: int| 0 <= j < i ==> (#[trigger] self.pipeline.writers@[j]).queue@ != name@,
            decreases self.pipeline.writers@.len() - i,
        {
            if self.pipeline.writers[i].queue == *name {
                assert(base + i - self.pipeline.readers@.len() - self.pipeline.pumps@.len() == i);
                return Some(base + i);
            }
            i = i + 1;
        }
        None
    }

    /// Enqueues a row at the in-memory source queue `name`. Fails with
    /// `Unavailable` when there is no such queue or it is full; the queue
    /// then stays as it was.
    pub fn push(&mut self, name: &String, row: Row) -> (r: Result<(), SpringError>)
        requires
            old(self).wf(),
        ensures
            final(self).wf(),
            final(self).pipeline == old(self).pipeline,
            (forall|i: int| 0 <= i < old(self).pipeline.readers@.len() ==> (#[trigger] old(self).pipeline.readers@[i]).queue@ != name@)
                ==> r == Err::<(), SpringError>(SpringError::Unavailable) && final(self).repos == old(self).repos,
            r matches Err(e) ==> e == SpringError::Unavailable,
            forall|i: int| #[trigger] first_reader(old(self).pipeline.readers@, name@, i) ==> {
                &&& (r is Ok <==> old(self).repos.room(input_id(old(self).windows@, i)))
                &&& r is Ok ==> final(self).repos.queue(input_id(old(self).windows@, i)) == arrive(
                    old(self).repos.queue(input_id(old(self).windows@, i)), old(self).windows@[i] is Some, row@)
                &&& r is Err ==> final(self).repos.queue(input_id(old(self).windows@, i)) == old(self).repos.queue(input_id(old(self).windows@, i))
            },
    {
        let i = match self.source_queue(name) {
            Some(i) => i,
            None => { return Err(SpringError::Unavailable); },
        };
        let id = self.input_of(i);
        let ghost rq = self.repos.row_queues@;
        let ghost wq = self.repos.window_queues@;
        let res = match id {
            QueueId::Row(x) => {
                assert(self.repos.row_queues@[x as int].wf());
                self.repos.row_queues[x].push(row)
            },
            QueueId::Window(x) => {
                assert(self.repos.window_queues@[x as int].wf());
                assert(time_ordered(self.repos.window_queues@[x as int]@));
                self.repos.window_queues[x].insert_by_time(row)
            },
        };
        proof {
            assert forall|x: int| 0 <= x < rq.len() implies (#[trigger] self.repos.row_queues@[x]).wf() by {
                if id != QueueId::Row(x as usize) { assert(self.repos.row_queues@[x] == rq[x]); }
            }
            assert forall|x: int| 0 <= x < wq.len() implies (#[trigger] self.repos.window_queues@[x]).wf() by {
                if id != QueueId::Window(x as usize) { assert(self.repos.window_queues@[x] == wq[x]); }
            }
            assert forall|x: int| 0 <= x < wq.len() implies if #[trigger] self.windows@[x] is Some {
                time_ordered(self.repos.window_queues@[x]@)
            } else {
                self.repos.window_queues@[x]@.len() == 0
            } by {
                if id != QueueId::Window(x as usize) { assert(self.repos.window_queues@[x] == wq[x]); }
            }
        }
        match res {
            Ok(()) => Ok(()),
            Err((e, _)) => Err(e),
        }
    }

    /// Dequeues a row from the in-memory sink queue `name`: `Ok(None)` when
    /// it is empty, `Unavailable` when there is no such queue.
    pub fn pop_non_blocking(&mut self, name: &String) -> (r: Result<Option<Row>, SpringError>)
        requires
            old(self).wf(),
        ensures
            final(self).wf(),
            final(self).pipeline == old(self).pipeline,
            r is Err <==> forall|i: int| 0 <= i < old(self).pipeline.writers@.len() ==> (#[trigger] old(self).pipeline.writers@[i]).queue@ != name@,
            r matches Err(e) ==> e == SpringError::Unavailable && final(self).sink_queues == old(self).sink_queues,
            final(self).repos == old(self).repos,
            forall|w: int| #[trigger] first_writer(old(self).pipeline.writers@, name@, w) ==> {
                let k = old(self).pipeline.readers@.len() + old(self).pipeline.pumps@.len() + w;
                &&& old(self).sink_queues@[k]@.len() == 0 ==> (r matches Ok(None)) && final(self).sink_queues@[k]@ == old(self).sink_queues@[k]@
                &&& old(self).sink_queues@[k]@.len() > 0 ==> (r matches Ok(Some(row)) && row@ == old(self).sink_queues@[k]@[0])
                    && final(self).sink_queues@[k]@ == old(self).sink_queues@[k]@.drop_first()
                &&& forall|j: int| 0 <= j < old(self).sink_queues@.len() && j != k ==> #[trigger] final(self).sink_queues@[j] == old(self).sink_queues@[j]
            },
    {
        let k = match self.sink_queue(name) {
            Some(k) => k,
            None => { return Err(SpringError::Unavailable); },
        };
        proof {
            let i = k - self.pipeline.readers@.len() - self.pipeline.pumps@.len();
            assert(self.pipeline.writers@[i].queue@ == name@);
            assert forall|w: int| #[trigger] first_writer(self.pipeline.writers@, name@, w) implies w == i by {
                if w < i { assert(self.pipeline.writers@[w].queue@ != name@); }
                if w > i { assert(self.pipeline.writers@[i].queue@ != name@); }
            }
        }
        let ghost sq = self.sink_queues@;
        assert(self.sink_queues@[k as int].wf());
        let r = self.sink_queues[k].use_();
        proof {
            assert forall|x: int| 0 <= x < sq.len() implies (#[trigger] self.sink_queues@[x]).wf() by {
                if x != k { assert(self.sink_queues@[x] == sq[x]); }
            }
            if r is Some {
                assert(sq[k as int]@.len() > 0 && r->Some_0@ == sq[k as int]@[0]
                    && self.sink_queues@[k as int]@ == sq[k as int]@.drop_first());
            }
        }
        Ok(r)
    }

    /// Which tasks have a row waiting in their input queue.
    fn runnable(&self) -> (r: Vec<bool>)
        requires
            self.wf(),
        ensures
            r@ == runnable_spec(*self),
    {
        let m = self.scheduler.graph.edges.len();
        let mut v: Vec<bool> = Vec::new();
        let mut j: usize = 0;
        while j < m
            invariant
                self.wf(),
                m == self.edges().len(),
                0 <= j <= m,
                v@.len() == j,
                forall|x: int| 0 <= x < j ==> #[trigger] v@[x] == runnable_spec(*self)[x],
            decreases m - j,
        {
            let waiting = match self.input_of(j) {
                QueueId::Row(i) => self.repos.row_queues[i].len() > 0,
                QueueId::Window(i) => self.repos.window_queues[i].len() > 0,
            };
            v.push(waiting);
            j = j + 1;
        }
        assert(v@ =~= runnable_spec(*self));
        v
    }

    /// One cycle of worker `worker`: the scheduler hands it the next task of
    /// its rotation that has input and that no other worker is inside (the
    /// worker's previous task is released), and the task runs once. Returns
    /// the worker's next state, the task run (none when nothing qualified),
    /// and the task's result.
    pub fn step(&mut self, worker: u64, state: FlowEfficientWorkerState) -> (r: (
        FlowEfficientWorkerState,
        Option<usize>,
        Result<bool, SpringError>,
    ))
        requires
            old(self).wf(),
        ensures
            final(self).wf(),
            final(self).pipeline == old(self).pipeline,
            r.1 is None ==> r.2 == Ok::<bool, SpringError>(false) && final(self).repos == old(self).repos
                && final(self).sink_queues == old(self).sink_queues
                && forall|t: int| 0 <= t < old(self).scheduler.order@.len() ==> !old(self).scheduler.free_for(worker,
                    runnable_spec(*old(self)), old(self).scheduler.order@[#[trigger] rotate(state.cursor as int, t,
                    old(self).scheduler.order@.len() as int)] as int),
            r.1 matches Some(e) ==> e < old(self).edges().len()
                && old(self).scheduler.free_for(worker, runnable_spec(*old(self)), e as int)
                && final(self).scheduler.running@[e as int] == Some(worker)
                && ran_task(*old(self), *final(self), e as int, r.2),
            r.1 matches Some(e) ==> picked_first(old(self).scheduler, worker, runnable_spec(*old(self)), state, e as int, r.0),
    {
        let runnable = self.runnable();
        match self.scheduler.pick(worker, state, &runnable) {
            None => (state, None, Ok(false)),
            Some((e, next)) => {
                let ghost mid = *self;
                let r = self.run_task(e);
                proof {
                    assert(ran_task(mid, *self, e as int, r));
                    assert(input_watermark(mid, e as int) == input_watermark(*old(self), e as int));
                    assert forall|x: Repositories, a: Engine, kk: int, nn: usize, rw: RowView, gb: usize, ag: usize, outs: Seq<WindowOutput>|
                        #[trigger] window_emitted(mid, x, a, kk, nn, rw, gb, ag, outs)
                        == window_emitted(*old(self), x, a, kk, nn, rw, gb, ag, outs) by {
                        assert(mid.edges() == old(self).edges());
                    }
                    assert(mid.repos == old(self).repos && mid.windows == old(self).windows && mid.tasks == old(self).tasks
                        && mid.sink_queues == old(self).sink_queues && mid.pipeline == old(self).pipeline
                        && mid.scheduler.graph == old(self).scheduler.graph);
                }
                (next, Some(e), r)
            },
        }
    }

    /// Hands a row to task `k`'s window; `Unavailable` when the task has none.
    fn dispatch_window(&mut self, k: usize, rowtime: crate::time::Timestamp, key: &SqlValue, value: &SqlValue) -> (r: Result<
        WindowDispatch,
        SpringError,
    >)
        requires
            old(self).wf(),
            k < old(self).edges().len(),
            rowtime.wf(),
            aggregatable(*value),
        ensures
            final(self).wf(),
            final(self).pipeline == old(self).pipeline,
            final(self).scheduler == old(self).scheduler,
            final(self).repos == old(self).repos,
            final(self).tasks == old(self).tasks,
            final(self).sink_queues == old(self).sink_queues,
            forall|j: int| 0 <= j < final(self).windows@.len() ==> (#[trigger] final(self).windows@[j]) is Some
                == old(self).windows@[j] is Some,
            final(self).windows@.len() == old(self).windows@.len(),
            old(self).windows@[k as int] is None ==> r == Err::<WindowDispatch, SpringError>(SpringError::Unavailable),
            old(self).windows@[k as int] matches Some(ow) ==> window_stepped(ow, final(self).windows@[k as int]->Some_0, rowtime, r),
            old(self).windows@[k as int] matches Some(ow) ==> (r matches Ok(WindowDispatch::Admitted(outs)) ==> forall|j: int|
                0 <= j < outs@.len() ==> (#[trigger] outs@[j]).groups@ == pane_result(ow.panes.function, content_after(
                ow.panes.panes@, outs@[j].open_at as int, ow.panes.window_param.length@, rowtime@, *key, *value))),
    {
        let ghost ws = self.windows@;
        let mut slot: Option<Window> = None;
        std::mem::swap(&mut slot, &mut self.windows[k]);
        let r = match &mut slot {
            Some(w) => w.dispatch(rowtime, key, value),
            None => Err(SpringError::Unavailable),
        };
        std::mem::swap(&mut slot, &mut self.windows[k]);
        proof {
            assert forall|j: int| 0 <= j < self.windows@.len() implies (#[trigger] self.windows@[j]) is Some
                == ws[j] is Some by {}
        }
        r
    }
}

/// The window of a windowed pump after one step on `row`: when the row's
/// group and aggregated columns exist and hold an aggregatable value, the
/// window saw the row at its event time.
pub open spec fn windowed_step(
    old_w: Option<Window>,
    new_w: Option<Window>,
    row: RowView,
    group_by: usize,
    aggregated: usize,
    r: Result<bool, SpringError>,
) -> bool {
    match old_w {
        None => true,
        Some(ow) => (group_by < row.2.len() && aggregated < row.2.len() && aggregatable(row.2[aggregated as int])
            && crate::row::event_time(row).wf()) ==> match new_w {
            None => false,
            Some(nw) => {
                &&& crate::row::event_time(row)@ < ow.watermark@ ==> r == Ok::<bool, SpringError>(true) && nw.watermark == ow.watermark
                &&& crate::row::event_time(row)@ >= ow.watermark@ && r is Ok ==> nw.watermark == ow.watermark.updated(crate::row::event_time(row))
            },
        },
    }
}

/// A queue after the rows `rows` arrived one after another.
pub open spec fn arrive_all(q: Seq<RowView>, windowed: bool, rows: Seq<RowView>) -> Seq<RowView>
    decreases rows.len(),
{
    if rows.len() == 0 {
        q
    } else {
        arrive(arrive_all(q, windowed, rows.drop_last()), windowed, rows.last())
    }
}

/// After the rows `rows` went, in order, to the readers of stream `n`.
pub open spec fn forwarded_all(
    before: Repositories,
    after: Repositories,
    edges: Seq<TaskEdge>,
    windows: Seq<Option<Window>>,
    n: usize,
    rows: Seq<RowView>,
) -> bool {
    &&& after.row_queues@.len() == before.row_queues@.len()
    &&& after.window_queues@.len() == before.window_queues@.len()
    &&& forall|j: int| 0 <= j < edges.len() ==> #[trigger] after.queue(input_id(windows, j)) == if edges[j].upstream == Some(n) {
        arrive_all(before.queue(input_id(windows, j)), windows[j] is Some, rows)
    } else {
        before.queue(input_id(windows, j))
    }
    &&& forall|j: int| 0 <= j < edges.len() && windows[j] is Some ==> #[trigger] after.row_queues@[j]@ == before.row_queues@[j]@
    &&& forall|j: int| 0 <= j < edges.len() && windows[j] is None ==> #[trigger] after.window_queues@[j]@ == before.window_queues@[j]@
}

proof fn lemma_forwarded_all_push(
    a: Repositories,
    b: Repositories,
    c: Repositories,
    edges: Seq<TaskEdge>,
    windows: Seq<Option<Window>>,
    n: usize,
    rows: Seq<RowView>,
    o: RowView,
)
    requires
        forwarded_all(a, b, edges, windows, n, rows),
        forwarded(b, c, edges, windows, n, Some(o)),
    ensures
        forwarded_all(a, c, edges, windows, n, rows.push(o)),
{
    let rs = rows.push(o);
    assert(rs.drop_last() =~= rows);
    assert forall|j: int| 0 <= j < edges.len() implies #[trigger] c.queue(input_id(windows, j)) == if edges[j].upstream == Some(n) {
        arrive_all(a.queue(input_id(windows, j)), windows[j] is Some, rs)
    } else {
        a.queue(input_id(windows, j))
    } by {
        assert(c.queue(input_id(windows, j)) == if edges[j].upstream == Some(n) {
            arrive(b.queue(input_id(windows, j)), windows[j] is Some, o)
        } else {
            b.queue(input_id(windows, j))
        });
    }
    assert forall|j: int| 0 <= j < edges.len() && windows[j] is Some implies #[trigger] c.row_queues@[j]@ == a.row_queues@[j]@ by {
        assert(c.row_queues@[j]@ == b.row_queues@[j]@);
    }
    assert forall|j: int| 0 <= j < edges.len() && windows[j] is None implies #[trigger] c.window_queues@[j]@ == a.window_queues@[j]@ by {
        assert(c.window_queues@[j]@ == b.window_queues@[j]@);
    }
}

/// The rows a closed pane sends downstream: one per group,
/// `(close_at, group key, aggregate)`, under the downstream shape.
pub open spec fn pane_rows(out: WindowOutput, shape: crate::row::StreamShape, arrival: crate::time::Timestamp) -> Seq<RowView> {
    Seq::new(out.groups@.len(), |g: int| (shape.cols@, shape.rowtime, seq![
        SqlValue::NotNull(NnSqlValue::Timestamp(crate::time::Timestamp { nanos: out.close_at })),
        out.groups@[g].0,
        out.groups@[g].1,
    ], arrival))
}

/// The rows of the closed panes `outs`, pane after pane.
pub open spec fn window_rows(outs: Seq<WindowOutput>, shape: crate::row::StreamShape, arrival: crate::time::Timestamp) -> Seq<RowView>
    decreases outs.len(),
{
    if outs.len() == 0 {
        Seq::empty()
    } else {
        window_rows(outs.drop_last(), shape, arrival) + pane_rows(outs.last(), shape, arrival)
    }
}

/// A windowed pump's output for one row: the panes `outs` that closed,
/// each group's aggregate over the pane's rows with this row folded in,
/// went downstream one row per group, in order, on top of the queues `from`.
pub open spec fn window_emitted(
    before: Engine,
    from: Repositories,
    after: Engine,
    k: int,
    n: usize,
    row: RowView,
    group_by: usize,
    aggregated: usize,
    outs: Seq<WindowOutput>,
) -> bool {
    &&& forwarded_all(from, after.repos, before.edges(), after.windows@, n,
        window_rows(outs, before.pipeline.streams@[n as int].0.shape, row.3))
    &&& before.windows@[k] matches Some(ow) ==> forall|j: int| 0 <= j < outs.len() ==> (#[trigger] outs[j]).groups@ == pane_result(
        ow.panes.function, content_after(ow.panes.panes@, outs[j].open_at as int, ow.panes.window_param.length@,
        crate::row::event_time(row)@, row.2[group_by as int], row.2[aggregated as int]))
}

/// What a window's watermark does when a row with `rowtime` comes: a late
/// row is dropped and counted; an admitted one moves the watermark.
pub open spec fn window_stepped(ow: Window, nw: Window, rowtime: crate::time::Timestamp, r: Result<WindowDispatch, SpringError>) -> bool {
    &&& rowtime@ < ow.watermark@ ==> (r matches Ok(WindowDispatch::Dropped)) && nw.watermark == ow.watermark
        && nw.dropped == if ow.dropped < u64::MAX { (ow.dropped + 1) as u64 } else { ow.dropped }
    &&& rowtime@ >= ow.watermark@ && r is Ok ==> nw.watermark == ow.watermark.updated(rowtime)
}

/// New task `x` and old task `j` are the same pump instance (the first
/// task of each version with that id), and the new window has the old one's
/// parameters: then the new window is the old one, watermark and panes included.
pub open spec fn keeps_window(
    old_tasks: Seq<Task>,
    old_ws: Seq<Option<Window>>,
    edges: Seq<TaskEdge>,
    new_ws: Seq<Option<Window>>,
    x: int,
    j: int,
) -> bool {
    (old_tasks[j].id_spec().name@ == edges[x].id.name@
        && (forall|i: int| 0 <= i < j ==> (#[trigger] old_tasks[i]).id_spec().name@ != edges[x].id.name@)
        && (forall|y: int| 0 <= y < x ==> (#[trigger] edges[y]).id.name@ != edges[x].id.name@)
        && old_ws[j] is Some && new_ws[x] is Some
        && new_ws[x]->Some_0.panes.window_param == old_ws[j]->Some_0.panes.window_param
        && new_ws[x]->Some_0.panes.function == old_ws[j]->Some_0.panes.function)
        ==> new_ws[x] == old_ws[j]
}

/// Writer `i` is the first whose in-memory queue is named `name`.
pub open spec fn first_writer(writers: Seq<crate::pipeline::SinkWriterModel>, name: Seq<char>, i: int) -> bool {
    &&& 0 <= i < writers.len()
    &&& writers[i].queue@ == name
    &&& forall|j: int| 0 <= j < i ==> (#[trigger] writers[j]).queue@ != name
}

/// New task `x` and old task `j` are the same task instance: the first
/// task of each version with that id.
pub open spec fn same_instance(old_tasks: Seq<Task>, edges: Seq<TaskEdge>, x: int, j: int) -> bool {
    &&& old_tasks[j].id_spec().name@ == edges[x].id.name@
    &&& forall|i: int| 0 <= i < j ==> (#[trigger] old_tasks[i]).id_spec().name@ != edges[x].id.name@
    &&& forall|y: int| 0 <= y < x ==> (#[trigger] edges[y]).id.name@ != edges[x].id.name@
}

/// A task instance that persists across versions keeps its queues with
/// their contents: input row queue, sink queue, and (while it still has a
/// window) its window queue.
pub open spec fn keeps_queues(
    old_tasks: Seq<Task>,
    old_rq: Seq<RowQueue>,
    old_wq: Seq<RowQueue>,
    old_sq: Seq<RowQueue>,
    edges: Seq<TaskEdge>,
    new_rq: Seq<RowQueue>,
    new_wq: Seq<RowQueue>,
    new_sq: Seq<RowQueue>,
    new_ws: Seq<Option<Window>>,
    x: int,
    j: int,
) -> bool {
    same_instance(old_tasks, edges, x, j) ==> new_rq[x]@ == old_rq[j]@ && new_sq[x]@ == old_sq[j]@
        && (new_ws[x] is Some ==> new_wq[x]@ == old_wq[j]@)
}

/// Reader `i` is the first whose in-memory queue is named `name`.
pub open spec fn first_reader(readers: Seq<crate::pipeline::SourceReaderModel>, name: Seq<char>, i: int) -> bool {
    &&& 0 <= i < readers.len()
    &&& readers[i].queue@ == name
    &&& forall|j: int| 0 <= j < i ==> (#[trigger] readers[j]).queue@ != name
}

/// Position of the task with id `id`, or the number of tasks when there is none.
fn find_task(tasks: &Vec<Task>, id: &crate::task_graph::TaskId) -> (j: usize)
    ensures
        j <= tasks@.len(),
        j < tasks@.len() ==> tasks@[j as int].id_spec().name@ == id.name@,
        forall|i: int| 0 <= i < j ==> (#[trigger] tasks@[i]).id_spec().name@ != id.name@,
{
    let mut j: usize = 0;
    while j < tasks.len() && !tasks[j].id().same_as(id)
        invariant
            0 <= j <= tasks@.len(),
            forall|i: int| 0 <= i < j ==> (#[trigger] tasks@[i]).id_spec().name@ != id.name@,
        decreases tasks@.len() - j,
    {
        j = j + 1;
    }
    j
}

/// For each task: a row waits in its input queue.
pub open spec fn runnable_spec(e: Engine) -> Seq<bool> {
    Seq::new(e.edges().len(), |j: int| e.repos.queue(input_id(e.windows@, j)).len() > 0)
}

/// The effect of running task `k` once, as far as it is fixed: what a
/// source, a projecting pump and a sink do with their oldest input row.
pub open spec fn ran_task(before: Engine, after: Engine, k: int, r: Result<bool, SpringError>) -> bool {
    // A source passes each row on unchanged, oldest first.
    &&& before.tasks@[k] is Source && before.windows@[k] is None ==> match before.edges()[k].downstream {
        Some(n) => before.has_room_spec(n) && before.repos.row_queues@[k]@.len() > 0 ==> r == Ok::<bool, SpringError>(true)
            && exists|mid: Repositories, row: Row| #[trigger] collected(before.repos, mid, QueueId::Row(k as usize), input_watermark(before, k), Some((row, InQueueMetricsUpdateByCollect::Row { queue_id: k as usize, rows_used: 1, bytes_used: crate::row::row_bytes(row@) })))
                && forwarded(mid, after.repos, before.edges(), before.windows@, n, Some(row@)),
        None => true,
    }
    // A projecting pump takes its oldest row and passes on its
    // projection when the filter holds, and nothing otherwise.
    &&& before.windows@[k] is None ==> match before.tasks@[k] {
        Task::Pump(p) => match before.pipeline.pumps@[p.pump as int].query {
            PumpQuery::Project { projection, filter } => match before.edges()[k].downstream {
                Some(n) => before.has_room_spec(n) && before.repos.row_queues@[k]@.len() > 0 ==> exists|mid: Repositories, row: Row|
                    #[trigger] collected(before.repos, mid, QueueId::Row(k as usize), input_watermark(before, k), Some((row, InQueueMetricsUpdateByCollect::Row { queue_id: k as usize, rows_used: 1, bytes_used: crate::row::row_bytes(row@) })))
                    && (r is Err <==> project_spec(row@.2, projection@, filter) is Err)
                    && (r is Ok ==> r == Ok::<bool, SpringError>(true))
                    && (r is Ok ==> forwarded(mid, after.repos, before.edges(), before.windows@, n,
                        pumped(row@, before.pipeline.streams@[n as int].0.shape.cols@, before.pipeline.streams@[n as int].0.shape.rowtime, projection@, filter))),
                None => true,
            },
            _ => true,
        },
        _ => true,
    }
    // A windowed pump drops (and counts) the rows of its window queue that
    // are older than its watermark, then hands the earliest remaining row to
    // its window at the row's event time; with none left it does nothing more.
    &&& before.windows@[k] is Some ==> match before.tasks@[k] {
        Task::Pump(p) => match before.pipeline.pumps@[p.pump as int].query {
            PumpQuery::Window(op) => match before.edges()[k].downstream {
                Some(n) => before.has_room_spec(n) ==> exists|mid: Repositories, m: Option<(Row, InQueueMetricsUpdateByCollect)>|
                    #[trigger] collected(before.repos, mid, QueueId::Window(k as usize), input_watermark(before, k), m)
                    && (m is None ==> r == Ok::<bool, SpringError>(false) && after.repos == mid && after.windows == before.windows)
                    && (m matches Some((row, _)) ==> windowed_step(before.windows@[k], after.windows@[k], row@, op.group_by,
                        op.aggregated, r))
                    && (r is Ok ==> match m {
                        Some((row, _)) => exists|outs: Seq<WindowOutput>| #[trigger] window_emitted(
                            before, mid, after, k, n, row@, op.group_by, op.aggregated, outs),
                        None => true,
                    }),
                None => true,
            },
            _ => true,
        },
        _ => true,
    }
    // Back-pressure: a task whose output has no room takes nothing.
    &&& (before.tasks@[k] is Sink && before.sink_queues@[k]@.len() >= before.sink_queues@[k].capacity) ==> r == Ok::<bool, SpringError>(false)
        && after.repos == before.repos && after.sink_queues == before.sink_queues && after.windows == before.windows
    &&& !(before.tasks@[k] is Sink) ==> match before.edges()[k].downstream {
        Some(n) => !before.has_room_spec(n) ==> r == Ok::<bool, SpringError>(false) && after.repos == before.repos
            && after.sink_queues == before.sink_queues && after.windows == before.windows,
        None => true,
    }
    // A sink moves its oldest input row to its in-memory queue while that has room.
    &&& before.tasks@[k] is Sink && before.windows@[k] is None ==> (before.sink_queues@[k]@.len() < before.sink_queues@[k].capacity
        && before.repos.queue(input_id(before.windows@, k)).len() > 0 ==> r == Ok::<bool, SpringError>(true)
            && after.sink_queues@[k]@ == before.sink_queues@[k]@.push(before.repos.queue(input_id(before.windows@, k))[0])
            && after.repos.queue(input_id(before.windows@, k)) == before.repos.queue(input_id(before.windows@, k)).drop_first())
}

/// Task `e` is the first task of the rotation, from the worker's place on,
/// that is free for it, and `next` is the place right after it.
pub open spec fn picked_first(
    sch: FlowEfficientScheduler,
    worker: u64,
    runnable: Seq<bool>,
    state: FlowEfficientWorkerState,
    e: int,
    next: FlowEfficientWorkerState,
) -> bool {
    exists|t: int| #![trigger rotate(state.cursor as int, t, sch.order@.len() as int)]
        0 <= t < sch.order@.len()
        && e == sch.order@[rotate(state.cursor as int, t, sch.order@.len() as int)]
        && (forall|t2: int| 0 <= t2 < t ==> !sch.free_for(worker, runnable,
            sch.order@[#[trigger] rotate(state.cursor as int, t2, sch.order@.len() as int)] as int))
        && next.cursor as int == rotate(state.cursor as int, t + 1, sch.order@.len() as int)
}

/// Task `x` of the new graph has no task of the same id in the old one.
pub open spec fn new_task(old_tasks: Seq<Task>, edges: Seq<TaskEdge>, x: int) -> bool {
    forall|j: int| 0 <= j < old_tasks.len() ==> (#[trigger] old_tasks[j]).id_spec().name@ != edges[x].id.name@
}

/// Task `x`'s queues are empty and have dropped nothing.
pub open spec fn starts_empty(e: Engine, x: int) -> bool {
    &&& e.repos.row_queues@[x]@.len() == 0 && e.repos.row_queues@[x].dropped == 0
    &&& e.repos.window_queues@[x]@.len() == 0 && e.repos.window_queues@[x].dropped == 0
    &&& e.sink_queues@[x]@.len() == 0
}

/// The watermark that task `k` collects with: its window's, if it has one.
pub open spec fn input_watermark(e: Engine, k: int) -> int {
    match e.windows@[k] {
        Some(w) => w.watermark@,
        None => 0,
    }
}

/// Every task that reads stream `n` has room for one more row.
pub open spec fn room_for(repos: Repositories, edges: Seq<TaskEdge>, ws: Seq<Option<Window>>, n: usize) -> bool {
    forall|j: int| 0 <= j < edges.len() && (#[trigger] edges[j]).upstream == Some(n) ==> repos.room(input_id(ws, j))
}

/// Taking a row out of a queue leaves room wherever there was room.
proof fn lemma_room_kept(
    before: Repositories,
    after: Repositories,
    edges: Seq<TaskEdge>,
    ws: Seq<Option<Window>>,
    n: usize,
    id: QueueId,
    wm: int,
    m: Option<(Row, crate::queue::InQueueMetricsUpdateByCollect)>,
)
    requires
        room_for(before, edges, ws, n),
        collected(before, after, id, wm, m),
        before.has(id),
        before.row_queues@.len() == edges.len(),
        before.window_queues@.len() == edges.len(),
        ws.len() == edges.len(),
    ensures
        room_for(after, edges, ws, n),
{
    assert forall|j: int| 0 <= j < edges.len() && (#[trigger] edges[j]).upstream == Some(n)
        implies after.room(input_id(ws, j)) by {
        let q = input_id(ws, j);
        assert(before.has(q));
        assert(after.capacity(q) == before.capacity(q));
        if q != id {
            assert(after.queue(q) == before.queue(q));
        }
    }
}

} // verus!
