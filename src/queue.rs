//! Bounded row queues between tasks, addressed by id in a flat repository.
use vstd::prelude::*;
use std::collections::VecDeque;
use crate::error::SpringError;
use crate::row::{event_time, row_bytes, Row, RowView};

verus! {

/// A bounded queue of whole rows, with a capacity in rows. A row queue is
/// first in, first out (`push`); a window queue keeps its rows ordered by
/// event time (`insert_by_time`), so the earliest row comes out first.
#[derive(Debug)]
pub struct RowQueue {
    pub rows: VecDeque<Row>,
    pub capacity: usize,
    /// How many rows this queue dropped as late (it stops at `u64::MAX`).
    pub dropped: u64,
}

impl RowQueue {
    pub open spec fn view(&self) -> Seq<RowView> {
        self.rows@.map_values(|r: Row| r@)
    }

    pub open spec fn wf(&self) -> bool {
        self.rows@.len() <= self.capacity
    }

    pub fn new(capacity: usize) -> (r: RowQueue)
        ensures
            r.wf(),
            r@ == Seq::<RowView>::empty(),
            r.capacity == capacity,
            r.dropped == 0,
    {
        RowQueue { rows: VecDeque::new(), capacity, dropped: 0 }
    }

    pub fn len(&self) -> (r: usize)
        ensures
            r == self@.len(),
    {
        self.rows.len()
    }

    pub fn is_full(&self) -> (r: bool)
        ensures
            r == (self@.len() >= self.capacity),
    {
        self.rows.len() >= self.capacity
    }

    /// Appends a row; when the queue is full the row is handed back with
    /// `Unavailable` and the queue is unchanged (back-pressure).
    pub fn push(&mut self, row: Row) -> (r: Result<(), (SpringError, Row)>)
        requires
            old(self).wf(),
        ensures
            final(self).wf(),
            final(self).capacity == old(self).capacity,
            final(self).dropped == old(self).dropped,
            old(self)@.len() < old(self).capacity ==> r is Ok && final(self)@ == old(self)@.push(row@),
            old(self)@.len() >= old(self).capacity ==> r == Err::<(), (SpringError, Row)>((SpringError::Unavailable, row))
                && final(self)@ == old(self)@,
    {
        if self.rows.len() >= self.capacity {
            Err((SpringError::Unavailable, row))
        } else {
            self.rows.push_back(row);
            assert(self@ =~= old(self)@.push(row@));
            Ok(())
        }
    }

    /// A queue with the same rows, in the same order, and the same capacity.
    pub fn copy_queue(&self) -> (r: RowQueue)
        requires
            self.wf(),
        ensures
            r.wf(),
            r@ == self@,
            r.capacity == self.capacity,
            r.dropped == self.dropped,
    {
        let mut rows: VecDeque<Row> = VecDeque::new();
        let mut i: usize = 0;
        while i < self.rows.len()
            invariant
                0 <= i <= self.rows@.len(),
                rows@.len() == i,
                forall|j: int| 0 <= j < i ==> (#[trigger] rows@[j])@ == self.rows@[j]@,
            decreases self.rows@.len() - i,
        {
            rows.push_back(self.rows[i].copy_row());
            i = i + 1;
        }
        let r = RowQueue { rows, capacity: self.capacity, dropped: self.dropped };
        assert(r@ =~= self@);
        r
    }

    /// Inserts a row after every row whose event time is not later than its
    /// own, so that rows stay ordered by event time (rows of equal time keep
    /// their arrival order). When the queue is full the row is handed back
    /// with `Unavailable` and the queue is unchanged.
    pub fn insert_by_time(&mut self, row: Row) -> (r: Result<(), (SpringError, Row)>)
        requires
            old(self).wf(),
            time_ordered(old(self)@),
        ensures
            final(self).wf(),
            final(self).capacity == old(self).capacity,
            final(self).dropped == old(self).dropped,
            time_ordered(final(self)@),
            old(self)@.len() < old(self).capacity ==> r is Ok && final(self)@ == time_insert(old(self)@, row@),
            old(self)@.len() >= old(self).capacity ==> r == Err::<(), (SpringError, Row)>((SpringError::Unavailable, row))
                && final(self)@ == old(self)@,
    {
        if self.rows.len() >= self.capacity {
            return Err((SpringError::Unavailable, row));
        }
        let t = row.rowtime();
        let n = self.rows.len();
        let mut p: usize = 0;
        while p < n && self.rows[p].rowtime().nanos <= t.nanos
            invariant
                0 <= p <= n,
                n == self.rows@.len(),
                forall|a: int| 0 <= a < p ==> event_time(#[trigger] self@[a]).nanos <= t.nanos,
            decreases n - p,
        {
            p = p + 1;
        }
        let ghost q = self@;
        self.rows.insert(p, row);
        proof {
            assert(self@ =~= q.insert(p as int, row@));
            assert forall|a: int| p <= a < q.len() implies event_time(#[trigger] q[a]).nanos > t.nanos by {
                if p < n {
                    assert(event_time(q[p as int]).nanos > t.nanos);
                    assert(event_time(q[p as int]).nanos <= event_time(q[a]).nanos);
                }
            }
            lemma_time_insert(q, row@, p as int);
        }
        Ok(())
    }

    /// Drops the rows at the front whose event time is before `watermark`,
    /// counting them; stops at the first row that is not late.
    pub fn drop_late(&mut self, watermark: i64) -> (d: Ghost<int>)
        requires
            old(self).wf(),
        ensures
            final(self).wf(),
            final(self).capacity == old(self).capacity,
            late_prefix(old(self)@, watermark as int, d@),
            final(self)@ == old(self)@.subrange(d@, old(self)@.len() as int),
            final(self).dropped == saturated(old(self).dropped + d@),
    {
        let ghost q = self@;
        let ghost mut i: int = 0;
        while self.rows.len() > 0 && self.rows[0].rowtime().nanos < watermark
            invariant
                self.wf(),
                self.capacity == old(self).capacity,
                q == old(self)@,
                0 <= i <= q.len(),
                self@ == q.subrange(i, q.len() as int),
                forall|a: int| 0 <= a < i ==> (#[trigger] event_time(q[a])).nanos < watermark,
                self.dropped == saturated(old(self).dropped + i),
            decreases self@.len(),
        {
            let ghost prev = self@;
            proof {
                assert(self@[0] == q[i]);
            }
            let _ = self.rows.pop_front();
            assert(self@ == prev.subrange(1, prev.len() as int));
            if self.dropped < u64::MAX {
                self.dropped = self.dropped + 1;
            }
            proof {
                i = i + 1;
                assert(self@ =~= q.subrange(i, q.len() as int));
            }
        }
        proof {
            if i < q.len() {
                assert(self@[0] == q[i]);
            }
        }
        Ghost(i)
    }

    /// Takes the oldest row, if any.
    pub fn use_(&mut self) -> (r: Option<Row>)
        requires
            old(self).wf(),
        ensures
            final(self).wf(),
            final(self).capacity == old(self).capacity,
            final(self).dropped == old(self).dropped,
            old(self)@.len() == 0 ==> r is None && final(self)@ == old(self)@,
            old(self)@.len() > 0 ==> (r matches Some(row) && row@ == old(self)@[0]) && final(self)@ == old(self)@.drop_first(),
    {
        let r = self.rows.pop_front();
        proof {
            if old(self)@.len() > 0 {
                assert(self@ =~= old(self)@.drop_first());
            }
        }
        r
    }
}

/// Rows are ordered by event time.
pub open spec fn time_ordered(q: Seq<RowView>) -> bool {
    forall|a: int, b: int| 0 <= a < b < q.len() ==> event_time(#[trigger] q[a]).nanos <= event_time(#[trigger] q[b]).nanos
}

/// Position `p` splits `q` into rows not later than `o` and rows later than `o`.
pub open spec fn time_slot(q: Seq<RowView>, o: RowView, p: int) -> bool {
    &&& 0 <= p <= q.len()
    &&& forall|a: int| 0 <= a < p ==> event_time(#[trigger] q[a]).nanos <= event_time(o).nanos
    &&& forall|a: int| p <= a < q.len() ==> event_time(#[trigger] q[a]).nanos > event_time(o).nanos
}

/// `q` with `o` inserted after every row that is not later than it.
pub open spec fn time_insert(q: Seq<RowView>, o: RowView) -> Seq<RowView> {
    q.insert(choose|p: int| time_slot(q, o, p), o)
}

proof fn lemma_time_insert(q: Seq<RowView>, o: RowView, p: int)
    requires
        time_ordered(q),
        time_slot(q, o, p),
    ensures
        time_insert(q, o) == q.insert(p, o),
        time_ordered(q.insert(p, o)),
{
    let c = choose|c: int| time_slot(q, o, c);
    if c < p {
        assert(event_time(q[c]).nanos > event_time(o).nanos);
    } else if c > p {
        assert(event_time(q[p]).nanos > event_time(o).nanos);
    }
    let r = q.insert(p, o);
    assert forall|a: int, b: int| 0 <= a < b < r.len() implies event_time(#[trigger] r[a]).nanos <= event_time(#[trigger] r[b]).nanos by {
        if b < p {
            assert(r[a] == q[a] && r[b] == q[b]);
        } else if b == p {
            assert(r[a] == q[a]);
        } else if a < p {
            assert(r[a] == q[a] && r[b] == q[b - 1]);
        } else if a == p {
            assert(r[b] == q[b - 1]);
        } else {
            assert(r[a] == q[a - 1] && r[b] == q[b - 1]);
        }
    }
}

/// A count that stops at `u64::MAX`.
pub open spec fn saturated(x: int) -> u64 {
    if x < u64::MAX { x as u64 } else { u64::MAX }
}

/// Rows `0..d` of `q` are older than the watermark `wm`, and row `d`, if
/// any, is not.
pub open spec fn late_prefix(q: Seq<RowView>, wm: int, d: int) -> bool {
    &&& 0 <= d <= q.len()
    &&& forall|a: int| 0 <= a < d ==> (#[trigger] event_time(q[a]))@ < wm
    &&& d < q.len() ==> event_time(q[d])@ >= wm
}

/// How many rows collecting from queue `id` drops first: the late rows at
/// the front of a window queue; none from a row queue.
pub open spec fn skipped(q: Seq<RowView>, id: QueueId, wm: int) -> int {
    match id {
        QueueId::Row(_) => 0,
        QueueId::Window(_) => choose|d: int| late_prefix(q, wm, d),
    }
}

proof fn lemma_late_prefix_unique(q: Seq<RowView>, wm: int, d: int)
    requires
        late_prefix(q, wm, d),
    ensures
        (choose|e: int| late_prefix(q, wm, e)) == d,
{
    let e = choose|e: int| late_prefix(q, wm, e);
    if e < d {
        assert(event_time(q[e])@ < wm);
    } else if e > d {
        assert(event_time(q[d])@ < wm);
    }
}

/// Where a task takes its input from: a row queue or a window queue.
#[derive(Clone, Copy, Debug, PartialEq, Eq, Structural)]
pub enum QueueId {
    Row(usize),
    Window(usize),
}

/// All queues of the running pipeline, addressed by index.
#[derive(Debug)]
pub struct Repositories {
    pub row_queues: Vec<RowQueue>,
    pub window_queues: Vec<RowQueue>,
}

impl Repositories {
    pub open spec fn wf(&self) -> bool {
        &&& forall|i: int| 0 <= i < self.row_queues@.len() ==> (#[trigger] self.row_queues@[i]).wf()
        &&& forall|i: int| 0 <= i < self.window_queues@.len() ==> (#[trigger] self.window_queues@[i]).wf()
    }

    pub open spec fn has(&self, id: QueueId) -> bool {
        match id {
            QueueId::Row(i) => i < self.row_queues@.len(),
            QueueId::Window(i) => i < self.window_queues@.len(),
        }
    }

    pub open spec fn capacity(&self, id: QueueId) -> usize {
        match id {
            QueueId::Row(i) => self.row_queues@[i as int].capacity,
            QueueId::Window(i) => self.window_queues@[i as int].capacity,
        }
    }

    /// Queue `id` can take one more row.
    pub open spec fn room(&self, id: QueueId) -> bool {
        self.queue(id).len() < self.capacity(id)
    }

    pub open spec fn queue(&self, id: QueueId) -> Seq<RowView> {
        match id {
            QueueId::Row(i) => self.row_queues@[i as int]@,
            QueueId::Window(i) => self.window_queues@[i as int]@,
        }
    }
}

/// Counters a collect step reports for its input queue.
#[derive(Clone, Copy, Debug, PartialEq, Eq, Structural)]
pub enum InQueueMetricsUpdateByCollect {
    Row { queue_id: usize, rows_used: u64, bytes_used: u64 },
    Window { queue_id: usize, waiting_rows_dispatched: u64, waiting_bytes_dispatched: u64 },
}

/// Pulls one input row for a task.
#[derive(Clone, Copy, Debug, PartialEq, Eq, Structural)]
pub struct CollectSubtask;

impl CollectSubtask {
    /// The oldest row of the task's input queue with the counters to
    /// update; nothing when the task has no input queue or it is empty. A
    /// window queue drops the rows older than `watermark` (the pump's
    /// watermark) first, so a late row never comes out.
    pub fn run(&self, input_queue: Option<QueueId>, repos: &mut Repositories, watermark: i64) -> (r: Option<(Row, InQueueMetricsUpdateByCollect)>)
        requires
            old(repos).wf(),
            input_queue matches Some(id) ==> old(repos).has(id),
        ensures
            final(repos).wf(),
            input_queue is None ==> r is None && *final(repos) == *old(repos),
            input_queue matches Some(id) ==> collected(*old(repos), *final(repos), id, watermark as int, r),
    {
        match input_queue {
            None => None,
            Some(QueueId::Row(id)) => self.collect_from_row_queue(id, repos, watermark),
            Some(QueueId::Window(id)) => self.collect_from_window_queue(id, repos, watermark),
        }
    }

    fn collect_from_row_queue(&self, queue_id: usize, repos: &mut Repositories, watermark: i64) -> (r: Option<(Row, InQueueMetricsUpdateByCollect)>)
        requires
            old(repos).wf(),
            queue_id < old(repos).row_queues@.len(),
        ensures
            final(repos).wf(),
            collected(*old(repos), *final(repos), QueueId::Row(queue_id), watermark as int, r),
    {
        let ghost before = repos.row_queues@;
        proof {
            let q = before[queue_id as int]@;
            assert(q.subrange(0, q.len() as int) =~= q);
        }
        assert(repos.row_queues@[queue_id as int].wf());
        let opt_row = repos.row_queues[queue_id].use_();
        proof {
            assert forall|i: int| 0 <= i < repos.row_queues@.len() implies (#[trigger] repos.row_queues@[i]).wf() by {
                if i != queue_id {
                    assert(repos.row_queues@[i] == before[i]);
                }
            }
        }
        match opt_row {
            Some(row) => {
                let bytes_used = row.mem_size();
                Some((row, InQueueMetricsUpdateByCollect::Row { queue_id, rows_used: 1, bytes_used }))
            },
            None => None,
        }
    }

    fn collect_from_window_queue(&self, queue_id: usize, repos: &mut Repositories, watermark: i64) -> (r: Option<(Row, InQueueMetricsUpdateByCollect)>)
        requires
            old(repos).wf(),
            queue_id < old(repos).window_queues@.len(),
        ensures
            final(repos).wf(),
            collected(*old(repos), *final(repos), QueueId::Window(queue_id), watermark as int, r),
    {
        let ghost before = repos.window_queues@;
        let ghost q = before[queue_id as int]@;
        assert(repos.window_queues@[queue_id as int].wf());
        let d = repos.window_queues[queue_id].drop_late(watermark);
        proof {
            lemma_late_prefix_unique(q, watermark as int, d@);
        }
        let opt_row = repos.window_queues[queue_id].use_();
        proof {
            let rest = q.subrange(d@, q.len() as int);
            if d@ < q.len() {
                assert(rest[0] == q[d@]);
                assert(rest.drop_first() =~= q.subrange(d@ + 1, q.len() as int));
            }
        }
        proof {
            assert forall|i: int| 0 <= i < repos.window_queues@.len() implies (#[trigger] repos.window_queues@[i]).wf() by {
                if i != queue_id {
                    assert(repos.window_queues@[i] == before[i]);
                }
            }
        }
        match opt_row {
            Some(row) => {
                let waiting_bytes_dispatched = row.mem_size();
                Some((row, InQueueMetricsUpdateByCollect::Window { queue_id, waiting_rows_dispatched: 1, waiting_bytes_dispatched }))
            },
            None => None,
        }
    }
}

/// The effect of collecting from queue `id` with the task's watermark `wm`:
/// a window queue first drops (and counts) its late rows at the front; then
/// the oldest remaining row comes out with the counters of one row and its
/// bytes; every other queue is left as it was.
pub open spec fn collected(
    before: Repositories,
    after: Repositories,
    id: QueueId,
    wm: int,
    r: Option<(Row, InQueueMetricsUpdateByCollect)>,
) -> bool {
    let q = before.queue(id);
    let d = skipped(q, id, wm);
    &&& after.row_queues@.len() == before.row_queues@.len()
    &&& after.window_queues@.len() == before.window_queues@.len()
    &&& forall|o: QueueId| before.has(o) && o != id ==> #[trigger] after.queue(o) == before.queue(o)
    &&& forall|o: QueueId| before.has(o) ==> #[trigger] after.capacity(o) == before.capacity(o)
    &&& 0 <= d <= q.len()
    &&& id is Window ==> late_prefix(q, wm, d)
    &&& (r is Some <==> d < q.len())
    &&& after.queue(id) == q.subrange(if d < q.len() { d + 1 } else { d }, q.len() as int)
    &&& after.queue(id).len() <= q.len()
    &&& (id matches QueueId::Window(i) ==> after.window_queues@[i as int].dropped == saturated(
        before.window_queues@[i as int].dropped + d))
    &&& (r matches Some((row, m)) ==> row@ == q[d] && m == match id {
        QueueId::Row(i) => InQueueMetricsUpdateByCollect::Row { queue_id: i, rows_used: 1, bytes_used: row_bytes(row@) },
        QueueId::Window(i) => InQueueMetricsUpdateByCollect::Window {
            queue_id: i,
            waiting_rows_dispatched: 1,
            waiting_bytes_dispatched: row_bytes(row@),
        },
    })
}

} // verus!
