//! Tasks: the runnable steps of a pipeline, one per source reader, pump and
//! sink writer.
use vstd::prelude::*;
use crate::error::SpringError;
use crate::expression::{eval_spec, truth, ValueExpr};
use crate::row::{Row, RowView, StreamShape};
use crate::task_graph::TaskId;
use crate::value::SqlValue;

verus! {

#[derive(Clone, Copy, Debug, PartialEq, Eq, Structural)]
pub enum TaskState {
    Started,
    Stopped,
}

#[derive(Debug)]
pub struct SourceTask {
    pub id: TaskId,
    pub state: TaskState,
}

#[derive(Debug)]
pub struct PumpTask {
    pub id: TaskId,
    pub state: TaskState,
    /// Position of the pump in the pipeline.
    pub pump: usize,
}

#[derive(Debug)]
pub struct SinkTask {
    pub id: TaskId,
    pub state: TaskState,
}

/// A task: a tagged variant over the three kinds.
#[derive(Debug)]
pub enum Task {
    Pump(PumpTask),
    Source(SourceTask),
    Sink(SinkTask),
}

impl Task {
    pub open spec fn id_spec(&self) -> TaskId {
        match self {
            Task::Pump(t) => t.id,
            Task::Source(t) => t.id,
            Task::Sink(t) => t.id,
        }
    }

    pub open spec fn state_spec(&self) -> TaskState {
        match self {
            Task::Pump(t) => t.state,
            Task::Source(t) => t.state,
            Task::Sink(t) => t.state,
        }
    }

    pub fn id(&self) -> (r: TaskId)
        ensures
            r == self.id_spec(),
    {
        match self {
            Task::Pump(t) => t.id.copy_id(),
            Task::Source(source_task) => source_task.id.copy_id(),
            Task::Sink(s) => s.id.copy_id(),
        }
    }

    pub fn state(&self) -> (r: TaskState)
        ensures
            r == self.state_spec(),
    {
        match self {
            Task::Pump(t) => t.state,
            Task::Source(source_task) => source_task.state,
            Task::Sink(s) => s.state,
        }
    }

    /// Tasks are equal when their ids are.
    pub fn same_task(&self, other: &Task) -> (r: bool)
        ensures
            r == (self.id_spec().name@ == other.id_spec().name@),
    {
        self.id().same_as(&other.id())
    }

    /// Signals the task to finish its current row and stop.
    pub fn stop(&mut self)
        ensures
            final(self).state_spec() == TaskState::Stopped,
            final(self).id_spec() == old(self).id_spec(),
    {
        match self {
            Task::Pump(t) => t.state = TaskState::Stopped,
            Task::Source(t) => t.state = TaskState::Stopped,
            Task::Sink(t) => t.state = TaskState::Stopped,
        }
    }
}

/// What a projecting pump makes of one row's values: `None` when the filter
/// does not hold (false or NULL), else one value per projection.
pub open spec fn project_spec(values: Seq<SqlValue>, projection: Seq<ValueExpr>, filter: Option<ValueExpr>) -> Result<
    Option<Seq<SqlValue>>,
    SpringError,
> {
    match filter_spec(values, filter) {
        Err(e) => Err(e),
        Ok(false) => Ok(None),
        Ok(true) => match first_error(values, projection) {
            Some(e) => Err(e),
            None => Ok(Some(Seq::new(projection.len(), |i: int| eval_spec(projection[i], values)->Ok_0))),
        },
    }
}

/// Whether a row passes a pump's filter: only a true condition passes.
pub open spec fn filter_spec(values: Seq<SqlValue>, filter: Option<ValueExpr>) -> Result<bool, SpringError> {
    match filter {
        None => Ok(true),
        Some(f) => match eval_spec(f, values) {
            Err(e) => Err(e),
            Ok(v) => match truth(v) {
                None => Err(SpringError::Sql),
                Some(t) => Ok(t == Some(true)),
            },
        },
    }
}

/// The error of the first projection that fails, if any.
pub open spec fn first_error(values: Seq<SqlValue>, projection: Seq<ValueExpr>) -> Option<SpringError>
    decreases projection.len(),
{
    if projection.len() == 0 {
        None
    } else {
        match first_error(values, projection.drop_last()) {
            Some(e) => Some(e),
            None => match eval_spec(projection.last(), values) {
                Err(e) => Some(e),
                Ok(_) => None,
            },
        }
    }
}

/// Filters and projects one row's values.
pub fn project(values: &Vec<SqlValue>, projection: &Vec<ValueExpr>, filter: &Option<ValueExpr>) -> (r: Result<
    Option<Vec<SqlValue>>,
    SpringError,
>)
    ensures
        r is Err ==> project_spec(values@, projection@, *filter) is Err
            && r->Err_0 == project_spec(values@, projection@, *filter)->Err_0,
        r matches Ok(None) ==> project_spec(values@, projection@, *filter) == Ok::<Option<Seq<SqlValue>>, SpringError>(None),
        r matches Ok(Some(out)) ==> project_spec(values@, projection@, *filter) == Ok::<Option<Seq<SqlValue>>, SpringError>(Some(out@)),
{
    match filter {
        None => {},
        Some(f) => {
            let v = f.eval(values)?;
            match v {
                SqlValue::NotNull(crate::value::NnSqlValue::Boolean(true)) => {},
                SqlValue::NotNull(crate::value::NnSqlValue::Boolean(false)) | SqlValue::Null => {
                    return Ok(None);
                },
                _ => {
                    return Err(SpringError::Sql);
                },
            }
        },
    }
    let mut out: Vec<SqlValue> = Vec::new();
    let mut i: usize = 0;
    while i < projection.len()
        invariant
            0 <= i <= projection@.len(),
            out@.len() == i,
            filter_spec(values@, *filter) == Ok::<bool, SpringError>(true),
            first_error(values@, projection@.subrange(0, i as int)) is None,
            forall|j: int| 0 <= j < i ==> eval_spec(projection@[j], values@) == Ok::<SqlValue, SpringError>(#[trigger] out@[j]),
        decreases projection@.len() - i,
    {
        let v = projection[i].eval(values);
        proof {
            let pre = projection@.subrange(0, i + 1);
            assert(pre.drop_last() =~= projection@.subrange(0, i as int));
            assert(pre.last() == projection@[i as int]);
        }
        match v {
            Ok(v) => out.push(v),
            Err(e) => {
                proof {
                    lemma_first_error_prefix(values@, projection@, i as int + 1);
                }
                return Err(e);
            },
        }
        i = i + 1;
    }
    proof {
        assert(projection@.subrange(0, projection@.len() as int) =~= projection@);
        assert(out@ =~= Seq::new(projection@.len(), |j: int| eval_spec(projection@[j], values@)->Ok_0));
    }
    Ok(Some(out))
}

proof fn lemma_first_error_prefix(values: Seq<SqlValue>, projection: Seq<ValueExpr>, k: int)
    requires
        0 <= k <= projection.len(),
        first_error(values, projection.subrange(0, k)) is Some,
    ensures
        first_error(values, projection) == first_error(values, projection.subrange(0, k)),
    decreases projection.len() - k,
{
    if k < projection.len() {
        let p1 = projection.subrange(0, k + 1);
        assert(p1.drop_last() =~= projection.subrange(0, k));
        lemma_first_error_prefix(values, projection, k + 1);
    } else {
        assert(projection.subrange(0, k) =~= projection);
    }
}

/// The row a projecting pump writes: the downstream shape, the projected
/// values, and the input row's arrival time.
pub fn output_row(shape: StreamShape, values: Vec<SqlValue>, input: &Row) -> (r: Row)
    ensures
        r@ == (shape.cols@, shape.rowtime, values@, input.arrival_rowtime),
{
    Row::new(crate::row::StreamColumns { shape, values }, input.arrival_rowtime)
}

/// What a projecting pump writes for a row: its projected values under the
/// downstream shape, or nothing when the filter drops it.
pub open spec fn pumped(input: RowView, shape_cols: Seq<crate::row::ColumnDefinition>, rowtime: Option<String>, projection: Seq<ValueExpr>, filter: Option<ValueExpr>) -> Option<RowView> {
    match project_spec(input.2, projection, filter) {
        Ok(Some(vals)) => Some((shape_cols, rowtime, vals, input.3)),
        _ => None,
    }
}

/// What a projecting pump writes for a run of rows, in order: each row's
/// projection, leaving out the rows its filter drops.
pub open spec fn pumped_all(
    inputs: Seq<RowView>,
    shape_cols: Seq<crate::row::ColumnDefinition>,
    rowtime: Option<String>,
    projection: Seq<ValueExpr>,
    filter: Option<ValueExpr>,
) -> Seq<RowView>
    decreases inputs.len(),
{
    if inputs.len() == 0 {
        Seq::empty()
    } else {
        let prev = pumped_all(inputs.drop_last(), shape_cols, rowtime, projection, filter);
        match pumped(inputs.last(), shape_cols, rowtime, projection, filter) {
            Some(o) => prev.push(o),
            None => prev,
        }
    }
}

/// Rows are neither lost, duplicated nor reordered on a path without a
/// window: if a reader's queue goes through `queues[0], queues[1], ...` as
/// a projecting pump handles `inputs[0], inputs[1], ...` one at a time (each
/// step appending that row's projection, or nothing when it is filtered
/// out), the queue ends as its first contents followed by the projections
/// of the inputs that pass, in input order.
pub proof fn lemma_pump_path(
    queues: Seq<Seq<RowView>>,
    inputs: Seq<RowView>,
    shape_cols: Seq<crate::row::ColumnDefinition>,
    rowtime: Option<String>,
    projection: Seq<ValueExpr>,
    filter: Option<ValueExpr>,
)
    requires
        queues.len() == inputs.len() + 1,
        forall|i: int| 0 <= i < inputs.len() ==> #[trigger] queues[i + 1] == match pumped(inputs[i], shape_cols, rowtime, projection, filter) {
            Some(o) => queues[i].push(o),
            None => queues[i],
        },
    ensures
        queues.last() == queues[0] + pumped_all(inputs, shape_cols, rowtime, projection, filter),
    decreases inputs.len(),
{
    if inputs.len() == 0 {
        assert(queues[0] + Seq::<RowView>::empty() =~= queues[0]);
    } else {
        let n = inputs.len() - 1;
        let qs = queues.subrange(0, n + 1);
        let ins = inputs.drop_last();
        assert forall|i: int| 0 <= i < ins.len() implies #[trigger] qs[i + 1] == match pumped(ins[i], shape_cols, rowtime, projection, filter) {
            Some(o) => qs[i].push(o),
            None => qs[i],
        } by {
            assert(qs[i + 1] == queues[i + 1] && qs[i] == queues[i] && ins[i] == inputs[i]);
        }
        lemma_pump_path(qs, ins, shape_cols, rowtime, projection, filter);
        assert(qs.last() == queues[n]);
        assert(inputs.last() == inputs[n]);
        assert(queues[n + 1] == queues.last());
        let prev = pumped_all(ins, shape_cols, rowtime, projection, filter);
        match pumped(inputs[n], shape_cols, rowtime, projection, filter) {
            Some(o) => {
                assert(queues[0] + prev.push(o) =~= (queues[0] + prev).push(o));
            },
            None => {},
        }
    }
}

} // verus!
