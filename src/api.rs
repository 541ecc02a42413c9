//! The host-facing API: open a pipeline, apply commands, push rows in at
//! source queues and pop rows out at sink queues.
use vstd::prelude::*;
use crate::engine::{arrive, new_task, picked_first, starts_empty, first_reader, first_writer, input_id, keeps_queues, keeps_window, ran_task, runnable_spec, Engine};
use crate::error::SpringError;
use crate::json::{members_to_entries, SourceRow};
use crate::pipeline::{command_valid, options_ok, pipeline_added, find_stream, AlterPipelineCommand};
use crate::row::{bind_spec, entries_view, Row, StreamColumns};
use crate::scheduler::{rotate, FlowEfficientWorkerState};
use crate::time::Timestamp;
use crate::value::{NnSqlValue, SqlValue};

verus! {

/// Number of worker threads of a pipeline.
pub const N_WORKER_THREADS: usize = 2;

/// Rows each queue holds before back-pressure.
pub const DEFAULT_QUEUE_CAPACITY: usize = 1024;

/// One in-process stream pipeline.
pub struct SpringPipeline {
    pub engine: Engine,
    pub n_worker_threads: usize,
}

/// A row popped from an in-memory sink queue.
#[derive(Debug)]
pub struct SpringRow {
    pub row: Row,
}

impl SpringPipeline {
    pub open spec fn wf(&self) -> bool {
        self.engine.wf()
    }
}

/// Creates an in-process stream pipeline with no streams, at version 0.
pub fn spring_open() -> (r: Result<SpringPipeline, SpringError>)
    ensures
        r matches Ok(p) && p.wf() && p.engine.pipeline.version.version == 0 && p.n_worker_threads == N_WORKER_THREADS
            && p.engine.queue_capacity == DEFAULT_QUEUE_CAPACITY
            && p.engine.pipeline.streams@.len() == 0 && p.engine.pipeline.pumps@.len() == 0
            && p.engine.pipeline.readers@.len() == 0 && p.engine.pipeline.writers@.len() == 0
            && p.engine.edges().len() == 0,
{
    Ok(SpringPipeline { engine: Engine::new(DEFAULT_QUEUE_CAPACITY), n_worker_threads: N_WORKER_THREADS })
}

/// Applies a command produced by the planner. Each success raises the
/// pipeline version by exactly one, so successive commands produce strictly
/// increasing versions; a task that persists keeps its queues with their
/// rows, and a pump that persists keeps its window, so its watermark does
/// not go back. `Sql` when the command refers to an unknown stream,
/// reuses a name or is otherwise invalid; `InvalidOption` when a stream
/// carries an option key it does not recognize.
pub fn spring_command(pipeline: &mut SpringPipeline, command: AlterPipelineCommand) -> (r: Result<(), SpringError>)
    requires
        old(pipeline).wf(),
    ensures
        final(pipeline).wf(),
        r is Ok <==> command_valid(old(pipeline).engine.pipeline, command) && options_ok(command)
            && old(pipeline).engine.pipeline.version.version < u64::MAX,
        r is Ok ==> final(pipeline).engine.pipeline.version.version == old(pipeline).engine.pipeline.version.version + 1,
        r is Err ==> final(pipeline).engine.pipeline.version == old(pipeline).engine.pipeline.version,
        r is Err ==> final(pipeline).engine.pipeline.streams@ == old(pipeline).engine.pipeline.streams@
            && final(pipeline).engine.pipeline.pumps@ == old(pipeline).engine.pipeline.pumps@
            && final(pipeline).engine.pipeline.readers@ == old(pipeline).engine.pipeline.readers@
            && final(pipeline).engine.pipeline.writers@ == old(pipeline).engine.pipeline.writers@
            && final(pipeline).engine.scheduler == old(pipeline).engine.scheduler
            && final(pipeline).engine.repos == old(pipeline).engine.repos
            && final(pipeline).engine.sink_queues == old(pipeline).engine.sink_queues,
        r matches Err(e) ==> (e == SpringError::Sql <==> !command_valid(old(pipeline).engine.pipeline, command)),
        r matches Err(e) ==> (e == SpringError::InvalidOption <==> command_valid(old(pipeline).engine.pipeline, command)
            && !options_ok(command)),
        r is Ok ==> pipeline_added(old(pipeline).engine.pipeline, final(pipeline).engine.pipeline, command),
        r is Ok ==> forall|x: int| 0 <= x < final(pipeline).engine.edges().len()
            && #[trigger] new_task(old(pipeline).engine.tasks@, final(pipeline).engine.edges(), x) ==> starts_empty(final(pipeline).engine, x),
        r is Ok ==> forall|x: int, j: int| 0 <= x < final(pipeline).engine.edges().len() && 0 <= j < old(pipeline).engine.tasks@.len()
            ==> #[trigger] keeps_queues(old(pipeline).engine.tasks@, old(pipeline).engine.repos.row_queues@,
                old(pipeline).engine.repos.window_queues@, old(pipeline).engine.sink_queues@, final(pipeline).engine.edges(),
                final(pipeline).engine.repos.row_queues@, final(pipeline).engine.repos.window_queues@,
                final(pipeline).engine.sink_queues@, final(pipeline).engine.windows@, x, j),
        r is Ok ==> forall|x: int, j: int| 0 <= x < final(pipeline).engine.edges().len() && 0 <= j < old(pipeline).engine.tasks@.len()
            ==> #[trigger] keeps_window(old(pipeline).engine.tasks@, old(pipeline).engine.windows@, final(pipeline).engine.edges(), final(pipeline).engine.windows@, x, j),
{
    pipeline.engine.alter_pipeline(command)
}

/// The names and values a source row holds, when it holds only scalars.
pub open spec fn source_entries(row: SourceRow) -> Option<Seq<(Seq<char>, SqlValue)>> {
    match row {
        SourceRow::Json(o) => members_to_entries(o.members@),
        SourceRow::Raw(sr) => Some(entries_view(sr.columns@)),
    }
}

/// Pushes a row into the in-memory source queue `queue`, bound to the shape
/// of the stream its reader feeds, with arrival time `arrival`.
/// `Unavailable` when there is no such queue or it is full; `InvalidFormat`
/// when the row does not fit the stream's shape.
pub fn spring_push(pipeline: &mut SpringPipeline, queue: &String, row: SourceRow, arrival: Timestamp) -> (r: Result<(), SpringError>)
    requires
        old(pipeline).wf(),
    ensures
        final(pipeline).wf(),
        final(pipeline).engine.pipeline == old(pipeline).engine.pipeline,
        (forall|i: int| 0 <= i < old(pipeline).engine.pipeline.readers@.len()
            ==> (#[trigger] old(pipeline).engine.pipeline.readers@[i]).queue@ != queue@) ==> r == Err::<(), SpringError>(SpringError::Unavailable),
        r matches Err(e) ==> e == SpringError::Unavailable || e == SpringError::InvalidFormat,
        r is Err ==> final(pipeline).engine.repos.row_queues@.len() == old(pipeline).engine.repos.row_queues@.len(),
        forall|i: int, st: int| #[trigger] first_reader(old(pipeline).engine.pipeline.readers@, queue@, i)
            && 0 <= st < old(pipeline).engine.pipeline.streams@.len()
            && (#[trigger] old(pipeline).engine.pipeline.streams@[st]).0.name@ == old(pipeline).engine.pipeline.readers@[i].stream@ ==> {
            let shape = old(pipeline).engine.pipeline.streams@[st].0.shape;
            let bound = match source_entries(row) {
                Some(es) => bind_spec(es, shape.cols@),
                None => None,
            };
            let q = input_id(old(pipeline).engine.windows@, i);
            &&& bound is None ==> r == Err::<(), SpringError>(SpringError::InvalidFormat)
                && final(pipeline).engine.repos == old(pipeline).engine.repos
            &&& bound is Some ==> (r is Ok <==> old(pipeline).engine.repos.room(q))
            &&& r is Ok ==> final(pipeline).engine.repos.queue(q) == arrive(old(pipeline).engine.repos.queue(q),
                old(pipeline).engine.windows@[i] is Some, (shape.cols@, shape.rowtime, bound.unwrap(), arrival))
        },
{
    let i = match pipeline.engine.source_queue(queue) {
        Some(i) => i,
        None => { return Err(SpringError::Unavailable); },
    };
    let s = match find_stream(&pipeline.engine.pipeline.streams, &pipeline.engine.pipeline.readers[i].stream) {
        Some(s) => s,
        None => { return Err(SpringError::Unavailable); },
    };
    proof {
        let ss = pipeline.engine.pipeline.streams@;
        assert forall|st: int| 0 <= st < ss.len() && (#[trigger] ss[st]).0.name@ == pipeline.engine.pipeline.readers@[i as int].stream@
            implies st == s by {
            if st != s {
                assert(ss[st].0.name@ == ss[s as int].0.name@);
            }
        }
        assert forall|i2: int| #[trigger] first_reader(pipeline.engine.pipeline.readers@, queue@, i2) implies i2 == i by {
            if i2 < i { assert(pipeline.engine.pipeline.readers@[i2].queue@ != queue@); }
            if i2 > i { assert(pipeline.engine.pipeline.readers@[i as int].queue@ != queue@); }
        }
    }
    let shape = pipeline.engine.pipeline.streams[s].0.shape.copy_value();
    let schemaless = row.into_schemaless()?;
    let columns = StreamColumns::from_schemaless(&schemaless, shape)?;
    let row = Row::new(columns, arrival);
    pipeline.engine.push(queue, row)
}

/// Pops a row from the in-memory sink queue `queue`: `Ok(None)` when it is
/// empty; `Unavailable` when there is no such queue.
pub fn spring_pop_non_blocking(pipeline: &mut SpringPipeline, queue: &String) -> (r: Result<Option<SpringRow>, SpringError>)
    requires
        old(pipeline).wf(),
    ensures
        final(pipeline).wf(),
        final(pipeline).engine.pipeline == old(pipeline).engine.pipeline,
        r is Err <==> forall|i: int| 0 <= i < old(pipeline).engine.pipeline.writers@.len()
            ==> (#[trigger] old(pipeline).engine.pipeline.writers@[i]).queue@ != queue@,
        r matches Err(e) ==> e == SpringError::Unavailable,
        final(pipeline).engine.repos == old(pipeline).engine.repos,
        forall|w: int| #[trigger] first_writer(old(pipeline).engine.pipeline.writers@, queue@, w) ==> {
            let k = old(pipeline).engine.pipeline.readers@.len() + old(pipeline).engine.pipeline.pumps@.len() + w;
            &&& old(pipeline).engine.sink_queues@[k]@.len() == 0 ==> (r matches Ok(None))
                && final(pipeline).engine.sink_queues@[k]@ == old(pipeline).engine.sink_queues@[k]@
            &&& old(pipeline).engine.sink_queues@[k]@.len() > 0 ==> (r matches Ok(Some(row)) && row.row@ == old(pipeline).engine.sink_queues@[k]@[0])
                && final(pipeline).engine.sink_queues@[k]@ == old(pipeline).engine.sink_queues@[k]@.drop_first()
        },
{
    match pipeline.engine.pop_non_blocking(queue)? {
        Some(row) => Ok(Some(SpringRow { row })),
        None => Ok(None),
    }
}

/// Runs one cycle of worker `worker`: the next task of its rotation that
/// has input and no other worker inside runs once (see `Engine::step`).
pub fn spring_run_cycle(pipeline: &mut SpringPipeline, worker: u64, state: FlowEfficientWorkerState) -> (r: (
    FlowEfficientWorkerState,
    Option<usize>,
    Result<bool, SpringError>,
))
    requires
        old(pipeline).wf(),
    ensures
        final(pipeline).wf(),
        final(pipeline).engine.pipeline == old(pipeline).engine.pipeline,
        r.1 is None ==> r.2 == Ok::<bool, SpringError>(false) && final(pipeline).engine.repos == old(pipeline).engine.repos
            && final(pipeline).engine.sink_queues == old(pipeline).engine.sink_queues
            && forall|t: int| 0 <= t < old(pipeline).engine.scheduler.order@.len() ==> !old(pipeline).engine.scheduler.free_for(
                worker, runnable_spec(old(pipeline).engine), old(pipeline).engine.scheduler.order@[#[trigger] rotate(
                state.cursor as int, t, old(pipeline).engine.scheduler.order@.len() as int)] as int),
        r.1 matches Some(e) ==> picked_first(old(pipeline).engine.scheduler, worker, runnable_spec(old(pipeline).engine), state,
            e as int, r.0),
        r.1 matches Some(e) ==> e < old(pipeline).engine.edges().len()
            && old(pipeline).engine.scheduler.free_for(worker, runnable_spec(old(pipeline).engine), e as int)
            && final(pipeline).engine.scheduler.running@[e as int] == Some(worker)
            && ran_task(old(pipeline).engine, final(pipeline).engine, e as int, r.2),
{
    pipeline.engine.step(worker, state)
}

/// A column of a popped row: `Unavailable` when `i_col` is out of range;
/// `Ok(None)` for NULL.
pub fn spring_column(row: &SpringRow, i_col: usize) -> (r: Result<Option<NnSqlValue>, SpringError>)
    ensures
        i_col >= row.row.columns.values@.len() ==> r == Err::<Option<NnSqlValue>, SpringError>(SpringError::Unavailable),
        i_col < row.row.columns.values@.len() ==> r == Ok::<Option<NnSqlValue>, SpringError>(
            match row.row.columns.values@[i_col as int] {
                SqlValue::Null => None,
                SqlValue::NotNull(v) => Some(v),
            },
        ),
{
    if i_col >= row.row.columns.values.len() {
        return Err(SpringError::Unavailable);
    }
    match &row.row.columns.values[i_col] {
        SqlValue::Null => Ok(None),
        SqlValue::NotNull(v) => Ok(Some(v.copy_value())),
    }
}

/// An integer column: `Unavailable` when out of range, `Sql` when the
/// column is not an INTEGER, `Ok(None)` for NULL.
pub fn spring_column_i32(row: &SpringRow, i_col: usize) -> (r: Result<Option<i32>, SpringError>)
    ensures
        i_col >= row.row.columns.values@.len() ==> r == Err::<Option<i32>, SpringError>(SpringError::Unavailable),
        i_col < row.row.columns.values@.len() ==> match row.row.columns.values@[i_col as int] {
            SqlValue::Null => r == Ok::<Option<i32>, SpringError>(None),
            SqlValue::NotNull(NnSqlValue::Integer(x)) => r == Ok::<Option<i32>, SpringError>(Some(x)),
            SqlValue::NotNull(_) => r == Err::<Option<i32>, SpringError>(SpringError::Sql),
        },
{
    match spring_column(row, i_col)? {
        None => Ok(None),
        Some(NnSqlValue::Integer(x)) => Ok(Some(x)),
        Some(_) => Err(SpringError::Sql),
    }
}

/// A text column: `Unavailable` when out of range, `Sql` when the column is
/// not TEXT, `Ok(None)` for NULL.
pub fn spring_column_text(row: &SpringRow, i_col: usize) -> (r: Result<Option<String>, SpringError>)
    ensures
        i_col >= row.row.columns.values@.len() ==> r == Err::<Option<String>, SpringError>(SpringError::Unavailable),
        i_col < row.row.columns.values@.len() ==> match row.row.columns.values@[i_col as int] {
            SqlValue::Null => r == Ok::<Option<String>, SpringError>(None),
            SqlValue::NotNull(NnSqlValue::Text(s)) => r matches Ok(Some(t)) && t@ == s@,
            SqlValue::NotNull(_) => r == Err::<Option<String>, SpringError>(SpringError::Sql),
        },
{
    match spring_column(row, i_col)? {
        None => Ok(None),
        Some(NnSqlValue::Text(s)) => Ok(Some(s)),
        Some(_) => Err(SpringError::Sql),
    }
}

} // verus!
