use springql::api::{
    spring_column, spring_column_i32, spring_column_text, spring_command, spring_open, spring_pop_non_blocking,
    spring_push, spring_run_cycle, SpringPipeline,
};
use springql::error::SpringError;
use springql::expression::{BinaryExpr, ComparisonFunction, ValueExpr};
use springql::json::SourceRow;
use springql::pipeline::{
    AlterPipelineCommand, Options, PumpModel, PumpName, PumpQuery, SinkWriterModel, SourceReaderModel, StreamModel,
};
use springql::row::{ColumnDataType, ColumnDefinition, StreamShape};
use springql::scheduler::FlowEfficientWorkerState;
use springql::pipeline::WindowOperation;
use springql::time::{EventDuration, Timestamp};
use springql::window::pane::AggregateFunction;
use springql::window::panes::WindowParameter;
use springql::value::{NnSqlValue, SqlType, SqlValue};

fn shape() -> StreamShape {
    StreamShape::new(
        vec![
            ColumnDefinition::new(ColumnDataType::new("ts".to_string(), SqlType::timestamp(), false)),
            ColumnDefinition::new(ColumnDataType::new("v".to_string(), SqlType::integer(), false)),
        ],
        Some("ts".to_string()),
    )
    .unwrap()
}

fn stream(name: &str) -> StreamModel {
    StreamModel::new(name.to_string(), shape(), Options::empty())
}

fn pump(filter: Option<ValueExpr>) -> PumpModel {
    PumpModel {
        name: PumpName::new("p".to_string()),
        upstream: "s".to_string(),
        downstream: "k".to_string(),
        query: PumpQuery::Project { projection: vec![ValueExpr::Column(0), ValueExpr::Column(1)], filter },
    }
}

fn open_identity(filter: Option<ValueExpr>) -> SpringPipeline {
    let mut p = spring_open().unwrap();
    spring_command(&mut p, AlterPipelineCommand::CreateSourceStream(stream("s"))).unwrap();
    spring_command(&mut p, AlterPipelineCommand::CreateSinkStream(stream("k"))).unwrap();
    spring_command(&mut p, AlterPipelineCommand::CreatePump(pump(filter))).unwrap();
    spring_command(
        &mut p,
        AlterPipelineCommand::CreateSinkWriter(SinkWriterModel {
            name: "w".to_string(),
            stream: "k".to_string(),
            queue: "out".to_string(),
        }),
    )
    .unwrap();
    spring_command(
        &mut p,
        AlterPipelineCommand::CreateSourceReader(SourceReaderModel {
            name: "r".to_string(),
            stream: "s".to_string(),
            queue: "in".to_string(),
        }),
    )
    .unwrap();
    p
}

fn push(p: &mut SpringPipeline, json: &str) -> Result<(), SpringError> {
    spring_push(p, &"in".to_string(), SourceRow::from_json(json).unwrap(), Timestamp::fx_now())
}

fn drain(p: &mut SpringPipeline) {
    let mut w = FlowEfficientWorkerState::default();
    for _ in 0..30 {
        let (next, _, r) = spring_run_cycle(p, 0, w);
        r.unwrap();
        w = next;
    }
}

fn pop_v(p: &mut SpringPipeline) -> Option<i32> {
    spring_pop_non_blocking(p, &"out".to_string())
        .unwrap()
        .map(|row| spring_column_i32(&row, 1).unwrap().unwrap())
}

#[test]
fn identity_pipeline() {
    let mut p = open_identity(None);
    push(&mut p, r#"{"ts": "2022-01-01T00:00:00.000000000", "v": 1}"#).unwrap();
    push(&mut p, r#"{"ts": "2022-01-01T00:00:00.000000001", "v": 2}"#).unwrap();
    drain(&mut p);
    let first = spring_pop_non_blocking(&mut p, &"out".to_string()).unwrap().unwrap();
    assert_eq!(
        spring_column(&first, 0),
        Ok(Some(NnSqlValue::Timestamp(Timestamp::parse("2022-01-01 00:00:00.000000000").unwrap())))
    );
    assert_eq!(spring_column_i32(&first, 1), Ok(Some(1)));
    assert_eq!(pop_v(&mut p), Some(2));
    assert_eq!(pop_v(&mut p), None);
}

#[test]
fn filtered_pump_passes_only_matching_rows() {
    let filter = ValueExpr::Binary(Box::new(BinaryExpr::ComparisonFunctionVariant(
        ComparisonFunction::GreaterThanVariant {
            left: Box::new(ValueExpr::Column(1)),
            right: Box::new(ValueExpr::Constant(SqlValue::NotNull(NnSqlValue::Integer(10)))),
        },
    )));
    let mut p = open_identity(Some(filter));
    push(&mut p, r#"{"ts": "2022-01-01 00:00:00.000000000", "v": 5}"#).unwrap();
    push(&mut p, r#"{"ts": "2022-01-01 00:00:01.000000000", "v": 50}"#).unwrap();
    drain(&mut p);
    assert_eq!(pop_v(&mut p), Some(50));
    assert_eq!(pop_v(&mut p), None);
}

#[test]
fn rows_flow_in_order_through_reconfiguration() {
    let mut p = open_identity(None);
    push(&mut p, r#"{"ts": "2022-01-01 00:00:00.000000000", "v": 1}"#).unwrap();
    // A further command swaps in a new graph; the queued row is kept.
    spring_command(&mut p, AlterPipelineCommand::CreateStream(stream("unused"))).unwrap();
    push(&mut p, r#"{"ts": "2022-01-01 00:00:01.000000000", "v": 2}"#).unwrap();
    drain(&mut p);
    assert_eq!(pop_v(&mut p), Some(1));
    assert_eq!(pop_v(&mut p), Some(2));
}

#[test]
fn versions_strictly_increase() {
    let mut p = spring_open().unwrap();
    assert_eq!(p.engine.pipeline.version.version, 0);
    spring_command(&mut p, AlterPipelineCommand::CreateSourceStream(stream("s"))).unwrap();
    assert_eq!(p.engine.pipeline.version.version, 1);
    spring_command(&mut p, AlterPipelineCommand::CreateSinkStream(stream("k"))).unwrap();
    assert_eq!(p.engine.pipeline.version.version, 2);
    // a name used twice, and a pump from an unknown stream, are refused
    assert_eq!(spring_command(&mut p, AlterPipelineCommand::CreateSinkStream(stream("k"))), Err(SpringError::Sql));
    let mut bad = pump(None);
    bad.upstream = "missing".to_string();
    assert_eq!(spring_command(&mut p, AlterPipelineCommand::CreatePump(bad)), Err(SpringError::Sql));
    assert_eq!(p.engine.pipeline.version.version, 2);
}

#[test]
fn backpressure_on_full_queue() {
    let mut p = open_identity(None);
    p.engine.queue_capacity = 1;
    // rebuild the queues with the new capacity
    spring_command(&mut p, AlterPipelineCommand::CreateStream(stream("x"))).unwrap();
    let mut q = springql::queue::RowQueue::new(1);
    assert!(q.push(springql::row::Row::fx_tokyo(Timestamp::fx_ts1())).is_ok());
    let second = q.push(springql::row::Row::fx_osaka(Timestamp::fx_ts2()));
    assert!(matches!(second, Err((SpringError::Unavailable, _))));
    assert_eq!(q.len(), 1);
}

#[test]
fn unknown_queues_are_unavailable() {
    let mut p = open_identity(None);
    assert_eq!(
        spring_push(&mut p, &"nope".to_string(), SourceRow::from_json("{}").unwrap(), Timestamp::fx_now()),
        Err(SpringError::Unavailable)
    );
    assert!(matches!(spring_pop_non_blocking(&mut p, &"nope".to_string()), Err(SpringError::Unavailable)));
    assert_eq!(push(&mut p, r#"{"ts": "2022-01-01 00:00:00.000000000"}"#), Err(SpringError::InvalidFormat));
}

#[test]
fn column_getters() {
    let mut p = open_identity(None);
    push(&mut p, r#"{"ts": "2022-01-01 00:00:00.000000000", "v": 7}"#).unwrap();
    drain(&mut p);
    let row = spring_pop_non_blocking(&mut p, &"out".to_string()).unwrap().unwrap();
    assert_eq!(spring_column_i32(&row, 5), Err(SpringError::Unavailable));
    assert_eq!(spring_column_text(&row, 1), Err(SpringError::Sql));
    assert_eq!(spring_column_i32(&row, 0), Err(SpringError::Sql));
}

#[test]
fn window_state_survives_reconfiguration() {
    let mut p = spring_open().unwrap();
    spring_command(&mut p, AlterPipelineCommand::CreateSourceStream(stream("s"))).unwrap();
    spring_command(&mut p, AlterPipelineCommand::CreateSinkStream(stream("k"))).unwrap();
    let window = WindowParameter {
        length: EventDuration::from_secs(10),
        period: EventDuration::from_secs(5),
        allowed_delay: EventDuration::from_secs(0),
    };
    spring_command(
        &mut p,
        AlterPipelineCommand::CreatePump(PumpModel {
            name: PumpName::new("p".to_string()),
            upstream: "s".to_string(),
            downstream: "k".to_string(),
            query: PumpQuery::Window(WindowOperation { window, group_by: 1, aggregated: 1, function: AggregateFunction::Sum }),
        }),
    )
    .unwrap();
    spring_command(
        &mut p,
        AlterPipelineCommand::CreateSinkWriter(SinkWriterModel { name: "w".to_string(), stream: "k".to_string(), queue: "out".to_string() }),
    )
    .unwrap();
    spring_command(
        &mut p,
        AlterPipelineCommand::CreateSourceReader(SourceReaderModel { name: "r".to_string(), stream: "s".to_string(), queue: "in".to_string() }),
    )
    .unwrap();
    push(&mut p, r#"{"ts": "2022-01-01 00:00:07.000000000", "v": 3}"#).unwrap();
    drain(&mut p);
    let pump_task = p.engine.pipeline.readers.len();
    let before = p.engine.windows[pump_task].as_ref().unwrap().watermark;
    assert_eq!(before.max_rowtime, Timestamp::parse("2022-01-01 00:00:07.000000000").unwrap());
    spring_command(&mut p, AlterPipelineCommand::CreateStream(stream("other"))).unwrap();
    let after = p.engine.windows[pump_task].as_ref().unwrap().watermark;
    assert_eq!(after, before);
    // Panes opened before the swap still close and emit.
    push(&mut p, r#"{"ts": "2022-01-01 00:00:16.000000000", "v": 4}"#).unwrap();
    drain(&mut p);
    let row = spring_pop_non_blocking(&mut p, &"out".to_string()).unwrap().unwrap();
    assert_eq!(spring_column(&row, 2), Ok(Some(NnSqlValue::BigInt(3))));
}

#[test]
fn unknown_stream_option_is_refused() {
    let mut p = spring_open().unwrap();
    let mut s = stream("s");
    s.options = Options { entries: vec![("COLOR".to_string(), "blue".to_string())] };
    assert_eq!(spring_command(&mut p, AlterPipelineCommand::CreateSourceStream(s)), Err(SpringError::InvalidOption));
    assert_eq!(p.engine.pipeline.version.version, 0);
    assert_eq!(p.engine.pipeline.streams.len(), 0);
}

#[test]
fn two_workers_never_share_a_task() {
    let mut p = open_identity(None);
    push(&mut p, r#"{"ts": "2022-01-01 00:00:00.000000000", "v": 1}"#).unwrap();
    push(&mut p, r#"{"ts": "2022-01-01 00:00:01.000000000", "v": 2}"#).unwrap();
    // Worker 1 takes the source task (the only one with input) and is still
    // inside it; worker 2 is handed another task, never the same one.
    let (_, t1, _) = spring_run_cycle(&mut p, 1, FlowEfficientWorkerState::default());
    let (_, t2, _) = spring_run_cycle(&mut p, 2, FlowEfficientWorkerState::default());
    assert_eq!(t1, Some(0));
    assert_ne!(t2, t1);
}
