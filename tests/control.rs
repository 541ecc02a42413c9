use springql::error::{handle_error, LogLevel, SpringError};
use springql::expression::{BinaryExpr, LogicalFunction, NumericalFunction, ValueExpr};
use springql::lock::TaskExecutorLock;
use springql::pipeline::PipelineVersion;
use springql::scheduler::FlowEfficientWorkerState;
use springql::value::{NnSqlValue, SqlValue};
use springql::worker::{handle_events, Event, PerformanceMetrics, WorkerLoopState};

#[test]
fn error_log_levels() {
    assert_eq!(handle_error(SpringError::InputTimeout), LogLevel::Trace);
    assert_eq!(handle_error(SpringError::ForeignSourceTimeout), LogLevel::Trace);
    assert_eq!(handle_error(SpringError::Unavailable), LogLevel::Warn);
    assert_eq!(handle_error(SpringError::ForeignIo), LogLevel::Warn);
    assert_eq!(handle_error(SpringError::Sql), LogLevel::Error);
    assert_eq!(handle_error(SpringError::ThreadPoisoned), LogLevel::Error);
}

#[test]
fn writer_excludes_task_execution() {
    let mut lock = TaskExecutorLock::new();
    let lease = lock.try_task_execution().unwrap();
    assert!(lock.pipeline_update().is_err());
    lock.release_task_execution(lease);
    let guard = lock.pipeline_update().unwrap();
    assert!(matches!(lock.try_task_execution(), Err(SpringError::Unavailable)));
    lock.release_pipeline_update(guard);
    assert!(lock.try_task_execution().is_ok());
}

#[test]
fn worker_takes_up_newer_pipelines_only() {
    let s = WorkerLoopState {
        pipeline_version: PipelineVersion { version: 3 },
        scheduler_state: FlowEfficientWorkerState { cursor: 4 },
        metrics: PerformanceMetrics::default(),
    };
    let polls = vec![
        Some(Event::UpdatePipeline { version: PipelineVersion { version: 2 } }),
        None,
        Some(Event::UpdatePerformanceMetrics { metrics: PerformanceMetrics { rows_in_queues: 9 } }),
    ];
    let r = handle_events(s, &polls);
    assert_eq!(r.pipeline_version.version, 3);
    assert_eq!(r.scheduler_state.cursor, 4);
    assert_eq!(r.metrics.rows_in_queues, 9);
    let r = handle_events(r, &vec![Some(Event::UpdatePipeline { version: PipelineVersion { version: 5 } })]);
    assert_eq!(r.pipeline_version.version, 5);
    assert_eq!(r.scheduler_state.cursor, 0);
}

fn b(v: Option<bool>) -> ValueExpr {
    ValueExpr::Constant(match v {
        None => SqlValue::Null,
        Some(x) => SqlValue::NotNull(NnSqlValue::Boolean(x)),
    })
}

fn and(l: ValueExpr, r: ValueExpr) -> ValueExpr {
    ValueExpr::Binary(Box::new(BinaryExpr::LogicalFunctionVariant(LogicalFunction::AndVariant {
        left: Box::new(l),
        right: Box::new(r),
    })))
}

fn or(l: ValueExpr, r: ValueExpr) -> ValueExpr {
    ValueExpr::Binary(Box::new(BinaryExpr::LogicalFunctionVariant(LogicalFunction::OrVariant {
        left: Box::new(l),
        right: Box::new(r),
    })))
}

#[test]
fn three_valued_logic() {
    let row = vec![];
    let t = SqlValue::NotNull(NnSqlValue::Boolean(true));
    let f = SqlValue::NotNull(NnSqlValue::Boolean(false));
    assert_eq!(and(b(None), b(Some(false))).eval(&row), Ok(f.clone()));
    assert_eq!(and(b(None), b(Some(true))).eval(&row), Ok(SqlValue::Null));
    assert_eq!(or(b(None), b(Some(true))).eval(&row), Ok(t.clone()));
    assert_eq!(or(b(None), b(Some(false))).eval(&row), Ok(SqlValue::Null));
    // short circuit: the right side's error is never reached
    assert_eq!(and(b(Some(false)), ValueExpr::Column(9)).eval(&row), Ok(f));
    assert_eq!(and(b(Some(true)), ValueExpr::Column(9)).eval(&row), Err(SpringError::Unavailable));
}

#[test]
fn arithmetic_propagates_null_and_checks_overflow() {
    let row = vec![SqlValue::NotNull(NnSqlValue::Integer(6)), SqlValue::Null];
    let add = |l: ValueExpr, r: ValueExpr| {
        ValueExpr::Binary(Box::new(BinaryExpr::NumericalFunctionVariant(NumericalFunction::AddVariant {
            left: Box::new(l),
            right: Box::new(r),
        })))
    };
    let mul = ValueExpr::Binary(Box::new(BinaryExpr::NumericalFunctionVariant(NumericalFunction::MulVariant {
        left: Box::new(ValueExpr::Column(0)),
        right: Box::new(ValueExpr::Constant(SqlValue::NotNull(NnSqlValue::SmallInt(7)))),
    })));
    assert_eq!(mul.eval(&row), Ok(SqlValue::NotNull(NnSqlValue::BigInt(42))));
    assert_eq!(add(ValueExpr::Column(0), ValueExpr::Column(1)).eval(&row), Ok(SqlValue::Null));
    let big = ValueExpr::Constant(SqlValue::NotNull(NnSqlValue::BigInt(i64::MAX)));
    assert_eq!(add(big, ValueExpr::Column(0)).eval(&row), Err(SpringError::Sql));
}
