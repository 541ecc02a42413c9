//! An embedded streaming-SQL engine core: rows flow from sources through
//! pumps to sinks, with event-time windows, a flow-efficient scheduler and a
//! versioned pipeline that can be swapped while rows are in flight.
pub mod time;
pub mod error;
pub mod value;
pub mod window;
pub mod row;
pub mod json;
pub mod expression;
pub mod pipeline;
pub mod task_graph;
pub mod scheduler;
pub mod fixture;
pub mod queue;
pub mod task;
pub mod engine;
pub mod lock;
pub mod worker;
pub mod api;
