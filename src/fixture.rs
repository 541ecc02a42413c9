//! Ready-made values for examples and tests: timestamps, shapes, streams,
//! rows, and the sample pipelines of the scheduler's documentation.
use vstd::prelude::*;
use crate::json::{JsonObject, JsonValue};
use crate::pipeline::{
    Options, Pipeline, PipelineVersion, PumpModel, PumpName, PumpQuery, SinkWriterModel,
    SourceReaderModel, StreamKind, StreamModel,
};
use crate::row::{ColumnDataType, ColumnDefinition, Row, StreamColumns, StreamShape};
use crate::task_graph::TaskId;
use crate::time::Timestamp;
use crate::value::{NnSqlValue, SqlType, SqlValue};

verus! {

broadcast use vstd::string::to_string_from_display_ensures_for_str;

impl Timestamp {
    /// 2000-01-01 12:00:00.123456789
    pub fn fx_now() -> (r: Timestamp)
        ensures
            r.wf(),
            r.nanos == 946_728_000_123_456_789,
    {
        Timestamp { nanos: 946_728_000_123_456_789 }
    }

    /// 2021-01-01 13:00:00.000000001
    pub fn fx_ts1() -> (r: Timestamp)
        ensures
            r.wf(),
            r.nanos == 1_609_506_000_000_000_001,
    {
        Timestamp { nanos: 1_609_506_000_000_000_001 }
    }

    /// 2021-01-01 13:00:00.000000002
    pub fn fx_ts2() -> (r: Timestamp)
        ensures
            r.wf(),
            r.nanos == 1_609_506_000_000_000_002,
    {
        Timestamp { nanos: 1_609_506_000_000_000_002 }
    }

    /// 2021-01-01 13:00:00.000000003
    pub fn fx_ts3() -> (r: Timestamp)
        ensures
            r.wf(),
            r.nanos == 1_609_506_000_000_000_003,
    {
        Timestamp { nanos: 1_609_506_000_000_000_003 }
    }
}

impl ColumnDataType {
    pub fn fx_timestamp() -> (r: ColumnDataType)
        ensures
            r.column@ == "timestamp"@,
            r.sql_type == SqlType::Timestamp,
            !r.nullable,
    {
        ColumnDataType::new("timestamp".to_string(), SqlType::timestamp(), false)
    }

    pub fn fx_city() -> (r: ColumnDataType)
        ensures
            r.column@ == "city"@,
            r.sql_type == SqlType::Text,
            !r.nullable,
    {
        ColumnDataType::new("city".to_string(), SqlType::text(), false)
    }

    pub fn fx_temperature() -> (r: ColumnDataType)
        ensures
            r.column@ == "temperature"@,
            r.sql_type == SqlType::Integer,
            !r.nullable,
    {
        ColumnDataType::new("temperature".to_string(), SqlType::integer(), false)
    }

    pub fn fx_ticker() -> (r: ColumnDataType)
        ensures
            r.column@ == "ticker"@,
            r.sql_type == SqlType::Text,
            !r.nullable,
    {
        ColumnDataType::new("ticker".to_string(), SqlType::text(), false)
    }

    pub fn fx_amount() -> (r: ColumnDataType)
        ensures
            r.column@ == "amount"@,
            r.sql_type == SqlType::SmallInt,
            !r.nullable,
    {
        ColumnDataType::new("amount".to_string(), SqlType::small_int(), false)
    }
}

impl ColumnDefinition {
    pub fn fx_timestamp() -> (r: ColumnDefinition)
        ensures
            r.column_data_type.column@ == "timestamp"@,
            r.column_data_type.sql_type == SqlType::Timestamp,
            !r.column_data_type.nullable,
    {
        ColumnDefinition::new(ColumnDataType::fx_timestamp())
    }

    pub fn fx_city() -> (r: ColumnDefinition)
        ensures
            r.column_data_type.column@ == "city"@,
            r.column_data_type.sql_type == SqlType::Text,
            !r.column_data_type.nullable,
    {
        ColumnDefinition::new(ColumnDataType::fx_city())
    }

    pub fn fx_temperature() -> (r: ColumnDefinition)
        ensures
            r.column_data_type.column@ == "temperature"@,
            r.column_data_type.sql_type == SqlType::Integer,
            !r.column_data_type.nullable,
    {
        ColumnDefinition::new(ColumnDataType::fx_temperature())
    }

    pub fn fx_ticker() -> (r: ColumnDefinition)
        ensures
            r.column_data_type.column@ == "ticker"@,
            r.column_data_type.sql_type == SqlType::Text,
            !r.column_data_type.nullable,
    {
        ColumnDefinition::new(ColumnDataType::fx_ticker())
    }

    pub fn fx_amount() -> (r: ColumnDefinition)
        ensures
            r.column_data_type.column@ == "amount"@,
            r.column_data_type.sql_type == SqlType::SmallInt,
            !r.column_data_type.nullable,
    {
        ColumnDefinition::new(ColumnDataType::fx_amount())
    }
}

impl StreamShape {
    /// `(timestamp TIMESTAMP NOT NULL ROWTIME, city TEXT NOT NULL, temperature INTEGER NOT NULL)`
    pub fn fx_city_temperature() -> (r: StreamShape)
        ensures
            r.cols@.len() == 3,
            city_temperature_shape(r),
    {
        StreamShape {
            cols: vec![ColumnDefinition::fx_timestamp(), ColumnDefinition::fx_city(), ColumnDefinition::fx_temperature()],
            rowtime: Some("timestamp".to_string()),
        }
    }

    /// `(timestamp TIMESTAMP NOT NULL ROWTIME, ticker TEXT NOT NULL, amount SMALLINT NOT NULL)`
    pub fn fx_ticker() -> (r: StreamShape)
        ensures
            r.cols@.len() == 3,
            ticker_shape(r),
    {
        StreamShape {
            cols: vec![ColumnDefinition::fx_timestamp(), ColumnDefinition::fx_ticker(), ColumnDefinition::fx_amount()],
            rowtime: Some("timestamp".to_string()),
        }
    }
}

impl StreamModel {
    pub fn fx_city_temperature() -> (r: StreamModel)
        ensures
            city_temperature_shape(r.shape),
            r.name@ == "city_temperature"@,
            r.shape.cols@.len() == 3,
            r.options.entries@.len() == 0,
    {
        StreamModel::new("city_temperature".to_string(), StreamShape::fx_city_temperature(), Options::empty())
    }

    pub fn fx_ticker() -> (r: StreamModel)
        ensures
            ticker_shape(r.shape),
            r.name@ == "ticker"@,
            r.shape.cols@.len() == 3,
            r.options.entries@.len() == 0,
    {
        StreamModel::new("ticker".to_string(), StreamShape::fx_ticker(), Options::empty())
    }

    pub fn fx_ticker_window() -> (r: StreamModel)
        ensures
            ticker_shape(r.shape),
            r.name@ == "ticker_window"@,
            r.shape.cols@.len() == 3,
            r.options.entries@.len() == 0,
    {
        StreamModel::new("ticker_window".to_string(), StreamShape::fx_ticker(), Options::empty())
    }
}

impl PumpName {
    pub fn fx_ticker_window() -> (r: PumpName)
        ensures
            r.name@ == "ticker_window"@,
    {
        PumpName::new("ticker_window".to_string())
    }
}

impl StreamColumns {
    /// A city-temperature row's columns.
    pub fn factory_city_temperature(ts: Timestamp, city: &str, temperature: i32) -> (r: StreamColumns)
        ensures
            r.wf(),
            r.shape.cols@.len() == 3,
            city_temperature_values(r.values@, ts, city@, temperature),
    {
        StreamColumns {
            shape: StreamShape::fx_city_temperature(),
            values: vec![
                SqlValue::NotNull(NnSqlValue::Timestamp(ts)),
                SqlValue::NotNull(NnSqlValue::Text(city.to_string())),
                SqlValue::NotNull(NnSqlValue::Integer(temperature)),
            ],
        }
    }

    pub fn fx_tokyo(ts: Timestamp) -> (r: StreamColumns)
        ensures
            r.wf(),
            city_temperature_values(r.values@, ts, "Tokyo"@, 21),
    {
        StreamColumns::factory_city_temperature(ts, "Tokyo", 21)
    }

    pub fn fx_osaka(ts: Timestamp) -> (r: StreamColumns)
        ensures
            r.wf(),
            city_temperature_values(r.values@, ts, "Osaka"@, 23),
    {
        StreamColumns::factory_city_temperature(ts, "Osaka", 23)
    }

    pub fn fx_london(ts: Timestamp) -> (r: StreamColumns)
        ensures
            r.wf(),
            city_temperature_values(r.values@, ts, "London"@, 13),
    {
        StreamColumns::factory_city_temperature(ts, "London", 13)
    }
}

impl Row {
    pub fn fx_tokyo(ts: Timestamp) -> (r: Row)
        ensures
            r.columns.wf(),
            r.columns.shape.cols@.len() == 3,
            city_temperature_values(r.columns.values@, ts, "Tokyo"@, 21),
            r.arrival_rowtime.nanos == 946_728_000_123_456_789,
    {
        Row::new(StreamColumns::fx_tokyo(ts), Timestamp::fx_now())
    }

    pub fn fx_osaka(ts: Timestamp) -> (r: Row)
        ensures
            r.columns.wf(),
            r.columns.shape.cols@.len() == 3,
            city_temperature_values(r.columns.values@, ts, "Osaka"@, 23),
            r.arrival_rowtime.nanos == 946_728_000_123_456_789,
    {
        Row::new(StreamColumns::fx_osaka(ts), Timestamp::fx_now())
    }

    pub fn fx_london(ts: Timestamp) -> (r: Row)
        ensures
            r.columns.wf(),
            r.columns.shape.cols@.len() == 3,
            city_temperature_values(r.columns.values@, ts, "London"@, 13),
            r.arrival_rowtime.nanos == 946_728_000_123_456_789,
    {
        Row::new(StreamColumns::fx_london(ts), Timestamp::fx_now())
    }
}

impl Row {
    /// A row of a stream without ROWTIME column: `(city, temperature)`, arrived at `fx_now`.
    pub fn fx_no_promoted_rowtime() -> (r: Row)
        ensures
            r.columns.wf(),
            r.columns.shape.rowtime is None,
            r.arrival_rowtime.nanos == 946_728_000_123_456_789,
    {
        Row::new(
            StreamColumns {
                shape: StreamShape { cols: vec![ColumnDefinition::fx_city(), ColumnDefinition::fx_temperature()], rowtime: None },
                values: vec![
                    SqlValue::NotNull(NnSqlValue::Text("Tokyo".to_string())),
                    SqlValue::NotNull(NnSqlValue::Integer(21)),
                ],
            },
            Timestamp::fx_now(),
        )
    }
}

impl JsonObject {
    fn fx_city_temperature(ts: Timestamp, city: &str, temperature: i64) -> (r: JsonObject)
        ensures
            r.members@.len() == 3,
            r.members@[0].0@ == "timestamp"@ && (r.members@[0].1 matches JsonValue::Text(t) && t@ == crate::time::formatted_timestamp(ts@, crate::time::TIMESTAMP_FORMAT@)),
            r.members@[1].0@ == "city"@ && (r.members@[1].1 matches JsonValue::Text(c) && c@ == city@),
            r.members@[2].0@ == "temperature"@ && r.members@[2].1 == JsonValue::Number(Some(temperature)),
    {
        JsonObject {
            members: vec![
                ("timestamp".to_string(), JsonValue::Text(ts.to_text())),
                ("city".to_string(), JsonValue::Text(city.to_string())),
                ("temperature".to_string(), JsonValue::Number(Some(temperature))),
            ],
        }
    }

    pub fn fx_tokyo(ts: Timestamp) -> (r: JsonObject)
        ensures
            r.members@.len() == 3,
            r.members@[1].1 matches JsonValue::Text(x) && x@ == "Tokyo"@,
            r.members@[2].1 == JsonValue::Number(Some(21)),
    {
        JsonObject::fx_city_temperature(ts, "Tokyo", 21)
    }

    pub fn fx_osaka(ts: Timestamp) -> (r: JsonObject)
        ensures
            r.members@.len() == 3,
            r.members@[1].1 matches JsonValue::Text(x) && x@ == "Osaka"@,
            r.members@[2].1 == JsonValue::Number(Some(23)),
    {
        JsonObject::fx_city_temperature(ts, "Osaka", 23)
    }

    pub fn fx_london(ts: Timestamp) -> (r: JsonObject)
        ensures
            r.members@.len() == 3,
            r.members@[1].1 matches JsonValue::Text(x) && x@ == "London"@,
            r.members@[2].1 == JsonValue::Number(Some(13)),
    {
        JsonObject::fx_city_temperature(ts, "London", 13)
    }
}

impl TaskId {
    pub fn fx_a() -> (r: TaskId)
        ensures
            r.name@ == "a"@,
    {
        TaskId::new("a".to_string())
    }

    pub fn fx_b() -> (r: TaskId)
        ensures
            r.name@ == "b"@,
    {
        TaskId::new("b".to_string())
    }

    pub fn fx_c() -> (r: TaskId)
        ensures
            r.name@ == "c"@,
    {
        TaskId::new("c".to_string())
    }

    pub fn fx_d() -> (r: TaskId)
        ensures
            r.name@ == "d"@,
    {
        TaskId::new("d".to_string())
    }

    pub fn fx_e() -> (r: TaskId)
        ensures
            r.name@ == "e"@,
    {
        TaskId::new("e".to_string())
    }

    pub fn fx_f() -> (r: TaskId)
        ensures
            r.name@ == "f"@,
    {
        TaskId::new("f".to_string())
    }

    pub fn fx_g() -> (r: TaskId)
        ensures
            r.name@ == "g"@,
    {
        TaskId::new("g".to_string())
    }

    pub fn fx_h() -> (r: TaskId)
        ensures
            r.name@ == "h"@,
    {
        TaskId::new("h".to_string())
    }

    pub fn fx_i() -> (r: TaskId)
        ensures
            r.name@ == "i"@,
    {
        TaskId::new("i".to_string())
    }

    pub fn fx_j() -> (r: TaskId)
        ensures
            r.name@ == "j"@,
    {
        TaskId::new("j".to_string())
    }

    pub fn fx_k() -> (r: TaskId)
        ensures
            r.name@ == "k"@,
    {
        TaskId::new("k".to_string())
    }

    pub fn fx_l() -> (r: TaskId)
        ensures
            r.name@ == "l"@,
    {
        TaskId::new("l".to_string())
    }

    pub fn fx_m() -> (r: TaskId)
        ensures
            r.name@ == "m"@,
    {
        TaskId::new("m".to_string())
    }
}

/// `(timestamp TIMESTAMP NOT NULL ROWTIME, city TEXT NOT NULL, temperature INTEGER NOT NULL)`
pub open spec fn city_temperature_shape(r: StreamShape) -> bool {
    &&& r.cols@.len() == 3
    &&& r.cols@[0].column_data_type.column@ == "timestamp"@ && r.cols@[0].column_data_type.sql_type == SqlType::Timestamp
    &&& r.cols@[1].column_data_type.column@ == "city"@ && r.cols@[1].column_data_type.sql_type == SqlType::Text
    &&& r.cols@[2].column_data_type.column@ == "temperature"@ && r.cols@[2].column_data_type.sql_type == SqlType::Integer
    &&& forall|i: int| 0 <= i < 3 ==> !(#[trigger] r.cols@[i]).column_data_type.nullable
    &&& r.rowtime matches Some(n) && n@ == "timestamp"@
}

/// `(timestamp TIMESTAMP NOT NULL ROWTIME, ticker TEXT NOT NULL, amount SMALLINT NOT NULL)`
pub open spec fn ticker_shape(r: StreamShape) -> bool {
    &&& r.cols@.len() == 3
    &&& r.cols@[0].column_data_type.column@ == "timestamp"@ && r.cols@[0].column_data_type.sql_type == SqlType::Timestamp
    &&& r.cols@[1].column_data_type.column@ == "ticker"@ && r.cols@[1].column_data_type.sql_type == SqlType::Text
    &&& r.cols@[2].column_data_type.column@ == "amount"@ && r.cols@[2].column_data_type.sql_type == SqlType::SmallInt
    &&& forall|i: int| 0 <= i < 3 ==> !(#[trigger] r.cols@[i]).column_data_type.nullable
    &&& r.rowtime matches Some(n) && n@ == "timestamp"@
}

/// `(timestamp, city, temperature)` values.
pub open spec fn city_temperature_values(vs: Seq<SqlValue>, ts: Timestamp, city: Seq<char>, temperature: i32) -> bool {
    &&& vs.len() == 3
    &&& vs[0] == SqlValue::NotNull(NnSqlValue::Timestamp(ts))
    &&& vs[1] matches SqlValue::NotNull(NnSqlValue::Text(c)) && c@ == city
    &&& vs[2] == SqlValue::NotNull(NnSqlValue::Integer(temperature))
}

fn fx_stream(name: &str, kind: StreamKind) -> (StreamModel, StreamKind) {
    (StreamModel::new(name.to_string(), StreamShape { cols: Vec::new(), rowtime: None }, Options::empty()), kind)
}

fn fx_reader(name: &str, stream: &str) -> SourceReaderModel {
    SourceReaderModel { name: name.to_string(), stream: stream.to_string(), queue: name.to_string() }
}

fn fx_pump(name: &str, upstream: &str, downstream: &str) -> PumpModel {
    PumpModel {
        name: PumpName::new(name.to_string()),
        upstream: upstream.to_string(),
        downstream: downstream.to_string(),
        query: PumpQuery::Project { projection: Vec::new(), filter: None },
    }
}

fn fx_writer(name: &str, stream: &str) -> SinkWriterModel {
    SinkWriterModel { name: name.to_string(), stream: stream.to_string(), queue: name.to_string() }
}

impl Pipeline {
    /// `(0)--a-->[1]--b-->[2]--c-->`
    pub fn fx_linear() -> (r: Pipeline)
        ensures
            r.version.version == 0,
            r.streams@.len() == 2,
            r.pumps@.len() == 1,
            r.readers@.len() == 1,
            r.writers@.len() == 1,
    {
        Pipeline {
            version: PipelineVersion::new(),
            streams: vec![fx_stream("1", StreamKind::Source), fx_stream("2", StreamKind::Sink)],
            pumps: vec![fx_pump("b", "1", "2")],
            readers: vec![fx_reader("a", "1")],
            writers: vec![fx_writer("c", "2")],
        }
    }

    /// ```text
    /// (0)--a-->[1]--c-->[3]--e-->
    ///  |
    ///  +---b-->[2]--d-->[4]--f-->
    /// ```
    pub fn fx_split() -> (r: Pipeline)
        ensures
            r.version.version == 0,
            r.streams@.len() == 4,
            r.pumps@.len() == 2,
            r.readers@.len() == 2,
            r.writers@.len() == 2,
    {
        Pipeline {
            version: PipelineVersion::new(),
            streams: vec![
                fx_stream("1", StreamKind::Source),
                fx_stream("2", StreamKind::Source),
                fx_stream("3", StreamKind::Sink),
                fx_stream("4", StreamKind::Sink),
            ],
            pumps: vec![fx_pump("c", "1", "3"), fx_pump("d", "2", "4")],
            readers: vec![fx_reader("a", "1"), fx_reader("b", "2")],
            writers: vec![fx_writer("e", "3"), fx_writer("f", "4")],
        }
    }

    /// ```text
    /// (0)--a-->[1]--c-->[3]--e-->
    ///  |                 ^
    ///  |                 |
    ///  +---b-->[2]--d----+
    /// ```
    pub fn fx_split_merge() -> (r: Pipeline)
        ensures
            r.version.version == 0,
            r.streams@.len() == 3,
            r.pumps@.len() == 2,
            r.readers@.len() == 2,
            r.writers@.len() == 1,
    {
        Pipeline {
            version: PipelineVersion::new(),
            streams: vec![
                fx_stream("1", StreamKind::Source),
                fx_stream("2", StreamKind::Source),
                fx_stream("3", StreamKind::Sink),
            ],
            pumps: vec![fx_pump("c", "1", "3"), fx_pump("d", "2", "3")],
            readers: vec![fx_reader("a", "1"), fx_reader("b", "2")],
            writers: vec![fx_writer("e", "3")],
        }
    }

    /// ```text
    /// (0)--a-->[1]--c-->[3]--f-->[4]--g-->[5]--h-->[6]--j-->[8]--l-->
    ///  |                          ^       ^ |
    ///  |                          |       | |
    ///  +---b-->[2]-------d--------+       | +--i-->[7]--k-->[9]--m-->
    ///           |                         |
    ///           +--------------e----------+
    /// ```
    pub fn fx_complex() -> (r: Pipeline)
        ensures
            r.version.version == 0,
            r.streams@.len() == 9,
            r.pumps@.len() == 9,
            r.readers@.len() == 2,
            r.writers@.len() == 2,
    {
        Pipeline {
            version: PipelineVersion::new(),
            streams: vec![
                fx_stream("1", StreamKind::Source),
                fx_stream("2", StreamKind::Source),
                fx_stream("3", StreamKind::Intermediate),
                fx_stream("4", StreamKind::Intermediate),
                fx_stream("5", StreamKind::Intermediate),
                fx_stream("6", StreamKind::Intermediate),
                fx_stream("7", StreamKind::Intermediate),
                fx_stream("8", StreamKind::Sink),
                fx_stream("9", StreamKind::Sink),
            ],
            pumps: vec![
                fx_pump("c", "1", "3"),
                fx_pump("d", "2", "4"),
                fx_pump("e", "2", "5"),
                fx_pump("f", "3", "4"),
                fx_pump("g", "4", "5"),
                fx_pump("h", "5", "6"),
                fx_pump("i", "5", "7"),
                fx_pump("j", "6", "8"),
                fx_pump("k", "7", "9"),
            ],
            readers: vec![fx_reader("a", "1"), fx_reader("b", "2")],
            writers: vec![fx_writer("l", "8"), fx_writer("m", "9")],
        }
    }
}

} // verus!
