use springql::error::SpringError;
use springql::json::{ARRIVAL_ROWTIME_COLUMN, from_json_value, to_json_value, ForeignSinkRow, JsonObject, JsonValue, SourceRow};
use springql::queue::{CollectSubtask, InQueueMetricsUpdateByCollect, QueueId, Repositories, RowQueue};
use springql::row::coerce_value;
use springql::row::{ColumnDataType, ColumnDefinition, Row, SchemalessRow, StreamColumns, StreamShape};
use springql::time::Timestamp;
use springql::value::{NnSqlValue, SqlConvertible, SqlType, SqlValue};

#[test]
fn test_from_row() {
    let row = Row::fx_tokyo(Timestamp::fx_ts1());

    let f_row = ForeignSinkRow {
        json: JsonObject {
            members: vec![
                ("timestamp".to_string(), JsonValue::Text(Timestamp::fx_ts1().to_text())),
                ("city".to_string(), JsonValue::Text("Tokyo".to_string())),
                ("temperature".to_string(), JsonValue::Number(Some(21))),
            ],
        },
    };

    assert_eq!(ForeignSinkRow::from_row(&row), f_row);
    assert_eq!(JsonObject::fx_tokyo(Timestamp::fx_ts1()), f_row.json);
}

#[test]
fn test_from_row_arrival_rowtime() {
    let row = Row::fx_no_promoted_rowtime();
    let f_row = ForeignSinkRow::from_row(&row);
    let f_json = f_row.json;
    let f_colvals = f_json.into_column_values().unwrap();
    let f_rowtime_sql_value = f_colvals
        .columns
        .iter()
        .find(|(name, _)| name.as_str() == ARRIVAL_ROWTIME_COLUMN)
        .map(|(_, v)| v.clone())
        .unwrap();

    if let SqlValue::NotNull(NnSqlValue::Text(text)) = f_rowtime_sql_value {
        let f_rowtime = Timestamp::parse(&text).unwrap();
        assert_eq!(f_rowtime, Timestamp::fx_now());
    } else {
        unreachable!()
    };
}

#[test]
fn sink_rows_leave_out_nulls() {
    let shape = StreamShape::new(
        vec![
            ColumnDefinition::new(ColumnDataType::new("a".to_string(), SqlType::integer(), true)),
            ColumnDefinition::new(ColumnDataType::new("b".to_string(), SqlType::boolean(), false)),
        ],
        None,
    )
    .unwrap();
    let row = Row::new(
        StreamColumns { shape, values: vec![SqlValue::Null, SqlValue::NotNull(NnSqlValue::Boolean(true))] },
        Timestamp::fx_now(),
    );
    let f = ForeignSinkRow::from_row(&row);
    assert_eq!(f.json.members[0], ("b".to_string(), JsonValue::Bool(true)));
    assert_eq!(f.json.members.len(), 2);
    assert_eq!(f.json.members[1].0, ARRIVAL_ROWTIME_COLUMN);
}

#[test]
fn timestamp_text_round_trip() {
    assert_eq!(Timestamp::fx_ts1().to_text(), "2021-01-01 13:00:00.000000001");
    assert_eq!(Timestamp::fx_now().to_text(), "2000-01-01 12:00:00.123456789");
    assert_eq!(Timestamp::parse("2021-01-01 13:00:00.000000002"), Some(Timestamp::fx_ts2()));
    assert_eq!(Timestamp::parse(&Timestamp::fx_ts3().to_text()), Some(Timestamp::fx_ts3()));
    assert_eq!(Timestamp::parse("not a time"), None);
    assert_eq!(Timestamp::parse("2021-01-01T13:00:00.000000001"), Some(Timestamp::fx_ts1()));
    assert_eq!(Timestamp::parse("1960-01-01 00:00:00.000000000").map(|t| t.nanos), Some(-315_619_200_000_000_000));
    assert_eq!(Timestamp::parse("1800-01-01 00:00:00.000000000"), None);
}

#[test]
fn stream_shape_rowtime_must_be_a_timestamp_column() {
    assert_eq!(
        StreamShape::new(vec![ColumnDefinition::fx_city()], Some("city".to_string())),
        Err(SpringError::Sql)
    );
    assert!(StreamShape::new(vec![ColumnDefinition::fx_timestamp()], Some("timestamp".to_string())).is_ok());
    assert_eq!(StreamShape::fx_ticker().cols[2], ColumnDefinition::fx_amount());
}

fn city_row(ts: &str, city: &str, temp: i64) -> SchemalessRow {
    SchemalessRow {
        columns: vec![
            ("timestamp".to_string(), SqlValue::NotNull(NnSqlValue::Text(ts.to_string()))),
            ("city".to_string(), SqlValue::NotNull(NnSqlValue::Text(city.to_string()))),
            ("temperature".to_string(), SqlValue::NotNull(NnSqlValue::BigInt(temp))),
        ],
    }
}

#[test]
fn binds_schemaless_row_to_shape() {
    let cols = StreamColumns::from_schemaless(&city_row("2021-01-01 13:00:00.000000001", "Tokyo", 21), StreamShape::fx_city_temperature()).unwrap();
    assert_eq!(cols, StreamColumns::fx_tokyo(Timestamp::fx_ts1()));
}

#[test]
fn binding_errors() {
    // integer out of range for INTEGER
    assert_eq!(
        StreamColumns::from_schemaless(&city_row("2021-01-01 13:00:00.000000001", "Tokyo", 1 << 40), StreamShape::fx_city_temperature()),
        Err(SpringError::InvalidFormat)
    );
    // text that is not a timestamp
    assert_eq!(
        StreamColumns::from_schemaless(&city_row("yesterday", "Tokyo", 21), StreamShape::fx_city_temperature()),
        Err(SpringError::InvalidFormat)
    );
    // unknown column
    let mut r = city_row("2021-01-01 13:00:00.000000001", "Tokyo", 21);
    r.columns.push(("extra".to_string(), SqlValue::Null));
    assert_eq!(StreamColumns::from_schemaless(&r, StreamShape::fx_city_temperature()), Err(SpringError::InvalidFormat));
    // missing NOT NULL column
    let mut r = city_row("2021-01-01 13:00:00.000000001", "Tokyo", 21);
    r.columns.pop();
    assert_eq!(StreamColumns::from_schemaless(&r, StreamShape::fx_city_temperature()), Err(SpringError::InvalidFormat));
}

#[test]
fn schemaless_row_round_trip() {
    let sr = SchemalessRow {
        columns: vec![
            ("timestamp".to_string(), SqlValue::NotNull(NnSqlValue::Timestamp(Timestamp::fx_ts2()))),
            ("city".to_string(), SqlValue::NotNull(NnSqlValue::Text("Osaka".to_string()))),
            ("temperature".to_string(), SqlValue::NotNull(NnSqlValue::Integer(23))),
        ],
    };
    let cols = StreamColumns::from_schemaless(&sr, StreamShape::fx_city_temperature()).unwrap();
    assert_eq!(cols.to_schemaless(), sr);
}

#[test]
fn source_row_from_json() {
    let row = SourceRow::from_json(r#"{"timestamp": "2021-01-01 13:00:00.000000001", "city": "Tokyo", "temperature": 21}"#).unwrap();
    let sr = row.into_schemaless().unwrap();
    let cols = StreamColumns::from_schemaless(&sr, StreamShape::fx_city_temperature()).unwrap();
    assert_eq!(cols, StreamColumns::fx_tokyo(Timestamp::fx_ts1()));
}

#[test]
fn source_row_errors() {
    assert_eq!(SourceRow::from_json("[1, 2]"), Err(SpringError::InvalidFormat));
    assert_eq!(SourceRow::from_json("{not json"), Err(SpringError::InvalidFormat));
    let nested = SourceRow::from_json(r#"{"a": {"b": 1}}"#).unwrap();
    assert_eq!(nested.into_schemaless(), Err(SpringError::InvalidFormat));
    let float = SourceRow::from_json(r#"{"a": 5.3}"#).unwrap();
    assert_eq!(float.into_schemaless(), Err(SpringError::InvalidFormat));
}

#[test]
fn value_json_round_trip() {
    for v in [
        NnSqlValue::Boolean(true),
        NnSqlValue::SmallInt(-7),
        NnSqlValue::Integer(1 << 20),
        NnSqlValue::BigInt(-(1 << 40)),
        NnSqlValue::Text("héllo".to_string()),
        NnSqlValue::Timestamp(Timestamp::fx_now()),
    ] {
        let j = to_json_value(&v);
        let back = from_json_value(&j).unwrap();
        assert_eq!(coerce_value(&back, v.sql_type(), false), Some(SqlValue::NotNull(v.clone())));
    }
}

#[test]
fn sql_convertible_round_trip_and_mismatch() {
    assert_eq!(i32::unpack(&42i32.into_sql_value()), Ok(42));
    assert_eq!(String::unpack(&"x".to_string().into_sql_value()), Ok("x".to_string()));
    assert_eq!(Timestamp::unpack(&Timestamp::fx_ts1().into_sql_value()), Ok(Timestamp::fx_ts1()));
    assert_eq!(i32::unpack(&NnSqlValue::BigInt(1)), Err(SpringError::Sql));
    assert_eq!(bool::unpack(&NnSqlValue::Text("t".to_string())), Err(SpringError::Sql));
}

#[test]
fn row_column_access() {
    let row = Row::fx_osaka(Timestamp::fx_ts2());
    assert_eq!(row.get(1), Ok(SqlValue::NotNull(NnSqlValue::Text("Osaka".to_string()))));
    assert_eq!(row.get(3), Err(SpringError::Unavailable));
    assert_eq!(row.get_by_name(&"temperature".to_string()), Ok(SqlValue::NotNull(NnSqlValue::Integer(23))));
    assert_eq!(row.get_by_name(&"nope".to_string()), Err(SpringError::Unavailable));
    assert_eq!(row.rowtime(), Timestamp::fx_ts2());
    assert_eq!(Row::fx_london(Timestamp::fx_ts3()).get(2), Ok(SqlValue::NotNull(NnSqlValue::Integer(13))));
}

#[test]
fn collect_reports_rows_and_bytes() {
    let row = Row::fx_tokyo(Timestamp::fx_ts1());
    assert_eq!(row.mem_size(), 8 + 8 + 5 + 4);
    let mut q = RowQueue::new(4);
    q.push(row).unwrap();
    let mut repos = Repositories { row_queues: vec![q], window_queues: vec![] };
    let (got, m) = CollectSubtask.run(Some(QueueId::Row(0)), &mut repos, 0).unwrap();
    assert_eq!(got, Row::fx_tokyo(Timestamp::fx_ts1()));
    assert_eq!(m, InQueueMetricsUpdateByCollect::Row { queue_id: 0, rows_used: 1, bytes_used: 25 });
    assert!(CollectSubtask.run(Some(QueueId::Row(0)), &mut repos, 0).is_none());
    assert!(CollectSubtask.run(None, &mut repos, 0).is_none());
}

#[test]
fn window_queue_drops_late_rows_with_a_count() {
    let mut wq = RowQueue::new(4);
    for ts in [Timestamp::fx_ts1(), Timestamp::fx_ts2(), Timestamp::fx_ts3()] {
        wq.insert_by_time(Row::fx_tokyo(ts)).unwrap();
    }
    let mut repos = Repositories { row_queues: vec![], window_queues: vec![wq] };
    // The watermark is at ts2: the row at ts1 is late and never comes out.
    let (got, _) = CollectSubtask.run(Some(QueueId::Window(0)), &mut repos, Timestamp::fx_ts2().nanos).unwrap();
    assert_eq!(got.rowtime(), Timestamp::fx_ts2());
    assert_eq!(repos.window_queues[0].dropped, 1);
    assert_eq!(repos.window_queues[0].len(), 1);
    // Everything left is late now: nothing comes out, and it is counted.
    assert!(CollectSubtask.run(Some(QueueId::Window(0)), &mut repos, Timestamp::fx_ts3().nanos + 1).is_none());
    assert_eq!(repos.window_queues[0].dropped, 2);
    assert_eq!(repos.window_queues[0].len(), 0);
}
