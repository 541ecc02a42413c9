use springql::queue::RowQueue;
use springql::row::Row;
use springql::time::{EventDuration, Timestamp};
use springql::value::{NnSqlValue, SqlValue};
use springql::window::pane::AggregateFunction;
use springql::window::panes::{Panes, WindowParameter};
use springql::window::watermark::Watermark;
use springql::window::window::{Window, WindowDispatch};

fn ts(s: &str) -> Timestamp {
    Timestamp::parse(s).unwrap()
}

fn sliding_window_panes(length: EventDuration, period: EventDuration) -> Panes {
    Panes::new(
        WindowParameter {
            length,
            period,
            allowed_delay: EventDuration::from_secs(0),
        },
        AggregateFunction::Avg,
    )
}

#[test]
fn test_valid_open_at_s() {
    let panes = sliding_window_panes(EventDuration::from_secs(10), EventDuration::from_secs(5));
    assert_eq!(
        panes.valid_open_at_s(ts("2020-01-01 00:00:05.000000000")),
        vec![
            ts("2020-01-01 00:00:00.000000000").nanos,
            ts("2020-01-01 00:00:05.000000000").nanos
        ]
    );
    assert_eq!(
        panes.valid_open_at_s(ts("2020-01-01 00:00:09.999999999")),
        vec![
            ts("2020-01-01 00:00:00.000000000").nanos,
            ts("2020-01-01 00:00:05.000000000").nanos
        ]
    );

    let panes = sliding_window_panes(EventDuration::from_secs(10), EventDuration::from_secs(10));
    assert_eq!(
        panes.valid_open_at_s(ts("2020-01-01 00:00:00.000000000")),
        vec![ts("2020-01-01 00:00:00.000000000").nanos]
    );
    assert_eq!(
        panes.valid_open_at_s(ts("2020-01-01 00:00:09.999999999")),
        vec![ts("2020-01-01 00:00:00.000000000").nanos]
    );
}

#[test]
fn open_ats_with_gaps_between_panes() {
    // Panes of 2s opening every 5s: a rowtime at 3s lies in no pane.
    let panes = sliding_window_panes(EventDuration::from_secs(2), EventDuration::from_secs(5));
    assert_eq!(panes.valid_open_at_s(Timestamp::from_nanos(3_000_000_000).unwrap()), Vec::<i64>::new());
    assert_eq!(panes.valid_open_at_s(Timestamp::from_nanos(6_000_000_000).unwrap()), vec![5_000_000_000]);
}

fn secs(s: i64) -> Timestamp {
    Timestamp::from_nanos(s * 1_000_000_000).unwrap()
}

fn integer(v: i32) -> SqlValue {
    SqlValue::NotNull(NnSqlValue::Integer(v))
}

fn key() -> SqlValue {
    SqlValue::NotNull(NnSqlValue::Text("k".to_string()))
}

fn window(delay_secs: i64) -> Window {
    Window::new(
        WindowParameter {
            length: EventDuration::from_secs(10),
            period: EventDuration::from_secs(5),
            allowed_delay: EventDuration::from_secs(delay_secs),
        },
        AggregateFunction::Avg,
    )
}

fn admitted(d: WindowDispatch) -> Vec<(i64, i64, Vec<(SqlValue, SqlValue)>)> {
    match d {
        WindowDispatch::Admitted(out) => out.into_iter().map(|o| (o.open_at, o.close_at, o.groups)).collect(),
        WindowDispatch::Dropped => panic!("row dropped"),
    }
}

#[test]
fn sliding_window_average() {
    let mut w = window(0);
    assert!(admitted(w.dispatch(secs(0), &key(), &integer(10)).unwrap()).is_empty());
    assert!(admitted(w.dispatch(secs(3), &key(), &integer(20)).unwrap()).is_empty());
    // The pane [-5s, 5s) holds the rows at 0s and 3s and closes at 6s.
    let out = admitted(w.dispatch(secs(6), &key(), &integer(30)).unwrap());
    assert_eq!(out.len(), 1);
    assert_eq!((out[0].0, out[0].1), (-5_000_000_000, 5_000_000_000));
    assert_eq!(out[0].2, vec![(key(), SqlValue::NotNull(NnSqlValue::BigInt(15)))]);
    let out = admitted(w.dispatch(secs(11), &key(), &integer(40)).unwrap());
    // The pane [0s, 10s) closes once the watermark reaches 11s: avg(10, 20, 30).
    assert_eq!(out.len(), 1);
    assert_eq!(out[0].0, 0);
    assert_eq!(out[0].1, 10_000_000_000);
    assert_eq!(out[0].2, vec![(key(), SqlValue::NotNull(NnSqlValue::BigInt(20)))]);
    // The pane [5s, 15s) holds the rows at 6s and 11s and closes at 15s.
    let out = admitted(w.dispatch(secs(15), &key(), &integer(50)).unwrap());
    assert_eq!(out.len(), 1);
    assert_eq!(out[0].0, 5_000_000_000);
    assert_eq!(out[0].1, 15_000_000_000);
    assert_eq!(out[0].2, vec![(key(), SqlValue::NotNull(NnSqlValue::BigInt(35)))]);
}

#[test]
fn late_row_is_dropped() {
    let mut w = window(2);
    w.dispatch(secs(0), &key(), &integer(10)).unwrap();
    w.dispatch(secs(3), &key(), &integer(20)).unwrap();
    w.dispatch(secs(11), &key(), &integer(40)).unwrap();
    // Watermark is 11s - 2s = 9s, so a row at 6s comes too late.
    assert_eq!(w.watermark.as_nanos(), 9_000_000_000);
    assert!(matches!(w.dispatch(secs(6), &key(), &integer(30)).unwrap(), WindowDispatch::Dropped));
    // A row within the allowed delay is still admitted.
    assert!(matches!(w.dispatch(secs(10), &key(), &integer(30)).unwrap(), WindowDispatch::Admitted(_)));
}

#[test]
fn each_pane_is_emitted_once() {
    let mut w = window(0);
    let mut emitted = Vec::new();
    for (t, v) in [(0, 1), (4, 2), (9, 3), (12, 4), (21, 5), (30, 6), (45, 7)] {
        for o in admitted(w.dispatch(secs(t), &key(), &integer(v)).unwrap()) {
            assert!(o.1 <= w.watermark.as_nanos());
            emitted.push(o.0);
        }
    }
    let mut sorted = emitted.clone();
    sorted.dedup();
    assert_eq!(sorted, emitted);
    assert_eq!(emitted, vec![-5_000_000_000, 0, 5_000_000_000, 10_000_000_000, 15_000_000_000, 20_000_000_000, 25_000_000_000, 30_000_000_000]);
    for p in &w.panes.panes {
        assert!(p.close_at > w.watermark.as_nanos());
    }
}

#[test]
fn watermark_never_goes_back() {
    let mut wm = Watermark::new(EventDuration::from_secs(1));
    let mut last = wm.as_nanos();
    for t in [5, 3, 8, 8, 2, 10] {
        wm.update(secs(t));
        assert!(wm.as_nanos() >= last);
        last = wm.as_nanos();
    }
    assert_eq!(last, 9_000_000_000);
}

#[test]
fn aggregates_by_group_with_nulls() {
    let mut w = Window::new(
        WindowParameter {
            length: EventDuration::from_secs(10),
            period: EventDuration::from_secs(10),
            allowed_delay: EventDuration::from_secs(0),
        },
        AggregateFunction::Max,
    );
    let a = SqlValue::NotNull(NnSqlValue::Text("a".to_string()));
    let b = SqlValue::NotNull(NnSqlValue::Text("b".to_string()));
    w.dispatch(secs(1), &a, &integer(3)).unwrap();
    w.dispatch(secs(2), &b, &SqlValue::Null).unwrap();
    w.dispatch(secs(3), &a, &SqlValue::NotNull(NnSqlValue::BigInt(7))).unwrap();
    let out = admitted(w.dispatch(secs(10), &a, &integer(1)).unwrap());
    assert_eq!(out.len(), 1);
    assert_eq!(
        out[0].2,
        vec![(a.clone(), SqlValue::NotNull(NnSqlValue::BigInt(7))), (b.clone(), SqlValue::Null)]
    );
}

#[test]
fn sum_count_min_of_a_pane() {
    for (f, expected) in [
        (AggregateFunction::Sum, 6),
        (AggregateFunction::Count, 3),
        (AggregateFunction::Min, -2),
        (AggregateFunction::Avg, 2),
    ] {
        let mut w = Window::new(
            WindowParameter {
                length: EventDuration::from_secs(10),
                period: EventDuration::from_secs(10),
                allowed_delay: EventDuration::from_secs(0),
            },
            f,
        );
        w.dispatch(secs(1), &key(), &integer(5)).unwrap();
        w.dispatch(secs(2), &key(), &integer(-2)).unwrap();
        w.dispatch(secs(3), &key(), &integer(3)).unwrap();
        let out = admitted(w.dispatch(secs(10), &key(), &integer(0)).unwrap());
        assert_eq!(out[0].2, vec![(key(), SqlValue::NotNull(NnSqlValue::BigInt(expected)))]);
    }
}

#[test]
fn window_queue_orders_rows_by_event_time() {
    let mut q = RowQueue::new(3);
    for ts in [Timestamp::fx_ts3(), Timestamp::fx_ts1(), Timestamp::fx_ts2()] {
        q.insert_by_time(Row::fx_tokyo(ts)).unwrap();
    }
    assert!(q.insert_by_time(Row::fx_osaka(Timestamp::fx_ts1())).is_err());
    let order: Vec<Timestamp> = (0..3).map(|_| q.use_().unwrap().rowtime()).collect();
    assert_eq!(order, vec![Timestamp::fx_ts1(), Timestamp::fx_ts2(), Timestamp::fx_ts3()]);
    assert!(q.use_().is_none());
}

#[test]
fn late_rows_are_counted() {
    let mut w = window(0);
    w.dispatch(secs(10), &key(), &integer(1)).unwrap();
    assert!(matches!(w.dispatch(secs(2), &key(), &integer(1)).unwrap(), WindowDispatch::Dropped));
    assert!(matches!(w.dispatch(secs(3), &key(), &integer(1)).unwrap(), WindowDispatch::Dropped));
    assert_eq!(w.dropped, 2);
}
