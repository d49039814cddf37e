use blitzortung_srv::config::Config;
use blitzortung_srv::data::{Strike, Timestamp};
use blitzortung_srv::db::{
    map_strike, map_strike_key, DbError, HashableStrikeKey, StrikeDb, WideColumns,
};
use blitzortung_srv::executor::{Param, Row, Value};
use blitzortung_srv::geom::Grid;
use blitzortung_srv::ieee::Real;
use blitzortung_srv::query::TimeInterval;
use blitzortung_srv::postgres::{
    convert_column, float_to_sql, int_to_sql, pool_size, timestamp_to_sql, FailureLog,
    FloatBinding, IntBinding, Reading, SqlType,
};
use chrono::{TimeZone, Utc};

fn num(value: f64) -> Real {
    Real::from_bits(value.to_bits())
}

fn ts(y: i32, mo: u32, d: u32, h: u32, mi: u32, s: u32) -> i64 {
    Utc.with_ymd_and_hms(y, mo, d, h, mi, s).unwrap().timestamp_micros()
}

fn strike(x: f64, y: f64) -> Strike {
    Strike::new(
        Some(-1),
        Timestamp::new(ts(2025, 1, 1, 12, 0, 0), 123),
        num(x),
        num(y),
        Some(num(100.0)),
        Some(num(50.5)),
        Some(250),
        Some(5),
        vec![],
        None,
    )
}

#[test]
fn insert_many_builds_multi_value_insert() {
    let strikes = [strike(1.0, 2.0), strike(3.0, 4.0)];
    let statement = StrikeDb::new(4326).insert_many(&strikes, Some(1)).unwrap().unwrap();
    assert!(statement.sql.starts_with("INSERT INTO strikes"));
    assert!(statement.sql.contains("ST_MakePoint($3, $4)"));
    assert!(statement.sql.contains("ST_MakePoint($12, $13)"));
    assert_eq!(statement.params.len(), 18);
    assert!(matches!(statement.params[0], Param::Timestamp(_)));
    assert_eq!(statement.params[1], Param::Int(123)); // nanoseconds
    assert_eq!(statement.params[5], Param::Int(1)); // region
}

#[test]
fn insert_many_uses_strike_region_when_unset() {
    let mut s = strike(1.0, 2.0);
    s.region = Some(9);
    let statement = StrikeDb::new(4326).insert_many(&[s], None).unwrap().unwrap();
    assert_eq!(statement.params[5], Param::Int(9));
}

#[test]
fn insert_many_falls_back_to_region_one() {
    let statement = StrikeDb::new(4326).insert_many(&[strike(1.0, 2.0)], None).unwrap().unwrap();
    assert_eq!(statement.params[5], Param::Int(1));
}

#[test]
fn insert_many_empty_is_noop() {
    assert!(StrikeDb::new(4326).insert_many(&[], Some(1)).unwrap().is_none());
}

#[test]
fn get_latest_time_reads_row() {
    let statement = StrikeDb::new(4326).latest_time_statement(Some(1));
    assert!(statement.sql.contains("ORDER BY \"timestamp\" DESC"));
    assert!(statement.sql.contains("region=$1"));
    assert_eq!(statement.params[0], Param::Int(1));
    let rows =
        vec![Row::new(vec![Value::Timestamp(ts(2025, 1, 1, 12, 0, 0)), Value::Int(700)])];
    let latest = StrikeDb::new(4326).get_latest_time(&rows).unwrap().unwrap();
    assert_eq!(latest.nanosecond, 700);
    assert_eq!(latest.datetime.unwrap(), ts(2025, 1, 1, 12, 0, 0));
}

#[test]
fn get_latest_time_no_row_is_none() {
    assert!(StrikeDb::new(4326).latest_time_statement(None).params.is_empty());
    assert!(StrikeDb::new(4326).get_latest_time(&[]).unwrap().is_none());
}

fn wide() -> WideColumns {
    WideColumns { x: num(0.0), y: num(0.0), altitude: num(0.0), amplitude: num(0.0) }
}

fn strike_row() -> Vec<Value> {
    vec![
        Value::Int(42),
        Value::Timestamp(ts(2025, 1, 1, 12, 0, 0)),
        Value::Int(700),
        Value::Float(num(8.910987)),
        Value::Float(num(44.283328)),
        Value::Float(num(0.0)),
        Value::Float(num(12.5)),
        Value::Int(6830),
        Value::Int(7),
    ]
}

#[test]
fn select_maps_rows_to_strikes() {
    let strikes = StrikeDb::new(4326).select(&[Row::new(strike_row())], &[wide()]).unwrap();
    assert_eq!(strikes.len(), 1);
    assert_eq!(strikes[0].id, Some(42));
    assert_eq!(strikes[0].x, num(8.910987));
    assert_eq!(strikes[0].lateral_error, Some(6830));
    assert_eq!(strikes[0].station_count, Some(7));
    assert_eq!(strikes[0].timestamp.nanosecond, 700);
}

#[test]
fn select_strike_keys_returns_keys() {
    let row = Row::new(vec![
        Value::Timestamp(ts(2025, 1, 1, 12, 0, 0)),
        Value::Int(123),
        Value::Float(num(8.910987)),
        Value::Float(num(44.283328)),
        Value::Int(6830),
    ]);
    let place = (Some(num(8.911)), Some(num(44.2833)));
    assert!(map_strike_key(&row, None, place.1).is_err());
    let keys = StrikeDb::new(4326).select_strike_keys(&[row], &[place]).unwrap();
    let expected = Timestamp::new(ts(2025, 1, 1, 12, 0, 0), 123).value();
    assert_eq!(
        keys,
        vec![HashableStrikeKey {
            timestamp: expected,
            x: num(8.911).bits,
            y: num(44.2833).bits,
            lateral_error: Some(6830),
        }]
    );
}

#[test]
fn select_grid_builds_grid_data() {
    // grid with x_bin_count 2, y_bin_count 2
    let rows = vec![
        Row::new(vec![
            Value::Int(0),
            Value::Int(2),
            Value::Int(5),
            Value::Timestamp(ts(2025, 1, 1, 12, 0, 0)),
        ]),
        // out of range ry=0 is filtered
        Row::new(vec![
            Value::Int(0),
            Value::Int(0),
            Value::Int(1),
            Value::Timestamp(ts(2025, 1, 1, 12, 0, 0)),
        ]),
    ];
    let grid = Grid::new(num(0.0), num(2.0), num(0.0), num(2.0), num(1.0), num(1.0));
    let data = StrikeDb::new(4326).select_grid(&grid, 2, 2, &rows).unwrap();
    // rx=0, ry=2 => y_index = 2 - 2 = 0
    assert_eq!(data.get(0, 0).unwrap().count, 5);
    assert_eq!(data.get(0, 1), None);
}

#[test]
fn missing_columns_are_errors() {
    let mut row = strike_row();
    row[1] = Value::Null;
    assert!(map_strike(&Row::new(row.clone()), &wide()).is_err());
    let error = StrikeDb::new(4326).select(&[Row::new(strike_row()), Row::new(row)], &[wide(), wide()]).unwrap_err();
    assert!(matches!(error, DbError::Column(_)));
    assert!(!error.message().is_empty());
    assert_eq!(DbError::Executor("gone".to_string()).message().contains("gone"), true);
}

#[test]
fn one_strike_is_inserted_alone() {
    let statement = StrikeDb::new(4326).insert(&strike(1.0, 2.0), 4).unwrap();
    assert_eq!(statement.params.len(), 9);
    assert_eq!(statement.params[5], Param::Int(4));
}

#[test]
fn strikes_without_a_time_are_not_inserted() {
    let mut s = strike(1.0, 2.0);
    s.timestamp = Timestamp::not_a_time();
    assert!(StrikeDb::new(4326).insert_many(&[s], None).is_err());
}

#[test]
fn keys_take_their_time_from_the_strike() {
    let key = HashableStrikeKey::from_strike(&strike(1.0, 2.0), num(1.0), num(2.0));
    assert_eq!(key.timestamp, ts(2025, 1, 1, 12, 0, 0) * 1000 + 123);
    assert_eq!(key.lateral_error, Some(250));
}

// ---------------------------------------------------------------------
// column types
// ---------------------------------------------------------------------

#[test]
fn timestamp_param_serializes_for_timestamptz_and_timestamp() {
    assert!(!timestamp_to_sql(SqlType::TimestampTz));
    assert!(timestamp_to_sql(SqlType::Timestamp));
}

#[test]
fn int_param_serializes_for_int2_int4_int8() {
    assert_eq!(int_to_sql(4326, SqlType::Int2), IntBinding::Int2(4326));
    assert_eq!(int_to_sql(4326, SqlType::Int4), IntBinding::Int4(4326));
    assert_eq!(int_to_sql(4326, SqlType::Int8), IntBinding::Int8(4326));
    assert_eq!(int_to_sql(4326, SqlType::Oid), IntBinding::Oid(4326));
}

#[test]
fn int_param_narrows_values() {
    assert_eq!(int_to_sql(-3, SqlType::Int2), IntBinding::Int2(-3));
    assert_eq!(int_to_sql(999, SqlType::Int2), IntBinding::Int2(999));
    // A value that does not fit wraps.
    assert_eq!(int_to_sql(65_537, SqlType::Int2), IntBinding::Int2(1));
    assert_eq!(int_to_sql(-1, SqlType::Oid), IntBinding::Oid(u32::MAX));
}

#[test]
fn float_param_serializes_for_float4_and_float8() {
    assert_eq!(float_to_sql(SqlType::Float4), FloatBinding::Float4);
    assert_eq!(float_to_sql(SqlType::Float8), FloatBinding::Float8);
}

#[test]
fn insert_column_types_encode() {
    for value in [700, 500, 1, 250, 5] {
        assert_eq!(int_to_sql(value, SqlType::Int2), IntBinding::Int2(value as i16));
    }
    assert_eq!(float_to_sql(SqlType::Float8), FloatBinding::Float8);
    assert_eq!(float_to_sql(SqlType::Float4), FloatBinding::Float4);
    assert_eq!(int_to_sql(4326, SqlType::Int4), IntBinding::Int4(4326));
}

#[test]
fn text_and_null_params_still_encode() {
    assert!(matches!(int_to_sql(12, SqlType::Text), IntBinding::Text(t) if t == "12"));
    assert_eq!(float_to_sql(SqlType::Text), FloatBinding::Text);
}

#[test]
fn columns_are_read_by_their_type() {
    assert_eq!(convert_column(SqlType::Int2), Reading::Int2);
    assert_eq!(convert_column(SqlType::Float8), Reading::Float8);
    assert_eq!(convert_column(SqlType::Timestamp), Reading::NaiveTimestamp);
    assert_eq!(convert_column(SqlType::TimestampTz), Reading::Timestamp);
    assert_eq!(convert_column(SqlType::Bytea), Reading::Bytea);
    assert_eq!(convert_column(SqlType::Varchar), Reading::Text);
    assert_eq!(convert_column(SqlType::Bool), Reading::Bool);
}

#[test]
fn pool_is_sized_from_connection_count() {
    let config = Config { db_connection_count: 7, ..Config::default() };
    assert_eq!(pool_size(&config), 7);
    let zero = Config { db_connection_count: 0, ..Config::default() };
    assert_eq!(pool_size(&zero), 1);
}

#[test]
fn consecutive_failures_are_logged_once_until_a_success_rearms() {
    let mut failures = FailureLog::new();
    let mut logged = 0;
    for _ in 0..5 {
        logged += failures.note_failure("connection refused").is_some() as usize;
    }
    assert_eq!(failures.log_count(), 1, "only the first failure of an outage is logged");
    assert_eq!(logged, 1);

    failures.note_success();
    assert!(failures.note_failure("connection refused").unwrap().contains("connection refused"));
    assert_eq!(failures.log_count(), 2, "a failure after a recovery is logged once more");
    // ...and then stays quiet again.
    assert!(failures.note_failure("connection refused").is_none());
    assert_eq!(failures.log_count(), 2);
}

#[test]
fn failure_log_claims_the_log_once() {
    let mut log = FailureLog::new();
    assert!(log.should_log());
    assert!(!log.should_log());
    assert!(!log.should_log());
    log.note_success();
    assert!(log.should_log());
}

#[test]
fn statements_carry_the_reference_system_and_the_interval() {
    let db = StrikeDb::new(31467);
    assert_eq!(db.srid, 31467);
    let interval = TimeInterval::new(ts(2025, 1, 1, 11, 0, 0), ts(2025, 1, 1, 12, 0, 0));
    let select = db.select_statement(&interval, None, Some(3));
    assert!(select.sql.starts_with("SELECT id, "));
    assert!(select.sql.contains("ORDER BY id"));
    assert_eq!(select.params[0], Param::Int(31467));
    assert!(select.params.contains(&Param::Timestamp(interval.start)));
    assert!(select.params.contains(&Param::Int(3)));
    let keys = db.strike_keys_statement(&interval, None, None);
    assert!(keys.sql.starts_with("SELECT \"timestamp\", nanoseconds, "));
    assert_eq!(keys.params.len(), 3);
    let grid = Grid::new(num(0.0), num(2.0), num(0.0), num(2.0), num(1.0), num(1.0));
    let cells = db.grid_statement(&grid, 0, &interval, None);
    assert!(cells.sql.contains("GROUP BY rx, ry"));
    assert!(cells.params.contains(&Param::Timestamp(interval.end)));
}
