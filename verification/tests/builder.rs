use blitzortung_srv::builder::{
    force_range, line_fields, LineNumbers, MessageNumbers, Strike, LINE_TIMESTAMP_LENGTH,
};
use blitzortung_srv::data;
use blitzortung_srv::ieee::Real;
use blitzortung_srv::json::Json;

fn num(value: f64) -> Real {
    Real::from_bits(value.to_bits())
}

fn number(text: Option<&str>) -> Result<Real, String> {
    match text {
        Some(text) => text.parse::<f64>().map(num).map_err(|e| e.to_string()),
        None => Ok(num(0.0)),
    }
}

fn numbers_of(line: &str) -> LineNumbers {
    let fields = line_fields(line);
    let position = fields.position.as_ref();
    LineNumbers {
        longitude: number(position.map(|p| p.1.as_str())),
        latitude: number(position.map(|p| p.0.as_str())),
        altitude: number(position.map(|p| p.2.as_str())),
        amplitude: number(fields.amplitude.as_deref()),
        deviation: number(fields.deviation.as_deref()),
    }
}

fn read(line: &str) -> Result<data::Strike, String> {
    let mut builder = Strike::new();
    builder.from_line(line, &numbers_of(line)).map_err(|e| e.0)?;
    builder.build().map_err(|e| e.0)
}

fn field(name: &str, value: Json) -> (String, Json) {
    (name.to_string(), value)
}

fn numbers(longitude: f64, latitude: f64) -> MessageNumbers {
    MessageNumbers {
        longitude: Some(num((longitude * 10000.0).round() / 10000.0)),
        latitude: Some(num((latitude * 10000.0).round() / 10000.0)),
        altitude: None,
        deviation: None,
    }
}

#[test]
fn from_line_valid_data() {
    let line = "2025-01-15T12:30:45.123456+00:00 pos;48.5;-10.2;500.5 str;45.2 dev;250.0 sta;5;10;1,2,3,4,5";
    let strike = read(line).unwrap();
    assert_eq!(strike.x, num(-10.2));
    assert_eq!(strike.y, num(48.5));
    assert_eq!(strike.altitude, Some(num(500.5)));
    assert_eq!(strike.amplitude, Some(num(45.2)));
    assert_eq!(strike.lateral_error, Some(250));
    assert_eq!(strike.station_count, Some(5));
    assert_eq!(strike.stations, vec![1, 2, 3, 4, 5]);
}

#[test]
fn from_line_negative_coordinates() {
    let line = "2025-01-15T12:30:45.123456+00:00 pos;-48.5;-10.2;500.5 str;45.2 dev;250.0 sta;5;10;1,2,3,4,5";
    let strike = read(line).unwrap();
    assert_eq!(strike.x, num(-10.2));
    assert_eq!(strike.y, num(-48.5));
}

#[test]
fn from_line_missing_stations_filtered() {
    let line = "2025-01-15T12:30:45.123456+00:00 pos;48.5;-10.2;500.5 str;45.2 dev;250.0 sta;3;10;1,,3";
    let strike = read(line).unwrap();
    assert_eq!(strike.stations, vec![1, 3]);
}

#[test]
fn from_line_no_stations() {
    let line = "2025-01-15T12:30:45.123456+00:00 pos;48.5;-10.2;500.5 str;45.2 dev;250.0 sta;0;10;";
    let strike = read(line).unwrap();
    assert_eq!(strike.stations, Vec::<i64>::new());
}

#[test]
fn from_line_invalid_format_errors() {
    assert!(read("invalid line format").is_err());
}

#[test]
fn from_line_missing_position_errors() {
    let line = "2025-01-15T12:30:45.123456+00:00 str;45.2 dev;250.0 sta;5;10;1,2,3";
    assert_eq!(read(line).unwrap_err(), "missing position");
}

#[test]
fn from_line_invalid_float_errors() {
    let line = "2025-01-15T12:30:45.123456+00:00 pos;invalid;-10.2;500.5 str;45.2 dev;250.0 sta;5;10;1,2,3";
    assert_eq!(read(line).unwrap_err(), "invalid float literal");
}

#[test]
fn lateral_error_clamped() {
    let line = "2025-01-15 12:30:45.123456 pos;48.5;-10.2;500.5 str;45.2 dev;-100.0 sta;5;10;1,2,3";
    assert_eq!(read(line).unwrap().lateral_error, Some(0));
    let line = "2025-01-15 12:30:45.123456 pos;48.5;-10.2;500.5 str;45.2 dev;100000.0 sta;5;10;1,2,3";
    assert_eq!(read(line).unwrap().lateral_error, Some(32767));
}

#[test]
fn from_json_valid_data() {
    let message = Json::Object(vec![
        field("time", Json::Int(1763202124297904000)),
        field("lat", Json::Float(num(44.283328))),
        field("lon", Json::Float(num(8.910987))),
        field("alt", Json::Int(0)),
        field("pol", Json::Int(0)),
        field("mds", Json::Int(6830)),
        field("mcg", Json::Int(84)),
        field("status", Json::Int(2)),
        field("region", Json::Int(9)),
    ]);
    let mut read_numbers = numbers(8.910987, 44.283328);
    read_numbers.altitude = Some(num(0.0));
    read_numbers.deviation = Some(num(6830.0));
    let mut builder = Strike::new();
    builder.from_json(&message, &read_numbers).unwrap();
    let strike = builder.build().unwrap();
    assert_eq!(strike.x, num(8.911));
    assert_eq!(strike.y, num(44.2833));
    assert_eq!(strike.altitude, Some(num(0.0)));
    assert_eq!(strike.amplitude, Some(num(0.0)));
    assert_eq!(strike.lateral_error, Some(6830));
    assert_eq!(strike.station_count, Some(0));
    assert_eq!(strike.stations, Vec::<i64>::new());
    assert_eq!(strike.region, Some(9));
}

#[test]
fn from_json_missing_field_errors() {
    let message = Json::Object(vec![
        field("lat", Json::Float(num(44.283328))),
        field("lon", Json::Float(num(8.910987))),
    ]);
    let mut builder = Strike::new();
    assert!(builder.from_json(&message, &numbers(8.910987, 44.283328)).is_err());
}

#[test]
fn from_json_missing_region_is_none() {
    let message = Json::Object(vec![
        field("time", Json::Int(0)),
        field("lat", Json::Float(num(1.0))),
        field("lon", Json::Float(num(2.0))),
    ]);
    let mut builder = Strike::new();
    builder.from_json(&message, &numbers(2.0, 1.0)).unwrap();
    assert_eq!(builder.build().unwrap().region, None);
}

#[test]
fn build_without_timestamp_errors() {
    let error = Strike::new().build().unwrap_err();
    assert!(error.message().contains("Timestamp not set"));
}

#[test]
fn force_range_bounds() {
    assert_eq!(force_range(10, 15, 20), 15);
    assert_eq!(force_range(10, 9, 20), 10);
    assert_eq!(force_range(10, 21, 20), 20);
}

#[test]
fn every_part_of_a_line_is_needed() {
    let head = "2025-01-15 12:30:45.123456789";
    assert_eq!(head.len(), LINE_TIMESTAMP_LENGTH);
    let line = format!("{head} pos;48.5;-10.2;500.5 dev;250.0 sta;5;10;1");
    assert_eq!(read(&line).unwrap_err(), "missing amplitude");
    let line = format!("{head} pos;48.5;-10.2;500.5 str;45.2 sta;5;10;1");
    assert_eq!(read(&line).unwrap_err(), "missing deviation");
    let line = format!("{head} pos;48.5;-10.2;500.5 str;45.2 dev;250.0");
    assert_eq!(read(&line).unwrap_err(), "missing stations");
    let line = format!("{head} pos;48.5;-10.2;500.5 str;45.2 dev;250.0 sta;5;10;1,x,3");
    assert_eq!(read(&line).unwrap_err(), "invalid digit found in string");
}

#[test]
fn a_line_keeps_its_nanoseconds() {
    let line = "2025-01-15 12:30:45.123456789 pos;48.5;-10.2;500.5 str;45.2 dev;250.0 sta;5;10;1";
    let strike = read(line).unwrap();
    assert_eq!(strike.timestamp.nanosecond, 789);
    assert_eq!(strike.timestamp.datetime, Some(1_736_944_245_123_456));
}

#[test]
fn an_unreadable_time_is_kept_as_no_time() {
    let line = "2025-01-15T12:30:45.123456+00:00 pos;48.5;-10.2;500.5 str;45.2 dev;250.0 sta;0;10;";
    let strike = read(line).unwrap();
    assert!(!strike.timestamp.is_valid());
}

#[test]
fn setters_fill_a_strike() {
    let mut builder = Strike::new();
    builder.set_id(7);
    builder.set_timestamp(data::Timestamp::new(1_000_000, 5));
    builder.set_x(num(1.5));
    builder.set_y(num(-2.5));
    builder.set_altitude(num(10.0));
    builder.set_amplitude(num(20.0));
    builder.set_lateral_error(num(40000.0));
    builder.set_station_count(12);
    builder.set_stations(vec![4, 5]);
    builder.set_region(Some(3));
    let strike = builder.build().unwrap();
    assert_eq!(strike.id, Some(7));
    assert_eq!(strike.timestamp.value(), 1_000_000_005);
    assert_eq!(strike.x, num(1.5));
    assert_eq!(strike.y, num(-2.5));
    assert_eq!(strike.altitude, Some(num(10.0)));
    assert_eq!(strike.amplitude, Some(num(20.0)));
    assert_eq!(strike.lateral_error, Some(32767));
    assert_eq!(strike.station_count, Some(12));
    assert_eq!(strike.stations, vec![4, 5]);
    assert_eq!(strike.region, Some(3));
}

#[test]
fn the_first_marker_with_a_value_counts() {
    let fields = line_fields("str; dev;250.0 str;45.2");
    assert_eq!(fields.amplitude.as_deref(), Some("45.2"));
    assert_eq!(fields.deviation.as_deref(), Some("250.0"));
    assert_eq!(line_fields("str;x").amplitude, None);
    assert_eq!(line_fields("str;1 str;2").amplitude.as_deref(), Some("1"));

    let head = "2025-01-15 12:30:45.123456789";
    let line = format!("{head} pos;;; pos;48.5;-10.2;500.5 str; str;45.2 dev; dev;250.0 sta;x;1; sta;2;10;7,8");
    let strike = read(&line).unwrap();
    assert_eq!(strike.y, num(48.5));
    assert_eq!(strike.altitude, Some(num(500.5)));
    assert_eq!(strike.amplitude, Some(num(45.2)));
    assert_eq!(strike.lateral_error, Some(250));
    assert_eq!(strike.station_count, Some(2));
    assert_eq!(strike.stations, vec![7, 8]);
}
