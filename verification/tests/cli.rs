use blitzortung_srv::area::Area;
use blitzortung_srv::cli::db_tool::{
    prepare_grid_if_applicable, render_grid, render_strikes, resolve_area, resolve_interval,
    shown_count, DbOptions,
};
use blitzortung_srv::cli::webservice::{
    effective_geoip_db, effective_port, effective_protocol, log_directory, resolve_servicelog,
    servicelog_candidate, servicelog_directory, ServicelogResolution,
};
use blitzortung_srv::cli::{
    default_log_filter, describe_error, format_error_chain, import_metrics_prefix, lock_step,
    parse_local_time, parse_timezone, FailedToAcquireException, Link,
};
use blitzortung_srv::config::{Config, Protocol};
use blitzortung_srv::data::{ArcFigures, Strike, StrikeFigures, Timestamp};
use blitzortung_srv::db::{DbError, StrikeDb, WideColumns};
use blitzortung_srv::executor::{Row, Value};
use blitzortung_srv::geom::Grid;
use blitzortung_srv::ieee::Real;
use blitzortung_srv::metrics::for_update_imported;
use blitzortung_srv::service_log::DEFAULT_GEOIP_DB;
use chrono::{TimeZone, Utc};

fn num(value: f64) -> Real {
    Real::from_bits(value.to_bits())
}

fn utc(y: i32, mo: u32, d: u32, h: u32, mi: u32, s: u32) -> i64 {
    Utc.with_ymd_and_hms(y, mo, d, h, mi, s).unwrap().timestamp_micros()
}

fn clock_time(micros: i64) -> String {
    Utc.timestamp_micros(micros).unwrap().format("%H:%M:%S").to_string()
}

fn plain(messages: &[&str]) -> Vec<Link> {
    messages.iter().map(|m| Link::Plain(m.to_string())).collect()
}

#[test]
fn error_chain_includes_source_messages() {
    let chain = plain(&["db error", "ERROR: relation \"strikes\" does not exist"]);
    let rendered = format_error_chain(&chain);
    assert!(rendered.starts_with("db error"), "got: {rendered}");
    assert!(
        rendered.contains("caused by: ERROR: relation \"strikes\" does not exist"),
        "got: {rendered}"
    );
    // The useless top-level message is not the only thing reported.
    assert_ne!(rendered, "db error");
}

#[test]
fn describe_error_prefixes_the_context() {
    let chain = plain(&["db error", "connection refused"]);
    let rendered = describe_error("failed to connect to database", &chain);
    assert!(rendered.starts_with("failed to connect to database: db error"));
    assert!(rendered.contains("caused by: connection refused"));
}

#[test]
fn error_chain_handles_sourceless_errors() {
    assert_eq!(format_error_chain(&plain(&["plain failure"])), "plain failure");
}

#[test]
fn db_error_display_is_concise_and_chain_is_expanded_once() {
    let db_error = DbError::Executor("db error".to_string());
    // The message is just the inner error's...
    assert_eq!(db_error.message(), "db error");
    // ...and the chain adds the useful cause exactly once.
    let rendered = format_error_chain(&plain(&[
        "db error",
        "db error",
        "ERROR: permission denied for table strikes",
    ]));
    assert_eq!(
        rendered.matches("permission denied for table strikes").count(),
        1,
        "cause must not be duplicated: {rendered}"
    );
    assert!(!rendered.contains("caused by: db error"));
}

#[test]
fn error_chain_does_not_repeat_the_db_sentinel() {
    let rendered =
        format_error_chain(&plain(&["db error", "ERROR: relation \"strikes\" does not exist"]));
    assert_eq!(rendered.matches("db error").count(), 1, "got: {rendered}");
    assert_eq!(
        rendered.matches("relation \"strikes\" does not exist").count(),
        1,
        "got: {rendered}"
    );
}

#[test]
fn database_causes_show_detail_and_hint() {
    let chain = vec![
        Link::Plain("db error".to_string()),
        Link::Database {
            severity: "ERROR".to_string(),
            message: "no such column".to_string(),
            detail: Some("column x".to_string()),
            hint: Some("use y".to_string()),
        },
    ];
    let rendered = format_error_chain(&chain);
    assert!(rendered.contains("ERROR: no such column"), "got: {rendered}");
    assert!(rendered.contains("column x"), "got: {rendered}");
    assert!(rendered.contains("use y"), "got: {rendered}");
}

#[test]
fn parse_local_time_basic() {
    let result = parse_local_time("20250101", "1200", "UTC", false).unwrap();
    assert_eq!(result, utc(2025, 1, 1, 12, 0, 0));
}

#[test]
fn parse_local_time_with_seconds() {
    let result = parse_local_time("20250101", "123045", "UTC", false).unwrap();
    assert_eq!(clock_time(result), "12:30:45");
}

#[test]
fn parse_local_time_end_time_adds_minute() {
    let result = parse_local_time("20250101", "1200", "UTC", true).unwrap();
    assert_eq!(clock_time(result), "12:01:00");
}

#[test]
fn parse_local_time_end_time_with_seconds_adds_second() {
    let result = parse_local_time("20250101", "120030", "UTC", true).unwrap();
    assert_eq!(clock_time(result), "12:00:31");
}

#[test]
fn parse_local_time_uses_timezone() {
    // 12:00 Berlin (CET, UTC+1) == 11:00 UTC in January.
    let tz = parse_timezone("Europe/Berlin").unwrap();
    let result = parse_local_time("20250101", "1200", &tz, false).unwrap();
    assert_eq!(clock_time(result), "11:00:00");
}

#[test]
fn parse_local_time_invalid_is_none() {
    assert!(parse_local_time("bogus", "1200", "UTC", false).is_none());
    assert!(parse_local_time("20250101", "bogus", "UTC", false).is_none());
}

#[test]
fn unknown_timezones_are_refused() {
    assert_eq!(parse_timezone("Nowhere/Land"), None);
    assert_eq!(parse_timezone("UTC").as_deref(), Some("UTC"));
}

#[test]
fn a_time_that_clocks_skip_is_none() {
    // On 30 March 2025 Berlin went from 02:00 to 03:00.
    assert_eq!(parse_local_time("20250330", "0230", "Europe/Berlin", false), None);
}

#[test]
fn log_filters_follow_the_flags() {
    assert_ne!(default_log_filter(true, false), default_log_filter(false, false));
    assert_eq!(default_log_filter(false, true), "debug");
}

#[test]
fn build_import_metrics_uses_import_prefix_by_default() {
    let prefix = import_metrics_prefix(&Config::default());
    assert_eq!(
        for_update_imported(3).datagram(&prefix),
        "org.blitzortung.import.strikes.imported:3|g"
    );
}

#[test]
fn build_import_metrics_honours_configured_prefix() {
    let config = Config { statsd_prefix: "my.import".into(), ..Config::default() };
    let prefix = import_metrics_prefix(&config);
    assert_eq!(for_update_imported(3).datagram(&prefix), "my.import.strikes.imported:3|g");
}

#[test]
fn a_lock_is_awaited_until_the_deadline() {
    assert!(matches!(lock_step(true, false), Some(Ok(()))));
    assert!(lock_step(false, false).is_none());
    assert!(matches!(lock_step(false, true), Some(Err(_))));
    assert!(!FailedToAcquireException.message().is_empty());
}

// ---------------------------------------------------------------------
// database queries
// ---------------------------------------------------------------------

#[test]
fn defaults_match_python() {
    let options = DbOptions::defaults();
    assert_eq!(options.startdate, "default");
    assert_eq!(options.tz, "UTC");
    assert_eq!(options.srid, 4326);
    assert_eq!(options.precision, 4);
    assert!(!options.useenv);
    assert!(!options.map);
}

#[test]
fn prepare_grid_none_without_options() {
    let options = DbOptions::defaults();
    assert!(prepare_grid_if_applicable(&options, None).unwrap().is_none());
}

fn rectangle() -> Area {
    let ring = vec![
        (num(1.0), num(1.0)),
        (num(3.0), num(1.0)),
        (num(3.0), num(4.0)),
        (num(1.0), num(4.0)),
        (num(1.0), num(1.0)),
    ];
    Area::from_polygon(&[ring]).unwrap()
}

#[test]
fn prepare_grid_uses_single_grid_value() {
    let mut options = DbOptions::defaults();
    options.grid = Some(num(0.5));
    let grid = prepare_grid_if_applicable(&options, Some(&rectangle())).unwrap().unwrap();
    assert_eq!(grid.x_div, num(0.5));
    assert_eq!(grid.y_div, num(0.5));
    assert_eq!(grid.x_min, num(1.0));
    assert_eq!(grid.y_min, num(1.0));
    assert_eq!(grid.x_max, num(3.0));
    assert_eq!(grid.y_max, num(4.0));
}

#[test]
fn prepare_grid_x_y_overrides() {
    let mut options = DbOptions::defaults();
    options.xgrid = Some(num(0.3));
    options.ygrid = Some(num(0.4));
    let grid = prepare_grid_if_applicable(&options, Some(&rectangle())).unwrap().unwrap();
    assert_eq!(grid.x_div, num(0.3));
    assert_eq!(grid.y_div, num(0.4));
}

#[test]
fn a_grid_needs_an_area() {
    let mut options = DbOptions::defaults();
    options.grid = Some(num(0.5));
    let exit = prepare_grid_if_applicable(&options, None).unwrap_err();
    assert_ne!(exit.code, 0);
}

#[test]
fn resolve_interval_defaults_to_last_hour() {
    let options = DbOptions::defaults();
    let now = utc(2025, 1, 1, 12, 30, 0);
    let (start, end) = resolve_interval(&options, now).unwrap();
    // start = now - 1h, end = now - 1min (default end is implicit)
    assert_eq!(start, utc(2025, 1, 1, 11, 30, 0));
    assert_eq!(end, utc(2025, 1, 1, 12, 29, 0));
}

#[test]
fn resolve_interval_explicit_start() {
    let mut options = DbOptions::defaults();
    options.startdate = "20250101".to_string();
    options.starttime = "1000".to_string();
    let (start, _) = resolve_interval(&options, utc(2025, 1, 1, 12, 30, 0)).unwrap();
    assert_eq!(start, utc(2025, 1, 1, 10, 0, 0));
}

#[test]
fn resolve_interval_refuses_unreadable_times() {
    let mut options = DbOptions::defaults();
    options.startdate = "bogus".to_string();
    options.starttime = "1000".to_string();
    assert!(resolve_interval(&options, utc(2025, 1, 1, 12, 30, 0)).is_err());
    let mut options = DbOptions::defaults();
    options.tz = "Nowhere/Land".to_string();
    assert!(resolve_interval(&options, utc(2025, 1, 1, 12, 30, 0)).is_err());
}

#[test]
fn fetch_strikes_prints_and_counts() {
    let row = Row::new(vec![
        Value::Int(1),
        Value::Timestamp(utc(2025, 1, 1, 11, 0, 0)),
        Value::Int(0),
        Value::Float(num(10.123456)),
        Value::Float(num(20.654321)),
        Value::Float(num(100.0)),
        Value::Float(num(10.5)),
        Value::Int(250),
        Value::Int(5),
    ]);
    let zero = num(0.0);
    let wide = WideColumns { x: zero, y: zero, altitude: zero, amplitude: zero };
    let strike = StrikeDb::new(4326).select(&[row], &[wide]).unwrap().remove(0);
    let figures = StrikeFigures {
        x: format!("{:.4}", f64::from_bits(strike.x.bits)),
        y: format!("{:.4}", f64::from_bits(strike.y.bits)),
        altitude: strike.altitude.map(|a| format!("{:?}", f64::from_bits(a.bits))),
        amplitude: format!("{:.1}", f64::from_bits(strike.shown_amplitude().bits)),
    };
    let output = render_strikes(&[strike.clone()], "UTC", &[figures.clone()]).unwrap();
    assert_eq!(output, "2025-01-01 11:00:00.000000000 10.1235 20.6543 100.0 10.5 250 5");
    assert_eq!(shown_count(&output), 1);
    let both = [strike.clone(), strike];
    let output = render_strikes(&both, "UTC", &[figures.clone(), figures]).unwrap();
    assert_eq!(output.lines().count(), 2);
    assert_eq!(shown_count(&output), 2);
    assert_eq!(shown_count(""), 0);
    assert_eq!(render_strikes(&[], "Nowhere/Land", &[]), None);
}

#[test]
fn fetch_strikes_grid_renders_arcgrid() {
    let rows = vec![Row::new(vec![
        Value::Int(0),
        Value::Int(1),
        Value::Int(3),
        Value::Timestamp(utc(2025, 1, 1, 11, 0, 0)),
    ])];
    let grid = Grid::new(num(0.0), num(1.0), num(0.0), num(1.0), num(1.0), num(1.0));
    let data = StrikeDb::new(4326).select_grid(&grid, 1, 1, &rows).unwrap();
    let figures = ArcFigures {
        x_corner: "0.0000".to_string(),
        y_corner: "0.0000".to_string(),
        cell_size: "1.0000".to_string(),
    };
    let mut options = DbOptions::defaults();
    let output = render_grid(&options, &data, &figures);
    assert!(output.starts_with(
        "NCOLS 1\nNROWS 1\nXLLCORNER 0.0000\nYLLCORNER 0.0000\nCELLSIZE 1.0000\nNODATA_VALUE 0\n3"
    ));
    options.map = true;
    assert_eq!(
        render_grid(&options, &data, &figures),
        "---\n|o|\n---\ntotal count: 3, max per area: 3"
    );
}

#[test]
fn strike_timestamp_converts_to_timezone() {
    let strike = Strike::new(
        Some(1),
        Timestamp::new(utc(2025, 1, 1, 11, 0, 0), 0),
        num(10.0),
        num(20.0),
        Some(num(0.0)),
        Some(num(0.0)),
        Some(0),
        Some(0),
        vec![],
        None,
    );
    let figures = StrikeFigures {
        x: "10.0000".to_string(),
        y: "20.0000".to_string(),
        altitude: Some("0.0".to_string()),
        amplitude: "0.0".to_string(),
    };
    let tz = parse_timezone("Europe/Berlin").unwrap();
    let rendered = strike.to_string_in_tz(&tz, &figures).unwrap();
    // 11:00 UTC == 12:00 CET in January.
    assert!(rendered.starts_with("2025-01-01 12:00:00.000000000 10.0000 20.0000"));
    assert_eq!(strike.to_string_in_tz("Nowhere/Land", &figures), None);
}

#[test]
fn resolve_area_without_area_is_none() {
    let options = DbOptions::defaults();
    assert!(resolve_area(&options, None).unwrap().is_none());
}

#[test]
fn resolve_area_useenv_produces_envelope() {
    let mut options = DbOptions::defaults();
    options.area = Some("POLYGON((0 0, 2 0, 1 1, 0 2, 0 0))".to_string());
    options.useenv = true;
    let ring = vec![
        (num(0.0), num(0.0)),
        (num(2.0), num(0.0)),
        (num(1.0), num(1.0)),
        (num(0.0), num(2.0)),
        (num(0.0), num(0.0)),
    ];
    let parsed = Area::from_polygon(&[ring]);
    assert!(parsed.as_ref().unwrap().geometry_wkb.is_some());
    let area = resolve_area(&options, parsed).unwrap().unwrap();
    assert!(area.geometry_wkb.is_none());
    // An area that is no polygon ends the program.
    assert!(resolve_area(&options, None).is_err());
}

// ---------------------------------------------------------------------
// web service options
// ---------------------------------------------------------------------

#[test]
fn main_cli_port_overrides_config() {
    let config = Config { port: 8080, ..Config::default() };
    assert_eq!(effective_port(Some(9999), &config), 9999);
}

#[test]
fn main_absent_cli_port_falls_back_to_config() {
    let config = Config { port: 8300, ..Config::default() };
    assert_eq!(effective_port(None, &config), 8300);
}

#[test]
fn main_default_config_port_is_used_when_nothing_set() {
    assert_eq!(effective_port(None, &Config::default()), 8080);
}

#[test]
fn main_protocol_defaults_to_http() {
    assert_eq!(effective_protocol(None, &Config::default()).unwrap(), Protocol::Http);
}

#[test]
fn main_cli_protocol_overrides_config() {
    let config = Config { protocol: Protocol::Http, ..Config::default() };
    assert_eq!(effective_protocol(Some("lsp"), &config).unwrap(), Protocol::Lsp);
    let config = Config { protocol: Protocol::Lsp, ..Config::default() };
    assert_eq!(effective_protocol(Some("http"), &config).unwrap(), Protocol::Http);
    assert!(effective_protocol(Some("bogus"), &config).is_err());
}

#[test]
fn resolve_servicelog_precedence_and_usability() {
    // Nothing configured: disabled.
    let none = servicelog_candidate(None, &Config::default());
    assert_eq!(resolve_servicelog(none, false, true, true), ServicelogResolution::Disabled);

    // A writable configured directory is enabled when no CLI value is given.
    let config = Config { service_log_dir: Some("/var/log/a".to_string()), ..Config::default() };
    assert_eq!(
        resolve_servicelog(servicelog_candidate(None, &config), true, true, true),
        ServicelogResolution::Enabled("/var/log/a".to_string())
    );

    // CLI wins over the configured value.
    let candidate = servicelog_candidate(Some("/var/log/b".to_string()), &config);
    assert_eq!(
        resolve_servicelog(candidate, true, true, true),
        ServicelogResolution::Enabled("/var/log/b".to_string())
    );

    // A non-existent CLI path is unusable and marked explicit.
    let candidate = servicelog_candidate(Some("/nonexistent/servicelog".to_string()), &config);
    match resolve_servicelog(candidate, true, false, false) {
        ServicelogResolution::Unusable { path, explicit, reason } => {
            assert_eq!(path, "/nonexistent/servicelog");
            assert!(explicit);
            assert_eq!(reason, "does not exist");
        }
        other => panic!("expected Unusable, got {other:?}"),
    }

    // A configured but non-existent directory is unusable (explicit).
    let missing =
        Config { service_log_dir: Some("/nonexistent/bo-usage-log".to_string()), ..Config::default() };
    assert!(matches!(
        resolve_servicelog(servicelog_candidate(None, &missing), true, false, false),
        ServicelogResolution::Unusable { explicit: true, .. }
    ));
}

#[test]
fn unwritable_directory_is_unusable() {
    let config = Config { service_log_dir: Some("/var/log/a".to_string()), ..Config::default() };
    match resolve_servicelog(servicelog_candidate(None, &config), true, false, true) {
        ServicelogResolution::Unusable { explicit, .. } => assert!(explicit),
        other => panic!("expected Unusable, got {other:?}"),
    }
}

#[test]
fn servicelog_directory_prefers_existing_dir() {
    assert_eq!(servicelog_directory("/var/log/logs.d", true), "/var/log/logs.d");
}

#[test]
fn servicelog_directory_strips_file_like_paths() {
    assert_eq!(
        servicelog_directory("/var/log/blitzortung/servicelog.log", false),
        "/var/log/blitzortung"
    );
    // A path without an extension is treated as a directory.
    assert_eq!(servicelog_directory("/var/log/blitzortung", false), "/var/log/blitzortung");
    assert_eq!(
        servicelog_directory("/var/log/blitzortung/servicelog_2023-11-14", false),
        "/var/log/blitzortung/servicelog_2023-11-14"
    );
    assert_eq!(log_directory("a.log", false, true, Some("dir".to_string())), "dir");
    assert_eq!(log_directory("a.log", false, true, None), "a.log");
}

#[test]
fn effective_geoip_db_precedence() {
    // Default.
    assert_eq!(effective_geoip_db(None, &Config::default()), DEFAULT_GEOIP_DB);

    // Config wins over the default.
    let config = Config {
        service_geoip_db: Some("/from/config.mmdb".into()),
        ..Config::default()
    };
    assert_eq!(effective_geoip_db(None, &config), "/from/config.mmdb");

    // CLI wins over config.
    assert_eq!(effective_geoip_db(Some("/from/cli.mmdb"), &config), "/from/cli.mmdb");
}
