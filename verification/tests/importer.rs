use blitzortung_srv::builder::{line_fields, LineNumbers, MessageNumbers};
use blitzortung_srv::cli::import_tool::{
    import_start, parse_start_date, resolve_start_time, update_start_time, ChunkInserter,
    ImportAction, ImportArgs, ImportOptions, ImportRun, RegionImport, REGIONS, RETRY_COUNT, STRIKE_BATCH_SIZE,
    STRIKE_GROUP_SIZE,
};
use blitzortung_srv::cli::import_websocket_tool::{
    chosen_server, on_frame, random_server_index, server_url, strike_from_message, Frame,
    FrameStep, Importer, WebsocketArgs, WebsocketOptions, COMMIT_STRIKE_COUNT, SERVER_INDICES,
};
use blitzortung_srv::cli::insert_tool::{
    self, after_strike, at_end, CollectedImport, InsertOptions, InsertStep,
};
use blitzortung_srv::cli::update_tool::{
    create_strike_key, last_strikes_url, message_lines, strikes_of_messages, update_ended,
    update_statement, update_strikes, UpdateArgs, UpdateEnd, UpdateOptions, UpdateResult,
};
use blitzortung_srv::data::{Strike, Timestamp};
use blitzortung_srv::dataimport::{
    self, lines_to_read, ImportError, StrikesBlitzortungDataProvider, TransportError,
};
use blitzortung_srv::db::{HashableStrikeKey, StrikeDb};
use blitzortung_srv::executor::{Param, Row, Value};
use blitzortung_srv::feed::{block_url, parse_line, recent_blocks};
use blitzortung_srv::ieee::Real;
use blitzortung_srv::json::Json;
use blitzortung_srv::metrics::{
    for_import, for_import_error_count, for_websocket_strike, RecordingMetrics,
};
use blitzortung_srv::mock::MockExecutor;
use blitzortung_srv::query::TimeInterval;
use blitzortung_srv::websocket::decode;
use chrono::{DateTime, TimeZone, Utc};

const SECOND: i64 = 1_000_000;
const MINUTE: i64 = 60 * SECOND;
const HOUR: i64 = 60 * MINUTE;

fn num(value: f64) -> Real {
    Real::from_bits(value.to_bits())
}

fn utc(y: i32, mo: u32, d: u32, h: u32, mi: u32, s: u32) -> i64 {
    Utc.with_ymd_and_hms(y, mo, d, h, mi, s).unwrap().timestamp_micros()
}

fn now() -> i64 {
    utc(2025, 1, 1, 12, 3, 0)
}

fn time(micros: i64) -> DateTime<Utc> {
    Utc.timestamp_micros(micros).unwrap()
}

fn strike_line(micros: i64) -> String {
    format!(
        "{}789 pos;48.5;-10.2;500.5 str;45.2 dev;250.0 sta;5;10;1,2,3",
        time(micros).format("%Y-%m-%d %H:%M:%S.%6f")
    )
}

fn numbers_of(line: &str) -> LineNumbers {
    let fields = line_fields(line);
    let number = |text: Option<&str>| match text {
        Some(text) => text.parse::<f64>().map(num).map_err(|e| e.to_string()),
        None => Ok(num(0.0)),
    };
    let position = fields.position.as_ref();
    LineNumbers {
        longitude: number(position.map(|p| p.1.as_str())),
        latitude: number(position.map(|p| p.0.as_str())),
        altitude: number(position.map(|p| p.2.as_str())),
        amplitude: number(fields.amplitude.as_deref()),
        deviation: number(fields.deviation.as_deref()),
    }
}

/// What a request for a log file leads to.
enum Served {
    Lines(Vec<String>),
    Missing,
    Failure,
}

/// Import one region from canned log files into a scripted database.
fn import_region(
    mock: &mut MockExecutor,
    files: &mut Vec<Served>,
    region: u32,
    is_update: bool,
    now: i64,
) -> Result<usize, String> {
    let statement = StrikeDb::new(4326).latest_time_statement(Some(region as i64));
    let rows = mock.query(&statement.sql, &statement.params)?;
    let latest = StrikeDb::new(4326).get_latest_time(&rows).map_err(|e| e.message())?;
    let mut import = RegionImport::new(region, latest, None, is_update, now);
    loop {
        match import.next(false) {
            ImportAction::Commit => mock.commit(),
            ImportAction::Continue | ImportAction::Warn { .. } => {}
            ImportAction::Insert { statement, count } => {
                mock.execute(&statement.sql, &statement.params)?;
                import.inserted(count);
            }
            ImportAction::Fetch(_) => {
                let fetched = match files.pop() {
                    Some(Served::Lines(lines)) => Ok(lines),
                    Some(Served::Missing) => Err(TransportError::NotFound),
                    Some(Served::Failure) => Err(TransportError::Io("connection refused".to_string())),
                    None => Ok(vec![]),
                };
                let lines = lines_to_read(fetched).map_err(|e| e.message().to_string())?;
                let numbers = lines.iter().map(|line| numbers_of(line)).collect();
                import.read(lines, numbers);
            }
            ImportAction::Done(count) => {
                assert_eq!(import.inserted_count(), count);
                return Ok(count);
            }
        }
    }
}

/// Import the regions, trying each one several times.
fn import_regions(
    mock: &mut MockExecutor,
    files: &mut Vec<Served>,
    regions: &[u32],
    is_update: bool,
) -> (usize, usize) {
    let mut run = ImportRun::new(regions.to_vec());
    while let Some((region, _)) = run.next_attempt() {
        let outcome = import_region(mock, files, region, is_update, now());
        run.attempt_ended(outcome.ok());
    }
    (run.total_strikes, run.error_count)
}

fn executor_with_latest(latest: Option<(i64, i64)>) -> MockExecutor {
    let mut mock = MockExecutor::new();
    let rows = match latest {
        Some((micros, ns)) => vec![Row::new(vec![Value::Timestamp(micros), Value::Int(ns)])],
        None => vec![],
    };
    mock.add_rows("ORDER BY \"timestamp\" DESC", rows);
    mock
}

#[test]
fn import_tool_update_start_time_is_thirty_minutes_ago() {
    assert_eq!(update_start_time(now()), now() - 30 * MINUTE);
}

#[test]
fn import_tool_parse_start_date_midnight_utc() {
    assert_eq!(parse_start_date("20250101"), Some(utc(2025, 1, 1, 0, 0, 0)));
    assert_eq!(parse_start_date("bogus"), None);
}

#[test]
fn import_tool_import_strikes_for_inserts_new_strikes() {
    // Latest DB time is older than the log entry, so the strike is new.
    let mut mock = executor_with_latest(Some((now() - 2 * HOUR, 0)));
    let mut files = vec![Served::Lines(vec![strike_line(now() - 30 * MINUTE)])];
    let count = import_region(&mut mock, &mut files, 1, false, now()).unwrap();
    assert_eq!(count, 1);
    assert_eq!(mock.execution_count(), 1);
    assert_eq!(mock.commit_count(), 1);
    // The insert was pinned to the region.
    let (_, params) = &mock.executions()[0];
    assert_eq!(params[5], Param::Int(1));
}

#[test]
fn import_strikes_for_flushes_batches_and_tail() {
    let base = now() - 2 * HOUR + SECOND;
    let mut mock = executor_with_latest(Some((now() - 3 * HOUR, 0)));
    let lines = (0..=STRIKE_BATCH_SIZE).map(|i| strike_line(base + i as i64 * 1000)).collect();
    let count =
        import_region(&mut mock, &mut vec![Served::Lines(lines)], 4, false, now()).unwrap();
    assert_eq!(count, STRIKE_BATCH_SIZE + 1);
    assert_eq!(mock.execution_count(), 2);
    assert_eq!(mock.executions()[0].1.len(), STRIKE_BATCH_SIZE * 9);
    assert_eq!(mock.executions()[1].1.len(), 9);
    for (_, params) in mock.executions() {
        assert_eq!(params[5], Param::Int(4));
    }
    assert_eq!(mock.commit_count(), 1);
}

#[test]
fn import_strikes_for_commits_multiple_groups_while_streaming() {
    let base = now() - 2 * HOUR + SECOND;
    let mut mock = executor_with_latest(Some((now() - 3 * HOUR, 0)));
    let total = STRIKE_GROUP_SIZE + 1;
    let lines = (0..total).map(|i| strike_line(base + i as i64 * 1000)).collect();
    let count =
        import_region(&mut mock, &mut vec![Served::Lines(lines)], 2, false, now()).unwrap();
    assert_eq!(count, total);
    // Ten 1,000-row batches plus the final single-row batch.
    assert_eq!(mock.execution_count(), total.div_ceil(STRIKE_BATCH_SIZE));
    // One commit at the 10,000-row boundary and one for the partial group.
    assert_eq!(mock.commit_count(), 2);
}

#[test]
fn import_strikes_for_reports_metrics() {
    let mut mock = executor_with_latest(Some((now() - 2 * HOUR, 0)));
    let mut files = vec![Served::Lines(vec![strike_line(now() - 30 * MINUTE)])];
    let count = import_region(&mut mock, &mut files, 3, false, now()).unwrap();
    let mut metrics = RecordingMetrics::new();
    metrics.record_all(&for_import(3, count as u64, 0, 0));
    let lines = metrics.lines();
    assert_eq!(lines[0], "strikes.3:1|c");
    assert_eq!(lines[1], "strikes.3.count:1|g");
    assert!(lines[2].starts_with("strikes.3.get:"), "got {lines:?}");
    assert!(lines[2].ends_with("|ms"), "got {lines:?}");
    assert!(lines[3].starts_with("strikes.3.insert:"), "got {lines:?}");
    assert!(lines[3].ends_with("|ms"), "got {lines:?}");
}

#[test]
fn import_tool_import_strikes_for_no_strikes_does_not_commit() {
    let mut mock = executor_with_latest(None);
    let count = import_region(&mut mock, &mut vec![], 1, false, now()).unwrap();
    assert_eq!(count, 0);
    assert_eq!(mock.commit_count(), 0);
}

#[test]
fn import_strikes_skips_missing_files_without_retry() {
    let mut mock = executor_with_latest(None);
    let mut files = vec![Served::Missing, Served::Missing];
    let (strikes, errors) = import_regions(&mut mock, &mut files, &[1], false);
    assert_eq!(strikes, 0);
    assert_eq!(errors, 0);
    // A missing file must not restart the region: only the latest-time lookup
    // runs.
    assert_eq!(mock.call_count(), 1);
}

#[test]
fn import_tool_import_strikes_retries_on_connection_error() {
    // Two DB latest-time queries: the failed attempt and the retry.
    let mut mock = MockExecutor::new();
    for _ in 0..2 {
        let row = Row::new(vec![Value::Timestamp(now() - 2 * HOUR), Value::Int(0)]);
        mock.add_rows("ORDER BY \"timestamp\" DESC", vec![row]);
    }
    let mut files =
        vec![Served::Lines(vec![strike_line(now() - 30 * MINUTE)]), Served::Failure];
    let (strikes, errors) = import_regions(&mut mock, &mut files, &[1], false);
    assert_eq!(errors, 1);
    assert_eq!(strikes, 1);
}

#[test]
fn import_strikes_reports_error_count_metric() {
    // Each retry re-reads the latest DB time before the transport fails.
    let mut mock = MockExecutor::new();
    let mut files = vec![];
    for _ in 0..RETRY_COUNT {
        mock.add_rows("ORDER BY \"timestamp\" DESC", vec![]);
        files.push(Served::Failure);
    }
    let (_, errors) = import_regions(&mut mock, &mut files, &[1], false);
    assert_eq!(errors, RETRY_COUNT);
    assert_eq!(for_import_error_count(errors as u64).render(), "strikes.error_count:5|g");
}

#[test]
fn import_tool_import_strikes_defaults_start_to_update_window() {
    // With no DB row, an update starts thirty minutes ago.
    let start = import_start(None, None, true, now()).unwrap();
    assert_eq!(start.datetime, Some(now() - 30 * MINUTE));
    let mut mock = executor_with_latest(None);
    let count = import_region(&mut mock, &mut vec![], 1, true, now()).unwrap();
    assert_eq!(count, 0);
}

#[test]
fn an_update_does_not_reach_further_back() {
    let old = Timestamp::new(now() - 5 * HOUR, 0);
    let recent = Timestamp::new(now() - MINUTE, 0);
    assert_eq!(import_start(Some(old), None, false, now()), Some(old));
    assert_eq!(
        import_start(Some(old), None, true, now()).unwrap().datetime,
        Some(now() - 30 * MINUTE)
    );
    assert_eq!(import_start(Some(recent), None, true, now()), Some(recent));
    assert_eq!(import_start(None, Some(old), false, now()), Some(old));
    assert_eq!(import_start(None, None, false, now()), None);
}

#[test]
fn import_options_come_from_the_arguments() {
    let args = ImportArgs {
        verbose: true,
        debug: false,
        no_timeout: true,
        startdate: Some("20250101".to_string()),
        update: true,
    };
    let options = ImportOptions::from_args(&args);
    assert!(options.verbose && options.no_timeout && options.update && !options.debug);
    let start = resolve_start_time(&options).unwrap().unwrap();
    assert_eq!(start.datetime, Some(utc(2025, 1, 1, 0, 0, 0)));
    let bad = ImportOptions { startdate: Some("bogus".to_string()), ..options };
    assert!(resolve_start_time(&bad).is_err());
    assert!(REGIONS.contains(&1));
}

#[test]
fn every_inserted_strike_gets_committed() {
    let mut inserter = ChunkInserter::new();
    inserter.accept(STRIKE_GROUP_SIZE - 1);
    assert!(!inserter.next_commit());
    assert!(inserter.finish());
    inserter.accept(1);
    assert!(inserter.next_commit());
    assert!(!inserter.next_commit());
    assert!(!inserter.finish());
}

#[test]
fn a_region_is_left_after_its_retries() {
    let mut run = ImportRun::new(vec![1, 2]);
    for retry in 0..RETRY_COUNT {
        assert_eq!(run.next_attempt(), Some((1, retry)));
        run.attempt_ended(None);
    }
    assert_eq!(run.next_attempt(), Some((2, 0)));
    run.attempt_ended(Some(7));
    assert_eq!(run.next_attempt(), None);
    assert_eq!((run.total_strikes, run.error_count), (7, RETRY_COUNT));
}

// ---------------------------------------------------------------------
// the insert tool
// ---------------------------------------------------------------------

#[test]
fn insert_tool_parse_start_date_midnight_utc() {
    let options = insert_tool::Options {
        flags: vec!["update".to_string(), "verbose".to_string()],
        values: vec![("startdate".to_string(), "20250101".to_string())],
    };
    let options = InsertOptions::from_options(&options);
    assert!(options.update && options.verbose && !options.debug && !options.no_timeout);
    let start = insert_tool::resolve_start_time(&options).unwrap().unwrap();
    assert_eq!(start.datetime, Some(utc(2025, 1, 1, 0, 0, 0)));
}

#[test]
fn strikes_are_inserted_in_batches_and_committed_in_groups() {
    assert_eq!(after_strike(5, 5), InsertStep::Collect);
    assert_eq!(after_strike(STRIKE_BATCH_SIZE, STRIKE_BATCH_SIZE), InsertStep::Insert);
    assert_eq!(after_strike(STRIKE_GROUP_SIZE, STRIKE_BATCH_SIZE), InsertStep::InsertAndCommit);
    assert_eq!(at_end(0, 0), (false, false));
    assert_eq!(at_end(7, 7), (true, true));
}

// ---------------------------------------------------------------------
// the data provider
// ---------------------------------------------------------------------

fn stream(lines: &[String], since: i64, chunk: usize) -> (Vec<usize>, usize) {
    let mut provider = StrikesBlitzortungDataProvider::new(since, now(), 1, chunk);
    let mut batches = vec![];
    let mut served = false;
    while provider.next_location(false).is_some() {
        if !served {
            served = true;
            for line in lines {
                if let Ok(Some(batch)) = provider.offer_line(line, &numbers_of(line)) {
                    batches.push(batch.len());
                    provider.stored(batch.len());
                }
            }
        }
    }
    if let Some(batch) = provider.finish() {
        batches.push(batch.len());
        provider.stored(batch.len());
    }
    (batches, provider.total())
}

#[test]
fn provider_streams_strikes_to_sink_in_chunks() {
    let lines = vec![strike_line(now() - 5 * MINUTE), strike_line(now() - 4 * MINUTE)];
    let (batches, total) = stream(&lines, now() - 20 * MINUTE, 1);
    assert_eq!(total, 2);
    assert_eq!(batches, vec![1, 1]);
    assert_eq!(batches.iter().sum::<usize>(), 2);
}

#[test]
fn provider_flushes_final_partial_batch() {
    let lines = vec![strike_line(now() - 5 * MINUTE)];
    let (batches, total) = stream(&lines, now() - 20 * MINUTE, 1000);
    assert_eq!(total, 1);
    assert_eq!(batches, vec![1]);
}

#[test]
fn provider_skips_missing_files_and_continues() {
    // Three ten-minute slots: the first is missing, the second serves the
    // strike, the third is empty.
    let mut provider = StrikesBlitzortungDataProvider::new(now() - 20 * MINUTE, now(), 1, 1000);
    let mut locations = vec![];
    while let Some(location) = provider.next_location(false) {
        locations.push(location);
        let fetched = match locations.len() {
            1 => Err(TransportError::NotFound),
            2 => Ok(vec![strike_line(now())]),
            _ => Ok(vec![]),
        };
        for line in lines_to_read(fetched).unwrap() {
            assert!(provider.offer_line(&line, &numbers_of(&line)).unwrap().is_none());
        }
    }
    assert_eq!(
        locations,
        vec![
            "https://data.blitzortung.org/Data/Protected/Strikes_1/2025/01/01/11/40.log",
            "https://data.blitzortung.org/Data/Protected/Strikes_1/2025/01/01/11/50.log",
            "https://data.blitzortung.org/Data/Protected/Strikes_1/2025/01/01/12/00.log",
        ]
    );
    assert_eq!(provider.finish().unwrap().len(), 1);
}

#[test]
fn provider_filters_older_strikes() {
    let lines = vec![strike_line(now() - 2 * HOUR), strike_line(now())];
    let (_, total) = stream(&lines, now() - HOUR, 1000);
    assert_eq!(total, 1);
}

#[test]
fn provider_skips_builder_errors() {
    let (batches, total) = stream(&["invalid line".to_string()], now() - HOUR, 1000);
    assert!(batches.is_empty());
    assert_eq!(total, 0);
}

#[test]
fn a_deadline_ends_the_download() {
    let mut provider = StrikesBlitzortungDataProvider::new(now() - HOUR, now(), 1, 1000);
    assert!(provider.next_location(false).is_some());
    assert!(provider.next_location(true).is_none());
    assert_eq!(dataimport::import_start(None, now()), now() - 6 * HOUR);
    assert_eq!(dataimport::import_start(Some(5), now()), 5);
}

#[test]
fn only_missing_logs_are_skipped() {
    assert!(lines_to_read(Err(TransportError::NotFound)).unwrap().is_empty());
    assert!(lines_to_read(Err(TransportError::Timeout("slow".to_string()))).unwrap().is_empty());
    let request = TransportError::Request("reset".to_string());
    assert!(!request.is_missing());
    assert_eq!(request.message(), "reset");
    let error = lines_to_read(Err(request)).unwrap_err();
    assert!(matches!(error, ImportError::Transport(_)));
    assert_eq!(error.message(), "reset");
    assert_eq!(ImportError::Sink("full".to_string()).message(), "full");
    assert!(!TransportError::NotFound.message().is_empty());
    let lines = vec!["a".to_string()];
    assert_eq!(lines_to_read(Ok(lines.clone())), Ok(lines));
}

#[test]
fn lines_that_are_no_strikes_change_nothing() {
    let mut provider = StrikesBlitzortungDataProvider::new(now() - HOUR, now(), 1, 1);
    let error = provider.offer_line("invalid line", &numbers_of("invalid line")).unwrap_err();
    assert_eq!(error.message(), "missing position");
    assert!(provider.finish().is_none());
    let line = strike_line(now());
    assert_eq!(provider.offer_line(&line, &numbers_of(&line)).unwrap().unwrap().len(), 1);
}

// ---------------------------------------------------------------------
// the web socket
// ---------------------------------------------------------------------

#[test]
fn server_url_format() {
    assert_eq!(server_url(7), "wss://ws7.blitzortung.org/");
}

#[test]
fn random_server_index_is_known() {
    for _ in 0..20 {
        assert!(SERVER_INDICES.contains(&random_server_index()));
    }
    assert!(SERVER_INDICES.contains(&chosen_server(None)));
}

fn from_value(value: &serde_json::Value) -> Json {
    match value {
        serde_json::Value::Number(n) => match n.as_i64() {
            Some(i) => Json::Int(i),
            None => Json::Float(num(n.as_f64().unwrap())),
        },
        serde_json::Value::Object(fields) => {
            Json::Object(fields.iter().map(|(k, v)| (k.clone(), from_value(v))).collect())
        }
        _ => Json::Null,
    }
}

/// The value of a message of the feed, when it has one, and its numbers.
fn message_of(text: &str) -> (Option<Json>, MessageNumbers) {
    let value: Option<serde_json::Value> = serde_json::from_str(text).ok();
    let number = |name: &str| value.as_ref()?.get(name)?.as_f64();
    let round = |v: f64| num((v * 10000.0).round() / 10000.0);
    let numbers = MessageNumbers {
        longitude: number("lon").map(round),
        latitude: number("lat").map(round),
        altitude: number("alt").map(num),
        deviation: number("mds").map(num),
    };
    (value.as_ref().map(from_value), numbers)
}

/// Read a message of the feed.
fn read_message(text: &str) -> Option<(Strike, i64)> {
    let (message, numbers) = message_of(text);
    strike_from_message(message.as_ref(), &numbers)
}

/// The strikes on the lines of a download.
fn parse_strikes(body: &str) -> Vec<Strike> {
    let (messages, numbers): (Vec<Option<Json>>, Vec<MessageNumbers>) =
        message_lines(body).iter().map(|line| message_of(line)).unzip();
    strikes_of_messages(&messages, &numbers)
}

#[test]
fn strike_from_message_parses_region_and_delay() {
    let message = "{\"time\":1650135893612088000,\"lat\":32.335748,\"lon\":-89.561516,\
                   \"alt\":0,\"pol\":0,\"mds\":9611,\"mcg\":179,\"status\":0,\"region\":3,\"delay\":4.9}";
    let (strike, region) = read_message(message).unwrap();
    assert_eq!(strike.x, num(-89.5615));
    assert_eq!(strike.y, num(32.3357));
    assert_eq!(region, 3);
}

#[test]
fn strike_from_message_defaults_region_to_one() {
    let message =
        "{\"time\":1650135893612088000,\"lat\":32.335748,\"lon\":-89.561516,\"alt\":0,\"mds\":100}";
    let (_, region) = read_message(message).unwrap();
    assert_eq!(region, 1);
}

#[test]
fn strike_from_message_rejects_invalid_json() {
    assert!(read_message("not json").is_none());
    assert!(read_message("{\"lat\":1.0}").is_none());
}

#[test]
fn importer_commits_on_test_mode_without_db() {
    let mut importer = Importer::new(0);
    let mut metrics = RecordingMetrics::new();
    let message = "{\"time\":1650135893612088000,\"lat\":32.335748,\"lon\":-89.561516,\
                   \"alt\":0,\"mds\":100,\"region\":3}";
    // Without a database the strike is still counted.
    if let FrameStep::Handle(payload) = on_frame(Frame::Text(message.to_string()), false) {
        let (strike, region) = read_message(&decode(&payload)).unwrap();
        assert_eq!(region, 3);
        let delay = (now() - strike.timestamp.datetime.unwrap()) as f64 / 1e6;
        metrics.record_all(&for_websocket_strike(&format!("{delay}")));
        assert_eq!(importer.stored(0), None);
    }
    assert_eq!(importer.strike_count, 1);
    // `strikes` counter plus the `strikes.delay` gauge.
    let lines = metrics.lines();
    assert_eq!(lines[0], "strikes:1|c");
    assert!(lines[1].starts_with("strikes.delay:"), "got {lines:?}");
    assert!(lines[1].ends_with("|g"), "got {lines:?}");
}

#[test]
fn commits_follow_count_and_time() {
    let mut importer = Importer::new(10);
    for _ in 0..COMMIT_STRIKE_COUNT {
        assert_eq!(importer.stored(10), None);
    }
    assert_eq!(importer.stored(10), Some(COMMIT_STRIKE_COUNT + 1));
    assert_eq!(importer.stored(15), None);
    assert_eq!(importer.stored(16), Some(2));
    assert_eq!(importer.strike_count, 0);
}

#[test]
fn frames_are_handled_or_end_the_connection() {
    assert!(matches!(on_frame(Frame::Text("x".into()), false), FrameStep::Handle(s) if s == "x"));
    assert!(matches!(on_frame(Frame::Text("x".into()), true), FrameStep::Wait));
    assert!(
        matches!(on_frame(Frame::Binary(vec![b'y', 0xff]), false), FrameStep::Handle(s) if s == "y\u{FFFD}")
    );
    assert!(matches!(on_frame(Frame::Control, false), FrameStep::Wait));
    assert!(matches!(on_frame(Frame::Close, false), FrameStep::Stop));
    assert!(matches!(on_frame(Frame::Failure, false), FrameStep::Stop));
    let options =
        WebsocketOptions::from_args(&WebsocketArgs { verbose: false, debug: true, test: true });
    assert!(options.debug && options.test && !options.verbose);
}

// ---------------------------------------------------------------------
// the update tool
// ---------------------------------------------------------------------

fn strike_at(micros: i64, x: f64, y: f64, mds: Option<i64>) -> Strike {
    Strike::new(
        Some(-1),
        Timestamp::new(micros, 0),
        num(x),
        num(y),
        Some(num(0.0)),
        Some(num(0.0)),
        mds,
        Some(0),
        vec![],
        None,
    )
}

fn key_of(strike: &Strike) -> HashableStrikeKey {
    let round = |r: Real| num((f64::from_bits(r.bits) * 10000.0).round() / 10000.0);
    create_strike_key(strike, round(strike.x), round(strike.y))
}

/// Insert the strikes of an update that the database lacks.
fn update(mock: &mut MockExecutor, strikes: &[Strike], now: i64) -> Result<UpdateResult, String> {
    let db = StrikeDb::new(4326);
    let statement = db.strike_keys_statement(&TimeInterval::new(now - HOUR, now), None, None);
    let rows = mock.query(&statement.sql, &statement.params)?;
    let place = |row: &Row, column: usize| match row.get(column) {
        Some(Value::Float(r)) => Some(num((f64::from_bits(r.bits) * 10000.0).round() / 10000.0)),
        _ => None,
    };
    let places: Vec<_> = rows.iter().map(|row| (place(row, 2), place(row, 3))).collect();
    let existing = db.select_strike_keys(&rows, &places).map_err(|e| e.message())?;
    let keys: Vec<HashableStrikeKey> = strikes.iter().map(key_of).collect();
    let missing = update_strikes(strikes, &keys, &existing, 1, now).len();
    let outcome = update_statement(strikes, &keys, &existing, 1, now)
        .map(|statement| mock.execute(&statement.sql, &statement.params).map(|_| ()));
    match update_ended(missing, strikes.len(), outcome) {
        UpdateEnd::Done(result) => Ok(result),
        UpdateEnd::Commit(result) => {
            mock.commit();
            Ok(result)
        }
        UpdateEnd::Rollback(error) => {
            mock.rollback();
            Err(error)
        }
    }
}

fn empty_keys_executor() -> MockExecutor {
    let mut mock = MockExecutor::new();
    mock.add_rows("FROM strikes", vec![]);
    mock
}

#[test]
fn create_strike_key_rounds() {
    let strike = strike_at(utc(2025, 1, 1, 12, 0, 0), 12.345678, 45.678901, Some(100));
    let key = key_of(&strike);
    assert_eq!(key.timestamp, utc(2025, 1, 1, 12, 0, 0) * 1000);
    assert_eq!(key.x, num(12.3457).bits);
    assert_eq!(key.y, num(45.6789).bits);
    assert_eq!(key.lateral_error, Some(100));
}

#[test]
fn parse_json_lines_successfully() {
    let body = "{\"time\":1763202124325980200,\"lat\":-15.296556,\"lon\":134.589548,\"alt\":0,\"mds\":12581}\n\
                \n\
                {\"time\":1763202124297904000,\"lat\":44.283328,\"lon\":8.910987,\"alt\":0,\"mds\":6830,\"region\":9}\n";
    let strikes = parse_strikes(body);
    assert_eq!(strikes.len(), 2);
    assert_eq!(strikes[0].x, num(134.5895));
    assert_eq!(strikes[0].y, num(-15.2966));
    assert_eq!(strikes[0].amplitude, Some(num(0.0)));
}

#[test]
fn parse_json_lines_skips_invalid() {
    let body = "invalid json line\n{\"time\":1763202124325980200,\"lat\":-15.296556,\"lon\":134.589548,\"alt\":0,\"mds\":20}";
    let strikes = parse_strikes(body);
    assert_eq!(strikes.len(), 1);
    assert_eq!(strikes[0].lateral_error, Some(20));
}

#[test]
fn update_inserts_new_strikes() {
    let mut mock = empty_keys_executor();
    let strikes = vec![
        strike_at(now() - 30 * MINUTE, 10.5, 20.5, None),
        strike_at(now() - 30 * MINUTE, 11.5, 21.5, None),
    ];
    let result = update(&mut mock, &strikes, now()).unwrap();
    assert_eq!(result.inserted, 2);
    assert_eq!(result.url_strikes, 2);
    assert_eq!(mock.execution_count(), 1);
    assert_eq!(mock.commit_count(), 1);
    assert_eq!(mock.rollback_count(), 0);
}

#[test]
fn update_skips_too_new_strikes() {
    let mut mock = empty_keys_executor();
    let strikes = vec![strike_at(now() - 59 * SECOND, 10.5, 20.5, None)];
    let result = update(&mut mock, &strikes, now()).unwrap();
    assert_eq!(result.inserted, 0);
    assert_eq!(mock.execution_count(), 0);
    assert_eq!(mock.commit_count(), 0);
}

#[test]
fn update_skips_duplicates() {
    let mut mock = MockExecutor::new();
    mock.add_rows(
        "FROM strikes",
        vec![Row::new(vec![
            Value::Timestamp(now() - 30 * MINUTE),
            Value::Int(0),
            Value::Float(num(10.5)),
            Value::Float(num(20.5)),
            Value::Null,
        ])],
    );
    let strikes = vec![strike_at(now() - 30 * MINUTE, 10.5, 20.5, None)];
    let result = update(&mut mock, &strikes, now()).unwrap();
    assert_eq!(result.inserted, 0);
    assert_eq!(mock.execution_count(), 0);
}

#[test]
fn update_filters_by_time_interval() {
    let mut mock = empty_keys_executor();
    let strikes = vec![
        strike_at(now() - 30 * MINUTE, 10.5, 20.5, None),
        strike_at(now() - 2 * HOUR, 11.5, 21.5, None),
    ];
    let result = update(&mut mock, &strikes, now()).unwrap();
    assert_eq!(result, UpdateResult { inserted: 1, url_strikes: 2 });
}

#[test]
fn update_rolls_back_on_insert_error() {
    let mut mock = MockExecutor::new();
    mock.add_rows("FROM strikes", vec![]);
    mock.add_error("INSERT INTO strikes", "database error");
    let strikes = vec![strike_at(now() - 30 * MINUTE, 10.5, 20.5, None)];
    let result = update(&mut mock, &strikes, now());
    assert_eq!(result, Err("database error".to_string()));
    assert_eq!(mock.rollback_count(), 1);
    assert_eq!(mock.commit_count(), 0);
}

#[test]
fn an_update_ends_as_its_insertion_does() {
    assert_eq!(update_ended(0, 7, None), UpdateEnd::Done(UpdateResult { inserted: 0, url_strikes: 7 }));
    assert_eq!(
        update_ended(3, 7, Some(Ok(()))),
        UpdateEnd::Commit(UpdateResult { inserted: 3, url_strikes: 7 })
    );
    assert_eq!(
        update_ended(3, 7, Some(Err("full".to_string()))),
        UpdateEnd::Rollback("full".to_string())
    );
}

#[test]
fn an_update_inserts_only_the_missing_strikes() {
    let known = strike_at(now() - 30 * MINUTE, 10.5, 20.5, Some(7));
    let twin = strike_at(now() - 30 * MINUTE, 10.5, 20.5, Some(8));
    let late = strike_at(now() - MINUTE, 1.5, 2.5, None);
    let last = strike_at(now() - MINUTE - 1, 3.5, 4.5, None);
    let existing = vec![key_of(&known)];
    let strikes = vec![known, twin, late, last];
    let keys: Vec<HashableStrikeKey> = strikes.iter().map(key_of).collect();
    let statement = update_statement(&strikes, &keys, &existing, 1, now()).unwrap();
    assert_eq!(statement.params.len(), 18);
    assert_eq!(statement.params[0], Param::Timestamp(now() - 30 * MINUTE));
    assert_eq!(statement.params[7], Param::Int(8));
    assert_eq!(statement.params[9], Param::Timestamp(now() - MINUTE - 1));
    assert_eq!(statement.params[11], Param::Float(num(3.5)));
    assert!(update_statement(&strikes, &keys, &keys, 1, now()).is_none());
}

#[test]
fn last_strikes_url_uses_nanosecond_epoch() {
    let ns = utc(2025, 1, 1, 12, 0, 0) * 1000;
    assert_eq!(
        last_strikes_url(ns),
        format!("https://data.blitzortung.org/Data/Protected/last_strikes.php?time={ns}")
    );
}

#[test]
fn update_params_use_region_fallback() {
    let mut mock = empty_keys_executor();
    let strikes = vec![strike_at(now() - 30 * MINUTE, 10.5, 20.5, None)];
    update(&mut mock, &strikes, now()).unwrap();
    let (_, params) = &mock.executions()[0];
    assert_eq!(params[5], Param::Int(1));
}

#[test]
fn update_options_come_from_the_arguments() {
    let args = UpdateArgs { hours: 3, verbose: true, debug: false, no_lock: true };
    let options = UpdateOptions::from_args(&args);
    assert_eq!(options.hours, 3);
    assert!(options.verbose && options.no_lock && !options.debug);
}

// ---------------------------------------------------------------------
// recent log files
// ---------------------------------------------------------------------

#[test]
fn test_parse() {
    let line = "2024-02-23 19:20:09.760253765 pos;37.931022;-69.886960;123 str;340 dev;6799 sta;14;32;2445,946,2297,2622,1933,1822";
    let result = parse_line(2, line).unwrap();
    assert_eq!(result.timestamp, utc(2024, 2, 23, 19, 20, 9) + 760_253);
    assert_eq!(result.nanosecond, 765);
    assert_eq!(result.latitude.parse::<f64>().unwrap(), 37.931022);
    assert_eq!(result.longitude.parse::<f64>().unwrap(), -69.886960);
    assert_eq!(result.altitude.parse::<f64>().unwrap(), 123.0);
    assert_eq!(result.amplitude.parse::<f64>().unwrap(), 340.0);
    assert_eq!(result.lateral_error, 6799);
    assert_eq!(result.station_count, 14);
    assert_eq!(result.region, Some(2));
}

#[test]
fn other_lines_are_refused() {
    assert!(parse_line(2, "").is_none());
    assert!(parse_line(2, "2024-02-23 25:20:09 pos;1;2;3 str;4 dev;5 sta;6").is_none());
    assert!(parse_line(2, "2024-02-23 19:20:09 pos;1;2;3 str;4 dev;5 sta;x").is_none());
    assert!(parse_line(2, "2024-02-23 19:20:09 pos;1;2 str;4 dev;5 sta;6").is_none());
    assert!(parse_line(2, "2024-02-23 19:20:09 pos;1;2;3 str;4 dev;5 sta;6").is_some());
}

#[test]
fn recent_blocks_cover_the_last_minutes() {
    let blocks = recent_blocks(utc(2025, 1, 1, 12, 3, 0));
    assert_eq!(
        blocks,
        vec![utc(2025, 1, 1, 11, 40, 0), utc(2025, 1, 1, 11, 50, 0), utc(2025, 1, 1, 12, 0, 0)]
    );
    assert_eq!(
        block_url(1, blocks[0]),
        "https://data.blitzortung.org/Data/Protected/Strikes_1/2025/01/01/11/40.log"
    );
}

#[test]
fn an_import_stops_between_logs_when_its_time_is_over() {
    let mut import = RegionImport::new(1, None, None, false, now());
    assert!(matches!(import.next(false), ImportAction::Fetch(_)));
    let line = strike_line(now() - HOUR);
    let numbers = numbers_of(&line);
    let broken = "broken".to_string();
    let faults = numbers_of(&broken);
    import.read(vec![broken, line], vec![faults, numbers]);
    assert!(matches!(
        import.next(true),
        ImportAction::Warn { message, line } if message == "missing position" && line == "broken"
    ));
    assert!(matches!(import.next(true), ImportAction::Continue));
    match import.next(true) {
        ImportAction::Insert { statement, count } => {
            assert_eq!(count, 1);
            assert_eq!(statement.params.len(), 9);
            import.inserted(count);
        }
        other => panic!("no insertion: {other:?}"),
    }
    assert!(matches!(import.next(true), ImportAction::Commit));
    assert!(matches!(import.next(true), ImportAction::Done(1)));
}

/// Import one region after all of its logs are read.
fn collect_region(
    mock: &mut MockExecutor,
    files: &mut Vec<Served>,
    region: u32,
    is_update: bool,
    now: i64,
) -> Result<usize, String> {
    let db = StrikeDb::new(4326);
    let statement = db.latest_time_statement(Some(region as i64));
    let rows = mock.query(&statement.sql, &statement.params)?;
    let latest = db.get_latest_time(&rows).map_err(|e| e.message())?;
    let mut import = CollectedImport::new(region, latest, None, is_update, now);
    loop {
        match import.next(false) {
            ImportAction::Commit => mock.commit(),
            ImportAction::Continue | ImportAction::Warn { .. } => {}
            ImportAction::Insert { statement, count: _ } => {
                mock.execute(&statement.sql, &statement.params)?;
            }
            ImportAction::Fetch(_) => {
                let fetched = match files.pop() {
                    Some(Served::Lines(lines)) => Ok(lines),
                    Some(Served::Missing) => Err(TransportError::NotFound),
                    Some(Served::Failure) => Err(TransportError::Io("connection refused".to_string())),
                    None => Ok(vec![]),
                };
                let lines = lines_to_read(fetched).map_err(|e| e.message().to_string())?;
                let numbers = lines.iter().map(|line| numbers_of(line)).collect();
                import.read(lines, numbers);
            }
            ImportAction::Done(count) => return Ok(count),
        }
    }
}

#[test]
fn imports_insert_by_thousands_and_commit_by_ten_thousands() {
    let lines: Vec<String> = (0..10_500).map(|i| strike_line(now() - HOUR + i)).collect();
    let mut mock = executor_with_latest(Some((now() - 2 * HOUR, 0)));
    let files = &mut vec![Served::Lines(lines.clone())];
    assert_eq!(import_region(&mut mock, files, 1, false, now()), Ok(10_500));
    assert_eq!(mock.execution_count(), 11);
    assert_eq!(mock.commit_count(), 2);
    assert_eq!(mock.executions()[10].1.len(), 9 * 500);

    let mut mock = executor_with_latest(Some((now() - 2 * HOUR, 0)));
    let files = &mut vec![Served::Lines(lines[..10_000].to_vec())];
    assert_eq!(import_region(&mut mock, files, 1, false, now()), Ok(10_000));
    assert_eq!(mock.execution_count(), 10);
    assert_eq!(mock.commit_count(), 1);

    let mut mock = executor_with_latest(Some((now() - 2 * HOUR, 0)));
    let files = &mut vec![Served::Lines(lines.clone())];
    assert_eq!(collect_region(&mut mock, files, 1, false, now()), Ok(10_500));
    assert_eq!(mock.execution_count(), 11);
    assert_eq!(mock.commit_count(), 2);
    assert_eq!(mock.executions()[1].1[0], Param::Timestamp(now() - HOUR + 1000));

    // The last commit follows a complete group too.
    let mut mock = executor_with_latest(Some((now() - 2 * HOUR, 0)));
    let files = &mut vec![Served::Lines(lines[..10_000].to_vec())];
    assert_eq!(collect_region(&mut mock, files, 1, false, now()), Ok(10_000));
    assert_eq!(mock.execution_count(), 10);
    assert_eq!(mock.commit_count(), 2);
}

#[test]
fn a_collecting_import_stops_between_logs_when_its_time_is_over() {
    let mut import = CollectedImport::new(1, None, None, false, now());
    assert!(matches!(import.next(false), ImportAction::Fetch(_)));
    let line = strike_line(now() - HOUR);
    let numbers = numbers_of(&line);
    let faults = numbers_of("broken");
    import.read(vec!["broken".to_string(), line], vec![faults, numbers]);
    assert!(matches!(
        import.next(true),
        ImportAction::Warn { message, line } if message == "missing position" && line == "broken"
    ));
    assert!(matches!(import.next(true), ImportAction::Continue));
    assert!(matches!(import.next(true), ImportAction::Continue));
    assert_eq!(import.inserted_count(), 0);
    assert!(matches!(import.next(true), ImportAction::Insert { count: 1, .. }));
    assert!(matches!(import.next(true), ImportAction::Commit));
    assert!(matches!(import.next(true), ImportAction::Done(1)));
}

#[test]
fn insert_tool_import_strikes_for_inserts_new_strikes() {
    // Latest DB time is older than the log entry, so the strike is new.
    let mut mock = executor_with_latest(Some((now() - 2 * HOUR, 0)));
    let mut files = vec![Served::Lines(vec![strike_line(now() - 30 * MINUTE)])];
    let count = collect_region(&mut mock, &mut files, 1, false, now()).unwrap();
    assert_eq!(count, 1);
    assert_eq!(mock.execution_count(), 1);
    assert_eq!(mock.commit_count(), 1);
    // The insert was pinned to the region.
    let executions = mock.executions();
    assert_eq!(executions[0].1[5], Param::Int(1));
}

#[test]
fn insert_tool_import_strikes_for_no_strikes_does_not_commit() {
    let mut mock = executor_with_latest(None);
    let count = collect_region(&mut mock, &mut vec![], 1, false, now()).unwrap();
    assert_eq!(count, 0);
    assert_eq!(mock.commit_count(), 0);
}

#[test]
fn insert_tool_import_strikes_retries_on_connection_error() {
    // Two DB latest-time queries: the failed attempt and the retry.
    let mut mock = MockExecutor::new();
    for _ in 0..2 {
        mock.add_rows(
            "ORDER BY \"timestamp\" DESC",
            vec![Row::new(vec![Value::Timestamp(now() - 2 * HOUR), Value::Int(0)])],
        );
    }
    let mut files = vec![Served::Lines(vec![strike_line(now() - 30 * MINUTE)]), Served::Failure];
    let mut run = ImportRun::new(vec![1]);
    while let Some((region, _)) = run.next_attempt() {
        let outcome = collect_region(&mut mock, &mut files, region, false, now());
        run.attempt_ended(outcome.ok());
    }
    assert_eq!(run.error_count, 1);
    assert_eq!(run.total_strikes, 1);
}

#[test]
fn insert_tool_import_strikes_defaults_start_to_update_window() {
    let mut mock = executor_with_latest(None);
    let count = collect_region(&mut mock, &mut vec![], 1, true, now()).unwrap();
    assert_eq!(count, 0);
}
