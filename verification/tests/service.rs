use blitzortung_srv::cache::{HitRatio, ServiceCache};
use blitzortung_srv::executor::{Row, Value};
use blitzortung_srv::geom::{region, Grid, LocalGrid};
use blitzortung_srv::ieee::Real;
use blitzortung_srv::json::{to_int, Json};
use blitzortung_srv::metrics::RecordingMetrics;
use blitzortung_srv::mock::MockExecutor;
use blitzortung_srv::request::{parse_agent_version, parse_named_version, Request};
use blitzortung_srv::service::{
    build_grid_response, build_grid_rows, build_histogram, complete, create_time_interval_at,
    histogram_cache_key, histogram_from, produce_response, round_max_5, served_result, GridFigures, GridKind, GridRequest, GridRow,
    GridTexts,
    Production, Service, ServiceError, TimeConstraint, DEFAULT_MINUTE_LENGTH, JSON_CONTENT_TYPE,
    MAX_MINUTES_PER_DAY, MIN_GRID_BASE_LENGTH,
};

const SECOND: i64 = 1_000_000;
const NOW: i64 = 1_700_000_000 * SECOND;

fn num(value: f64) -> Real {
    Real::from_bits(value.to_bits())
}

fn number(value: &Json) -> f64 {
    match value {
        Json::Float(r) => f64::from_bits(r.bits),
        Json::Int(i) => *i as f64,
        _ => panic!("no number"),
    }
}

fn integer(value: &Json) -> i64 {
    match value {
        Json::Int(i) => *i,
        _ => panic!("no integer"),
    }
}

fn items(value: &Json) -> &Vec<Json> {
    match value {
        Json::Array(items) => items,
        _ => panic!("no array"),
    }
}

/// The numbers of a grid as a histogram key writes them.
fn texts_of(grid: &Grid) -> GridTexts {
    let text = |value: Real| format!("{:?}", f64::from_bits(value.bits));
    GridTexts {
        x_min: text(grid.x_min),
        x_max: text(grid.x_max),
        y_min: text(grid.y_min),
        y_max: text(grid.y_max),
        x_div: text(grid.x_div),
        y_div: text(grid.y_div),
    }
}

fn bins(low: f64, high: f64, div: f64) -> i64 {
    ((high - low) / div).ceil() as i64
}

fn request_of(client: &str) -> Request {
    Request {
        user_agent: Some("bo-android-190".to_string()),
        client_ip: Some(client.to_string()),
        content_type: Some(JSON_CONTENT_TYPE.to_string()),
        ..Default::default()
    }
}

fn round_to(value: f64, digits: i32) -> f64 {
    let factor = 10f64.powi(digits);
    (value * factor).round() / factor
}

fn ratio(hits: HitRatio) -> String {
    let value = if hits.total == 0 { 0.0 } else { hits.hits as f64 / hits.total as f64 };
    format!("{value}")
}

/// Serve a grid request against a scripted database.
fn serve(
    service: &mut Service<Json>,
    mock: &mut MockExecutor,
    metrics: &mut RecordingMetrics,
    request: &mut Request,
    wanted: Option<GridRequest>,
    grid: &Grid,
    now: i64,
) -> Json {
    let Some(wanted) = wanted else {
        return Json::empty_object();
    };
    let number_of = |r: Real| f64::from_bits(r.bits);
    let found = service.cached_response(&wanted, now);
    let response = match found {
        Some(response) => Some(response),
        None => {
            let interval = create_time_interval_at(wanted.minute_length, wanted.minute_offset, now);
            let xc = bins(number_of(grid.x_min), number_of(grid.x_max), number_of(grid.x_div));
            let yc = bins(number_of(grid.y_min), number_of(grid.y_max), number_of(grid.y_div));
            let figures = GridFigures {
                xd: num(round_to(number_of(grid.x_div), 6)),
                yd: num(round_to(number_of(grid.y_div), 6)),
                x0: num(round_to(number_of(grid.x_min), 4)),
                y1: num(round_to(number_of(grid.y_max) + number_of(grid.y_div), 4)),
                xc,
                yc,
            };
            let query = wanted.cells_query(grid, &interval);
            let cells = mock.query(&query.to_postgres(), &query.parameters());
            let counted = cells.is_ok() && wanted.has_histogram();
            let step = service.after_cells(&wanted, cells, grid, &texts_of(grid), &figures, &interval, now);
            let produced = match step {
                Production::Produced(produced) => produced,
                Production::RunHistogram { key, query, rows } => {
                    let counts = mock.query(&query.to_postgres(), &query.parameters());
                    service.after_histogram(&wanted, &key, rows, counts, &figures, &interval, now)
                }
            };
            if counted {
                let hits = ratio(service.histogram_hit_ratio());
                metrics.record_all(&service.histogram_metrics(&hits));
            }
            service.settle(&wanted, produced, now)
        }
    };
    let hits = ratio(service.hit_ratio(&wanted));
    metrics.record_all(&complete(request, &wanted, &hits));
    served_result(response)
}

fn strike_row() -> Row {
    Row::new(vec![
        Value::Int(0),
        Value::Int(1),
        Value::Int(4),
        Value::Timestamp(1_699_999_500 * SECOND),
    ])
}

fn region_grid() -> Grid {
    Grid::new(
        num(-25.0),
        num(56.8605750930044),
        num(27.0),
        num(71.94746107673467),
        num(0.14017221762500753),
        num(0.08865376938211966),
    )
}

#[test]
fn check_counts_monotonically() {
    let mut service: Service<Json> = Service::new();
    for count in 1..4 {
        assert_eq!(service.check(), Json::empty_object().with("count", Json::Int(count)));
    }
}

#[test]
fn get_strikes_is_blocked() {
    let service: Service<Json> = Service::new();
    assert_eq!(service.get_strikes(&request_of("1.2.3.4"), &Json::Int(60), &Json::Int(0)), None);
    // invalid arguments also produce None
    assert_eq!(service.get_strikes(&request_of("1.2.3.4"), &Json::text("x"), &Json::Int(0)), None);
}

#[test]
fn service_user_agent_version_parsing() {
    let mut base = Request {
        user_agent: None,
        client_ip: Some("1.2.3.4".to_string()),
        content_type: Some(JSON_CONTENT_TYPE.to_string()),
        ..Default::default()
    };
    assert_eq!(base.user_agent_version(), 0);
    for (ua, version) in [
        ("bo-android-190", 190),
        ("bo-android-1", 1),
        ("bo-android-178", 178),
        ("bo-android-0", 0),
        ("bo-android--5", 0),
        ("bo-android-abc", 0),
        ("bo-android", 0),
        ("bo-android-", 0),
        ("bo_android_150", 0),
        ("BO-ANDROID-150", 0),
        ("python-requests/2.32", 0),
        ("Mozilla/5.0 (Linux; Android 13)", 0),
    ] {
        base.user_agent = Some(ua.to_string());
        assert_eq!(base.user_agent_version(), version, "user agent {ua:?}");
        assert_eq!(parse_agent_version(ua), version);
    }
    assert_eq!(parse_named_version("bo-android-190"), Some(190));
    assert_eq!(parse_named_version("Mozilla/5.0"), None);
}

#[test]
fn request_client_uses_forwarded_for_first() {
    let req = Request {
        x_forwarded_for: Some(" 203.0.113.7, 10.0.0.1 ".to_string()),
        client_ip: Some("10.0.0.9".to_string()),
        ..Default::default()
    };
    assert_eq!(req.request_client(), Some("203.0.113.7".to_string()));
    let req = Request {
        x_forwarded_for: Some(String::new()),
        client_ip: Some("10.0.0.9".to_string()),
        ..Default::default()
    };
    assert_eq!(req.request_client(), Some("10.0.0.9".to_string()));
}

#[test]
fn fix_bad_accept_header_only_for_old_clients() {
    let mut req = Request {
        user_agent: Some("bo-android-177".to_string()),
        ..Default::default()
    };
    assert!(req.fix_bad_accept_header());
    assert!(req.accept_encoding_removed);

    let mut req = Request {
        user_agent: Some("bo-android-178".to_string()),
        ..Default::default()
    };
    assert!(!req.fix_bad_accept_header());

    let mut req = Request {
        user_agent: Some("bo-android-abc".to_string()),
        ..Default::default()
    };
    assert!(!req.fix_bad_accept_header());
}

#[test]
fn accepts_gzip_matches_accept_encoding_and_client_version() {
    let gzip = Request {
        accept_encoding: Some("gzip".to_string()),
        ..Default::default()
    };
    assert!(gzip.accepts_gzip());

    let gzip_mixed = Request {
        accept_encoding: Some("deflate, GZIP".to_string()),
        ..Default::default()
    };
    assert!(gzip_mixed.accepts_gzip());

    // Quality parameters are not read.
    let gzip_with_qvalue = Request {
        accept_encoding: Some("gzip;q=0.5".to_string()),
        ..Default::default()
    };
    assert!(!gzip_with_qvalue.accepts_gzip());

    let identity = Request {
        accept_encoding: Some("identity".to_string()),
        ..Default::default()
    };
    assert!(!identity.accepts_gzip());

    let missing = Request::default();
    assert!(!missing.accepts_gzip());

    // The header of an old client counts as removed.
    let mut old_client = Request {
        user_agent: Some("bo-android-177".to_string()),
        accept_encoding: Some("gzip".to_string()),
        ..Default::default()
    };
    assert!(old_client.fix_bad_accept_header());
    assert!(!old_client.accepts_gzip());

    // A new client keeps it.
    let new_client = Request {
        user_agent: Some("bo-android-178".to_string()),
        accept_encoding: Some("gzip".to_string()),
        ..Default::default()
    };
    assert!(new_client.accepts_gzip());
}

#[test]
fn forbidden_rules_are_checked() {
    let service: Service<Json> = Service::with_parts(ServiceCache::new(), vec!["1.2.3.4".to_string()]);
    let reason = |request: &Request, client: &str, version: i64, length: i64| {
        service.forbidden_reason(request, Some(client), version, length, MIN_GRID_BASE_LENGTH)
    };
    let blocked_ip = request_of("1.2.3.4");
    assert!(reason(&blocked_ip, "1.2.3.4", 190, 10_000).is_some());

    let bad_ua = Request {
        user_agent: Some("Mozilla/5.0".to_string()),
        ..request_of("5.6.7.8")
    };
    assert!(reason(&bad_ua, "5.6.7.8", 0, 10_000).is_some());

    let bad_content_type = Request {
        content_type: Some("application/json".to_string()),
        ..request_of("5.6.7.8")
    };
    assert!(reason(&bad_content_type, "5.6.7.8", 190, 10_000).is_some());

    let referer = Request {
        referer: Some("http://example.com".to_string()),
        ..request_of("5.6.7.8")
    };
    assert!(reason(&referer, "5.6.7.8", 190, 10_000).is_some());

    let low_baseline = request_of("5.6.7.8");
    assert!(reason(&low_baseline, "5.6.7.8", 190, 1000).is_some());
    // unsupported size in the valid set
    assert!(reason(&low_baseline, "5.6.7.8", 190, 20_000).is_some());
    // a valid request is not forbidden
    let valid = request_of("5.6.7.8");
    assert!(reason(&valid, "5.6.7.8", 190, 10_000).is_none());
}

#[test]
fn to_int_coercion_matches_python() {
    assert_eq!(to_int(&Json::Int(190)), Some(190));
    assert_eq!(to_int(&Json::Float(num(1.7))), Some(1));
    assert_eq!(to_int(&Json::Float(num(-1.7))), Some(-1));
    assert_eq!(to_int(&Json::text("12")), Some(12));
    assert_eq!(to_int(&Json::text(" 12 ")), Some(12));
    assert_eq!(to_int(&Json::text("12.5")), None);
    assert_eq!(to_int(&Json::Bool(true)), Some(1));
    assert_eq!(to_int(&Json::Bool(false)), Some(0));
    assert_eq!(to_int(&Json::Null), None);
    assert_eq!(to_int(&Json::array(vec![Json::Int(1)])), None);
}

#[test]
fn minute_constraints_enforce() {
    let constraints = TimeConstraint::new(DEFAULT_MINUTE_LENGTH, MAX_MINUTES_PER_DAY);
    // 0 -> default, negative offsets clamped to -1440+ml
    assert_eq!(constraints.enforce(0, 0), (60, 0));
    assert_eq!(constraints.enforce(30, -10000), (30, -1410));
    assert_eq!(constraints.enforce(2000, 500), (1440, 0));
    assert_eq!(constraints.enforce(60, -5), (60, -5));
}

fn cell(x: i64, y: i64, count: i64, age: i64) -> GridRow {
    GridRow { x, y, count, age }
}

#[test]
fn grid_rows_are_shaped_per_dialect() {
    let xc = bins(-25.0, 27.0, 0.14);
    let yc = bins(50.0, 72.0, 0.08);
    let end = 1_700_000_000 * SECOND;
    let rows = vec![
        strike_row(),
        // out-of-range for a region grid: rx negative
        Row::new(vec![
            Value::Int(-1),
            Value::Int(1),
            Value::Int(9),
            Value::Timestamp(1_699_999_500 * SECOND),
        ]),
    ];
    let region_rows = build_grid_rows(&rows, xc, yc, end, false);
    // filter keeps only the in-range cell; y flipped to y_bin_count - ry
    assert_eq!(region_rows, vec![cell(0, 274, 4, -500)]);
    let global_rows = build_grid_rows(&rows, xc, yc, end, true);
    assert_eq!(global_rows, vec![cell(0, -2, 4, -500), cell(-1, -2, 9, -500)]);
}

#[test]
fn histogram_bins_counts() {
    let rows = vec![
        Row::new(vec![Value::Int(-2), Value::Int(1)]),
        Row::new(vec![Value::Int(0), Value::Int(7)]),
    ];
    // value_count = 15 / 5 = 3; interval -2 -> index 0, interval 0 -> index 2
    let h = build_histogram(&rows, 15, 5).unwrap();
    assert_eq!(h, vec![1, 0, 7]);
}

#[test]
fn histogram_out_of_range_is_an_error() {
    let rows = vec![Row::new(vec![Value::Int(5), Value::Int(1)])];
    assert!(matches!(build_histogram(&rows, 15, 5), Err(ServiceError::HistogramIndex(5))));
}

#[test]
fn strikes_grid_response_is_built_with_all_keys() {
    let (xd, yd) = (0.14017221762500753, 0.08865376938211966);
    let (xc, yc) = (bins(-25.0, 27.0, xd), bins(50.0, 72.0, yd));
    let interval = create_time_interval_at(30, 0, NOW);
    let figures = GridFigures {
        xd: num(round_to(xd, 6)),
        yd: num(round_to(yd, 6)),
        x0: num(-25.0),
        y1: num(round_to(72.0 + yd, 4)),
        xc,
        yc,
    };
    let response = build_grid_response(
        &[cell(0, 1, 4, -500)],
        &[0, 0, 0, 0, 0, 1],
        &figures,
        &interval,
    );
    let fields = match &response {
        Json::Object(fields) => fields,
        _ => panic!("no object"),
    };
    let keys: Vec<&str> = fields.iter().map(|f| f.0.as_str()).collect();
    assert_eq!(keys, vec!["r", "xd", "yd", "x0", "y1", "xc", "yc", "t", "dt", "h"]);
    let get = |name: &str| response.get(name).unwrap();
    assert_eq!(number(get("xd")), 0.140172);
    assert_eq!(number(get("yd")), 0.088654);
    assert_eq!(number(get("x0")), -25.0);
    assert_eq!(number(get("y1")), 72.0887);
    assert_eq!(integer(get("xc")), 371);
    assert_eq!(integer(get("yc")), 249);
    assert_eq!(get("t").as_str().unwrap(), "20231114T22:13:20");
    assert_eq!(integer(get("dt")), 1800);
    assert_eq!(items(get("r")).len(), 1);
    assert_eq!(items(get("h")).len(), 6);
}

#[test]
fn jsonrpc_get_strikes_grid_serves_cached_and_reports_ratio() {
    let mut mock = MockExecutor::new();
    // region 1 grid row within range
    mock.add_rows("TRUNC((ST_X", vec![strike_row()]);
    mock.add_rows("-extract( epoch", vec![]);
    let mut metrics = RecordingMetrics::new();
    let mut service: Service<Json> = Service::with_parts(ServiceCache::new(), vec![]);
    let mut req = request_of("5.6.7.8");
    for _ in 0..2 {
        let wanted = service.jsonrpc_get_strikes_grid(
            &mut req,
            &Json::Int(30),
            &Json::Int(10_000),
            &Json::Int(0),
            &Json::Int(1),
            &Json::Int(0),
        );
        serve(&mut service, &mut mock, &mut metrics, &mut req, wanted, &region_grid(), NOW);
    }
    // second call hits the cache: second query count is 1, ratio 0.5
    assert_eq!(service.cache().strikes(0).get_size(), 1);
    let hits = service.cache().strikes(0).get_ratio();
    assert_eq!((hits.hits, hits.total), (1, 2));
    // metrics recorded after each call: the histogram of the (30-minute)
    // grid query, then the three strikes-grid lines.
    assert_eq!(
        metrics.lines(),
        vec![
            "histogram.cache_hits:0|g".to_string(),
            "histogram.size:1|g".to_string(),
            "strikes_grid.total_count:1|c".to_string(),
            "strikes_grid.total_count.1:1|c".to_string(),
            "strikes_grid.cache_hits:0|g".to_string(),
            "strikes_grid.total_count:1|c".to_string(),
            "strikes_grid.total_count.1:1|c".to_string(),
            "strikes_grid.cache_hits:0.5|g".to_string(),
        ]
    );
    assert_eq!(mock.call_count(), 2);
}

#[test]
fn jsonrpc_get_strikes_grid_blocks_by_default() {
    let service: Service<Json> = Service::new();
    let mut req = Request::default();
    let wanted = service.jsonrpc_get_strikes_grid(
        &mut req,
        &Json::Int(60),
        &Json::Int(10_000),
        &Json::Int(0),
        &Json::Int(1),
        &Json::Int(0),
    );
    assert_eq!(wanted, None);
    assert!(req.blocked_reason.is_some());
}

#[test]
fn jsonrpc_get_global_strikes_grid_blocks_below_25000() {
    let service: Service<Json> = Service::new();
    let mut req = request_of("5.6.7.8");
    // gbl 10000 < 25000 is forbidden for the global endpoint
    let wanted = service.jsonrpc_get_global_strikes_grid(
        &mut req,
        &Json::Int(60),
        &Json::Int(10_000),
        &Json::Int(0),
        &Json::Int(0),
    );
    assert_eq!(wanted, None);
}

#[test]
fn jsonrpc_get_global_strikes_grid_serves_response() {
    let mut mock = MockExecutor::new();
    mock.add_rows("ROUND((ST_X", vec![strike_row()]);
    mock.add_rows("-extract( epoch", vec![]);
    let mut service: Service<Json> = Service::new();
    let mut req = request_of("5.6.7.8");
    let wanted = service.jsonrpc_get_global_strikes_grid(
        &mut req,
        &Json::Int(30),
        &Json::Int(25_000),
        &Json::Int(0),
        &Json::Int(0),
    );
    let grid = Grid::new(
        num(-180.0),
        num(179.79137864480873),
        num(-90.0),
        num(89.79069969676917),
        num(0.3183994501281493),
        num(0.2356365657886883),
    );
    let mut metrics = RecordingMetrics::new();
    let response = serve(&mut service, &mut mock, &mut metrics, &mut req, wanted, &grid, NOW);
    for key in ["r", "xd", "yd", "x0", "y1", "xc", "yc", "t", "dt", "h"] {
        assert!(response.get(key).is_some(), "missing key {key}");
    }
    // global rows are not filtered and use the -ry-1 y translation
    let rows = items(response.get("r").unwrap());
    assert_eq!(rows.len(), 1);
    assert_eq!(items(&rows[0])[0], Json::Int(0));
    assert_eq!(items(&rows[0])[1], Json::Int(-2));
    assert_eq!(items(&rows[0])[2], Json::Int(4));
}

#[test]
fn jsonrpc_get_local_strikes_grid_serves_response() {
    let mut mock = MockExecutor::new();
    mock.add_rows("TRUNC((ST_X", vec![strike_row()]);
    mock.add_rows("-extract( epoch", vec![]);
    let mut service: Service<Json> = Service::new();
    let mut req = request_of("5.6.7.8");
    let wanted = service.jsonrpc_get_local_strikes_grid(
        &mut req,
        &Json::Int(5),
        &Json::Int(5),
        &Json::Int(10_000),
        &Json::Int(30),
        &Json::Int(0),
        &Json::Int(0),
        &Json::Int(5),
    );
    let mut metrics = RecordingMetrics::new();
    let response = serve(&mut service, &mut mock, &mut metrics, &mut req, wanted, &region_grid(), NOW);
    for key in ["r", "xd", "yd", "x0", "y1", "xc", "yc", "t", "dt", "h"] {
        assert!(response.get(key).is_some(), "missing key {key}");
    }
    // region-filtered local rows keep the strike count
    let rows = items(response.get("r").unwrap());
    assert_eq!(rows.len(), 1);
    assert_eq!(items(&rows[0])[2], Json::Int(4));
}

#[test]
fn jsonrpc_get_strikes_grid_invalid_params_yields_empty_object() {
    let service: Service<Json> = Service::new();
    let mut req = request_of("5.6.7.8");
    let wanted = service.jsonrpc_get_strikes_grid(
        &mut req,
        &Json::text("x"),
        &Json::Int(10_000),
        &Json::Int(0),
        &Json::Int(1),
        &Json::Int(0),
    );
    assert_eq!(wanted, None);
}

#[test]
fn the_raster_is_the_grid_of_a_region_without_threshold() {
    let service: Service<Json> = Service::new();
    let mut req = request_of("5.6.7.8");
    let wanted = service
        .jsonrpc_get_strikes_raster(
            &mut req,
            &Json::Int(0),
            &Json::Int(10_000),
            &Json::Int(-5),
            &Json::Int(3),
        )
        .unwrap();
    assert_eq!(
        wanted,
        GridRequest {
            kind: GridKind::Region { region: 3 },
            minute_length: 60,
            minute_offset: -5,
            grid_base_length: 10_000,
            count_threshold: 0,
        }
    );
}

#[test]
fn served_parameters_are_forced_into_range() {
    let service: Service<Json> = Service::new();
    let mut req = request_of("5.6.7.8");
    let wanted = service
        .jsonrpc_get_strikes_grid(
            &mut req,
            &Json::Int(5000),
            &Json::Int(5000),
            &Json::Int(-9999),
            &Json::Int(99),
            &Json::Int(-3),
        )
        .unwrap();
    assert_eq!(wanted.minute_length, 1440);
    assert_eq!(wanted.minute_offset, 0);
    assert!(matches!(wanted.kind, GridKind::Region { region } if (1..=7).contains(&region)));
    assert_eq!(wanted.count_threshold, 0);
}

#[test]
fn different_requests_have_different_cache_keys() {
    let base = GridRequest {
        kind: GridKind::Region { region: 1 },
        minute_length: 30,
        minute_offset: 0,
        grid_base_length: 10_000,
        count_threshold: 0,
    };
    let other = GridRequest { minute_length: 31, ..base };
    let global = GridRequest { kind: GridKind::Global, ..base };
    let local = GridRequest { kind: GridKind::Local { x: 5, y: 5, data_area: 5 }, ..base };
    let keys = vec![base.cache_key(), other.cache_key(), global.cache_key(), local.cache_key()];
    for (i, a) in keys.iter().enumerate() {
        for b in &keys[i + 1..] {
            assert_ne!(a, b);
        }
    }
}

#[test]
fn failures_are_not_cached() {
    let mut mock = MockExecutor::new();
    mock.add_error("TRUNC((ST_X", "no connection");
    let mut service: Service<Json> = Service::new();
    let mut req = request_of("5.6.7.8");
    let wanted = service.jsonrpc_get_strikes_grid(
        &mut req,
        &Json::Int(5),
        &Json::Int(10_000),
        &Json::Int(0),
        &Json::Int(1),
        &Json::Int(0),
    );
    let mut metrics = RecordingMetrics::new();
    let response = serve(&mut service, &mut mock, &mut metrics, &mut req, wanted, &region_grid(), NOW);
    assert_eq!(response, Json::Null);
    assert_eq!(service.cache().strikes(0).get_size(), 0);
}

#[test]
fn a_histogram_row_needs_both_columns() {
    let rows = vec![Row::new(vec![Value::Int(0)])];
    let error = build_histogram(&rows, 15, 5).unwrap_err();
    assert!(matches!(error, ServiceError::MissingColumn(_)));
    assert!(!error.message().is_empty());
    assert_eq!(ServiceError::Database("gone".to_string()).message().contains("gone"), true);
    assert!(ServiceError::HistogramIndex(5).message().contains('5'));
    // Below the first bin there is none either.
    let rows = vec![Row::new(vec![Value::Int(-9), Value::Int(1)])];
    assert!(matches!(build_histogram(&rows, 15, 5), Err(ServiceError::HistogramIndex(_))));
}

#[test]
fn intervals_end_in_the_past() {
    let interval = create_time_interval_at(30, -60, NOW);
    assert_eq!(interval.end, NOW - 3_600 * SECOND);
    assert_eq!(interval.start, interval.end - 1_800 * SECOND);
}

#[test]
fn short_spans_have_no_histogram() {
    let request = GridRequest {
        kind: GridKind::Region { region: 1 },
        minute_length: 10,
        minute_offset: 0,
        grid_base_length: 10_000,
        count_threshold: 0,
    };
    let interval = create_time_interval_at(10, 0, NOW);
    let texts = texts_of(&region_grid());
    assert!(request.histogram(&region_grid(), &texts, &interval).is_none());
    let longer = GridRequest { minute_length: 11, ..request };
    let (key, query) = longer.histogram(&region_grid(), &texts, &interval).unwrap();
    assert!(key.ends_with(&histogram_cache_key(11, 0, Some(&texts))));
    assert!(query.to_sql().contains("-extract( epoch"));
}

#[test]
fn data_areas_are_at_least_five() {
    assert_eq!(round_max_5(4), 5);
    assert_eq!(round_max_5(5), 5);
    assert_eq!(round_max_5(14), 14);
}

#[test]
fn regions_have_their_bounds() {
    let europe = region(1).unwrap();
    assert_eq!((europe.min_lon, europe.max_lon), (-25, 57));
    assert!(region(0).is_none());
    assert!(region(8).is_none());
    let tile = LocalGrid { data_area: 5, x: 3, y: -2 };
    assert_eq!(tile.size(), 15);
    assert_eq!(tile.reference_longitude(), 10);
    assert_eq!(tile.reference_latitude(), -15);
}

#[test]
fn row_accessors() {
    let row = Row::new(vec![Value::Int(7), Value::Float(num(1.5)), Value::Text("x".into())]);
    assert_eq!(row.get_i64(0), Some(7));
    assert_eq!(row.get_f64(1), Some(blitzortung_srv::ieee::Num::Real(num(1.5))));
    assert_eq!(row.get_i64(2), None);
    assert_eq!(row.get(3), None);
}

#[test]
fn returns_rows_and_records_calls() {
    let mut mock = MockExecutor::new();
    mock.add_rows("SELECT", vec![Row::new(vec![Value::Int(1)])]);
    let rows = mock.query("SELECT 1", &[]).unwrap();
    assert_eq!(rows[0].get_i64(0), Some(1));
    assert_eq!(mock.call_count(), 1);
    assert_eq!(mock.calls()[0].0, "SELECT 1");
}

#[test]
fn returns_error() {
    let mut mock = MockExecutor::new();
    mock.add_error("SELECT", "boom");
    assert!(mock.query("SELECT 1", &[]).is_err());
}

#[test]
fn statements_use_up_only_errors() {
    let mut mock = MockExecutor::new();
    mock.add_rows("INSERT", vec![]);
    assert_eq!(mock.execute("INSERT a", &[]), Ok(1));
    assert!(mock.query("INSERT b", &[]).is_ok());
    mock.add_error("INSERT", "full");
    assert_eq!(mock.execute("INSERT c", &[]), Err("full".to_string()));
    assert_eq!(mock.execute("INSERT d", &[]), Ok(1));
    assert_eq!(mock.execution_count(), 3);
    assert_eq!(mock.executions()[2].0, "INSERT d");
    mock.commit();
    mock.commit();
    mock.rollback();
    assert_eq!((mock.commit_count(), mock.rollback_count()), (2, 1));
}

#[test]
fn histograms_are_shared_between_requests() {
    let mut mock = MockExecutor::new();
    mock.add_rows("TRUNC((ST_X", vec![strike_row()]);
    mock.add_rows("TRUNC((ST_X", vec![strike_row()]);
    mock.add_rows("-extract( epoch", vec![Row::new(vec![Value::Int(0), Value::Int(7)])]);
    let mut metrics = RecordingMetrics::new();
    let mut service: Service<Json> = Service::new();
    for threshold in [0, 1] {
        let mut req = request_of("5.6.7.8");
        let wanted = service.jsonrpc_get_strikes_grid(
            &mut req,
            &Json::Int(30),
            &Json::Int(10_000),
            &Json::Int(0),
            &Json::Int(1),
            &Json::Int(threshold),
        );
        let response =
            serve(&mut service, &mut mock, &mut metrics, &mut req, wanted, &region_grid(), NOW);
        let counts = items(response.get("h").unwrap());
        assert_eq!(counts.len(), 6);
        assert_eq!(counts[5], Json::Int(7));
    }
    // Three queries: the cells of both requests, and one histogram.
    assert_eq!(mock.call_count(), 3);
}

#[test]
fn a_failed_histogram_fails_the_response() {
    let request = GridRequest {
        kind: GridKind::Region { region: 1 },
        minute_length: 30,
        minute_offset: 0,
        grid_base_length: 10_000,
        count_threshold: 0,
    };
    let interval = create_time_interval_at(30, 0, NOW);
    let zero = num(0.0);
    let figures = GridFigures { xd: zero, yd: zero, x0: zero, y1: zero, xc: 1, yc: 1 };
    let counts = histogram_from(Err("gone".to_string()), 30);
    assert!(matches!(counts, Err(ServiceError::Database(_))));
    let response = produce_response(&request, Ok(vec![]), Some(counts), &figures, &interval);
    assert!(matches!(response, Err(ServiceError::Database(m)) if m == "gone"));
    let response = produce_response(&request, Err("down".to_string()), None, &figures, &interval);
    assert!(matches!(response, Err(ServiceError::Database(m)) if m == "down"));
}

#[test]
fn arguments_of_any_size_stay_in_range() {
    let service: Service<Json> = Service::new();
    let huge = Json::Float(num(1e300));
    let mut req = request_of("5.6.7.8");
    let global = service
        .jsonrpc_get_global_strikes_grid(&mut req, &huge, &Json::Int(25_000), &huge, &huge)
        .unwrap();
    assert_eq!((global.minute_length, global.minute_offset), (1440, 0));
    let low = Json::Int(i64::MIN);
    let local = service
        .jsonrpc_get_local_strikes_grid(
            &mut req,
            &Json::Int(1),
            &Json::Int(2),
            &Json::Int(5000),
            &Json::Int(15),
            &low,
            &low,
            &low,
        )
        .unwrap();
    assert_eq!(local.kind, GridKind::Local { x: 1, y: 2, data_area: 5 });
    assert_eq!((local.minute_length, local.minute_offset, local.count_threshold), (15, -1425, 0));
}

#[test]
fn old_clients_lose_gzip_on_every_grid() {
    let base = GridRequest {
        kind: GridKind::Region { region: 1 },
        minute_length: 30,
        minute_offset: 0,
        grid_base_length: 10_000,
        count_threshold: 0,
    };
    let global = GridRequest { kind: GridKind::Global, ..base };
    let local = GridRequest { kind: GridKind::Local { x: 5, y: 5, data_area: 5 }, ..base };
    for grid in [base, global, local] {
        for (version, kept) in [(177, false), (178, true)] {
            let mut request = Request {
                user_agent: Some(format!("bo-android-{version}")),
                accept_encoding: Some("gzip".to_string()),
                ..request_of("10.0.0.1")
            };
            assert!(request.accepts_gzip());
            complete(&mut request, &grid, "0.0");
            assert_eq!(request.accept_encoding_removed, !kept);
            assert_eq!(request.accepts_gzip(), kept);
        }
    }
}

#[test]
fn histogram_keys_write_the_numbers_of_the_grid() {
    let grid = Grid::new(num(-25.0), num(57.5), num(27.0), num(72.0), num(0.1), num(1e-5));
    assert_eq!(
        histogram_cache_key(60, -5, Some(&texts_of(&grid))),
        "minute_length=60|minute_offset=-5|grid=-25.0,57.5,27.0,72.0,0.1,1e-5"
    );
    assert_eq!(histogram_cache_key(60, 0, None), "minute_length=60|minute_offset=0");
}
