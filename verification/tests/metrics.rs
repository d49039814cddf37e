use blitzortung_srv::metrics::{
    for_db_pool_wait, for_global_strikes, for_grid_query, for_grid_total, for_histogram, for_histogram_query, for_import,
    for_import_error_count, for_local_strikes, for_strikes, for_update_imported,
    for_websocket_strike, metric_name, MetricLine, RecordingMetrics, DEFAULT_STATSD_PREFIX,
    GLOBAL_STRIKES_GRID, STRIKES_GRID,
};

fn rendered(lines: &[MetricLine]) -> Vec<String> {
    let mut metrics = RecordingMetrics::new();
    metrics.record_all(lines);
    metrics.lines()
}

#[test]
fn recording_metrics_keep_calls() {
    let mut metrics = RecordingMetrics::new();
    metrics.record_all(&for_strikes(15, 2, "0.5"));
    // strikes_grid.total_count + strikes_grid.total_count.<region>
    assert_eq!(
        metrics.lines(),
        vec![
            "strikes_grid.total_count:1|c".to_string(),
            "strikes_grid.total_count.2:1|c".to_string(),
            "strikes_grid.cache_hits:0.5|g".to_string(),
        ]
    );
    metrics.record("x:1|c".to_string());
    assert_eq!(metrics.lines().len(), 4);
}

#[test]
fn for_strikes_reports_bg_count_for_ten_minutes() {
    assert_eq!(
        rendered(&for_strikes(10, 1, "0.75")),
        vec![
            "strikes_grid.total_count:1|c".to_string(),
            "strikes_grid.total_count.1:1|c".to_string(),
            "strikes_grid.cache_hits:0.75|g".to_string(),
            "strikes_grid.bg_count:1|c".to_string(),
            "strikes_grid.bg_count.1:1|c".to_string(),
        ]
    );
}

#[test]
fn for_global_strikes_matches_python() {
    assert_eq!(
        rendered(&for_global_strikes(60, "0.85")),
        vec![
            "strikes_grid.total_count:1|c".to_string(),
            "global_strikes_grid.total_count:1|c".to_string(),
            "global_strikes_grid.cache_hits:0.85|g".to_string(),
        ]
    );
}

#[test]
fn for_local_strikes_reports_data_area() {
    assert_eq!(
        rendered(&for_local_strikes(10, 5, "0.75")),
        vec![
            "strikes_grid.total_count:1|c".to_string(),
            "local_strikes_grid.total_count:1|c".to_string(),
            "local_strikes_grid.data_area.5:1|c".to_string(),
            "local_strikes_grid.cache_hits:0.75|g".to_string(),
            "strikes_grid.bg_count:1|c".to_string(),
            "local_strikes_grid.bg_count:1|c".to_string(),
        ]
    );
}

#[test]
fn for_histogram_reports_ratio_and_size() {
    assert_eq!(
        rendered(&for_histogram("0.75", 4)),
        vec!["histogram.cache_hits:0.75|g".to_string(), "histogram.size:4|g".to_string()]
    );
}

#[test]
fn for_db_pool_wait_reports_milliseconds_and_never_zero() {
    assert_eq!(
        rendered(&[for_db_pool_wait(12_300), for_db_pool_wait(0)]),
        vec!["db.pool_wait:12|ms".to_string(), "db.pool_wait:1|ms".to_string()]
    );
}

#[test]
fn for_grid_total_reports_milliseconds_and_never_zero() {
    assert_eq!(
        rendered(&[for_grid_total(STRIKES_GRID, 17_500), for_grid_total(GLOBAL_STRIKES_GRID, 0)]),
        vec![
            "strikes_grid.total:17|ms".to_string(),
            "global_strikes_grid.total:1|ms".to_string(),
        ]
    );
}

#[test]
fn statsd_metrics_sends_udp_datagrams() {
    let sent: Vec<String> =
        for_strikes(10, 1, "0.75").iter().map(|l| l.datagram(DEFAULT_STATSD_PREFIX)).collect();
    assert_eq!(
        sent,
        vec![
            "org.blitzortung.service.strikes_grid.total_count:1|c".to_string(),
            "org.blitzortung.service.strikes_grid.total_count.1:1|c".to_string(),
            "org.blitzortung.service.strikes_grid.cache_hits:0.75|g".to_string(),
            "org.blitzortung.service.strikes_grid.bg_count:1|c".to_string(),
            "org.blitzortung.service.strikes_grid.bg_count.1:1|c".to_string(),
        ]
    );
}

#[test]
fn statsd_metrics_honours_custom_prefix() {
    assert_eq!(for_db_pool_wait(2_000).datagram("custom"), "custom.db.pool_wait:2|ms");
}

#[test]
fn imports_are_reported_per_region() {
    assert_eq!(
        rendered(&for_import(3, 12, 1_500, 2_999)),
        vec![
            "strikes.3:12|c".to_string(),
            "strikes.3.count:12|g".to_string(),
            "strikes.3.get:1|ms".to_string(),
            "strikes.3.insert:2|ms".to_string(),
        ]
    );
    assert_eq!(for_import_error_count(2).render(), "strikes.error_count:2|g");
    assert_eq!(for_update_imported(5).render(), "strikes.imported:5|g");
    assert_eq!(
        rendered(&for_websocket_strike("0.25")),
        vec!["strikes:1|c".to_string(), "strikes.delay:0.25|g".to_string()]
    );
    assert_eq!(metric_name(&["a", "b"]), "a.b");
}

#[test]
fn queries_are_counted() {
    assert_eq!(
        rendered(&[for_grid_query(), for_histogram_query()]),
        vec!["strikes_grid_query.count:1|c".to_string(), "histogram.query.count:1|c".to_string()]
    );
}
