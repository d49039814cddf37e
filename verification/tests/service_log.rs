use blitzortung_srv::service::{GridKind, GridRequest};
use blitzortung_srv::service_log::{
    access_metric_key, build_row, client_platform, entry_day, epoch_microseconds, global_entry,
    known_name, local_entry, region_entry, usage_entry, user_agent_version, LocalGridLog, QueueOutcome,
    RowPlan, ServiceLogEntry, ServicelogWriter, UsageLogSender, WriteOutcome,
};

fn entry(region: i64, local: Option<LocalGridLog>) -> ServiceLogEntry {
    ServiceLogEntry {
        // 2023-11-14T22:13:20.500000Z
        now_us: 1_700_000_000_500_000,
        minute_length: 60,
        grid_baselength: 10_000,
        minute_offset: 0,
        region,
        count_threshold: 0,
        client: Some("203.0.113.7".into()),
        user_agent: Some("bo-android-190".into()),
        local,
    }
}

/// Append a row for an entry to a file that takes it, or to none.
fn append(writer: &mut ServicelogWriter, entry: &ServiceLogEntry, file: bool) -> WriteOutcome {
    let result = if file { Ok(()) } else { Err("not a directory".to_string()) };
    match writer.plan(entry) {
        RowPlan::Drop => WriteOutcome::Dropped,
        RowPlan::Append { day } => writer.finish(&day, result),
        RowPlan::Reopen { day, file: name } => {
            assert_eq!(name, format!("servicelog_{day}"));
            if file {
                writer.opened(&day);
            }
            writer.finish(&day, result)
        }
    }
}

#[test]
fn epoch_microseconds_matches_python() {
    assert_eq!(epoch_microseconds(1_700_000_000, 0), 1_700_000_000_000_000);
    assert_eq!(epoch_microseconds(1_700_000_000, 123_456), 1_700_000_000_123_456);
}

#[test]
fn service_log_user_agent_version_parsing() {
    assert_eq!(user_agent_version(Some("bo-android-190")), Some(190));
    assert_eq!(user_agent_version(Some("bo-android-190 more")), Some(190));
    assert_eq!(user_agent_version(Some("bo-android-abc")), None);
    assert_eq!(user_agent_version(Some("bo-android")), None);
    assert_eq!(user_agent_version(Some("Mozilla/5.0")), None);
    assert_eq!(user_agent_version(None), None);
}

#[test]
fn global_row_has_thirteen_fields_with_platform() {
    let row = build_row(&entry(0, None), Some(190), Some("DE"), Some("Berlin"));
    assert_eq!(row, "1700000000500000\t0\t10000\t0\t60\t0\tDE\tBerlin\tA\t190\t-\t-\t-");
    assert_eq!(row.split('\t').count(), 13);
}

#[test]
fn local_row_uses_dash_for_absent_geo_and_none_version() {
    let local = LocalGridLog { x: 101, y: 202, data_area: 5 };
    let row = build_row(&entry(-1, Some(local)), None, None, None);
    // The user agent is an Android one, so the platform stays `A` even though
    // the version is absent.
    assert_eq!(row, "1700000000500000\t-1\t10000\t0\t60\t0\t-\t-\tA\tNone\t101\t202\t5");
}

#[test]
fn non_android_platform_is_dash() {
    let mut e = entry(0, None);
    e.user_agent = Some("Mozilla/5.0".into());
    let row = build_row(&e, None, None, None);
    let cells: Vec<&str> = row.split('\t').collect();
    assert_eq!(cells[8], "-"); // platform
    assert_eq!(cells[9], "None"); // version

    let mut e = entry(0, None);
    e.user_agent = None;
    let row = build_row(&e, None, None, None);
    let cells: Vec<&str> = row.split('\t').collect();
    assert_eq!(cells[8], "-");
    assert_eq!(cells[9], "None");
}

#[test]
fn row_never_contains_the_client_ip() {
    let mut e = entry(0, None);
    e.client = Some("203.0.113.7".into());
    let row = build_row(&e, Some(190), Some("DE"), Some("Berlin"));
    assert!(!row.contains("203.0.113.7"));
}

#[test]
fn region_row_keeps_region_and_preclamp_baselength() {
    let mut e = entry(3, None);
    e.grid_baselength = 2_000; // below the smallest length that is served
    let row = build_row(&e, Some(42), None, None);
    let cells: Vec<&str> = row.split('\t').collect();
    assert_eq!(cells[1], "3");
    assert_eq!(cells[2], "2000");
    assert_eq!(cells[9], "42");
}

#[test]
fn day_is_derived_from_entry_timestamp() {
    // 2023-11-14T22:13:20Z
    assert_eq!(entry_day(1_700_000_000_500_000), "2023-11-14");
    // 2023-11-15T00:00:00Z -> the new day
    assert_eq!(entry_day(1_700_006_400_000_000), "2023-11-15");
}

#[test]
fn access_metric_key_matches_python_tag_order() {
    let e = entry(-1, Some(LocalGridLog { x: 101, y: 202, data_area: 5 }));
    assert_eq!(
        access_metric_key(&e, Some(190), Some("DE")),
        "access,version=190,region=-1,minutes=60,offset=0,grid=10000,data_area=101x202-5,country=DE"
    );
    assert_eq!(
        access_metric_key(&e, None, None),
        "access,version=-,region=-1,minutes=60,offset=0,grid=10000,data_area=101x202-5"
    );
}

#[test]
fn writer_reports_a_failure_once_and_drops_later_rows() {
    let mut writer = ServicelogWriter::new();
    assert_eq!(append(&mut writer, &entry(0, None), false), WriteOutcome::Failed);
    // Subsequent rows for the same day are dropped, not retried.
    assert_eq!(append(&mut writer, &entry(0, None), false), WriteOutcome::Dropped);
    assert_eq!(append(&mut writer, &entry(0, None), false), WriteOutcome::Dropped);
    assert_eq!(writer.dropped_rows(), 2);
    assert!(writer.failure.is_some());
    assert!(writer.is_disabled_for("2023-11-14"));
    assert!(!writer.is_disabled_for("2023-11-15"));

    // A new day retries once (and fails again once).
    let mut next_day = entry(0, None);
    next_day.now_us = 1_700_006_400_000_000; // 2023-11-15
    assert_eq!(append(&mut writer, &next_day, false), WriteOutcome::Failed);
}

#[test]
fn writer_writes_all_rows_when_writable() {
    let mut writer = ServicelogWriter::new();
    for _ in 0..3 {
        assert_eq!(append(&mut writer, &entry(0, None), true), WriteOutcome::Written);
    }
    assert_eq!(writer.dropped_rows(), 0);
    assert_eq!(writer.current_day.as_deref(), Some("2023-11-14"));
}

#[test]
fn client_platform_marker() {
    assert_eq!(client_platform(Some("bo-android-190"), Some(190)), "A");
    // A prefix match without a parsed version is still Android.
    assert_eq!(client_platform(Some("bo-android-abc"), None), "A");
    assert_eq!(client_platform(Some("Mozilla/5.0"), None), "-");
    assert_eq!(client_platform(None, None), "-");
}

#[test]
fn access_metric_key_skips_falsy_extras() {
    let mut e = entry(-1, Some(LocalGridLog { x: 0, y: 0, data_area: 0 }));
    e.region = -1;
    let key = access_metric_key(&e, None, Some(""));
    assert_eq!(key, "access,version=-,region=-1,minutes=60,offset=0,grid=10000");
}

#[test]
fn rows_do_not_depend_on_the_client() {
    let mut other = entry(0, None);
    other.client = None;
    assert_eq!(
        build_row(&entry(0, None), Some(1), None, None),
        build_row(&other, Some(1), None, None)
    );
}

#[test]
fn a_new_day_opens_a_new_file() {
    let mut writer = ServicelogWriter::new();
    assert!(matches!(writer.plan(&entry(0, None)), RowPlan::Reopen { .. }));
    writer.opened("2023-11-14");
    assert!(matches!(writer.plan(&entry(0, None)), RowPlan::Append { .. }));
    let mut next_day = entry(0, None);
    next_day.now_us = 1_700_006_400_000_000;
    assert!(matches!(writer.plan(&next_day), RowPlan::Reopen { .. }));
}

#[test]
fn entries_are_made_for_each_grid() {
    let client = Some("1.2.3.4".to_string());
    let global = global_entry(5, 60, 25_000, -5, 1, client.clone(), None);
    assert_eq!((global.now_us, global.region, global.local), (5, 0, None));
    let region = region_entry(5, 60, 10_000, -5, 3, 1, client.clone(), None);
    assert_eq!((region.region, region.grid_baselength, region.local), (3, 10_000, None));
    let local = local_entry(5, 60, 10_000, -5, 1, client, None, 7, 8, 9);
    assert_eq!(local.region, -1);
    assert_eq!(local.local, Some(LocalGridLog { x: 7, y: 8, data_area: 9 }));
}

#[test]
fn empty_names_are_unknown() {
    assert_eq!(known_name(Some(String::new())), None);
    assert_eq!(known_name(Some("DE".to_string())).as_deref(), Some("DE"));
    assert_eq!(known_name(None), None);
}

#[test]
fn full_queue_drops_without_blocking() {
    let mut sender = UsageLogSender::new();
    assert_eq!(sender.record(QueueOutcome::Queued), None);
    assert_eq!(sender.record(QueueOutcome::Queued), None);
    // Both queued; the next two are dropped, with one warning.
    assert_eq!(
        sender.record(QueueOutcome::Full).as_deref(),
        Some("usage log queue full; dropping entries (capacity 65536)")
    );
    assert_eq!(sender.record(QueueOutcome::Full), None);
    assert_eq!(sender.dropped(), 2);
}

#[test]
fn record_on_closed_channel_drops_silently() {
    let mut sender = UsageLogSender::new();
    assert_eq!(sender.record(QueueOutcome::Closed), None);
    assert_eq!(sender.dropped(), 0);
}

#[test]
fn served_grids_become_entries() {
    let grid = |kind: GridKind| GridRequest {
        kind,
        minute_length: 60,
        minute_offset: -5,
        grid_base_length: 10_000,
        count_threshold: 1,
    };
    let client = Some("203.0.113.7".to_string());
    let region = usage_entry(&grid(GridKind::Region { region: 3 }), 7, client.clone(), None);
    assert_eq!(region, region_entry(7, 60, 10_000, -5, 3, 1, client.clone(), None));
    let global = usage_entry(&grid(GridKind::Global), 7, client.clone(), None);
    assert_eq!(global, global_entry(7, 60, 10_000, -5, 1, client.clone(), None));
    assert_eq!(global.region, 0);
    let local = usage_entry(&grid(GridKind::Local { x: 1, y: 2, data_area: 5 }), 7, client.clone(), None);
    assert_eq!(local, local_entry(7, 60, 10_000, -5, 1, client, None, 1, 2, 5));
    assert_eq!(local.region, -1);
}
