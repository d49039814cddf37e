use blitzortung_srv::dataimport::{
    response_lines, BlitzortungDataPath, BlitzortungDataPathGenerator, DEFAULT_HOST_NAME,
};
use blitzortung_srv::natural::Natural;
use blitzortung_srv::util::{log_path, round_time, time_intervals, total_seconds, Timer};
use chrono::{TimeZone, Timelike, Utc};

const MINUTE: i64 = 60_000_000;

fn utc(y: i32, mo: u32, d: u32, h: u32, mi: u32, s: u32) -> i64 {
    Utc.with_ymd_and_hms(y, mo, d, h, mi, s).unwrap().timestamp_micros()
}

#[test]
fn round_time_rounds_down() {
    let value = utc(2013, 8, 20, 12, 3, 23);
    let result = Utc.timestamp_micros(round_time(value, 2 * MINUTE)).unwrap();
    assert_eq!(result.hour(), 12);
    assert_eq!(result.minute(), 2);
    assert_eq!(result.second(), 0);
}

#[test]
fn time_intervals_contains_expected_starts() {
    let end = utc(2013, 8, 20, 12, 9, 0);
    let start = end - 25 * MINUTE;
    let intervals = time_intervals(start, 10 * MINUTE, end);
    assert!(intervals.contains(&utc(2013, 8, 20, 11, 40, 0)));
    assert!(intervals.contains(&utc(2013, 8, 20, 11, 50, 0)));
    assert!(intervals.contains(&utc(2013, 8, 20, 12, 0, 0)));
}

#[test]
fn log_path_matches_python_format() {
    assert_eq!(log_path(utc(2013, 8, 20, 11, 40, 0)), "2013/08/20/11/40.log");
}

#[test]
fn time_intervals_start_at_the_rounded_start_and_end_with_the_end() {
    let end = utc(2013, 8, 20, 12, 10, 0);
    let intervals = time_intervals(utc(2013, 8, 20, 11, 55, 0), 10 * MINUTE, end);
    assert_eq!(
        intervals,
        vec![
            utc(2013, 8, 20, 11, 50, 0),
            utc(2013, 8, 20, 12, 0, 0),
            utc(2013, 8, 20, 12, 10, 0)
        ]
    );
}

#[test]
fn rounding_twice_changes_nothing() {
    let value = utc(2013, 8, 20, 12, 3, 23);
    let once = round_time(value, 7 * MINUTE);
    assert_eq!(round_time(once, 7 * MINUTE), once);
    assert!(once <= value);
}

#[test]
fn total_seconds_are_whole() {
    assert_eq!(total_seconds(90_999_999), 90);
    assert_eq!(total_seconds(0), 0);
}

#[test]
fn timer_laps_start_anew() {
    let mut timer = Timer::new(1_000);
    assert_eq!(timer.read(1_500), 500);
    assert_eq!(timer.lap(3_000), 2_000);
    assert_eq!(timer.lap(3_250), 250);
    assert_eq!(timer.read(4_000), 3_000);
}

#[test]
fn data_path_defaults() {
    let path = BlitzortungDataPath::default();
    assert_eq!(
        path.build_path("url_path", DEFAULT_HOST_NAME, 1),
        "https://data.blitzortung.org/Data/url_path"
    );
}

#[test]
fn data_path_with_region_template() {
    let path = BlitzortungDataPath::default();
    let url = path.build_path("Protected/Strikes_{region}/2013/08/20/11/40.log", "data", 3);
    assert_eq!(
        url,
        "https://data.blitzortung.org/Data/Protected/Strikes_3/2013/08/20/11/40.log"
    );
}

#[test]
fn data_path_with_custom_base() {
    let path = BlitzortungDataPath::new(Some("base/path"));
    assert_eq!(path.build_path("url_path", "bar", 39), "base/path/Data/url_path");
}

#[test]
fn generator_yields_expected_paths() {
    let generator = BlitzortungDataPathGenerator::default();
    let start = utc(2013, 8, 20, 11, 44, 0);
    let end = utc(2013, 8, 20, 12, 9, 0);
    let paths = generator.get_paths(start, end);
    assert!(paths.contains(&"2013/08/20/11/40.log".to_string()));
    assert!(paths.contains(&"2013/08/20/11/50.log".to_string()));
    assert!(paths.contains(&"2013/08/20/12/00.log".to_string()));
}

#[test]
fn only_found_files_have_lines() {
    assert_eq!(response_lines(200, "a\nb\n"), vec!["a".to_string(), "b".to_string()]);
    assert!(response_lines(404, "not found").is_empty());
}

#[test]
fn natural_numbers_outgrow_machine_words() {
    let mut square = Natural::from_u64(u64::MAX);
    square.mul_add(u64::MAX, 5);
    // (2^64 - 1)^2 + 5 = (2^64 - 2) * 2^64 + 6
    let mut same = Natural::from_u64(u64::MAX - 1);
    same.mul_add(1 << 32, 0);
    same.mul_add(1 << 32, 6);
    assert!(square.minus(&same).unwrap().is_zero());
    assert!(square.copy().bits() >= 128);
    let seven = Natural::from_u64(7);
    assert!(seven.minus(&square).is_none());
    assert!(!square.minus(&seven).unwrap().is_zero());
    assert!(Natural::from_u64(0).is_zero());
}
