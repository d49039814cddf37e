use blitzortung_srv::data::{
    ArcFigures, GridData, GridElement, Strike, StrikeFigures, Timestamp,
};
use blitzortung_srv::geom::Grid;
use blitzortung_srv::ieee::Real;
use chrono::{TimeZone, Utc};

fn num(value: f64) -> Real {
    Real::from_bits(value.to_bits())
}

fn number(value: Real) -> f64 {
    f64::from_bits(value.bits)
}

fn seconds(ts: &Timestamp) -> i64 {
    ts.datetime.unwrap().div_euclid(1_000_000)
}

fn micros(ts: &Timestamp) -> i64 {
    ts.datetime.unwrap().rem_euclid(1_000_000)
}

fn utc(y: i32, mo: u32, d: u32, h: u32, mi: u32, s: u32) -> i64 {
    Utc.with_ymd_and_hms(y, mo, d, h, mi, s).unwrap().timestamp_micros()
}

fn figures(strike: &Strike) -> StrikeFigures {
    StrikeFigures {
        x: format!("{:.4}", number(strike.x)),
        y: format!("{:.4}", number(strike.y)),
        altitude: strike.altitude.map(|a| format!("{:?}", number(a))),
        amplitude: format!("{:.1}", number(strike.shown_amplitude())),
    }
}

#[test]
fn timestamp_from_nanoseconds() {
    let ts = Timestamp::from_nanosecond_value(1540935833552753700).unwrap();
    assert_eq!(seconds(&ts), 1_540_935_833);
    assert_eq!(micros(&ts), 552_753);
    assert_eq!(ts.nanosecond, 700);
}

#[test]
fn timestamp_value_round_trips() {
    let ts = Timestamp::from_nanosecond_value(1_763_202_124_325_980_200).unwrap();
    assert_eq!(ts.value(), 1_763_202_124_325_980_200);
}

#[test]
fn timestamp_from_nanoseconds_negative() {
    // -1500 ns is two microseconds before the epoch and 500 ns on.
    let (dt, ns) = Timestamp::from_nanoseconds(-1500);
    assert_eq!(ns, 500);
    assert_eq!(dt.rem_euclid(1_000_000), 999_998);
    assert_eq!(dt.div_euclid(1_000_000), -1);
}

#[test]
fn timestamp_from_timestamp_string() {
    let ts = Timestamp::from_timestamp("2020-01-01 12:00:00.123456").unwrap();
    assert_eq!(ts.nanosecond, 0);
    assert_eq!(micros(&ts), 123_456);
}

#[test]
fn timestamp_from_timestamp_with_extra_fraction() {
    // 26 chars are read as microseconds, the rest as nanoseconds.
    let ts = Timestamp::from_timestamp("2020-01-01 12:00:00.1234567").unwrap();
    assert_eq!(ts.nanosecond, 700);
    assert_eq!(micros(&ts), 123_456);
}

#[test]
fn timestamp_from_timestamp_rejects_unsupported_format() {
    assert!(Timestamp::from_timestamp("2025-01-15T12:30:45.123456+00:00").is_none());
}

#[test]
fn timestamp_from_timestamp_mirrors_length_heuristic() {
    // 19 chars: no fraction of a second.
    let ts = Timestamp::from_timestamp("2013-08-20 12:09:00").unwrap();
    assert_eq!(seconds(&ts), 1_377_000_540);
    assert_eq!(ts.nanosecond, 0);
}

#[test]
fn timestamp_nat_value_and_validity() {
    assert_eq!(Timestamp::not_a_time().value(), -1);
    assert!(!Timestamp::not_a_time().is_valid());
}

#[test]
fn timestamp_normalizes_nanoseconds() {
    let ts = Timestamp::new(utc(2020, 1, 1, 0, 0, 0), 1500);
    assert_eq!(ts.nanosecond, 500);
    assert_eq!(micros(&ts), 1);
}

#[test]
fn strike_display_matches_python() {
    let ts = Timestamp::new(utc(2013, 9, 28, 23, 23, 38) + 123_456, 789);
    let strike = Strike::new(
        Some(1),
        ts,
        num(11.2),
        num(49.3),
        Some(num(2500.0)),
        Some(num(10.5)),
        Some(5400),
        Some(11),
        vec![],
        None,
    );
    assert_eq!(
        strike.to_text(&figures(&strike)),
        "2013-09-28 23:23:38.123456789 11.2000 49.3000 2500.0 10.5 5400 11"
    );
}

#[test]
fn strike_display_defaults_for_missing_fields() {
    let ts = Timestamp::new(utc(2020, 1, 1, 0, 0, 0), 0);
    let strike = Strike::new(None, ts, num(1.0), num(2.0), None, None, None, None, vec![], None);
    assert_eq!(
        strike.to_text(&figures(&strike)),
        "2020-01-01 00:00:00.000000000 1.0000 2.0000 - 0.0 0 0"
    );
}

fn example_grid() -> GridData {
    let grid = Grid::new(num(-5.0), num(4.0), num(-3.0), num(2.0), num(0.5), num(1.25));
    let x_bins = ((number(grid.x_max) - number(grid.x_min)) / number(grid.x_div)).ceil();
    let y_bins = ((number(grid.y_max) - number(grid.y_min)) / number(grid.y_div)).ceil();
    GridData::new(grid, x_bins as i64, y_bins as i64)
}

fn arc_figures(data: &GridData) -> ArcFigures {
    ArcFigures {
        x_corner: format!("{:.4}", number(data.grid.x_min)),
        y_corner: format!("{:.4}", number(data.grid.y_min)),
        cell_size: format!("{:.4}", number(data.grid.x_div)),
    }
}

#[test]
fn grid_data_empty_arcgrid() {
    let data = example_grid();
    assert_eq!(data.x_bin_count, 18);
    assert_eq!(data.y_bin_count, 4);
    assert_eq!(
        data.to_arcgrid(&arc_figures(&data)),
        "NCOLS 18\nNROWS 4\nXLLCORNER -5.0000\nYLLCORNER -3.0000\nCELLSIZE 0.5000\nNODATA_VALUE 0\n\
         0 0 0 0 0 0 0 0 0 0 0 0 0 0 0 0 0 0\n\
         0 0 0 0 0 0 0 0 0 0 0 0 0 0 0 0 0 0\n\
         0 0 0 0 0 0 0 0 0 0 0 0 0 0 0 0 0 0\n\
         0 0 0 0 0 0 0 0 0 0 0 0 0 0 0 0 0 0"
    );
}

#[test]
fn grid_data_empty_map() {
    let data = example_grid();
    assert_eq!(
        data.to_map(),
        "--------------------\n|                  |\n|                  |\n|                  |\n|                  |\n--------------------\ntotal count: 0, max per area: 0"
    );
}

#[test]
fn grid_data_raster_arcgrid() {
    let mut data = example_grid();
    data.set(0, 0, Some(GridElement::new(5, None)));
    data.set(1, 1, Some(GridElement::new(10, None)));
    data.set(4, 2, Some(GridElement::new(20, None)));
    assert_eq!(
        data.to_arcgrid(&arc_figures(&data)),
        "NCOLS 18\nNROWS 4\nXLLCORNER -5.0000\nYLLCORNER -3.0000\nCELLSIZE 0.5000\nNODATA_VALUE 0\n\
         0 0 0 0 0 0 0 0 0 0 0 0 0 0 0 0 0 0\n\
         0 0 0 0 20 0 0 0 0 0 0 0 0 0 0 0 0 0\n\
         0 10 0 0 0 0 0 0 0 0 0 0 0 0 0 0 0 0\n\
         5 0 0 0 0 0 0 0 0 0 0 0 0 0 0 0 0 0"
    );
}

#[test]
fn grid_data_raster_map() {
    let mut data = example_grid();
    data.set(0, 0, Some(GridElement::new(5, None)));
    data.set(1, 1, Some(GridElement::new(10, None)));
    data.set(4, 2, Some(GridElement::new(20, None)));
    assert_eq!(
        data.to_map(),
        "--------------------\n|                  |\n|    8             |\n| o                |\n|-                 |\n--------------------\ntotal count: 35, max per area: 20"
    );
}

#[test]
fn grid_data_cell_index() {
    assert_eq!(GridData::cell_index(Some(GridElement::new(5, None)), 5, 1), 1);
    assert_eq!(GridData::cell_index(Some(GridElement::new(6, None)), 5, 1), 2);
    assert_eq!(GridData::cell_index(Some(GridElement::new(10, None)), 5, 1), 2);
    assert_eq!(GridData::cell_index(Some(GridElement::new(11, None)), 5, 1), 3);
    assert_eq!(GridData::cell_index(None, 5, 1), 0);
}

#[test]
fn grid_data_max_and_total() {
    let matrix = vec![
        vec![Some(GridElement::new(4, None)), Some(GridElement::new(8, None))],
        vec![None, Some(GridElement::new(6, None))],
    ];
    assert_eq!(GridData::max_and_total_entries(&matrix), (8, 18));
}

#[test]
fn a_set_cell_is_read_again() {
    let mut data = example_grid();
    data.set(3, 1, Some(GridElement::new(4, None)));
    assert_eq!(data.get(3, 1).unwrap().count, 4);
    assert!(data.get(3, 2).is_none());
    assert!(data.get(-1, 0).is_none());
    // Outside of the grid nothing is stored.
    data.set(18, 0, Some(GridElement::new(9, None)));
    data.set(-1, 0, Some(GridElement::new(9, None)));
    assert!(data.get(18, 0).is_none());
    assert_eq!(GridData::max_and_total_entries(&data.data), (4, 4));
    assert_eq!(GridData::cell_to_multiplicity(data.get(3, 1)), "4");
    assert_eq!(GridData::cell_to_multiplicity(None), "0");
}

#[test]
fn small_counts_have_their_marks() {
    let mut data = example_grid();
    for i in 0..7 {
        data.set(i, 0, Some(GridElement::new(i + 1, None)));
    }
    assert!(data.to_map().contains("|.-o*O88           |"));
}

#[test]
fn later_timestamps_are_greater() {
    let early = Timestamp::new(1_000, 5);
    let late = Timestamp::new(1_000, 6);
    assert!(early < late);
    assert!(late.is_after(&early));
    assert!(!early.is_after(&early));
    assert!(Timestamp::not_a_time().partial_cmp(&early).is_none());
    assert!(Timestamp::new(2_000, 0) > late);
}

#[test]
fn timestamps_are_written_with_nanoseconds() {
    let ts = Timestamp::new(utc(2013, 9, 28, 23, 23, 38) + 123_456, 789);
    assert_eq!(ts.event_string(), "2013-09-28 23:23:38.123456789");
    assert_eq!(ts.strftime("%Y/%m/%d").unwrap(), "2013/09/28");
    assert_eq!(Timestamp::not_a_time().strftime("%Y"), None);
    assert_eq!(
        ts.event_string_in("Europe/Berlin").unwrap(),
        "2013-09-29 01:23:38.123456789"
    );
}

#[test]
fn only_sane_strikes_are_valid() {
    let ts = Timestamp::new(utc(2020, 1, 1, 0, 0, 0), 0);
    let place = |x: f64, y: f64| {
        Strike::new(None, ts, num(x), num(y), None, None, None, None, vec![8], None)
    };
    assert!(place(11.0, 49.0).is_valid());
    assert!(!place(181.0, 49.0).is_valid());
    assert!(!place(11.0, -91.0).is_valid());
    assert!(!place(0.0, 0.0).is_valid());
    assert!(place(11.0, 49.0).has_participant(8));
    assert!(!place(11.0, 49.0).has_participant(9));
    let unset = Strike::new(
        None,
        Timestamp::not_a_time(),
        num(11.0),
        num(49.0),
        None,
        None,
        None,
        None,
        vec![],
        None,
    );
    assert!(!unset.is_valid());
}

#[test]
fn strike_differences_are_nanoseconds() {
    let at = |us: i64, ns: i64| {
        Strike::new(None, Timestamp::new(us, ns), num(1.0), num(1.0), None, None, None, None, vec![], None)
    };
    assert_eq!(at(10, 0).ns_difference_to(&at(12, 5)), 2_005);
    assert_eq!(at(12, 5).ns_difference_to(&at(10, 0)), -2_005);
}

/// The nanoseconds of a tail in floating point arithmetic.
fn tail_in_floating_point(tail: &str) -> Option<i64> {
    let value: f64 = tail.parse().ok()?;
    Some((value * 10f64.powi(3 - tail.len() as i32)).trunc() as i64)
}

fn tail_nanoseconds(tail: &str) -> Option<i64> {
    Timestamp::from_timestamp(&format!("2020-01-01 12:00:00.123456{tail}")).map(|t| t.nanosecond)
}

fn assert_tail(tail: &str) {
    assert_eq!(tail_nanoseconds(tail), tail_in_floating_point(tail), "tail {tail}");
}

#[test]
fn the_tail_of_a_timestamp_is_a_decimal_number() {
    assert_eq!(tail_nanoseconds("1.5"), Some(1));
    assert_eq!(tail_nanoseconds("789"), Some(789));
    assert_eq!(tail_nanoseconds("7894"), Some(789));
    assert_eq!(tail_nanoseconds("1e9"), Some(1_000_000_000));
    assert_eq!(tail_nanoseconds("-.5"), Some(0));
    assert_eq!(tail_nanoseconds("-12"), Some(-12));
    assert_eq!(tail_nanoseconds("NaN"), Some(0));
    assert_eq!(tail_nanoseconds("inf"), Some(i64::MAX));
    assert_eq!(tail_nanoseconds("-infinity"), Some(i64::MIN));
    assert_eq!(tail_nanoseconds("99999999999999999999"), Some(1000));
    assert_eq!(tail_nanoseconds("12800000000000"), Some(127));
    for tail in [".", "+", "e5", "1e", "1e+", "1.2.3", " 1", "1 ", "0x1", "1_0", "in", "nanx", "\u{664}"] {
        assert_eq!(tail_nanoseconds(tail), None, "tail {tail}");
    }
}

#[test]
fn short_tails_agree_with_floating_point() {
    let letters = ['0', '1', '7', '9', '.', 'e', 'E', '+', '-', 'i', 'N', 'f', 'a', 'x'];
    for a in letters {
        assert_tail(&format!("{a}"));
        for b in letters {
            assert_tail(&format!("{a}{b}"));
            for c in letters {
                assert_tail(&format!("{a}{b}{c}"));
            }
        }
    }
}

#[test]
fn long_tails_agree_with_floating_point() {
    let mut state: u64 = 1;
    let mut next = |below: u64| {
        state = state.wrapping_mul(6364136223846793005).wrapping_add(1442695040888963407);
        (state >> 33) % below
    };
    for round in 0..3000u32 {
        let count = 1 + next(22) as usize;
        let mut tail: String = (0..count).map(|_| char::from(b'0' + next(10) as u8)).collect();
        match round % 4 {
            1 => tail.insert(next(count as u64 + 1) as usize, '.'),
            2 => tail = format!("{}e{}", &tail[..count.min(18)], next(60) as i64 - 30),
            3 => tail.replace_range(count.min(4).., &"0".repeat(count - count.min(4))),
            _ => {}
        }
        assert_tail(&tail);
        assert_tail(&format!("-{}", &tail[..tail.len().min(24)]));
    }
    for tail in ["1e308", "1e309", "17976931348623157e292", "17976931348623159e292", "1e-323", "1e-400", "0e999999999999"] {
        assert_tail(tail);
    }
    for tail in ["9e99999999999999999999", "1e-99999999999999999999", "123.456e-2", "000000001e12"] {
        assert_tail(tail);
    }
    for k in 4..=25 {
        for lead in ["1", "2", "16", "128", "256", "512", "999"] {
            assert_tail(&format!("{lead}{}", "0".repeat(k - lead.len())));
            assert_tail(&format!("{lead}{}", "9".repeat(k - lead.len())));
        }
    }
    assert_tail(&"1234567890".repeat(5));
    assert_tail(&"9".repeat(400));
    assert_tail(&format!("{}1e400", "0".repeat(400)));
}
