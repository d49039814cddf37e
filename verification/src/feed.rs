//! Recent log files of a region and their lines.

use vstd::prelude::*;
use vstd::slice::*;
use vstd::string::*;

use crate::clock;
use crate::number;
use crate::text;
use crate::util;

verus! {

/// Credentials of the protected data.
#[derive(Debug, Clone, PartialEq, Eq)]
pub struct Blitzortung {
    pub username: String,
    pub password: String,
}

/// The database connection.
#[derive(Debug, Clone, PartialEq, Eq)]
pub struct Database {
    pub host: String,
    pub port: u16,
    pub username: String,
    pub password: String,
}

/// Configuration of the feed reader.
#[derive(Debug, Clone, PartialEq, Eq)]
pub struct Config {
    pub blitzortung: Blitzortung,
    pub database: Database,
}

/// Microseconds that the feed reaches back.
pub const FEED_REACH: i64 = 1_320_000_000;

/// Microseconds between two log files.
pub const FEED_GRANULARITY: i64 = 600_000_000;

/// An instant rounded down to ten minutes.
pub open spec fn block_start(micros: int) -> int {
    micros - micros % FEED_GRANULARITY as int
}

/// The starts of the blocks from `first` up to, but not including, `now`.
pub open spec fn blocks(first: int, now: int) -> Seq<int> {
    Seq::new(
        if first >= now {
            0
        } else {
            ((now - first - 1) / FEED_GRANULARITY as int + 1) as nat
        },
        |i: int| first + i * FEED_GRANULARITY,
    )
}

/// The ten minute blocks from 22 minutes before `now` up to `now`.
pub fn recent_blocks(now: i64) -> (r: Vec<i64>)
    requires
        clock::representable(now as int),
        clock::representable(block_start(now - FEED_REACH)),
    ensures
        util::instants(r@) == blocks(block_start(now - FEED_REACH), now as int),
        forall|i: int| 0 <= i < r@.len() ==> clock::representable(#[trigger] r@[i] as int),
{
    let start: i64 = now - FEED_REACH;
    let rest: i64 = start % FEED_GRANULARITY;
    let first: i64 = if rest < 0 {
        start - rest - FEED_GRANULARITY
    } else {
        start - rest
    };
    assert(first == block_start(now - FEED_REACH));
    let ghost all = blocks(first as int, now as int);
    let mut out: Vec<i64> = Vec::new();
    let mut current: i64 = first;
    assert(util::instants(out@) =~= all.take(0));
    while current < now
        invariant
            first == block_start(now - FEED_REACH),
            clock::representable(first as int),
            clock::representable(now as int),
            all == blocks(first as int, now as int),
            current == first + out@.len() * FEED_GRANULARITY,
            out@.len() <= all.len(),
            first < now,
            util::instants(out@) == all.take(out@.len() as int),
            forall|i: int| 0 <= i < out@.len() ==> clock::representable(#[trigger] out@[i] as int),
        decreases now - current + FEED_GRANULARITY,
    {
        let ghost n = out@.len() as int;
        let ghost before = out@;
        out.push(current);
        assert(all[n] == current);
        assert(util::instants(out@) =~= util::instants(before).push(current as int));
        assert(all.take(n + 1) =~= all.take(n).push(all[n]));
        current = current + FEED_GRANULARITY;
    }
    assert(all.take(out@.len() as int) =~= all);
    out
}

/// The location of the log file of a block.
pub open spec fn block_location(region: nat, micros: int) -> Seq<char> {
    "https://data.blitzortung.org/Data/Protected/Strikes_"@ + number::decimal(region) + "/"@ + util::path_of(micros)
}

/// The location of the log file of a block.
pub fn block_url(region: u32, micros: i64) -> (r: String)
    requires
        clock::representable(micros as int),
    ensures
        r@ == block_location(region as nat, micros as int),
{
    let mut out = String::from_str("https://data.blitzortung.org/Data/Protected/Strikes_");
    number::push_decimal(&mut out, region as u64);
    out.append("/");
    out.append(util::log_path(micros).as_str());
    out
}

// ---------------------------------------------------------------------
// lines
// ---------------------------------------------------------------------

/// The fields of a log line; the decimal numbers as their texts.
#[derive(Debug, PartialEq, Eq)]
pub struct LogLine {
    /// The instant, in microseconds.
    pub timestamp: i64,
    /// Nanoseconds behind the microsecond.
    pub nanosecond: u32,
    pub latitude: String,
    pub longitude: String,
    pub altitude: String,
    pub amplitude: String,
    pub lateral_error: i32,
    pub station_count: i32,
    pub region: Option<i32>,
}

/// What a [`LogLine`] holds.
pub struct LineModel {
    pub timestamp: int,
    pub nanosecond: int,
    pub latitude: Seq<char>,
    pub longitude: Seq<char>,
    pub altitude: Seq<char>,
    pub amplitude: Seq<char>,
    pub lateral_error: int,
    pub station_count: int,
    pub region: Option<i32>,
}

impl View for LogLine {
    type V = LineModel;

    open spec fn view(&self) -> LineModel {
        LineModel {
            timestamp: self.timestamp as int,
            nanosecond: self.nanosecond as int,
            latitude: self.latitude@,
            longitude: self.longitude@,
            altitude: self.altitude@,
            amplitude: self.amplitude@,
            lateral_error: self.lateral_error as int,
            station_count: self.station_count as int,
            region: self.region,
        }
    }
}

/// The field with the given number behind the label of a word.
pub open spec fn field(word: Seq<char>, i: int) -> Option<Seq<char>> {
    let parts = text::pieces(word, ';');
    if 0 <= i < parts.len() {
        Some(parts[i])
    } else {
        None
    }
}

/// The field as a number of 32 bits.
pub open spec fn number_field(word: Seq<char>, i: int) -> Option<int> {
    match field(word, i) {
        Some(s) => number::within(number::signed_value(s), i32::MIN as int, i32::MAX as int),
        None => None,
    }
}

/// The fields of a line of six words, the first two of which are the date and
/// the time; `None` for any other line.
pub open spec fn line_parts(region: i32, line: Seq<char>) -> Option<LineModel> {
    let words = text::pieces(line, ' ');
    if words.len() != 6 {
        None
    } else {
        match (
            clock::utc_instant(words[0] + " "@ + words[1], LINE_DATE_FORMAT@),
            field(words[2], 1),
            field(words[2], 2),
            field(words[2], 3),
            field(words[3], 1),
            number_field(words[4], 1),
            number_field(words[5], 1),
        ) {
            (
                Some((timestamp, nanoseconds)),
                Some(latitude),
                Some(longitude),
                Some(altitude),
                Some(amplitude),
                Some(lateral_error),
                Some(station_count),
            ) => Some(
                LineModel {
                    timestamp,
                    nanosecond: nanoseconds % 1000,
                    latitude,
                    longitude,
                    altitude,
                    amplitude,
                    lateral_error,
                    station_count,
                    region: Some(region),
                },
            ),
            _ => None,
        }
    }
}

fn field_text(word: &[char], i: usize) -> (r: Option<String>)
    ensures
        text::opt_text(r) == field(word@, i as int),
{
    let parts = text::pieces_of(word, ';');
    assert(text::views(parts@).len() == parts@.len());
    if i < parts.len() {
        assert(text::views(parts@)[i as int] == parts@[i as int]@);
        Some(text::text_of(parts[i].as_slice()))
    } else {
        None
    }
}

fn field_number(word: &[char], i: usize) -> (r: Option<i32>)
    ensures
        r matches Some(v) ==> number_field(word@, i as int) == Some(v as int),
        r is None ==> number_field(word@, i as int) is None,
{
    match field_text(word, i) {
        Some(s) => {
            let chars = text::chars_of(s.as_str());
            match number::parse_signed(chars.as_slice()) {
                Some(v) => if i32::MIN as i64 <= v && v <= i32::MAX as i64 {
                    Some(v as i32)
                } else {
                    None
                },
                None => None,
            }
        },
        None => None,
    }
}

/// Format of the date of a log line.
pub const LINE_DATE_FORMAT: &'static str = "%Y-%m-%d %H:%M:%S%.f";

/// Split a log line of a region into its fields.
pub fn parse_line(region: i32, line: &str) -> (r: Option<LogLine>)
    ensures
        r matches Some(l) ==> line_parts(region, line@) == Some(l@),
        r is None ==> line_parts(region, line@) is None,
{
    let chars = text::chars_of(line);
    let words = text::pieces_of(chars.as_slice(), ' ');
    assert(text::views(words@).len() == words@.len());
    if words.len() != 6 {
        return None;
    }
    assert(forall|i: int| 0 <= i < 6 ==> (#[trigger] text::views(words@)[i]) == words@[i]@);
    let mut date = text::text_of(words[0].as_slice());
    date.append(" ");
    date.append(text::text_of(words[1].as_slice()).as_str());
    let position = words[2].as_slice();
    match (
        clock::parse_utc(date.as_str(), LINE_DATE_FORMAT),
        field_text(position, 1),
        field_text(position, 2),
        field_text(position, 3),
        field_text(words[3].as_slice(), 1),
        field_number(words[4].as_slice(), 1),
        field_number(words[5].as_slice(), 1),
    ) {
        (
            Some((timestamp, nanoseconds)),
            Some(latitude),
            Some(longitude),
            Some(altitude),
            Some(amplitude),
            Some(lateral_error),
            Some(station_count),
        ) => Some(
            LogLine {
                timestamp,
                nanosecond: nanoseconds % 1000,
                latitude,
                longitude,
                altitude,
                amplitude,
                lateral_error,
                station_count,
                region: Some(region),
            },
        ),
        _ => None,
    }
}

/// The log of ten minutes lies where the import of the region looks for it.
pub proof fn blocks_lie_in_the_directory_of_their_region(region: nat, micros: int)
    requires
        !util::path_of(micros).contains('{'),
    ensures
        block_location(region, micros) == crate::dataimport::log_location(
            "https://data.blitzortung.org"@ + "/Data"@,
            util::path_of(micros),
            region,
        ),
{
    crate::dataimport::logs_lie_in_the_directory_of_their_region(util::path_of(micros), region);
}

/// Every instant of the last twenty-two minutes lies in one of the blocks, the
/// first of which holds the start of those minutes and the last of which starts
/// before their end.
pub proof fn blocks_cover_the_last_minutes(now: int, t: int)
    requires
        now - 22 * 60_000_000 <= t < now,
    ensures
        ({
            let all = blocks(block_start(now - FEED_REACH), now);
            exists|i: int|
                0 <= i < all.len() && (#[trigger] all[i]) <= t < all[i] + 600_000_000 && all[i] % 600_000_000 == 0
        }),
        ({
            let all = blocks(block_start(now - FEED_REACH), now);
            all.len() > 0 && all[0] <= now - 22 * 60_000_000 < all[0] + 600_000_000 && all.last() < now
        }),
{
    let first = block_start(now - FEED_REACH);
    let all = blocks(first, now);
    let i = (t - first) / 600_000_000;
    assert(first % 600_000_000 == 0);
    assert(first <= t);
    assert(0 <= i < all.len());
    assert(all[i] == first + i * 600_000_000);
    assert((first + i * 600_000_000) % 600_000_000 == 0);
}

/// The fields of a line between spaces and semicolons: the date and the time,
/// latitude, longitude and altitude, the amplitude, the lateral error and the
/// number of stations, each behind its label.
pub proof fn lines_have_their_fields(
    region: i32,
    date: Seq<char>,
    time: Seq<char>,
    position: Seq<Seq<char>>,
    strength: Seq<Seq<char>>,
    deviation: Seq<Seq<char>>,
    stations: Seq<Seq<char>>,
)
    requires
        !date.contains(' ') && !time.contains(' '),
        position.len() >= 4 && strength.len() >= 2 && deviation.len() >= 2 && stations.len() >= 2,
        plain(position) && plain(strength) && plain(deviation) && plain(stations),
        clock::utc_instant(date + " "@ + time, "%Y-%m-%d %H:%M:%S%.f"@) is Some,
        number::signed_value(deviation[1]) is Some && i32::MIN <= number::signed_value(deviation[1])->0 <= i32::MAX,
        number::signed_value(stations[1]) is Some && i32::MIN <= number::signed_value(stations[1])->0 <= i32::MAX,
    ensures
        line_parts(
            region,
            text::join(
                seq![
                    date,
                    time,
                    text::join(position, seq![';']),
                    text::join(strength, seq![';']),
                    text::join(deviation, seq![';']),
                    text::join(stations, seq![';']),
                ],
                seq![' '],
            ),
        ) matches Some(l) && {
            let (instant, nanoseconds) = clock::utc_instant(date + " "@ + time, "%Y-%m-%d %H:%M:%S%.f"@)->0;
            &&& l.timestamp == instant
            &&& l.nanosecond == nanoseconds % 1000
            &&& l.latitude == position[1]
            &&& l.longitude == position[2]
            &&& l.altitude == position[3]
            &&& l.amplitude == strength[1]
            &&& l.lateral_error == number::signed_value(deviation[1])->0
            &&& l.station_count == number::signed_value(stations[1])->0
            &&& l.region == Some(region)
        },
{
    let p = text::join(position, seq![';']);
    let a = text::join(strength, seq![';']);
    let d = text::join(deviation, seq![';']);
    let s = text::join(stations, seq![';']);
    let words = seq![date, time, p, a, d, s];
    lemma_no_space(position, position.len() as int);
    lemma_no_space(strength, strength.len() as int);
    lemma_no_space(deviation, deviation.len() as int);
    lemma_no_space(stations, stations.len() as int);
    text::lemma_pieces_of_join(words, ' ', 6);
    assert(words.take(6) =~= words);
    text::lemma_pieces_of_join(position, ';', position.len() as int);
    text::lemma_pieces_of_join(strength, ';', strength.len() as int);
    text::lemma_pieces_of_join(deviation, ';', deviation.len() as int);
    text::lemma_pieces_of_join(stations, ';', stations.len() as int);
    assert(position.take(position.len() as int) =~= position);
    assert(strength.take(strength.len() as int) =~= strength);
    assert(deviation.take(deviation.len() as int) =~= deviation);
    assert(stations.take(stations.len() as int) =~= stations);
}

/// Whether texts hold neither spaces nor semicolons.
pub open spec fn plain(items: Seq<Seq<char>>) -> bool {
    forall|i: int| 0 <= i < items.len() ==> !(#[trigger] items[i]).contains(' ') && !items[i].contains(';')
}

proof fn lemma_no_space(items: Seq<Seq<char>>, n: int)
    requires
        plain(items),
        0 <= n <= items.len(),
    ensures
        !text::joined(items, seq![';'], n).contains(' '),
    decreases n,
{
    let s = text::joined(items, seq![';'], n);
    if n > 1 {
        lemma_no_space(items, n - 1);
        let before = text::joined(items, seq![';'], n - 1);
        if s.contains(' ') {
            let k = choose|k: int| 0 <= k < s.len() && s[k] == ' ';
            if k < before.len() {
                assert(before[k] == ' ');
            } else if k > before.len() {
                assert(items[n - 1][k - before.len() - 1] == ' ');
            }
            assert(false);
        }
    }
}

} // verus!
