//! Building strikes from log lines and messages.
//!
//! Two input formats are supported:
//!
//! * [`Strike::from_line`] reads the protected-log text format
//!   `<timestamp> pos;lat;lon;alt str;amp dev;error sta;count;mcg;stations`,
//! * [`Strike::from_json`] reads the JSON feed with `lon`, `lat`, `time` (in
//!   nanoseconds), `alt`, `mds` and `region`.
//!
//! The texts of decimal numbers are handed out by [`line_fields`]; the numbers
//! that they write are handed back in.

use vstd::prelude::*;
use vstd::slice::*;
use vstd::string::*;
use vstd::utf8::*;

use crate::clock;
use crate::data;
use crate::data::Timestamp;
use crate::ieee::Real;
use crate::json::{Json, JsonModel};
use crate::number;
use crate::text;

verus! {

/// Why a strike cannot be built.
#[derive(Debug, PartialEq, Eq)]
pub struct BuilderError(pub String);

impl BuilderError {
    /// The message of the error.
    pub fn message(&self) -> (r: &str)
        ensures
            r@ == self.0@,
    {
        self.0.as_str()
    }
}

// ---------------------------------------------------------------------
// ranges
// ---------------------------------------------------------------------

/// `value` moved into the range from `lower` to `upper`.
pub open spec fn clamped(lower: int, value: int, upper: int) -> int {
    if value < lower {
        lower
    } else if value > upper {
        upper
    } else {
        value
    }
}

/// Force `value` into the range from `lower_limit` to `upper_limit`.
pub fn force_range(lower_limit: i64, value: i64, upper_limit: i64) -> (r: i64)
    ensures
        r == clamped(lower_limit as int, value as int, upper_limit as int),
{
    if value < lower_limit {
        lower_limit
    } else if value > upper_limit {
        upper_limit
    } else {
        value
    }
}

/// A forced value lies in its range, and a value of the range is left alone; a
/// value below or above it goes to the bound that it passed.
pub proof fn forced_values_lie_in_range(lower: int, value: int, upper: int)
    requires
        lower <= upper,
    ensures
        lower <= clamped(lower, value, upper) <= upper,
        lower <= value <= upper ==> clamped(lower, value, upper) == value,
        value < lower ==> clamped(lower, value, upper) == lower,
        value > upper ==> clamped(lower, value, upper) == upper,
{
}

// ---------------------------------------------------------------------
// log lines
// ---------------------------------------------------------------------

/// Bytes of the timestamp of a log line.
pub const LINE_TIMESTAMP_LENGTH: usize = 29;

/// Whether a character can stand in a decimal number.
pub open spec fn in_number(c: char) -> bool {
    number::is_digit(c) || c == '.' || c == '-'
}

/// The end of the run of number characters from `i` on.
pub open spec fn number_end(s: Seq<char>, i: int) -> int
    decreases s.len() - i,
{
    if 0 <= i < s.len() && in_number(s[i]) {
        number_end(s, i + 1)
    } else {
        i
    }
}

/// The number characters that a text starts with.
pub open spec fn leading_number(s: Seq<char>) -> Seq<char> {
    s.take(number_end(s, 0))
}

/// The number characters behind the first `marker` at or after `i` that some
/// follow.
pub open spec fn number_from(line: Seq<char>, marker: Seq<char>, i: int) -> Option<Seq<char>>
    decreases line.len() - i,
{
    if i < 0 || i >= line.len() {
        None
    } else {
        let digits = leading_number(line.skip(i + marker.len()));
        if text::occurs_at(line, marker, i) && digits.len() > 0 {
            Some(digits)
        } else {
            number_from(line, marker, i + 1)
        }
    }
}

/// The number characters behind the first `marker` that some follow.
pub open spec fn number_behind(line: Seq<char>, marker: Seq<char>) -> Option<Seq<char>> {
    number_from(line, marker, 0)
}

/// The texts of latitude, longitude and altitude that a text starts with, each
/// of them not empty.
pub open spec fn leading_position(s: Seq<char>) -> Option<(Seq<char>, Seq<char>, Seq<char>)> {
    let parts = text::pieces(s, ';');
    if parts.len() < 3 || parts[0].len() == 0 || parts[1].len() == 0 || leading_number(parts[2]).len() == 0 {
        None
    } else {
        Some((parts[0], parts[1], leading_number(parts[2])))
    }
}

/// The position behind the first marker at or after `i` that one follows.
pub open spec fn position_from(line: Seq<char>, i: int) -> Option<(Seq<char>, Seq<char>, Seq<char>)>
    decreases line.len() - i,
{
    if i < 0 || i >= line.len() {
        None
    } else if text::occurs_at(line, "pos;"@, i) && leading_position(line.skip(i + 4)) is Some {
        leading_position(line.skip(i + 4))
    } else {
        position_from(line, i + 1)
    }
}

/// The texts of latitude, longitude and altitude of a log line: the first
/// complete ones behind a `pos;`.
pub open spec fn position_of(line: Seq<char>) -> Option<(Seq<char>, Seq<char>, Seq<char>)> {
    position_from(line, 0)
}

/// The number that a text with spaces around it writes.
pub open spec fn trimmed_number(s: Seq<char>) -> Option<int> {
    number::within(number::signed_value(text::trim(s)), i64::MIN as int, i64::MAX as int)
}

/// The station count, the maximal circular gap and the station list that a text
/// starts with.
pub open spec fn leading_stations(s: Seq<char>) -> Option<(int, int, Seq<char>)> {
    let parts = text::pieces(s, ';');
    if parts.len() < 3 {
        None
    } else {
        match (trimmed_number(parts[0]), trimmed_number(parts[1])) {
            (Some(count), Some(gap)) => Some((count, gap, parts[2].take(text::first_from(parts[2], ' ', 0)))),
            _ => None,
        }
    }
}

/// The stations behind the first marker at or after `i` that some follow.
pub open spec fn stations_from(line: Seq<char>, i: int) -> Option<(int, int, Seq<char>)>
    decreases line.len() - i,
{
    if i < 0 || i >= line.len() {
        None
    } else if text::occurs_at(line, "sta;"@, i) && leading_stations(line.skip(i + 4)) is Some {
        leading_stations(line.skip(i + 4))
    } else {
        stations_from(line, i + 1)
    }
}

/// The station count, the maximal circular gap and the station list of a log
/// line: the first complete ones behind a `sta;`.
pub open spec fn stations_of(line: Seq<char>) -> Option<(int, int, Seq<char>)> {
    stations_from(line, 0)
}

/// The message of `i64::from_str` about a text.
pub uninterp spec fn integer_fault(s: Seq<char>) -> Seq<char>;

/// `str::parse::<i64>` and the text of its error, empty when there is none.
/// The text is a function of the parsed text; its words are left unsaid.
#[verifier::external_body]
pub(crate) fn integer_fault_text(s: &str) -> (r: String)
    ensures
        r@ == integer_fault(s@),
{
    s.parse::<i64>().err().map(|e| e.to_string()).unwrap_or_default()
}

/// The station numbers in the first `n` parts of a list, empty parts left out.
pub open spec fn station_numbers(parts: Seq<Seq<char>>, n: int) -> Result<Seq<int>, Seq<char>>
    decreases n,
{
    if n <= 0 {
        Ok(Seq::empty())
    } else {
        match station_numbers(parts, n - 1) {
            Err(e) => Err(e),
            Ok(before) => if parts[n - 1].len() == 0 {
                Ok(before)
            } else {
                match number::within(
                    number::signed_value(parts[n - 1]),
                    i64::MIN as int,
                    i64::MAX as int,
                ) {
                    Some(v) => Ok(before.push(v)),
                    None => Err(integer_fault(parts[n - 1])),
                }
            },
        }
    }
}

/// The station numbers of a comma separated list.
pub open spec fn station_list(list: Seq<char>) -> Result<Seq<int>, Seq<char>> {
    let parts = text::pieces(list, ',');
    station_numbers(parts, parts.len() as int)
}

/// The numbers as mathematical integers.
pub open spec fn int_values(v: Seq<i64>) -> Seq<int> {
    v.map_values(|n: i64| n as int)
}

/// The timestamp that a log line starts with; one without an instant when it
/// cannot be read.
pub open spec fn line_timestamp(line: Seq<char>) -> Timestamp {
    let bytes = encode_utf8(line);
    let none = Timestamp { datetime: None, nanosecond: 0 };
    if bytes.len() < LINE_TIMESTAMP_LENGTH || !is_char_boundary(bytes, 29) {
        none
    } else {
        match data::timestamp_parts(decode_utf8(bytes.subrange(0, 29))) {
            Some((instant, nanos)) => if clock::representable(instant) {
                Timestamp { datetime: Some(instant as i64), nanosecond: nanos as i64 }
            } else {
                none
            },
            None => none,
        }
    }
}

/// The text behind the marker, when it stands at `i`.
fn behind_at<'a>(line: &'a [char], marker: &str, i: usize) -> (r: Option<&'a [char]>)
    requires
        i <= line@.len(),
    ensures
        r is Some <==> text::occurs_at(line@, marker@, i as int),
        r matches Some(rest) ==> rest@ == line@.skip(i + marker@.len()),
{
    let pattern = text::chars_of(marker);
    if !text::matches_at(line, pattern.as_slice(), i) {
        return None;
    }
    let n: usize = line.len();
    assert(i + pattern@.len() <= n);
    let rest = slice_subrange(line, i + pattern.len(), n);
    assert(rest@ =~= line@.skip(i + marker@.len()));
    Some(rest)
}

proof fn lemma_number_end(s: Seq<char>, i: int)
    requires
        0 <= i <= s.len(),
    ensures
        i <= number_end(s, i) <= s.len(),
    decreases s.len() - i,
{
    if i < s.len() && in_number(s[i]) {
        lemma_number_end(s, i + 1);
    }
}

fn take_number(s: &[char]) -> (r: &[char])
    ensures
        r@ == leading_number(s@),
{
    let mut i: usize = 0;
    while i < s.len() && (('0' <= s[i] && s[i] <= '9') || s[i] == '.' || s[i] == '-')
        invariant
            i <= s@.len(),
            number_end(s@, 0) == number_end(s@, i as int),
        decreases s@.len() - i,
    {
        i = i + 1;
    }
    let r = slice_subrange(s, 0, i);
    assert(r@ =~= leading_number(s@));
    r
}

fn parse_trimmed(s: &[char]) -> (r: Option<i64>)
    ensures
        r matches Some(v) ==> trimmed_number(s@) == Some(v as int),
        r is None ==> trimmed_number(s@) is None,
{
    number::parse_signed(text::trimmed(s))
}

fn read_position(s: &[char]) -> (r: Option<(String, String, String)>)
    ensures
        r matches Some(p) ==> leading_position(s@) == Some((p.0@, p.1@, p.2@)),
        r is None ==> leading_position(s@) is None,
{
    let parts = text::pieces_of(s, ';');
    assert(text::views(parts@).len() == parts@.len());
    if parts.len() < 3 {
        return None;
    }
    assert(text::views(parts@)[0] == parts@[0]@);
    assert(text::views(parts@)[1] == parts@[1]@);
    assert(text::views(parts@)[2] == parts@[2]@);
    let altitude = take_number(parts[2].as_slice());
    if parts[0].len() == 0 || parts[1].len() == 0 || altitude.len() == 0 {
        return None;
    }
    Some((text::text_of(parts[0].as_slice()), text::text_of(parts[1].as_slice()), text::text_of(altitude)))
}

fn find_position(line: &[char]) -> (r: Option<(String, String, String)>)
    ensures
        r matches Some(p) ==> position_of(line@) == Some((p.0@, p.1@, p.2@)),
        r is None ==> position_of(line@) is None,
{
    proof {
        reveal_strlit("pos;");
    }
    let mut i: usize = 0;
    while i < line.len()
        invariant
            i <= line@.len(),
            "pos;"@.len() == 4,
            position_of(line@) == position_from(line@, i as int),
        decreases line@.len() - i,
    {
        if let Some(rest) = behind_at(line, "pos;", i) {
            let found = read_position(rest);
            if found.is_some() {
                return found;
            }
        }
        i = i + 1;
    }
    None
}

fn find_number(line: &[char], marker: &str) -> (r: Option<String>)
    ensures
        text::opt_text(r) == number_behind(line@, marker@),
{
    let mut i: usize = 0;
    while i < line.len()
        invariant
            i <= line@.len(),
            number_behind(line@, marker@) == number_from(line@, marker@, i as int),
        decreases line@.len() - i,
    {
        if let Some(rest) = behind_at(line, marker, i) {
            let digits = take_number(rest);
            if digits.len() > 0 {
                return Some(text::text_of(digits));
            }
        }
        i = i + 1;
    }
    None
}

fn read_stations(s: &[char]) -> (r: Option<(i64, i64, String)>)
    ensures
        r matches Some(p) ==> leading_stations(s@) == Some((p.0 as int, p.1 as int, p.2@)),
        r is None ==> leading_stations(s@) is None,
{
    let parts = text::pieces_of(s, ';');
    assert(text::views(parts@).len() == parts@.len());
    if parts.len() < 3 {
        return None;
    }
    assert(text::views(parts@)[0] == parts@[0]@);
    assert(text::views(parts@)[1] == parts@[1]@);
    assert(text::views(parts@)[2] == parts@[2]@);
    let list = parts[2].as_slice();
    match (parse_trimmed(parts[0].as_slice()), parse_trimmed(parts[1].as_slice())) {
        (Some(count), Some(gap)) => {
            let end: usize = text::find_from(list, ' ', 0);
            let names = slice_subrange(list, 0, end);
            assert(names@ =~= list@.take(text::first_from(list@, ' ', 0)));
            Some((count, gap, text::text_of(names)))
        },
        _ => None,
    }
}

fn find_stations(line: &[char]) -> (r: Option<(i64, i64, String)>)
    ensures
        r matches Some(p) ==> stations_of(line@) == Some((p.0 as int, p.1 as int, p.2@)),
        r is None ==> stations_of(line@) is None,
{
    proof {
        reveal_strlit("sta;");
    }
    let mut i: usize = 0;
    while i < line.len()
        invariant
            i <= line@.len(),
            "sta;"@.len() == 4,
            stations_of(line@) == stations_from(line@, i as int),
        decreases line@.len() - i,
    {
        if let Some(rest) = behind_at(line, "sta;", i) {
            let found = read_stations(rest);
            if found.is_some() {
                return found;
            }
        }
        i = i + 1;
    }
    None
}

fn parse_stations(list: &str) -> (r: Result<Vec<i64>, String>)
    ensures
        match station_list(list@) {
            Ok(ids) => r matches Ok(v) && int_values(v@) == ids,
            Err(e) => r matches Err(f) && f@ == e,
        },
{
    let chars = text::chars_of(list);
    let parts = text::pieces_of(chars.as_slice(), ',');
    let ghost all = text::views(parts@);
    let mut ids: Vec<i64> = Vec::new();
    let mut i: usize = 0;
    assert(int_values(ids@) =~= Seq::<int>::empty());
    while i < parts.len()
        invariant
            i <= parts@.len(),
            all == text::views(parts@),
            all == text::pieces(list@, ','),
            station_numbers(all, i as int) == Ok::<Seq<int>, Seq<char>>(int_values(ids@)),
        decreases parts@.len() - i,
    {
        let part = parts[i].as_slice();
        assert(all[i as int] == part@);
        if part.len() > 0 {
            match number::parse_signed(part) {
                Some(v) => {
                    let ghost before = ids@;
                    ids.push(v);
                    assert(int_values(ids@) =~= int_values(before).push(v as int));
                },
                None => {
                    let shown = text::text_of(part);
                    proof {
                        lemma_station_fault(all, i + 1, all.len() as int);
                    }
                    return Err(integer_fault_text(shown.as_str()));
                },
            }
        }
        i = i + 1;
    }
    Ok(ids)
}

/// A fault stays the fault of every longer part of the list.
proof fn lemma_station_fault(parts: Seq<Seq<char>>, k: int, n: int)
    requires
        0 <= k <= n,
        station_numbers(parts, k) is Err,
    ensures
        station_numbers(parts, n) == station_numbers(parts, k),
    decreases n - k,
{
    if k < n {
        lemma_station_fault(parts, k, n - 1);
    }
}

fn read_timestamp(line: &str) -> (r: Timestamp)
    ensures
        r == line_timestamp(line@),
        r.wf(),
{
    let n: usize = line.as_bytes().len();
    if n < LINE_TIMESTAMP_LENGTH || !line.is_char_boundary(29) {
        return Timestamp::not_a_time();
    }
    let (head, _rest) = line.split_at(29);
    proof {
        encode_utf8_decode_utf8(head@);
        assert(encode_utf8(head@) =~= encode_utf8(line@).subrange(0, 29));
    }
    match Timestamp::from_timestamp(head) {
        Some(t) => t,
        None => Timestamp::not_a_time(),
    }
}

/// The texts of the decimal numbers of a log line.
#[derive(Debug, PartialEq, Eq)]
pub struct LineFields {
    /// Latitude, longitude and altitude.
    pub position: Option<(String, String, String)>,
    pub amplitude: Option<String>,
    pub deviation: Option<String>,
}

/// Find the texts of the decimal numbers of a log line.
pub fn line_fields(line: &str) -> (r: LineFields)
    ensures
        r.position matches Some(p) ==> position_of(line@) == Some((p.0@, p.1@, p.2@)),
        r.position is None ==> position_of(line@) is None,
        text::opt_text(r.amplitude) == number_behind(line@, "str;"@),
        text::opt_text(r.deviation) == number_behind(line@, "dev;"@),
{
    let chars = text::chars_of(line);
    LineFields {
        position: find_position(chars.as_slice()),
        amplitude: find_number(chars.as_slice(), "str;"),
        deviation: find_number(chars.as_slice(), "dev;"),
    }
}

/// The numbers that the texts of [`LineFields`] write, or why one writes none.
/// Of a text that is missing nothing is read.
#[derive(Debug)]
pub struct LineNumbers {
    pub longitude: Result<Real, String>,
    pub latitude: Result<Real, String>,
    pub altitude: Result<Real, String>,
    pub amplitude: Result<Real, String>,
    pub deviation: Result<Real, String>,
}

/// The numbers of a JSON message, `None` for one that is missing: the
/// coordinates rounded to four decimals, the altitude and the deviation.
#[derive(Debug)]
pub struct MessageNumbers {
    pub longitude: Option<Real>,
    pub latitude: Option<Real>,
    pub altitude: Option<Real>,
    pub deviation: Option<Real>,
}

// ---------------------------------------------------------------------
// the builder
// ---------------------------------------------------------------------

/// Builder of a [`data::Strike`].
#[derive(Debug, Clone)]
pub struct Strike {
    pub id_value: i64,
    pub timestamp: Option<Timestamp>,
    pub x: Option<Real>,
    pub y: Option<Real>,
    pub altitude: Option<Real>,
    pub amplitude: Option<Real>,
    pub lateral_error: Option<i64>,
    pub station_count: Option<i64>,
    pub stations: Vec<i64>,
    pub region: Option<i64>,
}

/// What a builder holds.
pub struct Parts {
    pub id_value: int,
    pub timestamp: Option<Timestamp>,
    pub x: Option<Real>,
    pub y: Option<Real>,
    pub altitude: Option<Real>,
    pub amplitude: Option<Real>,
    pub lateral_error: Option<int>,
    pub station_count: Option<int>,
    pub stations: Seq<int>,
    pub region: Option<int>,
}

/// An optional number as a mathematical integer.
pub open spec fn opt_int(o: Option<i64>) -> Option<int> {
    match o {
        Some(n) => Some(n as int),
        None => None,
    }
}

impl View for Strike {
    type V = Parts;

    open spec fn view(&self) -> Parts {
        Parts {
            id_value: self.id_value as int,
            timestamp: self.timestamp,
            x: self.x,
            y: self.y,
            altitude: self.altitude,
            amplitude: self.amplitude,
            lateral_error: opt_int(self.lateral_error),
            station_count: opt_int(self.station_count),
            stations: int_values(self.stations@),
            region: opt_int(self.region),
        }
    }
}

/// What a new builder holds.
pub open spec fn blank_parts() -> Parts {
    Parts {
        id_value: -1,
        timestamp: None,
        x: None,
        y: None,
        altitude: None,
        amplitude: None,
        lateral_error: None,
        station_count: None,
        stations: Seq::empty(),
        region: None,
    }
}

/// Whether a strike is built of the given parts; coordinates that are not set
/// are zero.
pub open spec fn is_built(parts: Parts, strike: data::Strike) -> bool {
    &&& opt_int(strike.id) == Some(parts.id_value)
    &&& parts.timestamp == Some(strike.timestamp)
    &&& strike.x == (match parts.x {
        Some(x) => x,
        None => Real { bits: 0 },
    })
    &&& strike.y == (match parts.y {
        Some(y) => y,
        None => Real { bits: 0 },
    })
    &&& strike.altitude == parts.altitude
    &&& strike.amplitude == parts.amplitude
    &&& opt_int(strike.lateral_error) == parts.lateral_error
    &&& opt_int(strike.station_count) == parts.station_count
    &&& int_values(strike.stations@) == parts.stations
    &&& opt_int(strike.region) == parts.region
}

/// The lateral error that is kept of a deviation.
pub open spec fn kept_error(deviation: Real) -> int {
    clamped(0, deviation.truncated(), 32767)
}

/// What a builder holds after a log line, and the message of the fault when
/// there is one.  The parts that were read before the fault stay.
pub open spec fn after_line(before: Parts, line: Seq<char>, numbers: LineNumbers) -> (Parts, Option<Seq<char>>) {
    let p1 = Parts { timestamp: Some(line_timestamp(line)), ..before };
    if position_of(line) is None {
        (p1, Some("missing position"@))
    } else {
        match numbers.longitude {
            Err(e) => (p1, Some(e@)),
            Ok(x) => {
                let p2 = Parts { x: Some(x), ..p1 };
                match numbers.latitude {
                    Err(e) => (p2, Some(e@)),
                    Ok(y) => {
                        let p3 = Parts { y: Some(y), ..p2 };
                        match numbers.altitude {
                            Err(e) => (p3, Some(e@)),
                            Ok(altitude) => after_position(
                                Parts { altitude: Some(altitude), ..p3 },
                                line,
                                numbers,
                            ),
                        }
                    },
                }
            },
        }
    }
}

/// The part of [`after_line`] behind the position.
pub open spec fn after_position(p4: Parts, line: Seq<char>, numbers: LineNumbers) -> (Parts, Option<Seq<char>>) {
    if number_behind(line, "str;"@) is None {
        (p4, Some("missing amplitude"@))
    } else {
        match numbers.amplitude {
            Err(e) => (p4, Some(e@)),
            Ok(amplitude) => {
                let p5 = Parts { amplitude: Some(amplitude), ..p4 };
                if number_behind(line, "dev;"@) is None {
                    (p5, Some("missing deviation"@))
                } else {
                    match numbers.deviation {
                        Err(e) => (p5, Some(e@)),
                        Ok(deviation) => after_deviation(
                            Parts { lateral_error: Some(kept_error(deviation)), ..p5 },
                            line,
                        ),
                    }
                }
            },
        }
    }
}

/// The part of [`after_line`] behind the deviation.
pub open spec fn after_deviation(p6: Parts, line: Seq<char>) -> (Parts, Option<Seq<char>>) {
    match stations_of(line) {
        None => (p6, Some("missing stations"@)),
        Some((count, _, list)) => {
            let p7 = Parts { station_count: Some(count), ..p6 };
            match station_list(list) {
                Err(e) => (p7, Some(e)),
                Ok(ids) => (Parts { stations: ids, ..p7 }, None),
            }
        },
    }
}

/// The time of a message, in nanoseconds.
pub open spec fn message_time(message: JsonModel) -> Option<int> {
    integer_member(message, "time"@)
}

/// The member with the given name, when it is an `i64`.
pub open spec fn integer_member(message: JsonModel, name: Seq<char>) -> Option<int> {
    match message.member(name) {
        Some(JsonModel::Int(n)) => number::within(Some(n), i64::MIN as int, i64::MAX as int),
        _ => None,
    }
}

/// What a builder holds after a message, and the message of the fault when
/// there is one; a faulty message changes nothing.
pub open spec fn after_message(before: Parts, message: JsonModel, numbers: MessageNumbers) -> (
    Parts,
    Option<Seq<char>>,
) {
    let zero = Real { bits: 0 };
    match (numbers.longitude, numbers.latitude, message_time(message)) {
        (None, _, _) => (before, Some("missing lon"@)),
        (_, None, _) => (before, Some("missing lat"@)),
        (_, _, None) => (before, Some("missing time"@)),
        (Some(x), Some(y), Some(time)) => (
            Parts {
                x: Some(x),
                y: Some(y),
                timestamp: Some(
                    Timestamp { datetime: Some((time / 1000) as i64), nanosecond: (time % 1000) as i64 },
                ),
                altitude: Some(
                    match numbers.altitude {
                        Some(a) => a,
                        None => zero,
                    },
                ),
                amplitude: Some(zero),
                lateral_error: Some(
                    kept_error(
                        match numbers.deviation {
                            Some(d) => d,
                            None => zero,
                        },
                    ),
                ),
                station_count: Some(0),
                region: integer_member(message, "region"@),
                ..before
            },
            None,
        ),
    }
}

fn read_integer(message: &Json, name: &str) -> (r: Option<i64>)
    ensures
        r matches Some(n) ==> integer_member(message@, name@) == Some(n as int),
        r is None ==> integer_member(message@, name@) is None,
{
    match message.get(name) {
        Some(Json::Int(n)) => Some(*n),
        Some(Json::UInt(n)) => if *n <= i64::MAX as u64 {
            Some(*n as i64)
        } else {
            None
        },
        _ => None,
    }
}

impl Strike {
    /// A builder without any part; the id is `-1`.
    pub fn new() -> (r: Strike)
        ensures
            r@ == blank_parts(),
    {
        let stations: Vec<i64> = Vec::new();
        assert(int_values(stations@) =~= Seq::<int>::empty());
        Strike {
            id_value: -1,
            timestamp: None,
            x: None,
            y: None,
            altitude: None,
            amplitude: None,
            lateral_error: None,
            station_count: None,
            stations,
            region: None,
        }
    }

    /// Set the id.
    pub fn set_id(&mut self, id_value: i64)
        ensures
            final(self)@ == (Parts { id_value: id_value as int, ..old(self)@ }),
    {
        self.id_value = id_value;
    }

    /// Set the timestamp.
    pub fn set_timestamp(&mut self, timestamp: Timestamp)
        ensures
            final(self)@ == (Parts { timestamp: Some(timestamp), ..old(self)@ }),
    {
        self.timestamp = Some(timestamp);
    }

    /// Set the longitude.
    pub fn set_x(&mut self, x: Real)
        ensures
            final(self)@ == (Parts { x: Some(x), ..old(self)@ }),
    {
        self.x = Some(x);
    }

    /// Set the latitude.
    pub fn set_y(&mut self, y: Real)
        ensures
            final(self)@ == (Parts { y: Some(y), ..old(self)@ }),
    {
        self.y = Some(y);
    }

    /// Set the altitude.
    pub fn set_altitude(&mut self, altitude: Real)
        ensures
            final(self)@ == (Parts { altitude: Some(altitude), ..old(self)@ }),
    {
        self.altitude = Some(altitude);
    }

    /// Set the amplitude.
    pub fn set_amplitude(&mut self, amplitude: Real)
        ensures
            final(self)@ == (Parts { amplitude: Some(amplitude), ..old(self)@ }),
    {
        self.amplitude = Some(amplitude);
    }

    /// Set the lateral error, rounded toward zero and forced into `0..=32767`.
    pub fn set_lateral_error(&mut self, lateral_error: Real)
        ensures
            final(self)@ == (Parts { lateral_error: Some(kept_error(lateral_error)), ..old(self)@ }),
    {
        self.lateral_error = Some(force_range(0, lateral_error.to_i64(), 32767));
    }

    /// Set the number of stations.
    pub fn set_station_count(&mut self, station_count: i64)
        ensures
            final(self)@ == (Parts { station_count: Some(station_count as int), ..old(self)@ }),
    {
        self.station_count = Some(station_count);
    }

    /// Set the stations that took part.
    pub fn set_stations(&mut self, stations: Vec<i64>)
        ensures
            final(self)@ == (Parts { stations: int_values(stations@), ..old(self)@ }),
    {
        self.stations = stations;
    }

    /// Set the region.
    pub fn set_region(&mut self, region: Option<i64>)
        ensures
            final(self)@ == (Parts { region: opt_int(region), ..old(self)@ }),
    {
        self.region = region;
    }

    /// Read a log line, given the numbers that its [`line_fields`] write.
    pub fn from_line(&mut self, line: &str, numbers: &LineNumbers) -> (r: Result<(), BuilderError>)
        ensures
            final(self)@ == after_line(old(self)@, line@, *numbers).0,
            match after_line(old(self)@, line@, *numbers).1 {
                None => r is Ok,
                Some(message) => r matches Err(e) && e.0@ == message,
            },
    {
        let chars = text::chars_of(line);
        self.set_timestamp(read_timestamp(line));
        if find_position(chars.as_slice()).is_none() {
            return Err(BuilderError(String::from_str("missing position")));
        }
        match &numbers.longitude {
            Ok(x) => self.set_x(*x),
            Err(e) => {
                return Err(BuilderError(e.clone()));
            },
        }
        match &numbers.latitude {
            Ok(y) => self.set_y(*y),
            Err(e) => {
                return Err(BuilderError(e.clone()));
            },
        }
        match &numbers.altitude {
            Ok(altitude) => self.set_altitude(*altitude),
            Err(e) => {
                return Err(BuilderError(e.clone()));
            },
        }
        if find_number(chars.as_slice(), "str;").is_none() {
            return Err(BuilderError(String::from_str("missing amplitude")));
        }
        match &numbers.amplitude {
            Ok(amplitude) => self.set_amplitude(*amplitude),
            Err(e) => {
                return Err(BuilderError(e.clone()));
            },
        }
        if find_number(chars.as_slice(), "dev;").is_none() {
            return Err(BuilderError(String::from_str("missing deviation")));
        }
        match &numbers.deviation {
            Ok(deviation) => self.set_lateral_error(*deviation),
            Err(e) => {
                return Err(BuilderError(e.clone()));
            },
        }
        match find_stations(chars.as_slice()) {
            None => Err(BuilderError(String::from_str("missing stations"))),
            Some((count, _gap, list)) => {
                self.set_station_count(count);
                match parse_stations(list.as_str()) {
                    Err(e) => Err(BuilderError(e)),
                    Ok(ids) => {
                        self.set_stations(ids);
                        Ok(())
                    },
                }
            },
        }
    }

    /// Read a JSON message, given its decimal numbers.
    pub fn from_json(&mut self, message: &Json, numbers: &MessageNumbers) -> (r: Result<(), BuilderError>)
        ensures
            final(self)@ == after_message(old(self)@, message@, *numbers).0,
            match after_message(old(self)@, message@, *numbers).1 {
                None => r is Ok,
                Some(text) => r matches Err(e) && e.0@ == text,
            },
    {
        let x = match numbers.longitude {
            Some(x) => x,
            None => {
                return Err(BuilderError(String::from_str("missing lon")));
            },
        };
        let y = match numbers.latitude {
            Some(y) => y,
            None => {
                return Err(BuilderError(String::from_str("missing lat")));
            },
        };
        let time: i64 = match read_integer(message, "time") {
            Some(time) => time,
            None => {
                return Err(BuilderError(String::from_str("missing time")));
            },
        };
        let zero = Real::from_bits(0);
        self.set_x(x);
        self.set_y(y);
        let (datetime, nanosecond) = Timestamp::from_nanoseconds(time);
        self.set_timestamp(Timestamp { datetime: Some(datetime), nanosecond });
        self.set_altitude(
            match numbers.altitude {
                Some(a) => a,
                None => zero,
            },
        );
        self.set_amplitude(zero);
        self.set_lateral_error(
            match numbers.deviation {
                Some(d) => d,
                None => zero,
            },
        );
        self.set_station_count(0);
        self.set_region(read_integer(message, "region"));
        Ok(())
    }

    /// Build the strike; a timestamp is required, and a coordinate that was not
    /// set is zero.
    pub fn build(&self) -> (r: Result<data::Strike, BuilderError>)
        ensures
            match self@.timestamp {
                None => r matches Err(e) && e.0@ == "Timestamp not set"@,
                Some(_) => r matches Ok(s) && is_built(self@, s),
            },
    {
        let timestamp = match self.timestamp {
            Some(t) => t,
            None => {
                return Err(BuilderError(String::from_str("Timestamp not set")));
            },
        };
        let zero = Real::from_bits(0);
        let stations: Vec<i64> = slice_to_vec(self.stations.as_slice());
        Ok(
            data::Strike::new(
                Some(self.id_value),
                timestamp,
                match self.x {
                    Some(x) => x,
                    None => zero,
                },
                match self.y {
                    Some(y) => y,
                    None => zero,
                },
                self.altitude,
                self.amplitude,
                self.lateral_error,
                self.station_count,
                stations,
                self.region,
            ),
        )
    }
}

/// The strike of a log line.
pub fn build_strike_from_line(line: &str, numbers: &LineNumbers) -> (r: Result<data::Strike, BuilderError>)
    ensures
        match after_line(blank_parts(), line@, *numbers) {
            (parts, None) => r matches Ok(s) && is_built(parts, s),
            (_, Some(message)) => r matches Err(e) && e.0@ == message,
        },
{
    let mut builder = Strike::new();
    match builder.from_line(line, numbers) {
        Ok(_) => builder.build(),
        Err(e) => Err(e),
    }
}

/// The strike of a message.
pub fn build_strike_from_message(message: &Json, numbers: &MessageNumbers) -> (r: Result<data::Strike, BuilderError>)
    ensures
        match after_message(blank_parts(), message@, *numbers) {
            (parts, None) => r matches Ok(s) && is_built(parts, s),
            (_, Some(text)) => r matches Err(e) && e.0@ == text,
        },
{
    let mut builder = Strike::new();
    match builder.from_json(message, numbers) {
        Ok(_) => builder.build(),
        Err(e) => Err(e),
    }
}

/// The lateral error of a strike that was read lies in `0..=32767`.
pub proof fn kept_errors_are_in_range(deviation: Real)
    ensures
        0 <= kept_error(deviation) <= 32767,
{
}

/// A message that is a strike has its values: the time, in nanoseconds, the
/// longitude and the latitude, the altitude and the deviation, in whole units
/// up to the greatest that is kept, and the region.
pub proof fn messages_give_their_values(before: Parts, message: JsonModel, numbers: MessageNumbers)
    requires
        after_message(before, message, numbers).1 is None,
    ensures
        ({
            let parts = after_message(before, message, numbers).0;
            let time = message.member("time"@);
            &&& time is Some && time->0 is Int
            &&& parts.timestamp matches Some(t) && (t.datetime matches Some(m) && m * 1000 + t.nanosecond == time->0->Int_0
                && 0 <= t.nanosecond <= 999)
            &&& parts.x is Some && parts.x == numbers.longitude
            &&& parts.y is Some && parts.y == numbers.latitude
            &&& numbers.altitude is Some ==> parts.altitude == numbers.altitude
            &&& numbers.altitude is None ==> parts.altitude == Some(Real { bits: 0 })
            &&& parts.amplitude == Some(Real { bits: 0 })
            &&& parts.station_count == Some(0int)
            &&& numbers.deviation matches Some(d) ==> (parts.lateral_error matches Some(e) && 0 <= e <= 32767 && (0
                <= d.truncated() <= 32767 ==> e == d.truncated()) && (d.truncated() < 0 ==> e == 0) && (d.truncated()
                > 32767 ==> e == 32767))
            &&& parts.region matches Some(r) ==> message.member("region"@) == Some(JsonModel::Int(r))
            &&& match message.member("region"@) {
                Some(JsonModel::Int(r)) => i64::MIN <= r <= i64::MAX ==> parts.region == Some(r),
                _ => parts.region is None,
            }
            &&& parts.id_value == before.id_value && parts.stations == before.stations
        }),
{
}

/// A message is a strike when it has a longitude, a latitude and a time.
pub proof fn messages_with_place_and_time_are_strikes(before: Parts, message: JsonModel, numbers: MessageNumbers)
    ensures
        after_message(before, message, numbers).1 is None <==> numbers.longitude is Some && numbers.latitude is Some && (
        message.member("time"@) matches Some(JsonModel::Int(t)) && i64::MIN <= t <= i64::MAX),
        after_message(before, message, numbers).1 is Some ==> after_message(before, message, numbers).0 == before,
{
}

/// A log line that is a strike has its values: the numbers of the position, the
/// amplitude and the deviation each stand in their own field.
pub proof fn lines_give_their_values(before: Parts, line: Seq<char>, numbers: LineNumbers)
    requires
        after_line(before, line, numbers).1 is None,
    ensures
        ({
            let parts = after_line(before, line, numbers).0;
            &&& numbers.longitude matches Ok(x) && parts.x == Some(x)
            &&& numbers.latitude matches Ok(y) && parts.y == Some(y)
            &&& numbers.altitude matches Ok(h) && parts.altitude == Some(h)
            &&& numbers.amplitude matches Ok(a) && parts.amplitude == Some(a)
            &&& numbers.deviation matches Ok(d) && (parts.lateral_error matches Some(e) && 0 <= e <= 32767 && (0
                <= d.truncated() <= 32767 ==> e == d.truncated()) && (d.truncated() < 0 ==> e == 0) && (d.truncated()
                > 32767 ==> e == 32767))
            &&& parts.timestamp == Some(line_timestamp(line))
            &&& position_of(line) is Some
            &&& number_behind(line, "str;"@) is Some
            &&& number_behind(line, "dev;"@) is Some
            &&& stations_of(line) matches Some((count, gap, list)) && parts.station_count == Some(count) && (
            station_list(list) matches Ok(ids) && parts.stations == ids)
            &&& parts.id_value == before.id_value && parts.region == before.region
        }),
{
}

/// Whether a text is a run of digits, points and minus signs.
pub open spec fn is_figure(s: Seq<char>) -> bool {
    s.len() > 0 && forall|i: int|
        0 <= i < s.len() ==> ('0' <= #[trigger] s[i] && s[i] <= '9') || s[i] == '.' || s[i] == '-'
}

/// Whether a figure ends before a text.
pub open spec fn ends_figure(after: Seq<char>) -> bool {
    after.len() == 0 || !(('0' <= after[0] && after[0] <= '9') || after[0] == '.' || after[0] == '-')
}

/// Whether a marker stands nowhere in a line before the position `n`.
pub open spec fn first_at(line: Seq<char>, marker: Seq<char>, n: int) -> bool {
    forall|i: int| 0 <= i < n ==> !(#[trigger] line.subrange(i, i + marker.len()) == marker && i + marker.len() <= line.len())
}

/// The figure behind a marker is what is read.
pub proof fn the_figure_behind_a_marker_is_read(
    before: Seq<char>,
    marker: Seq<char>,
    figure: Seq<char>,
    after: Seq<char>,
)
    requires
        marker.len() > 0,
        is_figure(figure),
        ends_figure(after),
        first_at(before + marker + figure + after, marker, before.len() as int),
    ensures
        number_behind(before + marker + figure + after, marker) == Some(figure),
{
    let line = before + marker + figure + after;
    let k = before.len() as int;
    assert(line.subrange(k, k + marker.len()) =~= marker);
    let rest = line.skip(k + marker.len());
    assert(rest =~= figure + after);
    lemma_leading(figure, after);
    lemma_number_found(line, marker, 0, k);
}

proof fn lemma_leading(figure: Seq<char>, after: Seq<char>)
    requires
        forall|i: int| 0 <= i < figure.len() ==> in_number(#[trigger] figure[i]),
        after.len() == 0 || !in_number(after[0]),
    ensures
        leading_number(figure + after) == figure,
{
    lemma_run(figure + after, 0, figure.len() as int);
    assert((figure + after).take(figure.len() as int) =~= figure);
}

proof fn lemma_run(s: Seq<char>, i: int, n: int)
    requires
        0 <= i <= n <= s.len(),
        forall|j: int| i <= j < n ==> in_number(#[trigger] s[j]),
        n < s.len() ==> !in_number(s[n]),
    ensures
        number_end(s, i) == n,
    decreases n - i,
{
    if i < n {
        lemma_run(s, i + 1, n);
    }
}

proof fn lemma_number_found(line: Seq<char>, marker: Seq<char>, i: int, k: int)
    requires
        0 <= i <= k < line.len(),
        first_at(line, marker, k),
        text::occurs_at(line, marker, k),
        leading_number(line.skip(k + marker.len())).len() > 0,
    ensures
        number_from(line, marker, i) == Some(leading_number(line.skip(k + marker.len()))),
    decreases k - i,
{
    if i < k {
        assert(!(line.subrange(i, i + marker.len()) == marker && i + marker.len() <= line.len()));
        lemma_number_found(line, marker, i + 1, k);
    }
}

/// The position of a line is latitude, longitude and altitude, in this order,
/// behind `pos;` and between semicolons.
pub proof fn positions_are_latitude_longitude_altitude(
    before: Seq<char>,
    latitude: Seq<char>,
    longitude: Seq<char>,
    altitude: Seq<char>,
    after: Seq<char>,
)
    requires
        latitude.len() > 0 && !latitude.contains(';'),
        longitude.len() > 0 && !longitude.contains(';'),
        is_figure(altitude),
        ends_figure(after),
        first_at(
            before + "pos;"@ + latitude + ";"@ + longitude + ";"@ + altitude + after,
            "pos;"@,
            before.len() as int,
        ),
    ensures
        position_of(before + "pos;"@ + latitude + ";"@ + longitude + ";"@ + altitude + after) == Some(
            (latitude, longitude, altitude),
        ),
{
    reveal_strlit("pos;");
    reveal_strlit(";");
    let line = before + "pos;"@ + latitude + ";"@ + longitude + ";"@ + altitude + after;
    let k = before.len() as int;
    let rest = line.skip(k + 4);
    assert(rest =~= latitude + seq![';'] + (longitude + seq![';'] + (altitude + after)));
    lemma_first_piece(latitude, longitude + seq![';'] + (altitude + after));
    lemma_first_piece(longitude, altitude + after);
    let tail = altitude + after;
    let last = text::pieces(tail, ';')[0];
    let e = text::first_from(tail, ';', 0);
    text::lemma_first_from(tail, ';', 0);
    assert(last =~= tail.take(e));
    assert(e >= altitude.len()) by {
        if e < altitude.len() {
            assert(tail[e] == altitude[e]);
        }
    }
    let left = after.take(e - altitude.len());
    assert(last =~= altitude + left);
    lemma_leading(altitude, left);
    let parts = text::pieces(rest, ';');
    assert(parts[0] == latitude && parts[1] == longitude && parts[2] == last);
    assert(line.subrange(k, k + 4) =~= "pos;"@);
    lemma_position_found(line, 0, k);
}

/// The piece before the first semicolon, and the pieces behind it.
proof fn lemma_first_piece(a: Seq<char>, rest: Seq<char>)
    requires
        !a.contains(';'),
    ensures
        text::pieces(a + seq![';'] + rest, ';') == seq![a] + text::pieces(rest, ';'),
{
    let s = a + seq![';'] + rest;
    let n = a.len() as int;
    assert forall|j: int| 0 <= j < n implies s[j] != ';' by {
        assert(s[j] == a[j]);
    }
    text::lemma_first_from_is(s, ';', 0, n);
    assert(s.subrange(0, n) =~= a);
    lemma_pieces_skip(a + seq![';'], rest, 0);
}

/// The pieces of the end of a text are those of the end alone.
proof fn lemma_pieces_skip(a: Seq<char>, b: Seq<char>, i: int)
    requires
        0 <= i <= b.len(),
    ensures
        text::pieces_from(a + b, ';', a.len() + i) == text::pieces_from(b, ';', i),
    decreases b.len() - i,
{
    let s = a + b;
    let n = a.len() as int;
    let e = text::first_from(b, ';', i);
    text::lemma_first_from(b, ';', i);
    assert forall|j: int| n + i <= j < n + e implies s[j] != ';' by {
        assert(s[j] == b[j - n]);
    }
    text::lemma_first_from_is(s, ';', n + i, n + e);
    assert(s.subrange(n + i, n + e) =~= b.subrange(i, e));
    if e < b.len() {
        lemma_pieces_skip(a, b, e + 1);
    }
}

proof fn lemma_position_found(line: Seq<char>, i: int, k: int)
    requires
        0 <= i <= k < line.len(),
        first_at(line, "pos;"@, k),
        text::occurs_at(line, "pos;"@, k),
        "pos;"@.len() == 4,
        leading_position(line.skip(k + 4)) is Some,
    ensures
        position_from(line, i) == leading_position(line.skip(k + 4)),
    decreases k - i,
{
    if i < k {
        assert(!(line.subrange(i, i + 4) == "pos;"@ && i + 4 <= line.len()));
        lemma_position_found(line, i + 1, k);
    }
}

/// The stations of a line are their count, the maximal gap and the list, behind
/// `sta;` and between semicolons; the list ends at a space.
pub proof fn stations_are_count_gap_and_list(
    before: Seq<char>,
    count: Seq<char>,
    gap: Seq<char>,
    list: Seq<char>,
    after: Seq<char>,
)
    requires
        !count.contains(';') && !gap.contains(';'),
        !list.contains(';') && !list.contains(' '),
        after.len() == 0 || after[0] == ' ',
        trimmed_number(count) is Some,
        trimmed_number(gap) is Some,
        first_at(before + "sta;"@ + count + ";"@ + gap + ";"@ + list + after, "sta;"@, before.len() as int),
    ensures
        stations_of(before + "sta;"@ + count + ";"@ + gap + ";"@ + list + after) == Some(
            (trimmed_number(count)->0, trimmed_number(gap)->0, list),
        ),
{
    reveal_strlit("sta;");
    reveal_strlit(";");
    let line = before + "sta;"@ + count + ";"@ + gap + ";"@ + list + after;
    let k = before.len() as int;
    let rest = line.skip(k + 4);
    assert(rest =~= count + seq![';'] + (gap + seq![';'] + (list + after)));
    lemma_first_piece(count, gap + seq![';'] + (list + after));
    lemma_first_piece(gap, list + after);
    let tail = list + after;
    let last = text::pieces(tail, ';')[0];
    let e = text::first_from(tail, ';', 0);
    text::lemma_first_from(tail, ';', 0);
    assert(last =~= tail.take(e));
    assert(e >= list.len()) by {
        if e < list.len() {
            assert(tail[e] == list[e]);
        }
    }
    assert forall|j: int| 0 <= j < list.len() implies last[j] != ' ' by {
        assert(last[j] == list[j]);
    }
    assert(list.len() < last.len() ==> last[list.len() as int] == after[0]);
    text::lemma_first_from_is(last, ' ', 0, list.len() as int);
    assert(last.take(list.len() as int) =~= list);
    let parts = text::pieces(rest, ';');
    assert(parts[0] == count && parts[1] == gap && parts[2] == last);
    assert(line.subrange(k, k + 4) =~= "sta;"@);
    lemma_stations_found(line, 0, k);
}

proof fn lemma_stations_found(line: Seq<char>, i: int, k: int)
    requires
        0 <= i <= k < line.len(),
        first_at(line, "sta;"@, k),
        text::occurs_at(line, "sta;"@, k),
        "sta;"@.len() == 4,
        leading_stations(line.skip(k + 4)) is Some,
    ensures
        stations_from(line, i) == leading_stations(line.skip(k + 4)),
    decreases k - i,
{
    if i < k {
        assert(!(line.subrange(i, i + 4) == "sta;"@ && i + 4 <= line.len()));
        lemma_stations_found(line, i + 1, k);
    }
}

/// The decimal texts of numbers.
pub open spec fn decimals(ids: Seq<nat>) -> Seq<Seq<char>> {
    ids.map_values(|n: nat| number::decimal(n))
}

/// A list of station numbers between commas reads back as it was.
pub proof fn station_lists_read_back(ids: Seq<nat>)
    requires
        ids.len() > 0,
        forall|i: int| 0 <= i < ids.len() ==> #[trigger] ids[i] <= i64::MAX,
    ensures
        station_list(text::join(decimals(ids), seq![','])) == Ok::<Seq<int>, Seq<char>>(
            ids.map_values(|n: nat| n as int),
        ),
{
    let items = decimals(ids);
    let n = ids.len() as int;
    assert forall|i: int| 0 <= i < n implies !(#[trigger] items[i]).contains(',') by {
        number::lemma_decimal_reads_back(ids[i]);
        let d = items[i];
        if d.contains(',') {
            let j = choose|j: int| 0 <= j < d.len() && d[j] == ',';
            assert(number::is_digit(d[j]));
        }
    }
    text::lemma_pieces_of_join(items, ',', n);
    assert(items.take(n) =~= items);
    lemma_stations_read(ids, n);
    assert(ids.take(n) =~= ids);
}

proof fn lemma_stations_read(ids: Seq<nat>, n: int)
    requires
        0 <= n <= ids.len(),
        forall|i: int| 0 <= i < ids.len() ==> #[trigger] ids[i] <= i64::MAX,
    ensures
        station_numbers(decimals(ids), n) == Ok::<Seq<int>, Seq<char>>(ids.take(n).map_values(|k: nat| k as int)),
    decreases n,
{
    if n > 0 {
        lemma_stations_read(ids, n - 1);
        let d = decimals(ids)[n - 1];
        number::lemma_decimal_reads_back(ids[n - 1]);
        assert(number::is_digit(d[0]));
        assert(number::signed_value(d) == Some(ids[n - 1] as int));
        assert(ids.take(n).map_values(|k: nat| k as int) =~= ids.take(n - 1).map_values(|k: nat| k as int).push(
            ids[n - 1] as int,
        ));
    } else {
        assert(ids.take(0).map_values(|k: nat| k as int) =~= Seq::<int>::empty());
    }
}

/// A built strike has the parts that it was built of, each in its own field.
pub proof fn built_strikes_have_their_parts(parts: Parts, strike: data::Strike)
    requires
        is_built(parts, strike),
    ensures
        parts.timestamp == Some(strike.timestamp),
        parts.x matches Some(x) ==> strike.x == x,
        parts.y matches Some(y) ==> strike.y == y,
        parts.altitude == strike.altitude,
        parts.amplitude == strike.amplitude,
        parts.lateral_error matches Some(e) ==> (strike.lateral_error matches Some(n) && n == e),
        parts.station_count matches Some(c) ==> (strike.station_count matches Some(n) && n == c),
        parts.region matches Some(r) ==> (strike.region matches Some(n) && n == r),
        parts.region is None ==> strike.region is None,
        strike.id matches Some(n) && n == parts.id_value,
        strike.stations@.len() == parts.stations.len(),
        forall|i: int| 0 <= i < parts.stations.len() ==> #[trigger] strike.stations@[i] == parts.stations[i],
{
    assert forall|i: int| 0 <= i < parts.stations.len() implies #[trigger] strike.stations@[i] == parts.stations[i] by {
        assert(int_values(strike.stations@)[i] == parts.stations[i]);
    }
}

/// A line of ASCII characters starts with its timestamp of 29 characters,
/// whatever follows; a shorter line has none.
pub proof fn lines_start_with_their_timestamp(line: Seq<char>, instant: int, nanos: int)
    requires
        is_ascii_chars(line),
        line.len() >= 29,
        data::timestamp_parts(line.take(29)) == Some((instant, nanos)),
        clock::representable(instant),
        0 <= nanos <= 999,
    ensures
        line_timestamp(line).datetime == Some(instant as i64),
        line_timestamp(line).nanosecond == nanos,
        line_timestamp(line.take(28)).datetime is None,
{
    data::lemma_ascii_cut(line, 29);
    encode_utf8_decode_utf8(line.take(29));
    assert forall|i: int| 0 <= i < 28 implies '\0' <= #[trigger] line.take(28)[i] <= '\u{7f}' by {
        assert(line.take(28)[i] == line[i]);
    }
    is_ascii_chars_encode_utf8(line.take(28));
}

} // verus!
