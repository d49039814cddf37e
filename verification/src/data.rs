//! Strikes, their timestamps, and grid data.

use std::cmp::Ordering;

use vstd::prelude::*;
use vstd::slice::*;
use vstd::std_specs::cmp::PartialOrdSpecImpl;
use vstd::string::*;
use vstd::utf8::*;

use crate::clock;
use crate::decimal;
use crate::geom::Grid;
use crate::ieee::Real;
use crate::number;
use crate::text;

verus! {

/// A timestamp with nanosecond precision.
///
/// It combines an instant in microseconds with a separate nanosecond
/// remainder.  A timestamp without an instant is not valid.
#[derive(Debug, Clone, Copy, PartialEq, Eq, Structural)]
pub struct Timestamp {
    /// Microseconds since the epoch.
    pub datetime: Option<i64>,
    /// Nanosecond remainder.
    pub nanosecond: i64,
}

/// Texts longer than this carry a fraction of a second.
pub const MINIMAL_FRACTIONAL_SECONDS_LENGTH: usize = 20;

/// Length of a text with a fraction of microseconds.
pub const MICROSECONDS_LENGTH: usize = 26;

/// Start of the year 1901.
pub const FIRST_VALID_INSTANT: i64 = -2_177_452_800_000_000;

/// Format of the date and the time of a timestamp.
pub const TIMESTAMP_FORMAT: &'static str = "%Y-%m-%d %H:%M:%S";

/// The nanoseconds that the text behind the microseconds writes: its number
/// times `10^(3 - length)`, in double precision and rounded toward zero.
pub open spec fn tail_nanoseconds(tail: Seq<char>) -> Option<int> {
    if tail.len() == 0 {
        Some(0)
    } else {
        decimal::scaled(tail, 3 - tail.len())
    }
}

/// The microseconds that a point and six digits write.
pub open spec fn fraction_microseconds(s: Seq<char>) -> Option<int> {
    if s.len() == 7 && s[0] == '.' && number::all_digits(s.skip(1)) {
        Some(number::digits_value(s.skip(1)))
    } else {
        None
    }
}

/// Whether a text of at least 26 bytes can be cut behind 19 and 26 bytes.
pub open spec fn can_be_cut(bytes: Seq<u8>) -> bool {
    bytes.len() >= MICROSECONDS_LENGTH && is_char_boundary(bytes, 26) && is_char_boundary(bytes.subrange(0, 26), 19)
}

/// The instant and the nanoseconds that a text writes as
/// `%Y-%m-%d %H:%M:%S[.fraction]` in UTC.
pub open spec fn timestamp_parts(s: Seq<char>) -> Option<(int, int)> {
    let bytes = encode_utf8(s);
    if bytes.len() > MINIMAL_FRACTIONAL_SECONDS_LENGTH {
        if !can_be_cut(bytes) {
            None
        } else {
            match (
                clock::utc_instant(decode_utf8(bytes.subrange(0, 19)), TIMESTAMP_FORMAT@),
                fraction_microseconds(decode_utf8(bytes.subrange(19, 26))),
                tail_nanoseconds(decode_utf8(bytes.subrange(26, bytes.len() as int))),
            ) {
                (Some(instant), Some(micros), Some(nanos)) => Some((instant.0 + micros, nanos)),
                _ => None,
            }
        }
    } else {
        match clock::utc_instant(s, TIMESTAMP_FORMAT@) {
            Some(instant) => Some((instant.0, 0)),
            None => None,
        }
    }
}

fn parse_tail(tail: &[char]) -> (r: Option<i64>)
    ensures
        r matches Some(n) ==> tail_nanoseconds(tail@) == Some(n as int),
        r is None ==> tail_nanoseconds(tail@) is None,
{
    let n: usize = tail.len();
    if n == 0 {
        return Some(0);
    }
    let power: i64 = if n > 1000 {
        -997
    } else {
        3 - n as i64
    };
    assert(decimal::power_of_ten(power as int) == decimal::power_of_ten(3 - n));
    decimal::scaled_of(tail, power)
}

fn parse_fraction(s: &[char]) -> (r: Option<i64>)
    ensures
        r matches Some(n) ==> fraction_microseconds(s@) == Some(n as int) && 0 <= n <= 999_999,
        r is None ==> fraction_microseconds(s@) is None,
{
    if s.len() != 7 || s[0] != '.' {
        return None;
    }
    let digits = slice_subrange(s, 1, 7);
    assert(digits@ =~= s@.skip(1));
    proof {
        if number::all_digits(digits@) {
            lemma_six_digits(digits@);
        }
    }
    match number::parse_natural(digits, 999_999) {
        Some(n) => Some(n as i64),
        None => None,
    }
}

proof fn lemma_six_digits(s: Seq<char>)
    requires
        s.len() == 6,
        number::all_digits(s),
    ensures
        0 <= number::digits_value(s) <= 999_999,
{
    reveal_with_fuel(number::digits_value, 7);
    assert forall|i: int| 0 <= i < s.len() implies 0 <= number::digit_value(#[trigger] s[i]) <= 9 by {
        assert(number::is_digit(s[i]));
    }
}

impl Timestamp {
    /// Whether the instant lies in the range of the calendar.
    pub open spec fn wf(self) -> bool {
        self.datetime matches Some(m) ==> clock::representable(m as int)
    }

    /// Nanoseconds since the epoch.
    pub open spec fn nanoseconds(self) -> int {
        match self.datetime {
            Some(m) => m * 1000 + self.nanosecond,
            None => -1,
        }
    }

    /// A timestamp with the given parts, its remainder brought into `0..=999`.
    pub open spec fn normalised(datetime: int, nanosecond: int) -> Timestamp {
        Timestamp {
            datetime: Some((datetime + nanosecond / 1000) as i64),
            nanosecond: (nanosecond % 1000) as i64,
        }
    }

    /// The timestamp that many nanoseconds after the epoch.
    pub open spec fn of_nanoseconds(total: int) -> Timestamp {
        Timestamp { datetime: Some((total / 1000) as i64), nanosecond: (total % 1000) as i64 }
    }

    /// The timestamp with the parts that are given in place of its own.
    pub open spec fn replaced(self, nanosecond: Option<i64>, datetime: Option<i64>) -> Timestamp {
        let base = if datetime is Some {
            datetime
        } else {
            self.datetime
        };
        let nanos = if nanosecond is Some {
            nanosecond->0
        } else {
            self.nanosecond
        };
        match base {
            Some(m) => Timestamp::normalised(m as int, nanos as int),
            None => Timestamp { datetime: None, nanosecond: nanos },
        }
    }

    /// The timestamp without an instant.
    pub fn not_a_time() -> (r: Timestamp)
        ensures
            r == (Timestamp { datetime: None, nanosecond: 0 }),
            r.wf(),
    {
        Timestamp { datetime: None, nanosecond: 0 }
    }

    /// A timestamp with its nanosecond remainder normalised into `0..=999`.
    pub fn new(datetime: i64, nanosecond: i64) -> (r: Timestamp)
        requires
            clock::representable(datetime as int),
            clock::representable(datetime as int + nanosecond as int / 1000),
        ensures
            r.wf(),
            r.datetime == Some((datetime + nanosecond as int / 1000) as i64),
            r.nanosecond == nanosecond as int % 1000,
            r == Timestamp::normalised(datetime as int, nanosecond as int),
    {
        let mut instant: i64 = datetime;
        let mut rest: i64 = nanosecond;
        if rest < 0 || rest > 999 {
            let low: i64 = rest % 1000;
            let (delta, remainder): (i64, i64) = if low < 0 {
                (rest / 1000 - 1, low + 1000)
            } else {
                (rest / 1000, low)
            };
            assert(delta == nanosecond as int / 1000 && remainder == nanosecond as int % 1000);
            instant = instant + delta;
            rest = remainder;
        }
        Timestamp { datetime: Some(instant), nanosecond: rest }
    }

    /// Split nanoseconds since the epoch into microseconds and the remainder.
    pub fn from_nanoseconds(total_nanoseconds: i64) -> (r: (i64, i64))
        ensures
            r.0 == total_nanoseconds as int / 1000,
            r.1 == total_nanoseconds as int % 1000,
            (Timestamp { datetime: Some(r.0), nanosecond: r.1 }) == Timestamp::of_nanoseconds(total_nanoseconds as int),
            clock::representable(r.0 as int),
    {
        let low: i64 = total_nanoseconds % 1000;
        if low < 0 {
            (total_nanoseconds / 1000 - 1, low + 1000)
        } else {
            (total_nanoseconds / 1000, low)
        }
    }

    /// The timestamp that many nanoseconds after the epoch; every such instant
    /// lies in the range of the calendar.
    pub fn from_nanosecond_value(total_nanoseconds: i64) -> (r: Option<Timestamp>)
        ensures
            r matches Some(t) && t.wf() && t.datetime == Some((total_nanoseconds as int / 1000) as i64) && t.nanosecond
                == total_nanoseconds as int % 1000,
            r == Some(Timestamp::of_nanoseconds(total_nanoseconds as int)),
    {
        let (datetime, nanosecond) = Timestamp::from_nanoseconds(total_nanoseconds);
        Some(Timestamp { datetime: Some(datetime), nanosecond })
    }

    /// Parse `%Y-%m-%d %H:%M:%S[.fraction]` as UTC.  Six digits of the fraction
    /// are microseconds, further ones nanoseconds.
    pub fn from_timestamp(timestamp_string: &str) -> (r: Option<Timestamp>)
        ensures
            match timestamp_parts(timestamp_string@) {
                Some((instant, nanos)) => if clock::representable(instant) {
                    r matches Some(t) && t.datetime == Some(instant as i64) && t.nanosecond == nanos && t.wf()
                } else {
                    r is None
                },
                None => r is None,
            },
    {
        let n: usize = timestamp_string.as_bytes().len();
        if n <= MINIMAL_FRACTIONAL_SECONDS_LENGTH {
            return match clock::parse_utc(timestamp_string, TIMESTAMP_FORMAT) {
                Some((instant, _)) => if clock::is_representable(instant) {
                    Some(Timestamp { datetime: Some(instant), nanosecond: 0 })
                } else {
                    None
                },
                None => None,
            };
        }
        if n < MICROSECONDS_LENGTH || !timestamp_string.is_char_boundary(26) {
            return None;
        }
        let (head, tail) = timestamp_string.split_at(26);
        assert(encode_utf8(head@) == encode_utf8(timestamp_string@).subrange(0, 26));
        if !head.is_char_boundary(19) {
            return None;
        }
        let (date, fraction) = head.split_at(19);
        proof {
            let bytes = encode_utf8(timestamp_string@);
            encode_utf8_decode_utf8(date@);
            encode_utf8_decode_utf8(fraction@);
            encode_utf8_decode_utf8(tail@);
            assert(encode_utf8(date@) =~= bytes.subrange(0, 19));
            assert(encode_utf8(fraction@) =~= bytes.subrange(19, 26));
            assert(encode_utf8(tail@) =~= bytes.subrange(26, bytes.len() as int));
        }
        let fraction_chars = text::chars_of(fraction);
        let micros: i64 = match parse_fraction(fraction_chars.as_slice()) {
            Some(m) => m,
            None => {
                return None;
            },
        };
        let instant: i64 = match clock::parse_utc(date, TIMESTAMP_FORMAT) {
            Some((i, _)) => i,
            None => {
                return None;
            },
        };
        let tail_chars = text::chars_of(tail);
        let nanosecond: i64 = match parse_tail(tail_chars.as_slice()) {
            Some(v) => v,
            None => {
                return None;
            },
        };
        match instant.checked_add(micros) {
            Some(sum) => if clock::is_representable(sum) {
                Some(Timestamp { datetime: Some(sum), nanosecond })
            } else {
                None
            },
            None => None,
        }
    }

    /// Nanoseconds since the epoch, `-1` without an instant.
    pub fn value(&self) -> (r: i64)
        requires
            i64::MIN <= self.nanoseconds() <= i64::MAX,
        ensures
            r == self.nanoseconds(),
    {
        match self.datetime {
            None => -1,
            Some(m) => {
                let wide: i128 = m as i128 * 1000 + self.nanosecond as i128;
                wide as i64
            },
        }
    }

    /// Whether there is an instant after the year 1900.
    pub fn is_valid(&self) -> (r: bool)
        ensures
            r == self.valid(),
    {
        match self.datetime {
            Some(m) => m >= FIRST_VALID_INSTANT,
            None => false,
        }
    }

    /// Whether there is an instant after the year 1900.
    pub open spec fn valid(self) -> bool {
        self.datetime matches Some(m) && m >= FIRST_VALID_INSTANT
    }

    /// The instant under a `strftime` format: empty without an instant, `None`
    /// for a format that is not valid.
    pub fn strftime(&self, datetime_format: &str) -> (r: Option<String>)
        requires
            self.wf(),
        ensures
            text::opt_text(r) == (match self.datetime {
                Some(m) => clock::utc_text(m as int, datetime_format@),
                None => Some(Seq::<char>::empty()),
            }),
    {
        match self.datetime {
            Some(m) => clock::format_utc(m, datetime_format),
            None => {
                let empty = String::new();
                assert(empty@ =~= Seq::<char>::empty());
                Some(empty)
            },
        }
    }

    /// Replace the instant, the nanosecond remainder, or both.
    pub fn replace(&self, nanosecond: Option<i64>, datetime: Option<i64>) -> (r: Timestamp)
        requires
            ({
                let base = if datetime is Some {
                    datetime
                } else {
                    self.datetime
                };
                let nanos = if nanosecond is Some {
                    nanosecond->0
                } else {
                    self.nanosecond
                };
                base matches Some(m) ==> clock::representable(m as int) && clock::representable(
                    m as int + nanos as int / 1000,
                )
            }),
        ensures
            ({
                let base = if datetime is Some {
                    datetime
                } else {
                    self.datetime
                };
                let nanos = if nanosecond is Some {
                    nanosecond->0
                } else {
                    self.nanosecond
                };
                match base {
                    Some(m) => r.datetime == Some((m + nanos as int / 1000) as i64) && r.nanosecond == nanos as int
                        % 1000,
                    None => r.datetime is None && r.nanosecond == nanos,
                }
            }),
            r == self.replaced(nanosecond, datetime),
            r.wf(),
    {
        let nanos: i64 = match nanosecond {
            Some(n) => n,
            None => self.nanosecond,
        };
        let base = match datetime {
            Some(m) => Some(m),
            None => self.datetime,
        };
        match base {
            Some(m) => Timestamp::new(m, nanos),
            None => Timestamp { datetime: None, nanosecond: nanos },
        }
    }
}

impl Timestamp {
    /// Whether this timestamp is later than another one; one without an instant
    /// is not later, nor is any other later than it.
    pub open spec fn after(self, other: Timestamp) -> bool {
        match (self.datetime, other.datetime) {
            (Some(m), Some(n)) => m > n || (m == n && self.nanosecond > other.nanosecond),
            _ => false,
        }
    }

    /// Whether this timestamp is later than another one.
    pub fn is_after(&self, other: &Timestamp) -> (r: bool)
        ensures
            r == self.after(*other),
    {
        match (self.datetime, other.datetime) {
            (Some(m), Some(n)) => m > n || (m == n && self.nanosecond > other.nanosecond),
            _ => false,
        }
    }
}

/// The order of two timestamps: by instant, then by remainder.  A timestamp
/// without an instant has no order.
pub open spec fn timestamp_order(a: Timestamp, b: Timestamp) -> Option<Ordering> {
    match (a.datetime, b.datetime) {
        (Some(m), Some(n)) => Some(
            if m < n || (m == n && a.nanosecond < b.nanosecond) {
                Ordering::Less
            } else if m == n && a.nanosecond == b.nanosecond {
                Ordering::Equal
            } else {
                Ordering::Greater
            },
        ),
        _ => None,
    }
}

impl PartialOrd for Timestamp {
    fn partial_cmp(&self, other: &Timestamp) -> (r: Option<Ordering>) {
        match (self.datetime, other.datetime) {
            (Some(m), Some(n)) => Some(
                if m < n || (m == n && self.nanosecond < other.nanosecond) {
                    Ordering::Less
                } else if m == n && self.nanosecond == other.nanosecond {
                    Ordering::Equal
                } else {
                    Ordering::Greater
                },
            ),
            _ => None,
        }
    }
}

impl PartialOrdSpecImpl for Timestamp {
    open spec fn obeys_partial_cmp_spec() -> bool {
        true
    }

    open spec fn partial_cmp_spec(&self, other: &Timestamp) -> Option<Ordering> {
        timestamp_order(*self, *other)
    }
}

/// The text of a timestamp whose date and time read `date`.
pub open spec fn event_text(date: Seq<char>, micros: int, nanosecond: int) -> Seq<char> {
    date + "."@ + number::signed_padded(micros % 1_000_000, 6) + number::signed_padded(nanosecond, 3)
}

fn event_line(date: &str, micros: i64, nanosecond: i64) -> (r: String)
    ensures
        r@ == event_text(date@, micros as int, nanosecond as int),
{
    let low: i64 = micros % 1_000_000;
    let part: i64 = if low < 0 {
        low + 1_000_000
    } else {
        low
    };
    assert(part == micros as int % 1_000_000);
    let mut out = String::from_str(date);
    out.append(".");
    number::push_padded(&mut out, part, 6);
    number::push_padded(&mut out, nanosecond, 3);
    out
}

impl Timestamp {
    /// The text of the timestamp in UTC, with nanoseconds; `NaT` without an
    /// instant.
    pub fn event_string(&self) -> (r: String)
        requires
            self.wf(),
        ensures
            match self.datetime {
                Some(m) => clock::utc_text(m as int, TIMESTAMP_FORMAT@) matches Some(date) && r@ == event_text(
                    date,
                    m as int,
                    self.nanosecond as int,
                ),
                None => r@ == "NaT"@,
            },
    {
        match self.datetime {
            Some(m) => match clock::format_utc(m, TIMESTAMP_FORMAT) {
                Some(date) => event_line(date.as_str(), m, self.nanosecond),
                None => String::new(),
            },
            None => String::from_str("NaT"),
        }
    }

    /// Like [`Timestamp::event_string`], in a time zone; `None` when no zone has
    /// that name.
    pub fn event_string_in(&self, zone: &str) -> (r: Option<String>)
        requires
            self.wf(),
        ensures
            match self.datetime {
                Some(m) => if clock::zone_known(zone@) {
                    clock::zone_text(m as int, zone@, TIMESTAMP_FORMAT@) matches Some(date) && r matches Some(s) && s@
                        == event_text(date, m as int, self.nanosecond as int)
                } else {
                    r is None
                },
                None => r matches Some(s) && s@ == "NaT"@,
            },
    {
        match self.datetime {
            Some(m) => match clock::format_in_zone(m, zone, TIMESTAMP_FORMAT) {
                Some(date) => Some(event_line(date.as_str(), m, self.nanosecond)),
                None => None,
            },
            None => Some(String::from_str("NaT")),
        }
    }
}

/// Up to three digits behind the microseconds are decimal places of a
/// microsecond: one counts hundreds of nanoseconds, two count tens.
pub proof fn three_digits_are_nanoseconds(tail: Seq<char>)
    requires
        0 < tail.len() <= 3,
        number::all_digits(tail),
    ensures
        tail_nanoseconds(tail) == Some(
            number::digits_value(tail) * (if tail.len() == 1 {
                100int
            } else if tail.len() == 2 {
                10
            } else {
                1
            }),
        ),
{
    reveal_with_fuel(number::digits_value, 4);
    reveal_with_fuel(decimal::ten_to, 4);
    assert forall|i: int| 0 <= i < tail.len() implies 0 <= number::digit_value(#[trigger] tail[i]) <= 9 by {
        assert(number::is_digit(tail[i]));
    }
    let n = number::digits_value(tail);
    let t = decimal::ten_to(3 - tail.len());
    assert(tail.len() == 1 ==> t == 100);
    assert(tail.len() == 2 ==> t == 10);
    assert(tail.len() == 3 ==> t == 1);
    assert(0 <= n <= 999);
    assert(t == 100 ==> n * t == n * 100) by (nonlinear_arith);
    assert(t == 10 ==> n * t == n * 10) by (nonlinear_arith);
    assert(t == 1 ==> n * t == n) by (nonlinear_arith);
    decimal::digits_are_scaled_exactly(tail, 3 - tail.len());
}

/// A timestamp made from nanoseconds has that value.
pub proof fn nanosecond_values_round_trip(total: int)
    requires
        i64::MIN <= total <= i64::MAX,
    ensures
        (Timestamp { datetime: Some((total / 1000) as i64), nanosecond: (total % 1000) as i64 }).nanoseconds() == total,
{
}

/// Normalising a timestamp keeps its value and leaves a remainder below one
/// microsecond.
pub proof fn normalising_keeps_the_value(datetime: int, nanosecond: int)
    requires
        clock::representable(datetime),
        clock::representable(datetime + nanosecond / 1000),
    ensures
        ({
            let t = Timestamp {
                datetime: Some((datetime + nanosecond / 1000) as i64),
                nanosecond: (nanosecond % 1000) as i64,
            };
            t.nanoseconds() == datetime * 1000 + nanosecond && 0 <= t.nanosecond <= 999
        }),
{
}

/// Normalised timestamps are ordered as their values are.
pub proof fn order_follows_the_value(a: Timestamp, b: Timestamp)
    requires
        a.datetime is Some,
        b.datetime is Some,
        0 <= a.nanosecond <= 999,
        0 <= b.nanosecond <= 999,
    ensures
        timestamp_order(a, b) == Some(Ordering::Less) <==> a.nanoseconds() < b.nanoseconds(),
        timestamp_order(a, b) == Some(Ordering::Equal) <==> a.nanoseconds() == b.nanoseconds(),
        timestamp_order(a, b) == Some(Ordering::Greater) <==> a.after(b),
{
}

// ---------------------------------------------------------------------
// strikes
// ---------------------------------------------------------------------

/// Bits of the distance below which a coordinate counts as zero, `1e-9`.
pub const TINY_BITS: u64 = 0x3e11_2e0b_e826_d695;

/// Bits of the largest longitude, `180`.
pub const MAX_LONGITUDE_BITS: u64 = 0x4066_8000_0000_0000;

/// Bits of the smallest longitude, `-180`.
pub const MIN_LONGITUDE_BITS: u64 = 0xc066_8000_0000_0000;

/// Bits of the latitude of the north pole, `90`.
pub const NORTH_POLE_BITS: u64 = 0x4056_8000_0000_0000;

/// Bits of the latitude of the south pole, `-90`.
pub const SOUTH_POLE_BITS: u64 = 0xc056_8000_0000_0000;

/// A lightning strike.
#[derive(Debug, Clone, PartialEq)]
pub struct Strike {
    pub id: Option<i64>,
    pub timestamp: Timestamp,
    /// Longitude.
    pub x: Real,
    /// Latitude.
    pub y: Real,
    pub altitude: Option<Real>,
    pub amplitude: Option<Real>,
    pub lateral_error: Option<i64>,
    pub station_count: Option<i64>,
    pub stations: Vec<i64>,
    pub region: Option<i64>,
}

/// The numbers of a strike as they are printed: coordinates with four
/// decimals, the altitude in its shortest form, the amplitude with one decimal.
#[derive(Debug, Clone, PartialEq, Eq)]
pub struct StrikeFigures {
    pub x: String,
    pub y: String,
    pub altitude: Option<String>,
    pub amplitude: String,
}

/// Whether a position is on the map and not the origin.
pub open spec fn is_location(x: Real, y: Real) -> bool {
    let tiny = Real { bits: TINY_BITS };
    &&& !(x.abs().lt(tiny) && y.abs().lt(tiny))
    &&& (Real { bits: MIN_LONGITUDE_BITS }).le(x)
    &&& x.le(Real { bits: MAX_LONGITUDE_BITS })
    &&& (Real { bits: SOUTH_POLE_BITS }).lt(y)
    &&& y.lt(Real { bits: NORTH_POLE_BITS })
}

/// A number, zero when it is absent.
pub open spec fn or_zero(v: Option<i64>) -> int {
    match v {
        Some(n) => n as int,
        None => 0,
    }
}

/// The line of a strike behind its timestamp.
pub open spec fn strike_line(strike: Strike, event: Seq<char>, figures: StrikeFigures) -> Seq<char> {
    event + " "@ + figures.x@ + " "@ + figures.y@ + " "@ + (match text::opt_text(figures.altitude) {
        Some(a) => a,
        None => "-"@,
    }) + " "@ + figures.amplitude@ + " "@ + number::signed_decimal(or_zero(strike.lateral_error)) + " "@
        + number::signed_decimal(or_zero(strike.station_count))
}

impl Strike {
    /// A strike with the given parts.
    pub fn new(
        id: Option<i64>,
        timestamp: Timestamp,
        x: Real,
        y: Real,
        altitude: Option<Real>,
        amplitude: Option<Real>,
        lateral_error: Option<i64>,
        station_count: Option<i64>,
        stations: Vec<i64>,
        region: Option<i64>,
    ) -> (r: Strike)
        ensures
            r == (Strike {
                id,
                timestamp,
                x,
                y,
                altitude,
                amplitude,
                lateral_error,
                station_count,
                stations,
                region,
            }),
    {
        Strike { id, timestamp, x, y, altitude, amplitude, lateral_error, station_count, stations, region }
    }

    /// Whether a station took part in the location of the strike.
    pub fn has_participant(&self, participant: i64) -> (r: bool)
        ensures
            r == self.stations@.contains(participant),
    {
        let mut i: usize = 0;
        while i < self.stations.len()
            invariant
                i <= self.stations@.len(),
                forall|j: int| 0 <= j < i ==> self.stations@[j] != participant,
            decreases self.stations@.len() - i,
        {
            if self.stations[i] == participant {
                assert(self.stations@[i as int] == participant);
                return true;
            }
            i = i + 1;
        }
        false
    }

    /// Whether the position and the timestamp are valid.
    pub fn is_valid(&self) -> (r: bool)
        ensures
            r == (is_location(self.x, self.y) && self.timestamp.valid()),
            r == self.valid(),
    {
        let tiny = Real::from_bits(TINY_BITS);
        let at_origin = self.x.magnitude().less(&tiny) && self.y.magnitude().less(&tiny);
        !at_origin && Real::from_bits(MIN_LONGITUDE_BITS).at_most(&self.x) && self.x.at_most(
            &Real::from_bits(MAX_LONGITUDE_BITS),
        ) && Real::from_bits(SOUTH_POLE_BITS).less(&self.y) && self.y.less(&Real::from_bits(NORTH_POLE_BITS))
            && self.timestamp.is_valid()
    }

    /// Whether the strike has a place on the globe and a time that can be meant.
    pub open spec fn valid(&self) -> bool {
        is_location(self.x, self.y) && self.timestamp.valid()
    }

    /// Nanoseconds from this strike to another one.
    pub open spec fn nanoseconds_to(&self, other: &Strike) -> int {
        other.timestamp.nanoseconds() - self.timestamp.nanoseconds()
    }

    /// The amplitude that is printed: zero when it is absent or zero.
    pub open spec fn printed_amplitude(&self) -> Real {
        match self.amplitude {
            Some(a) => if a.num_eq(Real { bits: 0 }) {
                Real { bits: 0 }
            } else {
                a
            },
            None => Real { bits: 0 },
        }
    }

    /// Nanoseconds from this strike to another one.
    pub fn ns_difference_to(&self, other: &Strike) -> (r: i64)
        requires
            i64::MIN <= self.timestamp.nanoseconds() <= i64::MAX,
            i64::MIN <= other.timestamp.nanoseconds() <= i64::MAX,
            i64::MIN <= other.timestamp.nanoseconds() - self.timestamp.nanoseconds() <= i64::MAX,
        ensures
            r == other.timestamp.nanoseconds() - self.timestamp.nanoseconds(),
            r == self.nanoseconds_to(other),
    {
        other.timestamp.value() - self.timestamp.value()
    }

    /// The amplitude that is printed: zero when it is absent or zero.
    pub fn shown_amplitude(&self) -> (r: Real)
        ensures
            r == self.printed_amplitude(),
            r == (match self.amplitude {
                Some(a) => if a.num_eq(Real { bits: 0 }) {
                    Real { bits: 0 }
                } else {
                    a
                },
                None => Real { bits: 0 },
            }),
    {
        let zero = Real::from_bits(0);
        match self.amplitude {
            Some(a) => if a.equals(&zero) {
                zero
            } else {
                a
            },
            None => zero,
        }
    }

    fn line(&self, event: String, figures: &StrikeFigures) -> (r: String)
        ensures
            r@ == strike_line(*self, event@, *figures),
    {
        let mut out = event;
        out.append(" ");
        out.append(figures.x.as_str());
        out.append(" ");
        out.append(figures.y.as_str());
        out.append(" ");
        match &figures.altitude {
            Some(a) => {
                out.append(a.as_str());
            },
            None => {
                out.append("-");
            },
        }
        out.append(" ");
        out.append(figures.amplitude.as_str());
        out.append(" ");
        number::push_signed(
            &mut out,
            match self.lateral_error {
                Some(n) => n,
                None => 0,
            },
        );
        out.append(" ");
        number::push_signed(
            &mut out,
            match self.station_count {
                Some(n) => n,
                None => 0,
            },
        );
        out
    }

    /// The line of the strike: the timestamp, the position, then altitude,
    /// amplitude, lateral error and station count.
    pub fn to_text(&self, figures: &StrikeFigures) -> (r: String)
        requires
            self.timestamp.wf(),
        ensures
            match self.timestamp.datetime {
                Some(m) => clock::utc_text(m as int, TIMESTAMP_FORMAT@) matches Some(date) && r@ == strike_line(
                    *self,
                    event_text(date, m as int, self.timestamp.nanosecond as int),
                    *figures,
                ),
                None => r@ == strike_line(*self, "NaT"@, *figures),
            },
    {
        self.line(self.timestamp.event_string(), figures)
    }

    /// Like [`Strike::to_text`], with the timestamp in a time zone; `None` when
    /// no zone has that name.
    pub fn to_string_in_tz(&self, zone: &str, figures: &StrikeFigures) -> (r: Option<String>)
        requires
            self.timestamp.wf(),
        ensures
            match self.timestamp.datetime {
                Some(m) => if clock::zone_known(zone@) {
                    clock::zone_text(m as int, zone@, TIMESTAMP_FORMAT@) matches Some(date) && r matches Some(s) && s@
                        == strike_line(
                        *self,
                        event_text(date, m as int, self.timestamp.nanosecond as int),
                        *figures,
                    )
                } else {
                    r is None
                },
                None => r matches Some(s) && s@ == strike_line(*self, "NaT"@, *figures),
            },
    {
        match self.timestamp.event_string_in(zone) {
            Some(event) => Some(self.line(event, figures)),
            None => None,
        }
    }
}

// ---------------------------------------------------------------------
// grid data
// ---------------------------------------------------------------------

/// One grid cell.
#[derive(Debug, Clone, Copy, PartialEq, Eq, Structural)]
pub struct GridElement {
    pub count: i64,
    pub timestamp: Option<Timestamp>,
}

impl GridElement {
    /// A cell with a count and the time of its latest strike.
    pub fn new(count: i64, timestamp: Option<Timestamp>) -> (r: GridElement)
        ensures
            r == (GridElement { count, timestamp }),
    {
        GridElement { count, timestamp }
    }
}

/// Grid data for text output.  Rows are indexed bottom-up: row 0 is the
/// southernmost one.
#[derive(Debug, Clone)]
pub struct GridData {
    pub grid: Grid,
    /// Number of columns.
    pub x_bin_count: i64,
    /// Number of rows.
    pub y_bin_count: i64,
    pub no_data: i64,
    /// The cells, `data[y][x]`.
    pub data: Vec<Vec<Option<GridElement>>>,
}

/// The cells of a grid, row by row.
pub open spec fn cell_rows(data: Seq<Vec<Option<GridElement>>>) -> Seq<Seq<Option<GridElement>>> {
    data.map_values(|row: Vec<Option<GridElement>>| row@)
}

/// Corner and cell size of a grid as they are printed, with four decimals.
#[derive(Debug, Clone, PartialEq, Eq)]
pub struct ArcFigures {
    pub x_corner: String,
    pub y_corner: String,
    pub cell_size: String,
}

/// The symbols of a map, from no strike to the most strikes.
pub open spec fn map_symbol(index: int) -> char {
    if index <= 0 {
        ' '
    } else if index == 1 {
        '.'
    } else if index == 2 {
        '-'
    } else if index == 3 {
        'o'
    } else if index == 4 {
        '*'
    } else if index == 5 {
        'O'
    } else {
        '8'
    }
}

/// The text of a cell in an arc grid.
pub open spec fn multiplicity(cell: Option<GridElement>) -> Seq<char> {
    match cell {
        Some(c) => number::signed_decimal(c.count as int),
        None => "0"@,
    }
}

/// The line of a row in an arc grid.
pub open spec fn arc_row(row: Seq<Option<GridElement>>) -> Seq<char> {
    text::join(row.map_values(|cell: Option<GridElement>| multiplicity(cell)), " "@)
}

/// The lines of an arc grid, from north to south.
pub open spec fn arc_rows(rows: Seq<Seq<Option<GridElement>>>) -> Seq<Seq<char>> {
    Seq::new(rows.len(), |i: int| arc_row(rows[rows.len() - 1 - i]))
}

/// The symbol index of a cell when one step is `steps` strikes, written as a
/// fraction: zero without a strike.
pub open spec fn symbol_index(cell: Option<GridElement>, numerator: int, denominator: int) -> int {
    match cell {
        Some(c) => {
            let index = ((c.count - 1) * denominator) / numerator + 1;
            if index < 0 {
                0
            } else {
                index
            }
        },
        None => 0,
    }
}

/// The step between two symbols of a map, as a fraction: the maximum spread
/// over the symbols when it exceeds their number.
pub open spec fn map_step(maximum: int) -> (int, int) {
    if maximum > 7 {
        (maximum, 6)
    } else {
        (1, 1)
    }
}

/// The symbols of a row.
pub open spec fn map_symbols(row: Seq<Option<GridElement>>, maximum: int) -> Seq<char> {
    row.map_values(
        |cell: Option<GridElement>|
            map_symbol(symbol_index(cell, map_step(maximum).0, map_step(maximum).1)),
    )
}

/// The lines of the northernmost `n` rows of a map.
pub open spec fn map_lines(rows: Seq<Seq<Option<GridElement>>>, maximum: int, n: int) -> Seq<char>
    decreases n,
{
    if n <= 0 {
        Seq::empty()
    } else {
        map_lines(rows, maximum, n - 1) + "|"@ + map_symbols(rows[rows.len() - n], maximum) + "|\n"@
    }
}

/// A line of hyphens over the columns and the two borders.
pub open spec fn map_border(x_bin_count: int) -> Seq<char> {
    Seq::new(
        if x_bin_count + 2 < 0 {
            0
        } else {
            (x_bin_count + 2) as nat
        },
        |i: int| '-',
    )
}

/// The sum of the counts of the first `n` cells.
pub open spec fn row_total(row: Seq<Option<GridElement>>, n: int) -> int
    decreases n,
{
    if n <= 0 {
        0
    } else {
        row_total(row, n - 1) + (match row[n - 1] {
            Some(c) => c.count as int,
            None => 0,
        })
    }
}

/// The sum of the counts of the first `n` rows.
pub open spec fn rows_total(rows: Seq<Seq<Option<GridElement>>>, n: int) -> int
    decreases n,
{
    if n <= 0 {
        0
    } else {
        rows_total(rows, n - 1) + row_total(rows[n - 1], rows[n - 1].len() as int)
    }
}

/// Whether `maximum` is the greatest count, at least zero.
pub open spec fn is_maximum(rows: Seq<Seq<Option<GridElement>>>, maximum: int) -> bool {
    &&& maximum >= 0
    &&& forall|i: int, j: int|
        0 <= i < rows.len() && 0 <= j < rows[i].len() ==> ((#[trigger] rows[i][j]) matches Some(c) ==> c.count
            <= maximum)
    &&& maximum > 0 ==> exists|i: int, j: int|
        0 <= i < rows.len() && 0 <= j < rows[i].len() && ((#[trigger] rows[i][j]) matches Some(c) && c.count
            == maximum)
}

/// The greatest count of the first `n` cells, at least `least`.
pub open spec fn row_maximum(row: Seq<Option<GridElement>>, n: int, least: int) -> int
    decreases n,
{
    if n <= 0 {
        least
    } else {
        let before = row_maximum(row, n - 1, least);
        match row[n - 1] {
            Some(c) => if before < c.count {
                c.count as int
            } else {
                before
            },
            None => before,
        }
    }
}

/// The greatest count of the first `n` rows, at least zero.
pub open spec fn rows_maximum(rows: Seq<Seq<Option<GridElement>>>, n: int) -> int
    decreases n,
{
    if n <= 0 {
        0
    } else {
        row_maximum(rows[n - 1], rows[n - 1].len() as int, rows_maximum(rows, n - 1))
    }
}

/// Whether the counts can be summed up in an `i64`.
pub open spec fn total_fits(rows: Seq<Seq<Option<GridElement>>>) -> bool {
    forall|i: int, j: int|
        0 <= i < rows.len() && 0 <= j <= rows[i].len() ==> i64::MIN <= rows_total(rows, i) + #[trigger] row_total(
            rows[i],
            j,
        ) <= i64::MAX
}

fn symbol_at(index: usize) -> (r: char)
    ensures
        r == map_symbol(index as int),
{
    if index == 0 {
        ' '
    } else if index == 1 {
        '.'
    } else if index == 2 {
        '-'
    } else if index == 3 {
        'o'
    } else if index == 4 {
        '*'
    } else if index == 5 {
        'O'
    } else {
        '8'
    }
}

fn hyphens(x_bin_count: i64) -> (r: String)
    ensures
        r@ == map_border(x_bin_count as int),
{
    let width: i128 = x_bin_count as i128 + 2;
    let mut out = String::new();
    let mut i: i128 = 0;
    assert(out@ =~= Seq::new(0, |j: int| '-'));
    while i < width
        invariant
            0 <= i,
            i <= width || i == 0,
            out@ == Seq::new(i as nat, |j: int| '-'),
        decreases width - i,
    {
        out.push('-');
        i = i + 1;
        assert(out@ =~= Seq::new(i as nat, |j: int| '-'));
    }
    assert(out@ =~= map_border(x_bin_count as int));
    out
}

impl GridData {
    /// The cells, row by row.
    pub open spec fn cells(self) -> Seq<Seq<Option<GridElement>>> {
        cell_rows(self.data@)
    }

    /// Empty cells for a grid of the given numbers of columns and rows.
    pub fn new(grid: Grid, x_bin_count: i64, y_bin_count: i64) -> (r: GridData)
        requires
            x_bin_count <= usize::MAX,
            y_bin_count <= usize::MAX,
        ensures
            r.grid == grid,
            r.x_bin_count == x_bin_count,
            r.y_bin_count == y_bin_count,
            r.no_data == 0,
            r.cells().len() == (if y_bin_count < 0 {
                0
            } else {
                y_bin_count as int
            }),
            forall|y: int|
                0 <= y < r.cells().len() ==> (#[trigger] r.cells()[y]) == Seq::new(
                    if x_bin_count < 0 {
                        0
                    } else {
                        x_bin_count as nat
                    },
                    |x: int| None::<GridElement>,
                ),
    {
        let x_count: usize = if x_bin_count < 0 {
            0
        } else {
            x_bin_count as usize
        };
        let y_count: usize = if y_bin_count < 0 {
            0
        } else {
            y_bin_count as usize
        };
        let mut data: Vec<Vec<Option<GridElement>>> = Vec::new();
        while data.len() < y_count
            invariant
                data@.len() <= y_count,
                forall|y: int|
                    0 <= y < data@.len() ==> (#[trigger] data@[y])@ == Seq::new(
                        x_count as nat,
                        |x: int| None::<GridElement>,
                    ),
            decreases y_count - data@.len(),
        {
            let mut row: Vec<Option<GridElement>> = Vec::new();
            while row.len() < x_count
                invariant
                    row@.len() <= x_count,
                    forall|x: int| 0 <= x < row@.len() ==> (#[trigger] row@[x]) is None,
                decreases x_count - row@.len(),
            {
                row.push(None);
            }
            assert(row@ =~= Seq::new(x_count as nat, |x: int| None::<GridElement>));
            data.push(row);
        }
        GridData { grid, x_bin_count, y_bin_count, no_data: 0, data }
    }

    /// Whether a cell exists.
    pub open spec fn has_cell(self, x: int, y: int) -> bool {
        0 <= y < self.cells().len() && 0 <= x < self.cells()[y].len()
    }

    /// Set a cell; an index outside the grid is ignored.
    pub fn set(&mut self, x_index: i64, y_index: i64, value: Option<GridElement>)
        ensures
            final(self).grid == old(self).grid,
            final(self).x_bin_count == old(self).x_bin_count,
            final(self).y_bin_count == old(self).y_bin_count,
            final(self).no_data == old(self).no_data,
            final(self).cells() == (if old(self).has_cell(x_index as int, y_index as int) {
                old(self).cells().update(
                    y_index as int,
                    old(self).cells()[y_index as int].update(x_index as int, value),
                )
            } else {
                old(self).cells()
            }),
    {
        if x_index < 0 || y_index < 0 || y_index as u64 >= self.data.len() as u64 {
            return;
        }
        let y: usize = y_index as usize;
        if x_index as u64 >= self.data[y].len() as u64 {
            return;
        }
        let x: usize = x_index as usize;
        let ghost before = self.data@;
        let mut row: Vec<Option<GridElement>> = Vec::new();
        std::mem::swap(&mut row, &mut self.data[y]);
        row.set(x, value);
        std::mem::swap(&mut row, &mut self.data[y]);
        assert(cell_rows(self.data@) =~= cell_rows(before).update(y as int, before[y as int]@.update(x as int, value)));
    }

    /// A cell; `None` for an empty one and outside the grid.
    pub fn get(&self, x_index: i64, y_index: i64) -> (r: Option<GridElement>)
        ensures
            r == (if self.has_cell(x_index as int, y_index as int) {
                self.cells()[y_index as int][x_index as int]
            } else {
                None
            }),
    {
        if x_index < 0 || y_index < 0 || y_index as u64 >= self.data.len() as u64 {
            return None;
        }
        let row = &self.data[y_index as usize];
        if x_index as u64 >= row.len() as u64 {
            return None;
        }
        row[x_index as usize]
    }

    /// The text of a cell in an arc grid.
    pub fn cell_to_multiplicity(current_cell: Option<GridElement>) -> (r: String)
        ensures
            r@ == multiplicity(current_cell),
    {
        match current_cell {
            Some(cell) => number::signed_text(cell.count),
            None => String::from_str("0"),
        }
    }

    /// The grid in the grid format: a header, then the rows from north to south.
    pub open spec fn arcgrid_text(&self, figures: ArcFigures) -> Seq<char> {
        "NCOLS "@ + number::signed_decimal(self.x_bin_count as int) + "\nNROWS "@ + number::signed_decimal(
            self.y_bin_count as int,
        ) + "\nXLLCORNER "@ + figures.x_corner@ + "\nYLLCORNER "@ + figures.y_corner@ + "\nCELLSIZE "@
            + figures.cell_size@ + "\nNODATA_VALUE "@ + number::signed_decimal(self.no_data as int) + "\n"@
            + text::join(arc_rows(self.cells()), "\n"@)
    }

    /// The grid in the arc grid format.
    pub fn to_arcgrid(&self, figures: &ArcFigures) -> (r: String)
        ensures
            r@ == self.arcgrid_text(*figures),
    {
        let mut out = String::from_str("NCOLS ");
        number::push_signed(&mut out, self.x_bin_count);
        out.append("\nNROWS ");
        number::push_signed(&mut out, self.y_bin_count);
        out.append("\nXLLCORNER ");
        out.append(figures.x_corner.as_str());
        out.append("\nYLLCORNER ");
        out.append(figures.y_corner.as_str());
        out.append("\nCELLSIZE ");
        out.append(figures.cell_size.as_str());
        out.append("\nNODATA_VALUE ");
        number::push_signed(&mut out, self.no_data);
        out.append("\n");
        let n: usize = self.data.len();
        let mut lines: Vec<String> = Vec::new();
        while lines.len() < n
            invariant
                n == self.data@.len(),
                lines@.len() <= n,
                forall|i: int|
                    0 <= i < lines@.len() ==> (#[trigger] lines@[i])@ == arc_row(self.cells()[n - 1 - i]),
            decreases n - lines@.len(),
        {
            let row = &self.data[n - 1 - lines.len()];
            let mut words: Vec<String> = Vec::new();
            while words.len() < row.len()
                invariant
                    words@.len() <= row@.len(),
                    forall|j: int| 0 <= j < words@.len() ==> (#[trigger] words@[j])@ == multiplicity(row@[j]),
                decreases row@.len() - words@.len(),
            {
                words.push(GridData::cell_to_multiplicity(row[words.len()]));
            }
            let mut line = String::new();
            text::push_joined(&mut line, words.as_slice(), " ");
            proof {
                assert(text::texts(words@) =~= row@.map_values(|cell: Option<GridElement>| multiplicity(cell)));
                assert(line@ =~= arc_row(row@));
                assert(self.cells()[n - 1 - lines@.len()] == row@);
            }
            lines.push(line);
        }
        assert(text::texts(lines@) =~= arc_rows(self.cells()));
        text::push_joined(&mut out, lines.as_slice(), "\n");
        out
    }

    /// The symbol index of a cell, when one step is `numerator / denominator`
    /// strikes.
    pub fn cell_index(cell: Option<GridElement>, numerator: i64, denominator: i64) -> (r: usize)
        requires
            numerator > 0,
            denominator > 0,
        ensures
            r == (if symbol_index(cell, numerator as int, denominator as int) > usize::MAX {
                usize::MAX as int
            } else {
                symbol_index(cell, numerator as int, denominator as int)
            }),
    {
        match cell {
            Some(c) => {
                let above: i128 = c.count as i128 - 1;
                if above < 0 {
                    proof {
                        let p = above as int * denominator as int;
                        let n = numerator as int;
                        assert(p < 0) by (nonlinear_arith)
                            requires
                                p == above as int * denominator as int,
                                above < 0,
                                denominator > 0,
                        ;
                        assert(p / n <= -1) by (nonlinear_arith)
                            requires
                                p < 0,
                                n > 0,
                        ;
                    }
                    return 0;
                }
                proof {
                    let a = above as int;
                    let d = denominator as int;
                    assert(0 <= a * d <= 0x7fff_ffff_ffff_ffff * 0x7fff_ffff_ffff_ffff) by (nonlinear_arith)
                        requires
                            0 <= a <= 0x7fff_ffff_ffff_ffff,
                            0 < d <= 0x7fff_ffff_ffff_ffff,
                    ;
                }
                let scaled: i128 = above * denominator as i128;
                let q: i128 = scaled / numerator as i128;
                proof {
                    let p = scaled as int;
                    let n = numerator as int;
                    assert(0 <= p / n <= p) by (nonlinear_arith)
                        requires
                            p >= 0,
                            n >= 1,
                    ;
                }
                let index: i128 = q + 1;
                if index > usize::MAX as i128 {
                    usize::MAX
                } else {
                    index as usize
                }
            },
            None => 0,
        }
    }

    /// The greatest count, at least zero, and the sum of the counts.
    pub fn max_and_total_entries(matrix: &[Vec<Option<GridElement>>]) -> (r: (i64, i64))
        requires
            total_fits(cell_rows(matrix@)),
        ensures
            r.0 == rows_maximum(cell_rows(matrix@), matrix@.len() as int),
            r.1 == rows_total(cell_rows(matrix@), matrix@.len() as int),
    {
        let ghost rows = cell_rows(matrix@);
        let mut maximum: i64 = 0;
        let mut total: i64 = 0;
        let mut i: usize = 0;
        while i < matrix.len()
            invariant
                i <= matrix@.len(),
                rows == cell_rows(matrix@),
                total_fits(rows),
                maximum == rows_maximum(rows, i as int),
                total == rows_total(rows, i as int),
            decreases matrix@.len() - i,
        {
            let row = &matrix[i];
            assert(rows[i as int] == row@);
            let mut j: usize = 0;
            while j < row.len()
                invariant
                    i < matrix@.len(),
                    j <= row@.len(),
                    rows == cell_rows(matrix@),
                    rows[i as int] == row@,
                    total_fits(rows),
                    maximum == row_maximum(row@, j as int, rows_maximum(rows, i as int)),
                    total == rows_total(rows, i as int) + row_total(row@, j as int),
                decreases row@.len() - j,
            {
                assert(i64::MIN <= rows_total(rows, i as int) + row_total(rows[i as int], j + 1) <= i64::MAX);
                if let Some(cell) = row[j] {
                    total = total + cell.count;
                    if maximum < cell.count {
                        maximum = cell.count;
                    }
                }
                j = j + 1;
            }
            i = i + 1;
        }
        (maximum, total)
    }

    /// The grid as a map: a border, the rows from north to south, a border, the
    /// total and the greatest count.
    pub open spec fn map_text(&self) -> Seq<char> {
        let n = self.cells().len() as int;
        let maximum = rows_maximum(self.cells(), n);
        let border = map_border(self.x_bin_count as int);
        border + "\n"@ + map_lines(self.cells(), maximum, n) + border + "\ntotal count: "@ + number::signed_decimal(
            rows_total(self.cells(), n),
        ) + ", max per area: "@ + number::signed_decimal(maximum)
    }

    /// The grid as a map of symbols.
    pub fn to_map(&self) -> (r: String)
        requires
            total_fits(self.cells()),
        ensures
            r@ == self.map_text(),
    {
        let (maximum, total) = GridData::max_and_total_entries(self.data.as_slice());
        let (numerator, denominator): (i64, i64) = if maximum > 7 {
            (maximum, 6)
        } else {
            (1, 1)
        };
        let border = hyphens(self.x_bin_count);
        let n: usize = self.data.len();
        let mut lines = String::new();
        let mut k: usize = 0;
        assert(lines@ =~= map_lines(self.cells(), maximum as int, 0));
        while k < n
            invariant
                n == self.data@.len(),
                k <= n,
                numerator > 0,
                denominator > 0,
                (numerator as int, denominator as int) == map_step(maximum as int),
                lines@ == map_lines(self.cells(), maximum as int, k as int),
            decreases n - k,
        {
            let row = &self.data[n - 1 - k];
            let ghost before = lines@;
            lines.append("|");
            let mut j: usize = 0;
            assert(lines@ =~= before + "|"@ + map_symbols(row@, maximum as int).take(0));
            while j < row.len()
                invariant
                    j <= row@.len(),
                    numerator > 0,
                    denominator > 0,
                    (numerator as int, denominator as int) == map_step(maximum as int),
                    lines@ == before + "|"@ + map_symbols(row@, maximum as int).take(j as int),
                decreases row@.len() - j,
            {
                lines.push(symbol_at(GridData::cell_index(row[j], numerator, denominator)));
                j = j + 1;
                assert(lines@ =~= before + "|"@ + map_symbols(row@, maximum as int).take(j as int));
            }
            assert(map_symbols(row@, maximum as int).take(j as int) =~= map_symbols(row@, maximum as int));
            lines.append("|\n");
            k = k + 1;
            assert(self.cells()[n - k] == row@);
        }
        let mut out = border.clone();
        out.append("\n");
        out.append(lines.as_str());
        out.append(border.as_str());
        out.append("\ntotal count: ");
        number::push_signed(&mut out, total);
        out.append(", max per area: ");
        number::push_signed(&mut out, maximum);
        out
    }
}

// ---------------------------------------------------------------------
// laws of grid data
// ---------------------------------------------------------------------

/// A cell that was set is read back, and every other cell is as before.
pub proof fn a_set_cell_reads_back(
    before: GridData,
    after: GridData,
    x: int,
    y: int,
    value: Option<GridElement>,
    other_x: int,
    other_y: int,
)
    requires
        before.has_cell(x, y),
        after.cells() == before.cells().update(y, before.cells()[y].update(x, value)),
    ensures
        after.has_cell(x, y) && after.cells()[y][x] == value,
        after.has_cell(other_x, other_y) == before.has_cell(other_x, other_y),
        before.has_cell(other_x, other_y) && (other_x, other_y) != (x, y) ==> after.cells()[other_y][other_x]
            == before.cells()[other_y][other_x],
{
}

proof fn lemma_row_maximum(row: Seq<Option<GridElement>>, n: int, least: int)
    requires
        0 <= n <= row.len(),
    ensures
        row_maximum(row, n, least) >= least,
        forall|j: int| 0 <= j < n ==> ((#[trigger] row[j]) matches Some(c) ==> c.count <= row_maximum(row, n, least)),
        row_maximum(row, n, least) > least ==> exists|j: int|
            0 <= j < n && ((#[trigger] row[j]) matches Some(c) && c.count == row_maximum(row, n, least)),
    decreases n,
{
    if n > 0 {
        lemma_row_maximum(row, n - 1, least);
        let m = row_maximum(row, n, least);
        let before = row_maximum(row, n - 1, least);
        if m > least {
            if m > before {
                assert(row[n - 1] matches Some(c) && c.count == m);
            } else {
                let j = choose|j: int|
                    0 <= j < n - 1 && ((#[trigger] row[j]) matches Some(c) && c.count == before);
                assert(row[j] matches Some(c) && c.count == m);
            }
        }
    }
}

/// The reported maximum is the greatest count of the grid, zero for a grid
/// without strikes.
pub proof fn the_maximum_is_the_greatest_count(rows: Seq<Seq<Option<GridElement>>>, n: int)
    requires
        0 <= n <= rows.len(),
    ensures
        is_maximum(rows.take(n), rows_maximum(rows, n)),
    decreases n,
{
    if n > 0 {
        the_maximum_is_the_greatest_count(rows, n - 1);
        let row = rows[n - 1];
        let before = rows_maximum(rows, n - 1);
        let m = rows_maximum(rows, n);
        lemma_row_maximum(row, row.len() as int, before);
        let part = rows.take(n);
        assert forall|i: int, j: int| 0 <= i < part.len() && 0 <= j < part[i].len() implies (
        (#[trigger] part[i][j]) matches Some(c) ==> c.count <= m) by {
            if i < n - 1 {
                assert(rows.take(n - 1)[i][j] == part[i][j]);
            } else {
                assert(row[j] == part[i][j]);
            }
        }
        if m > 0 {
            if m > before {
                let j = choose|j: int| 0 <= j < row.len() && ((#[trigger] row[j]) matches Some(c) && c.count == m);
                assert(part[n - 1][j] matches Some(c) && c.count == m);
            } else {
                let earlier = rows.take(n - 1);
                let (i, j) = choose|i: int, j: int|
                    0 <= i < earlier.len() && 0 <= j < earlier[i].len() && ((#[trigger] earlier[i][j]) matches Some(c)
                        && c.count == before);
                assert(part[i][j] matches Some(c) && c.count == m);
            }
        }
    }
}

/// The symbol of a cell lies among the seven symbols, blank exactly without a
/// strike.
pub proof fn a_cell_is_blank_exactly_without_a_strike(cell: Option<GridElement>, maximum: int)
    requires
        maximum >= 0,
    ensures
        ({
            let symbol = map_symbol(symbol_index(cell, map_step(maximum).0, map_step(maximum).1));
            symbol == ' ' <==> !(cell matches Some(c) && c.count > 0)
        }),
{
    if let Some(c) = cell {
        let n = map_step(maximum).0;
        let d = map_step(maximum).1;
        let above = c.count - 1;
        let p = above * d;
        if c.count > 0 {
            assert(p / n >= 0) by (nonlinear_arith)
                requires
                    p == above * d,
                    above >= 0,
                    d > 0,
                    n > 0,
            ;
        } else {
            assert(p < 0) by (nonlinear_arith)
                requires
                    p == above * d,
                    above < 0,
                    d > 0,
            ;
            assert(p / n <= -1) by (nonlinear_arith)
                requires
                    p < 0,
                    n > 0,
            ;
        }
    }
}

// ---------------------------------------------------------------------
// laws of texts
// ---------------------------------------------------------------------

/// The text of a timestamp is its date and nine digits behind a point: the
/// nanoseconds of its second.
pub proof fn event_texts_show_the_nanoseconds(date: Seq<char>, micros: int, nanosecond: int)
    requires
        0 <= nanosecond <= 999,
    ensures
        ({
            let s = event_text(date, micros, nanosecond);
            &&& s.len() == date.len() + 10
            &&& s.take(date.len() as int) == date
            &&& s[date.len() as int] == '.'
            &&& number::all_digits(s.skip(date.len() as int + 1))
            &&& number::digits_value(s.skip(date.len() as int + 1)) == (micros % 1_000_000) * 1000 + nanosecond
        }),
{
    reveal_strlit(".");
    reveal_with_fuel(number::ten_to, 7);
    let a = number::signed_padded(micros % 1_000_000, 6);
    let b = number::signed_padded(nanosecond, 3);
    number::padded_numbers_read_back((micros % 1_000_000) as nat, 6);
    number::padded_numbers_read_back(nanosecond as nat, 3);
    number::lemma_digits_joined(a, b);
    let s = event_text(date, micros, nanosecond);
    assert(s.skip(date.len() as int + 1) =~= a + b);
    assert(s.take(date.len() as int) =~= date);
    assert forall|i: int| 0 <= i < (a + b).len() implies number::is_digit(#[trigger] (a + b)[i]) by {
        if i < a.len() {
            assert((a + b)[i] == a[i]);
        } else {
            assert((a + b)[i] == b[i - a.len()]);
        }
    }
}

/// The line of a strike shows, between spaces, its time, longitude, latitude,
/// altitude, amplitude, lateral error and number of stations.
pub proof fn strike_lines_show_their_fields(strike: Strike, event: Seq<char>, figures: StrikeFigures)
    ensures
        strike_line(strike, event, figures) == text::join(
            seq![
                event,
                figures.x@,
                figures.y@,
                match figures.altitude {
                    Some(a) => a@,
                    None => "-"@,
                },
                figures.amplitude@,
                number::signed_decimal(
                    match strike.lateral_error {
                        Some(e) => e as int,
                        None => 0,
                    },
                ),
                number::signed_decimal(
                    match strike.station_count {
                        Some(n) => n as int,
                        None => 0,
                    },
                ),
            ],
            " "@,
        ),
{
    reveal_with_fuel(text::joined, 8);
}

/// A timestamp is valid from the year 1901 on, which began sixty-nine years and
/// seventeen leap days before the epoch.
pub proof fn timestamps_are_valid_from_1901_on(t: Timestamp)
    ensures
        t.valid() <==> t.datetime is Some && t.datetime->0 >= -((69 * 365 + 17) * 86_400 * 1_000_000),
{
}

/// The bounds of valid positions are half a turn to the east and to the west,
/// and the poles.
pub proof fn positions_are_bounded_by_the_globe()
    ensures
        (Real { bits: MAX_LONGITUDE_BITS }).truncated() == 180,
        (Real { bits: MIN_LONGITUDE_BITS }).truncated() == -180,
        (Real { bits: NORTH_POLE_BITS }).truncated() == 90,
        (Real { bits: SOUTH_POLE_BITS }).truncated() == -90,
{
    vstd::arithmetic::power2::lemma2_to64();
    vstd::arithmetic::power2::lemma2_to64_rest();
    let a = Real { bits: MAX_LONGITUDE_BITS };
    let b = Real { bits: NORTH_POLE_BITS };
    assert(a.exponent() == 1030 && a.significand() == 180 * 0x2000_0000_0000);
    assert(b.exponent() == 1029 && b.significand() == 90 * 0x4000_0000_0000);
    let c = Real { bits: MIN_LONGITUDE_BITS };
    let d = Real { bits: SOUTH_POLE_BITS };
    assert(c.exponent() == 1030 && c.significand() == 180 * 0x2000_0000_0000);
    assert(d.exponent() == 1029 && d.significand() == 90 * 0x4000_0000_0000);
    assert(vstd::arithmetic::power2::pow2(45) == 0x2000_0000_0000);
    assert(vstd::arithmetic::power2::pow2(46) == 0x4000_0000_0000);
    vstd::arithmetic::div_mod::lemma_fundamental_div_mod_converse(
        a.significand(),
        vstd::arithmetic::power2::pow2(45) as int,
        180,
        0,
    );
    vstd::arithmetic::div_mod::lemma_fundamental_div_mod_converse(
        b.significand(),
        vstd::arithmetic::power2::pow2(46) as int,
        90,
        0,
    );
    assert(a.integral_magnitude() == 180 && c.integral_magnitude() == 180);
    assert(b.integral_magnitude() == 90 && d.integral_magnitude() == 90);
}

/// A position east or west of the map, or at or beyond a pole, is not valid.
pub proof fn positions_beyond_the_globe_are_not_valid(x: Real, y: Real)
    requires
        is_location(x, y),
    ensures
        !x.is_nan() && !y.is_nan(),
        (Real { bits: MIN_LONGITUDE_BITS }).rank() <= x.rank() <= (Real { bits: MAX_LONGITUDE_BITS }).rank(),
        (Real { bits: SOUTH_POLE_BITS }).rank() < y.rank() < (Real { bits: NORTH_POLE_BITS }).rank(),
        x.rank() != 0 || y.rank() != 0,
{
}

/// The rows of an arc grid come from north to south, and each shows the counts
/// of its cells from west to east, zero for an empty one.
pub proof fn arc_rows_show_the_counts(rows: Seq<Seq<Option<GridElement>>>, i: int, j: int)
    requires
        0 <= i < rows.len(),
        0 <= j < rows[i].len(),
    ensures
        arc_rows(rows).len() == rows.len(),
        text::pieces(arc_rows(rows)[rows.len() - 1 - i], ' ').len() == rows[i].len(),
        number::signed_value(text::pieces(arc_rows(rows)[rows.len() - 1 - i], ' ')[j]) == Some(
            match rows[i][j] {
                Some(c) => c.count as int,
                None => 0,
            },
        ),
{
    reveal_strlit(" ");
    reveal_strlit("0");
    let row = rows[i];
    let words = row.map_values(|cell: Option<GridElement>| multiplicity(cell));
    assert(" "@ =~= seq![' ']);
    assert("0"@ =~= number::decimal(0));
    assert forall|k: int| 0 <= k < words.len() implies !(#[trigger] words[k]).contains(' ') by {
        lemma_multiplicity(row[k]);
    }
    lemma_multiplicity(row[j]);
    text::lemma_pieces_of_join(words, ' ', words.len() as int);
    assert(words.take(words.len() as int) =~= words);
}

proof fn lemma_multiplicity(cell: Option<GridElement>)
    ensures
        !multiplicity(cell).contains(' '),
        number::signed_value(multiplicity(cell)) == Some(
            match cell {
                Some(c) => c.count as int,
                None => 0,
            },
        ),
{
    reveal_strlit("0");
    assert("0"@ =~= number::decimal(0));
    let v = match cell {
        Some(c) => c.count as int,
        None => 0,
    };
    let n: nat = if v < 0 {
        (-v) as nat
    } else {
        v as nat
    };
    number::lemma_decimal_reads_back(n);
    let digits = number::decimal(n);
    let s = multiplicity(cell);
    assert(s == number::signed_decimal(v));
    if v < 0 {
        assert(s.skip(1) =~= digits);
    } else {
        assert(number::is_digit(digits[0]));
    }
    if s.contains(' ') {
        let k = choose|k: int| 0 <= k < s.len() && s[k] == ' ';
        if v < 0 {
            if k > 0 {
                assert(number::is_digit(digits[k - 1]));
            }
        } else {
            assert(number::is_digit(digits[k]));
        }
        assert(false);
    }
}

/// An arc grid has a line for each part of its header, then one for each row.
pub proof fn arc_grids_show_their_header(data: GridData, figures: ArcFigures)
    requires
        data.cells().len() > 0,
    ensures
        data.arcgrid_text(figures) == text::join(
            seq![
                "NCOLS "@ + number::signed_decimal(data.x_bin_count as int),
                "NROWS "@ + number::signed_decimal(data.y_bin_count as int),
                "XLLCORNER "@ + figures.x_corner@,
                "YLLCORNER "@ + figures.y_corner@,
                "CELLSIZE "@ + figures.cell_size@,
                "NODATA_VALUE "@ + number::signed_decimal(data.no_data as int),
                text::join(arc_rows(data.cells()), "\n"@),
            ],
            "\n"@,
        ),
{
    let a = number::signed_decimal(data.x_bin_count as int);
    let b = number::signed_decimal(data.y_bin_count as int);
    let c = figures.x_corner@;
    let d = figures.y_corner@;
    let e = figures.cell_size@;
    let f = number::signed_decimal(data.no_data as int);
    let rest = text::join(arc_rows(data.cells()), "\n"@);
    let items = seq![
        "NCOLS "@ + a,
        "NROWS "@ + b,
        "XLLCORNER "@ + c,
        "YLLCORNER "@ + d,
        "CELLSIZE "@ + e,
        "NODATA_VALUE "@ + f,
        rest,
    ];
    let g1 = "NCOLS "@ + a;
    assert(text::joined(items, "\n"@, 1) == g1);
    lemma_header_line(g1, b);
    let g2 = g1 + "\nNROWS "@ + b;
    assert(text::joined(items, "\n"@, 2) == g2);
    lemma_header_line(g2, c);
    let g3 = g2 + "\nXLLCORNER "@ + c;
    assert(text::joined(items, "\n"@, 3) == g3);
    lemma_header_line(g3, d);
    let g4 = g3 + "\nYLLCORNER "@ + d;
    assert(text::joined(items, "\n"@, 4) == g4);
    lemma_header_line(g4, e);
    let g5 = g4 + "\nCELLSIZE "@ + e;
    assert(text::joined(items, "\n"@, 5) == g5);
    lemma_header_line(g5, f);
    let g6 = g5 + "\nNODATA_VALUE "@ + f;
    assert(text::joined(items, "\n"@, 6) == g6);
    assert(text::joined(items, "\n"@, 7) == g6 + "\n"@ + rest);
    assert(data.arcgrid_text(figures) == g6 + "\n"@ + rest);
}

proof fn lemma_header_line(before: Seq<char>, value: Seq<char>)
    ensures
        before + "\nNROWS "@ + value == before + "\n"@ + ("NROWS "@ + value),
        before + "\nXLLCORNER "@ + value == before + "\n"@ + ("XLLCORNER "@ + value),
        before + "\nYLLCORNER "@ + value == before + "\n"@ + ("YLLCORNER "@ + value),
        before + "\nCELLSIZE "@ + value == before + "\n"@ + ("CELLSIZE "@ + value),
        before + "\nNODATA_VALUE "@ + value == before + "\n"@ + ("NODATA_VALUE "@ + value),
{
    reveal_strlit("\n");
    reveal_strlit("\nNROWS ");
    reveal_strlit("NROWS ");
    reveal_strlit("\nXLLCORNER ");
    reveal_strlit("XLLCORNER ");
    reveal_strlit("\nYLLCORNER ");
    reveal_strlit("YLLCORNER ");
    reveal_strlit("\nCELLSIZE ");
    reveal_strlit("CELLSIZE ");
    reveal_strlit("\nNODATA_VALUE ");
    reveal_strlit("NODATA_VALUE ");
    assert(before + "\nNROWS "@ + value =~= before + "\n"@ + ("NROWS "@ + value));
    assert(before + "\nXLLCORNER "@ + value =~= before + "\n"@ + ("XLLCORNER "@ + value));
    assert(before + "\nYLLCORNER "@ + value =~= before + "\n"@ + ("YLLCORNER "@ + value));
    assert(before + "\nCELLSIZE "@ + value =~= before + "\n"@ + ("CELLSIZE "@ + value));
    assert(before + "\nNODATA_VALUE "@ + value =~= before + "\n"@ + ("NODATA_VALUE "@ + value));
}

/// The total is the sum of all counts: each cell and each row adds its own.
pub proof fn the_total_is_the_sum_of_the_counts(
    rows: Seq<Seq<Option<GridElement>>>,
    row: Seq<Option<GridElement>>,
    cell: Option<GridElement>,
)
    ensures
        rows_total(rows.push(row), rows.len() as int + 1) == rows_total(rows, rows.len() as int) + row_total(
            row,
            row.len() as int,
        ),
        row_total(row.push(cell), row.len() as int + 1) == row_total(row, row.len() as int) + (match cell {
            Some(c) => c.count as int,
            None => 0,
        }),
        rows_total(Seq::empty(), 0) == 0,
        row_total(Seq::empty(), 0) == 0,
{
    lemma_rows_total_prefix(rows, row, rows.len() as int);
    lemma_row_total_prefix(row, cell, row.len() as int);
}

proof fn lemma_rows_total_prefix(rows: Seq<Seq<Option<GridElement>>>, row: Seq<Option<GridElement>>, n: int)
    requires
        0 <= n <= rows.len(),
    ensures
        rows_total(rows.push(row), n) == rows_total(rows, n),
    decreases n,
{
    if n > 0 {
        lemma_rows_total_prefix(rows, row, n - 1);
    }
}

proof fn lemma_row_total_prefix(row: Seq<Option<GridElement>>, cell: Option<GridElement>, n: int)
    requires
        0 <= n <= row.len(),
    ensures
        row_total(row.push(cell), n) == row_total(row, n),
    decreases n,
{
    if n > 0 {
        lemma_row_total_prefix(row, cell, n - 1);
    }
}

/// On a map more strikes never have a lower symbol, and the cell with the most
/// strikes has the highest one that the map uses.
pub proof fn more_strikes_have_a_higher_symbol(a: GridElement, b: GridElement, maximum: int)
    requires
        0 < a.count <= b.count <= maximum,
    ensures
        ({
            let (numerator, denominator) = map_step(maximum);
            let low = symbol_index(Some(a), numerator, denominator);
            let high = symbol_index(Some(b), numerator, denominator);
            &&& 1 <= low <= high <= 7
            &&& maximum <= 7 ==> low == a.count
            &&& maximum > 7 && b.count == maximum ==> high == 6
        }),
{
    let (n, d) = map_step(maximum);
    let p = (a.count - 1) * d;
    let q = (b.count - 1) * d;
    if maximum > 7 {
        assert(0 <= p / n <= q / n <= 5) by (nonlinear_arith)
            requires
                0 <= p <= q,
                q <= 6 * n - 6,
                n > 7,
        ;
        if b.count == maximum {
            assert(q / n == 5) by (nonlinear_arith)
                requires
                    q == 6 * n - 6,
                    n > 7,
            ;
        }
    }
}

/// A map shows its rows from north to south, one symbol for each cell from west
/// to east, between bars.
pub proof fn maps_show_their_rows_from_the_north(rows: Seq<Seq<Option<GridElement>>>, maximum: int, n: int)
    requires
        0 <= n < rows.len(),
    ensures
        map_lines(rows, maximum, n + 1) == map_lines(rows, maximum, n) + "|"@ + map_symbols(
            rows[rows.len() - 1 - n],
            maximum,
        ) + "|\n"@,
        map_symbols(rows[n], maximum).len() == rows[n].len(),
        forall|j: int|
            0 <= j < rows[n].len() ==> #[trigger] map_symbols(rows[n], maximum)[j] == map_symbol(
                symbol_index(rows[n][j], map_step(maximum).0, map_step(maximum).1),
            ),
        map_lines(rows, maximum, 0).len() == 0,
{
}

/// The bytes of a text of ASCII characters can be cut where the text can.
pub proof fn lemma_ascii_cut(s: Seq<char>, k: int)
    requires
        is_ascii_chars(s),
        0 <= k <= s.len(),
    ensures
        encode_utf8(s).len() == s.len(),
        encode_utf8(s).subrange(0, k) == encode_utf8(s.take(k)),
        encode_utf8(s).skip(k) == encode_utf8(s.skip(k)),
        is_char_boundary(encode_utf8(s), k),
{
    let bytes = encode_utf8(s);
    is_ascii_chars_encode_utf8(s);
    assert forall|i: int| 0 <= i < k implies '\0' <= #[trigger] s.take(k)[i] <= '\u{7f}' by {
        assert(s.take(k)[i] == s[i]);
    }
    assert forall|i: int| 0 <= i < s.len() - k implies '\0' <= #[trigger] s.skip(k)[i] <= '\u{7f}' by {
        assert(s.skip(k)[i] == s[k + i]);
    }
    is_ascii_chars_encode_utf8(s.take(k));
    is_ascii_chars_encode_utf8(s.skip(k));
    assert forall|i: int| 0 <= i < k implies bytes[i] == encode_utf8(s.take(k))[i] by {
        assert(s.take(k)[i] == s[i]);
    }
    assert(bytes.subrange(0, k) =~= encode_utf8(s.take(k)));
    assert forall|i: int| 0 <= i < s.len() - k implies bytes[k + i] == encode_utf8(s.skip(k))[i] by {
        assert(s.skip(k)[i] == s[k + i]);
    }
    assert(bytes.skip(k) =~= encode_utf8(s.skip(k)));
    encode_utf8_valid_utf8(s);
    if k < s.len() {
        let b = bytes[k];
        assert(b == s[k] as u8);
        assert(b < 128);
        is_char_boundary_iff_is_leading_byte(bytes, k);
        assert(b < 128 ==> b & 0x80 == 0) by (bit_vector);
        assert(is_leading_byte_width_1(b));
    } else {
        is_char_boundary_start_end_of_seq(bytes);
    }
}

/// The text of an event reads back: a date and a time that stand for an
/// instant, then a point, the microseconds and the nanoseconds.
pub proof fn event_texts_read_back(date: Seq<char>, instant: int, rest: int, micros: int, nanosecond: int)
    requires
        date.len() == 19,
        is_ascii_chars(date),
        clock::utc_instant(date, "%Y-%m-%d %H:%M:%S"@) == Some((instant, rest)),
        0 <= nanosecond <= 999,
    ensures
        timestamp_parts(event_text(date, micros, nanosecond)) == Some((instant + micros % 1_000_000, nanosecond)),
        timestamp_parts(date) == Some((instant, 0int)),
{
    reveal_strlit(".");
    reveal_with_fuel(number::ten_to, 7);
    let a = number::signed_padded(micros % 1_000_000, 6);
    let b = number::signed_padded(nanosecond, 3);
    number::padded_numbers_read_back((micros % 1_000_000) as nat, 6);
    number::padded_numbers_read_back(nanosecond as nat, 3);
    let s = event_text(date, micros, nanosecond);
    assert(s =~= date + "."@ + a + b);
    assert forall|i: int| 0 <= i < s.len() implies '\0' <= #[trigger] s[i] <= '\u{7f}' by {
        if i < 19 {
            assert(s[i] == date[i]);
        } else if i == 19 {
            assert(s[i] == '.');
        } else if i < 26 {
            assert(s[i] == a[i - 20]);
            assert(number::is_digit(a[i - 20]));
        } else {
            assert(s[i] == b[i - 26]);
            assert(number::is_digit(b[i - 26]));
        }
    }
    let bytes = encode_utf8(s);
    lemma_ascii_cut(s, 26);
    let head = s.take(26);
    assert forall|i: int| 0 <= i < 26 implies '\0' <= #[trigger] head[i] <= '\u{7f}' by {
        assert(head[i] == s[i]);
    }
    lemma_ascii_cut(head, 19);
    assert(bytes.subrange(0, 26) == encode_utf8(head));
    assert(head.take(19) =~= date);
    assert(head.skip(19) =~= "."@ + a);
    assert(s.skip(26) =~= b);
    assert(bytes.subrange(0, 19) =~= encode_utf8(head).subrange(0, 19));
    assert(bytes.subrange(19, 26) =~= encode_utf8(head).skip(19));
    assert(bytes.subrange(26, bytes.len() as int) =~= bytes.skip(26));
    encode_utf8_decode_utf8(date);
    encode_utf8_decode_utf8("."@ + a);
    encode_utf8_decode_utf8(b);
    assert(("."@ + a).skip(1) =~= a);
    assert(fraction_microseconds("."@ + a) == Some(micros % 1_000_000));
    three_digits_are_nanoseconds(b);
    is_ascii_chars_encode_utf8(date);
}

/// A timestamp that is made of an instant and nanoseconds, or of nanoseconds
/// alone, has their value, with less than a microsecond behind the instant.
pub proof fn made_timestamps_keep_their_value(datetime: int, nanosecond: int, total: int)
    requires
        clock::representable(datetime),
        clock::representable(datetime + nanosecond / 1000),
        i64::MIN <= total <= i64::MAX,
    ensures
        Timestamp::normalised(datetime, nanosecond).nanoseconds() == datetime * 1000 + nanosecond,
        0 <= Timestamp::normalised(datetime, nanosecond).nanosecond <= 999,
        Timestamp::of_nanoseconds(total).nanoseconds() == total,
        0 <= Timestamp::of_nanoseconds(total).nanosecond <= 999,
{
}

/// What is not replaced in a timestamp stays.
pub proof fn replacing_keeps_the_rest(t: Timestamp, nanosecond: i64, datetime: i64)
    requires
        t.datetime is Some,
        0 <= t.nanosecond <= 999,
        0 <= nanosecond <= 999,
    ensures
        t.replaced(None, None) == t,
        t.replaced(Some(nanosecond), None).datetime == t.datetime,
        t.replaced(Some(nanosecond), None).nanosecond == nanosecond,
        t.replaced(None, Some(datetime)).datetime == Some(datetime),
        t.replaced(None, Some(datetime)).nanosecond == t.nanosecond,
        t.replaced(Some(nanosecond), Some(datetime)) == (Timestamp { datetime: Some(datetime), nanosecond }),
{
}

/// The difference between two strikes leads from the first to the other one,
/// and is positive when the other one is later.
pub proof fn differences_lead_to_the_other_strike(a: Strike, b: Strike)
    requires
        a.timestamp.datetime is Some,
        b.timestamp.datetime is Some,
        0 <= a.timestamp.nanosecond <= 999,
        0 <= b.timestamp.nanosecond <= 999,
    ensures
        a.timestamp.nanoseconds() + a.nanoseconds_to(&b) == b.timestamp.nanoseconds(),
        a.nanoseconds_to(&b) == -b.nanoseconds_to(&a),
        a.nanoseconds_to(&b) > 0 <==> b.timestamp.after(a.timestamp),
{
}

/// An amplitude is printed as it is, but for a zero with a sign, which has none.
pub proof fn amplitudes_are_printed_as_they_are(strike: Strike)
    ensures
        strike.amplitude matches Some(a) ==> (a.bits != 0x8000_0000_0000_0000 ==> strike.printed_amplitude() == a) && (
        a.bits == 0x8000_0000_0000_0000 ==> strike.printed_amplitude().bits == 0),
        strike.amplitude is None ==> strike.printed_amplitude().bits == 0,
{
}

/// A strike without an instant, before 1901 or off the globe is not valid, and
/// its other values do not matter.
pub proof fn valid_strikes_have_a_time_and_a_place(a: Strike, b: Strike)
    ensures
        a.timestamp.datetime is None ==> !a.valid(),
        a.timestamp.datetime matches Some(m) ==> m < -((69 * 365 + 17) * 86_400 * 1_000_000) ==> !a.valid(),
        a.x.is_nan() || a.y.is_nan() ==> !a.valid(),
        a.x == b.x && a.y == b.y && a.timestamp == b.timestamp ==> a.valid() == b.valid(),
{
}

/// A map stands between two borders that are as wide as its rows with their own
/// borders, and ends with the sum of the counts and the greatest of them.
pub proof fn maps_stand_between_borders(data: GridData)
    requires
        data.x_bin_count >= 0,
    ensures
        ({
            let n = data.cells().len() as int;
            let maximum = rows_maximum(data.cells(), n);
            let border = Seq::new((data.x_bin_count + 2) as nat, |i: int| '-');
            data.map_text() == border + seq!['\n'] + map_lines(data.cells(), maximum, n) + border + seq!['\n']
                + "total count: "@ + number::signed_decimal(rows_total(data.cells(), n)) + ", max per area: "@
                + number::signed_decimal(maximum)
        }),
{
    reveal_strlit("\n");
    reveal_strlit("\ntotal count: ");
    reveal_strlit("total count: ");
    let n = data.cells().len() as int;
    let maximum = rows_maximum(data.cells(), n);
    let border = Seq::new((data.x_bin_count + 2) as nat, |i: int| '-');
    assert(map_border(data.x_bin_count as int) =~= border);
    assert("\n"@ =~= seq!['\n']);
    assert("\ntotal count: "@ =~= seq!['\n'] + "total count: "@);
    let front = border + seq!['\n'] + map_lines(data.cells(), maximum, n) + border;
    assert(front + (seq!['\n'] + "total count: "@) =~= front + seq!['\n'] + "total count: "@);
}

} // verus!
