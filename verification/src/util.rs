//! Time helpers.

use vstd::prelude::*;
use vstd::string::*;

use crate::clock;

verus! {

/// Microseconds of a day.
pub const MICROS_PER_DAY: i64 = 86_400_000_000;

/// Microseconds of a second.
pub const MICROS_PER_SECOND: i64 = 1_000_000;

/// A lap timer on instants in nanoseconds.
#[derive(Debug, Clone, Copy, PartialEq, Eq, Structural)]
pub struct Timer {
    pub start_time: u64,
    pub lap_time: u64,
}

impl Timer {
    /// A timer that starts at `now`.
    pub fn new(now: u64) -> (r: Timer)
        ensures
            r == (Timer { start_time: now, lap_time: now }),
    {
        Timer { start_time: now, lap_time: now }
    }

    /// Nanoseconds since the start.
    pub fn read(&self, now: u64) -> (r: u64)
        requires
            self.start_time <= now,
        ensures
            r == now - self.start_time,
    {
        now - self.start_time
    }

    /// Nanoseconds since the previous lap; starts a new lap.
    pub fn lap(&mut self, now: u64) -> (r: u64)
        requires
            old(self).lap_time <= now,
        ensures
            r == now - old(self).lap_time,
            *final(self) == (Timer { start_time: old(self).start_time, lap_time: now }),
    {
        let lap: u64 = now - self.lap_time;
        self.lap_time = now;
        lap
    }
}

/// Seconds from midnight to an instant.
pub open spec fn day_seconds(micros: int) -> int {
    (micros % MICROS_PER_DAY as int) / MICROS_PER_SECOND as int
}

/// Seconds from midnight to an instant.
pub fn total_seconds(micros: i64) -> (r: i64)
    ensures
        r == day_seconds(micros as int),
        0 <= r < 86_400,
{
    let rest: i64 = micros % MICROS_PER_DAY;
    let in_day: i64 = if rest < 0 {
        rest + MICROS_PER_DAY
    } else {
        rest
    };
    assert(in_day == micros as int % MICROS_PER_DAY as int);
    in_day / MICROS_PER_SECOND
}

/// The whole seconds of a duration, at least one.
pub open spec fn step_seconds(duration: int) -> int {
    if duration < 2 * MICROS_PER_SECOND {
        1
    } else {
        duration / MICROS_PER_SECOND as int
    }
}

/// Midnight before an instant.
pub open spec fn midnight(micros: int) -> int {
    micros - micros % MICROS_PER_DAY as int
}

/// An instant rounded down to a multiple of a duration since midnight.
pub open spec fn rounded(micros: int, duration: int) -> int {
    midnight(micros) + (day_seconds(micros) / step_seconds(duration)) * step_seconds(duration)
        * MICROS_PER_SECOND
}

/// Round an instant down to a multiple of a duration since midnight.
pub fn round_time(micros: i64, duration: i64) -> (r: i64)
    requires
        clock::representable(micros as int),
    ensures
        r == rounded(micros as int, duration as int),
        r <= micros,
        r > micros - MICROS_PER_DAY,
{
    let step: i64 = if duration < 2 * MICROS_PER_SECOND {
        1
    } else {
        duration / MICROS_PER_SECOND
    };
    let seconds: i64 = total_seconds(micros);
    let rest: i64 = micros % MICROS_PER_DAY;
    let in_day: i64 = if rest < 0 {
        rest + MICROS_PER_DAY
    } else {
        rest
    };
    assert(in_day == micros as int % MICROS_PER_DAY as int);
    let kept: i64 = seconds - seconds % step;
    proof {
        let s = seconds as int;
        let d = step as int;
        assert(s - s % d == (s / d) * d && 0 <= s % d <= s) by (nonlinear_arith)
            requires
                s >= 0,
                d >= 1,
        ;
    }
    micros - in_day + kept * MICROS_PER_SECOND
}

/// The start times of the intervals from `start` to `end`, both rounded.
pub open spec fn interval_starts(start: int, duration: int, end: int) -> Seq<int> {
    let first = rounded(start, duration);
    let last = rounded(end, duration);
    Seq::new(
        if first > last {
            0
        } else {
            ((last - first) / duration + 1) as nat
        },
        |i: int| first + i * duration,
    )
}

/// The values of a list of instants.
pub open spec fn instants(v: Seq<i64>) -> Seq<int> {
    v.map_values(|t: i64| t as int)
}

/// The start times of the intervals from `start_time` to `end_time`, both
/// rounded to `duration`, both ends included.
pub fn time_intervals(start_time: i64, duration: i64, end_time: i64) -> (r: Vec<i64>)
    requires
        duration > 0,
        clock::representable(start_time as int),
        clock::representable(end_time as int),
    ensures
        instants(r@) == interval_starts(start_time as int, duration as int, end_time as int),
{
    let first: i64 = round_time(start_time, duration);
    let last: i64 = round_time(end_time, duration);
    let ghost all = interval_starts(start_time as int, duration as int, end_time as int);
    let mut result: Vec<i64> = Vec::new();
    if first > last {
        assert(instants(result@) =~= all);
        return result;
    }
    let mut current: i64 = first;
    result.push(current);
    proof {
        let gap = last - first;
        let d = duration as int;
        assert(gap / d >= 0 && d * (gap / d) <= gap < d * (gap / d) + d) by (nonlinear_arith)
            requires
                gap >= 0,
                d > 0,
        ;
        assert(0 * d == 0);
        assert(instants(result@) =~= all.take(1));
    }
    while (last as i128 - current as i128) >= duration as i128
        invariant
            duration > 0,
            first <= current <= last,
            1 <= result@.len() <= all.len(),
            all.len() == (last - first) / (duration as int) + 1,
            forall|i: int| 0 <= i < all.len() ==> #[trigger] all[i] == first + i * duration,
            current == first + (result@.len() - 1) * duration,
            instants(result@) == all.take(result@.len() as int),
        decreases last - current,
    {
        current = current + duration;
        let ghost n = result@.len() as int;
        let ghost before = result@;
        result.push(current);
        proof {
            let d = duration as int;
            let gap = last - first;
            assert(n * d == (n - 1) * d + d) by (nonlinear_arith);
            assert(n <= gap / d) by (nonlinear_arith)
                requires
                    n * d <= gap,
                    d > 0,
            ;
            assert(all[n] == first + n * duration);
            assert(instants(result@) =~= instants(before).push(current as int));
            assert(all.take(n + 1) =~= all.take(n).push(all[n]));
        }
    }
    proof {
        let d = duration as int;
        let gap = last - first;
        let n = result@.len() as int;
        assert(n - 1 == gap / d) by (nonlinear_arith)
            requires
                (n - 1) * d <= gap < (n - 1) * d + d,
                d > 0,
        ;
        assert(all.take(n) =~= all);
    }
    result
}

/// The path of a log file.
pub open spec fn path_of(micros: int) -> Seq<char> {
    match clock::utc_text(micros, "%Y/%m/%d/%H/%M"@) {
        Some(path) => path + ".log"@,
        None => ".log"@,
    }
}

/// The path of the log file of an instant, as `YYYY/MM/DD/HH/MM.log`.
pub fn log_path(micros: i64) -> (r: String)
    requires
        clock::representable(micros as int),
    ensures
        r@ == path_of(micros as int),
        clock::utc_text(micros as int, "%Y/%m/%d/%H/%M"@) is Some,
{
    match clock::format_utc(micros, "%Y/%m/%d/%H/%M") {
        Some(path) => path.concat(".log"),
        None => String::from_str(".log"),
    }
}

/// A rounded instant is not later than the instant, on the same day, and a
/// multiple of the duration after midnight; rounding it again changes nothing.
pub proof fn rounding_goes_down_once(micros: int, duration: int)
    ensures
        rounded(micros, duration) <= micros,
        midnight(rounded(micros, duration)) == midnight(micros),
        day_seconds(rounded(micros, duration)) % step_seconds(duration) == 0,
        rounded(rounded(micros, duration), duration) == rounded(micros, duration),
{
    let s = day_seconds(micros);
    let d = step_seconds(duration);
    let day = MICROS_PER_DAY as int;
    let k = (s / d) * d;
    assert(d >= 1) by {
        if duration >= 2 * MICROS_PER_SECOND {
            assert(duration / MICROS_PER_SECOND as int >= 2);
        }
    }
    assert(0 <= k <= s && k % d == 0 && (k / d) * d == k) by (nonlinear_arith)
        requires
            s >= 0,
            d >= 1,
            k == (s / d) * d,
    ;
    let r = rounded(micros, duration);
    assert(r == midnight(micros) + k * MICROS_PER_SECOND) by (nonlinear_arith)
        requires
            r == midnight(micros) + (s / d) * d * MICROS_PER_SECOND,
            k == (s / d) * d,
    ;
    assert(r % day == k * MICROS_PER_SECOND) by {
        assert(midnight(micros) % day == 0);
        assert(0 <= k * MICROS_PER_SECOND < day);
    }
    assert(day_seconds(r) == k);
    assert((day_seconds(r) / d) * d == k);
}

/// The start of the ten minutes that hold an instant.
pub proof fn ten_minutes_start_at_their_multiple(micros: int)
    ensures
        rounded(micros, 600_000_000) == micros - micros % 600_000_000,
{
    let day = micros % 86_400_000_000;
    let s = day / 1_000_000;
    assert(step_seconds(600_000_000) == 600);
    assert(day_seconds(micros) == s);
    assert((s / 600) * 600 * 1_000_000 == day - day % 600_000_000);
    assert(micros % 600_000_000 == day % 600_000_000);
}

/// The ten minutes from the start to the end, counted from the epoch.
proof fn lemma_blocks(start: int, end: int)
    requires
        start <= end,
    ensures
        ({
            let all = interval_starts(start, 600_000_000, end);
            let a = start / 600_000_000;
            let b = end / 600_000_000;
            &&& all.len() == b - a + 1
            &&& forall|i: int| 0 <= i < all.len() ==> #[trigger] all[i] == (a + i) * 600_000_000
        }),
{
    ten_minutes_start_at_their_multiple(start);
    ten_minutes_start_at_their_multiple(end);
    let all = interval_starts(start, 600_000_000, end);
    let a = start / 600_000_000;
    let b = end / 600_000_000;
    let first = rounded(start, 600_000_000);
    let last = rounded(end, 600_000_000);
    assert(first == a * 600_000_000);
    assert(last == b * 600_000_000);
    assert(a <= b);
    assert(last - first == (b - a) * 600_000_000);
    assert((last - first) / 600_000_000 == b - a);
    assert forall|i: int| 0 <= i < all.len() implies #[trigger] all[i] == (a + i) * 600_000_000 by {
        assert(all[i] == first + i * 600_000_000);
    }
}

/// Every instant from the start to the end lies in one of the ten minutes that
/// are listed, and the list goes forward without a gap.
pub proof fn ten_minutes_leave_no_gap(start: int, end: int, t: int)
    requires
        start <= t <= end,
    ensures
        ({
            let all = interval_starts(start, 600_000_000, end);
            &&& exists|i: int| 0 <= i < all.len() && (#[trigger] all[i]) <= t < all[i] + 600_000_000
            &&& forall|i: int| 0 <= i < all.len() - 1 ==> (#[trigger] all[i]) + 600_000_000 == all[i + 1]
            &&& all[0] <= start < all[0] + 600_000_000
            &&& all.last() <= end < all.last() + 600_000_000
        }),
{
    lemma_blocks(start, end);
    let all = interval_starts(start, 600_000_000, end);
    let i = t / 600_000_000 - start / 600_000_000;
    assert(start / 600_000_000 <= t / 600_000_000 <= end / 600_000_000);
    assert(all[i] == (start / 600_000_000 + i) * 600_000_000);
    assert(all[0] == (start / 600_000_000 + 0) * 600_000_000);
    assert(all[all.len() - 1] == (end / 600_000_000) * 600_000_000);
}

/// The place of the ten minutes that hold an instant, among those that are
/// listed.
pub proof fn lemma_listed(start: int, end: int, t: int) -> (i: int)
    requires
        start <= t <= end,
    ensures
        0 <= i < interval_starts(start, 600_000_000, end).len(),
        interval_starts(start, 600_000_000, end)[i] == t - t % 600_000_000,
{
    lemma_blocks(start, end);
    let i = t / 600_000_000 - start / 600_000_000;
    assert(start / 600_000_000 <= t / 600_000_000 <= end / 600_000_000);
    i
}

/// Seconds of the day lie between midnight and midnight.
pub proof fn seconds_count_from_midnight(micros: int)
    ensures
        midnight(micros) % 86_400_000_000 == 0,
        midnight(micros) + day_seconds(micros) * 1_000_000 <= micros < midnight(micros) + (day_seconds(micros) + 1)
            * 1_000_000,
        0 <= day_seconds(micros) < 86_400,
{
}

/// The log of an instant is named after its day, hour and minute.
pub proof fn logs_are_named_after_their_minute(micros: int, name: Seq<char>)
    requires
        clock::utc_text(micros, "%Y/%m/%d/%H/%M"@) == Some(name),
    ensures
        path_of(micros) == name + seq!['.', 'l', 'o', 'g'],
{
    reveal_strlit(".log");
    assert(".log"@ =~= seq!['.', 'l', 'o', 'g']);
}

} // verus!
