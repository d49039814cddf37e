//! Calendar and time zone computations.
//!
//! Instants are microseconds since the Unix epoch.  The calendar and the time
//! zone rules come from `chrono` and `chrono_tz`; what they return is named
//! here, and the functions of the library speak of those names.

use std::fmt::Write;
use std::str::FromStr;

use chrono::TimeZone;
use vstd::prelude::*;
use vstd::string::*;

verus! {

/// Whether an instant lies in the range of the calendar, the years -262143 to
/// 262142.
pub open spec fn representable(micros: int) -> bool {
    -8_334_601_228_800_000_000 <= micros <= 8_210_266_876_799_999_999
}

/// Whether an instant lies in the range of the calendar.
pub fn is_representable(micros: i64) -> (r: bool)
    ensures
        r == representable(micros as int),
{
    -8_334_601_228_800_000_000 <= micros && micros <= 8_210_266_876_799_999_999
}

/// The text of an instant in UTC under a `strftime` format; `None` when the
/// format is not valid.
pub uninterp spec fn utc_text(micros: int, format: Seq<char>) -> Option<Seq<char>>;

/// `chrono::DateTime::format` of an instant in UTC.
///
/// The text is a function of the instant and the format.  A format made of the
/// specifiers `%Y`, `%m`, `%d`, `%H`, `%M`, `%S` and literal characters is
/// valid; of those only the ones that the library uses are listed.
#[verifier::external_body]
pub(crate) fn format_utc(micros: i64, format: &str) -> (r: Option<String>)
    requires
        representable(micros as int),
    ensures
        crate::text::opt_text(r) == utc_text(micros as int, format@),
        plain_format(format@) ==> r is Some,
{
    let instant = chrono::DateTime::<chrono::Utc>::from_timestamp_micros(micros)?;
    let mut out = String::new();
    write!(out, "{}", instant.format(format)).ok().map(|_| out)
}

/// The formats that the library itself uses.
pub open spec fn plain_format(format: Seq<char>) -> bool {
    ||| format == "%Y%m%dT%H:%M:%S"@
    ||| format == "%Y-%m-%d %H:%M:%S"@
    ||| format == "%Y-%m-%d"@
    ||| format == "%Y/%m/%d/%H/%M"@
    ||| format == "%Y%m%d"@
    ||| format == "%H%M"@
}

/// The instant that a text writes in UTC under a `strptime` format, and the
/// nanoseconds from its second to it.
pub uninterp spec fn utc_instant(text: Seq<char>, format: Seq<char>) -> Option<(int, int)>;

/// `chrono::NaiveDateTime::parse_from_str`, read as UTC.  The result is a
/// function of the text and the format.  A leap second counts as the second
/// that follows it: its nanoseconds reach up to two seconds.
#[verifier::external_body]
pub(crate) fn parse_utc(text: &str, format: &str) -> (r: Option<(i64, u32)>)
    ensures
        r matches Some(p) ==> utc_instant(text@, format@) == Some((p.0 as int, p.1 as int)) && p.1 < 2_000_000_000,
        r is None ==> utc_instant(text@, format@) is None,
{
    let time = chrono::NaiveDateTime::parse_from_str(text, format).ok()?.and_utc();
    Some((time.timestamp_micros(), time.timestamp_subsec_nanos()))
}

/// Midnight of the day that a text writes as `%Y%m%d`.
pub uninterp spec fn day_start(text: Seq<char>) -> Option<int>;

/// `chrono::NaiveDate::parse_from_str` under `%Y%m%d`, as its midnight in UTC.
/// The result is a function of the text, and lies in the range of the
/// calendar.
#[verifier::external_body]
pub(crate) fn parse_day(text: &str) -> (r: Option<i64>)
    ensures
        r matches Some(m) ==> day_start(text@) == Some(m as int) && representable(m as int),
        r is None ==> day_start(text@) is None,
{
    let day = chrono::NaiveDate::parse_from_str(text, "%Y%m%d").ok()?;
    Some(day.and_hms_opt(0, 0, 0)?.and_utc().timestamp_micros())
}

/// Microseconds from midnight to the time of day that a text writes under a
/// `strptime` format.
pub uninterp spec fn day_time(text: Seq<char>, format: Seq<char>) -> Option<int>;

/// `chrono::NaiveTime::parse_from_str`, as microseconds from midnight.  The
/// result is a function of the text and the format, and a leap second may
/// reach past the end of the day.
#[verifier::external_body]
pub(crate) fn parse_time(text: &str, format: &str) -> (r: Option<i64>)
    ensures
        r matches Some(m) ==> day_time(text@, format@) == Some(m as int) && 0 <= m < 86_401_000_000,
        r is None ==> day_time(text@, format@) is None,
{
    let time = chrono::NaiveTime::parse_from_str(text, format).ok()?;
    time.signed_duration_since(chrono::NaiveTime::MIN).num_microseconds()
}

/// Whether a time zone has this name.
pub uninterp spec fn zone_known(zone: Seq<char>) -> bool;

/// `chrono_tz::Tz::from_str` succeeds.  Whether it does is a function of the
/// name.
#[verifier::external_body]
pub(crate) fn is_zone(zone: &str) -> (r: bool)
    ensures
        r == zone_known(zone@),
{
    chrono_tz::Tz::from_str(zone).is_ok()
}

/// The instant of a local time, given as microseconds on a clock without an
/// offset; `None` when the zone has no such name, or the local time occurs
/// never or twice.
pub uninterp spec fn zone_instant(zone: Seq<char>, local: int) -> Option<int>;

/// `chrono::TimeZone::from_local_datetime` for a zone of `chrono_tz`, when the
/// result is single.  It is a function of the zone and the local time, lies in
/// the range of the calendar, and exists only for a known zone.
#[verifier::external_body]
pub(crate) fn local_to_utc(zone: &str, local: i64) -> (r: Option<i64>)
    ensures
        r matches Some(m) ==> zone_instant(zone@, local as int) == Some(m as int) && representable(m as int)
            && zone_known(zone@),
        r is None ==> zone_instant(zone@, local as int) is None,
{
    let zone = chrono_tz::Tz::from_str(zone).ok()?;
    let local = chrono::DateTime::<chrono::Utc>::from_timestamp_micros(local)?.naive_utc();
    Some(zone.from_local_datetime(&local).single()?.timestamp_micros())
}

/// The text of an instant in a time zone under a `strftime` format; `None`
/// when the zone has no such name or the format is not valid.
pub uninterp spec fn zone_text(micros: int, zone: Seq<char>, format: Seq<char>) -> Option<Seq<char>>;

/// `chrono::DateTime::with_timezone` for a zone of `chrono_tz`, then
/// `chrono::DateTime::format`.  The text is a function of the instant, the
/// zone and the format; it exists for a known zone and a plain format.
#[verifier::external_body]
pub(crate) fn format_in_zone(micros: i64, zone: &str, format: &str) -> (r: Option<String>)
    requires
        representable(micros as int),
    ensures
        crate::text::opt_text(r) == zone_text(micros as int, zone@, format@),
        r is Some ==> zone_known(zone@),
        zone_known(zone@) && plain_format(format@) ==> r is Some,
{
    let zone = chrono_tz::Tz::from_str(zone).ok()?;
    let instant = chrono::DateTime::<chrono::Utc>::from_timestamp_micros(micros)?;
    let mut out = String::new();
    write!(out, "{}", instant.with_timezone(&zone).format(format)).ok().map(|_| out)
}

} // verus!
