//! Logic shared by the command line tools.

pub mod db_tool;
pub mod import_tool;
pub mod import_websocket_tool;
pub mod insert_tool;
pub mod update_tool;
pub mod webservice;

use vstd::prelude::*;
use vstd::string::*;

use crate::clock;
use crate::config::Config;
use crate::metrics;
use crate::text;

verus! {

/// Format of a date option.
pub const DATE_FORMAT: &'static str = "%Y%m%d";

/// Format of a time option without seconds.
pub const TIME_FORMAT: &'static str = "%H%M";

/// Format of a time option with seconds.
pub const SECONDS_FORMAT: &'static str = "%H%M%S";

/// A message and the exit code that a tool ends with.
#[derive(Debug, PartialEq, Eq)]
pub struct Exit {
    pub message: String,
    pub code: i32,
}

impl Exit {
    /// Whether this is the given message and code.
    pub open spec fn says(self, message: Seq<char>, code: int) -> bool {
        self.message@ == message && self.code == code
    }
}

/// An exit that quotes an option value between `prefix` and `suffix`.
pub(crate) fn exit_quoting(prefix: &str, value: &str, suffix: &str, code: i32) -> (r: Exit)
    ensures
        r.says(prefix@ + value@ + suffix@, code as int),
{
    Exit { message: String::from_str(prefix).concat(value).concat(suffix), code }
}

// ---------------------------------------------------------------------
// errors
// ---------------------------------------------------------------------

/// One link of an error chain.
#[derive(Debug, PartialEq, Eq)]
pub enum Link {
    /// An error with a message.
    Plain(String),
    /// An error that the database server reported.
    Database { severity: String, message: String, detail: Option<String>, hint: Option<String> },
}

/// What a [`Link`] holds.
pub enum LinkModel {
    Plain(Seq<char>),
    Database(Seq<char>, Seq<char>, Option<Seq<char>>, Option<Seq<char>>),
}

impl View for Link {
    type V = LinkModel;

    open spec fn view(&self) -> LinkModel {
        match self {
            Link::Plain(message) => LinkModel::Plain(message@),
            Link::Database { severity, message, detail, hint } => LinkModel::Database(
                severity@,
                message@,
                text::opt_text(*detail),
                text::opt_text(*hint),
            ),
        }
    }
}

/// The links of a chain.
pub open spec fn links(chain: Seq<Link>) -> Seq<LinkModel> {
    chain.map_values(|l: Link| l@)
}

/// Two spaces per level.
pub open spec fn indent(levels: int) -> Seq<char>
    decreases levels,
{
    if levels <= 0 {
        Seq::empty()
    } else {
        indent(levels - 1) + "  "@
    }
}

/// The lines of the first `n` links, and the number of causes among them.
///
/// The first link stands alone; every later one is a cause, one level deeper
/// than the cause before it.  Detail and hint of a database error stand one
/// level below it.  A later link that says only `db error` is left out.
pub open spec fn chain_lines(chain: Seq<LinkModel>, n: int) -> (Seq<Seq<char>>, int)
    decreases n,
{
    if n <= 0 {
        (Seq::empty(), 0)
    } else {
        let (lines, caused) = chain_lines(chain, n - 1);
        match chain[n - 1] {
            LinkModel::Plain(message) => if lines.len() > 0 && message == "db error"@ {
                (lines, caused)
            } else {
                with_cause(lines, caused, message)
            },
            LinkModel::Database(severity, message, detail, hint) => {
                let (longer, level) = with_cause(lines, caused, severity + ": "@ + message);
                let detailed = match detail {
                    Some(d) => longer.push(indent(level + 1) + "detail: "@ + d),
                    None => longer,
                };
                (
                    match hint {
                        Some(h) => detailed.push(indent(level + 1) + "hint: "@ + h),
                        None => detailed,
                    },
                    level,
                )
            },
        }
    }
}

/// The lines with one more message, and the number of causes then.
pub open spec fn with_cause(lines: Seq<Seq<char>>, caused: int, message: Seq<char>) -> (Seq<Seq<char>>, int) {
    if lines.len() == 0 {
        (lines.push(message), caused)
    } else {
        (lines.push(indent(caused + 1) + "caused by: "@ + message), caused + 1)
    }
}

/// The text of an error chain.
pub open spec fn chain_text(chain: Seq<LinkModel>) -> Seq<char> {
    text::join(chain_lines(chain, chain.len() as int).0, "\n"@)
}

fn spaces(levels: usize) -> (r: String)
    ensures
        r@ == indent(levels as int),
{
    let mut out = String::new();
    let mut i: usize = 0;
    assert(out@ =~= indent(0));
    while i < levels
        invariant
            i <= levels,
            out@ == indent(i as int),
        decreases levels - i,
    {
        out.append("  ");
        i = i + 1;
    }
    out
}

fn push_cause(lines: &mut Vec<String>, caused: usize, message: &str) -> (r: usize)
    requires
        caused < usize::MAX,
    ensures
        (text::texts(final(lines)@), r as int) == with_cause(text::texts(old(lines)@), caused as int, message@),
        r <= caused + 1,
{
    let ghost before = text::texts(lines@);
    if lines.len() == 0 {
        lines.push(String::from_str(message));
        assert(text::texts(lines@) =~= before.push(message@));
        caused
    } else {
        let line = spaces(caused + 1).concat("caused by: ").concat(message);
        lines.push(line);
        assert(text::texts(lines@) =~= before.push(indent(caused + 1) + "caused by: "@ + message@));
        caused + 1
    }
}

fn push_note(lines: &mut Vec<String>, level: usize, label: &str, note: &Option<String>)
    requires
        level < usize::MAX,
    ensures
        text::texts(final(lines)@) == (match text::opt_text(*note) {
            Some(s) => text::texts(old(lines)@).push(indent(level + 1) + label@ + s),
            None => text::texts(old(lines)@),
        }),
{
    if let Some(s) = note {
        let ghost before = text::texts(lines@);
        let line = spaces(level + 1).concat(label).concat(s.as_str());
        lines.push(line);
        assert(text::texts(lines@) =~= before.push(indent(level + 1) + label@ + s@));
    }
}

/// Render an error with its chain of causes.
pub fn format_error_chain(chain: &[Link]) -> (r: String)
    requires
        chain@.len() < usize::MAX,
    ensures
        r@ == chain_text(links(chain@)),
{
    let ghost all = links(chain@);
    let mut lines: Vec<String> = Vec::new();
    let mut caused: usize = 0;
    let mut i: usize = 0;
    assert(text::texts(lines@) =~= Seq::<Seq<char>>::empty());
    while i < chain.len()
        invariant
            i <= chain@.len(),
            chain@.len() < usize::MAX,
            all == links(chain@),
            caused <= i,
            (text::texts(lines@), caused as int) == chain_lines(all, i as int),
        decreases chain@.len() - i,
    {
        assert(all[i as int] == chain@[i as int]@);
        assert(text::texts(lines@).len() == lines@.len());
        match &chain[i] {
            Link::Plain(message) => {
                if lines.len() == 0 || !text::same_text(message.as_str(), "db error") {
                    caused = push_cause(&mut lines, caused, message.as_str());
                }
            },
            Link::Database { severity, message, detail, hint } => {
                let full = severity.clone().concat(": ").concat(message.as_str());
                caused = push_cause(&mut lines, caused, full.as_str());
                push_note(&mut lines, caused, "detail: ", detail);
                push_note(&mut lines, caused, "hint: ", hint);
            },
        }
        i = i + 1;
    }
    let mut out = String::new();
    text::push_joined(&mut out, lines.as_slice(), "\n");
    assert(out@ =~= chain_text(all));
    out
}

/// An error chain behind a context.
pub fn describe_error(context: &str, chain: &[Link]) -> (r: String)
    requires
        chain@.len() < usize::MAX,
    ensures
        r@ == context@ + ": "@ + chain_text(links(chain@)),
{
    String::from_str(context).concat(": ").concat(format_error_chain(chain).as_str())
}

/// A chain starts with the message of its first link, and every further line
/// is indented; so a bare `db error` can only be the first line.
pub proof fn a_chain_starts_with_its_first_message(chain: Seq<LinkModel>, n: int)
    requires
        0 < n <= chain.len(),
        chain[0] is Plain,
    ensures
        chain_lines(chain, n).0.len() > 0,
        chain_lines(chain, n).0[0] == chain[0]->Plain_0,
        forall|i: int|
            0 < i < chain_lines(chain, n).0.len() ==> is_indented(#[trigger] chain_lines(chain, n).0[i]),
    decreases n,
{
    if n > 1 {
        a_chain_starts_with_its_first_message(chain, n - 1);
        let (lines, caused) = chain_lines(chain, n - 1);
        lemma_causes(chain, n - 1);
        lemma_indent(caused + 1);
        lemma_indent(caused + 2);
    } else {
        assert(chain_lines(chain, 0).0.len() == 0);
    }
}

/// Whether a line starts with a space.
pub open spec fn is_indented(line: Seq<char>) -> bool {
    line.len() > 0 && line[0] == ' '
}

proof fn lemma_causes(chain: Seq<LinkModel>, n: int)
    requires
        0 <= n <= chain.len(),
    ensures
        chain_lines(chain, n).1 >= 0,
    decreases n,
{
    if n > 0 {
        lemma_causes(chain, n - 1);
    }
}

proof fn lemma_indent(levels: int)
    requires
        levels >= 1,
    ensures
        is_indented(indent(levels)),
    decreases levels,
{
    reveal_strlit("  ");
    if levels > 1 {
        lemma_indent(levels - 1);
    } else {
        assert(indent(1) =~= indent(0) + "  "@);
    }
}

proof fn lemma_indent_spaces(levels: int)
    requires
        levels >= 0,
    ensures
        indent(levels) == Seq::new((2 * levels) as nat, |i: int| ' '),
    decreases levels,
{
    reveal_strlit("  ");
    if levels > 0 {
        lemma_indent_spaces(levels - 1);
    }
    assert(indent(levels) =~= Seq::new((2 * levels) as nat, |i: int| ' '));
}

proof fn lemma_causes_count(chain: Seq<LinkModel>, n: int)
    requires
        0 < n <= chain.len(),
        forall|i: int| 0 <= i < chain.len() ==> (#[trigger] chain[i]) is Plain && chain[i]->Plain_0 != "db error"@,
    ensures
        chain_lines(chain, n).1 == n - 1,
        chain_lines(chain, n).0.len() == n,
    decreases n,
{
    assert(chain[n - 1] is Plain);
    if n > 1 {
        lemma_causes_count(chain, n - 1);
    } else {
        assert(chain_lines(chain, 0).0.len() == 0);
    }
}

/// Every cause stands on a line of its own behind `caused by: `, two spaces
/// deeper than what it caused.
pub proof fn causes_are_indented_by_their_depth(chain: Seq<LinkModel>, n: int, k: int)
    requires
        0 <= k < n <= chain.len(),
        forall|i: int| 0 <= i < chain.len() ==> (#[trigger] chain[i]) is Plain && chain[i]->Plain_0 != "db error"@,
    ensures
        chain_lines(chain, n).0.len() == n,
        k == 0 ==> chain_lines(chain, n).0[k] == chain[0]->Plain_0,
        k > 0 ==> chain_lines(chain, n).0[k] == Seq::new((2 * k) as nat, |i: int| ' ') + "caused by: "@
            + chain[k]->Plain_0,
    decreases n,
{
    assert(chain[n - 1] is Plain);
    lemma_causes_count(chain, n);
    if k < n - 1 {
        causes_are_indented_by_their_depth(chain, n - 1, k);
    } else if n > 1 {
        lemma_causes_count(chain, n - 1);
        lemma_indent_spaces(n - 1);
    } else {
        assert(chain_lines(chain, 0).0.len() == 0);
    }
}

/// A database error shows its severity and its message, and its detail and its
/// hint below them; a bare `db error` in front of it does not hide it, and one
/// behind it is not shown.
pub proof fn database_errors_show_their_notes(
    severity: Seq<char>,
    message: Seq<char>,
    detail: Seq<char>,
    hint: Seq<char>,
)
    ensures
        ({
            let full = severity + ": "@ + message;
            let error = LinkModel::Database(severity, message, Some(detail), Some(hint));
            let bare = LinkModel::Plain("db error"@);
            &&& chain_lines(seq![error, bare], 2).0 == seq![full, "  "@ + "detail: "@ + detail, "  "@ + "hint: "@ + hint]
            &&& chain_lines(seq![bare, error], 2).0 == seq![
                "db error"@,
                "  "@ + "caused by: "@ + full,
                "  "@ + "  "@ + "detail: "@ + detail,
                "  "@ + "  "@ + "hint: "@ + hint,
            ]
            &&& chain_lines(seq![LinkModel::Database(severity, message, None, None)], 1).0 == seq![full]
        }),
{
    reveal_with_fuel(chain_lines, 3);
    reveal_with_fuel(indent, 3);
    let full = severity + ": "@ + message;
    assert(indent(1) =~= "  "@);
    assert(indent(2) =~= "  "@ + "  "@);
    let error = LinkModel::Database(severity, message, Some(detail), Some(hint));
    let bare = LinkModel::Plain("db error"@);
    let none = Seq::<Seq<char>>::empty();
    assert(chain_lines(seq![error, bare], 1).0 =~= seq![full, "  "@ + "detail: "@ + detail, "  "@ + "hint: "@ + hint]);
    assert(chain_lines(seq![bare, error], 1).0 =~= seq!["db error"@]);
    assert(chain_lines(seq![bare, error], 2).0 =~= seq![
        "db error"@,
        "  "@ + "caused by: "@ + full,
        "  "@ + "  "@ + "detail: "@ + detail,
        "  "@ + "  "@ + "hint: "@ + hint,
    ]);
    assert(chain_lines(seq![LinkModel::Database(severity, message, None, None)], 1).0 =~= seq![full]);
}

// ---------------------------------------------------------------------
// time options
// ---------------------------------------------------------------------

/// The time zone that an option names; `UTC` in any case.
pub open spec fn zone_named(tz: Seq<char>) -> Option<Seq<char>> {
    if text::lower(tz) == text::lower("UTC"@) {
        Some("UTC"@)
    } else if clock::zone_known(tz) {
        Some(tz)
    } else {
        None
    }
}

/// Parse a time zone option.
pub fn parse_timezone(tz: &str) -> (r: Option<String>)
    ensures
        text::opt_text(r) == zone_named(tz@),
{
    let chars = text::chars_of(tz);
    if text::same_ignoring_case(chars.as_slice(), "UTC") {
        return Some(String::from_str("UTC"));
    }
    if clock::is_zone(tz) {
        Some(String::from_str(tz))
    } else {
        None
    }
}

/// The format of a time option: more than four bytes hold seconds.
pub open spec fn time_format(time: Seq<char>) -> Seq<char> {
    if vstd::utf8::encode_utf8(time).len() > 4 {
        SECONDS_FORMAT@
    } else {
        TIME_FORMAT@
    }
}

/// What is added to an end time: a second when it has seconds, else a minute.
pub open spec fn end_shift(time: Seq<char>) -> int {
    if vstd::utf8::encode_utf8(time).len() > 4 {
        1_000_000
    } else {
        60_000_000
    }
}

/// The instant of a date and a time in a time zone.
pub open spec fn local_time(date: Seq<char>, time: Seq<char>, zone: Seq<char>, is_end: bool) -> Option<int> {
    match (clock::day_start(date), clock::day_time(time, time_format(time))) {
        (Some(day), Some(in_day)) => match clock::zone_instant(zone, day + in_day) {
            Some(instant) => Some(
                if is_end {
                    instant + end_shift(time)
                } else {
                    instant
                },
            ),
            None => None,
        },
        _ => None,
    }
}

/// Combine a `%Y%m%d` date and a `%H%M[%S]` time in a time zone.  An end time
/// includes its last second or minute.
pub fn parse_local_time(date_string: &str, time_string: &str, zone: &str, is_end_time: bool) -> (r: Option<i64>)
    ensures
        r matches Some(t) ==> local_time(date_string@, time_string@, zone@, is_end_time) == Some(t as int),
        r is None ==> local_time(date_string@, time_string@, zone@, is_end_time) is None,
{
    let has_seconds = time_string.as_bytes().len() > 4;
    let day: i64 = match clock::parse_day(date_string) {
        Some(day) => day,
        None => {
            return None;
        },
    };
    let format = if has_seconds {
        SECONDS_FORMAT
    } else {
        TIME_FORMAT
    };
    let in_day: i64 = match clock::parse_time(time_string, format) {
        Some(t) => t,
        None => {
            return None;
        },
    };
    let instant: i64 = match clock::local_to_utc(zone, day + in_day) {
        Some(t) => t,
        None => {
            return None;
        },
    };
    if !is_end_time {
        Some(instant)
    } else if has_seconds {
        Some(instant + 1_000_000)
    } else {
        Some(instant + 60_000_000)
    }
}

// ---------------------------------------------------------------------
// logging, metrics and locks
// ---------------------------------------------------------------------

/// The log filter of a tool, by its verbosity options.
pub open spec fn log_filter(verbose: bool, debug: bool) -> Seq<char> {
    if debug {
        "debug"@
    } else if verbose {
        "info"@
    } else {
        "warn"@
    }
}

/// The metric prefix of an importer, by the configured one.
pub open spec fn importer_prefix(configured: Seq<char>) -> Seq<char> {
    if configured == metrics::DEFAULT_STATSD_PREFIX@ {
        metrics::IMPORT_STATSD_PREFIX@
    } else {
        configured
    }
}

/// The log filter of a tool, by its verbosity options.
pub fn default_log_filter(verbose: bool, debug: bool) -> (r: &'static str)
    ensures
        r@ == log_filter(verbose, debug),
        r@ == (if debug {
            "debug"@
        } else if verbose {
            "info"@
        } else {
            "warn"@
        }),
{
    if debug {
        "debug"
    } else if verbose {
        "info"
    } else {
        "warn"
    }
}

/// The metric prefix of an importer: the importer prefix, unless another one
/// than the default of the service is configured.
pub fn import_metrics_prefix(config: &Config) -> (r: String)
    ensures
        r@ == importer_prefix(config.statsd_prefix@),
        r@ == (if config.statsd_prefix@ == metrics::DEFAULT_STATSD_PREFIX@ {
            metrics::IMPORT_STATSD_PREFIX@
        } else {
            config.statsd_prefix@
        }),
{
    if text::same_text(config.statsd_prefix.as_str(), metrics::DEFAULT_STATSD_PREFIX) {
        String::from_str(metrics::IMPORT_STATSD_PREFIX)
    } else {
        config.statsd_prefix.clone()
    }
}

/// Raised when a lock could not be acquired in time.
#[derive(Debug, Clone, Copy, PartialEq, Eq, Structural)]
pub struct FailedToAcquireException;

impl FailedToAcquireException {
    /// The message of the failure.
    pub fn message(&self) -> (r: &'static str)
        ensures
            r@ == "failed to acquire lock"@,
    {
        "failed to acquire lock"
    }
}

/// Milliseconds between two attempts to acquire a lock.
pub const LOCK_POLL_MILLIS: u64 = 100;

/// What to do after an attempt to acquire a lock: `None` means another attempt
/// after [`LOCK_POLL_MILLIS`].
pub fn lock_step(acquired: bool, deadline_passed: bool) -> (r: Option<Result<(), FailedToAcquireException>>)
    ensures
        r == (if acquired {
            Some(Ok::<(), FailedToAcquireException>(()))
        } else if deadline_passed {
            Some(Err(FailedToAcquireException))
        } else {
            None
        }),
{
    if acquired {
        Some(Ok(()))
    } else if deadline_passed {
        Some(Err(FailedToAcquireException))
    } else {
        None
    }
}

/// A time of up to four characters is hours and minutes, a longer one has
/// seconds; the instant is that of the date and the time in the zone.
pub proof fn times_are_hours_minutes_and_seconds(date: Seq<char>, time: Seq<char>, zone: Seq<char>)
    ensures
        ({
            let format = if vstd::utf8::encode_utf8(time).len() <= 4 {
                "%H%M"@
            } else {
                "%H%M%S"@
            };
            let day = clock::day_start(date);
            let in_day = clock::day_time(time, format);
            local_time(date, time, zone, false) == (if day is Some && in_day is Some {
                clock::zone_instant(zone, day->0 + in_day->0)
            } else {
                None
            })
        }),
{
}

/// The end of an interval includes the minute that its time names, or the
/// second when the time has seconds: it is that much later than the start with
/// the same date and time.
pub proof fn an_end_includes_its_last_minute(date: Seq<char>, time: Seq<char>, zone: Seq<char>)
    ensures
        local_time(date, time, zone, true) is Some <==> local_time(date, time, zone, false) is Some,
        local_time(date, time, zone, true) is Some ==> local_time(date, time, zone, true)->0 - local_time(
            date,
            time,
            zone,
            false,
        )->0 == (if vstd::utf8::encode_utf8(time).len() <= 4 {
            60_000_000int
        } else {
            1_000_000
        }),
{
}

/// The debug option shows more than the verbose one, which shows more than
/// none.
pub proof fn options_make_the_log_fuller(verbose: bool)
    ensures
        log_filter(verbose, true) == "debug"@,
        log_filter(true, false) == "info"@,
        log_filter(false, false) == "warn"@,
{
}

/// The metrics of an importer do not stand among those of the service, unless
/// a prefix is configured.
pub proof fn importers_have_their_own_prefix(configured: Seq<char>)
    ensures
        configured == "org.blitzortung.service"@ ==> importer_prefix(configured) == "org.blitzortung.import"@,
        configured != "org.blitzortung.service"@ ==> importer_prefix(configured) == configured,
{
}

/// The zone `UTC` is known in any case, and any other zone by its own name.
pub proof fn zones_have_their_names(tz: Seq<char>)
    ensures
        text::lower(tz) == "utc"@ ==> zone_named(tz) == Some("UTC"@),
        text::lower(tz) != "utc"@ && clock::zone_known(tz) ==> zone_named(tz) == Some(tz),
        text::lower(tz) != "utc"@ && !clock::zone_known(tz) ==> zone_named(tz) is None,
{
    reveal_strlit("UTC");
    reveal_strlit("utc");
    assert(text::lower("UTC"@) =~= "utc"@);
}

} // verus!
