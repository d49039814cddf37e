//! Import of the protected strike logs: where the logs are, and which of their
//! strikes are handed on in which batches.

use vstd::prelude::*;
use vstd::string::*;

use crate::builder;
use crate::builder::{BuilderError, LineNumbers};
use crate::clock;
use crate::data::Strike;
use crate::number;
use crate::text;
use crate::util;

verus! {

/// Default host name of the data server.
pub const DEFAULT_HOST_NAME: &'static str = "data";

/// Default region.
pub const DEFAULT_REGION: u32 = 1;

/// Seconds after which a request of the data server is given up.
pub const TIMEOUT_SECONDS: u64 = 60;

/// Microseconds between two log files.
pub const TIME_GRANULARITY: i64 = 600_000_000;

/// Microseconds that an import without a latest strike reaches back.
pub const DEFAULT_REACH: i64 = 21_600_000_000;

// ---------------------------------------------------------------------
// locations
// ---------------------------------------------------------------------

/// Base of the locations of the data.
#[derive(Debug, Clone)]
pub struct BlitzortungDataPath {
    pub data_path: String,
}

/// The location of a path under a base.  In the path the host name and the
/// region are filled in.
pub open spec fn built_path(data_path: Seq<char>, sub_path: Seq<char>, host_name: Seq<char>, region: nat) -> Seq<char> {
    let path = text::replaced(
        text::replaced(sub_path, "{host_name}"@, host_name),
        "{region}"@,
        number::decimal(region),
    );
    text::strip_end(data_path, '/') + "/"@ + text::strip_start(path, '/')
}

impl BlitzortungDataPath {
    /// Locations under a base path, by default that of the data server.
    pub fn new(base_path: Option<&str>) -> (r: BlitzortungDataPath)
        ensures
            r.data_path@ == (match base_path {
                Some(base) => base@,
                None => "https://data.blitzortung.org"@,
            }) + "/Data"@,
    {
        let base = match base_path {
            Some(base) => base,
            None => "https://data.blitzortung.org",
        };
        BlitzortungDataPath { data_path: String::from_str(base).concat("/Data") }
    }

    /// The location of a path.
    pub fn build_path(&self, sub_path: &str, host_name: &str, region: u32) -> (r: String)
        ensures
            r@ == built_path(self.data_path@, sub_path@, host_name@, region as nat),
    {
        proof {
            reveal_strlit("{host_name}");
            reveal_strlit("{region}");
        }
        let chars = text::chars_of(sub_path);
        let with_host = text::replace_all(chars.as_slice(), "{host_name}", host_name);
        let number = number::decimal_text(region as u64);
        let path = text::replace_all(with_host.as_slice(), "{region}", number.as_str());
        let base = text::chars_of(self.data_path.as_str());
        let mut out = text::text_of(text::stripped_end(base.as_slice(), '/'));
        out.append("/");
        out.append(text::text_of(text::stripped_start(path.as_slice(), '/')).as_str());
        out
    }
}

impl Default for BlitzortungDataPath {
    /// Locations on the data server.
    fn default() -> (r: BlitzortungDataPath)
        ensures
            r.data_path@ == "https://data.blitzortung.org"@ + "/Data"@,
    {
        BlitzortungDataPath::new(None)
    }
}

/// The paths of the log files from `start` to `end`.
pub open spec fn log_paths(start: int, granularity: int, end: int) -> Seq<Seq<char>> {
    util::interval_starts(start, granularity, end).map_values(|t: int| util::path_of(t))
}

/// Generator of the paths of the log files.
#[derive(Debug, Clone, Copy, PartialEq, Eq, Structural)]
pub struct BlitzortungDataPathGenerator {
    /// Microseconds between two log files.
    pub time_granularity: i64,
}

impl Default for BlitzortungDataPathGenerator {
    fn default() -> (r: BlitzortungDataPathGenerator)
        ensures
            r.time_granularity == TIME_GRANULARITY,
    {
        BlitzortungDataPathGenerator { time_granularity: TIME_GRANULARITY }
    }
}

/// Rounded instants stay in the range of the calendar.
proof fn lemma_starts_are_representable(start: int, duration: int, end: int, i: int)
    requires
        duration > 0,
        clock::representable(start),
        clock::representable(end),
        0 <= i < util::interval_starts(start, duration, end).len(),
    ensures
        clock::representable(util::interval_starts(start, duration, end)[i]),
{
    let first = util::rounded(start, duration);
    let last = util::rounded(end, duration);
    let gap = last - first;
    util::rounding_goes_down_once(start, duration);
    util::rounding_goes_down_once(end, duration);
    assert(util::midnight(first) <= first);
    assert(i * duration <= gap && i * duration >= 0) by (nonlinear_arith)
        requires
            0 <= i <= gap / duration,
            gap >= 0,
            duration > 0,
    ;
}

impl BlitzortungDataPathGenerator {
    /// The paths of the log files from `start_time` to `end_time`.
    pub fn get_paths(&self, start_time: i64, end_time: i64) -> (r: Vec<String>)
        requires
            self.time_granularity > 0,
            clock::representable(start_time as int),
            clock::representable(end_time as int),
        ensures
            text::texts(r@) == log_paths(start_time as int, self.time_granularity as int, end_time as int),
    {
        let ghost starts = util::interval_starts(
            start_time as int,
            self.time_granularity as int,
            end_time as int,
        );
        let times = util::time_intervals(start_time, self.time_granularity, end_time);
        assert(starts.len() == times@.len());
        let mut paths: Vec<String> = Vec::new();
        let mut i: usize = 0;
        while i < times.len()
            invariant
                i <= times@.len(),
                i == paths@.len(),
                self.time_granularity > 0,
                clock::representable(start_time as int),
                clock::representable(end_time as int),
                starts == util::interval_starts(
                    start_time as int,
                    self.time_granularity as int,
                    end_time as int,
                ),
                util::instants(times@) == starts,
                forall|k: int| 0 <= k < i ==> (#[trigger] paths@[k])@ == util::path_of(starts[k]),
            decreases times@.len() - i,
        {
            proof {
                lemma_starts_are_representable(
                    start_time as int,
                    self.time_granularity as int,
                    end_time as int,
                    i as int,
                );
                assert(util::instants(times@)[i as int] == times@[i as int]);
            }
            paths.push(util::log_path(times[i]));
            i = i + 1;
        }
        assert(text::texts(paths@) =~= log_paths(
            start_time as int,
            self.time_granularity as int,
            end_time as int,
        ));
        paths
    }
}

/// The location of the log file with the given path.
pub open spec fn log_location(data_path: Seq<char>, path: Seq<char>, region: nat) -> Seq<char> {
    built_path(data_path, "Protected/Strikes_{region}/"@ + path, DEFAULT_HOST_NAME@, region)
}

/// The lines of a response: those of the body when the status is 200, none
/// otherwise.
pub open spec fn lines_of_response(status: u16, body: Seq<char>) -> Seq<Seq<char>> {
    if status == 200 {
        text::lines(body)
    } else {
        Seq::empty()
    }
}

/// The lines of a response: those of the body when the status is 200, none
/// otherwise.
pub fn response_lines(status: u16, body: &str) -> (r: Vec<String>)
    ensures
        text::texts(r@) == lines_of_response(status, body@),
        text::texts(r@) == (if status == 200 {
            text::lines(body@)
        } else {
            Seq::empty()
        }),
{
    let mut out: Vec<String> = Vec::new();
    if status != 200 {
        assert(text::texts(out@) =~= Seq::<Seq<char>>::empty());
        return out;
    }
    let chars = text::chars_of(body);
    let lines = text::lines_of(chars.as_slice());
    let mut i: usize = 0;
    while i < lines.len()
        invariant
            i <= lines@.len(),
            i == out@.len(),
            text::views(lines@) == text::lines(body@),
            forall|k: int| 0 <= k < i ==> (#[trigger] out@[k])@ == text::lines(body@)[k],
        decreases lines@.len() - i,
    {
        assert(text::views(lines@)[i as int] == lines@[i as int]@);
        out.push(text::text_of(lines[i].as_slice()));
        i = i + 1;
    }
    assert(text::views(lines@).len() == lines@.len());
    assert(text::texts(out@) =~= text::lines(body@));
    out
}

/// Where an import starts: at the latest strike, or six hours before `now`.
pub open spec fn import_since(latest_strike: Option<i64>, now: int) -> int {
    match latest_strike {
        Some(t) => t as int,
        None => now - DEFAULT_REACH,
    }
}

/// Where an import starts: at the latest strike, or six hours before `now`.
pub fn import_start(latest_strike: Option<i64>, now: i64) -> (r: i64)
    requires
        now >= i64::MIN + DEFAULT_REACH,
    ensures
        r == import_since(latest_strike, now as int),
        r == (match latest_strike {
            Some(t) => t as int,
            None => now - DEFAULT_REACH,
        }),
{
    match latest_strike {
        Some(t) => t,
        None => now - DEFAULT_REACH,
    }
}

// ---------------------------------------------------------------------
// errors
// ---------------------------------------------------------------------

/// Why a log could not be read.
#[derive(Debug, PartialEq, Eq)]
pub enum TransportError {
    /// The server has no such log.
    NotFound,
    /// The request took too long.
    Timeout(String),
    /// The request failed.
    Request(String),
    /// The file could not be read.
    Io(String),
}

/// What a [`TransportError`] means.
pub enum TransportFault {
    NotFound,
    Timeout(Seq<char>),
    Request(Seq<char>),
    Io(Seq<char>),
}

impl View for TransportError {
    type V = TransportFault;

    open spec fn view(&self) -> TransportFault {
        match self {
            TransportError::NotFound => TransportFault::NotFound,
            TransportError::Timeout(m) => TransportFault::Timeout(m@),
            TransportError::Request(m) => TransportFault::Request(m@),
            TransportError::Io(m) => TransportFault::Io(m@),
        }
    }
}

impl TransportError {
    /// Whether only this log is missing.
    pub open spec fn missing(&self) -> bool {
        self is NotFound || self is Timeout
    }

    /// Whether only this log is missing, so that the import goes on with the
    /// next one.
    pub fn is_missing(&self) -> (r: bool)
        ensures
            r == (self is NotFound || self is Timeout),
            r == self.missing(),
    {
        match self {
            TransportError::NotFound => true,
            TransportError::Timeout(_) => true,
            TransportError::Request(_) => false,
            TransportError::Io(_) => false,
        }
    }

    /// The message of the error.
    pub fn message(&self) -> (r: &str)
        ensures
            r@ == (match self@ {
                TransportFault::NotFound => "log file not found"@,
                TransportFault::Timeout(m) => m,
                TransportFault::Request(m) => m,
                TransportFault::Io(m) => m,
            }),
    {
        match self {
            TransportError::NotFound => "log file not found",
            TransportError::Timeout(m) => m.as_str(),
            TransportError::Request(m) => m.as_str(),
            TransportError::Io(m) => m.as_str(),
        }
    }
}

/// Why the import of a region ended early.
#[derive(Debug, PartialEq, Eq)]
pub enum ImportError {
    /// A log could not be read.
    Transport(TransportError),
    /// A batch could not be stored.
    Sink(String),
}

impl ImportError {
    /// The message of the error.
    pub fn message(&self) -> (r: &str)
        ensures
            match self {
                ImportError::Transport(e) => r@ == (match e@ {
                    TransportFault::NotFound => "log file not found"@,
                    TransportFault::Timeout(m) => m,
                    TransportFault::Request(m) => m,
                    TransportFault::Io(m) => m,
                }),
                ImportError::Sink(m) => r@ == m@,
            },
    {
        match self {
            ImportError::Transport(e) => e.message(),
            ImportError::Sink(m) => m.as_str(),
        }
    }
}

/// The lines to read after a log was requested; `None` where the import of the
/// region ends.
pub open spec fn readable_lines(fetched: Result<Vec<String>, TransportError>) -> Option<Seq<Seq<char>>> {
    match fetched {
        Ok(lines) => Some(text::texts(lines@)),
        Err(e) => if e.missing() {
            Some(Seq::empty())
        } else {
            None
        },
    }
}

/// The lines to read after a log was requested: a missing log has none, and any
/// other error ends the import of the region.
pub fn lines_to_read(fetched: Result<Vec<String>, TransportError>) -> (r: Result<Vec<String>, ImportError>)
    ensures
        r matches Ok(lines) ==> readable_lines(fetched) == Some(text::texts(lines@)),
        r is Err ==> readable_lines(fetched) is None,
        match fetched {
            Ok(lines) => r == Ok::<Vec<String>, ImportError>(lines),
            Err(e) => if e is NotFound || e is Timeout {
                r matches Ok(lines) && lines@.len() == 0
            } else {
                r == Err::<Vec<String>, ImportError>(ImportError::Transport(e))
            },
        },
{
    match fetched {
        Ok(lines) => Ok(lines),
        Err(e) => if e.is_missing() {
            let none: Vec<String> = Vec::new();
            assert(text::texts(none@) =~= Seq::<Seq<char>>::empty());
            Ok(none)
        } else {
            Err(ImportError::Transport(e))
        },
    }
}

// ---------------------------------------------------------------------
// importing a region
// ---------------------------------------------------------------------

/// Whether a strike is new: its timestamp is valid and later than `latest`.
pub open spec fn is_new(strike: Strike, latest: int) -> bool {
    strike.timestamp.valid() && (strike.timestamp.datetime matches Some(t) && t > latest)
}

/// The import of the logs of a region.
///
/// The logs are read one after the other.  New strikes are collected and handed
/// on in batches of `chunk_size`; a last batch holds the rest.
#[derive(Debug)]
pub struct StrikesBlitzortungDataProvider {
    /// Locations of the logs.
    locations: Vec<String>,
    /// Index of the next log.
    next: usize,
    /// Only later strikes are new.
    latest: i64,
    chunk_size: usize,
    /// New strikes that were not handed on yet.
    buffer: Vec<Strike>,
    /// Strikes that were handed on.
    total: usize,
}

/// What an import holds.
pub struct ImportModel {
    pub locations: Seq<Seq<char>>,
    pub next: int,
    pub latest: int,
    pub chunk_size: int,
    pub buffer: Seq<Strike>,
    pub total: int,
}

impl ImportModel {
    /// Whether the import is in order: batches hold at least one strike, and
    /// the collected strikes do not fill one.
    pub open spec fn wf(self) -> bool {
        &&& self.chunk_size >= 1
        &&& self.buffer.len() < self.chunk_size
        &&& 0 <= self.next <= self.locations.len()
    }
}

impl View for StrikesBlitzortungDataProvider {
    type V = ImportModel;

    closed spec fn view(&self) -> ImportModel {
        ImportModel {
            locations: text::texts(self.locations@),
            next: self.next as int,
            latest: self.latest as int,
            chunk_size: self.chunk_size as int,
            buffer: self.buffer@,
            total: self.total as int,
        }
    }
}

/// The state after a strike was read, and the batch that is complete then.
pub open spec fn strike_read(state: ImportModel, strike: Strike) -> (ImportModel, Option<Seq<Strike>>) {
    if !is_new(strike, state.latest) {
        (state, None)
    } else {
        let buffer = state.buffer.push(strike);
        if buffer.len() >= state.chunk_size {
            (ImportModel { buffer: Seq::empty(), ..state }, Some(buffer))
        } else {
            (ImportModel { buffer, ..state }, None)
        }
    }
}

/// The strikes of an optional batch.
pub open spec fn batch(o: Option<Vec<Strike>>) -> Option<Seq<Strike>> {
    match o {
        Some(v) => Some(v@),
        None => None,
    }
}

/// The import of a region from the latest strike up to `now`, before anything
/// is read.
pub open spec fn import_model(latest: int, now: int, region: u32, chunk_size: int) -> ImportModel {
    ImportModel {
        locations: log_paths(latest, TIME_GRANULARITY as int, now).map_values(
            |p: Seq<char>| log_location("https://data.blitzortung.org"@ + "/Data"@, p, region as nat),
        ),
        next: 0,
        latest,
        chunk_size: (if chunk_size == 0 {
            1
        } else {
            chunk_size
        }),
        buffer: Seq::empty(),
        total: 0,
    }
}

impl StrikesBlitzortungDataProvider {
    /// Whether the import is in order.
    pub open spec fn wf(&self) -> bool {
        self@.wf()
    }

    /// The import of a region from the latest strike up to `now`.  A batch
    /// holds at least one strike.
    pub fn new(latest: i64, now: i64, region: u32, chunk_size: usize) -> (r: StrikesBlitzortungDataProvider)
        requires
            clock::representable(latest as int),
            clock::representable(now as int),
        ensures
            r.wf(),
            r@ == import_model(latest as int, now as int, region, chunk_size as int),
    {
        let data_url = BlitzortungDataPath::default();
        let generator = BlitzortungDataPathGenerator::default();
        let paths = generator.get_paths(latest, now);
        let ghost all = log_paths(latest as int, TIME_GRANULARITY as int, now as int);
        let mut locations: Vec<String> = Vec::new();
        let mut i: usize = 0;
        while i < paths.len()
            invariant
                i <= paths@.len(),
                i == locations@.len(),
                all == text::texts(paths@),
                data_url.data_path@ == "https://data.blitzortung.org"@ + "/Data"@,
                forall|k: int|
                    0 <= k < i ==> (#[trigger] locations@[k])@ == log_location(
                        "https://data.blitzortung.org"@ + "/Data"@,
                        all[k],
                        region as nat,
                    ),
            decreases paths@.len() - i,
        {
            assert(text::texts(paths@)[i as int] == paths@[i as int]@);
            let sub_path = String::from_str("Protected/Strikes_{region}/").concat(paths[i].as_str());
            locations.push(data_url.build_path(sub_path.as_str(), DEFAULT_HOST_NAME, region));
            i = i + 1;
        }
        let buffer: Vec<Strike> = Vec::new();
        assert(text::texts(locations@) =~= all.map_values(
            |p: Seq<char>| log_location("https://data.blitzortung.org"@ + "/Data"@, p, region as nat),
        )) by {
            assert(all.len() == paths@.len());
        }
        StrikesBlitzortungDataProvider {
            locations,
            next: 0,
            latest,
            chunk_size: if chunk_size == 0 {
                1
            } else {
                chunk_size
            },
            buffer,
            total: 0,
        }
    }

    /// The location of the next log; `None` after the last one, and when the
    /// time for the region is over.
    pub fn next_location(&mut self, out_of_time: bool) -> (r: Option<String>)
        requires
            old(self).wf(),
        ensures
            final(self).wf(),
            if out_of_time || old(self)@.next >= old(self)@.locations.len() {
                r is None && final(self)@ == old(self)@
            } else {
                &&& text::opt_text(r) == Some(old(self)@.locations[old(self)@.next])
                &&& final(self)@ == (ImportModel { next: old(self)@.next + 1, ..old(self)@ })
            },
    {
        if out_of_time || self.next >= self.locations.len() {
            return None;
        }
        let location = self.locations[self.next].clone();
        assert(text::texts(self.locations@)[self.next as int] == self.locations@[self.next as int]@);
        self.next = self.next + 1;
        Some(location)
    }

    /// Take in a strike; yields the batch that is complete with it.
    pub fn offer(&mut self, strike: Strike) -> (r: Option<Vec<Strike>>)
        requires
            old(self).wf(),
        ensures
            final(self).wf(),
            (final(self)@, batch(r)) == strike_read(old(self)@, strike),
    {
        let new = match strike.timestamp.datetime {
            Some(t) => strike.timestamp.is_valid() && t > self.latest,
            None => false,
        };
        if !new {
            return None;
        }
        self.buffer.push(strike);
        if self.buffer.len() >= self.chunk_size {
            let mut full: Vec<Strike> = Vec::new();
            std::mem::swap(&mut full, &mut self.buffer);
            return Some(full);
        }
        None
    }

    /// Take in a log line; yields the batch that is complete with it.  A line
    /// that is no strike is an error and changes nothing.
    pub fn offer_line(&mut self, line: &str, numbers: &LineNumbers) -> (r: Result<Option<Vec<Strike>>, BuilderError>)
        requires
            old(self).wf(),
        ensures
            final(self).wf(),
            match builder::after_line(builder::blank_parts(), line@, *numbers) {
                (parts, None) => r matches Ok(full) && exists|strike: Strike|
                    #![trigger strike_read(old(self)@, strike)]
                    builder::is_built(parts, strike) && (final(self)@, batch(full)) == strike_read(
                        old(self)@,
                        strike,
                    ),
                (_, Some(message)) => (r matches Err(e) && e.0@ == message) && final(self)@ == old(self)@,
            },
    {
        match builder::build_strike_from_line(line, numbers) {
            Ok(strike) => {
                let ghost built = strike;
                let full = self.offer(strike);
                assert((self@, batch(full)) == strike_read(old(self)@, built));
                Ok(full)
            },
            Err(e) => Err(e),
        }
    }

    /// A batch of `count` strikes was stored.
    pub fn stored(&mut self, count: usize)
        requires
            old(self).wf(),
            old(self)@.total + count <= usize::MAX,
        ensures
            final(self).wf(),
            final(self)@ == (ImportModel { total: old(self)@.total + count, ..old(self)@ }),
    {
        self.total = self.total + count;
    }

    /// How many strikes were stored.
    pub fn total(&self) -> (r: usize)
        ensures
            r == self@.total,
    {
        self.total
    }

    /// The last batch, when there is one.
    pub fn finish(&mut self) -> (r: Option<Vec<Strike>>)
        requires
            old(self).wf(),
        ensures
            final(self).wf(),
            final(self)@ == (ImportModel { buffer: Seq::empty(), ..old(self)@ }),
            batch(r) == (if old(self)@.buffer.len() > 0 {
                Some(old(self)@.buffer)
            } else {
                None
            }),
    {
        if self.buffer.len() == 0 {
            assert(self.buffer@ =~= Seq::<Strike>::empty());
            return None;
        }
        let mut rest: Vec<Strike> = Vec::new();
        std::mem::swap(&mut rest, &mut self.buffer);
        Some(rest)
    }
}

// ---------------------------------------------------------------------
// laws
// ---------------------------------------------------------------------

/// The new strikes among the first `n`.
pub open spec fn new_strikes(strikes: Seq<Strike>, latest: int, n: int) -> Seq<Strike>
    decreases n,
{
    if n <= 0 {
        Seq::empty()
    } else if is_new(strikes[n - 1], latest) {
        new_strikes(strikes, latest, n - 1).push(strikes[n - 1])
    } else {
        new_strikes(strikes, latest, n - 1)
    }
}

/// The state after the first `n` strikes were read, and the batches so far.
pub open spec fn strikes_read(state: ImportModel, strikes: Seq<Strike>, n: int) -> (ImportModel, Seq<Seq<Strike>>)
    decreases n,
{
    if n <= 0 {
        (state, Seq::empty())
    } else {
        let (before, batches) = strikes_read(state, strikes, n - 1);
        let (after, complete) = strike_read(before, strikes[n - 1]);
        (
            after,
            match complete {
                Some(b) => batches.push(b),
                None => batches,
            },
        )
    }
}

/// The strikes of all batches, one after the other.
pub open spec fn all_strikes(batches: Seq<Seq<Strike>>) -> Seq<Strike>
    decreases batches.len(),
{
    if batches.len() == 0 {
        Seq::empty()
    } else {
        all_strikes(batches.drop_last()) + batches.last()
    }
}

/// The batches and the strikes still collected are exactly the new strikes, in
/// their order; every batch is of the chunk size, and fewer are collected.
pub proof fn batches_hold_exactly_the_new_strikes(state: ImportModel, strikes: Seq<Strike>, n: int)
    requires
        0 <= n <= strikes.len(),
        state.chunk_size >= 1,
        state.buffer.len() == 0,
    ensures
        ({
            let (after, batches) = strikes_read(state, strikes, n);
            &&& all_strikes(batches) + after.buffer == new_strikes(strikes, state.latest, n)
            &&& forall|i: int| 0 <= i < batches.len() ==> (#[trigger] batches[i]).len() == state.chunk_size
            &&& after.buffer.len() < state.chunk_size
            &&& after.chunk_size == state.chunk_size
            &&& after.latest == state.latest
        }),
    decreases n,
{
    if n > 0 {
        batches_hold_exactly_the_new_strikes(state, strikes, n - 1);
        let (before, batches) = strikes_read(state, strikes, n - 1);
        let (after, complete) = strike_read(before, strikes[n - 1]);
        let s = strikes[n - 1];
        match complete {
            Some(b) => {
                let longer = batches.push(b);
                assert(longer.drop_last() =~= batches);
                assert(all_strikes(longer) + Seq::<Strike>::empty() =~= (all_strikes(batches) + before.buffer).push(
                    s,
                ));
            },
            None => {
                if is_new(s, state.latest) {
                    assert(all_strikes(batches) + before.buffer.push(s) =~= (all_strikes(batches)
                        + before.buffer).push(s));
                }
            },
        }
    } else {
        assert(all_strikes(Seq::<Seq<Strike>>::empty()) + state.buffer =~= Seq::<Strike>::empty());
    }
}

/// A placeholder is replaced by its value where it stands.
proof fn lemma_filled_in(before: Seq<char>, name: Seq<char>, after: Seq<char>, value: Seq<char>)
    requires
        name.len() > 0,
        name[0] == '{',
        !before.contains('{'),
        !after.contains('{'),
    ensures
        text::replaced(before + name + after, name, value) == before + value + after,
        text::replaced(before + after, name, value) == before + after,
{
    let s = before + name + after;
    let k = before.len() as int;
    assert forall|j: int| 0 <= j < k implies s[j] != '{' by {
        assert(s[j] == before[j]);
    }
    lemma_copied(s, name, value, 0, k);
    assert(s.subrange(k, k + name.len()) =~= name);
    let e = k + name.len();
    assert forall|j: int| e <= j < s.len() implies s[j] != '{' by {
        assert(s[j] == after[j - e]);
    }
    lemma_copied(s, name, value, e as int, s.len() as int);
    assert(s.subrange(0, k) =~= before);
    assert(s.subrange(e as int, s.len() as int) + Seq::<char>::empty() =~= after);
    if k < s.len() {
        assert(text::replaced_from(s, name, value, k) == value + text::replaced_from(s, name, value, e as int));
    }
    assert(before + (value + after) =~= before + value + after);
    let t = before + after;
    assert forall|j: int| 0 <= j < t.len() implies t[j] != '{' by {
        if j < before.len() {
            assert(t[j] == before[j]);
        } else {
            assert(t[j] == after[j - before.len()]);
        }
    }
    lemma_copied(t, name, value, 0, t.len() as int);
    assert(t.subrange(0, t.len() as int) + Seq::<char>::empty() =~= t);
}

/// A stretch without a placeholder is copied.
proof fn lemma_copied(s: Seq<char>, name: Seq<char>, value: Seq<char>, i: int, k: int)
    requires
        0 <= i <= k <= s.len(),
        name.len() > 0,
        name[0] == '{',
        forall|j: int| i <= j < k ==> s[j] != '{',
    ensures
        text::replaced_from(s, name, value, i) == s.subrange(i, k) + text::replaced_from(s, name, value, k),
    decreases k - i,
{
    if i < k {
        lemma_copied(s, name, value, i + 1, k);
        if text::occurs_at(s, name, i) {
            assert(s.subrange(i, i + name.len())[0] == s[i]);
        }
        assert(seq![s[i]] + (s.subrange(i + 1, k) + text::replaced_from(s, name, value, k)) =~= s.subrange(i, k)
            + text::replaced_from(s, name, value, k));
    } else {
        assert(s.subrange(i, k) + text::replaced_from(s, name, value, k) =~= text::replaced_from(s, name, value, k));
    }
}

/// The log of a region lies in the directory of the region, on the data server.
pub proof fn logs_lie_in_the_directory_of_their_region(path: Seq<char>, region: nat)
    requires
        !path.contains('{'),
    ensures
        log_location("https://data.blitzortung.org"@ + "/Data"@, path, region)
            == "https://data.blitzortung.org/Data/Protected/Strikes_"@ + number::decimal(region) + "/"@ + path,
{
    reveal_strlit("https://data.blitzortung.org");
    reveal_strlit("/Data");
    reveal_strlit("https://data.blitzortung.org/Data/Protected/Strikes_");
    reveal_strlit("Protected/Strikes_{region}/");
    reveal_strlit("Protected/Strikes_");
    reveal_strlit("{region}");
    reveal_strlit("{host_name}");
    reveal_strlit("/");
    let base = "https://data.blitzortung.org"@ + "/Data"@;
    let head = "Protected/Strikes_"@;
    let tail = "/"@ + path;
    let sub = "Protected/Strikes_{region}/"@ + path;
    let digits = number::decimal(region);
    assert(!head.contains('{')) by {
        assert forall|j: int| 0 <= j < head.len() implies head[j] != '{' by {}
    }
    assert(!tail.contains('{')) by {
        assert forall|j: int| 0 <= j < tail.len() implies tail[j] != '{' by {
            if j > 0 {
                assert(tail[j] == path[j - 1]);
            }
        }
    }
    assert(sub =~= head + "{region}"@ + tail);
    lemma_no_host(sub, head, tail);
    lemma_filled_in(head, "{region}"@, tail, digits);
    let filled = head + digits + tail;
    assert(text::replaced(text::replaced(sub, "{host_name}"@, DEFAULT_HOST_NAME@), "{region}"@, digits) == filled);
    assert(filled[0] == 'P');
    assert(text::strip_start(filled, '/') =~= filled);
    assert(base.last() == 'a');
    assert(text::strip_end(base, '/') =~= base) by {
        reveal_with_fuel(text::run_start, 2);
    }
    assert(base + "/"@ + filled =~= "https://data.blitzortung.org/Data/Protected/Strikes_"@ + digits + "/"@ + path);
}

/// A path without the host placeholder is left alone.
proof fn lemma_no_host(sub: Seq<char>, head: Seq<char>, tail: Seq<char>)
    requires
        sub == head + "{region}"@ + tail,
        !head.contains('{'),
        !tail.contains('{'),
    ensures
        text::replaced(sub, "{host_name}"@, DEFAULT_HOST_NAME@) == sub,
{
    reveal_strlit("{region}");
    reveal_strlit("{host_name}");
    let name = "{host_name}"@;
    let value = DEFAULT_HOST_NAME@;
    let k = head.len() as int;
    assert forall|j: int| 0 <= j < k implies sub[j] != '{' by {
        assert(sub[j] == head[j]);
    }
    lemma_copied(sub, name, value, 0, k);
    assert(sub[k] == '{' && sub[k + 1] == 'r');
    if text::occurs_at(sub, name, k) {
        assert(sub.subrange(k, k + name.len())[1] == sub[k + 1]);
    }
    assert forall|j: int| k + 1 <= j < sub.len() implies sub[j] != '{' by {
        if j < k + 8 {
            assert(sub[j] == "{region}"@[j - k]);
        } else {
            assert(sub[j] == tail[j - k - 8]);
        }
    }
    lemma_copied(sub, name, value, k + 1, sub.len() as int);
    assert(sub.subrange(0, k) + (seq![sub[k]] + (sub.subrange(k + 1, sub.len() as int) + Seq::<char>::empty()))
        =~= sub);
}

/// The logs of an import cover the time from the latest strike to now: the log
/// of the ten minutes of every instant between is among them.
pub proof fn logs_cover_the_time_since_the_latest_strike(latest: int, now: int, region: u32, chunk_size: int, t: int)
    requires
        latest <= t <= now,
    ensures
        ({
            let all = import_model(latest, now, region, chunk_size).locations;
            exists|i: int|
                0 <= i < all.len() && #[trigger] all[i] == log_location(
                    "https://data.blitzortung.org"@ + "/Data"@,
                    util::path_of(t - t % 600_000_000),
                    region as nat,
                )
        }),
        import_model(latest, now, region, chunk_size).latest == latest,
        import_model(latest, now, region, chunk_size).next == 0,
        import_model(latest, now, region, chunk_size).buffer.len() == 0,
{
    let i = util::lemma_listed(latest, now, t);
    lemma_location(latest, now, region, chunk_size, i);
}

proof fn lemma_location(latest: int, now: int, region: u32, chunk_size: int, i: int)
    requires
        0 <= i < util::interval_starts(latest, 600_000_000, now).len(),
    ensures
        ({
            let all = import_model(latest, now, region, chunk_size).locations;
            0 <= i < all.len() && all[i] == log_location(
                "https://data.blitzortung.org"@ + "/Data"@,
                util::path_of(util::interval_starts(latest, 600_000_000, now)[i]),
                region as nat,
            )
        }),
{
}

/// A strike is new when it is valid and later than the latest one.
pub proof fn only_later_strikes_are_new(strike: Strike, latest: int)
    ensures
        is_new(strike, latest) <==> strike.timestamp.datetime is Some && strike.timestamp.datetime->0 > latest
            && strike.timestamp.datetime->0 >= -((69 * 365 + 17) * 86_400 * 1_000_000),
{
}

/// Only an answer with the status 200 has lines, and they are those of its body.
pub proof fn only_good_answers_have_lines(status: u16, body: Seq<char>)
    ensures
        lines_of_response(200, body) == text::lines(body),
        status != 200 ==> lines_of_response(status, body).len() == 0,
{
}

/// A log that is not there, or does not come in time, has no lines, and the
/// import goes on; any other fault ends it.
pub proof fn missing_logs_have_no_lines(lines: Vec<String>, error: TransportError)
    ensures
        readable_lines(Ok(lines)) == Some(text::texts(lines@)),
        error is NotFound || error is Timeout ==> (readable_lines(Err(error)) matches Some(read) && read.len() == 0),
        error is Request || error is Io ==> readable_lines(Err(error)) is None,
{
}

} // verus!
