//! Import of the protected strike logs of all regions.

use vstd::prelude::*;
use vstd::string::*;

use crate::builder;
use crate::builder::LineNumbers;
use crate::cli;
use crate::cli::Exit;
use crate::clock;
use crate::data::{Strike, Timestamp};
use crate::dataimport;
use crate::dataimport::{ImportModel, StrikesBlitzortungDataProvider, DEFAULT_REACH};
use crate::db;
use crate::db::{Statement, StrikeDb};
use crate::executor;
use crate::executor::Cell;
use crate::ieee::Real;
use crate::service;
use crate::text;

verus! {

/// The regions that are imported.
pub const REGIONS: [u32; 10] = [1, 2, 3, 4, 5, 6, 7, 10, 18, 19];

/// Attempts per region.
pub const RETRY_COUNT: usize = 5;

/// Seconds for one attempt of a region.
pub const REGION_TIMEOUT_SECONDS: u64 = 300;

/// Seconds for one request.
pub const REQUEST_TIMEOUT_SECONDS: u64 = 10;

/// Strikes of one insertion.
pub const STRIKE_BATCH_SIZE: usize = 1000;

/// Strikes between two commits.
pub const STRIKE_GROUP_SIZE: usize = 10000;

/// Milliseconds between two attempts.
pub const RETRY_SLEEP_MILLIS: u64 = 2000;

/// Microseconds that an update reaches back.
pub const UPDATE_REACH: i64 = 1_800_000_000;

/// Arguments of the importer.
#[derive(Debug)]
pub struct ImportArgs {
    pub verbose: bool,
    pub debug: bool,
    pub no_timeout: bool,
    pub startdate: Option<String>,
    pub update: bool,
}

/// Options of the importer.
#[derive(Debug)]
pub struct ImportOptions {
    pub verbose: bool,
    pub debug: bool,
    pub no_timeout: bool,
    pub startdate: Option<String>,
    pub update: bool,
}

impl ImportOptions {
    /// The options that the arguments mean.
    pub fn from_args(args: &ImportArgs) -> (r: ImportOptions)
        ensures
            r.verbose == args.verbose,
            r.debug == args.debug,
            r.no_timeout == args.no_timeout,
            text::opt_text(r.startdate) == text::opt_text(args.startdate),
            r.update == args.update,
    {
        ImportOptions {
            verbose: args.verbose,
            debug: args.debug,
            no_timeout: args.no_timeout,
            startdate: text::copy_text(&args.startdate),
            update: args.update,
        }
    }
}

/// Where an update starts: half an hour before `now`.
pub fn update_start_time(now: i64) -> (r: i64)
    requires
        now >= i64::MIN + UPDATE_REACH,
    ensures
        r == now - UPDATE_REACH,
{
    now - UPDATE_REACH
}

/// Parse a `YYYYMMDD` date as midnight in UTC.
pub fn parse_start_date(value: &str) -> (r: Option<i64>)
    ensures
        r matches Some(t) ==> clock::day_start(value@) == Some(t as int) && clock::representable(t as int),
        r is None ==> clock::day_start(value@) is None,
{
    clock::parse_day(value)
}

/// The timestamp of an instant.
pub open spec fn timestamp_at(instant: int) -> Timestamp {
    Timestamp { datetime: Some(instant as i64), nanosecond: 0 }
}

/// Whether a result is the start of the given date option.
pub open spec fn is_start_time(r: Result<Option<Timestamp>, Exit>, startdate: Option<Seq<char>>) -> bool {
    match startdate {
        None => r == Ok::<Option<Timestamp>, Exit>(None),
        Some(value) => match clock::day_start(value) {
            Some(day) => r == Ok::<Option<Timestamp>, Exit>(Some(timestamp_at(day))),
            None => r matches Err(e) && e.says("parse error in startdate \""@ + value + "\""@, 5),
        },
    }
}

/// Resolve a start date option.
pub(crate) fn start_time_of(startdate: &Option<String>) -> (r: Result<Option<Timestamp>, Exit>)
    ensures
        is_start_time(r, text::opt_text(*startdate)),
{
    match startdate {
        None => Ok(None),
        Some(value) => match parse_start_date(value.as_str()) {
            Some(day) => Ok(Some(Timestamp { datetime: Some(day), nanosecond: 0 })),
            None => Err(cli::exit_quoting("parse error in startdate \"", value.as_str(), "\"", 5)),
        },
    }
}

/// Resolve the start date option to midnight in UTC.
pub fn resolve_start_time(options: &ImportOptions) -> (r: Result<Option<Timestamp>, Exit>)
    ensures
        is_start_time(r, text::opt_text(options.startdate)),
{
    start_time_of(&options.startdate)
}

/// Where the import of a region starts: at the latest strike of the database,
/// else at the start date; an update starts not before its window.
pub open spec fn starting_point(
    latest: Option<Timestamp>,
    start_time: Option<Timestamp>,
    is_update: bool,
    now: int,
) -> Option<Timestamp> {
    let base = match latest {
        Some(t) => Some(t),
        None => start_time,
    };
    let window = timestamp_at(now - UPDATE_REACH);
    if is_update && (match base {
        None => true,
        Some(t) => window.after(t),
    }) {
        Some(window)
    } else {
        base
    }
}

/// The instant from which on the logs of a region are read.
pub open spec fn region_since(
    latest: Option<Timestamp>,
    start_time: Option<Timestamp>,
    is_update: bool,
    now: int,
) -> int {
    dataimport::import_since(
        match starting_point(latest, start_time, is_update, now) {
            Some(t) => t.datetime,
            None => None,
        },
        now,
    )
}

/// Where the import of a region starts.
pub fn import_start(
    latest: Option<Timestamp>,
    start_time: Option<Timestamp>,
    is_update: bool,
    now: i64,
) -> (r: Option<Timestamp>)
    requires
        clock::representable(now - UPDATE_REACH),
    ensures
        r == starting_point(latest, start_time, is_update, now as int),
{
    let base = match latest {
        Some(t) => Some(t),
        None => start_time,
    };
    if !is_update {
        return base;
    }
    let window = Timestamp { datetime: Some(update_start_time(now)), nanosecond: 0 };
    match base {
        None => Some(window),
        Some(t) => if window.is_after(&t) {
            Some(window)
        } else {
            Some(t)
        },
    }
}

// ---------------------------------------------------------------------
// commits
// ---------------------------------------------------------------------

/// Counts inserted strikes and decides when to commit: after each complete
/// group, and at the end for the rest.
#[derive(Debug, Clone, Copy, PartialEq, Eq, Structural)]
pub struct ChunkInserter {
    pub inserted: usize,
    pub committed_groups: usize,
}

impl ChunkInserter {
    /// Whether no more groups are committed than were inserted.
    pub open spec fn wf(self) -> bool {
        self.committed_groups <= self.inserted / STRIKE_GROUP_SIZE
    }

    /// Nothing inserted yet.
    pub fn new() -> (r: ChunkInserter)
        ensures
            r == (ChunkInserter { inserted: 0, committed_groups: 0 }),
            r.wf(),
    {
        ChunkInserter { inserted: 0, committed_groups: 0 }
    }

    /// A batch of `count` strikes was inserted.
    pub fn accept(&mut self, count: usize)
        requires
            old(self).wf(),
            old(self).inserted + count <= usize::MAX,
        ensures
            final(self).wf(),
            *final(self) == (ChunkInserter {
                inserted: (old(self).inserted + count) as usize,
                committed_groups: old(self).committed_groups,
            }),
    {
        self.inserted = self.inserted + count;
    }

    /// Whether a complete group is to be committed now; it counts as committed.
    /// Ask again until the answer is no.
    pub fn next_commit(&mut self) -> (r: bool)
        requires
            old(self).wf(),
        ensures
            final(self).wf(),
            r == (old(self).committed_groups < old(self).inserted / STRIKE_GROUP_SIZE),
            final(self).inserted == old(self).inserted,
            final(self).committed_groups == old(self).committed_groups + (if r {
                1int
            } else {
                0int
            }),
    {
        if self.committed_groups < self.inserted / STRIKE_GROUP_SIZE {
            self.committed_groups = self.committed_groups + 1;
            true
        } else {
            false
        }
    }

    /// Whether a last, partial group is to be committed.
    pub fn finish(&self) -> (r: bool)
        requires
            self.wf(),
        ensures
            r == (self.inserted > self.committed_groups * STRIKE_GROUP_SIZE),
    {
        self.inserted > self.committed_groups * STRIKE_GROUP_SIZE
    }
}

/// Once every complete group is committed, a last commit is due exactly when
/// the strikes do not fill their groups; so all strikes are committed, and
/// nothing is committed without strikes.
pub proof fn every_strike_is_committed(inserter: ChunkInserter)
    requires
        inserter.committed_groups == inserter.inserted / STRIKE_GROUP_SIZE,
    ensures
        inserter.wf(),
        inserter.inserted > inserter.committed_groups * STRIKE_GROUP_SIZE <==> inserter.inserted as int
            % STRIKE_GROUP_SIZE as int != 0,
        inserter.inserted == 0 ==> inserter.committed_groups == 0,
{
}

// ---------------------------------------------------------------------
// a region
// ---------------------------------------------------------------------

/// What the import of a region does next.
#[derive(Debug)]
pub enum ImportAction {
    /// Commit, then go on.
    Commit,
    /// Go on.
    Continue,
    /// Warn about a line that is no strike, then go on.
    Warn { message: String, line: String },
    /// Read the log at a location and hand in its lines.
    Fetch(String),
    /// Execute the insertion of `count` strikes and report it.
    Insert { statement: Statement, count: usize },
    /// Everything is imported: this many strikes.
    Done(usize),
}

/// The import of one region.
///
/// The logs from where the strikes of the region end are read one after the
/// other.  Their new strikes are inserted in batches, with a commit after each
/// complete group and one for the rest.
#[derive(Debug)]
pub struct RegionImport {
    region: u32,
    provider: StrikesBlitzortungDataProvider,
    inserter: ChunkInserter,
    /// Lines of the current log.
    lines: Vec<String>,
    /// The decimal numbers of each line.
    numbers: Vec<LineNumbers>,
    /// Index of the next line.
    line: usize,
    /// Whether the rest was committed.
    finished: bool,
}

/// What the import of a region holds.
pub struct RegionModel {
    pub region: u32,
    pub logs: ImportModel,
    pub inserter: ChunkInserter,
    pub lines: Seq<Seq<char>>,
    pub numbers: Seq<LineNumbers>,
    pub line: int,
    pub finished: bool,
}

impl RegionModel {
    /// Whether the import is in order.
    pub open spec fn wf(self) -> bool {
        &&& self.logs.wf()
        &&& self.logs.chunk_size == STRIKE_BATCH_SIZE
        &&& db::all_timed(self.logs.buffer)
        &&& self.logs.total == self.inserter.inserted
        &&& self.inserter.wf()
        &&& self.lines.len() == self.numbers.len()
        &&& 0 <= self.line <= self.lines.len()
    }
}

impl View for RegionImport {
    type V = RegionModel;

    closed spec fn view(&self) -> RegionModel {
        RegionModel {
            region: self.region,
            logs: self.provider@,
            inserter: self.inserter,
            lines: text::texts(self.lines@),
            numbers: self.numbers@,
            line: self.line as int,
            finished: self.finished,
        }
    }
}

/// Whether an action inserts a batch under a region.
pub open spec fn inserts(action: ImportAction, batch: Seq<Strike>, region: u32) -> bool {
    action matches ImportAction::Insert { statement, count } && {
        &&& count == batch.len()
        &&& statement.sql@ == db::insert_text(batch.len())
        &&& executor::cells(statement.params@) == db::strikes_cells(batch, Some(region as i64), batch.len() as int)
    }
}

/// Whether a complete group of strikes is not committed.
pub open spec fn group_waits(inserter: ChunkInserter) -> bool {
    inserter.committed_groups < inserter.inserted / STRIKE_GROUP_SIZE
}

/// Whether strikes that fill no group are not committed.
pub open spec fn rest_waits(inserter: ChunkInserter) -> bool {
    inserter.inserted > inserter.committed_groups * STRIKE_GROUP_SIZE
}

/// Whether `action` is the next one of an import in state `before`, and
/// `after` the state then: complete groups are committed first, then the lines
/// of the current log are read, then the next log is; after the last log, or
/// when the time is over, the rest is inserted and committed.
pub open spec fn goes_on(before: RegionModel, out_of_time: bool, action: ImportAction, after: RegionModel) -> bool {
    if group_waits(before.inserter) {
        &&& action is Commit
        &&& after == (RegionModel {
            inserter: (ChunkInserter {
                inserted: before.inserter.inserted,
                committed_groups: (before.inserter.committed_groups + 1) as usize,
            }),
            ..before
        })
    } else if before.line < before.lines.len() {
        match builder::after_line(builder::blank_parts(), before.lines[before.line], before.numbers[before.line]) {
            (_, Some(message)) => {
                &&& action matches ImportAction::Warn { message: m, line: l } && m@ == message && l@
                    == before.lines[before.line]
                &&& after == (RegionModel { line: before.line + 1, ..before })
            },
            (parts, None) => exists|strike: Strike|
                #![trigger dataimport::strike_read(before.logs, strike)]
                builder::is_built(parts, strike) && {
                    let (logs, batch) = dataimport::strike_read(before.logs, strike);
                    &&& after == (RegionModel { logs, line: before.line + 1, ..before })
                    &&& match batch {
                        Some(b) => inserts(action, b, before.region),
                        None => action is Continue,
                    }
                },
        }
    } else if !out_of_time && before.logs.next < before.logs.locations.len() {
        &&& action matches ImportAction::Fetch(location) && location@ == before.logs.locations[before.logs.next]
        &&& after == (RegionModel { logs: (ImportModel { next: before.logs.next + 1, ..before.logs }), ..before })
    } else if before.logs.buffer.len() > 0 {
        &&& inserts(action, before.logs.buffer, before.region)
        &&& after == (RegionModel { logs: (ImportModel { buffer: Seq::empty(), ..before.logs }), ..before })
    } else if !before.finished && rest_waits(before.inserter) {
        &&& action is Commit
        &&& after == (RegionModel { finished: true, ..before })
    } else {
        &&& action == ImportAction::Done(before.inserter.inserted)
        &&& after == before
    }
}

/// The insertion of a batch under a region.
pub(crate) fn insertion(batch: &[Strike], region: u32) -> (r: ImportAction)
    requires
        0 < batch@.len() <= STRIKE_BATCH_SIZE,
        db::all_timed(batch@),
    ensures
        inserts(r, batch@, region),
{
    let count: usize = batch.len();
    match StrikeDb::new(service::SRID).insert_many(batch, Some(region as i64)) {
        Ok(Some(statement)) => ImportAction::Insert { statement, count },
        _ => {
            assert(false);
            ImportAction::Continue
        },
    }
}

impl RegionImport {
    /// Whether the import is in order.
    pub open spec fn wf(&self) -> bool {
        self@.wf()
    }

    /// The import of a region whose latest strike is known, or is not there.
    pub fn new(
        region: u32,
        latest: Option<Timestamp>,
        start_time: Option<Timestamp>,
        is_update: bool,
        now: i64,
    ) -> (r: RegionImport)
        requires
            clock::representable(now as int),
            clock::representable(now - UPDATE_REACH),
            clock::representable(now - DEFAULT_REACH),
            latest matches Some(t) ==> t.wf(),
            start_time matches Some(t) ==> t.wf(),
        ensures
            r.wf(),
            ({
                let since = match starting_point(latest, start_time, is_update, now as int) {
                    Some(Timestamp { datetime: Some(t), nanosecond }) => t as int,
                    _ => now - DEFAULT_REACH,
                };
                r@.logs == dataimport::import_model(since, now as int, region, STRIKE_BATCH_SIZE as int)
            }),
            r@.logs == dataimport::import_model(
                region_since(latest, start_time, is_update, now as int),
                now as int,
                region,
                STRIKE_BATCH_SIZE as int,
            ),
            r@.region == region,
            r@.inserter == (ChunkInserter { inserted: 0, committed_groups: 0 }),
            r@.lines.len() == 0,
            r@.line == 0,
            !r@.finished,
    {
        let start = match import_start(latest, start_time, is_update, now) {
            Some(t) => t.datetime,
            None => None,
        };
        let since: i64 = dataimport::import_start(start, now);
        RegionImport {
            region,
            provider: StrikesBlitzortungDataProvider::new(since, now, region, STRIKE_BATCH_SIZE),
            inserter: ChunkInserter::new(),
            lines: Vec::new(),
            numbers: Vec::new(),
            line: 0,
            finished: false,
        }
    }

    /// The next action.
    pub fn next(&mut self, out_of_time: bool) -> (r: ImportAction)
        requires
            old(self).wf(),
        ensures
            final(self).wf(),
            goes_on(old(self)@, out_of_time, r, final(self)@),
    {
        if self.inserter.next_commit() {
            return ImportAction::Commit;
        }
        if self.line < self.lines.len() {
            let i: usize = self.line;
            assert(text::texts(self.lines@)[i as int] == self.lines@[i as int]@);
            self.line = i + 1;
            return match self.provider.offer_line(self.lines[i].as_str(), &self.numbers[i]) {
                Ok(Some(batch)) => insertion(batch.as_slice(), self.region),
                Ok(None) => ImportAction::Continue,
                Err(e) => ImportAction::Warn { message: e.0, line: self.lines[i].clone() },
            };
        }
        if let Some(location) = self.provider.next_location(out_of_time) {
            return ImportAction::Fetch(location);
        }
        if let Some(batch) = self.provider.finish() {
            return insertion(batch.as_slice(), self.region);
        }
        assert(old(self)@.logs.buffer =~= Seq::<Strike>::empty());
        if !self.finished && self.inserter.finish() {
            self.finished = true;
            return ImportAction::Commit;
        }
        ImportAction::Done(self.inserter.inserted)
    }

    /// Take in the lines of a log, with their decimal numbers.
    pub fn read(&mut self, lines: Vec<String>, numbers: Vec<LineNumbers>)
        requires
            old(self).wf(),
            lines@.len() == numbers@.len(),
            old(self)@.line == old(self)@.lines.len(),
        ensures
            final(self).wf(),
            final(self)@ == (RegionModel { lines: text::texts(lines@), numbers: numbers@, line: 0, ..old(self)@ }),
    {
        self.lines = lines;
        self.numbers = numbers;
        self.line = 0;
    }

    /// How many strikes were inserted.
    pub fn inserted_count(&self) -> (r: usize)
        ensures
            r == self@.inserter.inserted,
    {
        self.inserter.inserted
    }

    /// Take in that `count` strikes were inserted.
    pub fn inserted(&mut self, count: usize)
        requires
            old(self).wf(),
            old(self)@.inserter.inserted + count <= usize::MAX,
        ensures
            final(self).wf(),
            final(self)@ == (RegionModel {
                inserter: (ChunkInserter {
                    inserted: (old(self)@.inserter.inserted + count) as usize,
                    committed_groups: old(self)@.inserter.committed_groups,
                }),
                logs: (ImportModel { total: old(self)@.logs.total + count, ..old(self)@.logs }),
                ..old(self)@
            }),
    {
        self.inserter.accept(count);
        self.provider.stored(count);
    }
}

/// An import that is done has inserted every strike that it collected, and
/// waits for no commit.
pub proof fn nothing_is_left_when_done(before: RegionModel, out_of_time: bool, count: usize, after: RegionModel)
    requires
        goes_on(before, out_of_time, ImportAction::Done(count), after),
    ensures
        count == after.inserter.inserted,
        after.line >= after.lines.len(),
        out_of_time || after.logs.next >= after.logs.locations.len(),
        after.logs.buffer.len() == 0,
        !group_waits(after.inserter),
        after.finished || !rest_waits(after.inserter),
{
}

// ---------------------------------------------------------------------
// a whole run
// ---------------------------------------------------------------------

/// Whether a log line holds a strike that is later than `latest`.
pub open spec fn holds_new_strike(line: Seq<char>, numbers: LineNumbers, latest: int) -> bool {
    match builder::after_line(builder::blank_parts(), line, numbers) {
        (parts, None) => parts.timestamp matches Some(t) && t.valid() && (t.datetime matches Some(m) && m > latest),
        (_, Some(_)) => false,
    }
}

/// The parameters that insert the strike of a log line under a region.
pub open spec fn line_cells(line: Seq<char>, numbers: LineNumbers, region: u32) -> Seq<Cell> {
    let parts = builder::after_line(builder::blank_parts(), line, numbers).0;
    let zero = Real { bits: 0 };
    let whole = |v: Option<int>|
        match v {
            Some(n) => Cell::Int(n),
            None => Cell::Null,
        };
    seq![
        Cell::Timestamp(parts.timestamp->0.datetime->0 as int),
        Cell::Int(parts.timestamp->0.nanosecond as int),
        Cell::Float(parts.x.unwrap_or(zero)),
        Cell::Float(parts.y.unwrap_or(zero)),
        db::real_cell(parts.altitude),
        Cell::Int(region as int),
        db::real_cell(parts.amplitude),
        whole(parts.lateral_error),
        whole(parts.station_count),
    ]
}

/// A built strike is inserted with the parameters of its line.
pub proof fn lemma_line_cells(line: Seq<char>, numbers: LineNumbers, region: u32, strike: Strike, latest: int)
    requires
        ({
            let (parts, fault) = builder::after_line(builder::blank_parts(), line, numbers);
            fault is None && builder::is_built(parts, strike)
        }),
    ensures
        db::strike_cells(strike, Some(region as i64)) == line_cells(line, numbers, region),
        dataimport::is_new(strike, latest) == holds_new_strike(line, numbers, latest),
{
    assert(db::strike_cells(strike, Some(region as i64)) =~= line_cells(line, numbers, region));
}

/// One turn of an import: the action that came next, and the states around it.
pub struct Turn {
    pub before: RegionModel,
    /// Whether the time was over.
    pub late: bool,
    pub action: ImportAction,
    pub after: RegionModel,
}

/// Whether `next` is the state after the action of a turn was performed and
/// reported: a log was read, or strikes were inserted.
pub open spec fn performed(turn: Turn, next: RegionModel) -> bool {
    match turn.action {
        ImportAction::Fetch(_) => {
            &&& next.lines.len() == next.numbers.len()
            &&& next == (RegionModel { lines: next.lines, numbers: next.numbers, line: 0, ..turn.after })
        },
        ImportAction::Insert { statement: _, count } => {
            let inserter = turn.after.inserter;
            &&& inserter.inserted + count <= usize::MAX
            &&& next == (RegionModel {
                inserter: (ChunkInserter {
                    inserted: (inserter.inserted + count) as usize,
                    committed_groups: inserter.committed_groups,
                }),
                logs: (ImportModel { total: turn.after.logs.total + count, ..turn.after.logs }),
                ..turn.after
            })
        },
        _ => next == turn.after,
    }
}

/// Whether the turns are those of one import in which no action failed: it
/// starts with nothing read, and time that is over stays over.
pub open spec fn is_run(turns: Seq<Turn>) -> bool {
    &&& turns.len() > 0 ==> {
        let first = turns[0].before;
        &&& first.logs.chunk_size == STRIKE_BATCH_SIZE
        &&& first.logs.buffer.len() == 0
        &&& first.inserter == (ChunkInserter { inserted: 0, committed_groups: 0 })
        &&& first.line == first.lines.len()
        &&& !first.finished
    }
    &&& forall|i: int|
        0 <= i < turns.len() ==> goes_on(
            (#[trigger] turns[i]).before,
            turns[i].late,
            turns[i].action,
            turns[i].after,
        )
    &&& forall|i: int|
        0 < i < turns.len() ==> performed(turns[i - 1], (#[trigger] turns[i]).before) && (turns[i - 1].late
            ==> turns[i].late)
}

/// Whether a turn reads a new strike.
pub open spec fn reads_strike(turn: Turn) -> bool {
    let s = turn.before;
    !group_waits(s.inserter) && s.line < s.lines.len() && holds_new_strike(
        s.lines[s.line],
        s.numbers[s.line],
        s.logs.latest,
    )
}

/// How many new strikes the first `n` turns read.
pub open spec fn read_count(turns: Seq<Turn>, n: int) -> int
    decreases n,
{
    if n <= 0 {
        0
    } else {
        read_count(turns, n - 1) + (if reads_strike(turns[n - 1]) {
            1int
        } else {
            0
        })
    }
}

/// The parameters of the new strikes that the first `n` turns read.
pub open spec fn read_cells(turns: Seq<Turn>, n: int) -> Seq<Cell>
    decreases n,
{
    if n <= 0 {
        Seq::empty()
    } else if reads_strike(turns[n - 1]) {
        let s = turns[n - 1].before;
        read_cells(turns, n - 1) + line_cells(s.lines[s.line], s.numbers[s.line], s.region)
    } else {
        read_cells(turns, n - 1)
    }
}

/// The actions of the turns of an import.
pub open spec fn actions_of(turns: Seq<Turn>) -> Seq<ImportAction> {
    turns.map_values(|t: Turn| t.action)
}

/// How many insertions the first `n` actions make.
pub open spec fn insertions(actions: Seq<ImportAction>, n: int) -> int
    decreases n,
{
    if n <= 0 {
        0
    } else {
        insertions(actions, n - 1) + (if actions[n - 1] is Insert {
            1int
        } else {
            0
        })
    }
}

/// The parameters of the insertions among the first `n` actions.
pub open spec fn inserted_cells(actions: Seq<ImportAction>, n: int) -> Seq<Cell>
    decreases n,
{
    if n <= 0 {
        Seq::empty()
    } else {
        match actions[n - 1] {
            ImportAction::Insert { statement, count: _ } => inserted_cells(actions, n - 1) + executor::cells(
                statement.params@,
            ),
            _ => inserted_cells(actions, n - 1),
        }
    }
}

/// How many commits the first `n` actions make.
pub open spec fn commits(actions: Seq<ImportAction>, n: int) -> int
    decreases n,
{
    if n <= 0 {
        0
    } else {
        commits(actions, n - 1) + (if actions[n - 1] is Commit {
            1int
        } else {
            0
        })
    }
}

/// Whether no more lines are to be read at the turn `k`.
spec fn is_closing(turns: Seq<Turn>, k: int) -> bool {
    let s = turns[k].before;
    s.line >= s.lines.len() && (s.logs.next >= s.logs.locations.len() || (k > 0 && turns[k - 1].late))
}

/// What the turns before the turn `k` have done.
spec fn progress(turns: Seq<Turn>, k: int) -> bool {
    let s = turns[k].before;
    let buffer = s.logs.buffer;
    let inserted = s.inserter.inserted as int;
    &&& s.region == turns[0].before.region
    &&& s.logs.chunk_size == STRIKE_BATCH_SIZE
    &&& buffer.len() < STRIKE_BATCH_SIZE
    &&& s.inserter.wf()
    &&& read_count(turns, k) == inserted + buffer.len()
    &&& read_cells(turns, k) == inserted_cells(actions_of(turns), k) + db::strikes_cells(
        buffer,
        Some(s.region as i64),
        buffer.len() as int,
    )
    &&& 1000 * insertions(actions_of(turns), k) == inserted || (is_closing(turns, k) && buffer.len() == 0 && insertions(actions_of(turns), k)
        == (inserted + 999) / 1000)
    &&& commits(actions_of(turns), k) == s.inserter.committed_groups + (if s.finished {
        1int
    } else {
        0
    })
    &&& s.finished ==> is_closing(turns, k) && buffer.len() == 0 && !group_waits(s.inserter) && rest_waits(s.inserter)
}

proof fn lemma_progress(turns: Seq<Turn>, k: int)
    requires
        is_run(turns),
        0 <= k < turns.len(),
    ensures
        progress(turns, k),
    decreases k,
{
    if k == 0 {
        assert(read_cells(turns, 0) =~= inserted_cells(actions_of(turns), 0) + db::strikes_cells(
            turns[0].before.logs.buffer,
            Some(turns[0].before.region as i64),
            0,
        ));
    } else {
        lemma_progress(turns, k - 1);
        lemma_turn(turns, k - 1);
    }
}

/// What a turn that reads a line does: the strike that it reads joins those that
/// wait, or completes the batch that is inserted.
spec fn line_is_read(turn: Turn) -> bool {
    let s = turn.before;
    let region = Some(s.region as i64);
    let n = s.logs.buffer.len() as int;
    let buffer = turn.after.logs.buffer;
    let held = db::strikes_cells(s.logs.buffer, region, n);
    let own = line_cells(s.lines[s.line], s.numbers[s.line], s.region);
    &&& turn.after == (RegionModel { logs: (ImportModel { buffer, ..s.logs }), line: s.line + 1, ..s })
    &&& !(turn.action is Fetch) && !(turn.action is Commit)
    &&& match turn.action {
        ImportAction::Insert { statement, count } => {
            &&& reads_strike(turn)
            &&& count == n + 1 == 1000
            &&& buffer.len() == 0
            &&& executor::cells(statement.params@) == held + own
        },
        _ => if reads_strike(turn) {
            &&& buffer.len() == n + 1 < 1000
            &&& db::strikes_cells(buffer, region, n + 1) == held + own
        } else {
            buffer == s.logs.buffer
        },
    }
}

proof fn lemma_line(turn: Turn)
    requires
        goes_on(turn.before, turn.late, turn.action, turn.after),
        !group_waits(turn.before.inserter),
        turn.before.line < turn.before.lines.len(),
        turn.before.logs.chunk_size == STRIKE_BATCH_SIZE,
        turn.before.logs.buffer.len() < STRIKE_BATCH_SIZE,
    ensures
        line_is_read(turn),
{
    let s = turn.before;
    let region = Some(s.region as i64);
    let buffer = s.logs.buffer;
    let (parts, fault) = builder::after_line(builder::blank_parts(), s.lines[s.line], s.numbers[s.line]);
    if fault is None {
        let strike = choose|strike: Strike|
            #![trigger dataimport::strike_read(s.logs, strike)]
            builder::is_built(parts, strike) && {
                let (logs, batch) = dataimport::strike_read(s.logs, strike);
                &&& turn.after == (RegionModel { logs, line: s.line + 1, ..s })
                &&& match batch {
                    Some(b) => inserts(turn.action, b, s.region),
                    None => turn.action is Continue,
                }
            };
        lemma_line_cells(s.lines[s.line], s.numbers[s.line], s.region, strike, s.logs.latest);
        let longer = buffer.push(strike);
        let n = buffer.len() as int;
        db::lemma_same_cells(longer, buffer, region, n);
        assert(db::strikes_cells(longer, region, n + 1) == db::strikes_cells(buffer, region, n) + db::strike_cells(
            strike,
            region,
        ));
    }
}

proof fn lemma_line_turn(turns: Seq<Turn>, k: int)
    requires
        0 <= k,
        k + 1 < turns.len(),
        progress(turns, k),
        line_is_read(turns[k]),
        performed(turns[k], turns[k + 1].before),
        !group_waits(turns[k].before.inserter),
        turns[k].before.line < turns[k].before.lines.len(),
    ensures
        progress(turns, k + 1),
{
    let turn = turns[k];
    let s = turn.before;
    let region = Some(s.region as i64);
    let n = s.logs.buffer.len() as int;
    let held = db::strikes_cells(s.logs.buffer, region, n);
    let made = inserted_cells(actions_of(turns), k);
    let own = line_cells(s.lines[s.line], s.numbers[s.line], s.region);
    assert(actions_of(turns)[k] == turn.action);
    assert((made + held) + own =~= made + (held + own));
    assert((made + (held + own)) + Seq::<Cell>::empty() =~= made + (held + own));
}

proof fn lemma_other_turn(turns: Seq<Turn>, k: int)
    requires
        is_run(turns),
        0 <= k,
        k + 1 < turns.len(),
        progress(turns, k),
        group_waits(turns[k].before.inserter) || turns[k].before.line >= turns[k].before.lines.len(),
    ensures
        progress(turns, k + 1),
{
    let turn = turns[k];
    let s = turn.before;
    assert(goes_on(s, turn.late, turn.action, turn.after));
    assert(performed(turns[k + 1 - 1], turns[k + 1].before));
    assert(turn.late ==> turns[k + 1].late);
    assert(k > 0 ==> (turns[k - 1].late ==> turns[k].late));
    let made = inserted_cells(actions_of(turns), k + 1);
    assert(made + Seq::<Cell>::empty() =~= made);
}

proof fn lemma_turn(turns: Seq<Turn>, k: int)
    requires
        is_run(turns),
        0 <= k,
        k + 1 < turns.len(),
        progress(turns, k),
    ensures
        progress(turns, k + 1),
{
    let s = turns[k].before;
    if !group_waits(s.inserter) && s.line < s.lines.len() {
        assert(performed(turns[k + 1 - 1], turns[k + 1].before));
        lemma_line(turns[k]);
        lemma_line_turn(turns, k);
    } else {
        lemma_other_turn(turns, k);
    }
}

/// A run that is done has inserted every new strike that it read once and in
/// order, a thousand with each insertion but the last, and has committed after
/// every ten thousand and at the end.
pub proof fn a_run_inserts_and_commits_every_new_strike(turns: Seq<Turn>)
    requires
        is_run(turns),
        turns.len() > 0,
        turns.last().action is Done,
    ensures
        ({
            let n = read_count(turns, turns.len() as int);
            &&& turns.last().action->Done_0 == n
            &&& inserted_cells(actions_of(turns), turns.len() as int) == read_cells(turns, turns.len() as int)
            &&& insertions(actions_of(turns), turns.len() as int) == (n + 999) / 1000
            &&& commits(actions_of(turns), turns.len() as int) == (n + 9999) / 10000
        }),
{
    let k = turns.len() - 1;
    lemma_progress(turns, k);
    let turn = turns[k];
    assert(goes_on(turn.before, turn.late, turn.action, turn.after));
    assert(inserted_cells(actions_of(turns), k) + db::strikes_cells(turn.before.logs.buffer, Some(turn.before.region as i64), 0)
        =~= inserted_cells(actions_of(turns), k));
}

// ---------------------------------------------------------------------
// attempts
// ---------------------------------------------------------------------

/// The run over all regions, with several attempts for each.
#[derive(Debug)]
pub struct ImportRun {
    pub regions: Vec<u32>,
    /// Index of the current region.
    pub index: usize,
    /// Failed attempts of the current region.
    pub retry: usize,
    pub total_strikes: usize,
    pub error_count: usize,
}

/// What a run holds.
pub struct RunModel {
    pub regions: Seq<u32>,
    pub index: int,
    pub retry: int,
    pub total_strikes: int,
    pub error_count: int,
}

impl View for ImportRun {
    type V = RunModel;

    open spec fn view(&self) -> RunModel {
        RunModel {
            regions: self.regions@,
            index: self.index as int,
            retry: self.retry as int,
            total_strikes: self.total_strikes as int,
            error_count: self.error_count as int,
        }
    }
}

/// The run after an attempt that imported `strikes`, or failed.
pub open spec fn attempt_ended(run: RunModel, strikes: Option<int>) -> RunModel {
    match strikes {
        Some(n) => RunModel {
            index: run.index + 1,
            retry: 0,
            total_strikes: run.total_strikes + n,
            ..run
        },
        None => if run.retry + 1 < RETRY_COUNT {
            RunModel { retry: run.retry + 1, error_count: run.error_count + 1, ..run }
        } else {
            RunModel { index: run.index + 1, retry: 0, error_count: run.error_count + 1, ..run }
        },
    }
}

impl ImportRun {
    /// Whether the run is in order.
    pub open spec fn wf(&self) -> bool {
        self.index <= self.regions@.len() && self.retry < RETRY_COUNT
    }

    /// A run over the given regions.
    pub fn new(regions: Vec<u32>) -> (r: ImportRun)
        ensures
            r.wf(),
            r@ == (RunModel { regions: regions@, index: 0, retry: 0, total_strikes: 0, error_count: 0 }),
    {
        ImportRun { regions, index: 0, retry: 0, total_strikes: 0, error_count: 0 }
    }

    /// The region to attempt next and the number of its failed attempts; `None`
    /// at the end.
    pub fn next_attempt(&self) -> (r: Option<(u32, usize)>)
        requires
            self.wf(),
        ensures
            match r {
                Some((region, retry)) => self@.index < self@.regions.len() && region == self@.regions[self@.index]
                    && retry == self@.retry,
                None => self@.index == self@.regions.len(),
            },
    {
        if self.index < self.regions.len() {
            Some((self.regions[self.index], self.retry))
        } else {
            None
        }
    }

    /// Take in the end of an attempt: the strikes it imported, `None` when it
    /// failed.
    pub fn attempt_ended(&mut self, strikes: Option<usize>)
        requires
            old(self).wf(),
            old(self)@.index < old(self)@.regions.len(),
            old(self).error_count < usize::MAX,
            strikes matches Some(n) ==> old(self).total_strikes + n <= usize::MAX,
        ensures
            final(self).wf(),
            final(self)@ == attempt_ended(
                old(self)@,
                match strikes {
                    Some(n) => Some(n as int),
                    None => None,
                },
            ),
    {
        let count: usize = self.regions.len();
        assert(self.index < count);
        match strikes {
            Some(n) => {
                self.total_strikes = self.total_strikes + n;
                self.index = self.index + 1;
                self.retry = 0;
            },
            None => {
                self.error_count = self.error_count + 1;
                if self.retry + 1 < RETRY_COUNT {
                    self.retry = self.retry + 1;
                } else {
                    self.index = self.index + 1;
                    self.retry = 0;
                }
            },
        }
    }
}

/// The run after `n` failed attempts in a row.
pub open spec fn failures(run: RunModel, n: nat) -> RunModel
    decreases n,
{
    if n == 0 {
        run
    } else {
        attempt_ended(failures(run, (n - 1) as nat), None)
    }
}

proof fn lemma_failures(run: RunModel, n: nat)
    requires
        run.retry == 0,
        n < RETRY_COUNT,
    ensures
        failures(run, n) == (RunModel { retry: n as int, error_count: run.error_count + n, ..run }),
    decreases n,
{
    if n > 0 {
        lemma_failures(run, (n - 1) as nat);
    }
}

/// A region is given up after five failed attempts, each counted as an error,
/// and the next region follows.
pub proof fn a_region_is_given_up_after_its_retries(run: RunModel)
    requires
        run.retry == 0,
    ensures
        failures(run, RETRY_COUNT as nat) == (RunModel {
            index: run.index + 1,
            error_count: run.error_count + RETRY_COUNT,
            ..run
        }),
        failures(run, (RETRY_COUNT - 1) as nat).index == run.index,
{
    lemma_failures(run, (RETRY_COUNT - 1) as nat);
}

/// An import goes on behind the latest strike, and where there is none it
/// starts at the given time; an update starts there too, but never reaches back
/// more than half an hour.
pub proof fn imports_go_on_behind_the_latest_strike(
    latest: Option<Timestamp>,
    start_time: Option<Timestamp>,
    now: i64,
)
    requires
        now >= i64::MIN + 1_800_000_000,
        latest matches Some(t) ==> t.datetime is Some && t.nanosecond >= 0,
        start_time matches Some(t) ==> t.datetime is Some && t.nanosecond >= 0,
    ensures
        latest is Some ==> starting_point(latest, start_time, false, now as int) == latest,
        latest is None ==> starting_point(latest, start_time, false, now as int) == start_time,
        ({
            let base = starting_point(latest, start_time, false, now as int);
            let since = starting_point(latest, start_time, true, now as int);
            let reach = now - 1_800_000_000;
            &&& since matches Some(t) && t.datetime matches Some(instant) && instant >= reach
            &&& base matches Some(t) ==> (t.datetime->0 >= reach ==> since == base)
            &&& base is None || base->0.datetime->0 < reach ==> since->0.datetime == Some(reach as i64)
                && since->0.nanosecond == 0
        }),
{
}

/// A commit is due for each ten thousand strikes, and one for a rest that does
/// not fill them.
pub proof fn groups_hold_ten_thousand_strikes(inserter: ChunkInserter)
    requires
        inserter.wf(),
    ensures
        group_waits(inserter) <==> inserter.inserted - inserter.committed_groups * 10000 >= 10000,
        rest_waits(inserter) <==> inserter.inserted - inserter.committed_groups * 10000 > 0,
{
}

/// The logs are read from where the import starts; without a latest strike and
/// a start time those of the last six hours are.
pub proof fn logs_are_read_from_the_start_of_the_import(
    latest: Option<Timestamp>,
    start_time: Option<Timestamp>,
    is_update: bool,
    now: i64,
)
    requires
        now >= i64::MIN + 1_800_000_000,
        latest matches Some(t) ==> t.datetime is Some && t.nanosecond >= 0,
        start_time matches Some(t) ==> t.datetime is Some && t.nanosecond >= 0,
    ensures
        ({
            let since = region_since(latest, start_time, is_update, now as int);
            &&& latest is None && start_time is None && !is_update ==> since == now - 21_600_000_000
            &&& !is_update ==> (latest matches Some(t) ==> since == t.datetime->0)
            &&& !is_update && latest is None ==> (start_time matches Some(t) ==> since == t.datetime->0)
            &&& is_update ==> since >= now - 1_800_000_000
            &&& is_update ==> (latest matches Some(t) ==> (t.datetime->0 >= now - 1_800_000_000 ==> since
                == t.datetime->0))
            &&& is_update && latest is None && start_time is None ==> since == now - 1_800_000_000
        }),
{
    imports_go_on_behind_the_latest_strike(latest, start_time, now);
}

/// Four failed attempts leave a region where it is, and the fifth one gives it
/// up; each counts as an error, and an attempt that succeeds adds its strikes.
pub proof fn a_region_has_five_attempts(run: RunModel, n: nat, strikes: int)
    requires
        run.retry == 0,
    ensures
        n < 5 ==> failures(run, n).index == run.index && failures(run, n).error_count == run.error_count + n,
        failures(run, 5).index == run.index + 1,
        failures(run, 5).retry == 0,
        failures(run, 5).error_count == run.error_count + 5,
        failures(run, 5).total_strikes == run.total_strikes,
        n < 5 ==> attempt_ended(failures(run, n), Some(strikes)) == (RunModel {
            index: run.index + 1,
            total_strikes: run.total_strikes + strikes,
            error_count: run.error_count + n,
            ..run
        }),
{
    a_region_is_given_up_after_its_retries(run);
    if n < 5 {
        lemma_failures(run, n);
    }
}

/// A start date means midnight of its day, and none means none; a date that
/// cannot be read ends the tool with the code 5 and is shown in the message.
pub proof fn start_dates_mean_midnight(r: Result<Option<Timestamp>, Exit>, value: Seq<char>, day: int)
    requires
        is_start_time(r, Some(value)),
    ensures
        clock::day_start(value) == Some(day) ==> (r matches Ok(Some(t)) && t.datetime == Some(day as i64) && t.nanosecond
            == 0),
        clock::day_start(value) is None ==> (r matches Err(e) && e.code == 5 && e.message@
            == "parse error in startdate \""@ + value + seq!['"']),
{
    reveal_strlit("\"");
    assert("\""@ =~= seq!['"']);
}

} // verus!
