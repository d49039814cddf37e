//! Import with named options, committing by the number of strikes read.

use vstd::prelude::*;
use vstd::slice::*;
use vstd::string::*;

use crate::builder;
use crate::builder::LineNumbers;
use crate::cli::import_tool;
use crate::cli::import_tool::{ImportAction, STRIKE_BATCH_SIZE, STRIKE_GROUP_SIZE, UPDATE_REACH};
use crate::cli::Exit;
use crate::clock;
use crate::data::{Strike, Timestamp};
use crate::dataimport;
use crate::dataimport::{ImportModel, StrikesBlitzortungDataProvider, DEFAULT_REACH};
use crate::db;
use crate::executor::Cell;
use crate::text;

verus! {

/// Flags and values of a command line, by name.
#[derive(Debug)]
pub struct Options {
    pub flags: Vec<String>,
    pub values: Vec<(String, String)>,
}

/// The value of a name among the pairs at or after `i`.
pub open spec fn value_from(values: Seq<(String, String)>, name: Seq<char>, i: int) -> Option<Seq<char>>
    decreases values.len() - i,
{
    if i < 0 || i >= values.len() {
        None
    } else if values[i].0@ == name {
        Some(values[i].1@)
    } else {
        value_from(values, name, i + 1)
    }
}

impl Options {
    /// Whether a flag is set.
    pub fn flag(&self, name: &str) -> (r: bool)
        ensures
            r == text::texts(self.flags@).contains(name@),
    {
        let mut i: usize = 0;
        while i < self.flags.len()
            invariant
                i <= self.flags@.len(),
                forall|j: int| 0 <= j < i ==> (#[trigger] self.flags@[j])@ != name@,
            decreases self.flags@.len() - i,
        {
            if text::same_text(self.flags[i].as_str(), name) {
                assert(text::texts(self.flags@)[i as int] == name@);
                return true;
            }
            i = i + 1;
        }
        assert forall|j: int| 0 <= j < text::texts(self.flags@).len() implies text::texts(self.flags@)[j]
            != name@ by {
            assert(text::texts(self.flags@)[j] == self.flags@[j]@);
        }
        false
    }

    /// The value of an option.
    pub fn value(&self, name: &str) -> (r: Option<String>)
        ensures
            text::opt_text(r) == value_from(self.values@, name@, 0),
    {
        let mut i: usize = 0;
        while i < self.values.len()
            invariant
                i <= self.values@.len(),
                value_from(self.values@, name@, 0) == value_from(self.values@, name@, i as int),
            decreases self.values@.len() - i,
        {
            if text::same_text(self.values[i].0.as_str(), name) {
                return Some(self.values[i].1.clone());
            }
            i = i + 1;
        }
        None
    }
}

/// Options of the tool.
#[derive(Debug)]
pub struct InsertOptions {
    pub verbose: bool,
    pub debug: bool,
    pub no_timeout: bool,
    pub startdate: Option<String>,
    pub update: bool,
}

impl InsertOptions {
    /// The options that a command line means.
    pub fn from_options(options: &Options) -> (r: InsertOptions)
        ensures
            r.verbose == text::texts(options.flags@).contains("verbose"@),
            r.debug == text::texts(options.flags@).contains("debug"@),
            r.no_timeout == text::texts(options.flags@).contains("no-timeout"@),
            text::opt_text(r.startdate) == value_from(options.values@, "startdate"@, 0),
            r.update == text::texts(options.flags@).contains("update"@),
    {
        InsertOptions {
            verbose: options.flag("verbose"),
            debug: options.flag("debug"),
            no_timeout: options.flag("no-timeout"),
            startdate: options.value("startdate"),
            update: options.flag("update"),
        }
    }
}

/// Resolve the start date option to midnight in UTC.
pub fn resolve_start_time(options: &InsertOptions) -> (r: Result<Option<Timestamp>, Exit>)
    ensures
        import_tool::is_start_time(r, text::opt_text(options.startdate)),
{
    import_tool::start_time_of(&options.startdate)
}

/// What to do after a strike was read.
#[derive(Debug, Clone, Copy, PartialEq, Eq, Structural)]
pub enum InsertStep {
    /// Read on.
    Collect,
    /// Insert the collected strikes.
    Insert,
    /// Insert the collected strikes, then commit.
    InsertAndCommit,
}

/// The step after the strike with the given number, when `collected` strikes
/// wait for insertion.
pub open spec fn step_after(strike_count: int, collected: int) -> InsertStep {
    if collected < STRIKE_BATCH_SIZE {
        InsertStep::Collect
    } else if strike_count % STRIKE_GROUP_SIZE as int == 0 {
        InsertStep::InsertAndCommit
    } else {
        InsertStep::Insert
    }
}

/// The step after the strike with the given number, when `collected` strikes
/// wait for insertion.
pub fn after_strike(strike_count: usize, collected: usize) -> (r: InsertStep)
    ensures
        r == step_after(strike_count as int, collected as int),
        r == (if collected < STRIKE_BATCH_SIZE {
            InsertStep::Collect
        } else if strike_count as int % STRIKE_GROUP_SIZE as int == 0 {
            InsertStep::InsertAndCommit
        } else {
            InsertStep::Insert
        }),
{
    if collected < STRIKE_BATCH_SIZE {
        InsertStep::Collect
    } else if strike_count % STRIKE_GROUP_SIZE == 0 {
        InsertStep::InsertAndCommit
    } else {
        InsertStep::Insert
    }
}

/// What is left at the end: whether to insert the rest, and whether to commit.
pub fn at_end(strike_count: usize, collected: usize) -> (r: (bool, bool))
    ensures
        r == (collected > 0, strike_count > 0),
{
    (collected > 0, strike_count > 0)
}

// ---------------------------------------------------------------------
// a region
// ---------------------------------------------------------------------

/// The import of one region, which reads all of its logs before it inserts.
///
/// The new strikes are inserted in batches, with a commit after each complete
/// group and one at the end.
#[derive(Debug)]
pub struct CollectedImport {
    region: u32,
    provider: StrikesBlitzortungDataProvider,
    /// Lines of the current log.
    lines: Vec<String>,
    /// The decimal numbers of each line.
    numbers: Vec<LineNumbers>,
    /// Index of the next line.
    line: usize,
    /// Whether logs are still read.
    reading: bool,
    /// The new strikes of all logs.
    strikes: Vec<Strike>,
    /// How many of them are inserted.
    inserted: usize,
    /// Whether a complete group is to be committed.
    commit_waits: bool,
    /// Whether the last commit was made.
    finished: bool,
}

/// What the import of a region holds.
pub struct CollectedModel {
    pub region: u32,
    pub logs: ImportModel,
    pub lines: Seq<Seq<char>>,
    pub numbers: Seq<LineNumbers>,
    pub line: int,
    pub reading: bool,
    pub strikes: Seq<Strike>,
    pub inserted: int,
    pub commit_waits: bool,
    pub finished: bool,
}

impl CollectedModel {
    /// Whether the import is in order.
    pub open spec fn wf(self) -> bool {
        &&& self.logs.wf()
        &&& db::all_timed(self.logs.buffer)
        &&& db::all_timed(self.strikes)
        &&& self.lines.len() == self.numbers.len()
        &&& 0 <= self.line <= self.lines.len()
        &&& 0 <= self.inserted <= self.strikes.len()
    }
}

impl View for CollectedImport {
    type V = CollectedModel;

    closed spec fn view(&self) -> CollectedModel {
        CollectedModel {
            region: self.region,
            logs: self.provider@,
            lines: text::texts(self.lines@),
            numbers: self.numbers@,
            line: self.line as int,
            reading: self.reading,
            strikes: self.strikes@,
            inserted: self.inserted as int,
            commit_waits: self.commit_waits,
            finished: self.finished,
        }
    }
}

/// The end of the batch that starts at `inserted`.
pub open spec fn batch_end(inserted: int, count: int) -> int {
    if count - inserted < STRIKE_BATCH_SIZE {
        count
    } else {
        inserted + STRIKE_BATCH_SIZE
    }
}

/// Whether `action` is the next one of an import in state `before`, and
/// `after` the state then: the logs are read first; then each batch is
/// inserted, with a commit where a group is complete; a last commit follows
/// unless there are no strikes.
pub open spec fn goes_on(before: CollectedModel, out_of_time: bool, action: ImportAction, after: CollectedModel) -> bool {
    if before.reading {
        if before.line < before.lines.len() {
            match builder::after_line(builder::blank_parts(), before.lines[before.line], before.numbers[before.line]) {
                (_, Some(message)) => {
                    &&& action matches ImportAction::Warn { message: m, line: l } && m@ == message && l@
                        == before.lines[before.line]
                    &&& after == (CollectedModel { line: before.line + 1, ..before })
                },
                (parts, None) => exists|strike: Strike|
                    #![trigger dataimport::strike_read(before.logs, strike)]
                    builder::is_built(parts, strike) && {
                        let (logs, batch) = dataimport::strike_read(before.logs, strike);
                        let strikes = match batch {
                            Some(b) => before.strikes + b,
                            None => before.strikes,
                        };
                        &&& action is Continue
                        &&& after == (CollectedModel { logs, strikes, line: before.line + 1, ..before })
                    },
            }
        } else if !out_of_time && before.logs.next < before.logs.locations.len() {
            &&& action matches ImportAction::Fetch(location) && location@ == before.logs.locations[before.logs.next]
            &&& after == (CollectedModel {
                logs: (ImportModel { next: before.logs.next + 1, ..before.logs }),
                ..before
            })
        } else {
            &&& action is Continue
            &&& after == (CollectedModel {
                logs: (ImportModel { buffer: Seq::empty(), ..before.logs }),
                strikes: before.strikes + before.logs.buffer,
                reading: false,
                ..before
            })
        }
    } else if before.commit_waits {
        &&& action is Commit
        &&& after == (CollectedModel { commit_waits: false, ..before })
    } else if before.inserted < before.strikes.len() {
        let end = batch_end(before.inserted, before.strikes.len() as int);
        &&& import_tool::inserts(action, before.strikes.subrange(before.inserted, end), before.region)
        &&& after == (CollectedModel {
            inserted: end,
            commit_waits: end - before.inserted >= STRIKE_BATCH_SIZE && end % STRIKE_GROUP_SIZE as int == 0,
            ..before
        })
    } else if !before.finished && before.strikes.len() > 0 {
        &&& action is Commit
        &&& after == (CollectedModel { finished: true, ..before })
    } else {
        &&& action matches ImportAction::Done(count) && count == before.strikes.len()
        &&& after == before
    }
}

impl CollectedImport {
    /// Whether the import is in order.
    pub open spec fn wf(&self) -> bool {
        self@.wf()
    }

    /// The import of a region whose latest strike is known, or is not there.
    pub fn new(
        region: u32,
        latest: Option<Timestamp>,
        start_time: Option<Timestamp>,
        is_update: bool,
        now: i64,
    ) -> (r: CollectedImport)
        requires
            clock::representable(now as int),
            clock::representable(now - UPDATE_REACH),
            clock::representable(now - DEFAULT_REACH),
            latest matches Some(t) ==> t.wf(),
            start_time matches Some(t) ==> t.wf(),
        ensures
            r.wf(),
            ({
                let since = match import_tool::starting_point(latest, start_time, is_update, now as int) {
                    Some(Timestamp { datetime: Some(t), nanosecond }) => t as int,
                    _ => now - DEFAULT_REACH,
                };
                r@.logs == dataimport::import_model(since, now as int, region, usize::MAX as int)
            }),
            r@.logs == dataimport::import_model(
                import_tool::region_since(latest, start_time, is_update, now as int),
                now as int,
                region,
                usize::MAX as int,
            ),
            r@.region == region,
            r@.lines.len() == 0,
            r@.line == 0,
            r@.reading,
            r@.strikes.len() == 0,
            r@.inserted == 0,
            !r@.commit_waits,
            !r@.finished,
    {
        let start = match import_tool::import_start(latest, start_time, is_update, now) {
            Some(t) => t.datetime,
            None => None,
        };
        let since: i64 = dataimport::import_start(start, now);
        CollectedImport {
            region,
            provider: StrikesBlitzortungDataProvider::new(since, now, region, usize::MAX),
            lines: Vec::new(),
            numbers: Vec::new(),
            line: 0,
            reading: true,
            strikes: Vec::new(),
            inserted: 0,
            commit_waits: false,
            finished: false,
        }
    }

    /// The next action.
    pub fn next(&mut self, out_of_time: bool) -> (r: ImportAction)
        requires
            old(self).wf(),
        ensures
            final(self).wf(),
            goes_on(old(self)@, out_of_time, r, final(self)@),
    {
        if self.reading {
            return self.read_on(out_of_time);
        }
        if self.commit_waits {
            self.commit_waits = false;
            return ImportAction::Commit;
        }
        let count: usize = self.strikes.len();
        if self.inserted < count {
            let start: usize = self.inserted;
            let end: usize = if count - start < STRIKE_BATCH_SIZE {
                count
            } else {
                start + STRIKE_BATCH_SIZE
            };
            let batch = slice_subrange(self.strikes.as_slice(), start, end);
            let action = import_tool::insertion(batch, self.region);
            self.commit_waits = match after_strike(end, end - start) {
                InsertStep::InsertAndCommit => true,
                _ => false,
            };
            self.inserted = end;
            return action;
        }
        let (_, commit) = at_end(count, 0);
        if commit && !self.finished {
            self.finished = true;
            return ImportAction::Commit;
        }
        ImportAction::Done(count)
    }

    fn read_on(&mut self, out_of_time: bool) -> (r: ImportAction)
        requires
            old(self).wf(),
            old(self).reading,
        ensures
            final(self).wf(),
            goes_on(old(self)@, out_of_time, r, final(self)@),
    {
        if self.line < self.lines.len() {
            let i: usize = self.line;
            assert(text::texts(self.lines@)[i as int] == self.lines@[i as int]@);
            self.line = i + 1;
            return match self.provider.offer_line(self.lines[i].as_str(), &self.numbers[i]) {
                Ok(Some(batch)) => {
                    let mut batch = batch;
                    self.strikes.append(&mut batch);
                    ImportAction::Continue
                },
                Ok(None) => ImportAction::Continue,
                Err(e) => ImportAction::Warn { message: e.0, line: self.lines[i].clone() },
            };
        }
        if let Some(location) = self.provider.next_location(out_of_time) {
            return ImportAction::Fetch(location);
        }
        if let Some(batch) = self.provider.finish() {
            let mut batch = batch;
            self.strikes.append(&mut batch);
        }
        self.reading = false;
        assert(old(self)@.strikes + Seq::<Strike>::empty() =~= old(self)@.strikes);
        assert(old(self)@.logs.buffer.len() == 0 ==> old(self)@.logs.buffer =~= Seq::<Strike>::empty());
        ImportAction::Continue
    }

    /// How many strikes were inserted.
    pub fn inserted_count(&self) -> (r: usize)
        ensures
            r == self@.inserted,
    {
        self.inserted
    }

    /// Take in the lines of a log, with their decimal numbers.
    pub fn read(&mut self, lines: Vec<String>, numbers: Vec<LineNumbers>)
        requires
            old(self).wf(),
            lines@.len() == numbers@.len(),
            old(self)@.line == old(self)@.lines.len(),
        ensures
            final(self).wf(),
            final(self)@ == (CollectedModel { lines: text::texts(lines@), numbers: numbers@, line: 0, ..old(self)@ }),
    {
        self.lines = lines;
        self.numbers = numbers;
        self.line = 0;
    }
}

// ---------------------------------------------------------------------
// a whole run
// ---------------------------------------------------------------------

/// One turn of an import: the action that came next, and the states around it.
pub struct Turn {
    pub before: CollectedModel,
    /// Whether the time was over.
    pub late: bool,
    pub action: ImportAction,
    pub after: CollectedModel,
}

/// Whether `next` is the state after the action of a turn was performed and,
/// where a log was read, reported.
pub open spec fn performed(turn: Turn, next: CollectedModel) -> bool {
    match turn.action {
        ImportAction::Fetch(_) => {
            &&& next.lines.len() == next.numbers.len()
            &&& next == (CollectedModel { lines: next.lines, numbers: next.numbers, line: 0, ..turn.after })
        },
        _ => next == turn.after,
    }
}

/// Whether the turns are those of one import in which no action failed: it
/// starts with nothing read.
pub open spec fn is_run(turns: Seq<Turn>) -> bool {
    &&& turns.len() > 0 ==> {
        let first = turns[0].before;
        &&& first.logs.buffer.len() == 0
        &&& first.line == first.lines.len()
        &&& first.reading
        &&& first.strikes.len() == 0
        &&& first.inserted == 0
        &&& !first.commit_waits
        &&& !first.finished
    }
    &&& forall|i: int|
        0 <= i < turns.len() ==> goes_on(
            (#[trigger] turns[i]).before,
            turns[i].late,
            turns[i].action,
            turns[i].after,
        )
    &&& forall|i: int| 0 < i < turns.len() ==> performed(turns[i - 1], (#[trigger] turns[i]).before)
}

/// The actions of the turns of an import.
pub open spec fn actions_of(turns: Seq<Turn>) -> Seq<ImportAction> {
    turns.map_values(|t: Turn| t.action)
}

/// Whether a turn reads a new strike.
pub open spec fn reads_strike(turn: Turn) -> bool {
    let s = turn.before;
    s.reading && s.line < s.lines.len() && import_tool::holds_new_strike(
        s.lines[s.line],
        s.numbers[s.line],
        s.logs.latest,
    )
}

/// How many new strikes the first `n` turns read.
pub open spec fn read_count(turns: Seq<Turn>, n: int) -> int
    decreases n,
{
    if n <= 0 {
        0
    } else {
        read_count(turns, n - 1) + (if reads_strike(turns[n - 1]) {
            1int
        } else {
            0
        })
    }
}

/// The parameters of the new strikes that the first `n` turns read.
pub open spec fn read_cells(turns: Seq<Turn>, n: int) -> Seq<Cell>
    decreases n,
{
    if n <= 0 {
        Seq::empty()
    } else if reads_strike(turns[n - 1]) {
        let s = turns[n - 1].before;
        read_cells(turns, n - 1) + import_tool::line_cells(s.lines[s.line], s.numbers[s.line], s.region)
    } else {
        read_cells(turns, n - 1)
    }
}

/// The strikes that an import has read so far.
spec fn held(s: CollectedModel) -> Seq<Strike> {
    s.strikes + s.logs.buffer
}

/// What the turns before the turn `k` have done.
spec fn progress(turns: Seq<Turn>, k: int) -> bool {
    let s = turns[k].before;
    let region = Some(s.region as i64);
    let actions = actions_of(turns);
    let flag = |b: bool|
        if b {
            1int
        } else {
            0
        };
    &&& s.region == turns[0].before.region
    &&& read_count(turns, k) == held(s).len()
    &&& read_cells(turns, k) == db::strikes_cells(held(s), region, held(s).len() as int)
    &&& 0 <= s.inserted <= s.strikes.len()
    &&& import_tool::inserted_cells(actions, k) == db::strikes_cells(s.strikes, region, s.inserted)
    &&& import_tool::insertions(actions, k) == (s.inserted + 999) / 1000
    &&& s.inserted % 1000 == 0 || s.inserted == s.strikes.len()
    &&& import_tool::commits(actions, k) == s.inserted / 10000 - flag(s.commit_waits) + flag(s.finished)
    &&& s.reading ==> s.inserted == 0 && !s.commit_waits && !s.finished
    &&& !s.reading ==> s.logs.buffer.len() == 0
    &&& s.finished ==> !s.commit_waits && s.inserted == s.strikes.len() > 0
}

/// A turn that reads a line keeps its strike when it is new.
proof fn lemma_line(turn: Turn)
    requires
        goes_on(turn.before, turn.late, turn.action, turn.after),
        turn.before.reading,
        turn.before.line < turn.before.lines.len(),
    ensures
        ({
            let s = turn.before;
            let region = Some(s.region as i64);
            let n = held(s).len() as int;
            &&& turn.after == (CollectedModel {
                logs: (ImportModel { buffer: turn.after.logs.buffer, ..s.logs }),
                strikes: turn.after.strikes,
                line: s.line + 1,
                ..s
            })
            &&& turn.action is Continue || turn.action is Warn
            &&& if reads_strike(turn) {
                &&& held(turn.after).len() == n + 1
                &&& db::strikes_cells(held(turn.after), region, n + 1) == db::strikes_cells(held(s), region, n)
                    + import_tool::line_cells(s.lines[s.line], s.numbers[s.line], s.region)
            } else {
                held(turn.after) == held(s)
            }
        }),
{
    let s = turn.before;
    let region = Some(s.region as i64);
    let (parts, fault) = builder::after_line(builder::blank_parts(), s.lines[s.line], s.numbers[s.line]);
    if fault is None {
        let strike = choose|strike: Strike|
            #![trigger dataimport::strike_read(s.logs, strike)]
            builder::is_built(parts, strike) && {
                let (logs, batch) = dataimport::strike_read(s.logs, strike);
                let strikes = match batch {
                    Some(b) => s.strikes + b,
                    None => s.strikes,
                };
                &&& turn.action is Continue
                &&& turn.after == (CollectedModel { logs, strikes, line: s.line + 1, ..s })
            };
        import_tool::lemma_line_cells(s.lines[s.line], s.numbers[s.line], s.region, strike, s.logs.latest);
        if dataimport::is_new(strike, s.logs.latest) {
            let longer = held(s).push(strike);
            assert(held(turn.after) =~= longer);
            db::lemma_same_cells(longer, held(s), region, held(s).len() as int);
        }
    }
}

proof fn lemma_reading_turn(turns: Seq<Turn>, k: int)
    requires
        is_run(turns),
        0 <= k,
        k + 1 < turns.len(),
        progress(turns, k),
        turns[k].before.reading,
    ensures
        progress(turns, k + 1),
{
    let turn = turns[k];
    let s = turn.before;
    let region = Some(s.region as i64);
    assert(goes_on(s, turn.late, turn.action, turn.after));
    assert(performed(turns[k + 1 - 1], turns[k + 1].before));
    if s.line < s.lines.len() {
        lemma_line(turn);
    } else if !turn.late && s.logs.next < s.logs.locations.len() {
        assert(held(turns[k + 1].before) == held(s));
    } else {
        assert(held(turn.after) =~= held(s));
    }
    assert(db::strikes_cells(turns[k + 1].before.strikes, region, 0) == db::strikes_cells(s.strikes, region, 0));
}

proof fn lemma_batch_turn(turns: Seq<Turn>, k: int)
    requires
        is_run(turns),
        0 <= k,
        k + 1 < turns.len(),
        progress(turns, k),
        !turns[k].before.reading,
        !turns[k].before.commit_waits,
        turns[k].before.inserted < turns[k].before.strikes.len(),
    ensures
        progress(turns, k + 1),
{
    let turn = turns[k];
    let s = turn.before;
    let region = Some(s.region as i64);
    let count = s.strikes.len() as int;
    let end = batch_end(s.inserted, count);
    let batch = s.strikes.subrange(s.inserted, end);
    assert(goes_on(s, turn.late, turn.action, turn.after));
    assert(performed(turns[k + 1 - 1], turns[k + 1].before));
    lemma_batch_cells(s.strikes, s.inserted, end, region);
    lemma_batch_counts(s.inserted, count);
    assert(turns[k + 1].before == turn.after);
    assert(held(turn.after) == held(s));
    assert(actions_of(turns)[k] == turn.action);
}

proof fn lemma_batch_cells(strikes: Seq<Strike>, start: int, end: int, region: Option<i64>)
    requires
        0 <= start <= end <= strikes.len(),
    ensures
        db::strikes_cells(strikes, region, end) == db::strikes_cells(strikes, region, start) + db::strikes_cells(
            strikes.subrange(start, end),
            region,
            end - start,
        ),
{
    let head = strikes.take(start);
    let batch = strikes.subrange(start, end);
    db::lemma_joined_cells(head, batch, region, batch.len() as int);
    assert(head + batch =~= strikes.take(end));
    db::lemma_same_cells(strikes.take(end), strikes, region, end);
    db::lemma_same_cells(head, strikes, region, start);
}

/// One more batch is one more insertion, and one more commit is due exactly
/// when it completes a group.
proof fn lemma_batch_counts(inserted: int, count: int)
    requires
        0 <= inserted < count,
        inserted % 1000 == 0,
    ensures
        ({
            let end = batch_end(inserted, count);
            &&& inserted < end <= count
            &&& end % 1000 == 0 || end == count
            &&& (end + 999) / 1000 == (inserted + 999) / 1000 + 1
            &&& end / 10000 == inserted / 10000 + (if end - inserted >= 1000 && end % 10000 == 0 {
                1int
            } else {
                0
            })
        }),
{
    let end = batch_end(inserted, count);
    let a = inserted / 1000;
    let c = end - inserted;
    assert(inserted == 1000 * a);
    assert(0 < c <= 1000);
    assert((1000 * a + 999) / 1000 == a);
    assert((1000 * a + c + 999) / 1000 == a + 1);
    lemma_thousands(a, c);
}

proof fn lemma_thousands(a: int, c: int)
    requires
        a >= 0,
        0 <= c <= 1000,
    ensures
        c < 1000 ==> (1000 * a + c) / 10000 == a / 10,
        (1000 * a) / 10000 == a / 10,
        c == 1000 ==> (1000 * a + c) / 10000 == (a + 1) / 10,
        c == 1000 ==> ((1000 * a + c) % 10000 == 0 <==> (a + 1) % 10 == 0),
{
}

proof fn lemma_turn(turns: Seq<Turn>, k: int)
    requires
        is_run(turns),
        0 <= k,
        k + 1 < turns.len(),
        progress(turns, k),
    ensures
        progress(turns, k + 1),
{
    let turn = turns[k];
    let s = turn.before;
    if s.reading {
        lemma_reading_turn(turns, k);
    } else if !s.commit_waits && s.inserted < s.strikes.len() {
        lemma_batch_turn(turns, k);
    } else {
        assert(goes_on(s, turn.late, turn.action, turn.after));
        assert(performed(turns[k + 1 - 1], turns[k + 1].before));
    }
}

proof fn lemma_progress(turns: Seq<Turn>, k: int)
    requires
        is_run(turns),
        0 <= k < turns.len(),
    ensures
        progress(turns, k),
    decreases k,
{
    if k > 0 {
        lemma_progress(turns, k - 1);
        lemma_turn(turns, k - 1);
    }
}

/// A run that is done has inserted every new strike that it read once and in
/// order, a thousand with each insertion but the last, and has committed after
/// every ten thousand and, unless there were none, at the end.
pub proof fn a_run_inserts_and_commits_every_new_strike(turns: Seq<Turn>)
    requires
        is_run(turns),
        turns.len() > 0,
        turns.last().action is Done,
    ensures
        ({
            let n = read_count(turns, turns.len() as int);
            &&& turns.last().action->Done_0 == n
            &&& import_tool::inserted_cells(actions_of(turns), turns.len() as int) == read_cells(
                turns,
                turns.len() as int,
            )
            &&& import_tool::insertions(actions_of(turns), turns.len() as int) == (n + 999) / 1000
            &&& import_tool::commits(actions_of(turns), turns.len() as int) == n / 10000 + (if n > 0 {
                1int
            } else {
                0
            })
        }),
{
    let k = turns.len() - 1;
    lemma_progress(turns, k);
    let turn = turns[k];
    assert(goes_on(turn.before, turn.late, turn.action, turn.after));
    assert(held(turn.before) =~= turn.before.strikes);
}

/// A batch holds a thousand strikes, and the last one what is left.
pub proof fn batches_hold_a_thousand_strikes(inserted: int, count: int)
    requires
        0 <= inserted <= count,
    ensures
        count - inserted >= 1000 ==> batch_end(inserted, count) == inserted + 1000,
        count - inserted <= 1000 ==> batch_end(inserted, count) == count,
{
}

/// The value of an option is the one that stands behind its name first.
pub proof fn the_first_value_of_an_option_counts(values: Seq<(String, String)>, name: Seq<char>, i: int, k: int)
    requires
        0 <= i <= k <= values.len(),
        forall|j: int| i <= j < k ==> (#[trigger] values[j]).0@ != name,
        k < values.len() ==> values[k].0@ == name,
    ensures
        value_from(values, name, i) == (if k < values.len() {
            Some(values[k].1@)
        } else {
            None
        }),
    decreases k - i,
{
    if i < k {
        assert(values[i].0@ != name);
        the_first_value_of_an_option_counts(values, name, i + 1, k);
    }
}

/// Strikes are collected up to a thousand, and inserted then; a commit follows
/// where their number is a multiple of ten thousand.
pub proof fn steps_follow_the_counts(strike_count: int, collected: int)
    ensures
        collected < 1000 ==> step_after(strike_count, collected) == InsertStep::Collect,
        collected >= 1000 && strike_count % 10_000 == 0 ==> step_after(strike_count, collected)
            == InsertStep::InsertAndCommit,
        collected >= 1000 && strike_count % 10_000 != 0 ==> step_after(strike_count, collected) == InsertStep::Insert,
{
}

} // verus!
