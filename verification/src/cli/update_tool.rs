//! Import of recent strikes that are missing in the database.

use std::collections::HashMap;

use vstd::prelude::*;
use vstd::slice::*;
use vstd::string::*;

use crate::builder;
use crate::builder::MessageNumbers;
use crate::data::Strike;
use crate::db;
use crate::db::{HashableStrikeKey, Statement, StrikeDb};
use crate::executor;
use crate::json::Json;
use crate::number;
use crate::service;
use crate::text;

verus! {

/// Microseconds of an hour.
pub const HOUR: i64 = 3_600_000_000;

/// Microseconds of a minute.
pub const MINUTE: i64 = 60_000_000;

/// Arguments of the tool.
#[derive(Debug, Clone, Copy, PartialEq, Eq, Structural)]
pub struct UpdateArgs {
    /// Hours to look back.
    pub hours: i64,
    pub verbose: bool,
    pub debug: bool,
    /// Run without the lock file.
    pub no_lock: bool,
}

/// Options of the tool.
#[derive(Debug, Clone, Copy, PartialEq, Eq, Structural)]
pub struct UpdateOptions {
    pub hours: i64,
    pub verbose: bool,
    pub debug: bool,
    pub no_lock: bool,
}

impl UpdateOptions {
    /// The options that the arguments mean.
    pub fn from_args(args: &UpdateArgs) -> (r: UpdateOptions)
        ensures
            r == (UpdateOptions {
                hours: args.hours,
                verbose: args.verbose,
                debug: args.debug,
                no_lock: args.no_lock,
            }),
    {
        UpdateOptions { hours: args.hours, verbose: args.verbose, debug: args.debug, no_lock: args.no_lock }
    }
}

/// The result of an update.
#[derive(Debug, Clone, Copy, PartialEq, Eq, Structural)]
pub struct UpdateResult {
    pub inserted: usize,
    pub url_strikes: usize,
}

/// The lines of the first `n` that are not blank, trimmed.
pub open spec fn filled_lines(lines: Seq<Seq<char>>, n: int) -> Seq<Seq<char>>
    decreases n,
{
    if n <= 0 {
        Seq::empty()
    } else if text::trim(lines[n - 1]).len() == 0 {
        filled_lines(lines, n - 1)
    } else {
        filled_lines(lines, n - 1).push(text::trim(lines[n - 1]))
    }
}

/// The messages of a response, one per line; blank lines are left out.
pub fn message_lines(body: &str) -> (r: Vec<String>)
    ensures
        text::texts(r@) == filled_lines(text::lines(body@), text::lines(body@).len() as int),
{
    let chars = text::chars_of(body);
    let lines = text::lines_of(chars.as_slice());
    let mut out: Vec<String> = Vec::new();
    let mut i: usize = 0;
    assert(text::texts(out@) =~= Seq::<Seq<char>>::empty());
    while i < lines.len()
        invariant
            i <= lines@.len(),
            text::views(lines@) == text::lines(body@),
            text::texts(out@) == filled_lines(text::lines(body@), i as int),
        decreases lines@.len() - i,
    {
        assert(text::views(lines@)[i as int] == lines@[i as int]@);
        let line = text::trimmed(lines[i].as_slice());
        if line.len() > 0 {
            let ghost before = text::texts(out@);
            out.push(text::text_of(line));
            assert(text::texts(out@) =~= before.push(line@));
        }
        i = i + 1;
    }
    assert(text::views(lines@).len() == lines@.len());
    out
}

/// What the strikes among the first `n` messages are built of.  A line that is
/// no JSON value, or no strike, is skipped.
pub open spec fn message_parts(messages: Seq<Option<Json>>, numbers: Seq<MessageNumbers>, n: int) -> Seq<
    builder::Parts,
>
    decreases n,
{
    if n <= 0 {
        Seq::empty()
    } else {
        let before = message_parts(messages, numbers, n - 1);
        match messages[n - 1] {
            None => before,
            Some(message) => match builder::after_message(builder::blank_parts(), message@, numbers[n - 1]) {
                (parts, None) => before.push(parts),
                (_, Some(_)) => before,
            },
        }
    }
}

/// The strikes of the messages on the lines of a download, given the value of
/// each line, when it has one, and its decimal numbers.
pub fn strikes_of_messages(messages: &[Option<Json>], numbers: &[MessageNumbers]) -> (r: Vec<Strike>)
    requires
        messages@.len() == numbers@.len(),
    ensures
        ({
            let parts = message_parts(messages@, numbers@, messages@.len() as int);
            r@.len() == parts.len() && forall|i: int|
                0 <= i < r@.len() ==> builder::is_built(parts[i], #[trigger] r@[i])
        }),
{
    let mut out: Vec<Strike> = Vec::new();
    let mut i: usize = 0;
    while i < messages.len()
        invariant
            i <= messages@.len(),
            messages@.len() == numbers@.len(),
            out@.len() == message_parts(messages@, numbers@, i as int).len(),
            forall|k: int|
                0 <= k < out@.len() ==> builder::is_built(
                    message_parts(messages@, numbers@, i as int)[k],
                    #[trigger] out@[k],
                ),
        decreases messages@.len() - i,
    {
        if let Some(message) = &messages[i] {
            if let Ok(strike) = builder::build_strike_from_message(message, &numbers[i]) {
                out.push(strike);
            }
        }
        i = i + 1;
    }
    out
}

/// The key of a strike whose coordinates round to `x` and `y`.
pub fn create_strike_key(strike: &Strike, x: crate::ieee::Real, y: crate::ieee::Real) -> (r: HashableStrikeKey)
    requires
        i64::MIN <= strike.timestamp.nanoseconds() <= i64::MAX,
    ensures
        r == HashableStrikeKey::key_of(*strike, x, y),
        r == (HashableStrikeKey {
            timestamp: strike.timestamp.nanoseconds() as i64,
            x: x.bits,
            y: y.bits,
            lateral_error: strike.lateral_error,
        }),
{
    HashableStrikeKey::from_strike(strike, x, y)
}

/// Whether a strike with the given key is missing: it lies in the interval from
/// `start` to `now`, is older than a minute, and its key is not among the
/// existing ones.
pub open spec fn is_missing(
    strike: Strike,
    key: HashableStrikeKey,
    existing: Seq<HashableStrikeKey>,
    start: int,
    now: int,
) -> bool {
    &&& strike.timestamp.datetime matches Some(t) && start <= t && t <= now && t < now - MINUTE
    &&& !existing.contains(key)
}

/// The indices of the missing strikes among the first `n`.
pub open spec fn missing(
    strikes: Seq<Strike>,
    keys: Seq<HashableStrikeKey>,
    existing: Seq<HashableStrikeKey>,
    start: int,
    now: int,
    n: int,
) -> Seq<int>
    decreases n,
{
    if n <= 0 {
        Seq::empty()
    } else if is_missing(strikes[n - 1], keys[n - 1], existing, start, now) {
        missing(strikes, keys, existing, start, now, n - 1).push(n - 1)
    } else {
        missing(strikes, keys, existing, start, now, n - 1)
    }
}

fn has_key(existing: &[HashableStrikeKey], key: &HashableStrikeKey) -> (r: bool)
    ensures
        r == existing@.contains(*key),
{
    let mut i: usize = 0;
    while i < existing.len()
        invariant
            i <= existing@.len(),
            forall|j: int| 0 <= j < i ==> existing@[j] != *key,
        decreases existing@.len() - i,
    {
        if existing[i] == *key {
            assert(existing@[i as int] == *key);
            return true;
        }
        i = i + 1;
    }
    false
}

/// Whether `index` lists exactly the given keys, each under its timestamp.
spec fn indexes(index: Map<i64, Vec<HashableStrikeKey>>, keys: Seq<HashableStrikeKey>) -> bool {
    forall|key: HashableStrikeKey|
        #[trigger] keys.contains(key) <==> index.contains_key(key.timestamp) && index[key.timestamp]@.contains(key)
}

fn index_keys(existing: &[HashableStrikeKey]) -> (r: HashMap<i64, Vec<HashableStrikeKey>>)
    ensures
        indexes(r@, existing@),
{
    broadcast use vstd::std_specs::hash::group_hash_axioms;

    let mut index: HashMap<i64, Vec<HashableStrikeKey>> = HashMap::new();
    let mut i: usize = 0;
    while i < existing.len()
        invariant
            i <= existing@.len(),
            indexes(index@, existing@.take(i as int)),
        decreases existing@.len() - i,
    {
        let key = existing[i];
        let ghost before = index@;
        let ghost seen = existing@.take(i as int);
        let mut same: Vec<HashableStrikeKey> = match index.remove(&key.timestamp) {
            Some(keys) => keys,
            None => Vec::new(),
        };
        let ghost listed = same@;
        same.push(key);
        index.insert(key.timestamp, same);
        i = i + 1;
        proof {
            assert(existing@.take(i as int) =~= seen.push(key));
            assert forall|other: HashableStrikeKey| #[trigger] existing@.take(i as int).contains(other)
                <==> index@.contains_key(other.timestamp) && index@[other.timestamp]@.contains(other) by {
                lemma_contains_push(seen, key, other);
                lemma_contains_push(listed, key, other);
                assert(seen.contains(other) <==> before.contains_key(other.timestamp)
                    && before[other.timestamp]@.contains(other));
            }
        }
    }
    assert(existing@.take(i as int) =~= existing@);
    index
}

proof fn lemma_contains_push(s: Seq<HashableStrikeKey>, a: HashableStrikeKey, b: HashableStrikeKey)
    ensures
        s.push(a).contains(b) <==> s.contains(b) || a == b,
{
    if s.contains(b) {
        let k = choose|k: int| 0 <= k < s.len() && s[k] == b;
        assert(s.push(a)[k] == b);
    }
    if a == b {
        assert(s.push(a)[s.len() as int] == b);
    }
}

fn is_listed(index: &HashMap<i64, Vec<HashableStrikeKey>>, key: &HashableStrikeKey) -> (r: bool)
    ensures
        r == (index@.contains_key(key.timestamp) && index@[key.timestamp]@.contains(*key)),
{
    broadcast use vstd::std_specs::hash::group_hash_axioms;

    match index.get(&key.timestamp) {
        Some(same) => has_key(same.as_slice(), key),
        None => false,
    }
}

/// The values of a list of indices.
pub open spec fn index_values(v: Seq<usize>) -> Seq<int> {
    v.map_values(|i: usize| i as int)
}

/// The indices of the strikes to insert: those of the last `hours` that are
/// older than a minute and whose key is not in the database.
pub fn update_strikes(
    url_strikes: &[Strike],
    keys: &[HashableStrikeKey],
    existing: &[HashableStrikeKey],
    hours: i64,
    now: i64,
) -> (r: Vec<usize>)
    requires
        url_strikes@.len() == keys@.len(),
        i64::MIN <= now - hours * HOUR <= i64::MAX,
        i64::MIN + MINUTE <= now,
    ensures
        index_values(r@) == missing(
            url_strikes@,
            keys@,
            existing@,
            now - hours * HOUR,
            now as int,
            url_strikes@.len() as int,
        ),
{
    let start: i64 = (now as i128 - hours as i128 * HOUR as i128) as i64;
    let ghost first = now - hours * HOUR;
    let index = index_keys(existing);
    let mut selected: Vec<usize> = Vec::new();
    let mut i: usize = 0;
    assert(index_values(selected@) =~= Seq::<int>::empty());
    while i < url_strikes.len()
        invariant
            i <= url_strikes@.len(),
            url_strikes@.len() == keys@.len(),
            start == first,
            i64::MIN + MINUTE <= now,
            indexes(index@, existing@),
            index_values(selected@) == missing(url_strikes@, keys@, existing@, first, now as int, i as int),
        decreases url_strikes@.len() - i,
    {
        let timely = match url_strikes[i].timestamp.datetime {
            Some(t) => start <= t && t <= now && t < now - MINUTE,
            None => false,
        };
        assert(existing@.contains(keys@[i as int]) <==> index@.contains_key(keys@[i as int].timestamp)
            && index@[keys@[i as int].timestamp]@.contains(keys@[i as int]));
        if timely && !is_listed(&index, &keys[i]) {
            let ghost before = selected@;
            selected.push(i);
            assert(index_values(selected@) =~= index_values(before).push(i as int));
        }
        i = i + 1;
    }
    selected
}

/// The strikes with the given indices.
pub open spec fn chosen(strikes: Seq<Strike>, indices: Seq<int>) -> Seq<Strike> {
    indices.map_values(|i: int| strikes[i])
}

/// The strikes that an update at `now` inserts: those of the last `hours` that
/// are older than a minute and whose key is not among the existing ones.
pub open spec fn new_strikes(
    strikes: Seq<Strike>,
    keys: Seq<HashableStrikeKey>,
    existing: Seq<HashableStrikeKey>,
    hours: int,
    now: int,
) -> Seq<Strike> {
    chosen(strikes, missing(strikes, keys, existing, now - hours * HOUR, now, strikes.len() as int))
}

fn copy_strike(strike: &Strike) -> (r: Strike)
    ensures
        r.timestamp == strike.timestamp,
        forall|region: Option<i64>| #[trigger] db::strike_cells(r, region) == db::strike_cells(*strike, region),
{
    Strike {
        id: strike.id,
        timestamp: strike.timestamp,
        x: strike.x,
        y: strike.y,
        altitude: strike.altitude,
        amplitude: strike.amplitude,
        lateral_error: strike.lateral_error,
        station_count: strike.station_count,
        stations: slice_to_vec(strike.stations.as_slice()),
        region: strike.region,
    }
}

/// The insertion of the strikes that the database lacks, in one statement; none
/// when it lacks none.  Each strike keeps its own region.
pub fn update_statement(
    url_strikes: &[Strike],
    keys: &[HashableStrikeKey],
    existing: &[HashableStrikeKey],
    hours: i64,
    now: i64,
) -> (r: Option<Statement>)
    requires
        url_strikes@.len() == keys@.len(),
        9 * url_strikes@.len() <= i64::MAX,
        i64::MIN <= now - hours * HOUR <= i64::MAX,
        i64::MIN + MINUTE <= now,
    ensures
        ({
            let new = new_strikes(url_strikes@, keys@, existing@, hours as int, now as int);
            match r {
                None => new.len() == 0,
                Some(statement) => {
                    &&& new.len() > 0
                    &&& statement.sql@ == db::insert_text(new.len())
                    &&& executor::cells(statement.params@) == db::strikes_cells(new, None, new.len() as int)
                },
            }
        }),
{
    let indices = update_strikes(url_strikes, keys, existing, hours, now);
    let ghost start = now - hours * HOUR;
    let ghost n = url_strikes@.len() as int;
    let ghost all = missing(url_strikes@, keys@, existing@, start, now as int, n);
    let ghost new = new_strikes(url_strikes@, keys@, existing@, hours as int, now as int);
    let mut strikes: Vec<Strike> = Vec::new();
    let mut i: usize = 0;
    proof {
        lemma_selected(url_strikes@, keys@, existing@, start, now as int, n);
        lemma_count(url_strikes@, keys@, existing@, start, now as int, n);
        assert(all.len() == indices@.len());
    }
    while i < indices.len()
        invariant
            i <= indices@.len(),
            i == strikes@.len(),
            n == url_strikes@.len(),
            all == index_values(indices@),
            new == chosen(url_strikes@, all),
            forall|k: int|
                0 <= k < all.len() ==> 0 <= #[trigger] all[k] < n && url_strikes@[all[k]].timestamp.datetime is Some,
            forall|k: int|
                0 <= k < i ==> (#[trigger] strikes@[k]).timestamp.datetime is Some && db::strike_cells(
                    strikes@[k],
                    None,
                ) == db::strike_cells(new[k], None),
        decreases indices@.len() - i,
    {
        assert(all[i as int] == indices@[i as int]);
        let index: usize = indices[i];
        strikes.push(copy_strike(&url_strikes[index]));
        assert(new[i as int] == url_strikes@[index as int]);
        i = i + 1;
    }
    assert(new.len() == strikes@.len());
    match StrikeDb::new(service::SRID).insert_many(strikes.as_slice(), None) {
        Ok(statement) => {
            proof {
                db::lemma_same_cells(strikes@, new, None, new.len() as int);
            }
            statement
        },
        Err(_) => {
            assert(false);
            None
        },
    }
}

/// How an update ends.
#[derive(Debug, PartialEq, Eq)]
pub enum UpdateEnd {
    /// Nothing was inserted; report the result.
    Done(UpdateResult),
    /// Commit, then report the result.
    Commit(UpdateResult),
    /// Roll back, then report the error.
    Rollback(String),
}

/// How an update that downloaded `url_strikes` strikes ends: `missing` of them
/// were to be inserted, and `outcome` is what became of the insertion, `None`
/// when there was none.
pub open spec fn update_end(missing: usize, url_strikes: usize, outcome: Option<Result<(), String>>) -> UpdateEnd {
    match outcome {
        None => UpdateEnd::Done(UpdateResult { inserted: 0, url_strikes }),
        Some(Ok(_)) => UpdateEnd::Commit(UpdateResult { inserted: missing, url_strikes }),
        Some(Err(e)) => UpdateEnd::Rollback(e),
    }
}

/// Decide how an update ends; see [`update_end`].
pub fn update_ended(missing: usize, url_strikes: usize, outcome: Option<Result<(), String>>) -> (r: UpdateEnd)
    ensures
        r == update_end(missing, url_strikes, outcome),
{
    match outcome {
        None => UpdateEnd::Done(UpdateResult { inserted: 0, url_strikes }),
        Some(Ok(_)) => UpdateEnd::Commit(UpdateResult { inserted: missing, url_strikes }),
        Some(Err(e)) => UpdateEnd::Rollback(e),
    }
}

/// The location of the strikes since an instant in nanoseconds.
pub fn last_strikes_url(start_timestamp_ns: i64) -> (r: String)
    ensures
        r@ == "https://data.blitzortung.org/Data/Protected/last_strikes.php?time="@ + number::signed_decimal(
            start_timestamp_ns as int,
        ),
{
    let mut out = String::from_str("https://data.blitzortung.org/Data/Protected/last_strikes.php?time=");
    number::push_signed(&mut out, start_timestamp_ns);
    out
}

/// No selected strike is in the database already, too new, or outside the
/// interval; and no such strike is left out.
pub proof fn exactly_the_missing_strikes_are_selected(
    strikes: Seq<Strike>,
    keys: Seq<HashableStrikeKey>,
    existing: Seq<HashableStrikeKey>,
    start: int,
    now: int,
    n: int,
    i: int,
)
    requires
        0 <= n <= strikes.len(),
        strikes.len() == keys.len(),
        0 <= i < n,
    ensures
        missing(strikes, keys, existing, start, now, n).contains(i) <==> is_missing(
            strikes[i],
            keys[i],
            existing,
            start,
            now,
        ),
    decreases n,
{
    let before = missing(strikes, keys, existing, start, now, n - 1);
    let all = missing(strikes, keys, existing, start, now, n);
    if i < n - 1 {
        exactly_the_missing_strikes_are_selected(strikes, keys, existing, start, now, n - 1, i);
        if before.contains(i) {
            let k = choose|k: int| 0 <= k < before.len() && before[k] == i;
            assert(all[k] == i);
        }
    } else {
        lemma_selected(strikes, keys, existing, start, now, n - 1);
        if is_missing(strikes[i], keys[i], existing, start, now) {
            assert(all[all.len() - 1] == i);
        }
    }
}

/// The indices of the missing strikes are indices of missing strikes.
proof fn lemma_selected(
    strikes: Seq<Strike>,
    keys: Seq<HashableStrikeKey>,
    existing: Seq<HashableStrikeKey>,
    start: int,
    now: int,
    n: int,
)
    ensures
        ({
            let all = missing(strikes, keys, existing, start, now, n);
            forall|k: int|
                0 <= k < all.len() ==> 0 <= #[trigger] all[k] < n && is_missing(
                    strikes[all[k]],
                    keys[all[k]],
                    existing,
                    start,
                    now,
                )
        }),
    decreases n,
{
    if n > 0 {
        lemma_selected(strikes, keys, existing, start, now, n - 1);
        let before = missing(strikes, keys, existing, start, now, n - 1);
        let all = missing(strikes, keys, existing, start, now, n);
        assert forall|k: int| 0 <= k < all.len() implies 0 <= #[trigger] all[k] < n && is_missing(
            strikes[all[k]],
            keys[all[k]],
            existing,
            start,
            now,
        ) by {
            if k < before.len() {
                assert(all[k] == before[k]);
            }
        }
    }
}

/// No more strikes are missing than there are.
proof fn lemma_count(
    strikes: Seq<Strike>,
    keys: Seq<HashableStrikeKey>,
    existing: Seq<HashableStrikeKey>,
    start: int,
    now: int,
    n: int,
)
    requires
        n >= 0,
    ensures
        missing(strikes, keys, existing, start, now, n).len() <= n,
    decreases n,
{
    if n > 0 {
        lemma_count(strikes, keys, existing, start, now, n - 1);
    }
}

/// An update whose insertion does not fail reports the number of the missing
/// strikes: they are inserted and committed, or there are none and nothing is
/// committed.  One whose insertion fails is rolled back and reports the error.
pub proof fn an_update_reports_what_it_inserts(
    strikes: Seq<Strike>,
    keys: Seq<HashableStrikeKey>,
    existing: Seq<HashableStrikeKey>,
    hours: int,
    now: int,
    missing: usize,
    url_strikes: usize,
    outcome: Option<Result<(), String>>,
)
    requires
        missing == new_strikes(strikes, keys, existing, hours, now).len(),
        url_strikes == strikes.len(),
        outcome is None <==> new_strikes(strikes, keys, existing, hours, now).len() == 0,
    ensures
        match update_end(missing, url_strikes, outcome) {
            UpdateEnd::Done(result) => {
                &&& outcome is None
                &&& result.inserted == new_strikes(strikes, keys, existing, hours, now).len()
                &&& result.url_strikes == strikes.len()
            },
            UpdateEnd::Commit(result) => {
                &&& outcome matches Some(Ok(_))
                &&& result.inserted == new_strikes(strikes, keys, existing, hours, now).len()
                &&& result.url_strikes == strikes.len()
            },
            UpdateEnd::Rollback(e) => outcome == Some(Err::<(), String>(e)),
        },
{
}

/// An update takes a strike if and only if it is at most the given hours old,
/// more than a minute old, and its key is not there yet.
pub proof fn updates_take_the_strikes_of_their_hours(
    strikes: Seq<Strike>,
    keys: Seq<HashableStrikeKey>,
    existing: Seq<HashableStrikeKey>,
    hours: int,
    now: int,
    i: int,
)
    requires
        strikes.len() == keys.len(),
        0 <= i < strikes.len(),
    ensures
        missing(strikes, keys, existing, now - hours * HOUR, now, strikes.len() as int).contains(i) <==> {
            &&& strikes[i].timestamp.datetime matches Some(t) && now - hours * 3_600_000_000 <= t && now - t
                > 60_000_000
            &&& !existing.contains(keys[i])
        },
{
    exactly_the_missing_strikes_are_selected(
        strikes,
        keys,
        existing,
        now - hours * HOUR,
        now,
        strikes.len() as int,
        i,
    );
}

/// The strikes of an update keep their order, and none is taken twice.
pub proof fn updates_keep_the_order(
    strikes: Seq<Strike>,
    keys: Seq<HashableStrikeKey>,
    existing: Seq<HashableStrikeKey>,
    start: int,
    now: int,
    n: int,
)
    requires
        0 <= n <= strikes.len(),
        strikes.len() == keys.len(),
    ensures
        ({
            let taken = missing(strikes, keys, existing, start, now, n);
            &&& forall|a: int| 0 <= a < taken.len() ==> 0 <= #[trigger] taken[a] < n
            &&& forall|a: int, b: int| 0 <= a < b < taken.len() ==> taken[a] < taken[b]
        }),
    decreases n,
{
    if n > 0 {
        updates_keep_the_order(strikes, keys, existing, start, now, n - 1);
        let before = missing(strikes, keys, existing, start, now, n - 1);
        let taken = missing(strikes, keys, existing, start, now, n);
        assert forall|a: int| 0 <= a < taken.len() implies 0 <= #[trigger] taken[a] < n by {
            if a < before.len() {
                assert(taken[a] == before[a]);
            }
        }
        assert forall|a: int, b: int| 0 <= a < b < taken.len() implies taken[a] < taken[b] by {
            assert(taken[a] == before[a]);
            if b < before.len() {
                assert(taken[b] == before[b]);
            }
        }
    }
}

/// A line with a message is one message, without the white space around it; a
/// blank line is none.
pub proof fn lines_are_messages(
    lines: Seq<Seq<char>>,
    n: int,
    front: Seq<char>,
    message: Seq<char>,
    back: Seq<char>,
)
    requires
        0 < n <= lines.len(),
        forall|j: int| 0 <= j < front.len() ==> text::is_space(#[trigger] front[j]),
        forall|j: int| 0 <= j < back.len() ==> text::is_space(#[trigger] back[j]),
        message.len() > 0 ==> !text::is_space(message[0]) && !text::is_space(message.last()),
        lines[n - 1] == front + message + back,
    ensures
        message.len() > 0 ==> filled_lines(lines, n) == filled_lines(lines, n - 1).push(message),
        message.len() == 0 ==> filled_lines(lines, n) == filled_lines(lines, n - 1),
{
    let line = front + message + back;
    if message.len() > 0 {
        text::white_space_around_a_text_is_trimmed(front, message, back);
    } else {
        assert forall|j: int| 0 <= j < line.len() implies text::is_space(#[trigger] line[j]) by {
            if j < front.len() {
                assert(line[j] == front[j]);
            } else {
                assert(line[j] == back[j - front.len()]);
            }
        }
        text::white_space_alone_is_trimmed_away(line);
    }
}

/// The messages that are strikes are taken, in their order; a line without a
/// message and a message that is no strike are passed over.
pub proof fn messages_that_are_strikes_are_taken(messages: Seq<Option<Json>>, numbers: Seq<MessageNumbers>, n: int)
    requires
        0 < n <= messages.len(),
        messages.len() == numbers.len(),
    ensures
        ({
            let before = message_parts(messages, numbers, n - 1);
            let after = message_parts(messages, numbers, n);
            match messages[n - 1] {
                Some(message) => {
                    let read = builder::after_message(builder::blank_parts(), message@, numbers[n - 1]);
                    &&& read.1 is None ==> after == before.push(read.0)
                    &&& read.1 is Some ==> after == before
                },
                None => after == before,
            }
        }),
        message_parts(messages, numbers, 0).len() == 0,
        builder::blank_parts().x is None && builder::blank_parts().timestamp is None && builder::blank_parts().stations.len()
            == 0,
{
}

} // verus!
