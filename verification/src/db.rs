//! The strike table: statements, and strikes and grids out of result rows.

use vstd::prelude::*;
use vstd::string::*;

use crate::area::Area;
use crate::builder;
use crate::clock;
use crate::data::{GridData, GridElement, Strike, Timestamp};
use crate::executor;
use crate::executor::{Cell, Param, Row, Value};
use crate::geom::Grid;
use crate::ieee::Real;
use crate::number;
use crate::query;
use crate::query::{Query, QueryModel, TimeInterval};
use crate::text;

verus! {

/// Name of the strike table.
pub const TABLE_NAME: &'static str = "strikes";

/// What identifies a strike: its time in nanoseconds, the bits of its
/// coordinates rounded to four decimals, and its lateral error.
#[derive(Debug, Clone, Copy, PartialEq, Eq, Hash, Structural)]
pub struct HashableStrikeKey {
    pub timestamp: i64,
    pub x: u64,
    pub y: u64,
    pub lateral_error: Option<i64>,
}

impl HashableStrikeKey {
    /// The key of a strike whose coordinates round to `x` and `y`.
    pub open spec fn key_of(strike: Strike, x: Real, y: Real) -> HashableStrikeKey {
        HashableStrikeKey {
            timestamp: strike.timestamp.nanoseconds() as i64,
            x: x.bits,
            y: y.bits,
            lateral_error: strike.lateral_error,
        }
    }

    /// The key of a strike whose coordinates round to `x` and `y`.
    pub fn from_strike(strike: &Strike, x: Real, y: Real) -> (r: HashableStrikeKey)
        requires
            i64::MIN <= strike.timestamp.nanoseconds() <= i64::MAX,
        ensures
            r == HashableStrikeKey::key_of(*strike, x, y),
            r == (HashableStrikeKey {
                timestamp: strike.timestamp.nanoseconds() as i64,
                x: x.bits,
                y: y.bits,
                lateral_error: strike.lateral_error,
            }),
    {
        HashableStrikeKey {
            timestamp: strike.timestamp.value(),
            x: x.bits,
            y: y.bits,
            lateral_error: strike.lateral_error,
        }
    }
}

/// Errors of the strike table.
#[derive(Debug, PartialEq, Eq)]
pub enum DbError {
    /// The database failed.
    Executor(String),
    /// A required column was missing or had an unexpected type.
    Column(String),
}

impl DbError {
    /// The message of the error.
    pub fn message(&self) -> (r: String)
        ensures
            r@ == (match self {
                DbError::Executor(e) => e@,
                DbError::Column(name) => "invalid or missing column: "@ + name@,
            }),
    {
        match self {
            DbError::Executor(e) => e.clone(),
            DbError::Column(name) => String::from_str("invalid or missing column: ").concat(name.as_str()),
        }
    }
}

fn column_error(name: &str) -> (r: DbError)
    ensures
        r matches DbError::Column(n) && n@ == name@,
{
    DbError::Column(String::from_str(name))
}

/// Access to the strikes of a database, in a spatial reference system.
///
/// A statement is built here, run elsewhere, and its rows are read here.
#[derive(Debug, Clone, Copy, PartialEq, Eq, Structural)]
pub struct StrikeDb {
    pub srid: i64,
}

/// A statement and its parameters.
#[derive(Debug, Clone, PartialEq)]
pub struct Statement {
    pub sql: String,
    pub params: Vec<Param>,
}

// ---------------------------------------------------------------------
// insertion
// ---------------------------------------------------------------------

/// The placeholders of one strike whose parameters start behind `base`.
pub open spec fn placeholder_group(base: int) -> Seq<char> {
    "($"@ + number::signed_decimal(base + 1) + ", $"@ + number::signed_decimal(base + 2) + ", ST_MakePoint($"@
        + number::signed_decimal(base + 3) + ", $"@ + number::signed_decimal(base + 4) + "), $"@
        + number::signed_decimal(base + 5) + ", $"@ + number::signed_decimal(base + 6) + ", $"@
        + number::signed_decimal(base + 7) + ", $"@ + number::signed_decimal(base + 8) + ", $"@
        + number::signed_decimal(base + 9) + ")"@
}

/// The placeholders of `n` strikes.
pub open spec fn placeholder_groups(n: nat) -> Seq<Seq<char>> {
    Seq::new(n, |i: int| placeholder_group(9 * i))
}

/// The text of an insertion of `n` strikes.
pub open spec fn insert_text(n: nat) -> Seq<char> {
    "INSERT INTO strikes (\"timestamp\", nanoseconds, geog, altitude, region, amplitude, error2d, stationcount) VALUES "@
        + text::join(placeholder_groups(n), ", "@)
}

/// The cell of an optional number.
pub open spec fn real_cell(v: Option<Real>) -> Cell {
    match v {
        Some(f) => Cell::Float(f),
        None => Cell::Null,
    }
}

/// The cell of an optional integer.
pub open spec fn int_cell(v: Option<i64>) -> Cell {
    match v {
        Some(n) => Cell::Int(n as int),
        None => Cell::Null,
    }
}

/// The region a strike is stored under: the given one, else its own, else 1.
pub open spec fn stored_region(strike: Strike, region: Option<i64>) -> int {
    match region {
        Some(r) => r as int,
        None => match strike.region {
            Some(r) => r as int,
            None => 1,
        },
    }
}

/// The parameters of one strike.
pub open spec fn strike_cells(strike: Strike, region: Option<i64>) -> Seq<Cell> {
    seq![
        Cell::Timestamp(strike.timestamp.datetime->0 as int),
        Cell::Int(strike.timestamp.nanosecond as int),
        Cell::Float(strike.x),
        Cell::Float(strike.y),
        real_cell(strike.altitude),
        Cell::Int(stored_region(strike, region)),
        real_cell(strike.amplitude),
        int_cell(strike.lateral_error),
        int_cell(strike.station_count),
    ]
}

/// The parameters of the first `n` strikes.
pub open spec fn strikes_cells(strikes: Seq<Strike>, region: Option<i64>, n: int) -> Seq<Cell>
    decreases n,
{
    if n <= 0 {
        Seq::empty()
    } else {
        strikes_cells(strikes, region, n - 1) + strike_cells(strikes[n - 1], region)
    }
}

/// Whether every strike has an instant.
pub open spec fn all_timed(strikes: Seq<Strike>) -> bool {
    forall|i: int| 0 <= i < strikes.len() ==> (#[trigger] strikes[i]).timestamp.datetime is Some
}

/// Strikes with the same parameters are inserted with the same parameters.
pub proof fn lemma_same_cells(a: Seq<Strike>, b: Seq<Strike>, region: Option<i64>, n: int)
    requires
        n <= a.len(),
        n <= b.len(),
        forall|k: int| 0 <= k < n ==> strike_cells(#[trigger] a[k], region) == strike_cells(b[k], region),
    ensures
        strikes_cells(a, region, n) == strikes_cells(b, region, n),
    decreases n,
{
    if n > 0 {
        lemma_same_cells(a, b, region, n - 1);
        assert(strike_cells(a[n - 1], region) == strike_cells(b[n - 1], region));
    }
}

/// The parameters of two lists, one after the other, are those of the lists.
pub proof fn lemma_joined_cells(a: Seq<Strike>, b: Seq<Strike>, region: Option<i64>, n: int)
    requires
        0 <= n <= b.len(),
    ensures
        strikes_cells(a + b, region, a.len() + n) == strikes_cells(a, region, a.len() as int) + strikes_cells(
            b,
            region,
            n,
        ),
    decreases n,
{
    let all = a + b;
    if n == 0 {
        lemma_same_cells(all, a, region, a.len() as int);
        assert(strikes_cells(a, region, a.len() as int) + strikes_cells(b, region, 0) =~= strikes_cells(
            a,
            region,
            a.len() as int,
        ));
    } else {
        lemma_joined_cells(a, b, region, n - 1);
        assert(all[a.len() + n - 1] == b[n - 1]);
        let before = strikes_cells(a, region, a.len() as int);
        assert((before + strikes_cells(b, region, n - 1)) + strike_cells(b[n - 1], region) =~= before + strikes_cells(
            b,
            region,
            n,
        ));
    }
}

fn real_param(v: Option<Real>) -> (r: Param)
    ensures
        r@ == real_cell(v),
{
    match v {
        Some(f) => Param::Float(f),
        None => Param::Null,
    }
}

fn int_param(v: Option<i64>) -> (r: Param)
    ensures
        r@ == int_cell(v),
{
    match v {
        Some(n) => Param::Int(n),
        None => Param::Null,
    }
}

fn push_group(out: &mut String, base: i64)
    requires
        base <= i64::MAX - 9,
    ensures
        final(out)@ == old(out)@ + placeholder_group(base as int),
{
    let mut group = String::from_str("($");
    number::push_signed(&mut group, base + 1);
    group.append(", $");
    number::push_signed(&mut group, base + 2);
    group.append(", ST_MakePoint($");
    number::push_signed(&mut group, base + 3);
    group.append(", $");
    number::push_signed(&mut group, base + 4);
    group.append("), $");
    number::push_signed(&mut group, base + 5);
    group.append(", $");
    number::push_signed(&mut group, base + 6);
    group.append(", $");
    number::push_signed(&mut group, base + 7);
    group.append(", $");
    number::push_signed(&mut group, base + 8);
    group.append(", $");
    number::push_signed(&mut group, base + 9);
    group.append(")");
    out.append(group.as_str());
}

fn push_strike(params: &mut Vec<Param>, strike: &Strike, instant: i64, region: Option<i64>)
    requires
        strike.timestamp.datetime == Some(instant),
    ensures
        executor::cells(final(params)@) == executor::cells(old(params)@) + strike_cells(*strike, region),
{
    let effective: i64 = match region {
        Some(r) => r,
        None => match strike.region {
            Some(r) => r,
            None => 1,
        },
    };
    params.push(Param::Timestamp(instant));
    params.push(Param::Int(strike.timestamp.nanosecond));
    params.push(Param::Float(strike.x));
    params.push(Param::Float(strike.y));
    params.push(real_param(strike.altitude));
    params.push(Param::Int(effective));
    params.push(real_param(strike.amplitude));
    params.push(int_param(strike.lateral_error));
    params.push(int_param(strike.station_count));
    assert(executor::cells(params@) =~= executor::cells(old(params)@) + strike_cells(*strike, region));
}

fn statement_of(query: &Query) -> (r: Statement)
    ensures
        runs(r, query@),
{
    Statement { sql: query.to_postgres(), params: query.parameters() }
}

impl StrikeDb {
    /// Access in the given reference system.
    pub fn new(srid: i64) -> (r: StrikeDb)
        ensures
            r.srid == srid,
    {
        StrikeDb { srid }
    }
}

/// Whether a statement runs a query.
pub open spec fn runs(statement: Statement, query: QueryModel) -> bool {
    let names = query::placeholder_order(query.sql());
    &&& statement.sql@ == query::positional(query.sql(), query.casts)
    &&& executor::cells(statement.params@) == query::values_of(names, query.params, names.len() as int)
}

impl StrikeDb {
    /// The insertion of strikes, in one statement; none for no strikes.
    ///
    /// `region` is the region of every strike; without it each strike has its own
    /// region, or 1.  A strike without an instant cannot be inserted.
    pub fn insert_many(&self, strikes: &[Strike], region: Option<i64>) -> (r: Result<Option<Statement>, DbError>)
        requires
            9 * strikes@.len() <= i64::MAX,
        ensures
            strikes@.len() == 0 ==> r == Ok::<Option<Statement>, DbError>(None),
            strikes@.len() > 0 && all_timed(strikes@) ==> (r matches Ok(Some(statement)) && {
                &&& statement.sql@ == insert_text(strikes@.len())
                &&& executor::cells(statement.params@) == strikes_cells(strikes@, region, strikes@.len() as int)
            }),
            !all_timed(strikes@) ==> (r matches Err(DbError::Column(name)) && name@ == "timestamp"@),
    {
        if strikes.len() == 0 {
            return Ok(None);
        }
        let mut sql = String::from_str(
            "INSERT INTO strikes (\"timestamp\", nanoseconds, geog, altitude, region, amplitude, error2d, stationcount) VALUES ",
        );
        let ghost head = sql@;
        let mut params: Vec<Param> = Vec::new();
        let mut i: usize = 0;
        let ghost groups = placeholder_groups(strikes@.len());
        assert(executor::cells(params@) =~= Seq::<Cell>::empty());
        assert(sql@ =~= head + text::joined(groups, ", "@, 0));
        while i < strikes.len()
            invariant
                i <= strikes@.len(),
                9 * strikes@.len() <= i64::MAX,
                groups == placeholder_groups(strikes@.len()),
                sql@ == head + text::joined(groups, ", "@, i as int),
                executor::cells(params@) == strikes_cells(strikes@, region, i as int),
                forall|j: int| 0 <= j < i ==> (#[trigger] strikes@[j]).timestamp.datetime is Some,
            decreases strikes@.len() - i,
        {
            let instant: i64 = match strikes[i].timestamp.datetime {
                Some(m) => m,
                None => {
                    assert(strikes@[i as int].timestamp.datetime is None);
                    return Err(column_error("timestamp"));
                },
            };
            if i > 0 {
                sql.append(", ");
            }
            push_group(&mut sql, 9 * i as i64);
            push_strike(&mut params, &strikes[i], instant, region);
            i = i + 1;
            assert(groups[i - 1] == placeholder_group(9 * (i - 1)));
            assert(sql@ =~= head + text::joined(groups, ", "@, i as int));
        }
        Ok(Some(Statement { sql, params }))
    }

    /// The insertion of one strike under a region.
    pub fn insert(&self, strike: &Strike, region: i64) -> (r: Result<Statement, DbError>)
        ensures
            strike.timestamp.datetime is Some ==> (r matches Ok(statement) && {
                &&& statement.sql@ == insert_text(1)
                &&& executor::cells(statement.params@) == strike_cells(*strike, Some(region))
            }),
            strike.timestamp.datetime is None ==> (r matches Err(DbError::Column(name)) && name@ == "timestamp"@),
    {
        match strike.timestamp.datetime {
            Some(instant) => {
                let mut sql = String::from_str(
                    "INSERT INTO strikes (\"timestamp\", nanoseconds, geog, altitude, region, amplitude, error2d, stationcount) VALUES ",
                );
                push_group(&mut sql, 0);
                let mut params: Vec<Param> = Vec::new();
                assert(executor::cells(params@) =~= Seq::<Cell>::empty());
                push_strike(&mut params, strike, instant, Some(region));
                assert(placeholder_groups(1)[0] == placeholder_group(0));
                assert(sql@ =~= insert_text(1));
                assert(executor::cells(params@) =~= strike_cells(*strike, Some(region)));
                Ok(Statement { sql, params })
            },
            None => Err(column_error("timestamp")),
        }
    }
}

// ---------------------------------------------------------------------
// selection
// ---------------------------------------------------------------------

impl StrikeDb {
    /// The statement that reads the latest time, of a region or of all.
    pub fn latest_time_statement(&self, region: Option<i64>) -> (r: Statement)
        ensures
            match region {
                Some(id) => {
                    &&& r.sql@
                        == "SELECT \"timestamp\", nanoseconds FROM strikes WHERE region=$1 ORDER BY \"timestamp\" DESC, nanoseconds DESC LIMIT 1"@
                    &&& executor::cells(r.params@) == seq![Cell::Int(id as int)]
                },
                None => {
                    &&& r.sql@
                        == "SELECT \"timestamp\", nanoseconds FROM strikes ORDER BY \"timestamp\" DESC, nanoseconds DESC LIMIT 1"@
                    &&& r.params@.len() == 0
                },
            },
    {
        let mut params: Vec<Param> = Vec::new();
        match region {
            Some(id) => {
                params.push(Param::Int(id));
                assert(executor::cells(params@) =~= seq![Cell::Int(id as int)]);
                Statement {
                    sql: String::from_str(
                        "SELECT \"timestamp\", nanoseconds FROM strikes WHERE region=$1 ORDER BY \"timestamp\" DESC, nanoseconds DESC LIMIT 1",
                    ),
                    params,
                }
            },
            None => Statement {
                sql: String::from_str(
                    "SELECT \"timestamp\", nanoseconds FROM strikes ORDER BY \"timestamp\" DESC, nanoseconds DESC LIMIT 1",
                ),
                params,
            },
        }
    }
}

/// The timestamp in two columns of a row, or the name of the column that cannot
/// be read.  An instant outside the range of the calendar cannot be.
pub open spec fn row_time(row: Seq<Cell>, i: int) -> Result<Timestamp, Seq<char>> {
    match executor::timestamp_at(row, i) {
        None => Err("timestamp"@),
        Some(instant) => match executor::int_at(row, i + 1) {
            None => Err("nanoseconds"@),
            Some(nanos) => if clock::representable(instant) && clock::representable(instant + nanos / 1000) {
                Ok(Timestamp { datetime: Some((instant + nanos / 1000) as i64), nanosecond: (nanos % 1000) as i64 })
            } else {
                Err("timestamp"@)
            },
        },
    }
}

/// Whether a result is the given one, with the name of the column in an error.
pub open spec fn time_read(r: Result<Timestamp, DbError>, expected: Result<Timestamp, Seq<char>>) -> bool {
    match expected {
        Ok(t) => r == Ok::<Timestamp, DbError>(t),
        Err(name) => r matches Err(DbError::Column(n)) && n@ == name,
    }
}

fn read_time(row: &Row, i: usize) -> (r: Result<Timestamp, DbError>)
    requires
        i < usize::MAX,
    ensures
        time_read(r, row_time(row@, i as int)),
        r matches Ok(t) ==> t.wf(),
{
    let instant: i64 = match row.get_timestamp(i) {
        Some(m) => m,
        None => {
            return Err(column_error("timestamp"));
        },
    };
    let nanos: i64 = match row.get_i64(i + 1) {
        Some(n) => n,
        None => {
            return Err(column_error("nanoseconds"));
        },
    };
    if !clock::is_representable(instant) {
        return Err(column_error("timestamp"));
    }
    let micros: i64 = Timestamp::from_nanoseconds(nanos).0;
    if !clock::is_representable(instant + micros) {
        return Err(column_error("timestamp"));
    }
    Ok(Timestamp::new(instant, nanos))
}

impl StrikeDb {
    /// The latest time in the rows of [`StrikeDb::latest_time_statement`].
    pub fn get_latest_time(&self, rows: &[Row]) -> (r: Result<Option<Timestamp>, DbError>)
        ensures
            rows@.len() == 0 ==> r == Ok::<Option<Timestamp>, DbError>(None),
            rows@.len() > 0 ==> (match row_time(rows@[0]@, 0) {
                Ok(t) => r == Ok::<Option<Timestamp>, DbError>(Some(t)),
                Err(name) => r matches Err(DbError::Column(n)) && n@ == name,
            }),
    {
        if rows.len() == 0 {
            return Ok(None);
        }
        match read_time(&rows[0], 0) {
            Ok(t) => Ok(Some(t)),
            Err(e) => Err(e),
        }
    }
}

/// The number in column `i`; an integer counts as `widened`, the number nearest
/// to it.
pub open spec fn real_at(row: Seq<Cell>, i: int, widened: Real) -> Option<Real> {
    if 0 <= i < row.len() {
        match row[i] {
            Cell::Float(f) => Some(f),
            Cell::Int(_) => Some(widened),
            _ => None,
        }
    } else {
        None
    }
}

fn get_real(row: &Row, i: usize, widened: Real) -> (r: Option<Real>)
    ensures
        r == real_at(row@, i as int, widened),
{
    match row.get(i) {
        Some(Value::Float(f)) => Some(*f),
        Some(Value::Int(_)) => Some(widened),
        _ => None,
    }
}

/// The numbers nearest to the integers of a strike row, for the columns that
/// hold an integer in place of a floating point number.
#[derive(Debug, Clone, Copy)]
pub struct WideColumns {
    pub x: Real,
    pub y: Real,
    pub altitude: Real,
    pub amplitude: Real,
}

/// The lateral error that is kept of a row.
pub open spec fn row_error(row: Seq<Cell>, i: int) -> Option<int> {
    match executor::int_at(row, i) {
        Some(v) => Some(builder::clamped(0, v, 32767)),
        None => None,
    }
}

/// Whether a strike holds what a row of the select query holds.
pub open spec fn reads_row(strike: Strike, row: Seq<Cell>, wide: WideColumns) -> bool {
    &&& builder::opt_int(strike.id) == executor::int_at(row, 0)
    &&& row_time(row, 1) == Ok::<Timestamp, Seq<char>>(strike.timestamp)
    &&& real_at(row, 3, wide.x) == Some(strike.x)
    &&& real_at(row, 4, wide.y) == Some(strike.y)
    &&& strike.altitude == real_at(row, 5, wide.altitude)
    &&& strike.amplitude == real_at(row, 6, wide.amplitude)
    &&& builder::opt_int(strike.lateral_error) == row_error(row, 7)
    &&& builder::opt_int(strike.station_count) == executor::int_at(row, 8)
    &&& strike.stations@.len() == 0
    &&& strike.region is None
}

/// The first column that a strike row lacks.
pub open spec fn missing_column(row: Seq<Cell>, wide: WideColumns) -> Option<Seq<char>> {
    match row_time(row, 1) {
        Err(name) => Some(name),
        Ok(_) => if real_at(row, 3, wide.x) is None {
            Some("x"@)
        } else if real_at(row, 4, wide.y) is None {
            Some("y"@)
        } else {
            None
        },
    }
}

/// The strike of a row of the select query.
pub fn map_strike(row: &Row, wide: &WideColumns) -> (r: Result<Strike, DbError>)
    ensures
        match missing_column(row@, *wide) {
            Some(name) => r matches Err(DbError::Column(n)) && n@ == name,
            None => r matches Ok(strike) && reads_row(strike, row@, *wide) && strike.timestamp.wf(),
        },
{
    let id = row.get_i64(0);
    let timestamp = match read_time(row, 1) {
        Ok(t) => t,
        Err(e) => {
            return Err(e);
        },
    };
    let x = match get_real(row, 3, wide.x) {
        Some(x) => x,
        None => {
            return Err(column_error("x"));
        },
    };
    let y = match get_real(row, 4, wide.y) {
        Some(y) => y,
        None => {
            return Err(column_error("y"));
        },
    };
    let altitude = get_real(row, 5, wide.altitude);
    let amplitude = get_real(row, 6, wide.amplitude);
    let lateral_error = match row.get_i64(7) {
        Some(v) => Some(builder::force_range(0, v, 32767)),
        None => None,
    };
    let station_count = row.get_i64(8);
    let stations: Vec<i64> = Vec::new();
    Ok(
        Strike::new(
            id,
            timestamp,
            x,
            y,
            altitude,
            amplitude,
            lateral_error,
            station_count,
            stations,
            None,
        ),
    )
}

/// The key of a row of the key query, given the coordinates rounded to four
/// decimals; `None` for a coordinate that the row does not hold.  A time whose
/// nanoseconds do not fit in an `i64` cannot be read.
pub open spec fn row_key(row: Seq<Cell>, x: Option<Real>, y: Option<Real>) -> Result<HashableStrikeKey, Seq<char>> {
    match row_time(row, 0) {
        Err(name) => Err(name),
        Ok(t) => match (x, y) {
            (None, _) => Err("x"@),
            (_, None) => Err("y"@),
            (Some(rx), Some(ry)) => if i64::MIN <= t.nanoseconds() <= i64::MAX {
                Ok(
                    HashableStrikeKey {
                        timestamp: t.nanoseconds() as i64,
                        x: rx.bits,
                        y: ry.bits,
                        lateral_error: (match executor::int_at(row, 4) {
                            Some(v) => Some(v as i64),
                            None => None,
                        }),
                    },
                )
            } else {
                Err("timestamp"@)
            },
        },
    }
}

/// The key of a row of the key query.
pub fn map_strike_key(row: &Row, x: Option<Real>, y: Option<Real>) -> (r: Result<HashableStrikeKey, DbError>)
    ensures
        match row_key(row@, x, y) {
            Ok(key) => r == Ok::<HashableStrikeKey, DbError>(key),
            Err(name) => r matches Err(DbError::Column(n)) && n@ == name,
        },
{
    let timestamp = match read_time(row, 0) {
        Ok(t) => t,
        Err(e) => {
            return Err(e);
        },
    };
    let x = match x {
        Some(x) => x,
        None => {
            return Err(column_error("x"));
        },
    };
    let y = match y {
        Some(y) => y,
        None => {
            return Err(column_error("y"));
        },
    };
    let nanos: i128 = match timestamp.datetime {
        Some(m) => m as i128 * 1000 + timestamp.nanosecond as i128,
        None => -1,
    };
    if nanos < i64::MIN as i128 || nanos > i64::MAX as i128 {
        return Err(column_error("timestamp"));
    }
    Ok(
        HashableStrikeKey {
            timestamp: timestamp.value(),
            x: x.bits,
            y: y.bits,
            lateral_error: row.get_i64(4),
        },
    )
}

/// The column that is missing in the first faulty row from `i` on.
pub open spec fn select_fault(rows: Seq<Row>, wide: Seq<WideColumns>, i: int) -> Option<Seq<char>>
    decreases rows.len() - i,
{
    if i < 0 || i >= rows.len() {
        None
    } else {
        match missing_column(rows[i]@, wide[i]) {
            Some(name) => Some(name),
            None => select_fault(rows, wide, i + 1),
        }
    }
}

impl StrikeDb {
    /// The statement that selects the strikes of an interval, in an area and of
    /// a region where they are given.
    pub fn select_statement(&self, time_interval: &TimeInterval, area: Option<&Area>, region: Option<i64>) -> (r: Statement)
        ensures
            runs(r, query::select_model(*time_interval, area, region, self.srid as int)),
    {
        statement_of(&query::select_query(time_interval, area, region, self.srid))
    }

    /// The strikes of the rows of [`StrikeDb::select_statement`].
    pub fn select(&self, rows: &[Row], wide: &[WideColumns]) -> (r: Result<Vec<Strike>, DbError>)
        requires
            rows@.len() == wide@.len(),
        ensures
            match select_fault(rows@, wide@, 0) {
                Some(name) => r matches Err(DbError::Column(n)) && n@ == name,
                None => r matches Ok(strikes) && strikes@.len() == rows@.len() && forall|i: int|
                    0 <= i < rows@.len() ==> reads_row(#[trigger] strikes@[i], rows@[i]@, wide@[i])
                        && strikes@[i].timestamp.wf(),
            },
    {
        let mut strikes: Vec<Strike> = Vec::new();
        let mut i: usize = 0;
        while i < rows.len()
            invariant
                i <= rows@.len(),
                i == strikes@.len(),
                rows@.len() == wide@.len(),
                select_fault(rows@, wide@, 0) == select_fault(rows@, wide@, i as int),
                forall|k: int|
                    0 <= k < i ==> reads_row(#[trigger] strikes@[k], rows@[k]@, wide@[k])
                        && strikes@[k].timestamp.wf(),
            decreases rows@.len() - i,
        {
            match map_strike(&rows[i], &wide[i]) {
                Ok(strike) => strikes.push(strike),
                Err(e) => {
                    return Err(e);
                },
            }
            i = i + 1;
        }
        Ok(strikes)
    }
}

/// The column that is missing in the first faulty key row from `i` on.
pub open spec fn key_fault(rows: Seq<Row>, places: Seq<(Option<Real>, Option<Real>)>, i: int) -> Option<Seq<char>>
    decreases rows.len() - i,
{
    if i < 0 || i >= rows.len() {
        None
    } else {
        match row_key(rows[i]@, places[i].0, places[i].1) {
            Err(name) => Some(name),
            Ok(_) => key_fault(rows, places, i + 1),
        }
    }
}

impl StrikeDb {
    /// The statement that selects the keys of the strikes of an interval, in an
    /// area and of a region where they are given.
    pub fn strike_keys_statement(&self, time_interval: &TimeInterval, area: Option<&Area>, region: Option<i64>) -> (r: Statement)
        ensures
            runs(
                r,
                query::selected(
                    query::strikes_with(query::key_columns(), self.srid as int),
                    *time_interval,
                    area,
                    region,
                ),
            ),
    {
        statement_of(&query::select_key_query(time_interval, area, region, self.srid))
    }

    /// The keys of the rows of [`StrikeDb::strike_keys_statement`]; `places`
    /// holds the coordinates of each row, rounded to four decimals.
    pub fn select_strike_keys(&self, rows: &[Row], places: &[(Option<Real>, Option<Real>)]) -> (r: Result<
        Vec<HashableStrikeKey>,
        DbError,
    >)
        requires
            rows@.len() == places@.len(),
        ensures
            match key_fault(rows@, places@, 0) {
                Some(name) => r matches Err(DbError::Column(n)) && n@ == name,
                None => r matches Ok(keys) && keys@.len() == rows@.len() && forall|i: int|
                    0 <= i < rows@.len() ==> row_key(rows@[i]@, places@[i].0, places@[i].1) == Ok::<
                        HashableStrikeKey,
                        Seq<char>,
                    >(#[trigger] keys@[i]),
            },
    {
        let mut keys: Vec<HashableStrikeKey> = Vec::new();
        let mut i: usize = 0;
        while i < rows.len()
            invariant
                i <= rows@.len(),
                i == keys@.len(),
                rows@.len() == places@.len(),
                key_fault(rows@, places@, 0) == key_fault(rows@, places@, i as int),
                forall|k: int|
                    0 <= k < i ==> row_key(rows@[k]@, places@[k].0, places@[k].1) == Ok::<
                        HashableStrikeKey,
                        Seq<char>,
                    >(#[trigger] keys@[k]),
            decreases rows@.len() - i,
        {
            match map_strike_key(&rows[i], places[i].0, places[i].1) {
                Ok(key) => keys.push(key),
                Err(e) => {
                    return Err(e);
                },
            }
            i = i + 1;
        }
        Ok(keys)
    }
}

// ---------------------------------------------------------------------
// grids
// ---------------------------------------------------------------------

/// Column, row, count and time of a grid row, or the name of the column that
/// cannot be read.
pub open spec fn grid_cell(row: Seq<Cell>) -> Result<(int, int, GridElement), Seq<char>> {
    match (executor::int_at(row, 0), executor::int_at(row, 1), executor::int_at(row, 2)) {
        (None, _, _) => Err("rx"@),
        (_, None, _) => Err("ry"@),
        (_, _, None) => Err("strike_count"@),
        (Some(rx), Some(ry), Some(count)) => Ok(
            (
                rx,
                ry,
                GridElement {
                    count: count as i64,
                    timestamp: (match executor::timestamp_at(row, 3) {
                        Some(m) => Some(Timestamp { datetime: Some(m as i64), nanosecond: 0 }),
                        None => None,
                    }),
                },
            ),
        ),
    }
}

/// The rows of cells after the first `n` result rows, which count from the
/// south; a result row counts its row from the north, from 1.  Result rows
/// outside the grid are left out, and a later one replaces an earlier one.
pub open spec fn filled(
    rows: Seq<Seq<Cell>>,
    empty: Seq<Seq<Option<GridElement>>>,
    x_bin_count: int,
    y_bin_count: int,
    n: int,
) -> Result<Seq<Seq<Option<GridElement>>>, Seq<char>>
    decreases n,
{
    if n <= 0 {
        Ok(empty)
    } else {
        match filled(rows, empty, x_bin_count, y_bin_count, n - 1) {
            Err(name) => Err(name),
            Ok(cells) => match grid_cell(rows[n - 1]) {
                Err(name) => Err(name),
                Ok((rx, ry, element)) => if 0 <= rx < x_bin_count && 0 < ry <= y_bin_count {
                    Ok(
                        cells.update(
                            y_bin_count - ry,
                            cells[y_bin_count - ry].update(rx, Some(element)),
                        ),
                    )
                } else {
                    Ok(cells)
                },
            },
        }
    }
}

/// A fault stays the fault of every longer list of rows.
proof fn lemma_fill_fault(
    rows: Seq<Seq<Cell>>,
    empty: Seq<Seq<Option<GridElement>>>,
    x_bin_count: int,
    y_bin_count: int,
    k: int,
    n: int,
)
    requires
        0 <= k <= n,
        filled(rows, empty, x_bin_count, y_bin_count, k) is Err,
    ensures
        filled(rows, empty, x_bin_count, y_bin_count, n) == filled(rows, empty, x_bin_count, y_bin_count, k),
    decreases n - k,
{
    if k < n {
        lemma_fill_fault(rows, empty, x_bin_count, y_bin_count, k, n - 1);
    }
}

/// Cells without a strike.
pub open spec fn empty_cells(x_bin_count: int, y_bin_count: int) -> Seq<Seq<Option<GridElement>>> {
    Seq::new(
        if y_bin_count < 0 {
            0
        } else {
            y_bin_count as nat
        },
        |y: int|
            Seq::new(
                if x_bin_count < 0 {
                    0
                } else {
                    x_bin_count as nat
                },
                |x: int| None::<GridElement>,
            ),
    )
}

/// Whether cells form `x_bin_count` columns and `y_bin_count` rows.
pub open spec fn shaped(cells: Seq<Seq<Option<GridElement>>>, x_bin_count: int, y_bin_count: int) -> bool {
    &&& y_bin_count >= 0 ==> cells.len() == y_bin_count
    &&& x_bin_count >= 0 ==> forall|y: int| 0 <= y < cells.len() ==> (#[trigger] cells[y]).len() == x_bin_count
}

/// The views of result rows.
pub open spec fn row_views(rows: Seq<Row>) -> Seq<Seq<Cell>> {
    rows.map_values(|r: Row| r@)
}

impl StrikeDb {
    /// The statement that counts the strikes of an interval in the cells of a
    /// grid, of a region where one is given.
    pub fn grid_statement(
        &self,
        grid: &Grid,
        count_threshold: i64,
        time_interval: &TimeInterval,
        region: Option<i64>,
    ) -> (r: Statement)
        ensures
            runs(r, query::grid_model(*grid, *time_interval, region, count_threshold)),
    {
        statement_of(&query::grid_query(grid, time_interval, region, count_threshold))
    }

    /// The grid data in the rows of [`StrikeDb::grid_statement`], for a grid of
    /// the given numbers of columns and rows.
    pub fn select_grid(&self, grid: &Grid, x_bin_count: i64, y_bin_count: i64, rows: &[Row]) -> (r: Result<GridData, DbError>)
        requires
            x_bin_count <= usize::MAX,
            y_bin_count <= usize::MAX,
        ensures
            match filled(
                row_views(rows@),
                empty_cells(x_bin_count as int, y_bin_count as int),
                x_bin_count as int,
                y_bin_count as int,
                rows@.len() as int,
            ) {
                Ok(cells) => r matches Ok(data) && {
                    &&& data.cells() == cells
                    &&& data.grid == *grid
                    &&& data.x_bin_count == x_bin_count
                    &&& data.y_bin_count == y_bin_count
                    &&& data.no_data == 0
                },
                Err(name) => r matches Err(DbError::Column(n)) && n@ == name,
            },
    {
        let mut data = GridData::new(*grid, x_bin_count, y_bin_count);
        let ghost empty = empty_cells(x_bin_count as int, y_bin_count as int);
        let ghost views = row_views(rows@);
        assert(data.cells() =~= empty);
        let mut i: usize = 0;
        while i < rows.len()
            invariant
                i <= rows@.len(),
                views == row_views(rows@),
                empty == empty_cells(x_bin_count as int, y_bin_count as int),
                data.grid == *grid,
                data.x_bin_count == x_bin_count,
                data.y_bin_count == y_bin_count,
                data.no_data == 0,
                shaped(data.cells(), x_bin_count as int, y_bin_count as int),
                filled(views, empty, x_bin_count as int, y_bin_count as int, i as int) == Ok::<
                    Seq<Seq<Option<GridElement>>>,
                    Seq<char>,
                >(data.cells()),
            decreases rows@.len() - i,
        {
            let row = &rows[i];
            let ghost n = rows@.len() as int;
            assert(views[i as int] == row@);
            let rx: i64 = match row.get_i64(0) {
                Some(v) => v,
                None => {
                    proof {
                        lemma_fill_fault(views, empty, x_bin_count as int, y_bin_count as int, i + 1, n);
                    }
                    return Err(column_error("rx"));
                },
            };
            let ry: i64 = match row.get_i64(1) {
                Some(v) => v,
                None => {
                    proof {
                        lemma_fill_fault(views, empty, x_bin_count as int, y_bin_count as int, i + 1, n);
                    }
                    return Err(column_error("ry"));
                },
            };
            let count: i64 = match row.get_i64(2) {
                Some(v) => v,
                None => {
                    proof {
                        lemma_fill_fault(views, empty, x_bin_count as int, y_bin_count as int, i + 1, n);
                    }
                    return Err(column_error("strike_count"));
                },
            };
            let timestamp = match row.get_timestamp(3) {
                Some(m) => Some(Timestamp { datetime: Some(m), nanosecond: 0 }),
                None => None,
            };
            if 0 <= rx && rx < x_bin_count && ry > 0 && ry <= y_bin_count {
                data.set(rx, y_bin_count - ry, Some(GridElement::new(count, timestamp)));
            }
            i = i + 1;
        }
        Ok(data)
    }
}

// ---------------------------------------------------------------------
// laws
// ---------------------------------------------------------------------

/// Every strike contributes nine parameters, so the placeholders of an
/// insertion and its parameters match.
pub proof fn an_insertion_has_nine_parameters_per_strike(strikes: Seq<Strike>, region: Option<i64>, n: int)
    requires
        0 <= n <= strikes.len(),
    ensures
        strikes_cells(strikes, region, n).len() == 9 * n,
        forall|i: int, j: int|
            0 <= i < n && 0 <= j < 9 ==> strikes_cells(strikes, region, n)[9 * i + j] == #[trigger] strike_cells(
                strikes[i],
                region,
            )[j],
    decreases n,
{
    if n > 0 {
        an_insertion_has_nine_parameters_per_strike(strikes, region, n - 1);
        let before = strikes_cells(strikes, region, n - 1);
        let all = strikes_cells(strikes, region, n);
        assert forall|i: int, j: int| 0 <= i < n && 0 <= j < 9 implies all[9 * i + j] == #[trigger] strike_cells(
            strikes[i],
            region,
        )[j] by {
            if i < n - 1 {
                assert(9 * i + j < before.len());
                assert(all[9 * i + j] == before[9 * i + j]);
            }
        }
    }
}

/// A strike row that is read keeps its lateral error in `0..=32767`.
pub proof fn read_errors_are_in_range(row: Seq<Cell>, i: int)
    ensures
        row_error(row, i) matches Some(v) ==> 0 <= v <= 32767,
{
}

/// The columns of the strike table that an insertion fills, in the order of its
/// column list.
pub open spec fn filled_columns() -> Seq<Seq<char>> {
    seq![
        "\"timestamp\""@,
        "nanoseconds"@,
        "geog"@,
        "altitude"@,
        "region"@,
        "amplitude"@,
        "error2d"@,
        "stationcount"@,
    ]
}

/// What the column with the given name holds of a strike; a point is held as
/// longitude and latitude.
pub open spec fn held(column: Seq<char>, strike: Strike, region: Option<i64>) -> Seq<Cell> {
    if column == "\"timestamp\""@ {
        seq![Cell::Timestamp(strike.timestamp.datetime->0 as int)]
    } else if column == "nanoseconds"@ {
        seq![Cell::Int(strike.timestamp.nanosecond as int)]
    } else if column == "geog"@ {
        seq![Cell::Float(strike.x), Cell::Float(strike.y)]
    } else if column == "altitude"@ {
        seq![
            match strike.altitude {
                Some(v) => Cell::Float(v),
                None => Cell::Null,
            },
        ]
    } else if column == "region"@ {
        seq![
            Cell::Int(
                match (region, strike.region) {
                    (Some(r), _) => r as int,
                    (None, Some(r)) => r as int,
                    (None, None) => 1,
                },
            ),
        ]
    } else if column == "amplitude"@ {
        seq![
            match strike.amplitude {
                Some(v) => Cell::Float(v),
                None => Cell::Null,
            },
        ]
    } else if column == "error2d"@ {
        seq![
            match strike.lateral_error {
                Some(v) => Cell::Int(v as int),
                None => Cell::Null,
            },
        ]
    } else if column == "stationcount"@ {
        seq![
            match strike.station_count {
                Some(v) => Cell::Int(v as int),
                None => Cell::Null,
            },
        ]
    } else {
        seq![]
    }
}

/// The placeholder of the parameter with the given number.
pub open spec fn dollar(n: int) -> Seq<char> {
    "$"@ + number::signed_decimal(n)
}

/// What stands for a column in the list of values, when its parameters start
/// with the given number.
pub open spec fn slot(column: Seq<char>, first: int) -> Seq<char> {
    if column == "geog"@ {
        "ST_MakePoint("@ + dollar(first) + ", "@ + dollar(first + 1) + ")"@
    } else {
        dollar(first)
    }
}

/// The parameters of the first `n` columns of a strike.
pub open spec fn held_cells(strike: Strike, region: Option<i64>, n: int) -> Seq<Cell>
    decreases n,
{
    if n <= 0 {
        Seq::empty()
    } else {
        held_cells(strike, region, n - 1) + held(filled_columns()[n - 1], strike, region)
    }
}

/// What stands for the columns of a strike whose parameters start behind
/// `base`: the slot of each column names the parameters that the column holds.
pub open spec fn slots(base: int) -> Seq<Seq<char>> {
    seq![
        slot("\"timestamp\""@, base + 1),
        slot("nanoseconds"@, base + 2),
        slot("geog"@, base + 3),
        slot("altitude"@, base + 5),
        slot("region"@, base + 6),
        slot("amplitude"@, base + 7),
        slot("error2d"@, base + 8),
        slot("stationcount"@, base + 9),
    ]
}

/// The names of the filled columns are different.
proof fn lemma_columns_differ()
    ensures
        forall|i: int, j: int|
            0 <= i < j < filled_columns().len() ==> #[trigger] filled_columns()[i] != #[trigger] filled_columns()[j],
{
    reveal_strlit("\"timestamp\"");
    reveal_strlit("nanoseconds");
    reveal_strlit("geog");
    reveal_strlit("altitude");
    reveal_strlit("region");
    reveal_strlit("amplitude");
    reveal_strlit("error2d");
    reveal_strlit("stationcount");
    assert forall|i: int, j: int| 0 <= i < j < filled_columns().len() implies #[trigger] filled_columns()[i]
        != #[trigger] filled_columns()[j] by {
        let a = filled_columns()[i];
        let b = filled_columns()[j];
        if a.len() == b.len() {
            assert(a[0] != b[0] || a[1] != b[1]);
        }
    }
}

/// An insertion pairs each column with its field: the columns are listed once,
/// each group of values has a slot for each of them in the same order, the
/// slots name the parameters one after the other, and the parameters are what
/// the columns hold of the strike.
pub proof fn an_insertion_pairs_each_column_with_its_field(strike: Strike, region: Option<i64>, n: nat, base: int)
    ensures
        insert_text(n) == "INSERT INTO strikes ("@ + text::join(filled_columns(), ", "@) + ") VALUES "@ + text::join(
            placeholder_groups(n),
            ", "@,
        ),
        placeholder_group(base) == "("@ + text::join(slots(base), ", "@) + ")"@,
        forall|i: int| 0 <= i < n ==> #[trigger] placeholder_groups(n)[i] == placeholder_group(9 * i),
        strike_cells(strike, region) == held_cells(strike, region, 8),
{
    lemma_insert_head();
    lemma_group(base);
    lemma_columns_differ();
    let columns = filled_columns();
    assert(columns[0] != columns[1] && columns[0] != columns[2] && columns[0] != columns[3] && columns[0] != columns[4]
        && columns[0] != columns[5] && columns[0] != columns[6] && columns[0] != columns[7]);
    assert(columns[1] != columns[2] && columns[1] != columns[3] && columns[1] != columns[4] && columns[1] != columns[5]
        && columns[1] != columns[6] && columns[1] != columns[7]);
    assert(columns[2] != columns[3] && columns[2] != columns[4] && columns[2] != columns[5] && columns[2] != columns[6]
        && columns[2] != columns[7]);
    assert(columns[3] != columns[4] && columns[3] != columns[5] && columns[3] != columns[6] && columns[3] != columns[7]);
    assert(columns[4] != columns[5] && columns[4] != columns[6] && columns[4] != columns[7]);
    assert(columns[5] != columns[6] && columns[5] != columns[7]);
    assert(columns[6] != columns[7]);
    reveal_with_fuel(held_cells, 9);
    assert(strike_cells(strike, region) =~= held_cells(strike, region, 8));
}

proof fn lemma_insert_head()
    ensures
        "INSERT INTO strikes (\"timestamp\", nanoseconds, geog, altitude, region, amplitude, error2d, stationcount) VALUES "@
            == "INSERT INTO strikes ("@ + text::join(filled_columns(), ", "@) + ") VALUES "@,
{
    reveal_strlit(
        "INSERT INTO strikes (\"timestamp\", nanoseconds, geog, altitude, region, amplitude, error2d, stationcount) VALUES ",
    );
    reveal_strlit("INSERT INTO strikes (");
    reveal_strlit(") VALUES ");
    reveal_strlit(", ");
    reveal_strlit("\"timestamp\"");
    reveal_strlit("nanoseconds");
    reveal_strlit("geog");
    reveal_strlit("altitude");
    reveal_strlit("region");
    reveal_strlit("amplitude");
    reveal_strlit("error2d");
    reveal_strlit("stationcount");
    reveal_with_fuel(text::joined, 9);
    assert("INSERT INTO strikes (\"timestamp\", nanoseconds, geog, altitude, region, amplitude, error2d, stationcount) VALUES "@
        =~= "INSERT INTO strikes ("@ + text::join(filled_columns(), ", "@) + ") VALUES "@);
}

/// One more plain placeholder.
proof fn lemma_next_slot(before: Seq<char>, digits: Seq<char>)
    ensures
        before + ", $"@ + digits == before + ", "@ + ("$"@ + digits),
        before + "), $"@ + digits == (before + ")"@) + ", "@ + ("$"@ + digits),
{
    reveal_strlit("$");
    reveal_strlit(", $");
    reveal_strlit(", ");
    reveal_strlit("), $");
    reveal_strlit(")");
    assert(before + ", $"@ + digits =~= before + ", "@ + ("$"@ + digits));
    assert(before + "), $"@ + digits =~= (before + ")"@) + ", "@ + ("$"@ + digits));
}

/// The placeholders of a point.
proof fn lemma_point_slot(before: Seq<char>, x: Seq<char>, y: Seq<char>)
    ensures
        before + ", ST_MakePoint($"@ + x + ", $"@ + y + ")"@ == before + ", "@ + ("ST_MakePoint("@ + ("$"@ + x) + ", "@
            + ("$"@ + y) + ")"@),
{
    reveal_strlit("$");
    reveal_strlit(", $");
    reveal_strlit(", ");
    reveal_strlit(", ST_MakePoint($");
    reveal_strlit("ST_MakePoint(");
    reveal_strlit(")");
    assert(before + ", ST_MakePoint($"@ + x + ", $"@ + y + ")"@ =~= before + ", "@ + ("ST_MakePoint("@ + ("$"@ + x)
        + ", "@ + ("$"@ + y) + ")"@));
}

/// One more item behind an opening bracket.
proof fn lemma_next_item(items: Seq<Seq<char>>, k: int)
    requires
        1 <= k < items.len(),
    ensures
        "("@ + text::joined(items, ", "@, k + 1) == "("@ + text::joined(items, ", "@, k) + ", "@ + items[k],
{
    assert("("@ + (text::joined(items, ", "@, k) + ", "@ + items[k]) =~= "("@ + text::joined(items, ", "@, k) + ", "@
        + items[k]);
}

proof fn lemma_group(base: int)
    ensures
        placeholder_group(base) == "("@ + text::join(slots(base), ", "@) + ")"@,
{
    lemma_columns_differ();
    let columns = filled_columns();
    assert(columns[0] != columns[2] && columns[1] != columns[2]);
    assert(columns[2] != columns[3] && columns[2] != columns[4] && columns[2] != columns[5] && columns[2] != columns[6]
        && columns[2] != columns[7]);
    let d1 = number::signed_decimal(base + 1);
    let d2 = number::signed_decimal(base + 2);
    let d3 = number::signed_decimal(base + 3);
    let d4 = number::signed_decimal(base + 4);
    let d5 = number::signed_decimal(base + 5);
    let d6 = number::signed_decimal(base + 6);
    let d7 = number::signed_decimal(base + 7);
    let d8 = number::signed_decimal(base + 8);
    let d9 = number::signed_decimal(base + 9);
    let items = slots(base);
    let g1 = "($"@ + d1;
    let g2 = g1 + ", $"@ + d2;
    let g4 = g2 + ", ST_MakePoint($"@ + d3 + ", $"@ + d4;
    let g5 = g4 + "), $"@ + d5;
    let g6 = g5 + ", $"@ + d6;
    let g7 = g6 + ", $"@ + d7;
    let g8 = g7 + ", $"@ + d8;
    let g9 = g8 + ", $"@ + d9;
    assert(g1 == "("@ + text::joined(items, ", "@, 1)) by {
        reveal_strlit("($");
        reveal_strlit("(");
        reveal_strlit("$");
        assert(text::joined(items, ", "@, 1) == "$"@ + d1);
        assert(g1 =~= "("@ + ("$"@ + d1));
    }
    lemma_next_slot(g1, d2);
    lemma_next_item(items, 1);
    assert(g2 == "("@ + text::joined(items, ", "@, 2));
    lemma_point_slot(g2, d3, d4);
    lemma_next_item(items, 2);
    assert(g4 + ")"@ == "("@ + text::joined(items, ", "@, 3));
    lemma_next_slot(g4, d5);
    lemma_next_item(items, 3);
    assert(g5 == "("@ + text::joined(items, ", "@, 4));
    lemma_next_slot(g5, d6);
    lemma_next_item(items, 4);
    assert(g6 == "("@ + text::joined(items, ", "@, 5));
    lemma_next_slot(g6, d7);
    lemma_next_item(items, 5);
    assert(g7 == "("@ + text::joined(items, ", "@, 6));
    lemma_next_slot(g7, d8);
    lemma_next_item(items, 6);
    assert(g8 == "("@ + text::joined(items, ", "@, 7));
    lemma_next_slot(g8, d9);
    lemma_next_item(items, 7);
    assert(g9 == "("@ + text::joined(items, ", "@, 8));
    assert(placeholder_group(base) == g9 + ")"@);
}

/// What the database returns for a selected column of a strike that was stored
/// under a region with the given id.
pub open spec fn returned(column: Seq<char>, id: int, strike: Strike, region: Option<i64>) -> Cell {
    if column == "id"@ {
        Cell::Int(id)
    } else if column == "ST_X(ST_Transform(geog::geometry, %(srid)s)) AS x"@ {
        held("geog"@, strike, region)[0]
    } else if column == "ST_Y(ST_Transform(geog::geometry, %(srid)s)) AS y"@ {
        held("geog"@, strike, region)[1]
    } else {
        held(column, strike, region)[0]
    }
}

/// The row that a selection of the given columns returns for a strike.
pub open spec fn returned_row(columns: Seq<Seq<char>>, id: int, strike: Strike, region: Option<i64>) -> Seq<Cell> {
    Seq::new(columns.len(), |k: int| returned(columns[k], id, strike, region))
}

proof fn lemma_selected_columns_differ()
    ensures
        ({
            let c = query::strike_columns();
            &&& c.len() == 9
            &&& c[1] == filled_columns()[0] && c[2] == filled_columns()[1] && c[5] == filled_columns()[3] && c[6]
                == filled_columns()[5] && c[7] == filled_columns()[6] && c[8] == filled_columns()[7]
            &&& forall|k: int| 0 < k < 9 ==> #[trigger] c[k] != "id"@
            &&& forall|k: int| 3 < k < 9 ==> #[trigger] c[k] != c[3]
            &&& forall|k: int| 4 < k < 9 ==> #[trigger] c[k] != c[4]
            &&& c[1] != c[3] && c[2] != c[3] && c[1] != c[4] && c[2] != c[4]
            &&& c[3] == "ST_X(ST_Transform(geog::geometry, %(srid)s)) AS x"@
            &&& c[4] == "ST_Y(ST_Transform(geog::geometry, %(srid)s)) AS y"@
            &&& c[0] != c[3] && c[0] != c[4]
        }),
{
    reveal_strlit("id");
    reveal_strlit("\"timestamp\"");
    reveal_strlit("nanoseconds");
    reveal_strlit("ST_X(ST_Transform(geog::geometry, %(srid)s)) AS x");
    reveal_strlit("ST_Y(ST_Transform(geog::geometry, %(srid)s)) AS y");
    reveal_strlit("altitude");
    reveal_strlit("amplitude");
    reveal_strlit("error2d");
    reveal_strlit("stationcount");
    let c = query::strike_columns();
    assert(c[3][3] != c[4][3]);
    assert forall|k: int| 0 < k < 9 implies #[trigger] c[k] != "id"@ by {
        assert(c[k].len() > 2);
    }
}

/// A strike that was inserted is read back as it was by the strike query, with
/// the id of its row: each column is read into the field that was stored in it.
/// The timestamp has to be normalised and the lateral error in its range.
pub proof fn inserted_strikes_read_back(
    strike: Strike,
    region: Option<i64>,
    id: i64,
    wide: WideColumns,
    read: Strike,
)
    requires
        strike.timestamp.datetime matches Some(m) && clock::representable(m as int),
        0 <= strike.timestamp.nanosecond <= 999,
        strike.lateral_error matches Some(e) ==> 0 <= e <= 32767,
        reads_row(read, returned_row(query::strike_columns(), id as int, strike, region), wide),
    ensures
        read.id == Some(id),
        read.timestamp == strike.timestamp,
        read.x == strike.x,
        read.y == strike.y,
        read.altitude == strike.altitude,
        read.amplitude == strike.amplitude,
        read.lateral_error == strike.lateral_error,
        read.station_count == strike.station_count,
{
    lemma_selected_columns_differ();
    lemma_columns_differ();
    let columns = filled_columns();
    let row = returned_row(query::strike_columns(), id as int, strike, region);
    lemma_held(strike, region);
    assert(row[0] == Cell::Int(id as int));
    assert(row[1] == held(columns[0], strike, region)[0]);
    assert(row[2] == held(columns[1], strike, region)[0]);
    assert(row[3] == held("geog"@, strike, region)[0]);
    assert(row[4] == held("geog"@, strike, region)[1]);
    assert(row[5] == held(columns[3], strike, region)[0]);
    assert(row[6] == held(columns[5], strike, region)[0]);
    assert(row[7] == held(columns[6], strike, region)[0]);
    assert(row[8] == held(columns[7], strike, region)[0]);
}

proof fn lemma_held(strike: Strike, region: Option<i64>)
    ensures
        held(filled_columns()[0], strike, region)[0] == Cell::Timestamp(strike.timestamp.datetime->0 as int),
        held(filled_columns()[1], strike, region)[0] == Cell::Int(strike.timestamp.nanosecond as int),
        held("geog"@, strike, region)[0] == Cell::Float(strike.x),
        held("geog"@, strike, region)[1] == Cell::Float(strike.y),
        held(filled_columns()[3], strike, region)[0] == real_cell(strike.altitude),
        held(filled_columns()[5], strike, region)[0] == real_cell(strike.amplitude),
        held(filled_columns()[6], strike, region)[0] == int_cell(strike.lateral_error),
        held(filled_columns()[7], strike, region)[0] == int_cell(strike.station_count),
{
    lemma_columns_differ();
    let columns = filled_columns();
    assert(columns[0] != columns[1] && columns[0] != columns[2] && columns[0] != columns[3] && columns[0] != columns[4]
        && columns[0] != columns[5] && columns[0] != columns[6] && columns[0] != columns[7]);
    assert(columns[1] != columns[2] && columns[1] != columns[3] && columns[1] != columns[4] && columns[1] != columns[5]
        && columns[1] != columns[6] && columns[1] != columns[7]);
    assert(columns[2] != columns[3] && columns[2] != columns[4] && columns[2] != columns[5] && columns[2] != columns[6]
        && columns[2] != columns[7]);
    assert(columns[3] != columns[4] && columns[3] != columns[5] && columns[3] != columns[6] && columns[3] != columns[7]);
    assert(columns[4] != columns[5] && columns[4] != columns[6] && columns[4] != columns[7]);
    assert(columns[5] != columns[6] && columns[5] != columns[7]);
    assert(columns[6] != columns[7]);
}

/// The key that is read of a stored strike is the key of the strike: so a
/// strike that is in the database is recognised.
pub proof fn stored_keys_are_the_keys_of_strikes(
    strike: Strike,
    region: Option<i64>,
    x: Real,
    y: Real,
    key: HashableStrikeKey,
)
    requires
        strike.timestamp.datetime matches Some(m) && clock::representable(m as int),
        0 <= strike.timestamp.nanosecond <= 999,
        row_key(returned_row(query::key_columns(), 0, strike, region), Some(x), Some(y)) == Ok::<
            HashableStrikeKey,
            Seq<char>,
        >(key),
    ensures
        key.timestamp == strike.timestamp.datetime->0 * 1000 + strike.timestamp.nanosecond,
        key.x == x.bits,
        key.y == y.bits,
        key.lateral_error == strike.lateral_error,
{
    lemma_selected_columns_differ();
    lemma_columns_differ();
    lemma_held(strike, region);
    let c = query::key_columns();
    let all = query::strike_columns();
    let row = returned_row(c, 0, strike, region);
    assert(c[0] == all[1] && c[1] == all[2] && c[2] == all[3] && c[3] == all[4] && c[4] == all[7]);
    assert(row[0] == held(filled_columns()[0], strike, region)[0]);
    assert(row[1] == held(filled_columns()[1], strike, region)[0]);
    assert(row[4] == held(filled_columns()[6], strike, region)[0]);
}

/// A count that a grid query returned stands in the cell of its column and its
/// row, which is counted from the top: unless a later row has the same cell.
/// A cell that no row has is empty.
pub proof fn counts_stand_in_their_cells(
    rows: Seq<Seq<Cell>>,
    x_bin_count: int,
    y_bin_count: int,
    n: int,
    x: int,
    y: int,
)
    requires
        0 <= n <= rows.len(),
        0 <= x < x_bin_count,
        0 <= y < y_bin_count,
        forall|i: int|
            0 <= i < n ==> {
                &&& (#[trigger] rows[i]).len() == 4
                &&& rows[i][0] is Int && rows[i][1] is Int && rows[i][2] is Int && rows[i][3] is Timestamp
                &&& i64::MIN <= rows[i][2]->Int_0 <= i64::MAX
                &&& i64::MIN <= rows[i][3]->Timestamp_0 <= i64::MAX
            },
    ensures
        ({
            let r = filled(rows, empty_cells(x_bin_count, y_bin_count), x_bin_count, y_bin_count, n);
            &&& r is Ok
            &&& r->Ok_0.len() == y_bin_count
            &&& r->Ok_0[y].len() == x_bin_count
            &&& forall|i: int|
                0 <= i < n && (#[trigger] rows[i])[0] == Cell::Int(x) && rows[i][1] == Cell::Int(y_bin_count - y)
                    && (forall|j: int|
                    i < j < n ==> !((#[trigger] rows[j])[0] == Cell::Int(x) && rows[j][1] == Cell::Int(
                        y_bin_count - y,
                    ))) ==> {
                    &&& r->Ok_0[y][x] is Some
                    &&& r->Ok_0[y][x]->0.count == rows[i][2]->Int_0
                    &&& r->Ok_0[y][x]->0.timestamp == Some(
                        Timestamp { datetime: Some(rows[i][3]->Timestamp_0 as i64), nanosecond: 0 },
                    )
                }
            &&& (forall|i: int|
                0 <= i < n ==> !((#[trigger] rows[i])[0] == Cell::Int(x) && rows[i][1] == Cell::Int(y_bin_count - y)))
                ==> r->Ok_0[y][x] is None
        }),
    decreases n,
{
    if n > 0 {
        counts_stand_in_their_cells(rows, x_bin_count, y_bin_count, n - 1, x, y);
        let row = rows[n - 1];
        let before = filled(rows, empty_cells(x_bin_count, y_bin_count), x_bin_count, y_bin_count, n - 1);
        let after = filled(rows, empty_cells(x_bin_count, y_bin_count), x_bin_count, y_bin_count, n);
        let rx = row[0]->Int_0;
        let ry = row[1]->Int_0;
        assert(grid_cell(row) is Ok);
        if 0 <= rx < x_bin_count && 0 < ry <= y_bin_count {
            let k = y_bin_count - ry;
            counts_stand_in_their_cells(rows, x_bin_count, y_bin_count, n - 1, x, k);
            assert(after->Ok_0 == before->Ok_0.update(k, after->Ok_0[k]));
            if k == y && rx != x {
                assert(after->Ok_0[y][x] == before->Ok_0[y][x]);
            }
        }
        assert forall|i: int|
            0 <= i < n && (#[trigger] rows[i])[0] == Cell::Int(x) && rows[i][1] == Cell::Int(y_bin_count - y) && (
            forall|j: int|
                i < j < n ==> !((#[trigger] rows[j])[0] == Cell::Int(x) && rows[j][1] == Cell::Int(
                    y_bin_count - y,
                ))) implies after->Ok_0[y][x] is Some && after->Ok_0[y][x]->0.count == rows[i][2]->Int_0
            && after->Ok_0[y][x]->0.timestamp == Some(
            Timestamp { datetime: Some(rows[i][3]->Timestamp_0 as i64), nanosecond: 0 },
        ) by {
            if i < n - 1 {
                assert(!(rows[n - 1][0] == Cell::Int(x) && rows[n - 1][1] == Cell::Int(y_bin_count - y)));
                assert(rows[i][2] is Int);
            }
        }
    }
}

/// A row without a time, a longitude or a latitude is no strike, and the first
/// of them that is not there is named; a row that has them is one.
pub proof fn strikes_need_a_time_and_a_place(row: Seq<Cell>, wide: WideColumns)
    ensures
        executor::timestamp_at(row, 1) is None ==> missing_column(row, wide) == Some("timestamp"@),
        executor::timestamp_at(row, 1) is Some && executor::int_at(row, 2) is None ==> missing_column(row, wide) == Some(
            "nanoseconds"@,
        ),
        row_time(row, 1) is Ok && real_at(row, 3, wide.x) is None ==> missing_column(row, wide) == Some("x"@),
        row_time(row, 1) is Ok && real_at(row, 3, wide.x) is Some && real_at(row, 4, wide.y) is None
            ==> missing_column(row, wide) == Some("y"@),
        missing_column(row, wide) is None <==> row_time(row, 1) is Ok && real_at(row, 3, wide.x) is Some && real_at(
            row,
            4,
            wide.y,
        ) is Some,
{
}

/// A selection fails with the first row that is no strike, and only then.
pub proof fn the_first_faulty_row_is_named(rows: Seq<Row>, wide: Seq<WideColumns>, i: int, k: int)
    requires
        0 <= i <= k <= rows.len(),
        rows.len() == wide.len(),
        forall|j: int| i <= j < k ==> missing_column((#[trigger] rows[j])@, wide[j]) is None,
        k < rows.len() ==> missing_column(rows[k]@, wide[k]) is Some,
    ensures
        select_fault(rows, wide, i) == (if k < rows.len() {
            missing_column(rows[k]@, wide[k])
        } else {
            None
        }),
    decreases k - i,
{
    if i < k {
        assert(missing_column(rows[i]@, wide[i]) is None);
        the_first_faulty_row_is_named(rows, wide, i + 1, k);
    }
}

/// A time is read from its two columns without loss: the microseconds of the
/// instant and the nanoseconds behind it are those of the timestamp, whose
/// nanosecond part is less than a microsecond.
pub proof fn times_are_read_without_loss(row: Seq<Cell>, i: int, instant: int, nanos: int)
    requires
        executor::timestamp_at(row, i) == Some(instant),
        executor::int_at(row, i + 1) == Some(nanos),
        clock::representable(instant),
        clock::representable(instant + nanos / 1000),
    ensures
        row_time(row, i) matches Ok(t) && t.datetime is Some && 0 <= t.nanosecond < 1000 && t.datetime->0 * 1000
            + t.nanosecond == instant * 1000 + nanos,
{
}

/// The key that is read of a stored strike is the one that is made of the
/// strike; strikes at different times or places, or with different errors, have
/// different keys.
pub proof fn a_stored_strike_has_its_own_key(
    strike: Strike,
    other: Strike,
    region: Option<i64>,
    x: Real,
    y: Real,
    u: Real,
    v: Real,
)
    requires
        strike.timestamp.datetime matches Some(m) && clock::representable(m as int),
        0 <= strike.timestamp.nanosecond <= 999,
        i64::MIN <= strike.timestamp.nanoseconds() <= i64::MAX,
        i64::MIN <= other.timestamp.nanoseconds() <= i64::MAX,
    ensures
        row_key(returned_row(query::key_columns(), 0, strike, region), Some(x), Some(y)) matches Ok(key) ==> key
            == HashableStrikeKey::key_of(strike, x, y),
        HashableStrikeKey::key_of(strike, x, y) == HashableStrikeKey::key_of(other, u, v) <==> {
            &&& strike.timestamp.nanoseconds() == other.timestamp.nanoseconds()
            &&& x == u
            &&& y == v
            &&& strike.lateral_error == other.lateral_error
        },
        HashableStrikeKey::key_of(strike, x, y).x == x.bits,
{
    if let Ok(key) = row_key(returned_row(query::key_columns(), 0, strike, region), Some(x), Some(y)) {
        stored_keys_are_the_keys_of_strikes(strike, region, x, y, key);
    }
}

} // verus!
