//! How parameters and columns are bound to PostgreSQL types, and when a
//! database failure is logged.

use vstd::prelude::*;
use vstd::string::*;

use crate::config::Config;
use crate::number;
use crate::text;

verus! {

/// The PostgreSQL types that are told apart.
#[derive(Debug, Clone, Copy, PartialEq, Eq, Structural)]
pub enum SqlType {
    Int2,
    Int4,
    Int8,
    Oid,
    Float4,
    Float8,
    Numeric,
    Timestamp,
    TimestampTz,
    Bool,
    Bytea,
    Text,
    Varchar,
    Name,
    Bpchar,
    Other,
}

/// How an integer is sent.
#[derive(Debug, PartialEq, Eq)]
pub enum IntBinding {
    Int2(i16),
    Int4(i32),
    Int8(i64),
    Oid(u32),
    /// As the nearest single precision number.
    Float4,
    /// As the nearest double precision number.
    Float8,
    /// As decimal text.
    Text(String),
}

/// What an [`IntBinding`] holds.
pub enum IntBindingModel {
    Int2(i16),
    Int4(i32),
    Int8(i64),
    Oid(u32),
    Float4,
    Float8,
    Text(Seq<char>),
}

impl View for IntBinding {
    type V = IntBindingModel;

    open spec fn view(&self) -> IntBindingModel {
        match self {
            IntBinding::Int2(v) => IntBindingModel::Int2(*v),
            IntBinding::Int4(v) => IntBindingModel::Int4(*v),
            IntBinding::Int8(v) => IntBindingModel::Int8(*v),
            IntBinding::Oid(v) => IntBindingModel::Oid(*v),
            IntBinding::Float4 => IntBindingModel::Float4,
            IntBinding::Float8 => IntBindingModel::Float8,
            IntBinding::Text(s) => IntBindingModel::Text(s@),
        }
    }
}

/// The binding of an integer for a server type: the width of the type, with the
/// low bits of the value.
pub open spec fn bound_int(value: i64, ty: SqlType) -> IntBindingModel {
    match ty {
        SqlType::Int2 => IntBindingModel::Int2(value as i16),
        SqlType::Int4 => IntBindingModel::Int4(value as i32),
        SqlType::Oid => IntBindingModel::Oid(value as u32),
        SqlType::Float4 => IntBindingModel::Float4,
        SqlType::Float8 => IntBindingModel::Float8,
        SqlType::Numeric => IntBindingModel::Text(number::signed_decimal(value as int)),
        _ => IntBindingModel::Int8(value),
    }
}

/// Bind an integer parameter for the type that the server infers.
pub fn int_to_sql(value: i64, ty: SqlType) -> (r: IntBinding)
    ensures
        r@ == bound_int(value, ty),
{
    match ty {
        SqlType::Int2 => IntBinding::Int2(#[verifier::truncate] (value as i16)),
        SqlType::Int4 => IntBinding::Int4(#[verifier::truncate] (value as i32)),
        SqlType::Oid => IntBinding::Oid(#[verifier::truncate] (value as u32)),
        SqlType::Float4 => IntBinding::Float4,
        SqlType::Float8 => IntBinding::Float8,
        SqlType::Numeric => IntBinding::Text(number::signed_text(value)),
        _ => IntBinding::Int8(value),
    }
}

/// How a floating point number is sent.
#[derive(Debug, Clone, Copy, PartialEq, Eq, Structural)]
pub enum FloatBinding {
    Float4,
    Float8,
    /// Rounded to an integer of the width of the type.
    RoundedInt2,
    RoundedInt4,
    RoundedInt8,
    /// As decimal text.
    Text,
}

/// Bind a floating point parameter for the type that the server infers.
pub fn float_to_sql(ty: SqlType) -> (r: FloatBinding)
    ensures
        r == bound_float(ty),
        r == (match ty {
            SqlType::Float4 => FloatBinding::Float4,
            SqlType::Int2 => FloatBinding::RoundedInt2,
            SqlType::Int4 => FloatBinding::RoundedInt4,
            SqlType::Int8 => FloatBinding::RoundedInt8,
            SqlType::Numeric => FloatBinding::Text,
            _ => FloatBinding::Float8,
        }),
{
    match ty {
        SqlType::Float4 => FloatBinding::Float4,
        SqlType::Int2 => FloatBinding::RoundedInt2,
        SqlType::Int4 => FloatBinding::RoundedInt4,
        SqlType::Int8 => FloatBinding::RoundedInt8,
        SqlType::Numeric => FloatBinding::Text,
        _ => FloatBinding::Float8,
    }
}

/// Whether a timestamp is sent as a wall clock time without an offset.
pub fn timestamp_to_sql(ty: SqlType) -> (r: bool)
    ensures
        r == (ty == SqlType::Timestamp),
{
    match ty {
        SqlType::Timestamp => true,
        _ => false,
    }
}

/// How a column is read.
#[derive(Debug, Clone, Copy, PartialEq, Eq, Structural)]
pub enum Reading {
    Int2,
    Int4,
    Int8,
    Float4,
    Float8,
    /// A wall clock time that is taken as UTC.
    NaiveTimestamp,
    Timestamp,
    Bool,
    Bytea,
    Text,
    /// The column is read as null.
    Null,
}

/// How a column of the given type is read.
pub open spec fn reading_of(ty: SqlType) -> Reading {
    match ty {
        SqlType::Int2 => Reading::Int2,
        SqlType::Int4 => Reading::Int4,
        SqlType::Int8 => Reading::Int8,
        SqlType::Float4 => Reading::Float4,
        SqlType::Float8 => Reading::Float8,
        SqlType::Timestamp => Reading::NaiveTimestamp,
        SqlType::TimestampTz => Reading::Timestamp,
        SqlType::Bool => Reading::Bool,
        SqlType::Bytea => Reading::Bytea,
        SqlType::Text | SqlType::Varchar | SqlType::Name | SqlType::Bpchar => Reading::Text,
        SqlType::Oid | SqlType::Numeric | SqlType::Other => Reading::Null,
    }
}

/// How a floating point number is sent for the given type.
pub open spec fn bound_float(ty: SqlType) -> FloatBinding {
    match ty {
        SqlType::Float4 => FloatBinding::Float4,
        SqlType::Int2 => FloatBinding::RoundedInt2,
        SqlType::Int4 => FloatBinding::RoundedInt4,
        SqlType::Int8 => FloatBinding::RoundedInt8,
        SqlType::Numeric => FloatBinding::Text,
        _ => FloatBinding::Float8,
    }
}

/// Number of pooled connections: the configured one, at least one.
pub open spec fn connections(configured: u32) -> u32 {
    if configured == 0 {
        1
    } else {
        configured
    }
}

/// How a column of the given type is read; each integer width is read as such.
pub fn convert_column(ty: SqlType) -> (r: Reading)
    ensures
        r == reading_of(ty),
        r == (match ty {
            SqlType::Int2 => Reading::Int2,
            SqlType::Int4 => Reading::Int4,
            SqlType::Int8 => Reading::Int8,
            SqlType::Float4 => Reading::Float4,
            SqlType::Float8 => Reading::Float8,
            SqlType::Timestamp => Reading::NaiveTimestamp,
            SqlType::TimestampTz => Reading::Timestamp,
            SqlType::Bool => Reading::Bool,
            SqlType::Bytea => Reading::Bytea,
            SqlType::Text | SqlType::Varchar | SqlType::Name | SqlType::Bpchar => Reading::Text,
            SqlType::Oid | SqlType::Numeric | SqlType::Other => Reading::Null,
        }),
{
    match ty {
        SqlType::Int2 => Reading::Int2,
        SqlType::Int4 => Reading::Int4,
        SqlType::Int8 => Reading::Int8,
        SqlType::Float4 => Reading::Float4,
        SqlType::Float8 => Reading::Float8,
        SqlType::Timestamp => Reading::NaiveTimestamp,
        SqlType::TimestampTz => Reading::Timestamp,
        SqlType::Bool => Reading::Bool,
        SqlType::Bytea => Reading::Bytea,
        SqlType::Text | SqlType::Varchar | SqlType::Name | SqlType::Bpchar => Reading::Text,
        SqlType::Oid | SqlType::Numeric | SqlType::Other => Reading::Null,
    }
}

/// Number of pooled connections: the configured one, at least one.
pub fn pool_size(config: &Config) -> (r: u32)
    ensures
        r == connections(config.db_connection_count),
        r == (if config.db_connection_count == 0 {
            1
        } else {
            config.db_connection_count
        }),
{
    if config.db_connection_count == 0 {
        1
    } else {
        config.db_connection_count
    }
}

// ---------------------------------------------------------------------
// failures
// ---------------------------------------------------------------------

/// Logs the first failure of an outage only.
///
/// A success ends the outage, so that the next failure is logged again.
#[derive(Debug, Clone, Copy, PartialEq, Eq, Structural)]
pub struct FailureLog {
    /// Whether the current outage was logged.
    pub logged: bool,
    /// Failures that were logged.
    pub log_count: usize,
}

impl FailureLog {
    /// A log that has seen no failure.
    pub fn new() -> (r: FailureLog)
        ensures
            r == (FailureLog { logged: false, log_count: 0 }),
    {
        FailureLog { logged: false, log_count: 0 }
    }

    /// Claim the right to log the current failure: true once per outage.
    pub fn should_log(&mut self) -> (r: bool)
        ensures
            r == !old(self).logged,
            *final(self) == (FailureLog { logged: true, log_count: old(self).log_count }),
    {
        let first = !self.logged;
        self.logged = true;
        first
    }

    /// Record a failure with the given description; yields the line to log.
    pub fn note_failure(&mut self, description: &str) -> (r: Option<String>)
        requires
            old(self).log_count < usize::MAX,
        ensures
            final(self).logged,
            old(self).logged ==> r is None && final(self).log_count == old(self).log_count,
            !old(self).logged ==> text::opt_text(r) == Some("database unavailable: "@ + description@)
                && final(self).log_count == old(self).log_count + 1,
    {
        if self.should_log() {
            self.log_count = self.log_count + 1;
            Some(String::from_str("database unavailable: ").concat(description))
        } else {
            None
        }
    }

    /// Record a success.
    pub fn note_success(&mut self)
        ensures
            *final(self) == (FailureLog { logged: false, log_count: old(self).log_count }),
    {
        self.logged = false;
    }

    /// Number of failures that were logged.
    pub fn log_count(&self) -> (r: usize)
        ensures
            r == self.log_count,
    {
        self.log_count
    }
}

/// The log after `n` events, where each is a failure or a success.
pub open spec fn after_events(log: FailureLog, failures: Seq<bool>, n: int) -> (bool, int)
    decreases n,
{
    if n <= 0 {
        (log.logged, log.log_count as int)
    } else {
        let (logged, count) = after_events(log, failures, n - 1);
        if failures[n - 1] {
            (true, if logged {
                count
            } else {
                count + 1
            })
        } else {
            (false, count)
        }
    }
}

/// The number of outages in the first `n` events: failures that follow a
/// success, or start.
pub open spec fn outages(failures: Seq<bool>, n: int) -> int
    decreases n,
{
    if n <= 0 {
        0
    } else {
        outages(failures, n - 1) + (if failures[n - 1] && (n == 1 || !failures[n - 2]) {
            1int
        } else {
            0int
        })
    }
}

/// Exactly one failure is logged per outage.
pub proof fn one_line_per_outage(failures: Seq<bool>, n: int)
    requires
        0 <= n <= failures.len(),
    ensures
        ({
            let log = FailureLog { logged: false, log_count: 0 };
            let (logged, count) = after_events(log, failures, n);
            &&& count == outages(failures, n)
            &&& n > 0 ==> logged == failures[n - 1]
            &&& n == 0 ==> !logged
        }),
    decreases n,
{
    if n > 0 {
        one_line_per_outage(failures, n - 1);
    }
}

/// An integer that fits the type of the server is bound as itself.
pub proof fn integers_keep_their_value(value: i64)
    ensures
        -0x8000 <= value < 0x8000 ==> (bound_int(value, SqlType::Int2) matches IntBindingModel::Int2(v) && v == value),
        -0x8000_0000 <= value < 0x8000_0000 ==> (bound_int(value, SqlType::Int4) matches IntBindingModel::Int4(v) && v
            == value),
        0 <= value < 0x1_0000_0000 ==> (bound_int(value, SqlType::Oid) matches IntBindingModel::Oid(v) && v == value),
        bound_int(value, SqlType::Int8) == IntBindingModel::Int8(value),
        bound_int(value, SqlType::Numeric) matches IntBindingModel::Text(s) && number::signed_value(s) == Some(
            value as int,
        ),
        bound_int(value, SqlType::Float4) is Float4,
        bound_int(value, SqlType::Float8) is Float8,
{
    number::signed_numbers_read_back(value as int);
}

/// A column is read as the type that it has: each width of integers and of
/// floating point numbers as such, a time without a zone as such, and every
/// kind of text as text; what the strikes do not hold is read as null.
pub proof fn columns_are_read_as_their_type(ty: SqlType)
    ensures
        reading_of(SqlType::Int2) == Reading::Int2 && reading_of(SqlType::Int4) == Reading::Int4 && reading_of(
            SqlType::Int8,
        ) == Reading::Int8,
        reading_of(SqlType::Float4) == Reading::Float4 && reading_of(SqlType::Float8) == Reading::Float8,
        reading_of(SqlType::Timestamp) == Reading::NaiveTimestamp && reading_of(SqlType::TimestampTz)
            == Reading::Timestamp,
        reading_of(SqlType::Bool) == Reading::Bool && reading_of(SqlType::Bytea) == Reading::Bytea,
        reading_of(ty) == Reading::Text <==> ty == SqlType::Text || ty == SqlType::Varchar || ty == SqlType::Name || ty
            == SqlType::Bpchar,
        reading_of(ty) == Reading::Null <==> ty == SqlType::Oid || ty == SqlType::Numeric || ty == SqlType::Other,
{
}

/// A floating point number is sent in the width of the type, rounded for an
/// integer type, as text for a decimal one, and in full for any other.
pub proof fn floats_are_sent_as_their_type(ty: SqlType)
    ensures
        bound_float(ty) == FloatBinding::Float4 <==> ty == SqlType::Float4,
        bound_float(ty) == FloatBinding::RoundedInt2 <==> ty == SqlType::Int2,
        bound_float(ty) == FloatBinding::RoundedInt4 <==> ty == SqlType::Int4,
        bound_float(ty) == FloatBinding::RoundedInt8 <==> ty == SqlType::Int8,
        bound_float(ty) == FloatBinding::Text <==> ty == SqlType::Numeric,
{
}

/// There is always a connection, and otherwise as many as are configured.
pub proof fn there_is_always_a_connection(configured: u32)
    ensures
        connections(configured) >= 1,
        configured >= 1 ==> connections(configured) == configured,
{
}

} // verus!
