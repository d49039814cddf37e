//! Values exchanged with the database.

use vstd::prelude::*;
use vstd::slice::*;
use vstd::string::*;

use crate::ieee::{Num, Real};

verus! {

/// What a parameter or a column holds.
pub enum Cell {
    Null,
    Int(int),
    Float(Real),
    Text(Seq<char>),
    Bool(bool),
    Bytea(Seq<u8>),
    /// Microseconds since the Unix epoch.
    Timestamp(int),
}

/// A query parameter sent to the database.
#[derive(Debug, Clone, PartialEq)]
pub enum Param {
    Null,
    Int(i64),
    Float(Real),
    Text(String),
    Bool(bool),
    Bytea(Vec<u8>),
    /// Microseconds since the Unix epoch.
    Timestamp(i64),
}

impl View for Param {
    type V = Cell;

    open spec fn view(&self) -> Cell {
        match self {
            Param::Null => Cell::Null,
            Param::Int(i) => Cell::Int(*i as int),
            Param::Float(f) => Cell::Float(*f),
            Param::Text(s) => Cell::Text(s@),
            Param::Bool(b) => Cell::Bool(*b),
            Param::Bytea(b) => Cell::Bytea(b@),
            Param::Timestamp(t) => Cell::Timestamp(*t as int),
        }
    }
}

impl Param {
    /// A copy of the parameter.
    pub fn copy(&self) -> (r: Param)
        ensures
            r@ == self@,
    {
        match self {
            Param::Null => Param::Null,
            Param::Int(i) => Param::Int(*i),
            Param::Float(f) => Param::Float(*f),
            Param::Text(s) => Param::Text(s.clone()),
            Param::Bool(b) => Param::Bool(*b),
            Param::Bytea(b) => Param::Bytea(slice_to_vec(b.as_slice())),
            Param::Timestamp(t) => Param::Timestamp(*t),
        }
    }
}

/// The contents of a parameter list.
pub open spec fn cells(params: Seq<Param>) -> Seq<Cell> {
    params.map_values(|p: Param| p@)
}

/// A value returned from a query row.
#[derive(Debug, Clone, PartialEq)]
pub enum Value {
    Null,
    Int(i64),
    Float(Real),
    Text(String),
    Bool(bool),
    Bytea(Vec<u8>),
    /// A timestamp column read as UTC, in microseconds since the Unix epoch.
    Timestamp(i64),
}

impl View for Value {
    type V = Cell;

    open spec fn view(&self) -> Cell {
        match self {
            Value::Null => Cell::Null,
            Value::Int(i) => Cell::Int(*i as int),
            Value::Float(f) => Cell::Float(*f),
            Value::Text(s) => Cell::Text(s@),
            Value::Bool(b) => Cell::Bool(*b),
            Value::Bytea(b) => Cell::Bytea(b@),
            Value::Timestamp(t) => Cell::Timestamp(*t as int),
        }
    }
}

impl Value {
    /// The value as an integer; only integer columns have one.
    pub fn as_i64(&self) -> (r: Option<i64>)
        ensures
            r matches Some(i) ==> self@ == Cell::Int(i as int),
            r is None ==> !(self@ is Int),
    {
        match self {
            Value::Int(i) => Some(*i),
            _ => None,
        }
    }
}

/// A single result row, addressed by position.
#[derive(Debug, Clone, PartialEq)]
pub struct Row {
    values: Vec<Value>,
}

impl View for Row {
    type V = Seq<Cell>;

    closed spec fn view(&self) -> Seq<Cell> {
        self.values@.map_values(|v: Value| v@)
    }
}

/// The integer in column `i`; a floating point column is truncated.
pub open spec fn int_at(row: Seq<Cell>, i: int) -> Option<int> {
    if 0 <= i < row.len() {
        match row[i] {
            Cell::Int(n) => Some(n),
            Cell::Float(f) => Some(f.truncated()),
            _ => None,
        }
    } else {
        None
    }
}

/// The timestamp in column `i`.
pub open spec fn timestamp_at(row: Seq<Cell>, i: int) -> Option<int> {
    if 0 <= i < row.len() {
        match row[i] {
            Cell::Timestamp(t) => Some(t),
            _ => None,
        }
    } else {
        None
    }
}

/// The number in column `i`.
pub open spec fn num_at(row: Seq<Cell>, i: int) -> Option<Num> {
    if 0 <= i < row.len() {
        match row[i] {
            Cell::Int(n) => Some(Num::Int(n as i64)),
            Cell::Float(f) => Some(Num::Real(f)),
            _ => None,
        }
    } else {
        None
    }
}

impl Row {
    /// A row holding `values`.
    pub fn new(values: Vec<Value>) -> (r: Row)
        ensures
            r@ == values@.map_values(|v: Value| v@),
    {
        Row { values }
    }

    /// Number of columns.
    pub fn len(&self) -> (r: usize)
        ensures
            r == self@.len(),
    {
        self.values.len()
    }

    /// Whether the row has no column.
    pub fn is_empty(&self) -> (r: bool)
        ensures
            r == (self@.len() == 0),
    {
        self.values.len() == 0
    }

    /// The value of column `index`.
    pub fn get(&self, index: usize) -> (r: Option<&Value>)
        ensures
            r is Some <==> index < self@.len(),
            r matches Some(v) ==> v@ == self@[index as int],
    {
        if index < self.values.len() {
            Some(&self.values[index])
        } else {
            None
        }
    }

    /// The integer in column `index`; a floating point column is truncated.
    pub fn get_i64(&self, index: usize) -> (r: Option<i64>)
        ensures
            r matches Some(i) ==> int_at(self@, index as int) == Some(i as int),
            r is None ==> int_at(self@, index as int) is None,
    {
        match self.get(index) {
            Some(Value::Int(i)) => Some(*i),
            Some(Value::Float(f)) => Some(f.to_i64()),
            _ => None,
        }
    }

    /// The number in column `index`.
    pub fn get_f64(&self, index: usize) -> (r: Option<Num>)
        ensures
            r == num_at(self@, index as int),
    {
        match self.get(index) {
            Some(Value::Float(f)) => Some(Num::Real(*f)),
            Some(Value::Int(i)) => Some(Num::Int(*i)),
            _ => None,
        }
    }

    /// The timestamp in column `index`.
    pub fn get_timestamp(&self, index: usize) -> (r: Option<i64>)
        ensures
            r matches Some(t) ==> timestamp_at(self@, index as int) == Some(t as int),
            r is None ==> timestamp_at(self@, index as int) is None,
    {
        match self.get(index) {
            Some(Value::Timestamp(ts)) => Some(*ts),
            _ => None,
        }
    }
}

/// A column is read at its own place and as what it is: an integer as itself, a
/// floating point number as an integer toward zero or as itself, a time as its
/// instant; a column of another type, or beyond the row, has no such value.
pub proof fn columns_are_read_at_their_place(row: Seq<Cell>, i: int, n: i64, f: Real, t: int)
    ensures
        0 <= i < row.len() && row[i] == Cell::Int(n as int) ==> int_at(row, i) == Some(n as int) && num_at(row, i) == Some(
            Num::Int(n),
        ) && timestamp_at(row, i) is None,
        0 <= i < row.len() && row[i] == Cell::Float(f) ==> int_at(row, i) == Some(f.truncated()) && num_at(row, i)
            == Some(Num::Real(f)) && timestamp_at(row, i) is None,
        0 <= i < row.len() && row[i] == Cell::Timestamp(t) ==> timestamp_at(row, i) == Some(t) && int_at(row, i) is None
            && num_at(row, i) is None,
        0 <= i < row.len() && (row[i] is Null || row[i] is Text || row[i] is Bool || row[i] is Bytea) ==> int_at(row, i)
            is None && num_at(row, i) is None && timestamp_at(row, i) is None,
        i < 0 || i >= row.len() ==> int_at(row, i) is None && num_at(row, i) is None && timestamp_at(row, i) is None,
{
}

} // verus!
