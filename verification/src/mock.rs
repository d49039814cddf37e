//! A scripted database.
//!
//! Expectations are registered by a fragment of SQL.  The first one whose
//! fragment occurs in a query is used up by it and yields its rows or its
//! error.  Every call is recorded.

use vstd::prelude::*;
use vstd::string::*;

use crate::executor;
use crate::executor::{Cell, Param, Row};
use crate::text;

verus! {

/// What a query leads to.
#[derive(Debug)]
pub enum Expectation {
    Rows { fragment: String, rows: Vec<Row> },
    Error { fragment: String, message: String },
}

/// A statement and its parameters.
pub struct CallModel {
    pub sql: Seq<char>,
    pub params: Seq<Cell>,
}

/// The recorded calls.
pub open spec fn call_models(calls: Seq<(String, Vec<Param>)>) -> Seq<CallModel> {
    calls.map_values(|c: (String, Vec<Param>)| CallModel { sql: c.0@, params: executor::cells(c.1@) })
}

/// A scripted database.
#[derive(Debug)]
pub struct MockExecutor {
    pub expectations: Vec<Expectation>,
    pub calls: Vec<(String, Vec<Param>)>,
    pub executions: Vec<(String, Vec<Param>)>,
    pub commit_count: usize,
    pub rollback_count: usize,
}

/// The fragment of an expectation.
pub open spec fn fragment(e: Expectation) -> Seq<char> {
    match e {
        Expectation::Rows { fragment, rows: _ } => fragment@,
        Expectation::Error { fragment, message: _ } => fragment@,
    }
}

/// Whether `part` occurs in `sql`.
pub open spec fn has_fragment(sql: Seq<char>, part: Seq<char>) -> bool {
    text::first_match(sql, part, 0) >= 0
}

/// The first expectation at or after `i` that matches a statement; the number
/// of expectations when none does.
pub open spec fn first_expectation(expectations: Seq<Expectation>, sql: Seq<char>, i: int) -> int
    decreases expectations.len() - i,
{
    if i < 0 || i >= expectations.len() {
        expectations.len() as int
    } else if has_fragment(sql, fragment(expectations[i])) {
        i
    } else {
        first_expectation(expectations, sql, i + 1)
    }
}

fn copy_params(params: &[Param]) -> (r: Vec<Param>)
    ensures
        executor::cells(r@) == executor::cells(params@),
{
    let mut out: Vec<Param> = Vec::new();
    let mut i: usize = 0;
    while i < params.len()
        invariant
            i <= params@.len(),
            i == out@.len(),
            forall|k: int| 0 <= k < i ==> (#[trigger] out@[k])@ == params@[k]@,
        decreases params@.len() - i,
    {
        out.push(params[i].copy());
        i = i + 1;
    }
    assert(executor::cells(out@) =~= executor::cells(params@));
    out
}

fn copy_calls(calls: &[(String, Vec<Param>)]) -> (r: Vec<(String, Vec<Param>)>)
    ensures
        call_models(r@) == call_models(calls@),
{
    let mut out: Vec<(String, Vec<Param>)> = Vec::new();
    let mut i: usize = 0;
    while i < calls.len()
        invariant
            i <= calls@.len(),
            i == out@.len(),
            forall|k: int|
                0 <= k < i ==> (#[trigger] out@[k]).0@ == calls@[k].0@ && executor::cells(out@[k].1@)
                    == executor::cells(calls@[k].1@),
        decreases calls@.len() - i,
    {
        let copied = copy_params(calls[i].1.as_slice());
        out.push((calls[i].0.clone(), copied));
        i = i + 1;
    }
    assert(call_models(out@) =~= call_models(calls@));
    out
}

fn contains_fragment(sql: &str, part: &str) -> (r: bool)
    ensures
        r == has_fragment(sql@, part@),
{
    let chars = text::chars_of(sql);
    let pattern = text::chars_of(part);
    text::find_text(chars.as_slice(), pattern.as_slice(), 0).is_some()
}

impl MockExecutor {
    /// A database without expectations.
    pub fn new() -> (r: MockExecutor)
        ensures
            r.expectations@.len() == 0,
            r.calls@.len() == 0,
            r.executions@.len() == 0,
            r.commit_count == 0,
            r.rollback_count == 0,
    {
        MockExecutor {
            expectations: Vec::new(),
            calls: Vec::new(),
            executions: Vec::new(),
            commit_count: 0,
            rollback_count: 0,
        }
    }

    /// Whether only the expectations differ.
    pub open spec fn same_records(&self, other: &MockExecutor) -> bool {
        &&& self.calls == other.calls
        &&& self.executions == other.executions
        &&& self.commit_count == other.commit_count
        &&& self.rollback_count == other.rollback_count
    }

    /// Register rows for the first query that holds `sql_fragment`.
    pub fn add_rows(&mut self, sql_fragment: &str, rows: Vec<Row>)
        ensures
            final(self).same_records(old(self)),
            final(self).expectations@.len() == old(self).expectations@.len() + 1,
            final(self).expectations@.drop_last() == old(self).expectations@,
            final(self).expectations@.last() matches Expectation::Rows { fragment: f, rows: r } && f@ == sql_fragment@
                && r == rows,
    {
        self.expectations.push(Expectation::Rows { fragment: String::from_str(sql_fragment), rows });
        assert(self.expectations@.drop_last() =~= old(self).expectations@);
    }

    /// Register an error for the first statement that holds `sql_fragment`.
    pub fn add_error(&mut self, sql_fragment: &str, message: &str)
        ensures
            final(self).same_records(old(self)),
            final(self).expectations@.len() == old(self).expectations@.len() + 1,
            final(self).expectations@.drop_last() == old(self).expectations@,
            final(self).expectations@.last() matches Expectation::Error { fragment: f, message: m } && f@
                == sql_fragment@ && m@ == message@,
    {
        self.expectations.push(
            Expectation::Error { fragment: String::from_str(sql_fragment), message: String::from_str(message) },
        );
        assert(self.expectations@.drop_last() =~= old(self).expectations@);
    }

    fn position(&self, sql: &str) -> (r: usize)
        ensures
            r == first_expectation(self.expectations@, sql@, 0),
            r <= self.expectations@.len(),
    {
        let mut i: usize = 0;
        while i < self.expectations.len()
            invariant
                i <= self.expectations@.len(),
                first_expectation(self.expectations@, sql@, 0) == first_expectation(
                    self.expectations@,
                    sql@,
                    i as int,
                ),
            decreases self.expectations@.len() - i,
        {
            let found = match &self.expectations[i] {
                Expectation::Rows { fragment, rows: _ } => contains_fragment(sql, fragment.as_str()),
                Expectation::Error { fragment, message: _ } => contains_fragment(sql, fragment.as_str()),
            };
            if found {
                return i;
            }
            i = i + 1;
        }
        i
    }

    /// Run a query, which has to match an expectation.
    pub fn query(&mut self, sql: &str, params: &[Param]) -> (r: Result<Vec<Row>, String>)
        requires
            first_expectation(old(self).expectations@, sql@, 0) < old(self).expectations@.len(),
        ensures
            ({
                let k = first_expectation(old(self).expectations@, sql@, 0);
                &&& final(self).expectations@ == old(self).expectations@.remove(k)
                &&& call_models(final(self).calls@) == call_models(old(self).calls@).push(
                    CallModel { sql: sql@, params: executor::cells(params@) },
                )
                &&& final(self).executions == old(self).executions
                &&& final(self).commit_count == old(self).commit_count
                &&& final(self).rollback_count == old(self).rollback_count
                &&& match old(self).expectations@[k] {
                    Expectation::Rows { fragment: _, rows } => r == Ok::<Vec<Row>, String>(rows),
                    Expectation::Error { fragment: _, message } => r == Err::<Vec<Row>, String>(message),
                }
            }),
    {
        let k: usize = self.position(sql);
        let ghost before = self.calls@;
        self.calls.push((String::from_str(sql), copy_params(params)));
        assert(call_models(self.calls@) =~= call_models(before).push(
            CallModel { sql: sql@, params: executor::cells(params@) },
        ));
        match self.expectations.remove(k) {
            Expectation::Rows { fragment: _, rows } => Ok(rows),
            Expectation::Error { fragment: _, message } => Err(message),
        }
    }

    /// Execute a statement, which uses up an error that it matches.
    pub fn execute(&mut self, sql: &str, params: &[Param]) -> (r: Result<u64, String>)
        ensures
            call_models(final(self).executions@) == call_models(old(self).executions@).push(
                CallModel { sql: sql@, params: executor::cells(params@) },
            ),
            final(self).calls == old(self).calls,
            final(self).commit_count == old(self).commit_count,
            final(self).rollback_count == old(self).rollback_count,
            ({
                let k = first_expectation(old(self).expectations@, sql@, 0);
                if k < old(self).expectations@.len() && old(self).expectations@[k] is Error {
                    &&& r == Err::<u64, String>(old(self).expectations@[k]->Error_message)
                    &&& final(self).expectations@ == old(self).expectations@.remove(k)
                } else {
                    &&& r == Ok::<u64, String>(1)
                    &&& final(self).expectations@ == old(self).expectations@
                }
            }),
    {
        let ghost before = self.executions@;
        self.executions.push((String::from_str(sql), copy_params(params)));
        assert(call_models(self.executions@) =~= call_models(before).push(
            CallModel { sql: sql@, params: executor::cells(params@) },
        ));
        let k: usize = self.position(sql);
        if k < self.expectations.len() {
            let fails = match &self.expectations[k] {
                Expectation::Error { fragment: _, message: _ } => true,
                Expectation::Rows { fragment: _, rows: _ } => false,
            };
            if fails {
                if let Expectation::Error { fragment: _, message } = self.expectations.remove(k) {
                    return Err(message);
                }
            }
        }
        Ok(1)
    }

    /// The queries so far.
    pub fn calls(&self) -> (r: Vec<(String, Vec<Param>)>)
        ensures
            call_models(r@) == call_models(self.calls@),
    {
        copy_calls(self.calls.as_slice())
    }

    /// The executed statements so far.
    pub fn executions(&self) -> (r: Vec<(String, Vec<Param>)>)
        ensures
            call_models(r@) == call_models(self.executions@),
    {
        copy_calls(self.executions.as_slice())
    }

    /// Number of commits so far.
    pub fn commit_count(&self) -> (r: usize)
        ensures
            r == self.commit_count,
    {
        self.commit_count
    }

    /// Number of rollbacks so far.
    pub fn rollback_count(&self) -> (r: usize)
        ensures
            r == self.rollback_count,
    {
        self.rollback_count
    }

    /// Number of queries so far.
    pub fn call_count(&self) -> (r: usize)
        ensures
            r == self.calls@.len(),
    {
        self.calls.len()
    }

    /// Number of executed statements so far.
    pub fn execution_count(&self) -> (r: usize)
        ensures
            r == self.executions@.len(),
    {
        self.executions.len()
    }

    /// Commit.
    pub fn commit(&mut self)
        requires
            old(self).commit_count < usize::MAX,
        ensures
            final(self).commit_count == old(self).commit_count + 1,
            final(self).expectations == old(self).expectations,
            final(self).calls == old(self).calls,
            final(self).executions == old(self).executions,
            final(self).rollback_count == old(self).rollback_count,
    {
        self.commit_count = self.commit_count + 1;
    }

    /// Roll back.
    pub fn rollback(&mut self)
        requires
            old(self).rollback_count < usize::MAX,
        ensures
            final(self).rollback_count == old(self).rollback_count + 1,
            final(self).expectations == old(self).expectations,
            final(self).calls == old(self).calls,
            final(self).executions == old(self).executions,
            final(self).commit_count == old(self).commit_count,
    {
        self.rollback_count = self.rollback_count + 1;
    }
}

/// A statement uses the first expectation whose fragment it holds, and none
/// when it holds no fragment.
pub proof fn the_first_matching_expectation_is_used(expectations: Seq<Expectation>, sql: Seq<char>, i: int, k: int)
    requires
        0 <= i <= k <= expectations.len(),
        forall|j: int| i <= j < k ==> !has_fragment(sql, fragment(#[trigger] expectations[j])),
        k < expectations.len() ==> has_fragment(sql, fragment(expectations[k])),
    ensures
        first_expectation(expectations, sql, i) == k,
    decreases k - i,
{
    if i < k {
        assert(!has_fragment(sql, fragment(expectations[i])));
        the_first_matching_expectation_is_used(expectations, sql, i + 1, k);
    }
}

proof fn lemma_first_match(s: Seq<char>, pat: Seq<char>, i: int, k: int)
    requires
        0 <= i <= k <= s.len(),
        text::occurs_at(s, pat, k),
    ensures
        text::first_match(s, pat, i) >= 0,
    decreases k - i,
{
    if i < k && !text::occurs_at(s, pat, i) {
        lemma_first_match(s, pat, i + 1, k);
    }
}

/// A statement holds a fragment that stands anywhere in it.
pub proof fn fragments_stand_anywhere(before: Seq<char>, part: Seq<char>, after: Seq<char>)
    ensures
        has_fragment(before + part + after, part),
{
    let s = before + part + after;
    let k = before.len() as int;
    assert(s.subrange(k, k + part.len()) =~= part);
    lemma_first_match(s, part, 0, k);
}

} // verus!
