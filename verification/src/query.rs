//! SQL query construction.
//!
//! A [`Query`] is rendered with named placeholders, `%(name)s`, by
//! [`Query::to_sql`], and with numbered placeholders, `$1, $2, ...`, by
//! [`Query::to_postgres`].  [`Query::parameters`] lists the values in the order
//! of the numbered form.

use vstd::prelude::*;
use vstd::slice::*;
use vstd::string::*;

use crate::area::Area;
use crate::executor;
use crate::executor::{Cell, Param};
use crate::geom::Grid;
use crate::ieee::Real;
use crate::number;
use crate::text;
use crate::wkb;

verus! {

/// Region condition of the strike queries.
pub const REGION_CONDITION: &'static str = "region = %(region)s";

// ---------------------------------------------------------------------
// intervals
// ---------------------------------------------------------------------

/// Time interval, in microseconds since the Unix epoch.
#[derive(Debug, Clone, Copy, PartialEq, Eq, Structural)]
pub struct TimeInterval {
    pub start: i64,
    pub end: i64,
}

impl TimeInterval {
    /// The interval from `start` to `end`.
    pub fn new(start: i64, end: i64) -> (r: TimeInterval)
        ensures
            r.start == start,
            r.end == end,
    {
        TimeInterval { start, end }
    }

    /// Whole seconds between start and end.
    pub fn duration_seconds(&self) -> (r: i64)
        ensures
            r == number::quotient(self.end - self.start, 1_000_000),
    {
        let span: i128 = self.end as i128 - self.start as i128;
        number::divide(span, 1_000_000) as i64
    }

    /// Whole minutes between start and end.
    pub fn minutes(&self) -> (r: i64)
        ensures
            r == number::quotient(number::quotient(self.end - self.start, 1_000_000), 60),
    {
        let seconds: i64 = self.duration_seconds();
        number::divide(seconds as i128, 60) as i64
    }
}

/// Id interval of the strikes query.
#[derive(Debug, Clone, Copy, PartialEq, Eq, Structural)]
pub struct IdInterval {
    pub start: i64,
}

// ---------------------------------------------------------------------
// placeholders
// ---------------------------------------------------------------------

/// The `%(name)s` placeholder at position `i`: the position behind it and its
/// name.
pub open spec fn param_at(sql: Seq<char>, i: int) -> Option<(int, Seq<char>)> {
    if 0 <= i && i + 1 < sql.len() && sql[i] == '%' && sql[i + 1] == '(' {
        let close = text::first_from(sql, ')', i + 2);
        if close + 1 < sql.len() && sql[close + 1] == 's' {
            Some((close + 2, sql.subrange(i + 2, close)))
        } else {
            None
        }
    } else {
        None
    }
}

/// The placeholder names in `sql[i..]`, in order of appearance.
pub open spec fn names_from(sql: Seq<char>, i: int) -> Seq<Seq<char>>
    decreases sql.len() - i,
    when 0 <= i
    via names_from_decreases
{
    if i >= sql.len() {
        Seq::empty()
    } else {
        match param_at(sql, i) {
            Some((next, name)) => seq![name] + names_from(sql, next),
            None => names_from(sql, i + 1),
        }
    }
}

#[via_fn]
proof fn names_from_decreases(sql: Seq<char>, i: int) {
    lemma_param_at(sql, i);
}

proof fn lemma_param_at(sql: Seq<char>, i: int)
    requires
        0 <= i,
    ensures
        param_at(sql, i) matches Some(p) ==> i < p.0 <= sql.len(),
{
    if i + 1 < sql.len() {
        text::lemma_first_from(sql, ')', i + 2);
    }
}

/// The names in `names` added to `seen`, each at most once.
pub open spec fn distinct_onto(seen: Seq<Seq<char>>, names: Seq<Seq<char>>) -> Seq<Seq<char>>
    decreases names.len(),
{
    if names.len() == 0 {
        seen
    } else if seen.contains(names[0]) {
        distinct_onto(seen, names.drop_first())
    } else {
        distinct_onto(seen.push(names[0]), names.drop_first())
    }
}

/// The distinct placeholder names of `sql`, in order of first appearance.
pub open spec fn placeholder_order(sql: Seq<char>) -> Seq<Seq<char>> {
    distinct_onto(Seq::empty(), names_from(sql, 0))
}

/// Position of `name` in `names`, from `i` on; the length when it is absent.
pub open spec fn position(names: Seq<Seq<char>>, name: Seq<char>, i: int) -> int
    decreases names.len() - i,
{
    if i < 0 || i >= names.len() {
        names.len() as int
    } else if names[i] == name {
        i
    } else {
        position(names, name, i + 1)
    }
}

/// The type cast registered last for `name` among the first `n`.
pub open spec fn cast_of(casts: Seq<(Seq<char>, Seq<char>)>, name: Seq<char>, n: int) -> Option<Seq<char>>
    decreases n,
{
    if n <= 0 {
        None
    } else if casts[n - 1].0 == name {
        Some(casts[n - 1].1)
    } else {
        cast_of(casts, name, n - 1)
    }
}

/// The numbered form of one placeholder: its rank among the distinct names,
/// and the registered cast.
pub open spec fn numbered(
    name: Seq<char>,
    order: Seq<Seq<char>>,
    casts: Seq<(Seq<char>, Seq<char>)>,
) -> Seq<char> {
    let rank = seq!['$'] + number::decimal((position(order, name, 0) + 1) as nat);
    match cast_of(casts, name, casts.len() as int) {
        Some(ty) => rank + "::"@ + ty,
        None => rank,
    }
}

/// `sql[i..]` with every placeholder in its numbered form.
pub open spec fn positional_from(
    sql: Seq<char>,
    i: int,
    order: Seq<Seq<char>>,
    casts: Seq<(Seq<char>, Seq<char>)>,
) -> Seq<char>
    decreases sql.len() - i,
    when 0 <= i
    via positional_from_decreases
{
    if i >= sql.len() {
        Seq::empty()
    } else {
        match param_at(sql, i) {
            Some((next, name)) => numbered(name, order, casts) + positional_from(sql, next, order, casts),
            None => seq![sql[i]] + positional_from(sql, i + 1, order, casts),
        }
    }
}

#[via_fn]
proof fn positional_from_decreases(
    sql: Seq<char>,
    i: int,
    order: Seq<Seq<char>>,
    casts: Seq<(Seq<char>, Seq<char>)>,
) {
    lemma_param_at(sql, i);
}

/// `sql` with numbered placeholders.
pub open spec fn positional(sql: Seq<char>, casts: Seq<(Seq<char>, Seq<char>)>) -> Seq<char> {
    positional_from(sql, 0, placeholder_order(sql), casts)
}

/// The names and types of a list of casts.
pub open spec fn cast_views(casts: Seq<(String, String)>) -> Seq<(Seq<char>, Seq<char>)> {
    casts.map_values(|c: (String, String)| (c.0@, c.1@))
}

/// The placeholder at position `from`: the position behind it and its name.
pub fn find_param_name(sql: &[char], from: usize) -> (r: Option<(usize, Vec<char>)>)
    ensures
        r matches Some(p) ==> param_at(sql@, from as int) == Some((p.0 as int, p.1@)) && from < p.0 <= sql@.len(),
        r is None ==> param_at(sql@, from as int) is None,
{
    let n: usize = sql.len();
    if n >= 2 && from < n - 1 && sql[from] == '%' && sql[from + 1] == '(' {
        let close: usize = text::find_from(sql, ')', from + 2);
        if close < n && close < n - 1 && sql[close + 1] == 's' {
            let name = slice_to_vec(slice_subrange(sql, from + 2, close));
            assert(name@ =~= sql@.subrange(from + 2, close as int));
            return Some((close + 2, name));
        }
    }
    None
}

/// The placeholder names in order of appearance.
pub fn param_names_in_order(sql: &str) -> (r: Vec<String>)
    ensures
        text::texts(r@) == names_from(sql@, 0),
{
    let chars = text::chars_of(sql);
    let mut names: Vec<String> = Vec::new();
    let mut i: usize = 0;
    assert(text::texts(names@) + names_from(sql@, 0) =~= names_from(sql@, 0));
    while i < chars.len()
        invariant
            i <= chars@.len(),
            chars@ == sql@,
            text::texts(names@) + names_from(sql@, i as int) == names_from(sql@, 0),
        decreases chars@.len() - i,
    {
        match find_param_name(chars.as_slice(), i) {
            Some((next, name)) => {
                let ghost before = text::texts(names@);
                names.push(text::text_of(name.as_slice()));
                proof {
                    assert(text::texts(names@) =~= before + seq![name@]);
                    assert(before + (seq![name@] + names_from(sql@, next as int)) =~= text::texts(names@)
                        + names_from(sql@, next as int));
                }
                i = next;
            },
            None => {
                i = i + 1;
            },
        }
    }
    assert(text::texts(names@) + Seq::<Seq<char>>::empty() =~= text::texts(names@));
    names
}

/// Position of a name in a list of names.
fn position_of(names: &[Vec<char>], name: &[char]) -> (r: usize)
    ensures
        r == position(text::views(names@), name@, 0),
        r <= names@.len(),
        r < names@.len() <==> text::views(names@).contains(name@),
        r < names@.len() ==> text::views(names@)[r as int] == name@,
{
    let ghost views = text::views(names@);
    let mut i: usize = 0;
    while i < names.len()
        invariant
            i <= names@.len(),
            views == text::views(names@),
            position(views, name@, 0) == position(views, name@, i as int),
            forall|j: int| 0 <= j < i ==> views[j] != name@,
        decreases names@.len() - i,
    {
        assert(views[i as int] == names@[i as int]@);
        if text::same_chars(names[i].as_slice(), name) {
            assert(views.contains(name@));
            return i;
        }
        i = i + 1;
    }
    i
}

/// The cast registered last for a name.
fn find_cast(casts: &[(String, String)], name: &[char]) -> (r: Option<String>)
    ensures
        text::opt_text(r) == cast_of(cast_views(casts@), name@, casts@.len() as int),
{
    let mut n: usize = casts.len();
    while n > 0
        invariant
            n <= casts@.len(),
            cast_of(cast_views(casts@), name@, casts@.len() as int) == cast_of(
                cast_views(casts@),
                name@,
                n as int,
            ),
        decreases n,
    {
        if text::is_text(name, casts[n - 1].0.as_str()) {
            return Some(casts[n - 1].1.clone());
        }
        n = n - 1;
    }
    None
}

/// Adding names keeps the ones seen, in their places.
proof fn lemma_distinct_extends(seen: Seq<Seq<char>>, names: Seq<Seq<char>>)
    ensures
        seen.len() <= distinct_onto(seen, names).len(),
        forall|i: int| 0 <= i < seen.len() ==> #[trigger] distinct_onto(seen, names)[i] == seen[i],
    decreases names.len(),
{
    if names.len() > 0 {
        if seen.contains(names[0]) {
            lemma_distinct_extends(seen, names.drop_first());
        } else {
            lemma_distinct_extends(seen.push(names[0]), names.drop_first());
            assert forall|i: int| 0 <= i < seen.len() implies #[trigger] distinct_onto(seen, names)[i]
                == seen[i] by {
                assert(seen.push(names[0])[i] == seen[i]);
            }
        }
    }
}

/// A name that stands in a prefix has the same position in the whole list.
proof fn lemma_position_in_prefix(seen: Seq<Seq<char>>, order: Seq<Seq<char>>, name: Seq<char>, i: int)
    requires
        0 <= i <= seen.len() <= order.len(),
        forall|j: int| 0 <= j < seen.len() ==> order[j] == #[trigger] seen[j],
        position(seen, name, i) < seen.len(),
    ensures
        position(order, name, i) == position(seen, name, i),
    decreases seen.len() - i,
{
    if i < seen.len() {
        assert(order[i] == seen[i]);
        if seen[i] != name {
            lemma_position_in_prefix(seen, order, name, i + 1);
        }
    }
}

proof fn lemma_position_of_last(names: Seq<Seq<char>>, name: Seq<char>, i: int)
    requires
        0 <= i <= names.len(),
        !names.contains(name),
    ensures
        position(names.push(name), name, i) == names.len(),
    decreases names.len() - i,
{
    if i < names.len() {
        assert(names.push(name)[i] == names[i]);
        assert(names.contains(names[i]));
        lemma_position_of_last(names, name, i + 1);
    }
}

/// Replace placeholders with `$1..$N`, numbered in order of the first
/// appearance of each distinct name.
pub fn named_to_positional(sql: &str) -> (r: String)
    ensures
        r@ == positional(sql@, Seq::empty()),
{
    let casts: Vec<(String, String)> = Vec::new();
    assert(cast_views(casts@) =~= Seq::<(Seq<char>, Seq<char>)>::empty());
    named_to_positional_with_casts(sql, casts.as_slice())
}

/// Like [`named_to_positional`], with an explicit `::type` cast behind every
/// placeholder whose name has a registered cast.
pub fn named_to_positional_with_casts(sql: &str, casts: &[(String, String)]) -> (r: String)
    ensures
        r@ == positional(sql@, cast_views(casts@)),
{
    let ghost order = placeholder_order(sql@);
    let ghost types = cast_views(casts@);
    let chars = text::chars_of(sql);
    let mut out: String = String::new();
    let mut seen: Vec<Vec<char>> = Vec::new();
    let mut i: usize = 0;
    proof {
        assert(text::views(seen@) =~= Seq::<Seq<char>>::empty());
        assert(out@ + positional_from(sql@, 0, order, types) =~= positional(sql@, types));
    }
    while i < chars.len()
        invariant
            i <= chars@.len(),
            chars@ == sql@,
            types == cast_views(casts@),
            order == placeholder_order(sql@),
            seen@.len() <= i,
            distinct_onto(text::views(seen@), names_from(sql@, i as int)) == order,
            out@ + positional_from(sql@, i as int, order, types) == positional(sql@, types),
        decreases chars@.len() - i,
    {
        match find_param_name(chars.as_slice(), i) {
            Some((next, name)) => {
                let ghost before = text::views(seen@);
                let ghost start = out@;
                let k: usize = position_of(seen.as_slice(), name.as_slice());
                let rank: u64 = k as u64 + 1;
                out.push('$');
                number::push_decimal(&mut out, rank);
                let cast = find_cast(casts, name.as_slice());
                if let Some(ty) = &cast {
                    out.append("::");
                    out.append(ty.as_str());
                }
                let known: bool = k < seen.len();
                let ghost name_view = name@;
                if !known {
                    seen.push(name);
                }
                proof {
                    let names = names_from(sql@, i as int);
                    assert(names =~= seq![name_view] + names_from(sql@, next as int));
                    assert(names.drop_first() =~= names_from(sql@, next as int));
                    if known {
                        assert(text::views(seen@) == before);
                    } else {
                        assert(text::views(seen@) =~= before.push(name_view));
                        lemma_position_of_last(before, name_view, 0);
                    }
                    lemma_distinct_extends(text::views(seen@), names_from(sql@, next as int));
                    lemma_position_in_prefix(text::views(seen@), order, name_view, 0);
                    assert(out@ =~= start + numbered(name_view, order, types));
                    assert(out@ + positional_from(sql@, next as int, order, types) =~= start
                        + positional_from(sql@, i as int, order, types));
                }
                i = next;
            },
            None => {
                let ghost start = out@;
                out.push(chars[i]);
                proof {
                    assert(out@ + positional_from(sql@, i + 1, order, types) =~= start
                        + positional_from(sql@, i as int, order, types));
                }
                i = i + 1;
            },
        }
    }
    assert(out@ + Seq::<char>::empty() =~= out@);
    out
}

// ---------------------------------------------------------------------
// the query builder
// ---------------------------------------------------------------------

/// What a [`Query`] holds.
#[verifier::ext_equal]
pub struct QueryModel {
    pub table_name: Seq<char>,
    pub columns: Seq<Seq<char>>,
    pub conditions: Seq<Seq<char>>,
    pub groups: Seq<Seq<char>>,
    pub groups_having: Seq<Seq<char>>,
    pub order: Seq<Seq<char>>,
    pub limit: Option<int>,
    /// Named parameters in the order they were set.
    pub params: Seq<(Seq<char>, Cell)>,
    /// SQL types by parameter name, in the order they were registered.
    pub casts: Seq<(Seq<char>, Seq<char>)>,
}

impl QueryModel {
    /// A query on `table_name` with nothing set.
    pub open spec fn on(table_name: Seq<char>) -> QueryModel {
        QueryModel {
            table_name,
            columns: Seq::empty(),
            conditions: Seq::empty(),
            groups: Seq::empty(),
            groups_having: Seq::empty(),
            order: Seq::empty(),
            limit: None,
            params: Seq::empty(),
            casts: Seq::empty(),
        }
    }

    pub open spec fn with_column(self, column: Seq<char>) -> QueryModel {
        QueryModel { columns: self.columns.push(column), ..self }
    }

    pub open spec fn with_condition(self, condition: Seq<char>) -> QueryModel {
        QueryModel { conditions: self.conditions.push(condition), ..self }
    }

    pub open spec fn with_param(self, name: Seq<char>, value: Cell) -> QueryModel {
        QueryModel { params: self.params.push((name, value)), ..self }
    }

    pub open spec fn with_cast(self, name: Seq<char>, sql_type: Seq<char>) -> QueryModel {
        QueryModel { casts: self.casts.push((name, sql_type)), ..self }
    }

    pub open spec fn with_group(self, group: Seq<char>) -> QueryModel {
        QueryModel { groups: self.groups.push(group), ..self }
    }

    pub open spec fn with_having(self, condition: Seq<char>) -> QueryModel {
        QueryModel { groups_having: self.groups_having.push(condition), ..self }
    }

    pub open spec fn with_order(self, column: Seq<char>) -> QueryModel {
        QueryModel { order: self.order.push(column), ..self }
    }

    /// The SQL text with named placeholders.
    pub open spec fn sql(self) -> Seq<char> {
        text::trim_end(
            "SELECT "@ + text::join(self.columns, ", "@) + " "@ + "FROM "@ + self.table_name + " "@ + clause(
                "WHERE "@,
                self.conditions,
                " AND "@,
            ) + (if self.groups.len() == 0 {
                Seq::empty()
            } else {
                clause("GROUP BY "@, self.groups, ", "@) + clause("HAVING "@, self.groups_having, " AND "@)
            }) + clause("ORDER BY "@, self.order, ", "@) + (match self.limit {
                Some(n) => "LIMIT "@ + number::signed_decimal(n) + " "@,
                None => Seq::empty(),
            }),
        )
    }
}

/// A clause of a query: nothing when it has no items.
pub open spec fn clause(keyword: Seq<char>, items: Seq<Seq<char>>, sep: Seq<char>) -> Seq<char> {
    if items.len() == 0 {
        Seq::empty()
    } else {
        keyword + text::join(items, sep) + " "@
    }
}

/// The value set last for `name` among the first `n` parameters.
pub open spec fn value_of(params: Seq<(Seq<char>, Cell)>, name: Seq<char>, n: int) -> Option<Cell>
    decreases n,
{
    if n <= 0 {
        None
    } else if params[n - 1].0 == name {
        Some(params[n - 1].1)
    } else {
        value_of(params, name, n - 1)
    }
}

/// The values of the first `n` names; a name without a value is skipped.
pub open spec fn values_of(order: Seq<Seq<char>>, params: Seq<(Seq<char>, Cell)>, n: int) -> Seq<Cell>
    decreases n,
{
    if n <= 0 {
        Seq::empty()
    } else {
        match value_of(params, order[n - 1], params.len() as int) {
            Some(v) => values_of(order, params, n - 1).push(v),
            None => values_of(order, params, n - 1),
        }
    }
}

/// The names and values of a list of parameters.
pub open spec fn param_views(params: Seq<(String, Param)>) -> Seq<(Seq<char>, Cell)> {
    params.map_values(|p: (String, Param)| (p.0@, p.1@))
}

/// Query builder.
#[derive(Debug)]
pub struct Query {
    table_name: String,
    columns: Vec<String>,
    conditions: Vec<String>,
    groups: Vec<String>,
    groups_having: Vec<String>,
    order: Vec<String>,
    limit: Option<i64>,
    params: Vec<(String, Param)>,
    casts: Vec<(String, String)>,
}

impl View for Query {
    type V = QueryModel;

    closed spec fn view(&self) -> QueryModel {
        QueryModel {
            table_name: self.table_name@,
            columns: text::texts(self.columns@),
            conditions: text::texts(self.conditions@),
            groups: text::texts(self.groups@),
            groups_having: text::texts(self.groups_having@),
            order: text::texts(self.order@),
            limit: (match self.limit {
                Some(n) => Some(n as int),
                None => None,
            }),
            params: param_views(self.params@),
            casts: cast_views(self.casts@),
        }
    }
}

fn push_clause(out: &mut String, keyword: &str, items: &[String], sep: &str)
    ensures
        final(out)@ == old(out)@ + clause(keyword@, text::texts(items@), sep@),
{
    if items.len() > 0 {
        out.append(keyword);
        text::push_joined(out, items, sep);
        out.append(" ");
    }
    assert(out@ =~= old(out)@ + clause(keyword@, text::texts(items@), sep@));
}

impl Query {
    /// A query on `table_name`.
    pub fn new(table_name: &str) -> (r: Query)
        ensures
            r@ == QueryModel::on(table_name@),
    {
        let q = Query {
            table_name: String::from_str(table_name),
            columns: Vec::new(),
            conditions: Vec::new(),
            groups: Vec::new(),
            groups_having: Vec::new(),
            order: Vec::new(),
            limit: None,
            params: Vec::new(),
            casts: Vec::new(),
        };
        assert(q@ =~= QueryModel::on(table_name@));
        q
    }

    /// Add a column.
    pub fn column(self, column: &str) -> (r: Query)
        ensures
            r@ == self@.with_column(column@),
    {
        let mut q = self;
        q.columns.push(String::from_str(column));
        assert(q@ =~= self@.with_column(column@));
        q
    }

    /// Replace the columns.
    pub fn set_columns(self, columns: &[&str]) -> (r: Query)
        ensures
            r@ == (QueryModel { columns: columns@.map_values(|c: &str| c@), ..self@ }),
    {
        let mut q = self;
        let mut list: Vec<String> = Vec::new();
        let mut i: usize = 0;
        while i < columns.len()
            invariant
                i <= columns@.len(),
                list@.len() == i,
                forall|j: int| 0 <= j < i ==> (#[trigger] list@[j])@ == columns@[j]@,
            decreases columns@.len() - i,
        {
            list.push(String::from_str(columns[i]));
            i = i + 1;
        }
        q.columns = list;
        assert(text::texts(list@) =~= columns@.map_values(|c: &str| c@));
        q
    }

    /// Add a condition.
    pub fn condition(self, condition: &str) -> (r: Query)
        ensures
            r@ == self@.with_condition(condition@),
    {
        let mut q = self;
        q.conditions.push(String::from_str(condition));
        assert(q@ =~= self@.with_condition(condition@));
        q
    }

    /// Set a named parameter.
    pub fn param(self, name: &str, param: Param) -> (r: Query)
        ensures
            r@ == self@.with_param(name@, param@),
    {
        let mut q = self;
        q.params.push((String::from_str(name), param));
        assert(q@ =~= self@.with_param(name@, param@));
        q
    }

    /// Register an explicit SQL type for a parameter name, used by
    /// [`Query::to_postgres`].
    pub fn cast(self, name: &str, sql_type: &str) -> (r: Query)
        ensures
            r@ == self@.with_cast(name@, sql_type@),
    {
        let mut q = self;
        q.casts.push((String::from_str(name), String::from_str(sql_type)));
        assert(q@ =~= self@.with_cast(name@, sql_type@));
        q
    }

    /// Add a grouping column.
    pub fn group_by(self, group: &str) -> (r: Query)
        ensures
            r@ == self@.with_group(group@),
    {
        let mut q = self;
        q.groups.push(String::from_str(group));
        assert(q@ =~= self@.with_group(group@));
        q
    }

    /// Add a condition on the groups and its parameter.
    pub fn group_having(self, condition: &str, name: &str, param: Param) -> (r: Query)
        ensures
            r@ == self@.with_having(condition@).with_param(name@, param@),
    {
        let mut q = self;
        q.groups_having.push(String::from_str(condition));
        q.params.push((String::from_str(name), param));
        assert(q@ =~= self@.with_having(condition@).with_param(name@, param@));
        q
    }

    /// Add an ordering column.
    pub fn order_by(self, column: &str, desc: bool) -> (r: Query)
        ensures
            r@ == self@.with_order(if desc {
                column@ + " DESC"@
            } else {
                column@
            }),
    {
        let mut q = self;
        let mut s = String::from_str(column);
        if desc {
            s.append(" DESC");
        }
        q.order.push(s);
        assert(q@ =~= self@.with_order(s@));
        q
    }

    /// Limit the number of rows.
    pub fn limit(self, limit: i64) -> (r: Query)
        ensures
            r@ == (QueryModel { limit: Some(limit as int), ..self@ }),
    {
        let mut q = self;
        q.limit = Some(limit);
        assert(q@ =~= (QueryModel { limit: Some(limit as int), ..self@ }));
        q
    }

    /// SQL text with named placeholders.
    pub fn to_sql(&self) -> (r: String)
        ensures
            r@ == self@.sql(),
    {
        let mut sql = String::from_str("SELECT ");
        text::push_joined(&mut sql, self.columns.as_slice(), ", ");
        sql.append(" ");
        sql.append("FROM ");
        sql.append(self.table_name.as_str());
        sql.append(" ");
        push_clause(&mut sql, "WHERE ", self.conditions.as_slice(), " AND ");
        let ghost head = sql@;
        if self.groups.len() > 0 {
            push_clause(&mut sql, "GROUP BY ", self.groups.as_slice(), ", ");
            push_clause(&mut sql, "HAVING ", self.groups_having.as_slice(), " AND ");
        }
        assert(sql@ =~= head + (if self@.groups.len() == 0 {
            Seq::empty()
        } else {
            clause("GROUP BY "@, self@.groups, ", "@) + clause("HAVING "@, self@.groups_having, " AND "@)
        }));
        push_clause(&mut sql, "ORDER BY ", self.order.as_slice(), ", ");
        let ghost body = sql@;
        if let Some(limit) = self.limit {
            sql.append("LIMIT ");
            number::push_signed(&mut sql, limit);
            sql.append(" ");
        }
        assert(sql@ =~= body + (match self@.limit {
            Some(n) => "LIMIT "@ + number::signed_decimal(n) + " "@,
            None => Seq::empty(),
        }));
        let chars = text::chars_of(sql.as_str());
        text::text_of(text::trimmed_end(chars.as_slice()))
    }

    /// SQL text with numbered placeholders and the registered casts.
    pub fn to_postgres(&self) -> (r: String)
        ensures
            r@ == positional(self@.sql(), self@.casts),
    {
        let sql = self.to_sql();
        named_to_positional_with_casts(sql.as_str(), self.casts.as_slice())
    }

    /// The value set last for a name.
    fn value_for(&self, name: &[char]) -> (r: Option<Param>)
        ensures
            r matches Some(p) ==> value_of(self@.params, name@, self@.params.len() as int) == Some(p@),
            r is None ==> value_of(self@.params, name@, self@.params.len() as int) is None,
    {
        let mut n: usize = self.params.len();
        while n > 0
            invariant
                n <= self.params@.len(),
                self@.params == param_views(self.params@),
                value_of(self@.params, name@, self@.params.len() as int) == value_of(self@.params, name@, n as int),
            decreases n,
        {
            if text::is_text(name, self.params[n - 1].0.as_str()) {
                return Some(self.params[n - 1].1.copy());
            }
            n = n - 1;
        }
        None
    }

    /// Parameters in `$n` order: one value per distinct parameter name, in
    /// order of first appearance in the SQL text.
    pub fn parameters(&self) -> (r: Vec<Param>)
        ensures
            executor::cells(r@) == values_of(
                placeholder_order(self@.sql()),
                self@.params,
                placeholder_order(self@.sql()).len() as int,
            ),
    {
        let sql = self.to_sql();
        let names = param_names_in_order(sql.as_str());
        let ghost all = names_from(sql@, 0);
        let ghost order = placeholder_order(sql@);
        let mut seen: Vec<Vec<char>> = Vec::new();
        let mut out: Vec<Param> = Vec::new();
        let mut i: usize = 0;
        proof {
            assert(text::views(seen@) =~= Seq::<Seq<char>>::empty());
            assert(all.skip(0) =~= all);
            assert(executor::cells(out@) =~= Seq::<Cell>::empty());
        }
        while i < names.len()
            invariant
                i <= names@.len(),
                all == text::texts(names@),
                order == placeholder_order(sql@),
                sql@ == self@.sql(),
                distinct_onto(text::views(seen@), all.skip(i as int)) == order,
                executor::cells(out@) == values_of(order, self@.params, seen@.len() as int),
            decreases names@.len() - i,
        {
            let name = text::chars_of(names[i].as_str());
            let ghost name_view = name@;
            let ghost rest = all.skip(i as int);
            let ghost before = text::views(seen@);
            proof {
                assert(rest[0] == all[i as int]);
                assert(rest.drop_first() =~= all.skip(i + 1));
            }
            let k: usize = position_of(seen.as_slice(), name.as_slice());
            if k == seen.len() {
                let value = self.value_for(name.as_slice());
                seen.push(name);
                proof {
                    assert(text::views(seen@) =~= before.push(name_view));
                    lemma_distinct_extends(text::views(seen@), all.skip(i + 1));
                    assert(order[before.len() as int] == text::views(seen@)[before.len() as int]);
                }
                let ghost values = executor::cells(out@);
                if let Some(param) = value {
                    out.push(param);
                    assert(executor::cells(out@) =~= values.push(param@));
                }
            }
            i = i + 1;
        }
        assert(all.skip(i as int) =~= Seq::<Seq<char>>::empty());
        assert(text::views(seen@).len() == seen@.len());
        out
    }
}

// ---------------------------------------------------------------------
// the strike queries
// ---------------------------------------------------------------------

/// `q` restricted to a time interval.
pub open spec fn timed(q: QueryModel, interval: TimeInterval) -> QueryModel {
    q.with_condition("\"timestamp\" >= %(start_time)s"@).with_param(
        "start_time"@,
        Cell::Timestamp(interval.start as int),
    ).with_cast("start_time"@, "timestamptz"@).with_condition("\"timestamp\" < %(end_time)s"@).with_param(
        "end_time"@,
        Cell::Timestamp(interval.end as int),
    ).with_cast("end_time"@, "timestamptz"@)
}

/// `q` restricted to a region.
pub open spec fn regional(q: QueryModel, region: Option<i64>) -> QueryModel {
    match region {
        Some(r) => q.with_condition(REGION_CONDITION@).with_param("region"@, Cell::Int(r as int)).with_cast(
            "region"@,
            "smallint"@,
        ),
        None => q,
    }
}

/// `q` restricted to an area: its bounding box, and the geometry itself when
/// that is not the box.
pub open spec fn located(q: QueryModel, area: Area) -> QueryModel {
    let boxed = q.with_condition("ST_GeomFromWKB(%(envelope)s, %(srid)s) && geog"@).with_param(
        "envelope"@,
        Cell::Bytea(area.envelope_wkb@),
    ).with_cast("srid"@, "integer"@);
    match area.geometry_wkb {
        Some(geometry) => boxed.with_condition(
            "ST_Intersects(ST_GeomFromWKB(%(geometry)s, %(srid)s), ST_Transform(geog::geometry, %(srid)s))"@,
        ).with_param("geometry"@, Cell::Bytea(geometry@)),
        None => boxed,
    }
}

/// `q` restricted to a time interval, a region and an area.
pub open spec fn selected(
    q: QueryModel,
    interval: TimeInterval,
    area: Option<&Area>,
    region: Option<i64>,
) -> QueryModel {
    let r = regional(timed(q, interval), region);
    match area {
        Some(a) => located(r, *a),
        None => r,
    }
}

/// `q` grouped by raster cell, keeping cells above a count threshold.
pub open spec fn rastered(q: QueryModel, count_threshold: i64) -> QueryModel {
    let grouped = q.with_group("rx"@).with_group("ry"@);
    if count_threshold > 0 {
        grouped.with_having("count(*) > %(count_threshold)s"@).with_param(
            "count_threshold"@,
            Cell::Int(count_threshold as int),
        ).with_cast("count_threshold"@, "bigint"@)
    } else {
        grouped
    }
}

/// A query on the strikes table with the `srid` parameter.
pub open spec fn strikes_with(columns: Seq<Seq<char>>, srid: int) -> QueryModel {
    (QueryModel { columns, ..QueryModel::on("strikes"@) }).with_param("srid"@, Cell::Int(srid)).with_cast(
        "srid"@,
        "integer"@,
    )
}

/// The columns of a full strike.
pub open spec fn strike_columns() -> Seq<Seq<char>> {
    seq![
        "id"@,
        "\"timestamp\""@,
        "nanoseconds"@,
        "ST_X(ST_Transform(geog::geometry, %(srid)s)) AS x"@,
        "ST_Y(ST_Transform(geog::geometry, %(srid)s)) AS y"@,
        "altitude"@,
        "amplitude"@,
        "error2d"@,
        "stationcount"@,
    ]
}

/// The columns that identify a strike.
pub open spec fn key_columns() -> Seq<Seq<char>> {
    seq![
        "\"timestamp\""@,
        "nanoseconds"@,
        "ST_X(ST_Transform(geog::geometry, %(srid)s)) AS x"@,
        "ST_Y(ST_Transform(geog::geometry, %(srid)s)) AS y"@,
        "error2d"@,
    ]
}

/// The select query.
pub open spec fn select_model(interval: TimeInterval, area: Option<&Area>, region: Option<i64>, srid: int) -> QueryModel {
    selected(strikes_with(strike_columns(), srid), interval, area, region).with_order("id"@)
}

/// The strikes query.
pub open spec fn strikes_model(interval: TimeInterval, id_interval: Option<IdInterval>) -> QueryModel {
    let q = timed(strikes_with(strike_columns(), 4326), interval);
    (match id_interval {
        Some(id) => q.with_condition("id >= %(start_id)s"@).with_param(
            "start_id"@,
            Cell::Int(id.start as int),
        ).with_cast("start_id"@, "bigint"@),
        None => q,
    }).with_order("id"@)
}

/// The columns of a grid cell counted from the lower left corner of the grid.
pub open spec fn grid_columns() -> Seq<Seq<char>> {
    seq![
        "TRUNC((ST_X(ST_Transform(geog::geometry, %(srid)s)) - %(xmin)s) / %(xdiv)s)::integer AS rx"@,
        "TRUNC((ST_Y(ST_Transform(geog::geometry, %(srid)s)) - %(ymin)s) / %(ydiv)s)::integer AS ry"@,
        "count(*) AS strike_count"@,
        "max(\"timestamp\") as \"timestamp\""@,
    ]
}

/// The grid query.
pub open spec fn grid_model(grid: Grid, interval: TimeInterval, region: Option<i64>, count_threshold: i64) -> QueryModel {
    rastered(
        regional(
            timed(
                strikes_with(grid_columns(), 4326).with_param("xmin"@, Cell::Float(grid.x_min)).with_cast(
                    "xmin"@,
                    "double precision"@,
                ).with_param("xdiv"@, Cell::Float(grid.x_div)).with_cast("xdiv"@, "double precision"@).with_param(
                    "ymin"@,
                    Cell::Float(grid.y_min),
                ).with_cast("ymin"@, "double precision"@).with_param("ydiv"@, Cell::Float(grid.y_div)).with_cast(
                    "ydiv"@,
                    "double precision"@,
                ).with_condition("ST_GeomFromWKB(%(envelope)s, %(envelope_srid)s) && geog"@).with_param(
                    "envelope"@,
                    Cell::Bytea(wkb::linear_ring_bytes(grid.bounds().corners())),
                ).with_param("envelope_srid"@, Cell::Int(4326)).with_cast("envelope_srid"@, "integer"@),
                interval,
            ),
            region,
        ),
        count_threshold,
    )
}

/// The columns of a world-wide grid cell, rounded to half cells.
pub open spec fn global_columns() -> Seq<Seq<char>> {
    seq![
        "ROUND((ST_X(ST_Transform(geog::geometry, %(srid)s)) - %(xdiv)s * 0.5) / %(xdiv)s)::integer AS rx"@,
        "ROUND((ST_Y(ST_Transform(geog::geometry, %(srid)s)) - %(ydiv)s * 0.5) / %(ydiv)s)::integer AS ry"@,
        "count(*) AS strike_count"@,
        "max(\"timestamp\") as \"timestamp\""@,
    ]
}

/// The world-wide grid query.
pub open spec fn global_model(grid: Grid, interval: TimeInterval, count_threshold: i64) -> QueryModel {
    rastered(
        timed(
            strikes_with(global_columns(), 4326).with_param("xdiv"@, Cell::Float(grid.x_div)).with_cast(
                "xdiv"@,
                "double precision"@,
            ).with_param("ydiv"@, Cell::Float(grid.y_div)).with_cast("ydiv"@, "double precision"@),
            interval,
        ),
        count_threshold,
    )
}

/// The histogram query.
pub open spec fn histogram_model(
    interval: TimeInterval,
    binsize: i64,
    region: Option<i64>,
    envelope: Option<&Grid>,
) -> QueryModel {
    let columns = seq![
        "-extract( epoch from %(end_time)s - \"timestamp\")::int/60/%(binsize)s as interval"@,
        "count(*)"@,
    ];
    let base = (QueryModel { columns, ..QueryModel::on("strikes"@) }).with_param(
        "end_time"@,
        Cell::Timestamp(interval.end as int),
    ).with_cast("end_time"@, "timestamptz"@).with_param("binsize"@, Cell::Int(binsize as int)).with_cast(
        "binsize"@,
        "integer"@,
    );
    let q = regional(timed(base, interval).with_group("interval"@).with_order("interval"@), region);
    match envelope {
        Some(grid) => q.with_condition(
            "ST_SetSRID(CAST(%(envelope)s AS geometry), %(envelope_srid)s) && geog"@,
        ).with_param("envelope"@, Cell::Bytea(wkb::linear_ring_bytes(grid.bounds().corners()))).with_cast(
            "envelope"@,
            "bytea"@,
        ).with_param("envelope_srid"@, Cell::Int(4326)).with_cast("envelope_srid"@, "integer"@),
        None => q,
    }
}

fn add_time_interval(q: Query, time_interval: &TimeInterval) -> (r: Query)
    ensures
        r@ == timed(q@, *time_interval),
{
    q.condition("\"timestamp\" >= %(start_time)s").param("start_time", Param::Timestamp(time_interval.start)).cast(
        "start_time",
        "timestamptz",
    ).condition("\"timestamp\" < %(end_time)s").param("end_time", Param::Timestamp(time_interval.end)).cast(
        "end_time",
        "timestamptz",
    )
}

fn add_region(q: Query, region: Option<i64>) -> (r: Query)
    ensures
        r@ == regional(q@, region),
{
    match region {
        Some(id) => q.condition(REGION_CONDITION).param("region", Param::Int(id)).cast("region", "smallint"),
        None => q,
    }
}

fn add_geometry(q: Query, area: &Area) -> (r: Query)
    ensures
        r@ == located(q@, *area),
{
    let boxed = q.condition("ST_GeomFromWKB(%(envelope)s, %(srid)s) && geog").param(
        "envelope",
        Param::Bytea(slice_to_vec(area.envelope_wkb.as_slice())),
    ).cast("srid", "integer");
    match &area.geometry_wkb {
        Some(geometry) => boxed.condition(
            "ST_Intersects(ST_GeomFromWKB(%(geometry)s, %(srid)s), ST_Transform(geog::geometry, %(srid)s))",
        ).param("geometry", Param::Bytea(slice_to_vec(geometry.as_slice()))),
        None => boxed,
    }
}

fn add_select_conditions(q: Query, time_interval: &TimeInterval, area: Option<&Area>, region: Option<i64>) -> (r: Query)
    ensures
        r@ == selected(q@, *time_interval, area, region),
{
    let located = add_region(add_time_interval(q, time_interval), region);
    match area {
        Some(a) => add_geometry(located, a),
        None => located,
    }
}

fn add_raster_groups(q: Query, count_threshold: i64) -> (r: Query)
    ensures
        r@ == rastered(q@, count_threshold),
{
    let grouped = q.group_by("rx").group_by("ry");
    if count_threshold > 0 {
        grouped.group_having("count(*) > %(count_threshold)s", "count_threshold", Param::Int(count_threshold)).cast(
            "count_threshold",
            "bigint",
        )
    } else {
        grouped
    }
}

fn strikes_query_with(columns: &[&str], srid: i64) -> (r: Query)
    ensures
        r@ == strikes_with(columns@.map_values(|c: &str| c@), srid as int),
{
    Query::new("strikes").set_columns(columns).param("srid", Param::Int(srid)).cast("srid", "integer")
}

fn full_strike_query(srid: i64) -> (r: Query)
    ensures
        r@ == strikes_with(strike_columns(), srid as int),
{
    let columns = [
        "id",
        "\"timestamp\"",
        "nanoseconds",
        "ST_X(ST_Transform(geog::geometry, %(srid)s)) AS x",
        "ST_Y(ST_Transform(geog::geometry, %(srid)s)) AS y",
        "altitude",
        "amplitude",
        "error2d",
        "stationcount",
    ];
    assert(columns@.map_values(|c: &str| c@) =~= strike_columns());
    strikes_query_with(&columns, srid)
}

/// Select strikes: time interval, optional region and area, ordered by id.
pub fn select_query(time_interval: &TimeInterval, area: Option<&Area>, region: Option<i64>, srid: i64) -> (r: Query)
    ensures
        r@ == select_model(*time_interval, area, region, srid as int),
{
    add_select_conditions(full_strike_query(srid), time_interval, area, region).order_by("id", false)
}

/// Select the fields that identify a strike.
pub fn select_key_query(time_interval: &TimeInterval, area: Option<&Area>, region: Option<i64>, srid: i64) -> (r: Query)
    ensures
        r@ == selected(strikes_with(key_columns(), srid as int), *time_interval, area, region),
{
    let columns = [
        "\"timestamp\"",
        "nanoseconds",
        "ST_X(ST_Transform(geog::geometry, %(srid)s)) AS x",
        "ST_Y(ST_Transform(geog::geometry, %(srid)s)) AS y",
        "error2d",
    ];
    assert(columns@.map_values(|c: &str| c@) =~= key_columns());
    add_select_conditions(strikes_query_with(&columns, srid), time_interval, area, region)
}

/// Select strikes from an id on: time interval, optional id interval, ordered
/// by id.
pub fn strikes_query(time_interval: &TimeInterval, id_interval: Option<IdInterval>) -> (r: Query)
    ensures
        r@ == strikes_model(*time_interval, id_interval),
{
    let q = add_time_interval(full_strike_query(4326), time_interval);
    let q = match id_interval {
        Some(id) => q.condition("id >= %(start_id)s").param("start_id", Param::Int(id.start)).cast(
            "start_id",
            "bigint",
        ),
        None => q,
    };
    q.order_by("id", false)
}

/// Count strikes per cell of a grid, with a region condition when a region is
/// given: regions overlap, and a strike must not be counted twice.
pub fn grid_query(grid: &Grid, time_interval: &TimeInterval, region: Option<i64>, count_threshold: i64) -> (r: Query)
    ensures
        r@ == grid_model(*grid, *time_interval, region, count_threshold),
{
    let envelope = grid.envelope().as_wkb_linear_ring();
    let columns = [
        "TRUNC((ST_X(ST_Transform(geog::geometry, %(srid)s)) - %(xmin)s) / %(xdiv)s)::integer AS rx",
        "TRUNC((ST_Y(ST_Transform(geog::geometry, %(srid)s)) - %(ymin)s) / %(ydiv)s)::integer AS ry",
        "count(*) AS strike_count",
        "max(\"timestamp\") as \"timestamp\"",
    ];
    assert(columns@.map_values(|c: &str| c@) =~= grid_columns());
    let q = strikes_query_with(&columns, 4326).param("xmin", Param::Float(grid.x_min)).cast(
        "xmin",
        "double precision",
    ).param("xdiv", Param::Float(grid.x_div)).cast("xdiv", "double precision").param(
        "ymin",
        Param::Float(grid.y_min),
    ).cast("ymin", "double precision").param("ydiv", Param::Float(grid.y_div)).cast("ydiv", "double precision").condition(
        "ST_GeomFromWKB(%(envelope)s, %(envelope_srid)s) && geog",
    ).param("envelope", Param::Bytea(envelope)).param("envelope_srid", Param::Int(4326)).cast(
        "envelope_srid",
        "integer",
    );
    add_raster_groups(add_region(add_time_interval(q, time_interval), region), count_threshold)
}

/// Count strikes per cell of the world-wide grid, without an envelope filter.
pub fn global_grid_query(grid: &Grid, time_interval: &TimeInterval, count_threshold: i64) -> (r: Query)
    ensures
        r@ == global_model(*grid, *time_interval, count_threshold),
{
    let columns = [
        "ROUND((ST_X(ST_Transform(geog::geometry, %(srid)s)) - %(xdiv)s * 0.5) / %(xdiv)s)::integer AS rx",
        "ROUND((ST_Y(ST_Transform(geog::geometry, %(srid)s)) - %(ydiv)s * 0.5) / %(ydiv)s)::integer AS ry",
        "count(*) AS strike_count",
        "max(\"timestamp\") as \"timestamp\"",
    ];
    assert(columns@.map_values(|c: &str| c@) =~= global_columns());
    let q = strikes_query_with(&columns, 4326).param("xdiv", Param::Float(grid.x_div)).cast(
        "xdiv",
        "double precision",
    ).param("ydiv", Param::Float(grid.y_div)).cast("ydiv", "double precision");
    add_raster_groups(add_time_interval(q, time_interval), count_threshold)
}

/// Count strikes per time bin, counted back from the end of the interval.
pub fn histogram_query(time_interval: &TimeInterval, binsize: i64, region: Option<i64>, envelope: Option<&Grid>) -> (r:
    Query)
    ensures
        r@ == histogram_model(*time_interval, binsize, region, envelope),
{
    let columns = [
        "-extract( epoch from %(end_time)s - \"timestamp\")::int/60/%(binsize)s as interval",
        "count(*)",
    ];
    assert(columns@.map_values(|c: &str| c@) =~= seq![
        "-extract( epoch from %(end_time)s - \"timestamp\")::int/60/%(binsize)s as interval"@,
        "count(*)"@,
    ]);
    let base = Query::new("strikes").set_columns(&columns).param(
        "end_time",
        Param::Timestamp(time_interval.end),
    ).cast("end_time", "timestamptz").param("binsize", Param::Int(binsize)).cast("binsize", "integer");
    let q = add_region(
        add_time_interval(base, time_interval).group_by("interval").order_by("interval", false),
        region,
    );
    match envelope {
        Some(grid) => q.condition("ST_SetSRID(CAST(%(envelope)s AS geometry), %(envelope_srid)s) && geog").param(
            "envelope",
            Param::Bytea(grid.envelope().as_wkb_linear_ring()),
        ).cast("envelope", "bytea").param("envelope_srid", Param::Int(4326)).cast("envelope_srid", "integer"),
        None => q,
    }
}

// ---------------------------------------------------------------------
// laws
// ---------------------------------------------------------------------

/// When every placeholder has a value, the parameter list and the numbered
/// placeholders agree: there is one value per number, and value `k` belongs to
/// the name that is written `$k+1`.
pub proof fn parameters_match_the_numbers(q: QueryModel, k: int)
    requires
        forall|name: Seq<char>|
            #[trigger] placeholder_order(q.sql()).contains(name) ==> value_of(q.params, name, q.params.len() as int) is Some,
        0 <= k < placeholder_order(q.sql()).len(),
    ensures
        values_of(placeholder_order(q.sql()), q.params, placeholder_order(q.sql()).len() as int).len()
            == placeholder_order(q.sql()).len(),
        Some(values_of(placeholder_order(q.sql()), q.params, placeholder_order(q.sql()).len() as int)[k]) == value_of(
            q.params,
            placeholder_order(q.sql())[k],
            q.params.len() as int,
        ),
        position(placeholder_order(q.sql()), placeholder_order(q.sql())[k], 0) == k,
{
    let order = placeholder_order(q.sql());
    assert forall|i: int| 0 <= i < order.len() implies value_of(
        q.params,
        #[trigger] order[i],
        q.params.len() as int,
    ) is Some by {
        assert(order.contains(order[i]));
    }
    lemma_values(order, q.params, order.len() as int, k);
    lemma_distinct_has_no_repeats(Seq::empty(), names_from(q.sql(), 0));
    lemma_position_without_repeats(order, 0, k);
}

proof fn lemma_values(order: Seq<Seq<char>>, params: Seq<(Seq<char>, Cell)>, n: int, k: int)
    requires
        0 <= n <= order.len(),
        forall|i: int| 0 <= i < order.len() ==> value_of(params, #[trigger] order[i], params.len() as int) is Some,
    ensures
        values_of(order, params, n).len() == n,
        0 <= k < n ==> Some(values_of(order, params, n)[k]) == value_of(params, order[k], params.len() as int),
    decreases n,
{
    if n > 0 {
        lemma_values(order, params, n - 1, k);
        assert(value_of(params, order[n - 1], params.len() as int) is Some);
    }
}

proof fn lemma_distinct_has_no_repeats(seen: Seq<Seq<char>>, names: Seq<Seq<char>>)
    requires
        seen.no_duplicates(),
    ensures
        distinct_onto(seen, names).no_duplicates(),
    decreases names.len(),
{
    if names.len() > 0 {
        if seen.contains(names[0]) {
            lemma_distinct_has_no_repeats(seen, names.drop_first());
        } else {
            assert(seen.push(names[0]).no_duplicates()) by {
                assert forall|i: int, j: int|
                    0 <= i < seen.len() + 1 && 0 <= j < seen.len() + 1 && i != j implies seen.push(
                    names[0],
                )[i] != seen.push(names[0])[j] by {
                    if i < seen.len() {
                        assert(seen.contains(seen[i]));
                    }
                    if j < seen.len() {
                        assert(seen.contains(seen[j]));
                    }
                }
            }
            lemma_distinct_has_no_repeats(seen.push(names[0]), names.drop_first());
        }
    }
}

proof fn lemma_position_without_repeats(order: Seq<Seq<char>>, i: int, k: int)
    requires
        order.no_duplicates(),
        0 <= i <= k < order.len(),
    ensures
        position(order, order[k], i) == k,
    decreases k - i,
{
    if i < k {
        lemma_position_without_repeats(order, i + 1, k);
    }
}

/// Whether the value that was set last for a name is the given one.
pub open spec fn is_set(params: Seq<(Seq<char>, Cell)>, name: Seq<char>, value: Cell) -> bool {
    exists|i: int|
        0 <= i < params.len() && #[trigger] params[i] == (name, value) && forall|j: int|
            i < j < params.len() ==> (#[trigger] params[j]).0 != name
}

/// A placeholder stands for the value that was set last for its name.
pub proof fn the_value_set_last_counts(params: Seq<(Seq<char>, Cell)>, name: Seq<char>, value: Cell)
    ensures
        is_set(params, name, value) <==> value_of(params, name, params.len() as int) == Some(value),
{
    lemma_last_value(params, name, params.len() as int);
}

proof fn lemma_last_value(params: Seq<(Seq<char>, Cell)>, name: Seq<char>, n: int)
    requires
        0 <= n <= params.len(),
    ensures
        match value_of(params, name, n) {
            Some(v) => exists|i: int|
                0 <= i < n && #[trigger] params[i] == (name, v) && forall|j: int|
                    i < j < n ==> (#[trigger] params[j]).0 != name,
            None => forall|j: int| 0 <= j < n ==> (#[trigger] params[j]).0 != name,
        },
    decreases n,
{
    if n > 0 {
        lemma_last_value(params, name, n - 1);
        if params[n - 1].0 == name {
            assert(params[n - 1] == (name, params[n - 1].1));
        } else {
            match value_of(params, name, n - 1) {
                Some(v) => {
                    let i = choose|i: int|
                        0 <= i < n - 1 && #[trigger] params[i] == (name, v) && forall|j: int|
                            i < j < n - 1 ==> (#[trigger] params[j]).0 != name;
                    assert(params[i] == (name, v));
                },
                None => {},
            }
        }
    }
}

/// Whether a column counts the cells between a bound and a coordinate: the
/// coordinate less `low`, in units of `width`, rounded toward zero.
pub open spec fn counts_cells(
    params: Seq<(Seq<char>, Cell)>,
    column: Seq<char>,
    axis: Seq<char>,
    low: Real,
    width: Real,
    name: Seq<char>,
) -> bool {
    exists|a: Seq<char>, b: Seq<char>|
        #![trigger is_set(params, a, Cell::Float(low)), is_set(params, b, Cell::Float(width))]
        {
            &&& column == "TRUNC(("@ + axis + "(ST_Transform(geog::geometry, %(srid)s)) - %("@ + a + ")s) / %("@ + b
                + ")s)::integer AS "@ + name
            &&& is_set(params, a, Cell::Float(low))
            &&& is_set(params, b, Cell::Float(width))
        }
}

/// Whether a column counts the cells of the given width between zero and a
/// coordinate, rounded to the nearest half cell.
pub open spec fn counts_half_cells(
    params: Seq<(Seq<char>, Cell)>,
    column: Seq<char>,
    axis: Seq<char>,
    width: Real,
    name: Seq<char>,
) -> bool {
    exists|a: Seq<char>|
        #![trigger is_set(params, a, Cell::Float(width))]
        {
            &&& column == "ROUND(("@ + axis + "(ST_Transform(geog::geometry, %(srid)s)) - %("@ + a
                + ")s * 0.5) / %("@ + a + ")s)::integer AS "@ + name
            &&& is_set(params, a, Cell::Float(width))
        }
}

/// Whether a query has exactly one condition with the given comparison, and the
/// placeholder behind it has the given value.
pub open spec fn compares(q: QueryModel, comparison: Seq<char>, value: Cell) -> bool {
    exists|a: Seq<char>|
        #![trigger is_set(q.params, a, value)]
        is_set(q.params, a, value) && q.conditions.contains(comparison + "%("@ + a + ")s"@)
}

/// Whether a query takes the strikes from the start of an interval on and
/// before its end.
pub open spec fn within_interval(q: QueryModel, interval: TimeInterval) -> bool {
    &&& compares(q, "\"timestamp\" >= "@, Cell::Timestamp(interval.start as int))
    &&& compares(q, "\"timestamp\" < "@, Cell::Timestamp(interval.end as int))
}

/// Whether a query takes the strikes that are stored under a region.
pub open spec fn of_region(q: QueryModel, region: i64) -> bool {
    compares(q, "region = "@, Cell::Int(region as int))
}

/// The names of the parameters are different, and the conditions that hold them
/// are put together of comparison and placeholder.
proof fn lemma_names()
    ensures
        forall|i: int, j: int|
            0 <= i < j < names().len() ==> #[trigger] names()[i] != #[trigger] names()[j],
        names().len() == 15,
        "\"timestamp\" >= "@ + "%("@ + "start_time"@ + ")s"@ == "\"timestamp\" >= %(start_time)s"@,
        "\"timestamp\" < "@ + "%("@ + "end_time"@ + ")s"@ == "\"timestamp\" < %(end_time)s"@,
        "region = "@ + "%("@ + "region"@ + ")s"@ == REGION_CONDITION@,
{
    reveal_strlit("srid");
    reveal_strlit("xmin");
    reveal_strlit("xdiv");
    reveal_strlit("ymin");
    reveal_strlit("ydiv");
    reveal_strlit("envelope");
    reveal_strlit("envelope_srid");
    reveal_strlit("start_time");
    reveal_strlit("end_time");
    reveal_strlit("region");
    reveal_strlit("count_threshold");
    reveal_strlit("start_id");
    reveal_strlit("binsize");
    reveal_strlit("geometry");
    reveal_strlit("");
    reveal_strlit("%(");
    reveal_strlit(")s");
    reveal_strlit("\"timestamp\" >= ");
    reveal_strlit("\"timestamp\" < ");
    reveal_strlit("region = ");
    reveal_strlit("\"timestamp\" >= %(start_time)s");
    reveal_strlit("\"timestamp\" < %(end_time)s");
    reveal_strlit("region = %(region)s");
    assert("\"timestamp\" >= "@ + "%("@ + "start_time"@ + ")s"@ =~= "\"timestamp\" >= %(start_time)s"@);
    assert("\"timestamp\" < "@ + "%("@ + "end_time"@ + ")s"@ =~= "\"timestamp\" < %(end_time)s"@);
    assert("region = "@ + "%("@ + "region"@ + ")s"@ =~= REGION_CONDITION@);
    assert forall|i: int, j: int| 0 <= i < j < names().len() implies #[trigger] names()[i] != #[trigger] names()[j] by {
        let a = names()[i];
        let b = names()[j];
        if a.len() == b.len() {
            assert(a[0] != b[0] || a[1] != b[1] || a[2] != b[2]);
        }
    }
}

/// The names of the parameters.
spec fn names() -> Seq<Seq<char>> {
    seq![
        "srid"@,
        "xmin"@,
        "xdiv"@,
        "ymin"@,
        "ydiv"@,
        "envelope"@,
        "envelope_srid"@,
        "start_time"@,
        "end_time"@,
        "region"@,
        "count_threshold"@,
        "start_id"@,
        "binsize"@,
        "geometry"@,
        ""@,
    ]
}

/// Whether a query is restricted to the box with the given bounds: a closed
/// ring through its four corners, in WGS84 coordinates.
pub open spec fn within_box(q: QueryModel, head: Seq<char>, middle: Seq<char>, tail: Seq<char>, grid: Grid) -> bool {
    exists|a: Seq<char>, b: Seq<char>|
        #![trigger q.conditions.contains(head + a + middle + b + tail)]
        {
            &&& q.conditions.contains(head + a + middle + b + tail)
            &&& is_set(q.params, a, Cell::Bytea(wkb::box_ring(grid.x_min, grid.x_max, grid.y_min, grid.y_max)))
            &&& is_set(q.params, b, Cell::Int(4326))
        }
}

/// Whether groups of at most the threshold are left out: none for a threshold
/// of zero.
pub open spec fn above_threshold(q: QueryModel, count_threshold: i64) -> bool {
    if count_threshold > 0 {
        exists|a: Seq<char>|
            #![trigger is_set(q.params, a, Cell::Int(count_threshold as int))]
            q.groups_having == seq!["count(*) > %("@ + a + ")s"@] && is_set(
                q.params,
                a,
                Cell::Int(count_threshold as int),
            )
    } else {
        q.groups_having.len() == 0
    }
}

/// A strike is counted in the cell that holds it: its column is the number of
/// whole cell widths between the western bound of the grid and its longitude,
/// its row the number of whole cell heights between the southern bound and its
/// latitude.  Exactly the strikes of the interval, of the box and, where one is
/// given, of the region are counted.
pub proof fn strikes_are_counted_in_the_cell_that_holds_them(
    grid: Grid,
    interval: TimeInterval,
    region: Option<i64>,
    count_threshold: i64,
)
    ensures
        ({
            let q = grid_model(grid, interval, region, count_threshold);
            &&& q.table_name == "strikes"@
            &&& q.columns.len() == 4
            &&& counts_cells(q.params, q.columns[0], "ST_X"@, grid.x_min, grid.x_div, "rx"@)
            &&& counts_cells(q.params, q.columns[1], "ST_Y"@, grid.y_min, grid.y_div, "ry"@)
            &&& q.columns[2] == "count(*) AS strike_count"@
            &&& q.columns[3] == "max(\"timestamp\") as \"timestamp\""@
            &&& q.groups == seq!["rx"@, "ry"@]
            &&& is_set(q.params, "srid"@, Cell::Int(4326))
            &&& within_interval(q, interval)
            &&& within_box(q, "ST_GeomFromWKB(%("@, ")s, %("@, ")s) && geog"@, grid)
            &&& match region {
                Some(id) => of_region(q, id) && q.conditions.len() == 4,
                None => q.conditions.len() == 3,
            }
            &&& above_threshold(q, count_threshold)
            &&& q.order.len() == 0 && q.limit is None
        }),
{
    let q = grid_model(grid, interval, region, count_threshold);
    let p = q.params;
    lemma_names();
    lemma_cell_columns();
    wkb::lemma_box_ring(grid.x_min, grid.x_max, grid.y_min, grid.y_max);
    let ring = wkb::box_ring(grid.x_min, grid.x_max, grid.y_min, grid.y_max);
    lemma_name_sequence(p, seq![0, 1, 2, 3, 4, 5, 6, 7, 8], region, count_threshold);
    assert(p[1] == ("xmin"@, Cell::Float(grid.x_min)));
    assert(p[2] == ("xdiv"@, Cell::Float(grid.x_div)));
    assert(p[3] == ("ymin"@, Cell::Float(grid.y_min)));
    assert(p[4] == ("ydiv"@, Cell::Float(grid.y_div)));
    assert(is_set(p, "srid"@, Cell::Int(4326))) by {
        assert(p[0] == ("srid"@, Cell::Int(4326)));
    }
    assert(is_set(p, "xmin"@, Cell::Float(grid.x_min)));
    assert(is_set(p, "xdiv"@, Cell::Float(grid.x_div)));
    assert(is_set(p, "ymin"@, Cell::Float(grid.y_min)));
    assert(is_set(p, "ydiv"@, Cell::Float(grid.y_div)));
    assert(q.columns[0] == grid_columns()[0] && q.columns[1] == grid_columns()[1]);
    assert(p[5] == ("envelope"@, Cell::Bytea(ring)));
    assert(p[6] == ("envelope_srid"@, Cell::Int(4326)));
    assert(is_set(p, "envelope"@, Cell::Bytea(ring)));
    assert(is_set(p, "envelope_srid"@, Cell::Int(4326)));
    let c = q.conditions;
    assert(c[0] == "ST_GeomFromWKB(%("@ + "envelope"@ + ")s, %("@ + "envelope_srid"@ + ")s) && geog"@);
    assert(c.contains("ST_GeomFromWKB(%("@ + "envelope"@ + ")s, %("@ + "envelope_srid"@ + ")s) && geog"@));
    assert(p[7] == ("start_time"@, Cell::Timestamp(interval.start as int)));
    assert(p[8] == ("end_time"@, Cell::Timestamp(interval.end as int)));
    assert(q.conditions[1] == "\"timestamp\" >= %(start_time)s"@);
    assert(q.conditions[2] == "\"timestamp\" < %(end_time)s"@);
    assert forall|j: int| 7 < j < p.len() implies (#[trigger] p[j]).0 != "start_time"@ by {
        assert(p[7].0 != p[j].0);
    }
    assert forall|j: int| 8 < j < p.len() implies (#[trigger] p[j]).0 != "end_time"@ by {
        assert(p[8].0 != p[j].0);
    }
    lemma_time(q, interval, 7, 1);
    if let Some(id) = region {
        assert(p[9] == ("region"@, Cell::Int(id as int)));
        assert(is_set(p, "region"@, Cell::Int(id as int)));
        assert(c[3] == "region = "@ + "%("@ + "region"@ + ")s"@);
        assert(c.contains("region = "@ + "%("@ + "region"@ + ")s"@));
    }
    lemma_threshold(q, count_threshold);
}

/// The columns of the grids are put together of axis and placeholders.
proof fn lemma_cell_columns()
    ensures
        grid_columns()[0] == "TRUNC(("@ + "ST_X"@ + "(ST_Transform(geog::geometry, %(srid)s)) - %("@ + "xmin"@
            + ")s) / %("@ + "xdiv"@ + ")s)::integer AS "@ + "rx"@,
        grid_columns()[1] == "TRUNC(("@ + "ST_Y"@ + "(ST_Transform(geog::geometry, %(srid)s)) - %("@ + "ymin"@
            + ")s) / %("@ + "ydiv"@ + ")s)::integer AS "@ + "ry"@,
        "ST_GeomFromWKB(%(envelope)s, %(envelope_srid)s) && geog"@ == "ST_GeomFromWKB(%("@ + "envelope"@ + ")s, %("@
            + "envelope_srid"@ + ")s) && geog"@,
        "count(*) > %(count_threshold)s"@ == "count(*) > %("@ + "count_threshold"@ + ")s"@,
{
    reveal_strlit("TRUNC((");
    reveal_strlit("ST_X");
    reveal_strlit("ST_Y");
    reveal_strlit("(ST_Transform(geog::geometry, %(srid)s)) - %(");
    reveal_strlit("xmin");
    reveal_strlit("ymin");
    reveal_strlit("xdiv");
    reveal_strlit("ydiv");
    reveal_strlit(")s) / %(");
    reveal_strlit(")s)::integer AS ");
    reveal_strlit("rx");
    reveal_strlit("ry");
    reveal_strlit("TRUNC((ST_X(ST_Transform(geog::geometry, %(srid)s)) - %(xmin)s) / %(xdiv)s)::integer AS rx");
    reveal_strlit("TRUNC((ST_Y(ST_Transform(geog::geometry, %(srid)s)) - %(ymin)s) / %(ydiv)s)::integer AS ry");
    reveal_strlit("ST_GeomFromWKB(%(envelope)s, %(envelope_srid)s) && geog");
    reveal_strlit("ST_GeomFromWKB(%(");
    reveal_strlit("envelope");
    reveal_strlit("envelope_srid");
    reveal_strlit(")s, %(");
    reveal_strlit(")s) && geog");
    reveal_strlit("count(*) > %(count_threshold)s");
    reveal_strlit("count(*) > %(");
    reveal_strlit("count_threshold");
    reveal_strlit(")s");
    assert(grid_columns()[0] =~= "TRUNC(("@ + "ST_X"@ + "(ST_Transform(geog::geometry, %(srid)s)) - %("@ + "xmin"@
        + ")s) / %("@ + "xdiv"@ + ")s)::integer AS "@ + "rx"@);
    assert(grid_columns()[1] =~= "TRUNC(("@ + "ST_Y"@ + "(ST_Transform(geog::geometry, %(srid)s)) - %("@ + "ymin"@
        + ")s) / %("@ + "ydiv"@ + ")s)::integer AS "@ + "ry"@);
    assert("ST_GeomFromWKB(%(envelope)s, %(envelope_srid)s) && geog"@ =~= "ST_GeomFromWKB(%("@ + "envelope"@
        + ")s, %("@ + "envelope_srid"@ + ")s) && geog"@);
    assert("count(*) > %(count_threshold)s"@ =~= "count(*) > %("@ + "count_threshold"@ + ")s"@);
}

/// Parameters with the given names, then the region and the threshold where
/// they are set: no name is set twice.
proof fn lemma_name_sequence(
    params: Seq<(Seq<char>, Cell)>,
    ranks: Seq<int>,
    region: Option<i64>,
    count_threshold: i64,
)
    requires
        forall|i: int| 0 <= i < ranks.len() ==> 0 <= #[trigger] ranks[i] < 9,
        forall|i: int, j: int| 0 <= i < j < ranks.len() ==> #[trigger] ranks[i] != #[trigger] ranks[j],
        params.len() == ranks.len() + (if region is Some {
            1int
        } else {
            0
        }) + (if count_threshold > 0 {
            1int
        } else {
            0
        }),
        forall|i: int| 0 <= i < ranks.len() ==> (#[trigger] params[i]).0 == names()[ranks[i]],
        region is Some ==> params[ranks.len() as int].0 == "region"@,
        count_threshold > 0 ==> params[params.len() - 1].0 == "count_threshold"@,
    ensures
        forall|i: int, j: int| 0 <= i < j < params.len() ==> (#[trigger] params[i]).0 != (#[trigger] params[j]).0,
{
    lemma_names();
    assert forall|i: int, j: int| 0 <= i < j < params.len() implies (#[trigger] params[i]).0 != (
    #[trigger] params[j]).0 by {
        let a = if i < ranks.len() {
            ranks[i]
        } else if region is Some && i == ranks.len() {
            9
        } else {
            10
        };
        let b = if j < ranks.len() {
            ranks[j]
        } else if region is Some && j == ranks.len() {
            9
        } else {
            10
        };
        assert(params[i].0 == names()[a]);
        assert(params[j].0 == names()[b]);
        if a < b {
            assert(names()[a] != names()[b]);
        } else {
            assert(a > b);
            assert(names()[b] != names()[a]);
        }
    }
}

/// The start and the end of an interval are set at `k` and behind it, and
/// their conditions stand at `c` and behind it.
proof fn lemma_time(q: QueryModel, interval: TimeInterval, k: int, c: int)
    requires
        0 <= k,
        k + 1 < q.params.len(),
        0 <= c,
        c + 1 < q.conditions.len(),
        q.params[k] == ("start_time"@, Cell::Timestamp(interval.start as int)),
        q.params[k + 1] == ("end_time"@, Cell::Timestamp(interval.end as int)),
        forall|j: int| k < j < q.params.len() ==> (#[trigger] q.params[j]).0 != "start_time"@,
        forall|j: int| k + 1 < j < q.params.len() ==> (#[trigger] q.params[j]).0 != "end_time"@,
        q.conditions[c] == "\"timestamp\" >= %(start_time)s"@,
        q.conditions[c + 1] == "\"timestamp\" < %(end_time)s"@,
    ensures
        within_interval(q, interval),
{
    lemma_names();
    assert(is_set(q.params, "start_time"@, Cell::Timestamp(interval.start as int)));
    assert(is_set(q.params, "end_time"@, Cell::Timestamp(interval.end as int)));
    assert(q.conditions.contains("\"timestamp\" >= "@ + "%("@ + "start_time"@ + ")s"@));
    assert(q.conditions.contains("\"timestamp\" < "@ + "%("@ + "end_time"@ + ")s"@));
}

proof fn lemma_threshold(q: QueryModel, count_threshold: i64)
    requires
        count_threshold > 0 ==> q.params.len() > 0 && q.params.last() == ("count_threshold"@, Cell::Int(
            count_threshold as int,
        )) && q.groups_having == seq!["count(*) > %(count_threshold)s"@],
        count_threshold <= 0 ==> q.groups_having.len() == 0,
    ensures
        above_threshold(q, count_threshold),
{
    if count_threshold > 0 {
        lemma_cell_columns();
        assert(q.params[q.params.len() - 1] == ("count_threshold"@, Cell::Int(count_threshold as int)));
        assert(is_set(q.params, "count_threshold"@, Cell::Int(count_threshold as int)));
    }
}

/// A strike is counted in the cell of the world-wide grid that holds it: cells
/// are counted from the equator and the prime meridian, eastward by the cell
/// width and northward by the cell height.  All strikes of the interval are
/// counted.
pub proof fn world_wide_strikes_are_counted_from_zero(grid: Grid, interval: TimeInterval, count_threshold: i64)
    ensures
        ({
            let q = global_model(grid, interval, count_threshold);
            &&& q.table_name == "strikes"@
            &&& q.columns.len() == 4
            &&& counts_half_cells(q.params, q.columns[0], "ST_X"@, grid.x_div, "rx"@)
            &&& counts_half_cells(q.params, q.columns[1], "ST_Y"@, grid.y_div, "ry"@)
            &&& q.columns[2] == "count(*) AS strike_count"@
            &&& q.columns[3] == "max(\"timestamp\") as \"timestamp\""@
            &&& q.groups == seq!["rx"@, "ry"@]
            &&& is_set(q.params, "srid"@, Cell::Int(4326))
            &&& within_interval(q, interval)
            &&& q.conditions.len() == 2
            &&& above_threshold(q, count_threshold)
            &&& q.order.len() == 0 && q.limit is None
        }),
{
    let q = global_model(grid, interval, count_threshold);
    let p = q.params;
    lemma_half_cell_columns();
    lemma_name_sequence(p, seq![0, 2, 4, 7, 8], None, count_threshold);
    assert(p[0] == ("srid"@, Cell::Int(4326)));
    assert(p[1] == ("xdiv"@, Cell::Float(grid.x_div)));
    assert(p[2] == ("ydiv"@, Cell::Float(grid.y_div)));
    assert(is_set(p, "srid"@, Cell::Int(4326)));
    assert(is_set(p, "xdiv"@, Cell::Float(grid.x_div)));
    assert(is_set(p, "ydiv"@, Cell::Float(grid.y_div)));
    assert(q.columns[0] == global_columns()[0] && q.columns[1] == global_columns()[1]);
    assert(p[3] == ("start_time"@, Cell::Timestamp(interval.start as int)));
    assert(p[4] == ("end_time"@, Cell::Timestamp(interval.end as int)));
    assert(q.conditions[0] == "\"timestamp\" >= %(start_time)s"@);
    assert(q.conditions[1] == "\"timestamp\" < %(end_time)s"@);
    assert forall|j: int| 3 < j < p.len() implies (#[trigger] p[j]).0 != "start_time"@ by {
        assert(p[3].0 != p[j].0);
    }
    assert forall|j: int| 4 < j < p.len() implies (#[trigger] p[j]).0 != "end_time"@ by {
        assert(p[4].0 != p[j].0);
    }
    lemma_time(q, interval, 3, 0);
    lemma_threshold(q, count_threshold);
}

proof fn lemma_half_cell_columns()
    ensures
        global_columns()[0] == "ROUND(("@ + "ST_X"@ + "(ST_Transform(geog::geometry, %(srid)s)) - %("@ + "xdiv"@
            + ")s * 0.5) / %("@ + "xdiv"@ + ")s)::integer AS "@ + "rx"@,
        global_columns()[1] == "ROUND(("@ + "ST_Y"@ + "(ST_Transform(geog::geometry, %(srid)s)) - %("@ + "ydiv"@
            + ")s * 0.5) / %("@ + "ydiv"@ + ")s)::integer AS "@ + "ry"@,
{
    reveal_strlit("ROUND((");
    reveal_strlit("ST_X");
    reveal_strlit("ST_Y");
    reveal_strlit("(ST_Transform(geog::geometry, %(srid)s)) - %(");
    reveal_strlit("xdiv");
    reveal_strlit("ydiv");
    reveal_strlit(")s * 0.5) / %(");
    reveal_strlit(")s)::integer AS ");
    reveal_strlit("rx");
    reveal_strlit("ry");
    reveal_strlit("ROUND((ST_X(ST_Transform(geog::geometry, %(srid)s)) - %(xdiv)s * 0.5) / %(xdiv)s)::integer AS rx");
    reveal_strlit("ROUND((ST_Y(ST_Transform(geog::geometry, %(srid)s)) - %(ydiv)s * 0.5) / %(ydiv)s)::integer AS ry");
    assert(global_columns()[0] =~= "ROUND(("@ + "ST_X"@ + "(ST_Transform(geog::geometry, %(srid)s)) - %("@
        + "xdiv"@ + ")s * 0.5) / %("@ + "xdiv"@ + ")s)::integer AS "@ + "rx"@);
    assert(global_columns()[1] =~= "ROUND(("@ + "ST_Y"@ + "(ST_Transform(geog::geometry, %(srid)s)) - %("@
        + "ydiv"@ + ")s * 0.5) / %("@ + "ydiv"@ + ")s)::integer AS "@ + "ry"@);
}

/// Whether a query is restricted to an area: the box around it, and the area
/// itself when it is not a box.  Both are read in the reference system of the
/// query.
pub open spec fn within_area(q: QueryModel, area: Area) -> bool {
    &&& exists|a: Seq<char>|
        #![trigger is_set(q.params, a, Cell::Bytea(area.envelope_wkb@))]
        is_set(q.params, a, Cell::Bytea(area.envelope_wkb@)) && q.conditions.contains(
            "ST_GeomFromWKB(%("@ + a + ")s, %(srid)s) && geog"@,
        )
    &&& area.geometry_wkb matches Some(geometry) ==> exists|a: Seq<char>|
        #![trigger is_set(q.params, a, Cell::Bytea(geometry@))]
        is_set(q.params, a, Cell::Bytea(geometry@)) && q.conditions.contains(
            "ST_Intersects(ST_GeomFromWKB(%("@ + a + ")s, %(srid)s), ST_Transform(geog::geometry, %(srid)s))"@,
        )
}

/// A selection takes exactly the strikes of the interval and, where they are
/// given, of the region and the area; the coordinates come in the given
/// reference system.
pub proof fn selections_keep_to_their_limits(
    columns: Seq<Seq<char>>,
    srid: int,
    interval: TimeInterval,
    area: Option<&Area>,
    region: Option<i64>,
)
    ensures
        ({
            let q = selected(strikes_with(columns, srid), interval, area, region);
            &&& q.table_name == "strikes"@
            &&& q.columns == columns
            &&& is_set(q.params, "srid"@, Cell::Int(srid))
            &&& within_interval(q, interval)
            &&& region matches Some(id) ==> of_region(q, id)
            &&& area matches Some(a) ==> within_area(q, *a)
            &&& q.conditions.len() == 2 + (if region is Some {
                1int
            } else {
                0
            }) + (match area {
                Some(a) => if a.geometry_wkb is Some {
                    2int
                } else {
                    1
                },
                None => 0,
            })
            &&& q.groups.len() == 0 && q.order.len() == 0 && q.limit is None
        }),
{
    let q = selected(strikes_with(columns, srid), interval, area, region);
    let p = q.params;
    let c = q.conditions;
    lemma_names();
    lemma_area_conditions();
    let ranks = seq![0int, 7, 8] + (if region is Some {
        seq![9int]
    } else {
        seq![]
    }) + (match area {
        Some(a) => if a.geometry_wkb is Some {
            seq![5int, 13]
        } else {
            seq![5int]
        },
        None => seq![],
    });
    assert(p.len() == ranks.len());
    assert forall|i: int| 0 <= i < p.len() implies (#[trigger] p[i]).0 == names()[ranks[i]] by {}
    assert forall|i: int, j: int| 0 <= i < j < p.len() implies (#[trigger] p[i]).0 != (#[trigger] p[j]).0 by {
        assert(p[i].0 == names()[ranks[i]]);
        assert(p[j].0 == names()[ranks[j]]);
        if ranks[i] < ranks[j] {
            assert(names()[ranks[i]] != names()[ranks[j]]);
        } else {
            assert(names()[ranks[j]] != names()[ranks[i]]);
        }
    }
    assert(p[0] == ("srid"@, Cell::Int(srid)));
    assert(is_set(p, "srid"@, Cell::Int(srid)));
    assert(p[1] == ("start_time"@, Cell::Timestamp(interval.start as int)));
    assert(p[2] == ("end_time"@, Cell::Timestamp(interval.end as int)));
    lemma_time(q, interval, 1, 0);
    if let Some(id) = region {
        assert(p[3] == ("region"@, Cell::Int(id as int)));
        assert(is_set(p, "region"@, Cell::Int(id as int)));
        assert(c[2] == "region = "@ + "%("@ + "region"@ + ")s"@);
        assert(c.contains("region = "@ + "%("@ + "region"@ + ")s"@));
    }
    if let Some(a) = area {
        let k: int = if region is Some {
            4
        } else {
            3
        };
        assert(p[k] == ("envelope"@, Cell::Bytea(a.envelope_wkb@)));
        assert(is_set(p, "envelope"@, Cell::Bytea(a.envelope_wkb@)));
        assert(c[k - 1] == "ST_GeomFromWKB(%("@ + "envelope"@ + ")s, %(srid)s) && geog"@);
        assert(c.contains("ST_GeomFromWKB(%("@ + "envelope"@ + ")s, %(srid)s) && geog"@));
        if let Some(geometry) = a.geometry_wkb {
            assert(p[k + 1] == ("geometry"@, Cell::Bytea(geometry@)));
            assert(is_set(p, "geometry"@, Cell::Bytea(geometry@)));
            assert(c[k] == "ST_Intersects(ST_GeomFromWKB(%("@ + "geometry"@
                + ")s, %(srid)s), ST_Transform(geog::geometry, %(srid)s))"@);
            assert(c.contains(
                "ST_Intersects(ST_GeomFromWKB(%("@ + "geometry"@
                    + ")s, %(srid)s), ST_Transform(geog::geometry, %(srid)s))"@,
            ));
        }
    }
}

proof fn lemma_area_conditions()
    ensures
        "ST_GeomFromWKB(%(envelope)s, %(srid)s) && geog"@ == "ST_GeomFromWKB(%("@ + "envelope"@
            + ")s, %(srid)s) && geog"@,
        "ST_Intersects(ST_GeomFromWKB(%(geometry)s, %(srid)s), ST_Transform(geog::geometry, %(srid)s))"@
            == "ST_Intersects(ST_GeomFromWKB(%("@ + "geometry"@
            + ")s, %(srid)s), ST_Transform(geog::geometry, %(srid)s))"@,
{
    reveal_strlit("ST_GeomFromWKB(%(envelope)s, %(srid)s) && geog");
    reveal_strlit("ST_GeomFromWKB(%(");
    reveal_strlit("envelope");
    reveal_strlit(")s, %(srid)s) && geog");
    reveal_strlit("ST_Intersects(ST_GeomFromWKB(%(geometry)s, %(srid)s), ST_Transform(geog::geometry, %(srid)s))");
    reveal_strlit("ST_Intersects(ST_GeomFromWKB(%(");
    reveal_strlit("geometry");
    reveal_strlit(")s, %(srid)s), ST_Transform(geog::geometry, %(srid)s))");
    assert("ST_GeomFromWKB(%(envelope)s, %(srid)s) && geog"@ =~= "ST_GeomFromWKB(%("@ + "envelope"@
        + ")s, %(srid)s) && geog"@);
    assert("ST_Intersects(ST_GeomFromWKB(%(geometry)s, %(srid)s), ST_Transform(geog::geometry, %(srid)s))"@
        =~= "ST_Intersects(ST_GeomFromWKB(%("@ + "geometry"@
        + ")s, %(srid)s), ST_Transform(geog::geometry, %(srid)s))"@);
}

/// Strikes are selected in the order of their ids, in the given limits.
pub proof fn selected_strikes_come_in_the_order_of_their_ids(
    interval: TimeInterval,
    area: Option<&Area>,
    region: Option<i64>,
    srid: int,
)
    ensures
        ({
            let q = select_model(interval, area, region, srid);
            let unordered = QueryModel { order: Seq::empty(), ..q };
            &&& q.order == seq!["id"@]
            &&& unordered == selected(strikes_with(q.columns, srid), interval, area, region)
        }),
{
    let q = select_model(interval, area, region, srid);
    assert(q.order =~= seq!["id"@]);
    assert(QueryModel { order: Seq::empty(), ..q } =~= selected(strikes_with(q.columns, srid), interval, area, region));
}

/// The strikes from an id on are those of the interval with that id or a later
/// one.
pub proof fn strikes_from_an_id_on_are_selected(interval: TimeInterval, id_interval: Option<IdInterval>)
    ensures
        ({
            let q = strikes_model(interval, id_interval);
            &&& within_interval(q, interval)
            &&& match id_interval {
                Some(id) => compares(q, "id >= "@, Cell::Int(id.start as int)) && q.conditions.len() == 3,
                None => q.conditions.len() == 2,
            }
            &&& is_set(q.params, "srid"@, Cell::Int(4326))
            &&& q.order == seq!["id"@]
        }),
{
    let q = strikes_model(interval, id_interval);
    let p = q.params;
    lemma_names();
    reveal_strlit("id >= ");
    reveal_strlit("%(");
    reveal_strlit("start_id");
    reveal_strlit(")s");
    reveal_strlit("id >= %(start_id)s");
    assert("id >= "@ + "%("@ + "start_id"@ + ")s"@ =~= "id >= %(start_id)s"@);
    let ranks = seq![0int, 7, 8, 11];
    assert forall|i: int, j: int| 0 <= i < j < p.len() implies (#[trigger] p[i]).0 != (#[trigger] p[j]).0 by {
        assert(p[i].0 == names()[ranks[i]]);
        assert(p[j].0 == names()[ranks[j]]);
        assert(names()[ranks[i]] != names()[ranks[j]]);
    }
    assert(p[0] == ("srid"@, Cell::Int(4326)));
    assert(is_set(p, "srid"@, Cell::Int(4326)));
    assert(p[1] == ("start_time"@, Cell::Timestamp(interval.start as int)));
    assert(p[2] == ("end_time"@, Cell::Timestamp(interval.end as int)));
    lemma_time(q, interval, 1, 0);
    if let Some(id) = id_interval {
        assert(p[3] == ("start_id"@, Cell::Int(id.start as int)));
        assert(is_set(p, "start_id"@, Cell::Int(id.start as int)));
        assert(q.conditions[2] == "id >= "@ + "%("@ + "start_id"@ + ")s"@);
        assert(q.conditions.contains("id >= "@ + "%("@ + "start_id"@ + ")s"@));
    }
    assert(q.order =~= seq!["id"@]);
}

/// A histogram counts back from the end of the interval: its first column is
/// minus the number of whole bins between a strike and the end.  Exactly the
/// strikes of the interval and, where they are given, of the region and the box
/// are counted.
pub proof fn histograms_count_back_from_the_end(
    interval: TimeInterval,
    binsize: i64,
    region: Option<i64>,
    envelope: Option<&Grid>,
)
    ensures
        ({
            let q = histogram_model(interval, binsize, region, envelope);
            &&& q.table_name == "strikes"@
            &&& q.columns.len() == 2
            &&& exists|a: Seq<char>, b: Seq<char>|
                #![trigger is_set(q.params, a, Cell::Timestamp(interval.end as int)), is_set(q.params, b, Cell::Int(binsize as int))]
                q.columns[0] == "-extract( epoch from %("@ + a + ")s - \"timestamp\")::int/60/%("@ + b
                    + ")s as interval"@ && is_set(q.params, a, Cell::Timestamp(interval.end as int)) && is_set(
                    q.params,
                    b,
                    Cell::Int(binsize as int),
                )
            &&& q.columns[1] == "count(*)"@
            &&& q.groups == seq!["interval"@]
            &&& q.order == seq!["interval"@]
            &&& within_interval(q, interval)
            &&& region matches Some(id) ==> of_region(q, id)
            &&& envelope matches Some(grid) ==> within_box(
                q,
                "ST_SetSRID(CAST(%("@,
                ")s AS geometry), %("@,
                ")s) && geog"@,
                *grid,
            )
            &&& q.conditions.len() == 2 + (if region is Some {
                1int
            } else {
                0
            }) + (if envelope is Some {
                1int
            } else {
                0
            })
            &&& q.groups_having.len() == 0 && q.limit is None
        }),
{
    let q = histogram_model(interval, binsize, region, envelope);
    let p = q.params;
    let c = q.conditions;
    lemma_names();
    reveal_strlit("-extract( epoch from %(end_time)s - \"timestamp\")::int/60/%(binsize)s as interval");
    reveal_strlit("-extract( epoch from %(");
    reveal_strlit("end_time");
    reveal_strlit(")s - \"timestamp\")::int/60/%(");
    reveal_strlit("binsize");
    reveal_strlit(")s as interval");
    assert(q.columns[0] =~= "-extract( epoch from %("@ + "end_time"@ + ")s - \"timestamp\")::int/60/%("@ + "binsize"@
        + ")s as interval"@);
    let ranks = seq![8int, 12, 7, 8] + (if region is Some {
        seq![9int]
    } else {
        seq![]
    }) + (if envelope is Some {
        seq![5int, 6]
    } else {
        seq![]
    });
    assert(p.len() == ranks.len());
    assert forall|i: int| 0 <= i < p.len() implies (#[trigger] p[i]).0 == names()[ranks[i]] by {}
    assert forall|i: int, j: int| 0 < i < j < p.len() implies (#[trigger] p[i]).0 != (#[trigger] p[j]).0 by {
        assert(p[i].0 == names()[ranks[i]]);
        assert(p[j].0 == names()[ranks[j]]);
        if ranks[i] < ranks[j] {
            assert(names()[ranks[i]] != names()[ranks[j]]);
        } else {
            assert(names()[ranks[j]] != names()[ranks[i]]);
        }
    }
    assert(p[1] == ("binsize"@, Cell::Int(binsize as int)));
    assert(p[2] == ("start_time"@, Cell::Timestamp(interval.start as int)));
    assert(p[3] == ("end_time"@, Cell::Timestamp(interval.end as int)));
    assert(is_set(p, "binsize"@, Cell::Int(binsize as int)));
    assert(is_set(p, "end_time"@, Cell::Timestamp(interval.end as int)));
    lemma_time(q, interval, 2, 0);
    if let Some(id) = region {
        assert(p[4] == ("region"@, Cell::Int(id as int)));
        assert(is_set(p, "region"@, Cell::Int(id as int)));
        assert(c[2] == "region = "@ + "%("@ + "region"@ + ")s"@);
        assert(c.contains("region = "@ + "%("@ + "region"@ + ")s"@));
    }
    if let Some(grid) = envelope {
        let ring = wkb::box_ring(grid.x_min, grid.x_max, grid.y_min, grid.y_max);
        let k: int = if region is Some {
            5
        } else {
            4
        };
        wkb::lemma_box_ring(grid.x_min, grid.x_max, grid.y_min, grid.y_max);
        reveal_strlit("ST_SetSRID(CAST(%(");
        reveal_strlit("envelope");
        reveal_strlit(")s AS geometry), %(");
        reveal_strlit("envelope_srid");
        reveal_strlit(")s) && geog");
        reveal_strlit("ST_SetSRID(CAST(%(envelope)s AS geometry), %(envelope_srid)s) && geog");
        assert("ST_SetSRID(CAST(%("@ + "envelope"@ + ")s AS geometry), %("@ + "envelope_srid"@ + ")s) && geog"@
            =~= "ST_SetSRID(CAST(%(envelope)s AS geometry), %(envelope_srid)s) && geog"@);
        assert(p[k] == ("envelope"@, Cell::Bytea(ring)));
        assert(p[k + 1] == ("envelope_srid"@, Cell::Int(4326)));
        assert(is_set(p, "envelope"@, Cell::Bytea(ring)));
        assert(is_set(p, "envelope_srid"@, Cell::Int(4326)));
        assert(c[k - 2] == "ST_SetSRID(CAST(%("@ + "envelope"@ + ")s AS geometry), %("@ + "envelope_srid"@
            + ")s) && geog"@);
        assert(c.contains(
            "ST_SetSRID(CAST(%("@ + "envelope"@ + ")s AS geometry), %("@ + "envelope_srid"@ + ")s) && geog"@,
        ));
    }
}

proof fn lemma_param_behind(head: Seq<char>, s: Seq<char>, i: int)
    requires
        0 <= i,
    ensures
        param_at(head + s, head.len() + i) == (match param_at(s, i) {
            Some((next, name)) => Some((head.len() + next, name)),
            None => None,
        }),
{
    let t = head + s;
    let n = head.len() as int;
    if i + 1 < s.len() && s[i] == '%' && s[i + 1] == '(' {
        assert(t[n + i] == s[i] && t[n + i + 1] == s[i + 1]);
        let close = text::first_from(s, ')', i + 2);
        text::lemma_first_from(s, ')', i + 2);
        assert forall|j: int| n + i + 2 <= j < n + close implies t[j] != ')' by {
            assert(t[j] == s[j - n]);
        }
        if close < s.len() {
            assert(t[n + close] == s[close]);
        }
        text::lemma_first_from_is(t, ')', n + i + 2, n + close);
        if close + 1 < s.len() {
            assert(t[n + close + 1] == s[close + 1]);
            assert(t.subrange(n + i + 2, n + close) =~= s.subrange(i + 2, close));
        }
    } else if i + 1 < s.len() {
        assert(t[n + i] == s[i] && t[n + i + 1] == s[i + 1]);
    }
}

proof fn lemma_text_behind(
    head: Seq<char>,
    s: Seq<char>,
    i: int,
    order: Seq<Seq<char>>,
    casts: Seq<(Seq<char>, Seq<char>)>,
)
    requires
        0 <= i,
    ensures
        positional_from(head + s, head.len() + i, order, casts) == positional_from(s, i, order, casts),
        names_from(head + s, head.len() + i) == names_from(s, i),
    decreases s.len() - i,
{
    let t = head + s;
    let n = head.len() as int;
    if i < s.len() {
        lemma_param_behind(head, s, i);
        lemma_param_at(s, i);
        match param_at(s, i) {
            Some((next, name)) => {
                lemma_text_behind(head, s, next, order, casts);
            },
            None => {
                assert(t[n + i] == s[i]);
                lemma_text_behind(head, s, i + 1, order, casts);
            },
        }
    }
}

proof fn lemma_text_in_front(
    before: Seq<char>,
    i: int,
    s: Seq<char>,
    order: Seq<Seq<char>>,
    casts: Seq<(Seq<char>, Seq<char>)>,
)
    requires
        !before.contains('%'),
        0 <= i <= before.len(),
    ensures
        positional_from(before + s, i, order, casts) == before.skip(i) + positional_from(s, 0, order, casts),
        names_from(before + s, i) == names_from(s, 0),
    decreases before.len() - i,
{
    let t = before + s;
    if i < before.len() {
        assert(t[i] == before[i]);
        assert(before.contains(before[i]));
        assert(param_at(t, i) is None);
        lemma_text_in_front(before, i + 1, s, order, casts);
        assert(before.skip(i) =~= seq![before[i]] + before.skip(i + 1));
        assert(positional_from(t, i, order, casts) =~= before.skip(i) + positional_from(s, 0, order, casts));
    } else {
        lemma_text_behind(before, s, 0, order, casts);
        assert(before.skip(i) + positional_from(s, 0, order, casts) =~= positional_from(s, 0, order, casts));
    }
}

/// A statement is rewritten from its start to its end: the text in front of a
/// placeholder stays, the placeholder is written by its number, and what
/// follows is rewritten in the same way.
pub proof fn placeholders_are_replaced_in_place(
    before: Seq<char>,
    name: Seq<char>,
    rest: Seq<char>,
    order: Seq<Seq<char>>,
    casts: Seq<(Seq<char>, Seq<char>)>,
)
    requires
        !before.contains('%'),
        !name.contains(')'),
    ensures
        positional_from(before + (seq!['%', '('] + name + seq![')', 's']) + rest, 0, order, casts) == before + numbered(
            name,
            order,
            casts,
        ) + positional_from(rest, 0, order, casts),
        names_from(before + (seq!['%', '('] + name + seq![')', 's']) + rest, 0) == seq![name] + names_from(rest, 0),
        positional_from(before, 0, order, casts) == before,
        names_from(before, 0).len() == 0,
{
    let mark = seq!['%', '('] + name + seq![')', 's'];
    let tail = mark + rest;
    let n = name.len() as int;
    assert forall|j: int| 2 <= j < 2 + n implies tail[j] != ')' by {
        assert(tail[j] == name[j - 2]);
        assert(name.contains(name[j - 2]));
    }
    assert(tail[0] == '%' && tail[1] == '(' && tail[2 + n] == ')' && tail[3 + n] == 's');
    text::lemma_first_from_is(tail, ')', 2, 2 + n);
    assert(tail.subrange(2, 2 + n) =~= name);
    assert(param_at(tail, 0) == Some((mark.len() as int, name)));
    lemma_text_behind(mark, rest, 0, order, casts);
    lemma_text_in_front(before, 0, tail, order, casts);
    assert(before.skip(0) =~= before);
    assert(before + mark + rest =~= before + tail);
    assert(before + (numbered(name, order, casts) + positional_from(rest, 0, order, casts)) =~= before + numbered(
        name,
        order,
        casts,
    ) + positional_from(rest, 0, order, casts));
    let none = Seq::<char>::empty();
    lemma_text_in_front(before, 0, none, order, casts);
    assert(before + none =~= before);
    assert(positional_from(none, 0, order, casts) =~= none);
}

proof fn lemma_position_is(names: Seq<Seq<char>>, i: int, k: int)
    requires
        0 <= i <= k < names.len(),
        forall|j: int| 0 <= j < k ==> names[j] != names[k],
    ensures
        position(names, names[k], i) == k,
    decreases k - i,
{
    if i < k {
        lemma_position_is(names, i + 1, k);
    }
}

/// The first name is written `$1`, the second `$2` and so on, with the type
/// that was registered last for the name.
pub proof fn numbers_follow_the_names(
    order: Seq<Seq<char>>,
    k: int,
    casts: Seq<(Seq<char>, Seq<char>)>,
    sql_type: Seq<char>,
)
    requires
        0 <= k < order.len(),
        forall|j: int| 0 <= j < k ==> order[j] != order[k],
    ensures
        numbered(order[k], order, Seq::empty()) == seq!['$'] + number::decimal((k + 1) as nat),
        numbered(order[k], order, casts.push((order[k], sql_type))) == seq!['$'] + number::decimal((k + 1) as nat)
            + seq![':', ':'] + sql_type,
{
    reveal_strlit("::");
    assert("::"@ =~= seq![':', ':']);
    lemma_position_is(order, 0, k);
}

/// The type that a parameter is sent with.
pub open spec fn sent_as(q: QueryModel, name: Seq<char>) -> Option<Seq<char>> {
    cast_of(q.casts, name, q.casts.len() as int)
}

proof fn lemma_cast_of(casts: Seq<(Seq<char>, Seq<char>)>, k: int, n: int)
    requires
        0 <= k < n <= casts.len(),
        forall|j: int| k < j < n ==> (#[trigger] casts[j]).0 != casts[k].0,
    ensures
        cast_of(casts, casts[k].0, n) == Some(casts[k].1),
    decreases n,
{
    if k < n - 1 {
        assert(casts[n - 1].0 != casts[k].0);
        lemma_cast_of(casts, k, n - 1);
    }
}

proof fn lemma_casts_differ(
    casts: Seq<(Seq<char>, Seq<char>)>,
    ranks: Seq<int>,
    region: Option<i64>,
    count_threshold: i64,
)
    requires
        forall|i: int| 0 <= i < ranks.len() ==> 0 <= #[trigger] ranks[i] < 9,
        forall|i: int, j: int| 0 <= i < j < ranks.len() ==> #[trigger] ranks[i] != #[trigger] ranks[j],
        casts.len() == ranks.len() + (if region is Some {
            1int
        } else {
            0
        }) + (if count_threshold > 0 {
            1int
        } else {
            0
        }),
        forall|i: int| 0 <= i < ranks.len() ==> (#[trigger] casts[i]).0 == names()[ranks[i]],
        region is Some ==> casts[ranks.len() as int].0 == "region"@,
        count_threshold > 0 ==> casts[casts.len() - 1].0 == "count_threshold"@,
    ensures
        forall|k: int|
            0 <= k < casts.len() ==> cast_of(casts, (#[trigger] casts[k]).0, casts.len() as int) == Some(casts[k].1),
{
    let named = Seq::new(casts.len(), |i: int| (casts[i].0, Cell::Null));
    lemma_name_sequence(named, ranks, region, count_threshold);
    assert forall|k: int| 0 <= k < casts.len() implies cast_of(casts, (#[trigger] casts[k]).0, casts.len() as int)
        == Some(casts[k].1) by {
        assert forall|j: int| k < j < casts.len() implies (#[trigger] casts[j]).0 != casts[k].0 by {
            assert(named[k].0 != named[j].0);
        }
        lemma_cast_of(casts, k, casts.len() as int);
    }
}

/// The parameters of a grid query are sent with the types that its terms need.
pub proof fn grid_parameters_have_their_types(
    grid: Grid,
    interval: TimeInterval,
    region: Option<i64>,
    count_threshold: i64,
)
    ensures
        ({
            let q = grid_model(grid, interval, region, count_threshold);
            &&& sent_as(q, "xmin"@) == Some("double precision"@)
            &&& sent_as(q, "xdiv"@) == Some("double precision"@)
            &&& sent_as(q, "ymin"@) == Some("double precision"@)
            &&& sent_as(q, "ydiv"@) == Some("double precision"@)
            &&& sent_as(q, "srid"@) == Some("integer"@)
            &&& sent_as(q, "envelope_srid"@) == Some("integer"@)
            &&& sent_as(q, "start_time"@) == Some("timestamptz"@)
            &&& sent_as(q, "end_time"@) == Some("timestamptz"@)
            &&& region is Some ==> sent_as(q, "region"@) == Some("smallint"@)
            &&& count_threshold > 0 ==> sent_as(q, "count_threshold"@) == Some("bigint"@)
        }),
        ({
            let q = global_model(grid, interval, count_threshold);
            &&& sent_as(q, "xdiv"@) == Some("double precision"@)
            &&& sent_as(q, "ydiv"@) == Some("double precision"@)
            &&& sent_as(q, "srid"@) == Some("integer"@)
            &&& sent_as(q, "start_time"@) == Some("timestamptz"@)
            &&& sent_as(q, "end_time"@) == Some("timestamptz"@)
            &&& count_threshold > 0 ==> sent_as(q, "count_threshold"@) == Some("bigint"@)
        }),
{
    let c = grid_model(grid, interval, region, count_threshold).casts;
    lemma_casts_differ(c, seq![0, 1, 2, 3, 4, 6, 7, 8], region, count_threshold);
    assert(c[0].0 == "srid"@ && c[1].0 == "xmin"@ && c[2].0 == "xdiv"@ && c[3].0 == "ymin"@ && c[4].0 == "ydiv"@);
    assert(c[5].0 == "envelope_srid"@ && c[6].0 == "start_time"@ && c[7].0 == "end_time"@);
    assert(region is Some ==> c[8].0 == "region"@);
    assert(count_threshold > 0 ==> c[c.len() - 1].0 == "count_threshold"@);
    let g = global_model(grid, interval, count_threshold).casts;
    lemma_casts_differ(g, seq![0, 2, 4, 7, 8], None, count_threshold);
    assert(g[0].0 == "srid"@ && g[1].0 == "xdiv"@ && g[2].0 == "ydiv"@ && g[3].0 == "start_time"@ && g[4].0
        == "end_time"@);
    assert(count_threshold > 0 ==> g[g.len() - 1].0 == "count_threshold"@);
}

} // verus!
