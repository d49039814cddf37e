//! Metrics: the names and values that the service and the importers report,
//! and their StatsD form.
//!
//! A fractional value, such as a hit ratio, is handed in as its decimal text.

use vstd::prelude::*;
use vstd::slice::*;
use vstd::string::*;

use crate::number;
use crate::text;

verus! {

pub const STRIKES_GRID: &'static str = "strikes_grid";

pub const GLOBAL_STRIKES_GRID: &'static str = "global_strikes_grid";

pub const LOCAL_STRIKES_GRID: &'static str = "local_strikes_grid";

pub const HISTOGRAM: &'static str = "histogram";

pub const DB: &'static str = "db";

pub const TOTAL_COUNT: &'static str = "total_count";

pub const BG_COUNT: &'static str = "bg_count";

pub const CACHE_HITS: &'static str = "cache_hits";

pub const DATA_AREA: &'static str = "data_area";

pub const SIZE: &'static str = "size";

pub const POOL_WAIT: &'static str = "pool_wait";

pub const TOTAL: &'static str = "total";

/// Default StatsD receiver host.
pub const DEFAULT_STATSD_HOST: &'static str = "localhost";

/// Default StatsD receiver port.
pub const DEFAULT_STATSD_PORT: u16 = 8125;

/// Default prefix of the service metrics.
pub const DEFAULT_STATSD_PREFIX: &'static str = "org.blitzortung.service";

/// Default prefix of the importer metrics.
pub const IMPORT_STATSD_PREFIX: &'static str = "org.blitzortung.import";

/// The kind of a metric.
#[derive(Debug, Clone, Copy, PartialEq, Eq, Structural)]
pub enum MetricKind {
    Counter,
    Gauge,
    Timing,
}

/// The StatsD type of a kind.
pub open spec fn type_text(kind: MetricKind) -> Seq<char> {
    match kind {
        MetricKind::Counter => "c"@,
        MetricKind::Gauge => "g"@,
        MetricKind::Timing => "ms"@,
    }
}

/// A metric to report.
#[derive(Debug)]
pub struct MetricLine {
    pub name: String,
    pub value: String,
    pub kind: MetricKind,
}

/// What a [`MetricLine`] holds.
pub struct LineModel {
    pub name: Seq<char>,
    pub value: Seq<char>,
    pub kind: MetricKind,
}

impl View for MetricLine {
    type V = LineModel;

    open spec fn view(&self) -> LineModel {
        LineModel { name: self.name@, value: self.value@, kind: self.kind }
    }
}

impl LineModel {
    /// `name:value|type`.
    pub open spec fn text(self) -> Seq<char> {
        self.name + ":"@ + self.value + "|"@ + type_text(self.kind)
    }
}

/// What a list of metrics holds.
pub open spec fn lines_view(lines: Seq<MetricLine>) -> Seq<LineModel> {
    lines.map_values(|l: MetricLine| l@)
}

/// The StatsD texts of a list of metrics.
pub open spec fn line_texts(lines: Seq<LineModel>) -> Seq<Seq<char>> {
    lines.map_values(|l: LineModel| l.text())
}

/// `prefix.name`, or `name` when the prefix is empty.
pub open spec fn qualified(prefix: Seq<char>, name: Seq<char>) -> Seq<char> {
    if prefix.len() == 0 {
        name
    } else {
        prefix + "."@ + name
    }
}

/// Join the metric components with a dot.
pub fn metric_name(parts: &[&str]) -> (r: String)
    ensures
        r@ == text::join(parts@.map_values(|p: &str| p@), "."@),
{
    let ghost items = parts@.map_values(|p: &str| p@);
    let mut out: String = String::new();
    let mut i: usize = 0;
    assert(out@ =~= text::joined(items, "."@, 0));
    while i < parts.len()
        invariant
            i <= parts@.len(),
            items == parts@.map_values(|p: &str| p@),
            out@ == text::joined(items, "."@, i as int),
        decreases parts@.len() - i,
    {
        if i > 0 {
            out.append(".");
        }
        out.append(parts[i]);
        i = i + 1;
        assert(out@ =~= text::joined(items, "."@, i as int));
    }
    out
}

impl MetricLine {
    /// The StatsD form, `name:value|type`.
    pub fn render(&self) -> (r: String)
        ensures
            r@ == self@.text(),
    {
        let mut out = self.name.clone();
        out.append(":");
        out.append(self.value.as_str());
        out.append("|");
        match self.kind {
            MetricKind::Counter => out.append("c"),
            MetricKind::Gauge => out.append("g"),
            MetricKind::Timing => out.append("ms"),
        }
        out
    }

    /// The StatsD datagram of the metric under a prefix.
    pub fn datagram(&self, prefix: &str) -> (r: String)
        ensures
            r@ == qualified(prefix@, self.name@) + ":"@ + self.value@ + "|"@ + type_text(self.kind),
    {
        let mut name = String::from_str(prefix);
        if !prefix.is_empty() {
            name.append(".");
        }
        name.append(self.name.as_str());
        assert(name@ =~= qualified(prefix@, self.name@));
        let line = MetricLine { name, value: self.value.clone(), kind: self.kind };
        line.render()
    }
}

/// A metric with a dotted name of two components.
pub open spec fn named2(a: Seq<char>, b: Seq<char>) -> Seq<char> {
    a + "."@ + b
}

/// A metric with a dotted name of three components.
pub open spec fn named3(a: Seq<char>, b: Seq<char>, c: Seq<char>) -> Seq<char> {
    a + "."@ + b + "."@ + c
}

/// A counter increased by one.
pub open spec fn one_more(name: Seq<char>) -> LineModel {
    LineModel { name, value: number::decimal(1), kind: MetricKind::Counter }
}

/// A gauge.
pub open spec fn level(name: Seq<char>, value: Seq<char>) -> LineModel {
    LineModel { name, value, kind: MetricKind::Gauge }
}

/// A timing: whole milliseconds, at least one.
pub open spec fn duration(name: Seq<char>, micros: int) -> LineModel {
    LineModel {
        name,
        value: number::decimal(
            (if micros < 2000 {
                1
            } else {
                micros / 1000
            }) as nat,
        ),
        kind: MetricKind::Timing,
    }
}

/// The metrics of a region grid request.
pub open spec fn strikes_lines(minute_length: int, region: int, ratio: Seq<char>) -> Seq<LineModel> {
    let id = number::signed_decimal(region);
    let base = seq![
        one_more(named2(STRIKES_GRID@, TOTAL_COUNT@)),
        one_more(named3(STRIKES_GRID@, TOTAL_COUNT@, id)),
        level(named2(STRIKES_GRID@, CACHE_HITS@), ratio),
    ];
    if minute_length == 10 {
        base.push(one_more(named2(STRIKES_GRID@, BG_COUNT@))).push(
            one_more(named3(STRIKES_GRID@, BG_COUNT@, id)),
        )
    } else {
        base
    }
}

/// The metrics of a global grid request.
pub open spec fn global_lines(minute_length: int, ratio: Seq<char>) -> Seq<LineModel> {
    let base = seq![
        one_more(named2(STRIKES_GRID@, TOTAL_COUNT@)),
        one_more(named2(GLOBAL_STRIKES_GRID@, TOTAL_COUNT@)),
        level(named2(GLOBAL_STRIKES_GRID@, CACHE_HITS@), ratio),
    ];
    if minute_length == 10 {
        base.push(one_more(named2(STRIKES_GRID@, BG_COUNT@))).push(
            one_more(named2(GLOBAL_STRIKES_GRID@, BG_COUNT@)),
        )
    } else {
        base
    }
}

/// The metrics of a local grid request.
pub open spec fn local_lines(minute_length: int, data_area: int, ratio: Seq<char>) -> Seq<LineModel> {
    let base = seq![
        one_more(named2(STRIKES_GRID@, TOTAL_COUNT@)),
        one_more(named2(LOCAL_STRIKES_GRID@, TOTAL_COUNT@)),
        one_more(named3(LOCAL_STRIKES_GRID@, DATA_AREA@, number::signed_decimal(data_area))),
        level(named2(LOCAL_STRIKES_GRID@, CACHE_HITS@), ratio),
    ];
    if minute_length == 10 {
        base.push(one_more(named2(STRIKES_GRID@, BG_COUNT@))).push(
            one_more(named2(LOCAL_STRIKES_GRID@, BG_COUNT@)),
        )
    } else {
        base
    }
}

/// The metrics of an imported region.
pub open spec fn import_lines(region: int, count: int, get_micros: int, insert_micros: int) -> Seq<LineModel> {
    let id = number::decimal(region as nat);
    seq![
        LineModel { name: named2("strikes"@, id), value: number::decimal(count as nat), kind: MetricKind::Counter },
        level(named3("strikes"@, id, "count"@), number::decimal(count as nat)),
        duration(named3("strikes"@, id, "get"@), get_micros),
        duration(named3("strikes"@, id, "insert"@), insert_micros),
    ]
}

fn name2(a: &str, b: &str) -> (r: String)
    ensures
        r@ == named2(a@, b@),
{
    let mut out = String::from_str(a);
    out.append(".");
    out.append(b);
    out
}

fn name3(a: &str, b: &str, c: &str) -> (r: String)
    ensures
        r@ == named3(a@, b@, c@),
{
    let mut out = name2(a, b);
    out.append(".");
    out.append(c);
    out
}

fn incr(name: String) -> (r: MetricLine)
    ensures
        r@ == one_more(name@),
{
    MetricLine { name, value: number::decimal_text(1), kind: MetricKind::Counter }
}

fn gauge(name: String, value: String) -> (r: MetricLine)
    ensures
        r@ == level(name@, value@),
{
    MetricLine { name, value, kind: MetricKind::Gauge }
}

fn timing(name: String, micros: u64) -> (r: MetricLine)
    ensures
        r@ == duration(name@, micros as int),
{
    let millis: u64 = if micros < 2000 {
        1
    } else {
        micros / 1000
    };
    MetricLine { name, value: number::decimal_text(millis), kind: MetricKind::Timing }
}

/// The metrics of a region grid request.
pub fn for_strikes(minute_length: i64, region: i64, cache_ratio: &str) -> (r: Vec<MetricLine>)
    ensures
        lines_view(r@) == strikes_lines(minute_length as int, region as int, cache_ratio@),
{
    let id = number::signed_text(region);
    let mut out: Vec<MetricLine> = Vec::new();
    out.push(incr(name2(STRIKES_GRID, TOTAL_COUNT)));
    out.push(incr(name3(STRIKES_GRID, TOTAL_COUNT, id.as_str())));
    out.push(gauge(name2(STRIKES_GRID, CACHE_HITS), String::from_str(cache_ratio)));
    if minute_length == 10 {
        out.push(incr(name2(STRIKES_GRID, BG_COUNT)));
        out.push(incr(name3(STRIKES_GRID, BG_COUNT, id.as_str())));
    }
    assert(lines_view(out@) =~= strikes_lines(minute_length as int, region as int, cache_ratio@));
    out
}

/// The metrics of a global grid request.
pub fn for_global_strikes(minute_length: i64, cache_ratio: &str) -> (r: Vec<MetricLine>)
    ensures
        lines_view(r@) == global_lines(minute_length as int, cache_ratio@),
{
    let mut out: Vec<MetricLine> = Vec::new();
    out.push(incr(name2(STRIKES_GRID, TOTAL_COUNT)));
    out.push(incr(name2(GLOBAL_STRIKES_GRID, TOTAL_COUNT)));
    out.push(gauge(name2(GLOBAL_STRIKES_GRID, CACHE_HITS), String::from_str(cache_ratio)));
    if minute_length == 10 {
        out.push(incr(name2(STRIKES_GRID, BG_COUNT)));
        out.push(incr(name2(GLOBAL_STRIKES_GRID, BG_COUNT)));
    }
    assert(lines_view(out@) =~= global_lines(minute_length as int, cache_ratio@));
    out
}

/// The metrics of a local grid request.
pub fn for_local_strikes(minute_length: i64, data_area: i64, cache_ratio: &str) -> (r: Vec<MetricLine>)
    ensures
        lines_view(r@) == local_lines(minute_length as int, data_area as int, cache_ratio@),
{
    let area = number::signed_text(data_area);
    let mut out: Vec<MetricLine> = Vec::new();
    out.push(incr(name2(STRIKES_GRID, TOTAL_COUNT)));
    out.push(incr(name2(LOCAL_STRIKES_GRID, TOTAL_COUNT)));
    out.push(incr(name3(LOCAL_STRIKES_GRID, DATA_AREA, area.as_str())));
    out.push(gauge(name2(LOCAL_STRIKES_GRID, CACHE_HITS), String::from_str(cache_ratio)));
    if minute_length == 10 {
        out.push(incr(name2(STRIKES_GRID, BG_COUNT)));
        out.push(incr(name2(LOCAL_STRIKES_GRID, BG_COUNT)));
    }
    assert(lines_view(out@) =~= local_lines(minute_length as int, data_area as int, cache_ratio@));
    out
}

/// The lines of [`for_histogram`].
pub open spec fn histogram_lines(ratio: Seq<char>, size: nat) -> Seq<LineModel> {
    seq![level(named2(HISTOGRAM@, CACHE_HITS@), ratio), level(named2(HISTOGRAM@, SIZE@), number::decimal(size))]
}

/// The metrics of a histogram lookup.
pub fn for_histogram(cache_ratio: &str, cache_size: usize) -> (r: Vec<MetricLine>)
    ensures
        lines_view(r@) == histogram_lines(cache_ratio@, cache_size as nat),
{
    let mut out: Vec<MetricLine> = Vec::new();
    out.push(gauge(name2(HISTOGRAM, CACHE_HITS), String::from_str(cache_ratio)));
    out.push(gauge(name2(HISTOGRAM, SIZE), number::decimal_text(cache_size as u64)));
    assert(lines_view(out@) =~= histogram_lines(cache_ratio@, cache_size as nat));
    out
}

/// The wait for a database connection, given in microseconds.
pub fn for_db_pool_wait(wait_micros: u64) -> (r: MetricLine)
    ensures
        r@ == duration(named2(DB@, POOL_WAIT@), wait_micros as int),
{
    timing(name2(DB, POOL_WAIT), wait_micros)
}

/// The time that a grid request took, given in microseconds.
pub fn for_grid_total(grid: &str, elapsed_micros: u64) -> (r: MetricLine)
    ensures
        r@ == duration(named2(grid@, TOTAL@), elapsed_micros as int),
{
    timing(name2(grid, TOTAL), elapsed_micros)
}

/// A query for the cells of a grid was run.
pub fn for_grid_query() -> (r: MetricLine)
    ensures
        r@ == one_more(named2("strikes_grid_query"@, "count"@)),
{
    incr(name2("strikes_grid_query", "count"))
}

/// A query for a histogram was run.
pub fn for_histogram_query() -> (r: MetricLine)
    ensures
        r@ == one_more(named3(HISTOGRAM@, "query"@, "count"@)),
{
    incr(name3(HISTOGRAM, "query", "count"))
}

/// The metrics of an imported region: strikes, and the time spent fetching and
/// inserting them.
pub fn for_import(region: u32, count: u64, get_micros: u64, insert_micros: u64) -> (r: Vec<MetricLine>)
    ensures
        lines_view(r@) == import_lines(region as int, count as int, get_micros as int, insert_micros as int),
{
    let id = number::decimal_text(region as u64);
    let mut out: Vec<MetricLine> = Vec::new();
    out.push(
        MetricLine {
            name: name2("strikes", id.as_str()),
            value: number::decimal_text(count),
            kind: MetricKind::Counter,
        },
    );
    out.push(gauge(name3("strikes", id.as_str(), "count"), number::decimal_text(count)));
    out.push(timing(name3("strikes", id.as_str(), "get"), get_micros));
    out.push(timing(name3("strikes", id.as_str(), "insert"), insert_micros));
    assert(lines_view(out@) =~= import_lines(
        region as int,
        count as int,
        get_micros as int,
        insert_micros as int,
    ));
    out
}

/// The number of failed import attempts.
pub fn for_import_error_count(count: u64) -> (r: MetricLine)
    ensures
        r@ == level(named2("strikes"@, "error_count"@), number::decimal(count as nat)),
{
    gauge(name2("strikes", "error_count"), number::decimal_text(count))
}

/// The number of strikes that an update inserted.
pub fn for_update_imported(count: u64) -> (r: MetricLine)
    ensures
        r@ == level(named2("strikes"@, "imported"@), number::decimal(count as nat)),
{
    gauge(name2("strikes", "imported"), number::decimal_text(count))
}

/// The metrics of a strike received live: its count and its delay.
pub fn for_websocket_strike(delay: &str) -> (r: Vec<MetricLine>)
    ensures
        lines_view(r@) == seq![one_more("strikes"@), level(named2("strikes"@, "delay"@), delay@)],
{
    let mut out: Vec<MetricLine> = Vec::new();
    out.push(incr(String::from_str("strikes")));
    out.push(gauge(name2("strikes", "delay"), String::from_str(delay)));
    assert(lines_view(out@) =~= seq![one_more("strikes"@), level(named2("strikes"@, "delay"@), delay@)]);
    out
}

/// Metrics that drop everything.
#[derive(Debug)]
pub struct NoopMetrics;

/// Metrics that record every StatsD line.
#[derive(Debug)]
pub struct RecordingMetrics {
    lines: Vec<String>,
}

impl View for RecordingMetrics {
    type V = Seq<Seq<char>>;

    closed spec fn view(&self) -> Seq<Seq<char>> {
        text::texts(self.lines@)
    }
}

impl RecordingMetrics {
    /// A record without lines.
    pub fn new() -> (r: RecordingMetrics)
        ensures
            r@ == Seq::<Seq<char>>::empty(),
    {
        let r = RecordingMetrics { lines: Vec::new() };
        assert(r@ =~= Seq::<Seq<char>>::empty());
        r
    }

    /// The recorded `name:value|type` lines, in order.
    pub fn lines(&self) -> (r: Vec<String>)
        ensures
            text::texts(r@) == self@,
    {
        let mut out: Vec<String> = Vec::new();
        let mut i: usize = 0;
        while i < self.lines.len()
            invariant
                i <= self.lines@.len(),
                self@ == text::texts(self.lines@),
                text::texts(out@) == self@.take(i as int),
            decreases self.lines@.len() - i,
        {
            let ghost before = text::texts(out@);
            assert(self@[i as int] == self.lines@[i as int]@);
            out.push(self.lines[i].clone());
            assert(text::texts(out@) =~= before.push(self@[i as int]));
            assert(self@.take(i + 1) =~= before.push(self@[i as int]));
            i = i + 1;
        }
        assert(self@.take(i as int) =~= self@);
        out
    }

    /// Record one line.
    pub fn record(&mut self, line: String)
        ensures
            final(self)@ == old(self)@.push(line@),
    {
        let ghost before = self@;
        self.lines.push(line);
        assert(self@ =~= before.push(line@));
    }

    /// Record a list of metrics.
    pub fn record_all(&mut self, lines: &[MetricLine])
        ensures
            final(self)@ == old(self)@ + line_texts(lines_view(lines@)),
    {
        let ghost all = line_texts(lines_view(lines@));
        let mut i: usize = 0;
        assert(self@ =~= old(self)@ + all.take(0));
        while i < lines.len()
            invariant
                i <= lines@.len(),
                all == line_texts(lines_view(lines@)),
                self@ == old(self)@ + all.take(i as int),
            decreases lines@.len() - i,
        {
            self.record(lines[i].render());
            i = i + 1;
            assert(self@ =~= old(self)@ + all.take(i as int));
        }
        assert(all.take(i as int) =~= all);
    }
}

proof fn lemma_one_more(name: Seq<char>)
    ensures
        one_more(name).text() == name + ":1|c"@,
{
    reveal_strlit(":");
    reveal_strlit("|");
    reveal_strlit("c");
    reveal_strlit(":1|c");
    assert(number::decimal(1) =~= seq!['1']) by {
        reveal_with_fuel(number::decimal, 2);
    }
    assert(one_more(name).text() =~= name + ":1|c"@);
}

proof fn lemma_level(name: Seq<char>, value: Seq<char>)
    ensures
        level(name, value).text() == name + ":"@ + value + "|g"@,
{
    reveal_strlit("|");
    reveal_strlit("g");
    reveal_strlit("|g");
    assert(level(name, value).text() =~= name + ":"@ + value + "|g"@);
}

proof fn lemma_grid_names()
    ensures
        named2(STRIKES_GRID@, TOTAL_COUNT@) == "strikes_grid.total_count"@,
        named2(STRIKES_GRID@, BG_COUNT@) == "strikes_grid.bg_count"@,
        named2(STRIKES_GRID@, CACHE_HITS@) == "strikes_grid.cache_hits"@,
{
    reveal_strlit(".");
    reveal_strlit("strikes_grid");
    reveal_strlit("total_count");
    reveal_strlit("bg_count");
    reveal_strlit("cache_hits");
    reveal_strlit("strikes_grid.total_count");
    reveal_strlit("strikes_grid.bg_count");
    reveal_strlit("strikes_grid.cache_hits");
    assert(named2(STRIKES_GRID@, TOTAL_COUNT@) =~= "strikes_grid.total_count"@);
    assert(named2(STRIKES_GRID@, BG_COUNT@) =~= "strikes_grid.bg_count"@);
    assert(named2(STRIKES_GRID@, CACHE_HITS@) =~= "strikes_grid.cache_hits"@);
}

proof fn lemma_global_names()
    ensures
        named2(GLOBAL_STRIKES_GRID@, TOTAL_COUNT@) == "global_strikes_grid.total_count"@,
        named2(GLOBAL_STRIKES_GRID@, BG_COUNT@) == "global_strikes_grid.bg_count"@,
        named2(GLOBAL_STRIKES_GRID@, CACHE_HITS@) == "global_strikes_grid.cache_hits"@,
{
    reveal_strlit(".");
    reveal_strlit("global_strikes_grid");
    reveal_strlit("total_count");
    reveal_strlit("bg_count");
    reveal_strlit("cache_hits");
    reveal_strlit("global_strikes_grid.total_count");
    reveal_strlit("global_strikes_grid.bg_count");
    reveal_strlit("global_strikes_grid.cache_hits");
    assert(named2(GLOBAL_STRIKES_GRID@, TOTAL_COUNT@) =~= "global_strikes_grid.total_count"@);
    assert(named2(GLOBAL_STRIKES_GRID@, BG_COUNT@) =~= "global_strikes_grid.bg_count"@);
    assert(named2(GLOBAL_STRIKES_GRID@, CACHE_HITS@) =~= "global_strikes_grid.cache_hits"@);
}

proof fn lemma_local_names()
    ensures
        named2(LOCAL_STRIKES_GRID@, TOTAL_COUNT@) == "local_strikes_grid.total_count"@,
        named2(LOCAL_STRIKES_GRID@, BG_COUNT@) == "local_strikes_grid.bg_count"@,
        named2(LOCAL_STRIKES_GRID@, CACHE_HITS@) == "local_strikes_grid.cache_hits"@,
        named2(LOCAL_STRIKES_GRID@, DATA_AREA@) == "local_strikes_grid.data_area"@,
{
    reveal_strlit(".");
    reveal_strlit("local_strikes_grid");
    reveal_strlit("total_count");
    reveal_strlit("bg_count");
    reveal_strlit("cache_hits");
    reveal_strlit("data_area");
    reveal_strlit("local_strikes_grid.total_count");
    reveal_strlit("local_strikes_grid.bg_count");
    reveal_strlit("local_strikes_grid.cache_hits");
    reveal_strlit("local_strikes_grid.data_area");
    assert(named2(LOCAL_STRIKES_GRID@, TOTAL_COUNT@) =~= "local_strikes_grid.total_count"@);
    assert(named2(LOCAL_STRIKES_GRID@, BG_COUNT@) =~= "local_strikes_grid.bg_count"@);
    assert(named2(LOCAL_STRIKES_GRID@, CACHE_HITS@) =~= "local_strikes_grid.cache_hits"@);
    assert(named2(LOCAL_STRIKES_GRID@, DATA_AREA@) =~= "local_strikes_grid.data_area"@);
}

/// The texts of a region grid request: it is counted in all and for its
/// region, and counted as a background request too when it asks for ten
/// minutes, and only then.
pub proof fn region_requests_are_counted(minute_length: int, region: int, ratio: Seq<char>)
    ensures
        ({
            let texts = line_texts(strikes_lines(minute_length, region, ratio));
            let id = number::signed_decimal(region);
            &&& texts.len() == if minute_length == 10 { 5int } else { 3 }
            &&& texts[0] == "strikes_grid.total_count"@ + ":1|c"@
            &&& texts[1] == "strikes_grid.total_count"@ + "."@ + id + ":1|c"@
            &&& texts[2] == "strikes_grid.cache_hits"@ + ":"@ + ratio + "|g"@
            &&& minute_length == 10 ==> texts[3] == "strikes_grid.bg_count"@ + ":1|c"@ && texts[4]
                == "strikes_grid.bg_count"@ + "."@ + id + ":1|c"@
        }),
{
    let id = number::signed_decimal(region);
    lemma_grid_names();
    lemma_one_more(named2(STRIKES_GRID@, TOTAL_COUNT@));
    lemma_one_more(named3(STRIKES_GRID@, TOTAL_COUNT@, id));
    lemma_level(named2(STRIKES_GRID@, CACHE_HITS@), ratio);
    lemma_one_more(named2(STRIKES_GRID@, BG_COUNT@));
    lemma_one_more(named3(STRIKES_GRID@, BG_COUNT@, id));
}

/// The texts of a global grid request: it is counted among all grids and
/// among the global ones, for ten minutes as a background request too.
pub proof fn global_requests_are_counted(minute_length: int, ratio: Seq<char>)
    ensures
        ({
            let texts = line_texts(global_lines(minute_length, ratio));
            &&& texts.len() == if minute_length == 10 { 5int } else { 3 }
            &&& texts[0] == "strikes_grid.total_count"@ + ":1|c"@
            &&& texts[1] == "global_strikes_grid.total_count"@ + ":1|c"@
            &&& texts[2] == "global_strikes_grid.cache_hits"@ + ":"@ + ratio + "|g"@
            &&& minute_length == 10 ==> texts[3] == "strikes_grid.bg_count"@ + ":1|c"@ && texts[4]
                == "global_strikes_grid.bg_count"@ + ":1|c"@
        }),
{
    lemma_grid_names();
    lemma_global_names();
    lemma_one_more(named2(STRIKES_GRID@, TOTAL_COUNT@));
    lemma_one_more(named2(GLOBAL_STRIKES_GRID@, TOTAL_COUNT@));
    lemma_level(named2(GLOBAL_STRIKES_GRID@, CACHE_HITS@), ratio);
    lemma_one_more(named2(STRIKES_GRID@, BG_COUNT@));
    lemma_one_more(named2(GLOBAL_STRIKES_GRID@, BG_COUNT@));
}

/// The texts of a local grid request: it is counted among all grids, among the
/// local ones and for its data area, for ten minutes as a background request
/// too.
pub proof fn local_requests_are_counted(minute_length: int, data_area: int, ratio: Seq<char>)
    ensures
        ({
            let texts = line_texts(local_lines(minute_length, data_area, ratio));
            &&& texts.len() == if minute_length == 10 { 6int } else { 4 }
            &&& texts[0] == "strikes_grid.total_count"@ + ":1|c"@
            &&& texts[1] == "local_strikes_grid.total_count"@ + ":1|c"@
            &&& texts[2] == "local_strikes_grid.data_area"@ + "."@ + number::signed_decimal(data_area) + ":1|c"@
            &&& texts[3] == "local_strikes_grid.cache_hits"@ + ":"@ + ratio + "|g"@
            &&& minute_length == 10 ==> texts[4] == "strikes_grid.bg_count"@ + ":1|c"@ && texts[5]
                == "local_strikes_grid.bg_count"@ + ":1|c"@
        }),
{
    lemma_grid_names();
    lemma_local_names();
    lemma_one_more(named2(STRIKES_GRID@, TOTAL_COUNT@));
    lemma_one_more(named2(LOCAL_STRIKES_GRID@, TOTAL_COUNT@));
    lemma_one_more(named3(LOCAL_STRIKES_GRID@, DATA_AREA@, number::signed_decimal(data_area)));
    lemma_level(named2(LOCAL_STRIKES_GRID@, CACHE_HITS@), ratio);
    lemma_one_more(named2(STRIKES_GRID@, BG_COUNT@));
    lemma_one_more(named2(LOCAL_STRIKES_GRID@, BG_COUNT@));
}

/// A timing shows the whole milliseconds that have passed, and one of them
/// when less than one has.
pub proof fn timings_are_whole_milliseconds(name: Seq<char>, micros: int, millis: nat)
    requires
        millis >= 1,
        millis * 1000 <= micros < (millis + 1) * 1000 || (millis == 1 && 0 <= micros < 1000),
    ensures
        duration(name, micros).text() == name + ":"@ + number::decimal(millis) + "|ms"@,
{
    reveal_strlit("|");
    reveal_strlit("ms");
    reveal_strlit("|ms");
    assert(duration(name, micros).value == number::decimal(millis));
    assert(duration(name, micros).text() =~= name + ":"@ + number::decimal(millis) + "|ms"@);
}

/// The texts of an imported region: the strikes are counted and shown, then
/// come the time of fetching and the time of inserting.
pub proof fn imports_show_their_strikes_and_times(region: nat, count: nat, get_millis: nat, insert_millis: nat)
    requires
        get_millis >= 1,
        insert_millis >= 1,
    ensures
        ({
            let texts = line_texts(
                import_lines(region as int, count as int, get_millis as int * 1000, insert_millis as int * 1000),
            );
            let name = "strikes"@ + "."@ + number::decimal(region);
            &&& texts.len() == 4
            &&& texts[0] == name + ":"@ + number::decimal(count) + "|c"@
            &&& texts[1] == name + "."@ + "count"@ + ":"@ + number::decimal(count) + "|g"@
            &&& texts[2] == name + "."@ + "get"@ + ":"@ + number::decimal(get_millis) + "|ms"@
            &&& texts[3] == name + "."@ + "insert"@ + ":"@ + number::decimal(insert_millis) + "|ms"@
        }),
{
    let name = "strikes"@ + "."@ + number::decimal(region);
    reveal_strlit("|");
    reveal_strlit("c");
    reveal_strlit("|c");
    lemma_level(name + "."@ + "count"@, number::decimal(count));
    timings_are_whole_milliseconds(name + "."@ + "get"@, get_millis as int * 1000, get_millis);
    timings_are_whole_milliseconds(name + "."@ + "insert"@, insert_millis as int * 1000, insert_millis);
    let lines = import_lines(region as int, count as int, get_millis as int * 1000, insert_millis as int * 1000);
    assert(lines[0].text() =~= name + ":"@ + number::decimal(count) + "|c"@);
}

/// The texts of a histogram lookup.
pub proof fn histogram_lookups_show_the_cache(ratio: Seq<char>, size: nat)
    ensures
        line_texts(histogram_lines(ratio, size)).len() == 2,
        line_texts(histogram_lines(ratio, size))[0] == "histogram"@ + "."@ + "cache_hits"@ + ":"@ + ratio + "|g"@,
        line_texts(histogram_lines(ratio, size))[1] == "histogram"@ + "."@ + "size"@ + ":"@ + number::decimal(size)
            + "|g"@,
{
    lemma_level("histogram"@ + "."@ + "cache_hits"@, ratio);
    lemma_level("histogram"@ + "."@ + "size"@, number::decimal(size));
}

} // verus!
