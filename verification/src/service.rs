//! The service: validation of data requests, their cache keys, and the shape
//! of the grid responses.
//!
//! A data request runs in steps.  A `jsonrpc_*` method checks the arguments
//! and the request and yields the [`GridRequest`] to serve.  Its response
//! comes from the cache, or is produced: the queries of the request are run,
//! their rows are shaped, and the response is built and stored.

use std::sync::Arc;

use vstd::prelude::*;
use vstd::slice::*;
use vstd::string::*;

use crate::builder;
use crate::cache::{ServiceCache, ServiceCacheModel};
use crate::clock;
use crate::executor;
use crate::executor::{Cell, Row};
use crate::geom::Grid;
use crate::ieee::Real;
use crate::json;
use crate::json::{Json, JsonModel};
use crate::number;
use crate::query;
use crate::query::{Query, TimeInterval};
use crate::request::Request;
use crate::text;

verus! {

pub const SRID: i64 = 4326;

/// The content type of a data request.
pub const JSON_CONTENT_TYPE: &'static str = "text/json";

pub const MIN_GRID_BASE_LENGTH: i64 = 5000;

pub const GLOBAL_MIN_GRID_BASE_LENGTH: i64 = 25000;

pub const VALID_GRID_BASE_LENGTHS: [i64; 5] = [5000, 10_000, 25_000, 50_000, 100_000];

pub const MAX_REGION: i64 = 7;

pub const MAX_MINUTES_PER_DAY: i64 = 1440;

pub const DEFAULT_MINUTE_LENGTH: i64 = 60;

pub const HISTOGRAM_MINUTE_THRESHOLD: i64 = 10;

/// Histogram bucket size in minutes.
pub const HISTOGRAM_BIN_SIZE: i64 = 5;

/// Errors that abort a request.
#[derive(Debug)]
pub enum ServiceError {
    /// A database query failed.
    Database(String),
    /// A row was missing columns or had an unexpected type.
    MissingColumn(&'static str),
    /// The histogram bin index was out of range.
    HistogramIndex(i64),
}

impl ServiceError {
    /// The message of the error.
    pub fn message(&self) -> (r: String)
        ensures
            r@ == (match self {
                ServiceError::Database(msg) => "database error: "@ + msg@,
                ServiceError::MissingColumn(col) => "missing column: "@ + col@,
                ServiceError::HistogramIndex(i) => "histogram index out of range: "@ + number::signed_decimal(
                    *i as int,
                ),
            }),
    {
        match self {
            ServiceError::Database(msg) => String::from_str("database error: ").concat(msg.as_str()),
            ServiceError::MissingColumn(col) => String::from_str("missing column: ").concat(col),
            ServiceError::HistogramIndex(i) => {
                let mut out = String::from_str("histogram index out of range: ");
                number::push_signed(&mut out, *i);
                out
            },
        }
    }
}

// ---------------------------------------------------------------------
// time constraints
// ---------------------------------------------------------------------

/// Limits on the time span of a request.
#[derive(Debug, Clone, Copy, PartialEq, Eq, Structural)]
pub struct TimeConstraint {
    pub default_minute_length: i64,
    pub max_minute_length: i64,
}

impl TimeConstraint {
    /// The length that a requested length stands for.
    pub open spec fn length(self, minute_length: int) -> int {
        let n = builder::clamped(0, minute_length, self.max_minute_length as int);
        if n == 0 {
            self.default_minute_length as int
        } else {
            n
        }
    }

    /// The offset that a requested offset stands for.
    pub open spec fn offset(self, minute_length: int, minute_offset: int) -> int {
        builder::clamped(-self.max_minute_length + self.length(minute_length), minute_offset, 0)
    }

    /// A constraint with the given default and maximum.
    pub fn new(default_minute_length: i64, max_minute_length: i64) -> (r: TimeConstraint)
        ensures
            r == (TimeConstraint { default_minute_length, max_minute_length }),
    {
        TimeConstraint { default_minute_length, max_minute_length }
    }

    /// Force a time span into the limits: a length of at most the maximum, the
    /// default for none, and an offset that keeps the span within the maximum
    /// before now.
    pub fn enforce(&self, minute_length: i64, minute_offset: i64) -> (r: (i64, i64))
        requires
            self.max_minute_length > i64::MIN,
            i64::MIN <= -self.max_minute_length + self.length(minute_length as int) <= i64::MAX,
        ensures
            r.0 == self.length(minute_length as int),
            r.1 == self.offset(minute_length as int, minute_offset as int),
    {
        let forced: i64 = builder::force_range(0, minute_length, self.max_minute_length);
        let length: i64 = if forced == 0 {
            self.default_minute_length
        } else {
            forced
        };
        let offset: i64 = builder::force_range(-self.max_minute_length + length, minute_offset, 0);
        (length, offset)
    }
}

/// The time constraint of the service.
pub open spec fn day_constraint() -> TimeConstraint {
    TimeConstraint { default_minute_length: DEFAULT_MINUTE_LENGTH, max_minute_length: MAX_MINUTES_PER_DAY }
}

/// A constrained time span is not empty, starts no earlier than a day ago and
/// ends no later than now.
pub proof fn constrained_spans_lie_in_the_last_day(minute_length: int, minute_offset: int)
    ensures
        1 <= day_constraint().length(minute_length) <= MAX_MINUTES_PER_DAY,
        day_constraint().offset(minute_length, minute_offset) <= 0,
        day_constraint().offset(minute_length, minute_offset) - day_constraint().length(minute_length)
            >= -MAX_MINUTES_PER_DAY,
{
}

// ---------------------------------------------------------------------
// grid requests
// ---------------------------------------------------------------------

/// The grid that a request asks for.
#[derive(Debug, Clone, Copy, PartialEq, Eq, Structural)]
pub enum GridKind {
    /// The grid of a region.
    Region { region: i64 },
    /// The world-wide grid.
    Global,
    /// A local grid around a tile.
    Local { x: i64, y: i64, data_area: i64 },
}

/// A validated grid request.
#[derive(Debug, Clone, Copy, PartialEq, Eq, Structural)]
pub struct GridRequest {
    pub kind: GridKind,
    pub minute_length: i64,
    pub minute_offset: i64,
    pub grid_base_length: i64,
    pub count_threshold: i64,
}

/// The first `n` named values of a cache key.
pub open spec fn keyed(names: Seq<Seq<char>>, values: Seq<int>, n: int) -> Seq<char>
    decreases n,
{
    if n <= 0 {
        Seq::empty()
    } else {
        keyed(names, values, n - 1) + key_part(names[n - 1], values[n - 1])
    }
}

/// `name=value`, for a cache key.
pub open spec fn key_part(name: Seq<char>, value: int) -> Seq<char> {
    name + number::signed_decimal(value)
}

/// The names of the values in the key of a request.
pub open spec fn key_names(kind: GridKind) -> Seq<Seq<char>> {
    match kind {
        GridKind::Region { region } => seq![
            "get_strikes_grid|minute_length="@,
            "|grid_baselength="@,
            "|minute_offset="@,
            "|region="@,
            "|count_threshold="@,
        ],
        GridKind::Global => seq![
            "get_global_strikes_grid|minute_length="@,
            "|grid_baselength="@,
            "|minute_offset="@,
            "|count_threshold="@,
        ],
        GridKind::Local { x, y, data_area } => seq![
            "get_local_strikes_grid|x="@,
            "|y="@,
            "|grid_baselength="@,
            "|minute_length="@,
            "|minute_offset="@,
            "|count_threshold="@,
            "|data_area="@,
        ],
    }
}

impl GridRequest {
    /// The values in the key of the request.
    pub open spec fn key_values(self) -> Seq<int> {
        match self.kind {
            GridKind::Region { region } => seq![
                self.minute_length as int,
                self.grid_base_length as int,
                self.minute_offset as int,
                region as int,
                self.count_threshold as int,
            ],
            GridKind::Global => seq![
                self.minute_length as int,
                self.grid_base_length as int,
                self.minute_offset as int,
                self.count_threshold as int,
            ],
            GridKind::Local { x, y, data_area } => seq![
                x as int,
                y as int,
                self.grid_base_length as int,
                self.minute_length as int,
                self.minute_offset as int,
                self.count_threshold as int,
                data_area as int,
            ],
        }
    }

    /// The cache key of the request.
    pub open spec fn key(self) -> Seq<char> {
        keyed(key_names(self.kind), self.key_values(), self.key_values().len() as int)
    }

    /// The cache key of the request.
    pub fn cache_key(&self) -> (r: String)
        ensures
            r@ == self.key(),
    {
        let ghost names = key_names(self.kind);
        let ghost values = self.key_values();
        let mut out: String = String::new();
        assert(out@ =~= keyed(names, values, 0));
        match self.kind {
            GridKind::Region { region } => {
                push_part(&mut out, "get_strikes_grid|minute_length=", self.minute_length);
                assert(out@ == keyed(names, values, 1));
                push_part(&mut out, "|grid_baselength=", self.grid_base_length);
                assert(out@ == keyed(names, values, 2));
                push_part(&mut out, "|minute_offset=", self.minute_offset);
                assert(out@ == keyed(names, values, 3));
                push_part(&mut out, "|region=", region);
                assert(out@ == keyed(names, values, 4));
                push_part(&mut out, "|count_threshold=", self.count_threshold);
            },
            GridKind::Global => {
                push_part(&mut out, "get_global_strikes_grid|minute_length=", self.minute_length);
                assert(out@ == keyed(names, values, 1));
                push_part(&mut out, "|grid_baselength=", self.grid_base_length);
                assert(out@ == keyed(names, values, 2));
                push_part(&mut out, "|minute_offset=", self.minute_offset);
                assert(out@ == keyed(names, values, 3));
                push_part(&mut out, "|count_threshold=", self.count_threshold);
            },
            GridKind::Local { x, y, data_area } => {
                push_part(&mut out, "get_local_strikes_grid|x=", x);
                assert(out@ == keyed(names, values, 1));
                push_part(&mut out, "|y=", y);
                assert(out@ == keyed(names, values, 2));
                push_part(&mut out, "|grid_baselength=", self.grid_base_length);
                assert(out@ == keyed(names, values, 3));
                push_part(&mut out, "|minute_length=", self.minute_length);
                assert(out@ == keyed(names, values, 4));
                push_part(&mut out, "|minute_offset=", self.minute_offset);
                assert(out@ == keyed(names, values, 5));
                push_part(&mut out, "|count_threshold=", self.count_threshold);
                assert(out@ == keyed(names, values, 6));
                push_part(&mut out, "|data_area=", data_area);
            },
        }
        out
    }
}

fn push_part(out: &mut String, name: &str, value: i64)
    ensures
        final(out)@ == old(out)@ + key_part(name@, value as int),
{
    out.append(name);
    number::push_signed(out, value);
    assert(out@ =~= old(out)@ + key_part(name@, value as int));
}

/// The data area of a local grid is at least 5 degrees.
pub open spec fn area_degrees(data_area: int) -> int {
    if data_area < 5 {
        5
    } else {
        data_area
    }
}

/// The data area of a local grid is at least 5 degrees.
pub fn round_max_5(data_area: i64) -> (r: i64)
    ensures
        r == area_degrees(data_area as int),
        r == (if data_area < 5 {
            5
        } else {
            data_area
        }),
{
    if data_area < 5 {
        5
    } else {
        data_area
    }
}

// ---------------------------------------------------------------------
// refused requests
// ---------------------------------------------------------------------

/// The `Debug` form of an optional text.
pub open spec fn debug_option(o: Option<Seq<char>>) -> Seq<char> {
    match o {
        Some(s) => "Some("@ + text::debug_text(s) + ")"@,
        None => "None"@,
    }
}

fn quoted_option(o: Option<&str>) -> (r: String)
    ensures
        r@ == debug_option(
            match o {
                Some(s) => Some(s@),
                None => None,
            },
        ),
{
    match o {
        Some(s) => String::from_str("Some(").concat(text::quoted(s).as_str()).concat(")"),
        None => String::from_str("None"),
    }
}

/// Why a data request is refused, `None` when it is not: the client address is
/// blocked, the user agent is not a versioned client, the content type is not
/// `text/json`, a referer is set, or the grid size is below the minimum or not
/// supported; the first of these that holds.
pub open spec fn refusal(
    forbidden_ips: Seq<Seq<char>>,
    request: Request,
    client: Option<Seq<char>>,
    user_agent_version: int,
    grid_base_length: int,
    min_grid_base_length: int,
) -> Option<Seq<char>> {
    let content_type = text::opt_text(request.content_type);
    let referer = text::opt_text(request.referer);
    if client matches Some(c) && forbidden_ips.contains(c) {
        Some("blocked ip "@ + debug_option(client))
    } else if user_agent_version == 0 {
        Some(
            "invalid user agent "@ + text::debug_text(
                match text::opt_text(request.user_agent) {
                    Some(agent) => agent,
                    None => Seq::empty(),
                },
            ),
        )
    } else if content_type != Some(JSON_CONTENT_TYPE@) {
        Some("bad content type "@ + debug_option(content_type))
    } else if referer matches Some(r) && r.len() > 0 {
        Some("referer "@ + debug_option(referer))
    } else if grid_base_length < min_grid_base_length {
        Some(
            "grid_base_length "@ + number::signed_decimal(grid_base_length) + " below minimum "@
                + number::signed_decimal(min_grid_base_length),
        )
    } else if !is_valid_length(grid_base_length) {
        Some("invalid grid_base_length "@ + number::signed_decimal(grid_base_length))
    } else {
        None
    }
}

/// Whether a grid size is one of [`VALID_GRID_BASE_LENGTHS`].
pub open spec fn is_valid_length(n: int) -> bool {
    n == 5000 || n == 10_000 || n == 25_000 || n == 50_000 || n == 100_000
}

fn supported_length(n: i64) -> (r: bool)
    ensures
        r == is_valid_length(n as int),
{
    let lengths = VALID_GRID_BASE_LENGTHS;
    n == lengths[0] || n == lengths[1] || n == lengths[2] || n == lengths[3] || n == lengths[4]
}

// ---------------------------------------------------------------------
// the service
// ---------------------------------------------------------------------

/// The service.
#[verifier::reject_recursive_types(T)]
pub struct Service<T> {
    cache: ServiceCache<T>,
    forbidden_ips: Vec<String>,
    /// Number of `check` calls so far.
    check_count: i64,
}

/// The arguments of a region grid request, as integers.
pub open spec fn region_request(
    minute_length: int,
    grid_base_length: int,
    minute_offset: int,
    region: int,
    count_threshold: int,
) -> GridRequest {
    GridRequest {
        kind: GridKind::Region { region: builder::clamped(1, region, MAX_REGION as int) as i64 },
        minute_length: day_constraint().length(minute_length) as i64,
        minute_offset: day_constraint().offset(minute_length, minute_offset) as i64,
        grid_base_length: grid_base_length as i64,
        count_threshold: at_least_zero(count_threshold) as i64,
    }
}

/// The arguments of a global grid request, as integers.
pub open spec fn global_request(
    minute_length: int,
    grid_base_length: int,
    minute_offset: int,
    count_threshold: int,
) -> GridRequest {
    GridRequest {
        kind: GridKind::Global,
        minute_length: day_constraint().length(minute_length) as i64,
        minute_offset: day_constraint().offset(minute_length, minute_offset) as i64,
        grid_base_length: grid_base_length as i64,
        count_threshold: at_least_zero(count_threshold) as i64,
    }
}

/// The arguments of a local grid request, as integers.
pub open spec fn local_request(
    x: int,
    y: int,
    grid_base_length: int,
    minute_length: int,
    minute_offset: int,
    count_threshold: int,
    data_area: int,
) -> GridRequest {
    GridRequest {
        kind: GridKind::Local {
            x: x as i64,
            y: y as i64,
            data_area: (if data_area < 5 {
                5
            } else {
                data_area
            }) as i64,
        },
        minute_length: day_constraint().length(minute_length) as i64,
        minute_offset: day_constraint().offset(minute_length, minute_offset) as i64,
        grid_base_length: grid_base_length as i64,
        count_threshold: at_least_zero(count_threshold) as i64,
    }
}

/// A count threshold is not negative.
pub open spec fn at_least_zero(n: int) -> int {
    if n < 0 {
        0
    } else {
        n
    }
}

/// Whether `after` is `before` with the given reason recorded.
pub open spec fn refused_with(before: Request, after: Request, reason: Seq<char>) -> bool {
    &&& text::opt_text(after.blocked_reason) == Some(reason)
    &&& after == (Request { blocked_reason: after.blocked_reason, ..before })
}

/// The outcome of the validation of a data request, given the request that it
/// stands for when its arguments are integers: nothing is served and nothing
/// recorded for other arguments, nothing is served and the reason is recorded
/// for a refused request, and any other request is served as it is.
pub open spec fn validated(
    forbidden_ips: Seq<Seq<char>>,
    before: Request,
    after: Request,
    wanted: Option<GridRequest>,
    min_grid_base_length: int,
    served: Option<GridRequest>,
) -> bool {
    match wanted {
        None => served is None && after == before,
        Some(grid) => match refusal(
            forbidden_ips,
            before,
            before.client(),
            before.version(),
            grid.grid_base_length as int,
            min_grid_base_length,
        ) {
            Some(reason) => served is None && refused_with(before, after, reason),
            None => served == Some(grid) && after == before,
        },
    }
}

/// The grid request that is served, `None` when nothing is.
pub open spec fn granted(
    forbidden_ips: Seq<Seq<char>>,
    request: Request,
    wanted: Option<GridRequest>,
    min_grid_base_length: int,
) -> Option<GridRequest> {
    match wanted {
        Some(grid) => if refusal(
            forbidden_ips,
            request,
            request.client(),
            request.version(),
            grid.grid_base_length as int,
            min_grid_base_length,
        ) is None {
            Some(grid)
        } else {
            None
        },
        None => None,
    }
}

/// The region grid request that JSON arguments stand for.
pub open spec fn wanted_region(
    minute_length: JsonModel,
    grid_base_length: JsonModel,
    minute_offset: JsonModel,
    region: JsonModel,
    count_threshold: JsonModel,
) -> Option<GridRequest> {
    match (
        minute_length.to_int(),
        grid_base_length.to_int(),
        minute_offset.to_int(),
        region.to_int(),
        count_threshold.to_int(),
    ) {
        (Some(length), Some(base), Some(offset), Some(id), Some(threshold)) => Some(
            region_request(length, base, offset, id, threshold),
        ),
        _ => None,
    }
}

/// The global grid request that JSON arguments stand for.
pub open spec fn wanted_global(
    minute_length: JsonModel,
    grid_base_length: JsonModel,
    minute_offset: JsonModel,
    count_threshold: JsonModel,
) -> Option<GridRequest> {
    match (minute_length.to_int(), grid_base_length.to_int(), minute_offset.to_int(), count_threshold.to_int()) {
        (Some(length), Some(base), Some(offset), Some(threshold)) => Some(
            global_request(length, base, offset, threshold),
        ),
        _ => None,
    }
}

/// The local grid request that JSON arguments stand for.
pub open spec fn wanted_local(
    x: JsonModel,
    y: JsonModel,
    grid_base_length: JsonModel,
    minute_length: JsonModel,
    minute_offset: JsonModel,
    count_threshold: JsonModel,
    data_area: JsonModel,
) -> Option<GridRequest> {
    match (
        x.to_int(),
        y.to_int(),
        grid_base_length.to_int(),
        minute_length.to_int(),
        minute_offset.to_int(),
        count_threshold.to_int(),
        data_area.to_int(),
    ) {
        (Some(tx), Some(ty), Some(base), Some(length), Some(offset), Some(threshold), Some(area)) => Some(
            local_request(tx, ty, base, length, offset, threshold, area),
        ),
        _ => None,
    }
}

fn span(minute_length: i64, minute_offset: i64) -> (r: (i64, i64))
    ensures
        r.0 == day_constraint().length(minute_length as int),
        r.1 == day_constraint().offset(minute_length as int, minute_offset as int),
{
    TimeConstraint::new(DEFAULT_MINUTE_LENGTH, MAX_MINUTES_PER_DAY).enforce(minute_length, minute_offset)
}

fn non_negative(n: i64) -> (r: i64)
    ensures
        r == at_least_zero(n as int),
{
    if n < 0 {
        0
    } else {
        n
    }
}

impl<T> Service<T> {
    /// The blocked client addresses.
    pub closed spec fn blocked(&self) -> Seq<Seq<char>> {
        text::texts(self.forbidden_ips@)
    }

    /// Number of `check` calls so far.
    pub closed spec fn checks(&self) -> int {
        self.check_count as int
    }

    /// The caches.
    pub closed spec fn caches(&self) -> ServiceCacheModel<T> {
        self.cache@
    }

    /// A service with the given cache and blocked addresses.
    pub fn with_parts(cache: ServiceCache<T>, forbidden_ips: Vec<String>) -> (r: Service<T>)
        ensures
            r.caches() == cache@,
            r.blocked() == text::texts(forbidden_ips@),
            r.checks() == 0,
    {
        Service { cache, forbidden_ips, check_count: 0 }
    }

    /// A service with an empty cache that blocks no address.
    pub fn new() -> (r: Service<T>)
        ensures
            r.caches() == ServiceCacheModel::<T>::fresh(Some(crate::cache::CLEANUP_PERIOD as int)),
            r.caches().wf(),
            r.blocked() == Seq::<Seq<char>>::empty(),
            r.checks() == 0,
    {
        let ips: Vec<String> = Vec::new();
        assert(text::texts(ips@) =~= Seq::<Seq<char>>::empty());
        Service::with_parts(ServiceCache::new(), ips)
    }

    /// The caches.
    pub fn cache(&self) -> (r: &ServiceCache<T>)
        ensures
            r@ == self.caches(),
    {
        &self.cache
    }

    /// The blocked client addresses.
    pub fn forbidden_ips(&self) -> (r: &Vec<String>)
        ensures
            text::texts(r@) == self.blocked(),
    {
        &self.forbidden_ips
    }

    /// How often `check` was called.
    pub fn check_count(&self) -> (r: i64)
        ensures
            r == self.checks(),
    {
        self.check_count
    }

    /// `check`: the number of calls, as `{"count": n}`.
    pub fn check(&mut self) -> (r: Json)
        requires
            old(self).checks() < i64::MAX,
        ensures
            final(self).checks() == old(self).checks() + 1,
            final(self).caches() == old(self).caches(),
            final(self).blocked() == old(self).blocked(),
            r@ == JsonModel::Object(seq![("count"@, JsonModel::Int(final(self).checks()))]),
    {
        self.check_count = self.check_count + 1;
        let r = Json::empty_object().with("count", Json::Int(self.check_count));
        assert(r@->Object_0 =~= seq![("count"@, JsonModel::Int(self.check_count as int))]);
        r
    }

    /// `get_strikes` is closed: it has no result, whatever its arguments.
    pub fn get_strikes(&self, _request: &Request, _minute_length: &Json, _id_or_offset: &Json) -> (r: Option<Json>)
        ensures
            r is None,
    {
        None
    }

    fn is_blocked(&self, client: &str) -> (r: bool)
        ensures
            r == self.blocked().contains(client@),
    {
        let mut i: usize = 0;
        while i < self.forbidden_ips.len()
            invariant
                i <= self.forbidden_ips@.len(),
                self.blocked() == text::texts(self.forbidden_ips@),
                forall|j: int| 0 <= j < i ==> #[trigger] self.blocked()[j] != client@,
            decreases self.forbidden_ips@.len() - i,
        {
            assert(self.blocked()[i as int] == self.forbidden_ips@[i as int]@);
            if text::same_text(self.forbidden_ips[i].as_str(), client) {
                return true;
            }
            i = i + 1;
        }
        false
    }

    /// Why a data request is refused (see [`refusal`]); `None` when it is
    /// allowed.
    pub fn forbidden_reason(
        &self,
        request: &Request,
        client: Option<&str>,
        user_agent_version: i64,
        grid_base_length: i64,
        min_grid_base_length: i64,
    ) -> (r: Option<String>)
        ensures
            text::opt_text(r) == refusal(
                self.blocked(),
                *request,
                match client {
                    Some(c) => Some(c@),
                    None => None,
                },
                user_agent_version as int,
                grid_base_length as int,
                min_grid_base_length as int,
            ),
    {
        if let Some(c) = client {
            if self.is_blocked(c) {
                return Some(String::from_str("blocked ip ").concat(quoted_option(client).as_str()));
            }
        }
        if user_agent_version == 0 {
            let agent = match &request.user_agent {
                Some(a) => text::quoted(a.as_str()),
                None => {
                    let none: String = String::new();
                    text::quoted(none.as_str())
                },
            };
            return Some(String::from_str("invalid user agent ").concat(agent.as_str()));
        }
        match &request.content_type {
            Some(value) => {
                if !text::same_text(value.as_str(), JSON_CONTENT_TYPE) {
                    return Some(
                        String::from_str("bad content type ").concat(quoted_option(Some(value.as_str())).as_str()),
                    );
                }
            },
            None => {
                return Some(String::from_str("bad content type ").concat(quoted_option(None).as_str()));
            },
        }
        if let Some(value) = &request.referer {
            if !value.as_str().is_empty() {
                return Some(String::from_str("referer ").concat(quoted_option(Some(value.as_str())).as_str()));
            }
        }
        if grid_base_length < min_grid_base_length {
            let mut out = String::from_str("grid_base_length ");
            number::push_signed(&mut out, grid_base_length);
            out.append(" below minimum ");
            number::push_signed(&mut out, min_grid_base_length);
            return Some(out);
        }
        if !supported_length(grid_base_length) {
            let mut out = String::from_str("invalid grid_base_length ");
            number::push_signed(&mut out, grid_base_length);
            return Some(out);
        }
        None
    }

    /// Record the refusal of a request, if it is refused.
    fn admit_request(&self, request: &mut Request, grid_base_length: i64, min_grid_base_length: i64) -> (r: bool)
        ensures
            match refusal(
                self.blocked(),
                *old(request),
                old(request).client(),
                old(request).version(),
                grid_base_length as int,
                min_grid_base_length as int,
            ) {
                Some(reason) => !r && refused_with(*old(request), *final(request), reason),
                None => r && *final(request) == *old(request),
            },
    {
        let client = request.request_client();
        let version: i64 = request.user_agent_version();
        let shown: Option<&str> = match &client {
            Some(c) => Some(c.as_str()),
            None => None,
        };
        match self.forbidden_reason(request, shown, version, grid_base_length, min_grid_base_length) {
            Some(reason) => {
                request.blocked_reason = Some(reason);
                false
            },
            None => true,
        }
    }

    /// `get_strikes_grid`: the region grid request to serve; none when an
    /// argument is not an integer or the request is refused, and both are
    /// answered with an empty object.
    pub fn jsonrpc_get_strikes_grid(
        &self,
        request: &mut Request,
        minute_length: &Json,
        grid_base_length: &Json,
        minute_offset: &Json,
        region: &Json,
        count_threshold: &Json,
    ) -> (r: Option<GridRequest>)
        ensures
            validated(
                self.blocked(),
                *old(request),
                *final(request),
                wanted_region(
                    minute_length@,
                    grid_base_length@,
                    minute_offset@,
                    region@,
                    count_threshold@,
                ),
                MIN_GRID_BASE_LENGTH as int,
                r,
            ),
    {
        match (
            json::to_int(minute_length),
            json::to_int(grid_base_length),
            json::to_int(minute_offset),
            json::to_int(region),
            json::to_int(count_threshold),
        ) {
            (Some(length), Some(base), Some(offset), Some(id), Some(threshold)) => {
                if !self.admit_request(request, base, MIN_GRID_BASE_LENGTH) {
                    return None;
                }
                let (minutes, shift) = span(length, offset);
                Some(
                    GridRequest {
                        kind: GridKind::Region { region: builder::force_range(1, id, MAX_REGION) },
                        minute_length: minutes,
                        minute_offset: shift,
                        grid_base_length: base,
                        count_threshold: non_negative(threshold),
                    },
                )
            },
            _ => None,
        }
    }

    /// `get_strikes_raster`: [`Service::jsonrpc_get_strikes_grid`] without a
    /// count threshold.
    pub fn jsonrpc_get_strikes_raster(
        &self,
        request: &mut Request,
        minute_length: &Json,
        grid_base_length: &Json,
        minute_offset: &Json,
        region: &Json,
    ) -> (r: Option<GridRequest>)
        ensures
            validated(
                self.blocked(),
                *old(request),
                *final(request),
                wanted_region(
                    minute_length@,
                    grid_base_length@,
                    minute_offset@,
                    region@,
                    JsonModel::Int(0),
                ),
                MIN_GRID_BASE_LENGTH as int,
                r,
            ),
    {
        self.jsonrpc_get_strikes_grid(
            request,
            minute_length,
            grid_base_length,
            minute_offset,
            region,
            &Json::Int(0),
        )
    }

    /// `get_global_strikes_grid`: the global grid request to serve (see
    /// [`Service::jsonrpc_get_strikes_grid`]).
    pub fn jsonrpc_get_global_strikes_grid(
        &self,
        request: &mut Request,
        minute_length: &Json,
        grid_base_length: &Json,
        minute_offset: &Json,
        count_threshold: &Json,
    ) -> (r: Option<GridRequest>)
        ensures
            validated(
                self.blocked(),
                *old(request),
                *final(request),
                wanted_global(minute_length@, grid_base_length@, minute_offset@, count_threshold@),
                GLOBAL_MIN_GRID_BASE_LENGTH as int,
                r,
            ),
    {
        match (
            json::to_int(minute_length),
            json::to_int(grid_base_length),
            json::to_int(minute_offset),
            json::to_int(count_threshold),
        ) {
            (Some(length), Some(base), Some(offset), Some(threshold)) => {
                if !self.admit_request(request, base, GLOBAL_MIN_GRID_BASE_LENGTH) {
                    return None;
                }
                let (minutes, shift) = span(length, offset);
                Some(
                    GridRequest {
                        kind: GridKind::Global,
                        minute_length: minutes,
                        minute_offset: shift,
                        grid_base_length: base,
                        count_threshold: non_negative(threshold),
                    },
                )
            },
            _ => None,
        }
    }

    /// `get_local_strikes_grid`: the local grid request to serve (see
    /// [`Service::jsonrpc_get_strikes_grid`]).
    pub fn jsonrpc_get_local_strikes_grid(
        &self,
        request: &mut Request,
        x: &Json,
        y: &Json,
        grid_base_length: &Json,
        minute_length: &Json,
        minute_offset: &Json,
        count_threshold: &Json,
        data_area: &Json,
    ) -> (r: Option<GridRequest>)
        ensures
            validated(
                self.blocked(),
                *old(request),
                *final(request),
                wanted_local(
                    x@,
                    y@,
                    grid_base_length@,
                    minute_length@,
                    minute_offset@,
                    count_threshold@,
                    data_area@,
                ),
                MIN_GRID_BASE_LENGTH as int,
                r,
            ),
    {
        match (
            json::to_int(x),
            json::to_int(y),
            json::to_int(grid_base_length),
            json::to_int(minute_length),
            json::to_int(minute_offset),
            json::to_int(count_threshold),
            json::to_int(data_area),
        ) {
            (Some(tx), Some(ty), Some(base), Some(length), Some(offset), Some(threshold), Some(area)) => {
                if !self.admit_request(request, base, MIN_GRID_BASE_LENGTH) {
                    return None;
                }
                let (minutes, shift) = span(length, offset);
                Some(
                    GridRequest {
                        kind: GridKind::Local { x: tx, y: ty, data_area: round_max_5(area) },
                        minute_length: minutes,
                        minute_offset: shift,
                        grid_base_length: base,
                        count_threshold: non_negative(threshold),
                    },
                )
            },
            _ => None,
        }
    }
}

// ---------------------------------------------------------------------
// producing a response
// ---------------------------------------------------------------------

/// End of the interval of a request made at `now`.
pub open spec fn interval_end(minute_offset: int, now: int) -> int {
    (now / 1_000_000 + minute_offset * 60) * 1_000_000
}

/// Start of the interval of a request made at `now`.
pub open spec fn interval_start(minute_length: int, minute_offset: int, now: int) -> int {
    interval_end(minute_offset, now) - minute_length * 60_000_000
}

/// The interval of a request made at `now`: it ends at the last whole second,
/// moved by the offset, and has the given length.
pub fn create_time_interval_at(minute_length: i64, minute_offset: i64, now: i64) -> (r: TimeInterval)
    requires
        i64::MIN <= interval_end(minute_offset as int, now as int) <= i64::MAX,
        i64::MIN <= interval_start(minute_length as int, minute_offset as int, now as int) <= i64::MAX,
    ensures
        r.end == interval_end(minute_offset as int, now as int),
        r.start == interval_start(minute_length as int, minute_offset as int, now as int),
{
    let now_wide: i128 = now as i128;
    let whole: i128 = if now_wide >= 0 {
        now_wide / 1_000_000
    } else {
        -((999_999 - now_wide) / 1_000_000)
    };
    let end: i128 = (whole + minute_offset as i128 * 60) * 1_000_000;
    let start: i128 = end - minute_length as i128 * 60_000_000;
    TimeInterval::new(start as i64, end as i64)
}

/// One cell of a grid response: column, row, strike count and age in seconds.
#[derive(Debug, Clone, Copy, PartialEq, Eq, Structural)]
pub struct GridRow {
    pub x: i64,
    pub y: i64,
    pub count: i64,
    pub age: i64,
}

/// The value or 0.
pub open spec fn or_zero(v: Option<int>) -> int {
    match v {
        Some(n) => n,
        None => 0,
    }
}

/// The cell that a row describes; `None` when it lies outside the grid.  Rows
/// of the world-wide grid count downward from the equator, rows of other grids
/// downward from the top.
pub open spec fn grid_row(
    row: Seq<Cell>,
    x_bin_count: int,
    y_bin_count: int,
    end_time: int,
    global: bool,
) -> Option<GridRow> {
    let rx = or_zero(executor::int_at(row, 0));
    let ry = or_zero(executor::int_at(row, 1));
    let count = or_zero(executor::int_at(row, 2));
    let seen = match executor::timestamp_at(row, 3) {
        Some(t) => t,
        None => end_time,
    };
    let age = -number::quotient(end_time - seen, 1_000_000);
    if global {
        Some(GridRow { x: rx as i64, y: (-1 - ry) as i64, count: count as i64, age: age as i64 })
    } else if 0 <= rx < x_bin_count && 1 <= ry <= y_bin_count {
        Some(GridRow { x: rx as i64, y: (y_bin_count - ry) as i64, count: count as i64, age: age as i64 })
    } else {
        None
    }
}

/// The cells that the first `n` rows describe.
pub open spec fn grid_rows(
    rows: Seq<Seq<Cell>>,
    x_bin_count: int,
    y_bin_count: int,
    end_time: int,
    global: bool,
    n: int,
) -> Seq<GridRow>
    decreases n,
{
    if n <= 0 {
        Seq::empty()
    } else {
        let before = grid_rows(rows, x_bin_count, y_bin_count, end_time, global, n - 1);
        match grid_row(rows[n - 1], x_bin_count, y_bin_count, end_time, global) {
            Some(cell) => before.push(cell),
            None => before,
        }
    }
}

/// The contents of a list of rows.
pub open spec fn row_views(rows: Seq<Row>) -> Seq<Seq<Cell>> {
    rows.map_values(|r: Row| r@)
}

/// Shape the rows of a grid query; cells outside the grid are dropped, except
/// for the world-wide grid.
pub fn build_grid_rows(rows: &[Row], x_bin_count: i64, y_bin_count: i64, end_time: i64, global: bool) -> (r: Vec<
    GridRow,
>)
    ensures
        r@ == grid_rows(
            row_views(rows@),
            x_bin_count as int,
            y_bin_count as int,
            end_time as int,
            global,
            rows@.len() as int,
        ),
{
    let mut out: Vec<GridRow> = Vec::new();
    let mut i: usize = 0;
    while i < rows.len()
        invariant
            i <= rows@.len(),
            out@ == grid_rows(
                row_views(rows@),
                x_bin_count as int,
                y_bin_count as int,
                end_time as int,
                global,
                i as int,
            ),
        decreases rows@.len() - i,
    {
        let row = &rows[i];
        assert(row_views(rows@)[i as int] == row@);
        let rx: i64 = match row.get_i64(0) {
            Some(v) => v,
            None => 0,
        };
        let ry: i64 = match row.get_i64(1) {
            Some(v) => v,
            None => 0,
        };
        let count: i64 = match row.get_i64(2) {
            Some(v) => v,
            None => 0,
        };
        let seen: i64 = match row.get_timestamp(3) {
            Some(v) => v,
            None => end_time,
        };
        let age: i64 = (-number::divide(end_time as i128 - seen as i128, 1_000_000)) as i64;
        if global {
            out.push(GridRow { x: rx, y: -1 - ry, count, age });
        } else if 0 <= rx && rx < x_bin_count && 1 <= ry && ry <= y_bin_count {
            out.push(GridRow { x: rx, y: y_bin_count - ry, count, age });
        }
        i = i + 1;
    }
    out
}

/// The bin of an interval among `n` bins: intervals count back from the last
/// bin, and a position before the first bin counts from the end.
pub open spec fn bin_of(interval: int, n: int) -> Option<int> {
    let index = interval + n - 1;
    if 0 <= index < n {
        Some(index)
    } else if -n <= index < 0 {
        Some(index + n)
    } else {
        None
    }
}

/// What a histogram failed on.
pub enum HistogramFault {
    MissingColumn(Seq<char>),
    Index(int),
}

/// The bins after the first `n` rows.
pub open spec fn binned(rows: Seq<Seq<Cell>>, bins: Seq<i64>, n: int) -> Result<Seq<i64>, HistogramFault>
    decreases n,
{
    if n <= 0 {
        Ok(bins)
    } else {
        match binned(rows, bins, n - 1) {
            Err(e) => Err(e),
            Ok(before) => match (executor::int_at(rows[n - 1], 0), executor::int_at(rows[n - 1], 1)) {
                (None, _) => Err(HistogramFault::MissingColumn("interval"@)),
                (Some(_), None) => Err(HistogramFault::MissingColumn("count"@)),
                (Some(interval), Some(count)) => match bin_of(interval, before.len() as int) {
                    Some(k) => Ok(before.update(k, count as i64)),
                    None => Err(HistogramFault::Index(interval)),
                },
            },
        }
    }
}

/// The bins of a histogram without strikes.
pub open spec fn empty_bins(minutes: int, bin_size: int) -> Seq<i64> {
    Seq::new((minutes / bin_size) as nat, |i: int| 0i64)
}

/// Whether an error reports a fault.
pub open spec fn reports(error: ServiceError, fault: HistogramFault) -> bool {
    match fault {
        HistogramFault::MissingColumn(name) => error matches ServiceError::MissingColumn(col) && col@ == name,
        HistogramFault::Index(i) => error matches ServiceError::HistogramIndex(k) && k == i,
    }
}

proof fn lemma_binned_fails(rows: Seq<Seq<Cell>>, bins: Seq<i64>, k: int, n: int)
    requires
        0 <= k <= n,
        binned(rows, bins, k) is Err,
    ensures
        binned(rows, bins, n) == binned(rows, bins, k),
    decreases n - k,
{
    if k < n {
        assert(binned(rows, bins, k + 1) == binned(rows, bins, k));
        lemma_binned_fails(rows, bins, k + 1, n);
    }
}

/// Bin the counts per interval, one bin per `bin_size` minutes.
pub fn build_histogram(rows: &[Row], minutes: i64, bin_size: i64) -> (r: Result<Vec<i64>, ServiceError>)
    requires
        bin_size > 0,
        minutes >= 0,
        minutes / bin_size <= usize::MAX,
    ensures
        match binned(row_views(rows@), empty_bins(minutes as int, bin_size as int), rows@.len() as int) {
            Ok(bins) => r matches Ok(v) && v@ == bins,
            Err(fault) => r matches Err(e) && reports(e, fault),
        },
{
    let ghost bins = empty_bins(minutes as int, bin_size as int);
    let ghost views = row_views(rows@);
    let count: usize = (minutes / bin_size) as usize;
    let mut result: Vec<i64> = Vec::new();
    let mut k: usize = 0;
    while k < count
        invariant
            k <= count,
            result@.len() == k,
            forall|j: int| 0 <= j < k ==> result@[j] == 0,
        decreases count - k,
    {
        result.push(0);
        k = k + 1;
    }
    assert(result@ =~= bins);
    let mut i: usize = 0;
    while i < rows.len()
        invariant
            i <= rows@.len(),
            views == row_views(rows@),
            bins == empty_bins(minutes as int, bin_size as int),
            result@.len() == count,
            binned(views, bins, i as int) == Ok::<Seq<i64>, HistogramFault>(result@),
        decreases rows@.len() - i,
    {
        let row = &rows[i];
        assert(views[i as int] == row@);
        let interval: i64 = match row.get_i64(0) {
            Some(v) => v,
            None => {
                proof {
                    lemma_binned_fails(views, bins, i + 1, views.len() as int);
                }
                return Err(ServiceError::MissingColumn("interval"));
            },
        };
        let strikes: i64 = match row.get_i64(1) {
            Some(v) => v,
            None => {
                proof {
                    lemma_binned_fails(views, bins, i + 1, views.len() as int);
                }
                return Err(ServiceError::MissingColumn("count"));
            },
        };
        let n: i128 = count as i128;
        let index: i128 = interval as i128 + n - 1;
        let place: i128 = if index < 0 {
            index + n
        } else {
            index
        };
        if place < 0 || place >= n {
            proof {
                lemma_binned_fails(views, bins, i + 1, views.len() as int);
            }
            return Err(ServiceError::HistogramIndex(interval));
        }
        result.set(place as usize, strikes);
        i = i + 1;
    }
    Ok(result)
}

/// The figures of a grid that a response reports, rounded: cell sizes, left
/// edge, top edge, and the number of columns and rows.
#[derive(Debug, Clone, Copy, PartialEq, Eq, Structural)]
pub struct GridFigures {
    pub xd: Real,
    pub yd: Real,
    pub x0: Real,
    pub y1: Real,
    pub xc: i64,
    pub yc: i64,
}

/// The JSON form of a cell.
pub open spec fn row_json(row: GridRow) -> JsonModel {
    JsonModel::Array(
        seq![
            JsonModel::Int(row.x as int),
            JsonModel::Int(row.y as int),
            JsonModel::Int(row.count as int),
            JsonModel::Int(row.age as int),
        ],
    )
}

/// A grid response: cells, figures, end of the interval, length of the
/// interval in seconds, and histogram.
pub open spec fn grid_response(
    rows: Seq<GridRow>,
    histogram: Seq<i64>,
    figures: GridFigures,
    interval: TimeInterval,
) -> JsonModel {
    JsonModel::Object(
        seq![
            ("r"@, JsonModel::Array(rows.map_values(|r: GridRow| row_json(r)))),
            ("xd"@, JsonModel::Float(figures.xd)),
            ("yd"@, JsonModel::Float(figures.yd)),
            ("x0"@, JsonModel::Float(figures.x0)),
            ("y1"@, JsonModel::Float(figures.y1)),
            ("xc"@, JsonModel::Int(figures.xc as int)),
            ("yc"@, JsonModel::Int(figures.yc as int)),
            ("t"@, JsonModel::Text(clock::utc_text(interval.end as int, "%Y%m%dT%H:%M:%S"@)->0)),
            ("dt"@, JsonModel::Int(number::quotient(interval.end - interval.start, 1_000_000))),
            ("h"@, JsonModel::Array(histogram.map_values(|n: i64| JsonModel::Int(n as int)))),
        ],
    )
}

fn rows_to_json(rows: &[GridRow]) -> (r: Json)
    ensures
        r@ == JsonModel::Array(rows@.map_values(|r: GridRow| row_json(r))),
{
    let mut out: Vec<Json> = Vec::new();
    let mut i: usize = 0;
    while i < rows.len()
        invariant
            i <= rows@.len(),
            out@.len() == i,
            forall|j: int| 0 <= j < i ==> (#[trigger] out@[j])@ == row_json(rows@[j]),
        decreases rows@.len() - i,
    {
        let row = rows[i];
        let mut cell: Vec<Json> = Vec::new();
        cell.push(Json::Int(row.x));
        cell.push(Json::Int(row.y));
        cell.push(Json::Int(row.count));
        cell.push(Json::Int(row.age));
        let value = Json::array(cell);
        assert(value@->Array_0 =~= row_json(row)->Array_0);
        out.push(value);
        i = i + 1;
    }
    let r = Json::array(out);
    assert(r@->Array_0 =~= rows@.map_values(|r: GridRow| row_json(r)));
    r
}

fn ints_to_json(values: &[i64]) -> (r: Json)
    ensures
        r@ == JsonModel::Array(values@.map_values(|n: i64| JsonModel::Int(n as int))),
{
    let mut out: Vec<Json> = Vec::new();
    let mut i: usize = 0;
    while i < values.len()
        invariant
            i <= values@.len(),
            out@.len() == i,
            forall|j: int| 0 <= j < i ==> (#[trigger] out@[j])@ == JsonModel::Int(values@[j] as int),
        decreases values@.len() - i,
    {
        out.push(Json::Int(values[i]));
        i = i + 1;
    }
    let r = Json::array(out);
    assert(r@->Array_0 =~= values@.map_values(|n: i64| JsonModel::Int(n as int)));
    r
}

/// Build a grid response.
pub fn build_grid_response(
    grid_data: &[GridRow],
    histogram_data: &[i64],
    figures: &GridFigures,
    time_interval: &TimeInterval,
) -> (r: Json)
    requires
        clock::representable(time_interval.end as int),
    ensures
        r@ == grid_response(grid_data@, histogram_data@, *figures, *time_interval),
{
    let end = match clock::format_utc(time_interval.end, "%Y%m%dT%H:%M:%S") {
        Some(t) => t,
        None => String::new(),
    };
    let r = Json::empty_object().with("r", rows_to_json(grid_data)).with("xd", Json::Float(figures.xd)).with(
        "yd",
        Json::Float(figures.yd),
    ).with("x0", Json::Float(figures.x0)).with("y1", Json::Float(figures.y1)).with(
        "xc",
        Json::Int(figures.xc),
    ).with("yc", Json::Int(figures.yc)).with("t", Json::Text(end)).with(
        "dt",
        Json::Int(time_interval.duration_seconds()),
    ).with("h", ints_to_json(histogram_data));
    assert(r@->Object_0 =~= grid_response(grid_data@, histogram_data@, *figures, *time_interval)->Object_0);
    r
}

// ---------------------------------------------------------------------
// the queries of a request
// ---------------------------------------------------------------------

/// The cell query of a request.
pub open spec fn cells_model(request: GridRequest, grid: Grid, interval: TimeInterval) -> query::QueryModel {
    match request.kind {
        GridKind::Region { region } => query::grid_model(grid, interval, Some(region), request.count_threshold),
        GridKind::Global => query::global_model(grid, interval, request.count_threshold),
        GridKind::Local { x, y, data_area } => query::grid_model(grid, interval, None, request.count_threshold),
    }
}

/// The grid that restricts the histogram of a request.
pub open spec fn histogram_grid(kind: GridKind, grid: &Grid) -> Option<&Grid> {
    match kind {
        GridKind::Global => None,
        _ => Some(grid),
    }
}

/// The texts of the grid that restricts the histogram of a request.
pub open spec fn histogram_texts(kind: GridKind, texts: &GridTexts) -> Option<&GridTexts> {
    match kind {
        GridKind::Global => None,
        _ => Some(texts),
    }
}

/// The six numbers of a grid as a histogram key writes them: in their shortest
/// form, with a point or an exponent, such as `-25.0`.
#[derive(Debug, Clone, PartialEq, Eq)]
pub struct GridTexts {
    pub x_min: String,
    pub x_max: String,
    pub y_min: String,
    pub y_max: String,
    pub x_div: String,
    pub y_div: String,
}

/// The part of a histogram key that stands for a grid.
pub open spec fn grid_key(texts: GridTexts) -> Seq<char> {
    "|grid="@ + texts.x_min@ + ","@ + texts.x_max@ + ","@ + texts.y_min@ + ","@ + texts.y_max@ + ","@ + texts.x_div@
        + ","@ + texts.y_div@
}

/// The cache key of a histogram.
pub open spec fn histogram_key(minute_length: int, minute_offset: int, grid: Option<&GridTexts>) -> Seq<char> {
    let span = key_part("minute_length="@, minute_length) + key_part("|minute_offset="@, minute_offset);
    match grid {
        Some(texts) => span + grid_key(*texts),
        None => span,
    }
}

/// The cache key of a histogram: the time span, and the six numbers of the
/// grid when there is one.
pub fn histogram_cache_key(minute_length: i64, minute_offset: i64, grid: Option<&GridTexts>) -> (r: String)
    ensures
        r@ == histogram_key(minute_length as int, minute_offset as int, grid),
{
    let mut out: String = String::new();
    push_part(&mut out, "minute_length=", minute_length);
    push_part(&mut out, "|minute_offset=", minute_offset);
    if let Some(texts) = grid {
        out.append("|grid=");
        out.append(texts.x_min.as_str());
        out.append(",");
        out.append(texts.x_max.as_str());
        out.append(",");
        out.append(texts.y_min.as_str());
        out.append(",");
        out.append(texts.y_max.as_str());
        out.append(",");
        out.append(texts.x_div.as_str());
        out.append(",");
        out.append(texts.y_div.as_str());
    }
    assert(out@ =~= histogram_key(minute_length as int, minute_offset as int, grid));
    out
}

impl GridRequest {
    /// Whether the rows are those of the world-wide grid.
    pub fn is_global(&self) -> (r: bool)
        ensures
            r == (self.kind == GridKind::Global),
    {
        match self.kind {
            GridKind::Global => true,
            _ => false,
        }
    }

    /// The query for the cells of the grid.
    pub fn cells_query(&self, grid: &Grid, time_interval: &TimeInterval) -> (r: Query)
        ensures
            r@ == cells_model(*self, *grid, *time_interval),
    {
        match self.kind {
            GridKind::Region { region } => query::grid_query(grid, time_interval, Some(region), self.count_threshold),
            GridKind::Global => query::global_grid_query(grid, time_interval, self.count_threshold),
            GridKind::Local { x, y, data_area } => query::grid_query(grid, time_interval, None, self.count_threshold),
        }
    }

    /// Whether the response of the request carries a histogram.
    pub open spec fn counts_over_time(self) -> bool {
        self.minute_length > HISTOGRAM_MINUTE_THRESHOLD
    }

    /// Whether the response of the request carries a histogram.
    pub fn has_histogram(&self) -> (r: bool)
        ensures
            r == (self.minute_length > HISTOGRAM_MINUTE_THRESHOLD),
            r == self.counts_over_time(),
    {
        self.minute_length > HISTOGRAM_MINUTE_THRESHOLD
    }

    /// The cache key and the query of the histogram; only a request of more
    /// than [`HISTOGRAM_MINUTE_THRESHOLD`] minutes has one.
    pub fn histogram(&self, grid: &Grid, texts: &GridTexts, time_interval: &TimeInterval) -> (r: Option<
        (String, Query),
    >)
        ensures
            r is Some <==> self.minute_length > HISTOGRAM_MINUTE_THRESHOLD,
            r matches Some(p) ==> p.0@ == request_histogram_key(*self, *texts) && p.1@ == query::histogram_model(
                *time_interval,
                HISTOGRAM_BIN_SIZE,
                None,
                histogram_grid(self.kind, grid),
            ),
    {
        if !self.has_histogram() {
            return None;
        }
        let (envelope, written): (Option<&Grid>, Option<&GridTexts>) = match self.kind {
            GridKind::Global => (None, None),
            _ => (Some(grid), Some(texts)),
        };
        let key = String::from_str("histogram_query|").concat(
            histogram_cache_key(self.minute_length, self.minute_offset, written).as_str(),
        );
        Some((key, query::histogram_query(time_interval, HISTOGRAM_BIN_SIZE, None, envelope)))
    }
}

// ---------------------------------------------------------------------
// caching and completion
// ---------------------------------------------------------------------

/// The cache that serves a request.
pub open spec fn cache_for<T>(caches: ServiceCacheModel<T>, request: GridRequest) -> crate::cache::CacheModel<T> {
    match request.kind {
        GridKind::Region { region } => if request.minute_offset == 0 {
            caches.strikes
        } else {
            caches.strikes_history
        },
        GridKind::Global => if request.minute_offset == 0 {
            caches.global
        } else {
            caches.global_history
        },
        GridKind::Local { x, y, data_area } => if request.minute_offset == 0 {
            caches.local
        } else {
            caches.local_history
        },
    }
}

/// The caches with the one that serves a request replaced.
pub open spec fn with_cache<T>(
    caches: ServiceCacheModel<T>,
    request: GridRequest,
    cache: crate::cache::CacheModel<T>,
) -> ServiceCacheModel<T> {
    match request.kind {
        GridKind::Region { region } => if request.minute_offset == 0 {
            ServiceCacheModel { strikes: cache, ..caches }
        } else {
            ServiceCacheModel { strikes_history: cache, ..caches }
        },
        GridKind::Global => if request.minute_offset == 0 {
            ServiceCacheModel { global: cache, ..caches }
        } else {
            ServiceCacheModel { global_history: cache, ..caches }
        },
        GridKind::Local { x, y, data_area } => if request.minute_offset == 0 {
            ServiceCacheModel { local: cache, ..caches }
        } else {
            ServiceCacheModel { local_history: cache, ..caches }
        },
    }
}

/// The response that the caches hold for a request at `now`.
pub open spec fn found<T>(caches: ServiceCacheModel<T>, request: GridRequest, now: int) -> Option<T> {
    cache_for(caches, request).cleaned(now).valid(request.key(), now)
}

/// The caches after a response to a request was stored at `now`.
pub open spec fn settled<T>(
    caches: ServiceCacheModel<T>,
    request: GridRequest,
    response: T,
    now: int,
) -> ServiceCacheModel<T> {
    with_cache(caches, request, cache_for(caches, request).stored(request.key(), response, now))
}

impl<T> Service<T> {
    /// The cached response of a request.
    pub fn cached_response(&mut self, request: &GridRequest, now: i64) -> (r: Option<Arc<T>>)
        requires
            old(self).caches().wf(),
        ensures
            final(self).caches().wf(),
            final(self).blocked() == old(self).blocked(),
            final(self).checks() == old(self).checks(),
            final(self).caches() == with_cache(
                old(self).caches(),
                *request,
                cache_for(old(self).caches(), *request).looked_up(request.key(), now as int),
            ),
            r matches Some(p) ==> found(old(self).caches(), *request, now as int) == Some(*p),
            r is None ==> found(old(self).caches(), *request, now as int) is None,
            r matches Some(p) ==> cache_for(old(self).caches(), *request).cleaned(now as int).valid(
                request.key(),
                now as int,
            ) == Some(*p),
            r is None ==> cache_for(old(self).caches(), *request).cleaned(now as int).valid(
                request.key(),
                now as int,
            ) is None,
    {
        let key = request.cache_key();
        match request.kind {
            GridKind::Region { region } => self.cache.strikes_mut(request.minute_offset).lookup(key.as_str(), now),
            GridKind::Global => self.cache.global_strikes_mut(request.minute_offset).lookup(key.as_str(), now),
            GridKind::Local { x, y, data_area } => self.cache.local_strikes_mut(request.minute_offset).lookup(
                key.as_str(),
                now,
            ),
        }
    }

    /// Take in the outcome of producing a response: a response is stored and
    /// returned, an error is not stored and has none.
    pub fn settle(&mut self, request: &GridRequest, produced: Result<T, ServiceError>, now: i64) -> (r: Option<Arc<T>>)
        requires
            old(self).caches().wf(),
        ensures
            final(self).caches().wf(),
            final(self).blocked() == old(self).blocked(),
            final(self).checks() == old(self).checks(),
            produced matches Ok(value) ==> final(self).caches() == settled(
                old(self).caches(),
                *request,
                value,
                now as int,
            ),
            match produced {
                Ok(value) => (r matches Some(p) && *p == value) && final(self).caches() == with_cache(
                    old(self).caches(),
                    *request,
                    cache_for(old(self).caches(), *request).stored(request.key(), value, now as int),
                ),
                Err(_) => r is None && final(self).caches() == old(self).caches(),
            },
    {
        match produced {
            Ok(value) => {
                let key = request.cache_key();
                let shared = Arc::new(value);
                let kept = shared.clone();
                match request.kind {
                    GridKind::Region { region } => self.cache.strikes_mut(request.minute_offset).store(
                        key.as_str(),
                        kept,
                        now,
                    ),
                    GridKind::Global => self.cache.global_strikes_mut(request.minute_offset).store(
                        key.as_str(),
                        kept,
                        now,
                    ),
                    GridKind::Local { x, y, data_area } => self.cache.local_strikes_mut(request.minute_offset).store(
                        key.as_str(),
                        kept,
                        now,
                    ),
                }
                Some(shared)
            },
            Err(_) => None,
        }
    }

    /// Lookups and hits of the cache that serves a request.
    pub fn hit_ratio(&self, request: &GridRequest) -> (r: crate::cache::HitRatio)
        ensures
            r.hits == cache_for(self.caches(), *request).hits,
            r.total == cache_for(self.caches(), *request).total,
    {
        match request.kind {
            GridKind::Region { region } => self.cache.strikes(request.minute_offset).get_ratio(),
            GridKind::Global => self.cache.global_strikes(request.minute_offset).get_ratio(),
            GridKind::Local { x, y, data_area } => self.cache.local_strikes(request.minute_offset).get_ratio(),
        }
    }
}

// ---------------------------------------------------------------------
// producing a response
// ---------------------------------------------------------------------

/// The bins of the histogram of a span of minutes, out of what the histogram
/// query returned.
pub fn histogram_from(rows: Result<Vec<Row>, String>, minutes: i64) -> (r: Result<Vec<i64>, ServiceError>)
    requires
        minutes >= 0,
        minutes / HISTOGRAM_BIN_SIZE <= usize::MAX,
    ensures
        match rows {
            Err(message) => r == Err::<Vec<i64>, ServiceError>(ServiceError::Database(message)),
            Ok(rows) => match binned(
                row_views(rows@),
                empty_bins(minutes as int, HISTOGRAM_BIN_SIZE as int),
                rows@.len() as int,
            ) {
                Ok(bins) => r matches Ok(v) && v@ == bins,
                Err(fault) => r matches Err(e) && reports(e, fault),
            },
        },
{
    match rows {
        Err(message) => Err(ServiceError::Database(message)),
        Ok(rows) => build_histogram(rows.as_slice(), minutes, HISTOGRAM_BIN_SIZE),
    }
}

/// The response to a request, out of what the cell query returned and of the
/// bins of its histogram, when it has one.
pub fn produce_response(
    request: &GridRequest,
    cells: Result<Vec<Row>, String>,
    histogram: Option<Result<Vec<i64>, ServiceError>>,
    figures: &GridFigures,
    time_interval: &TimeInterval,
) -> (r: Result<Json, ServiceError>)
    requires
        clock::representable(time_interval.end as int),
    ensures
        match (cells, histogram) {
            (Err(message), _) => r == Err::<Json, ServiceError>(ServiceError::Database(message)),
            (Ok(_), Some(Err(e))) => r == Err::<Json, ServiceError>(e),
            (Ok(rows), _) => r matches Ok(response) && response@ == grid_response(
                grid_rows(
                    row_views(rows@),
                    figures.xc as int,
                    figures.yc as int,
                    time_interval.end as int,
                    request.kind == GridKind::Global,
                    rows@.len() as int,
                ),
                match histogram {
                    Some(Ok(bins)) => bins@,
                    _ => Seq::empty(),
                },
                *figures,
                *time_interval,
            ),
        },
{
    let rows = match cells {
        Ok(rows) => rows,
        Err(message) => {
            return Err(ServiceError::Database(message));
        },
    };
    let bins: Vec<i64> = match histogram {
        Some(Ok(bins)) => bins,
        Some(Err(e)) => {
            return Err(e);
        },
        None => Vec::new(),
    };
    assert(histogram is None ==> bins@ =~= Seq::<i64>::empty());
    let cells = build_grid_rows(
        rows.as_slice(),
        figures.xc,
        figures.yc,
        time_interval.end,
        request.is_global(),
    );
    Ok(build_grid_response(cells.as_slice(), bins.as_slice(), figures, time_interval))
}

/// The result of a served request: its response, or null when it could not be
/// produced.
pub fn served_result(response: Option<Arc<Json>>) -> (r: Json)
    ensures
        r@ == (match response {
            Some(value) => (*value)@,
            None => JsonModel::Null,
        }),
{
    match response {
        Some(value) => value.copy(),
        None => Json::Null,
    }
}

/// A histogram as a JSON value.
pub open spec fn histogram_value(bins: Seq<i64>) -> JsonModel {
    JsonModel::Array(bins.map_values(|n: i64| JsonModel::Int(n as int)))
}

/// The bins in a JSON value; what is no integer counts as zero, and what is no
/// array has none.
pub open spec fn bins_in(value: JsonModel) -> Seq<i64> {
    match value {
        JsonModel::Array(items) => Seq::new(
            items.len(),
            |i: int|
                match items[i] {
                    JsonModel::Int(n) => if i64::MIN <= n <= i64::MAX {
                        n as i64
                    } else {
                        0
                    },
                    _ => 0,
                },
        ),
        _ => Seq::empty(),
    }
}

fn read_bins(value: &Json) -> (r: Vec<i64>)
    ensures
        r@ == bins_in(value@),
{
    let mut out: Vec<i64> = Vec::new();
    if let Json::Array(items) = value {
        let ghost models = value@->Array_0;
        let mut i: usize = 0;
        while i < items.len()
            invariant
                i <= items@.len(),
                i == out@.len(),
                value@ == JsonModel::Array(models),
                models.len() == items@.len(),
                forall|k: int| 0 <= k < items@.len() ==> models[k] == (#[trigger] items@[k])@,
                forall|k: int| 0 <= k < i ==> (#[trigger] out@[k]) == bins_in(value@)[k],
            decreases items@.len() - i,
        {
            let n: i64 = match &items[i] {
                Json::Int(n) => *n,
                Json::UInt(n) => if *n <= i64::MAX as u64 {
                    *n as i64
                } else {
                    0
                },
                _ => 0,
            };
            assert(models[i as int] == items@[i as int]@);
            out.push(n);
            i = i + 1;
        }
    }
    assert(out@ =~= bins_in(value@));
    out
}

impl Service<Json> {
    /// The cached bins of a histogram.
    pub fn cached_histogram(&mut self, key: &str, now: i64) -> (r: Option<Vec<i64>>)
        requires
            old(self).caches().wf(),
        ensures
            final(self).caches().wf(),
            final(self).blocked() == old(self).blocked(),
            final(self).checks() == old(self).checks(),
            final(self).caches() == (ServiceCacheModel {
                histogram: old(self).caches().histogram.looked_up(key@, now as int),
                ..old(self).caches()
            }),
            match old(self).caches().histogram.cleaned(now as int).valid(key@, now as int) {
                Some(value) => r matches Some(bins) && bins@ == bins_in(value@),
                None => r is None,
            },
    {
        match self.cache.histograms_mut().lookup(key, now) {
            Some(value) => Some(read_bins(&value)),
            None => None,
        }
    }

    /// Take in the outcome of producing a histogram: its bins are stored, an
    /// error is not.
    pub fn settle_histogram(&mut self, key: &str, produced: &Result<Vec<i64>, ServiceError>, now: i64)
        requires
            old(self).caches().wf(),
        ensures
            final(self).caches().wf(),
            final(self).blocked() == old(self).blocked(),
            final(self).checks() == old(self).checks(),
            match produced {
                Ok(bins) => exists|value: Json|
                    #![trigger old(self).caches().histogram.stored(key@, value, now as int)]
                    value@ == histogram_value(bins@) && final(self).caches() == (ServiceCacheModel {
                        histogram: old(self).caches().histogram.stored(key@, value, now as int),
                        ..old(self).caches()
                    }),
                Err(_) => final(self).caches() == old(self).caches(),
            },
    {
        if let Ok(bins) = produced {
            let value = ints_to_json(bins.as_slice());
            let ghost stored = value;
            self.cache.histograms_mut().store(key, Arc::new(value), now);
            assert(self.caches() == (ServiceCacheModel {
                histogram: old(self).caches().histogram.stored(key@, stored, now as int),
                ..old(self).caches()
            }));
        }
    }

    /// The metrics of the histogram cache.
    pub fn histogram_metrics(&self, cache_ratio: &str) -> (r: Vec<crate::metrics::MetricLine>)
        requires
            self.caches().wf(),
        ensures
            crate::metrics::lines_view(r@) == crate::metrics::histogram_lines(
                cache_ratio@,
                self.caches().histogram.entries.len(),
            ),
    {
        crate::metrics::for_histogram(cache_ratio, self.cache.histograms().get_size())
    }

    /// Lookups and hits of the histogram cache.
    pub fn histogram_hit_ratio(&self) -> (r: crate::cache::HitRatio)
        ensures
            r.hits == self.caches().histogram.hits,
            r.total == self.caches().histogram.total,
    {
        self.cache.histograms().get_ratio()
    }
}

/// Whole minutes of an interval.
pub open spec fn interval_minutes(interval: TimeInterval) -> int {
    number::quotient(number::quotient(interval.end - interval.start, 1_000_000), 60)
}

/// The response that a request gets, out of the rows of its cells and the bins
/// of its histogram.
pub open spec fn response_of(
    request: GridRequest,
    rows: Seq<Seq<Cell>>,
    bins: Seq<i64>,
    figures: GridFigures,
    interval: TimeInterval,
) -> JsonModel {
    grid_response(
        grid_rows(
            rows,
            figures.xc as int,
            figures.yc as int,
            interval.end as int,
            request.kind == GridKind::Global,
            rows.len() as int,
        ),
        bins,
        figures,
        interval,
    )
}

/// The cache key of the histogram of a request.
pub open spec fn request_histogram_key(request: GridRequest, texts: GridTexts) -> Seq<char> {
    "histogram_query|"@ + histogram_key(
        request.minute_length as int,
        request.minute_offset as int,
        histogram_texts(request.kind, &texts),
    )
}

/// What is next in producing a response.
pub enum Production {
    /// Run the query for the histogram; the cells are there.
    RunHistogram { key: String, query: Query, rows: Vec<Row> },
    /// The response, or why there is none.
    Produced(Result<Json, ServiceError>),
}

impl Service<Json> {
    /// Take in what the cell query of a request returned.  A histogram is
    /// looked up, and queried when it is not cached, only for a request that
    /// has one and whose cells are there.
    pub fn after_cells(
        &mut self,
        request: &GridRequest,
        cells: Result<Vec<Row>, String>,
        grid: &Grid,
        texts: &GridTexts,
        figures: &GridFigures,
        time_interval: &TimeInterval,
        now: i64,
    ) -> (r: Production)
        requires
            old(self).caches().wf(),
            clock::representable(time_interval.end as int),
        ensures
            final(self).caches().wf(),
            final(self).blocked() == old(self).blocked(),
            final(self).checks() == old(self).checks(),
            match cells {
                Err(message) => r == Production::Produced(Err(ServiceError::Database(message))) && final(self).caches()
                    == old(self).caches(),
                Ok(rows) => if request.minute_length <= HISTOGRAM_MINUTE_THRESHOLD {
                    (r matches Production::Produced(Ok(response)) && response@ == response_of(
                        *request,
                        row_views(rows@),
                        Seq::empty(),
                        *figures,
                        *time_interval,
                    )) && final(self).caches() == old(self).caches()
                } else {
                    let key = request_histogram_key(*request, *texts);
                    final(self).caches() == (ServiceCacheModel {
                        histogram: old(self).caches().histogram.looked_up(key, now as int),
                        ..old(self).caches()
                    }) && match old(self).caches().histogram.cleaned(now as int).valid(key, now as int) {
                        Some(value) => r matches Production::Produced(Ok(response)) && response@ == response_of(
                            *request,
                            row_views(rows@),
                            bins_in(value@),
                            *figures,
                            *time_interval,
                        ),
                        None => r matches Production::RunHistogram { key: k, query: q, rows: kept } && k@ == key && q@
                            == query::histogram_model(
                            *time_interval,
                            HISTOGRAM_BIN_SIZE,
                            None,
                            histogram_grid(request.kind, grid),
                        ) && kept == rows,
                    }
                },
            },
    {
        let rows = match cells {
            Ok(rows) => rows,
            Err(message) => {
                return Production::Produced(Err(ServiceError::Database(message)));
            },
        };
        match request.histogram(grid, texts, time_interval) {
            Some((key, query)) => match self.cached_histogram(key.as_str(), now) {
                Some(bins) => Production::Produced(
                    produce_response(request, Ok(rows), Some(Ok(bins)), figures, time_interval),
                ),
                None => Production::RunHistogram { key, query, rows },
            },
            None => Production::Produced(produce_response(request, Ok(rows), None, figures, time_interval)),
        }
    }

    /// Take in what the histogram query of a request returned: the bins are
    /// stored and complete the response, a fault is its outcome.
    pub fn after_histogram(
        &mut self,
        request: &GridRequest,
        key: &str,
        rows: Vec<Row>,
        counts: Result<Vec<Row>, String>,
        figures: &GridFigures,
        time_interval: &TimeInterval,
        now: i64,
    ) -> (r: Result<Json, ServiceError>)
        requires
            old(self).caches().wf(),
            clock::representable(time_interval.end as int),
            interval_minutes(*time_interval) >= 0,
            interval_minutes(*time_interval) / HISTOGRAM_BIN_SIZE as int <= usize::MAX,
        ensures
            final(self).caches().wf(),
            final(self).blocked() == old(self).blocked(),
            final(self).checks() == old(self).checks(),
            match counts {
                Err(message) => r == Err::<Json, ServiceError>(ServiceError::Database(message))
                    && final(self).caches() == old(self).caches(),
                Ok(counts) => match binned(
                    row_views(counts@),
                    empty_bins(interval_minutes(*time_interval), HISTOGRAM_BIN_SIZE as int),
                    counts@.len() as int,
                ) {
                    Ok(bins) => (r matches Ok(response) && response@ == response_of(
                        *request,
                        row_views(rows@),
                        bins,
                        *figures,
                        *time_interval,
                    )) && exists|value: Json|
                        #![trigger old(self).caches().histogram.stored(key@, value, now as int)]
                        value@ == histogram_value(bins) && final(self).caches() == (ServiceCacheModel {
                            histogram: old(self).caches().histogram.stored(key@, value, now as int),
                            ..old(self).caches()
                        }),
                    Err(fault) => (r matches Err(e) && reports(e, fault)) && final(self).caches() == old(self).caches(),
                },
            },
    {
        let bins = histogram_from(counts, time_interval.minutes());
        self.settle_histogram(key, &bins, now);
        produce_response(request, Ok(rows), Some(bins), figures, time_interval)
    }
}

/// A histogram that was stored is read again as it was.
pub proof fn stored_histograms_read_back(bins: Seq<i64>)
    ensures
        bins_in(histogram_value(bins)) == bins,
{
    assert(bins_in(histogram_value(bins)) =~= bins);
}

/// The metrics of a served request.
pub open spec fn served_lines(request: GridRequest, ratio: Seq<char>) -> Seq<crate::metrics::LineModel> {
    match request.kind {
        GridKind::Region { region } => crate::metrics::strikes_lines(
            request.minute_length as int,
            region as int,
            ratio,
        ),
        GridKind::Global => crate::metrics::global_lines(request.minute_length as int, ratio),
        GridKind::Local { x, y, data_area } => crate::metrics::local_lines(
            request.minute_length as int,
            data_area as int,
            ratio,
        ),
    }
}

/// Complete a served request: old clients lose their `Accept-Encoding` header,
/// and the metrics to report are returned.
pub fn complete(request: &mut Request, grid: &GridRequest, cache_ratio: &str) -> (r: Vec<crate::metrics::MetricLine>)
    ensures
        crate::metrics::lines_view(r@) == served_lines(*grid, cache_ratio@),
        *final(request) == old(request).fixed(),
{
    let _ = request.fix_bad_accept_header();
    match grid.kind {
        GridKind::Region { region } => crate::metrics::for_strikes(grid.minute_length, region, cache_ratio),
        GridKind::Global => crate::metrics::for_global_strikes(grid.minute_length, cache_ratio),
        GridKind::Local { x, y, data_area } => crate::metrics::for_local_strikes(
            grid.minute_length,
            data_area,
            cache_ratio,
        ),
    }
}

// ---------------------------------------------------------------------
// laws
// ---------------------------------------------------------------------

/// The cells of a response lie in the grid, except for the world-wide grid.
pub proof fn cells_lie_in_the_grid(
    rows: Seq<Seq<Cell>>,
    x_bin_count: i64,
    y_bin_count: i64,
    end_time: int,
    n: int,
    i: int,
)
    requires
        0 <= n <= rows.len(),
        0 <= i < grid_rows(rows, x_bin_count as int, y_bin_count as int, end_time, false, n).len(),
    ensures
        ({
            let cell = grid_rows(rows, x_bin_count as int, y_bin_count as int, end_time, false, n)[i];
            0 <= cell.x < x_bin_count && 0 <= cell.y < y_bin_count
        }),
    decreases n,
{
    if n > 0 {
        let before = grid_rows(rows, x_bin_count as int, y_bin_count as int, end_time, false, n - 1);
        if i < before.len() {
            cells_lie_in_the_grid(rows, x_bin_count, y_bin_count, end_time, n - 1, i);
        }
    }
}

/// A histogram has a bin for each five minutes of its interval.
pub proof fn a_histogram_has_a_bin_per_five_minutes(rows: Seq<Seq<Cell>>, minutes: int, n: int)
    requires
        0 <= n <= rows.len(),
        minutes >= 0,
    ensures
        binned(rows, empty_bins(minutes, HISTOGRAM_BIN_SIZE as int), n) matches Ok(bins) ==> bins.len() == minutes / 5,
    decreases n,
{
    if n > 0 {
        a_histogram_has_a_bin_per_five_minutes(rows, minutes, n - 1);
    }
}

/// Only an allowed request is served: its client is not blocked and has a
/// version, its content type is `text/json`, it has no referer, and its grid
/// size is supported and not below the minimum.
pub proof fn only_allowed_requests_are_served(
    forbidden_ips: Seq<Seq<char>>,
    before: Request,
    after: Request,
    wanted: Option<GridRequest>,
    min_grid_base_length: int,
    served: Option<GridRequest>,
)
    requires
        validated(forbidden_ips, before, after, wanted, min_grid_base_length, served),
        served is Some,
    ensures
        before.client() matches Some(c) ==> !forbidden_ips.contains(c),
        before.version() > 0,
        text::opt_text(before.content_type) == Some(JSON_CONTENT_TYPE@),
        text::opt_text(before.referer) matches Some(r) ==> r.len() == 0,
        served->0.grid_base_length >= min_grid_base_length,
        is_valid_length(served->0.grid_base_length as int),
        served == wanted,
        after == before,
{
    if let Some(agent) = text::opt_text(before.user_agent) {
        crate::request::agent_version_is_not_negative(agent);
    }
}

/// Whether a request covers a part of the last day, and its threshold is not
/// negative.
pub open spec fn in_range(g: GridRequest) -> bool {
    &&& 1 <= g.minute_length <= MAX_MINUTES_PER_DAY
    &&& g.minute_offset <= 0
    &&& g.minute_offset - g.minute_length >= -MAX_MINUTES_PER_DAY
    &&& g.count_threshold >= 0
}

/// Whatever the arguments are, a request for the grid of a region covers a part
/// of the last day and asks for a known region.
pub proof fn region_requests_are_in_range(
    minute_length: JsonModel,
    grid_base_length: JsonModel,
    minute_offset: JsonModel,
    region: JsonModel,
    count_threshold: JsonModel,
)
    ensures
        wanted_region(minute_length, grid_base_length, minute_offset, region, count_threshold) matches Some(g)
            ==> in_range(g) && (g.kind matches GridKind::Region { region: id } && 1 <= id <= MAX_REGION),
{
    if let Some(g) = wanted_region(minute_length, grid_base_length, minute_offset, region, count_threshold) {
        constrained_spans_lie_in_the_last_day(minute_length.to_int()->0, minute_offset.to_int()->0);
        if let JsonModel::Float(f) = count_threshold {
            f.lemma_truncated_in_range();
        }
        assert(g.kind matches GridKind::Region { region: id } && 1 <= id <= MAX_REGION);
    }
}

/// Whatever the arguments are, a request for the world-wide grid covers a part
/// of the last day.
pub proof fn global_requests_are_in_range(
    minute_length: JsonModel,
    grid_base_length: JsonModel,
    minute_offset: JsonModel,
    count_threshold: JsonModel,
)
    ensures
        wanted_global(minute_length, grid_base_length, minute_offset, count_threshold) matches Some(g) ==> in_range(
            g,
        ) && g.kind == GridKind::Global,
{
    if let Some(g) = wanted_global(minute_length, grid_base_length, minute_offset, count_threshold) {
        constrained_spans_lie_in_the_last_day(minute_length.to_int()->0, minute_offset.to_int()->0);
        if let JsonModel::Float(f) = count_threshold {
            f.lemma_truncated_in_range();
        }
    }
}

/// Whatever the arguments are, a request for a local grid covers a part of the
/// last day and asks for a tile of at least five degrees.
pub proof fn local_requests_are_in_range(
    x: JsonModel,
    y: JsonModel,
    grid_base_length: JsonModel,
    minute_length: JsonModel,
    minute_offset: JsonModel,
    count_threshold: JsonModel,
    data_area: JsonModel,
)
    ensures
        wanted_local(x, y, grid_base_length, minute_length, minute_offset, count_threshold, data_area) matches Some(g)
            ==> in_range(g) && (g.kind matches GridKind::Local { x: _, y: _, data_area: size } && size >= 5),
{
    if let Some(g) = wanted_local(x, y, grid_base_length, minute_length, minute_offset, count_threshold, data_area) {
        constrained_spans_lie_in_the_last_day(minute_length.to_int()->0, minute_offset.to_int()->0);
        if let JsonModel::Float(f) = count_threshold {
            f.lemma_truncated_in_range();
        }
        if let JsonModel::Float(f) = data_area {
            f.lemma_truncated_in_range();
        }
    }
}

proof fn lemma_keyed_injective(names: Seq<Seq<char>>, vs: Seq<int>, ws: Seq<int>, n: int)
    requires
        0 <= n <= names.len(),
        forall|j: int| 0 <= j < names.len() ==> (#[trigger] names[j]).len() > 0 && names[j].last() == '=',
        keyed(names, vs, n) == keyed(names, ws, n),
    ensures
        forall|j: int| 0 <= j < n ==> vs[j] == ws[j],
    decreases n,
{
    if n > 0 {
        let name = names[n - 1];
        let a = keyed(names, vs, n - 1);
        let b = keyed(names, ws, n - 1);
        assert(keyed(names, vs, n) =~= (a + name) + number::signed_decimal(vs[n - 1]));
        assert(keyed(names, ws, n) =~= (b + name) + number::signed_decimal(ws[n - 1]));
        number::lemma_trailing_decimals(a + name, b + name, vs[n - 1], ws[n - 1]);
        assert(a =~= (a + name).take(a.len() as int));
        assert(b =~= (b + name).take(b.len() as int));
        lemma_keyed_injective(names, vs, ws, n - 1);
    }
}

proof fn lemma_names_end(kind: GridKind)
    ensures
        forall|j: int|
            0 <= j < key_names(kind).len() ==> (#[trigger] key_names(kind)[j]).len() > 0 && key_names(kind)[j].last()
                == '=',
        key_names(kind)[0].len() > 4,
        key_names(kind)[0][4] == (match kind {
            GridKind::Region { region } => 's',
            GridKind::Global => 'g',
            GridKind::Local { x, y, data_area } => 'l',
        }),
{
    reveal_strlit("get_strikes_grid|minute_length=");
    reveal_strlit("get_global_strikes_grid|minute_length=");
    reveal_strlit("get_local_strikes_grid|x=");
    reveal_strlit("|grid_baselength=");
    reveal_strlit("|minute_offset=");
    reveal_strlit("|minute_length=");
    reveal_strlit("|region=");
    reveal_strlit("|count_threshold=");
    reveal_strlit("|y=");
    reveal_strlit("|data_area=");
}

proof fn lemma_keyed_starts_with_name(names: Seq<Seq<char>>, vs: Seq<int>, n: int, i: int)
    requires
        1 <= n <= names.len(),
        0 <= i < names[0].len(),
    ensures
        keyed(names, vs, n).len() > i,
        keyed(names, vs, n)[i] == names[0][i],
    decreases n,
{
    if n == 1 {
        assert(keyed(names, vs, 0) =~= Seq::<char>::empty());
        assert(keyed(names, vs, 1) =~= key_part(names[0], vs[0]));
    } else {
        lemma_keyed_starts_with_name(names, vs, n - 1, i);
    }
}

/// Two requests share a cache key only when they are the same request, so no
/// request is answered with the response to another one.
pub proof fn equal_cache_keys_mean_equal_requests(a: GridRequest, b: GridRequest)
    requires
        a.key() == b.key(),
    ensures
        a == b,
{
    let vs = a.key_values();
    let ws = b.key_values();
    lemma_names_end(a.kind);
    lemma_names_end(b.kind);
    lemma_keyed_starts_with_name(key_names(a.kind), vs, vs.len() as int, 4);
    lemma_keyed_starts_with_name(key_names(b.kind), ws, ws.len() as int, 4);
    assert(key_names(a.kind)[0][4] == key_names(b.kind)[0][4]);
    match (a.kind, b.kind) {
        (GridKind::Region { region: p }, GridKind::Region { region: q }) => {
            lemma_keyed_injective(key_names(a.kind), vs, ws, 5);
            assert(vs[0] == ws[0] && vs[1] == ws[1] && vs[2] == ws[2] && vs[3] == ws[3] && vs[4] == ws[4]);
        },
        (GridKind::Global, GridKind::Global) => {
            lemma_keyed_injective(key_names(a.kind), vs, ws, 4);
            assert(vs[0] == ws[0] && vs[1] == ws[1] && vs[2] == ws[2] && vs[3] == ws[3]);
        },
        (GridKind::Local { x: x1, y: y1, data_area: d1 }, GridKind::Local { x: x2, y: y2, data_area: d2 }) => {
            lemma_keyed_injective(key_names(a.kind), vs, ws, 7);
            assert(vs[0] == ws[0] && vs[1] == ws[1] && vs[2] == ws[2] && vs[3] == ws[3] && vs[4] == ws[4] && vs[5]
                == ws[5] && vs[6] == ws[6]);
        },
        _ => {},
    }
}

/// A row of the world-wide grid gives one cell, whatever its numbers are: the
/// column is kept, the row falls by one for each step to the north, over both
/// hemispheres, and the count is kept.
pub proof fn world_rows_fall_by_one_per_step(
    rx: i64,
    ry: i64,
    count: i64,
    seen: i64,
    x_bin_count: int,
    y_bin_count: int,
    end_time: i64,
)
    ensures
        ({
            let row = seq![
                Cell::Int(rx as int),
                Cell::Int(ry as int),
                Cell::Int(count as int),
                Cell::Timestamp(seen as int),
            ];
            grid_row(row, x_bin_count, y_bin_count, end_time as int, true) matches Some(cell) && {
                &&& cell.x == rx
                &&& cell.y + ry == -1
                &&& cell.count == count
                &&& seen <= end_time ==> cell.age <= 0 && -cell.age * 1_000_000 <= end_time - seen < (1 - cell.age)
                    * 1_000_000
                &&& seen >= end_time ==> cell.age >= 0 && cell.age * 1_000_000 <= seen - end_time < (cell.age + 1)
                    * 1_000_000
            }
        }),
{
    number::quotients_are_rounded_toward_zero(end_time - seen, 1_000_000);
}

/// A row of another grid gives the cell in the same column whose row counts
/// from the top, when that lies in the grid, and nothing else.
pub proof fn grid_rows_count_from_the_top(
    rx: i64,
    ry: i64,
    count: i64,
    seen: i64,
    x_bin_count: i64,
    y_bin_count: i64,
    end_time: i64,
)
    ensures
        ({
            let row = seq![
                Cell::Int(rx as int),
                Cell::Int(ry as int),
                Cell::Int(count as int),
                Cell::Timestamp(seen as int),
            ];
            let r = grid_row(row, x_bin_count as int, y_bin_count as int, end_time as int, false);
            &&& r is Some <==> 0 <= rx < x_bin_count && 0 <= y_bin_count - ry < y_bin_count
            &&& r matches Some(cell) ==> {
                &&& cell.x == rx
                &&& cell.y + ry == y_bin_count
                &&& cell.count == count
                &&& seen <= end_time ==> cell.age <= 0 && -cell.age * 1_000_000 <= end_time - seen < (1 - cell.age)
                    * 1_000_000
                &&& seen >= end_time ==> cell.age >= 0 && cell.age * 1_000_000 <= seen - end_time < (cell.age + 1)
                    * 1_000_000
            }
        }),
{
    number::quotients_are_rounded_toward_zero(end_time - seen, 1_000_000);
}

/// Two rows with different numbers never give the same cell.
pub proof fn different_rows_give_different_cells(
    a: Seq<Cell>,
    b: Seq<Cell>,
    x_bin_count: i64,
    y_bin_count: i64,
    end_time: int,
    global: bool,
)
    requires
        a.len() >= 2 && b.len() >= 2,
        a[0] is Int && a[1] is Int && b[0] is Int && b[1] is Int,
        i64::MIN <= a[0]->Int_0 <= i64::MAX && i64::MIN <= a[1]->Int_0 <= i64::MAX,
        i64::MIN <= b[0]->Int_0 <= i64::MAX && i64::MIN <= b[1]->Int_0 <= i64::MAX,
        a[0] != b[0] || a[1] != b[1],
        grid_row(a, x_bin_count as int, y_bin_count as int, end_time, global) is Some,
        grid_row(b, x_bin_count as int, y_bin_count as int, end_time, global) is Some,
    ensures
        ({
            let p = grid_row(a, x_bin_count as int, y_bin_count as int, end_time, global)->0;
            let q = grid_row(b, x_bin_count as int, y_bin_count as int, end_time, global)->0;
            p.x != q.x || p.y != q.y
        }),
{
}

/// The cells of a response are those of the rows, in the order of the rows: a
/// row in the grid gives its cell, a row outside gives none.
pub proof fn every_row_gives_its_cell(
    rows: Seq<Seq<Cell>>,
    x_bin_count: int,
    y_bin_count: int,
    end_time: int,
    global: bool,
    n: int,
)
    requires
        0 <= n < rows.len(),
    ensures
        ({
            let before = grid_rows(rows, x_bin_count, y_bin_count, end_time, global, n);
            let after = grid_rows(rows, x_bin_count, y_bin_count, end_time, global, n + 1);
            match grid_row(rows[n], x_bin_count, y_bin_count, end_time, global) {
                Some(cell) => after == before.push(cell),
                None => after == before,
            }
        }),
        grid_rows(rows, x_bin_count, y_bin_count, end_time, global, 0).len() == 0,
{
}

/// The interval `-k` of a histogram is the bin `k` before the last one.
pub proof fn bins_count_back_from_the_last(k: int, n: int)
    requires
        0 <= k < n,
    ensures
        bin_of(-k, n) == Some(n - 1 - k),
{
}

/// The count of an interval stands in the bin that is as many bins before the
/// last one as the interval is before the end, unless a later row has the same
/// interval; a bin without a row is zero.
pub proof fn counts_stand_in_their_bins(rows: Seq<Seq<Cell>>, bins: nat, n: int, k: int)
    requires
        0 <= n <= rows.len(),
        0 <= k < bins,
        forall|i: int|
            0 <= i < n ==> {
                &&& (#[trigger] rows[i]).len() == 2
                &&& rows[i][0] is Int && rows[i][1] is Int
                &&& -(bins as int) < rows[i][0]->Int_0 <= 0
                &&& i64::MIN <= rows[i][1]->Int_0 <= i64::MAX
            },
    ensures
        ({
            let zeros = Seq::new(bins, |i: int| 0i64);
            let r = binned(rows, zeros, n);
            &&& r is Ok && r->Ok_0.len() == bins
            &&& forall|i: int|
                0 <= i < n && (#[trigger] rows[i])[0] == Cell::Int(-k) && (forall|j: int|
                    i < j < n ==> (#[trigger] rows[j])[0] != Cell::Int(-k)) ==> r->Ok_0[bins - 1 - k]
                    == rows[i][1]->Int_0
            &&& (forall|i: int| 0 <= i < n ==> (#[trigger] rows[i])[0] != Cell::Int(-k)) ==> r->Ok_0[bins - 1 - k] == 0
        }),
    decreases n,
{
    let zeros = Seq::new(bins, |i: int| 0i64);
    if n > 0 {
        counts_stand_in_their_bins(rows, bins, n - 1, k);
        let row = rows[n - 1];
        let before = binned(rows, zeros, n - 1)->Ok_0;
        let after = binned(rows, zeros, n)->Ok_0;
        let interval = row[0]->Int_0;
        assert(bin_of(interval, bins as int) == Some(interval + bins - 1));
        assert(after == before.update(interval + bins - 1, row[1]->Int_0 as i64));
        assert forall|i: int|
            0 <= i < n && (#[trigger] rows[i])[0] == Cell::Int(-k) && (forall|j: int|
                i < j < n ==> (#[trigger] rows[j])[0] != Cell::Int(-k)) implies after[bins - 1 - k]
            == rows[i][1]->Int_0 by {
            if i < n - 1 {
                assert(rows[n - 1][0] != Cell::Int(-k));
                assert(rows[i][1] is Int);
            }
        }
    }
}

/// The interval of a request ends at the last whole second, moved by the offset
/// in minutes, and is as many minutes long as requested.
pub proof fn intervals_end_at_the_last_second(minute_length: int, minute_offset: int, now: int)
    ensures
        interval_end(0, now) <= now < interval_end(0, now) + 1_000_000,
        interval_end(0, now) % 1_000_000 == 0,
        interval_end(minute_offset, now) - interval_end(0, now) == minute_offset * 60_000_000,
        interval_end(minute_offset, now) - interval_start(minute_length, minute_offset, now) == minute_length
            * 60_000_000,
{
    let s = now / 1_000_000;
    assert((s + minute_offset * 60) * 1_000_000 == s * 1_000_000 + minute_offset * 60_000_000) by (nonlinear_arith);
    assert((s + 0 * 60) * 1_000_000 == s * 1_000_000);
}

/// A length of one minute to a day is kept; a longer one is a day, and none or
/// a negative one is an hour.
pub proof fn lengths_up_to_a_day_are_kept(minute_length: int)
    ensures
        1 <= minute_length <= 1440 ==> day_constraint().length(minute_length) == minute_length,
        minute_length > 1440 ==> day_constraint().length(minute_length) == 1440,
        minute_length <= 0 ==> day_constraint().length(minute_length) == 60,
{
}

/// An offset that keeps the span within the last day is kept; an earlier one is
/// the earliest that does, and one in the future is none.
pub proof fn offsets_within_the_last_day_are_kept(minute_length: int, minute_offset: int)
    ensures
        ({
            let length = day_constraint().length(minute_length);
            let offset = day_constraint().offset(minute_length, minute_offset);
            &&& length - 1440 <= minute_offset <= 0 ==> offset == minute_offset
            &&& minute_offset < length - 1440 ==> offset == length - 1440
            &&& minute_offset > 0 ==> offset == 0
        }),
{
    lengths_up_to_a_day_are_kept(minute_length);
}

/// Arguments in range are served as they are, each in its own place.
pub proof fn arguments_in_range_are_kept(
    x: i64,
    y: i64,
    data_area: i64,
    region: i64,
    minute_length: i64,
    grid_base_length: i64,
    minute_offset: i64,
    count_threshold: i64,
)
    requires
        1 <= minute_length <= 1440,
        minute_length - 1440 <= minute_offset <= 0,
        count_threshold >= 0,
        1 <= region <= 7,
        data_area >= 5,
    ensures
        wanted_region(
            JsonModel::Int(minute_length as int),
            JsonModel::Int(grid_base_length as int),
            JsonModel::Int(minute_offset as int),
            JsonModel::Int(region as int),
            JsonModel::Int(count_threshold as int),
        ) == Some(
            GridRequest {
                kind: GridKind::Region { region },
                minute_length,
                minute_offset,
                grid_base_length,
                count_threshold,
            },
        ),
        wanted_global(
            JsonModel::Int(minute_length as int),
            JsonModel::Int(grid_base_length as int),
            JsonModel::Int(minute_offset as int),
            JsonModel::Int(count_threshold as int),
        ) == Some(
            GridRequest { kind: GridKind::Global, minute_length, minute_offset, grid_base_length, count_threshold },
        ),
        wanted_local(
            JsonModel::Int(x as int),
            JsonModel::Int(y as int),
            JsonModel::Int(grid_base_length as int),
            JsonModel::Int(minute_length as int),
            JsonModel::Int(minute_offset as int),
            JsonModel::Int(count_threshold as int),
            JsonModel::Int(data_area as int),
        ) == Some(
            GridRequest {
                kind: GridKind::Local { x, y, data_area },
                minute_length,
                minute_offset,
                grid_base_length,
                count_threshold,
            },
        ),
{
}

/// Arguments out of range are moved to the nearest bound, whatever the others
/// are: regions to one of the seven, data areas to five degrees and thresholds
/// to zero.
pub proof fn arguments_out_of_range_are_moved(
    x: int,
    y: int,
    data_area: int,
    region: int,
    minute_length: int,
    grid_base_length: int,
    minute_offset: int,
    count_threshold: int,
)
    requires
        i64::MIN <= x <= i64::MAX,
        i64::MIN <= y <= i64::MAX,
    ensures
        ({
            let of_region = region_request(minute_length, grid_base_length, minute_offset, region, count_threshold);
            let of_world = global_request(minute_length, grid_base_length, minute_offset, count_threshold);
            let of_tile = local_request(
                x,
                y,
                grid_base_length,
                minute_length,
                minute_offset,
                count_threshold,
                data_area,
            );
            &&& region < 1 ==> of_region.kind == (GridKind::Region { region: 1 })
            &&& region > 7 ==> of_region.kind == (GridKind::Region { region: 7 })
            &&& data_area < 5 ==> (of_tile.kind matches GridKind::Local { x: column, y: row, data_area: area } && column
                == x && row == y && area == 5)
            &&& count_threshold < 0 ==> of_region.count_threshold == 0 && of_world.count_threshold == 0
                && of_tile.count_threshold == 0
            &&& minute_length <= 0 ==> of_region.minute_length == 60 && of_world.minute_length == 60
                && of_tile.minute_length == 60
            &&& minute_length > 1440 ==> of_region.minute_length == 1440 && of_world.minute_length == 1440
                && of_tile.minute_length == 1440
            &&& minute_offset > 0 ==> of_region.minute_offset == 0 && of_world.minute_offset == 0
                && of_tile.minute_offset == 0
            &&& minute_offset < -1440 ==> of_region.minute_offset == of_region.minute_length - 1440
                && of_world.minute_offset == of_world.minute_length - 1440 && of_tile.minute_offset
                == of_tile.minute_length - 1440
        }),
{
    lengths_up_to_a_day_are_kept(minute_length);
    offsets_within_the_last_day_are_kept(minute_length, minute_offset);
}

/// A request is refused exactly when one of the rules is broken: a blocked
/// address, a client without a version, another content type than `text/json`,
/// a referer, or a grid size that is too small or not supported.
pub proof fn requests_are_refused_by_the_rules_alone(
    forbidden_ips: Seq<Seq<char>>,
    request: Request,
    client: Option<Seq<char>>,
    user_agent_version: int,
    grid_base_length: int,
    min_grid_base_length: int,
)
    ensures
        refusal(
            forbidden_ips,
            request,
            client,
            user_agent_version,
            grid_base_length,
            min_grid_base_length,
        ) is None <==> {
            &&& client is Some ==> !forbidden_ips.contains(client->0)
            &&& user_agent_version != 0
            &&& text::opt_text(request.content_type) == Some("text/json"@)
            &&& text::opt_text(request.referer) is Some ==> text::opt_text(request.referer)->0.len() == 0
            &&& grid_base_length >= min_grid_base_length
            &&& grid_base_length == 5000 || grid_base_length == 10_000 || grid_base_length == 25_000 || grid_base_length
                == 50_000 || grid_base_length == 100_000
        },
{
}

/// The member of a response with the given name.
pub open spec fn shown(
    rows: Seq<GridRow>,
    histogram: Seq<i64>,
    figures: GridFigures,
    interval: TimeInterval,
    name: Seq<char>,
) -> JsonModel {
    grid_response(rows, histogram, figures, interval).member(name)->0
}

/// A response shows each figure of the grid under its own name, its cells as
/// column, row, count and age, and its histogram.
pub proof fn responses_show_the_grid(
    rows: Seq<GridRow>,
    histogram: Seq<i64>,
    figures: GridFigures,
    interval: TimeInterval,
)
    ensures
        shown(rows, histogram, figures, interval, "xd"@) == JsonModel::Float(figures.xd),
        shown(rows, histogram, figures, interval, "yd"@) == JsonModel::Float(figures.yd),
        shown(rows, histogram, figures, interval, "x0"@) == JsonModel::Float(figures.x0),
        shown(rows, histogram, figures, interval, "y1"@) == JsonModel::Float(figures.y1),
        shown(rows, histogram, figures, interval, "xc"@) == JsonModel::Int(figures.xc as int),
        shown(rows, histogram, figures, interval, "yc"@) == JsonModel::Int(figures.yc as int),
        shown(rows, histogram, figures, interval, "t"@) == JsonModel::Text(
            clock::utc_text(interval.end as int, "%Y%m%dT%H:%M:%S"@)->0,
        ),
        interval.start <= interval.end ==> (shown(rows, histogram, figures, interval, "dt"@) matches JsonModel::Int(s)
            && s * 1_000_000 <= interval.end - interval.start < (s + 1) * 1_000_000),
        shown(rows, histogram, figures, interval, "r"@) matches JsonModel::Array(cells) && cells.len() == rows.len() && (
        forall|i: int|
            0 <= i < rows.len() ==> #[trigger] cells[i] == JsonModel::Array(
                seq![
                    JsonModel::Int(rows[i].x as int),
                    JsonModel::Int(rows[i].y as int),
                    JsonModel::Int(rows[i].count as int),
                    JsonModel::Int(rows[i].age as int),
                ],
            )),
        shown(rows, histogram, figures, interval, "h"@) matches JsonModel::Array(bins) && bins.len() == histogram.len()
            && (forall|i: int|
            0 <= i < histogram.len() ==> #[trigger] bins[i] == JsonModel::Int(histogram[i] as int)),
{
    reveal_strlit("r");
    reveal_strlit("xd");
    reveal_strlit("yd");
    reveal_strlit("x0");
    reveal_strlit("y1");
    reveal_strlit("xc");
    reveal_strlit("yc");
    reveal_strlit("t");
    reveal_strlit("dt");
    reveal_strlit("h");
    let fields = grid_response(rows, histogram, figures, interval)->Object_0;
    assert forall|i: int, j: int| 0 <= i < j < 10 implies (#[trigger] fields[i]).0 != (#[trigger] fields[j]).0 by {
        let a = fields[i].0;
        let b = fields[j].0;
        if a.len() == b.len() {
            assert(a[0] != b[0] || a[1] != b[1]);
        }
    }
    assert forall|i: int| 0 <= i < 10 implies json::field_from(fields, (#[trigger] fields[i]).0, 0) == Some(
        fields[i].1,
    ) by {
        json::lemma_field(fields, 0, i);
    }
    number::quotients_are_rounded_toward_zero(interval.end - interval.start, 1_000_000);
    assert(fields[0].0 == "r"@ && fields[1].0 == "xd"@ && fields[2].0 == "yd"@ && fields[3].0 == "x0"@ && fields[4].0
        == "y1"@);
    assert(fields[5].0 == "xc"@ && fields[6].0 == "yc"@ && fields[7].0 == "t"@ && fields[8].0 == "dt"@ && fields[9].0
        == "h"@);
}

/// What is stored for a request is looked up in the same cache, and requests of
/// another kind, or of the past where this one is current, have another one.
pub proof fn requests_find_what_they_stored<T>(
    caches: ServiceCacheModel<T>,
    request: GridRequest,
    other: GridRequest,
    cache: crate::cache::CacheModel<T>,
)
    ensures
        cache_for(with_cache(caches, request, cache), request) == cache,
        request.kind is Region != other.kind is Region || request.kind is Global != other.kind is Global || (
        request.minute_offset == 0) != (other.minute_offset == 0) ==> cache_for(
            with_cache(caches, request, cache),
            other,
        ) == cache_for(caches, other),
        with_cache(caches, request, cache).histogram == caches.histogram,
{
}

/// Current responses are kept for twenty seconds, past ones for a minute; of
/// local grids at most a hundred current and four hundred past ones are kept.
pub proof fn responses_are_kept_for_their_time<T>(period: Option<int>, request: GridRequest)
    ensures
        ({
            let cache = cache_for(ServiceCacheModel::<T>::fresh(period), request);
            &&& request.minute_offset == 0 ==> cache.ttl == 20
            &&& request.minute_offset != 0 ==> cache.ttl == 60
            &&& cache.period == period
            &&& cache.entries.len() == 0
            &&& match request.kind {
                GridKind::Local { x, y, data_area } => cache.size == Some(
                    (if request.minute_offset == 0 {
                        100nat
                    } else {
                        400nat
                    }),
                ),
                _ => cache.size is None,
            }
            &&& ServiceCacheModel::<T>::fresh(period).histogram.ttl == 60
        }),
{
}

/// The grid of a region counts the strikes of that region, a local grid those
/// of all regions, and the world-wide grid has no bounds.
pub proof fn requests_count_their_own_strikes(request: GridRequest, grid: Grid, interval: TimeInterval)
    ensures
        match request.kind {
            GridKind::Region { region } => cells_model(request, grid, interval) == query::grid_model(
                grid,
                interval,
                Some(region),
                request.count_threshold,
            ) && histogram_grid(request.kind, &grid) == Some(&grid),
            GridKind::Local { x, y, data_area } => cells_model(request, grid, interval) == query::grid_model(
                grid,
                interval,
                None,
                request.count_threshold,
            ) && histogram_grid(request.kind, &grid) == Some(&grid),
            GridKind::Global => cells_model(request, grid, interval) == query::global_model(
                grid,
                interval,
                request.count_threshold,
            ) && histogram_grid(request.kind, &grid) is None,
        },
{
}

/// A histogram is shown for the spans of more than ten minutes, and its span is
/// as many minutes long as requested.
pub proof fn histograms_are_shown_for_longer_spans(request: GridRequest, interval: TimeInterval, now: int)
    requires
        request.minute_length >= 0,
        interval.start == interval_start(request.minute_length as int, request.minute_offset as int, now),
        interval.end == interval_end(request.minute_offset as int, now),
    ensures
        request.counts_over_time() <==> request.minute_length >= 11,
        interval_minutes(interval) == request.minute_length,
{
    let n = request.minute_length as int;
    intervals_end_at_the_last_second(n, request.minute_offset as int, now);
    let span = interval.end - interval.start;
    assert(span == n * 60_000_000);
    number::quotients_are_rounded_toward_zero(span, 1_000_000);
    let seconds = number::quotient(span, 1_000_000);
    assert(seconds == n * 60);
    number::quotients_are_rounded_toward_zero(seconds, 60);
}

/// A blocked address is refused as such, whatever else the request holds; a
/// client without a version comes next, then the content type, the referer and
/// the size: what comes behind the first broken rule does not show.
pub proof fn the_first_broken_rule_is_named(
    forbidden_ips: Seq<Seq<char>>,
    a: Request,
    b: Request,
    client: Option<Seq<char>>,
    version: int,
    other_version: int,
    size: int,
    other_size: int,
    least: int,
)
    ensures
        ({
            let first = refusal(forbidden_ips, a, client, version, size, least);
            let second = refusal(forbidden_ips, b, client, other_version, other_size, least);
            let blocked = client is Some && forbidden_ips.contains(client->0);
            let same_agent = text::opt_text(a.user_agent) == text::opt_text(b.user_agent);
            let same_type = text::opt_text(a.content_type) == text::opt_text(b.content_type);
            let same_referer = text::opt_text(a.referer) == text::opt_text(b.referer);
            let json = text::opt_text(a.content_type) == Some("text/json"@);
            let referred = text::opt_text(a.referer) is Some && text::opt_text(a.referer)->0.len() > 0;
            &&& blocked ==> first == second && first is Some
            &&& !blocked && version == 0 && other_version == 0 && same_agent ==> first == second && first is Some
            &&& !blocked && version != 0 && other_version != 0 && same_type && !json ==> first == second && first is Some
            &&& !blocked && version != 0 && other_version != 0 && same_type && json && same_referer && referred
                ==> first == second && first is Some
        }),
{
}

/// The six numbers of a grid in the order of a histogram key.
pub open spec fn grid_numbers(texts: GridTexts) -> Seq<Seq<char>> {
    seq![texts.x_min@, texts.x_max@, texts.y_min@, texts.y_max@, texts.x_div@, texts.y_div@]
}

/// Whether no number of a grid holds a comma or a bar.
pub open spec fn plain_numbers(texts: GridTexts) -> bool {
    forall|i: int|
        0 <= i < 6 ==> !(#[trigger] grid_numbers(texts)[i]).contains(',') && !grid_numbers(texts)[i].contains('|')
}

proof fn lemma_grid_key(texts: GridTexts)
    ensures
        grid_key(texts) == "|grid="@ + text::join(grid_numbers(texts), seq![',']),
{
    reveal_strlit(",");
    let comma = seq![','];
    assert(","@ =~= comma);
    let i0 = seq![texts.x_min@];
    let i1 = i0.push(texts.x_max@);
    let i2 = i1.push(texts.y_min@);
    let i3 = i2.push(texts.y_max@);
    let i4 = i3.push(texts.x_div@);
    let i5 = i4.push(texts.y_div@);
    text::lemma_join_push(i0, texts.x_max@, comma);
    text::lemma_join_push(i1, texts.y_min@, comma);
    text::lemma_join_push(i2, texts.y_max@, comma);
    text::lemma_join_push(i3, texts.x_div@, comma);
    text::lemma_join_push(i4, texts.y_div@, comma);
    assert(i5 =~= grid_numbers(texts));
    assert(text::join(i0, comma) == texts.x_min@);
    assert(grid_key(texts) =~= "|grid="@ + text::join(i5, comma));
}

/// A span as the parts of a histogram key.
spec fn span_parts(minute_length: int, minute_offset: int) -> Seq<Seq<char>> {
    seq![
        "minute_length="@ + number::signed_decimal(minute_length),
        "minute_offset="@ + number::signed_decimal(minute_offset),
    ]
}

proof fn lemma_no_bar(name: Seq<char>, v: int)
    requires
        !name.contains('|'),
    ensures
        !(name + number::signed_decimal(v)).contains('|'),
{
    let s = name + number::signed_decimal(v);
    if s.contains('|') {
        let i = choose|i: int| 0 <= i < s.len() && s[i] == '|';
        if i < name.len() {
            assert(name.contains(name[i]));
        } else {
            number::lemma_signed_chars(v, i - name.len());
        }
    }
}

proof fn lemma_span_parts(minute_length: int, minute_offset: int)
    ensures
        histogram_key(minute_length, minute_offset, None) == text::join(
            span_parts(minute_length, minute_offset),
            seq!['|'],
        ),
        !span_parts(minute_length, minute_offset)[0].contains('|'),
        !span_parts(minute_length, minute_offset)[1].contains('|'),
{
    reveal_strlit("minute_length=");
    reveal_strlit("minute_offset=");
    reveal_strlit("|minute_offset=");
    let a = "minute_length="@ + number::signed_decimal(minute_length);
    let b = "minute_offset="@ + number::signed_decimal(minute_offset);
    assert(seq![a].push(b) =~= span_parts(minute_length, minute_offset));
    text::lemma_join_push(seq![a], b, seq!['|']);
    assert(text::join(seq![a], seq!['|']) == a);
    assert("|minute_offset="@ =~= seq!['|'] + "minute_offset="@);
    assert(a + seq!['|'] + b =~= a + (seq!['|'] + "minute_offset="@ + number::signed_decimal(minute_offset)));
    lemma_no_bar("minute_length="@, minute_length);
    lemma_no_bar("minute_offset="@, minute_offset);
}

proof fn lemma_spans_differ(length: int, offset: int, other_length: int, other_offset: int)
    requires
        span_parts(length, offset)[0] == span_parts(other_length, other_offset)[0],
        span_parts(length, offset)[1] == span_parts(other_length, other_offset)[1],
    ensures
        length == other_length,
        offset == other_offset,
{
    let name = "minute_length="@;
    let x = name + number::signed_decimal(length);
    let y = name + number::signed_decimal(other_length);
    assert(x.skip(name.len() as int) =~= number::signed_decimal(length));
    assert(y.skip(name.len() as int) =~= number::signed_decimal(other_length));
    number::lemma_signed_decimal_injective(length, other_length);
    let word = "minute_offset="@;
    let u = word + number::signed_decimal(offset);
    let v = word + number::signed_decimal(other_offset);
    assert(u.skip(word.len() as int) =~= number::signed_decimal(offset));
    assert(v.skip(word.len() as int) =~= number::signed_decimal(other_offset));
    number::lemma_signed_decimal_injective(offset, other_offset);
}

proof fn lemma_key_parts(length: int, offset: int, texts: GridTexts)
    requires
        plain_numbers(texts),
    ensures
        text::pieces(histogram_key(length, offset, Some(&texts)), '|') == span_parts(length, offset).push(
            "grid="@ + text::join(grid_numbers(texts), seq![',']),
        ),
        text::pieces(text::join(grid_numbers(texts), seq![',']), ',') == grid_numbers(texts),
{
    reveal_strlit("grid=");
    reveal_strlit("|grid=");
    let bar = seq!['|'];
    let numbers = text::join(grid_numbers(texts), seq![',']);
    let last = "grid="@ + numbers;
    let parts = span_parts(length, offset);
    lemma_span_parts(length, offset);
    lemma_grid_key(texts);
    text::lemma_join_push(parts, last, bar);
    assert("|grid="@ =~= bar + "grid="@);
    assert(text::join(parts, bar) + bar + last =~= text::join(parts, bar) + (bar + "grid="@ + numbers));
    let all = parts.push(last);
    lemma_numbers_without_bar(texts, 6);
    assert(!last.contains('|')) by {
        if last.contains('|') {
            let i = choose|i: int| 0 <= i < last.len() && last[i] == '|';
            if i >= 5 {
                assert(numbers[i - 5] == '|');
                assert(numbers.contains('|'));
            }
        }
    }
    assert forall|i: int| 0 <= i < 3 implies !(#[trigger] all[i]).contains('|') by {}
    text::lemma_pieces_of_join(all, '|', 3);
    assert(all.take(3) =~= all);
    text::lemma_pieces_of_join(grid_numbers(texts), ',', 6);
    assert(grid_numbers(texts).take(6) =~= grid_numbers(texts));
}

proof fn lemma_numbers_without_bar(texts: GridTexts, n: int)
    requires
        plain_numbers(texts),
        0 <= n <= 6,
    ensures
        !text::joined(grid_numbers(texts), seq![','], n).contains('|'),
    decreases n,
{
    let items = grid_numbers(texts);
    if n > 0 {
        lemma_numbers_without_bar(texts, n - 1);
        assert(!items[n - 1].contains('|'));
        let before = text::joined(items, seq![','], n - 1);
        let all = text::joined(items, seq![','], n);
        if n > 1 && all.contains('|') {
            let i = choose|i: int| 0 <= i < all.len() && all[i] == '|';
            if i < before.len() {
                assert(before.contains(before[i]));
            } else if i > before.len() {
                assert(items[n - 1][i - before.len() - 1] == '|');
                assert(items[n - 1].contains('|'));
            }
        }
    }
}

/// Histograms share a cache entry only when they have the same span and the
/// same grid: their keys differ wherever the length, the offset or one of the
/// six numbers does.
pub proof fn equal_histogram_keys_mean_equal_histograms(
    length: int,
    offset: int,
    texts: GridTexts,
    other_length: int,
    other_offset: int,
    other_texts: GridTexts,
)
    requires
        plain_numbers(texts),
        plain_numbers(other_texts),
    ensures
        histogram_key(length, offset, None) == histogram_key(other_length, other_offset, None) ==> length
            == other_length && offset == other_offset,
        histogram_key(length, offset, Some(&texts)) == histogram_key(other_length, other_offset, Some(&other_texts))
            ==> length == other_length && offset == other_offset && grid_numbers(texts) == grid_numbers(other_texts),
        histogram_key(length, offset, Some(&texts)) != histogram_key(other_length, other_offset, None),
{
    let parts = span_parts(length, offset);
    let other = span_parts(other_length, other_offset);
    lemma_span_parts(length, offset);
    lemma_span_parts(other_length, other_offset);
    text::lemma_pieces_of_join(parts, '|', 2);
    text::lemma_pieces_of_join(other, '|', 2);
    assert(parts.take(2) =~= parts);
    assert(other.take(2) =~= other);
    lemma_key_parts(length, offset, texts);
    lemma_key_parts(other_length, other_offset, other_texts);
    if histogram_key(length, offset, None) == histogram_key(other_length, other_offset, None) {
        lemma_spans_differ(length, offset, other_length, other_offset);
    }
    let numbers = text::join(grid_numbers(texts), seq![',']);
    let other_numbers = text::join(grid_numbers(other_texts), seq![',']);
    let all = parts.push("grid="@ + numbers);
    let others = other.push("grid="@ + other_numbers);
    assert(all.len() == 3 && other.len() == 2);
    if histogram_key(length, offset, Some(&texts)) == histogram_key(other_length, other_offset, Some(&other_texts)) {
        assert(all == others);
        assert(all[0] == parts[0] && all[1] == parts[1] && others[0] == other[0] && others[1] == other[1]);
        lemma_spans_differ(length, offset, other_length, other_offset);
        assert(all[2] == others[2]);
        let n = "grid="@.len() as int;
        assert(("grid="@ + numbers).skip(n) =~= numbers);
        assert(("grid="@ + other_numbers).skip(n) =~= other_numbers);
    }
}

proof fn lemma_first_rows(
    rows: Seq<Seq<Cell>>,
    all: Seq<Seq<Cell>>,
    x_bin_count: int,
    y_bin_count: int,
    end_time: int,
    global: bool,
    n: int,
)
    requires
        0 <= n <= rows.len() <= all.len(),
        forall|i: int| 0 <= i < rows.len() ==> #[trigger] all[i] == rows[i],
    ensures
        grid_rows(all, x_bin_count, y_bin_count, end_time, global, n) == grid_rows(
            rows,
            x_bin_count,
            y_bin_count,
            end_time,
            global,
            n,
        ),
    decreases n,
{
    if n > 0 {
        assert(all[n - 1] == rows[n - 1]);
        lemma_first_rows(rows, all, x_bin_count, y_bin_count, end_time, global, n - 1);
    }
}

/// The cells that a response shows.
pub open spec fn shown_cells(response: JsonModel) -> Seq<JsonModel> {
    response.member("r"@)->0->Array_0
}

proof fn lemma_shown_cells(
    request: GridRequest,
    rows: Seq<Seq<Cell>>,
    bins: Seq<i64>,
    figures: GridFigures,
    interval: TimeInterval,
)
    ensures
        shown_cells(response_of(request, rows, bins, figures, interval)) == grid_rows(
            rows,
            figures.xc as int,
            figures.yc as int,
            interval.end as int,
            request.kind == GridKind::Global,
            rows.len() as int,
        ).map_values(|r: GridRow| row_json(r)),
{
    let cells = grid_rows(
        rows,
        figures.xc as int,
        figures.yc as int,
        interval.end as int,
        request.kind == GridKind::Global,
        rows.len() as int,
    );
    let fields = grid_response(cells, bins, figures, interval)->Object_0;
    json::lemma_field(fields, 0, 0);
    assert(fields[0].0 == "r"@);
}

/// One more row of strikes adds its cell to the response: the column, the row
/// from the top (for the world, from the equator downward), the count, and how
/// many seconds before the end the latest strike was seen, as a negative number.
/// A row outside the columns and rows of the grid adds nothing.
pub proof fn each_row_is_shown_in_the_response(
    request: GridRequest,
    rows: Seq<Seq<Cell>>,
    bins: Seq<i64>,
    figures: GridFigures,
    interval: TimeInterval,
    x: i64,
    y: i64,
    count: i64,
    seconds: int,
)
    requires
        y > i64::MIN,
        0 <= seconds <= 1_000_000_000_000,
        figures.yc >= 0,
    ensures
        ({
            let row = seq![
                Cell::Int(x as int),
                Cell::Int(y as int),
                Cell::Int(count as int),
                Cell::Timestamp(interval.end - seconds * 1_000_000),
            ];
            let before = shown_cells(response_of(request, rows, bins, figures, interval));
            let after = shown_cells(response_of(request, rows.push(row), bins, figures, interval));
            let cell = |shown_y: int|
                JsonModel::Array(
                    seq![
                        JsonModel::Int(x as int),
                        JsonModel::Int(shown_y),
                        JsonModel::Int(count as int),
                        JsonModel::Int(-seconds),
                    ],
                );
            if request.kind == GridKind::Global {
                after == before.push(cell(-y - 1))
            } else if 0 <= x < figures.xc && 0 < y <= figures.yc {
                after == before.push(cell(figures.yc - y))
            } else {
                after == before
            }
        }),
{
    let row = seq![
        Cell::Int(x as int),
        Cell::Int(y as int),
        Cell::Int(count as int),
        Cell::Timestamp(interval.end - seconds * 1_000_000),
    ];
    let all = rows.push(row);
    let n = rows.len() as int;
    let end = interval.end as int;
    let global = request.kind == GridKind::Global;
    lemma_first_rows(rows, all, figures.xc as int, figures.yc as int, end, global, n);
    lemma_shown_cells(request, rows, bins, figures, interval);
    lemma_shown_cells(request, all, bins, figures, interval);
    assert(all[n] == row);
    number::quotients_are_rounded_toward_zero(seconds * 1_000_000, 1_000_000);
    assert(number::quotient(seconds * 1_000_000, 1_000_000) == seconds);
    let cells = grid_rows(rows, figures.xc as int, figures.yc as int, end, global, n);
    let json_of = |r: GridRow| row_json(r);
    match grid_row(row, figures.xc as int, figures.yc as int, end, global) {
        Some(cell) => {
            assert(cells.push(cell).map_values(json_of) =~= cells.map_values(json_of).push(row_json(cell)));
            assert(row_json(cell)->Array_0 =~= seq![
                JsonModel::Int(x as int),
                JsonModel::Int(if global {
                    -y - 1
                } else {
                    figures.yc - y
                }),
                JsonModel::Int(count as int),
                JsonModel::Int(-seconds),
            ]);
        },
        None => {},
    }
}

/// A served request is counted as what it is: the texts of its metrics are
/// those of a region, of the world or of a data area, with its own length.
pub proof fn served_requests_are_counted(request: GridRequest, ratio: Seq<char>)
    ensures
        ({
            let texts = crate::metrics::line_texts(served_lines(request, ratio));
            &&& texts[0] == "strikes_grid.total_count"@ + ":1|c"@
            &&& match request.kind {
                GridKind::Region { region } => texts[1] == "strikes_grid.total_count"@ + "."@ + number::signed_decimal(
                    region as int,
                ) + ":1|c"@ && texts.len() == if request.minute_length == 10 { 5int } else { 3 },
                GridKind::Global => texts[1] == "global_strikes_grid.total_count"@ + ":1|c"@ && texts.len()
                    == if request.minute_length == 10 { 5int } else { 3 },
                GridKind::Local { x, y, data_area } => texts[1] == "local_strikes_grid.total_count"@ + ":1|c"@
                    && texts[2] == "local_strikes_grid.data_area"@ + "."@ + number::signed_decimal(data_area as int)
                    + ":1|c"@ && texts.len() == if request.minute_length == 10 { 6int } else { 4 },
            }
        }),
{
    match request.kind {
        GridKind::Region { region } => crate::metrics::region_requests_are_counted(
            request.minute_length as int,
            region as int,
            ratio,
        ),
        GridKind::Global => crate::metrics::global_requests_are_counted(request.minute_length as int, ratio),
        GridKind::Local { x, y, data_area } => crate::metrics::local_requests_are_counted(
            request.minute_length as int,
            data_area as int,
            ratio,
        ),
    }
}

/// Two requests share a histogram only when they have the same span, and are
/// both for the world or for the same grid.
pub proof fn requests_share_equal_histograms_alone(
    a: GridRequest,
    b: GridRequest,
    texts: GridTexts,
    other_texts: GridTexts,
)
    requires
        plain_numbers(texts),
        plain_numbers(other_texts),
        request_histogram_key(a, texts) == request_histogram_key(b, other_texts),
    ensures
        a.minute_length == b.minute_length,
        a.minute_offset == b.minute_offset,
        a.kind == GridKind::Global <==> b.kind == GridKind::Global,
        a.kind != GridKind::Global ==> grid_numbers(texts) == grid_numbers(other_texts),
{
    let word = "histogram_query|"@;
    let x = histogram_key(a.minute_length as int, a.minute_offset as int, histogram_texts(a.kind, &texts));
    let y = histogram_key(b.minute_length as int, b.minute_offset as int, histogram_texts(b.kind, &other_texts));
    assert((word + x).skip(word.len() as int) =~= x);
    assert((word + y).skip(word.len() as int) =~= y);
    equal_histogram_keys_mean_equal_histograms(
        a.minute_length as int,
        a.minute_offset as int,
        texts,
        b.minute_length as int,
        b.minute_offset as int,
        other_texts,
    );
    equal_histogram_keys_mean_equal_histograms(
        b.minute_length as int,
        b.minute_offset as int,
        other_texts,
        a.minute_length as int,
        a.minute_offset as int,
        texts,
    );
}

/// A response that was stored for a request is found for it again until its
/// seconds are over, and not longer; it is found for another request only where
/// that has the same key, and other requests of its cache without a limit keep
/// what they have.
pub proof fn stored_responses_are_found_again<T>(
    caches: ServiceCacheModel<T>,
    request: GridRequest,
    other: GridRequest,
    response: T,
    now: int,
    later: int,
)
    requires
        caches.wf(),
        0 <= now <= later,
    ensures
        ({
            let after = settled(caches, request, response, now);
            let end = (now / 1_000_000 + cache_for(caches, request).ttl) * 1_000_000;
            &&& later < end ==> found(after, request, later) == Some(response)
            &&& later >= end ==> found(after, request, later) is None
            &&& request.key() != other.key() && cache_for(caches, request).size is None ==> found(after, other, now)
                == found(caches, other, now)
        }),
{
    let cache = cache_for(caches, request);
    let stored = cache.stored(request.key(), response, now);
    let after = settled(caches, request, response, now);
    crate::cache::lemma_store_keeps_invariant(cache, request.key(), response, now);
    crate::cache::payloads_live_for_their_seconds(cache, request.key(), response, now, later);
    crate::cache::a_cleanup_drops_no_valid_entry(stored, request.key(), later);
    requests_find_what_they_stored(caches, request, other, stored);
    if request.key() != other.key() && cache.size is None {
        crate::cache::other_keys_keep_their_payload(cache, request.key(), other.key(), response, now);
        crate::cache::a_cleanup_drops_no_valid_entry(stored, other.key(), now);
        crate::cache::a_cleanup_drops_no_valid_entry(cache, other.key(), now);
    }
}

/// Under any constraint a length up to the maximum is kept, a longer one is the
/// maximum, and none is the default; an offset that keeps the span within the
/// maximum is kept, and another one is moved to the nearest that does.
pub proof fn spans_are_kept_within_their_constraint(c: TimeConstraint, minute_length: int, minute_offset: int)
    requires
        0 < c.default_minute_length <= c.max_minute_length,
    ensures
        ({
            let length = c.length(minute_length);
            let offset = c.offset(minute_length, minute_offset);
            &&& 0 < minute_length <= c.max_minute_length ==> length == minute_length
            &&& minute_length > c.max_minute_length ==> length == c.max_minute_length
            &&& minute_length <= 0 ==> length == c.default_minute_length
            &&& length - c.max_minute_length <= minute_offset <= 0 ==> offset == minute_offset
            &&& minute_offset < length - c.max_minute_length ==> offset == length - c.max_minute_length
            &&& minute_offset > 0 ==> offset == 0
        }),
{
}

/// A data area of five degrees or more is kept, and a smaller one is five.
pub proof fn data_areas_have_five_degrees(data_area: int)
    ensures
        data_area >= 5 ==> area_degrees(data_area) == data_area,
        data_area <= 5 ==> area_degrees(data_area) == 5,
{
}

} // verus!
