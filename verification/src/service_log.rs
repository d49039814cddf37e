//! Per-request usage logging.
//!
//! Every served grid request becomes a [`ServiceLogEntry`].  A background
//! consumer enriches each entry (country and city, client platform and
//! version), renders it as a tab-separated row with [`build_row`] and appends
//! the row to `servicelog_{YYYY-MM-DD}`, as [`ServicelogWriter`] decides.
//!
//! The queue between the requests and the consumer holds [`QUEUE_CAPACITY`]
//! entries; an entry that finds it full is dropped, so that requests never wait
//! for usage logging.

use vstd::prelude::*;
use vstd::string::*;

use crate::clock;
use crate::number;
use crate::request;
use crate::service::{GridKind, GridRequest};
use crate::text;

verus! {

/// Environment variable that sets the usage-log directory; an empty value
/// disables usage logging.
pub const LOG_DIR_ENV: &'static str = "BO_SERVICE_SERVICELOG";

/// Alias of [`LOG_DIR_ENV`].
pub const LOG_DIR_ENV_ALIAS: &'static str = "BO_SERVICE_LOG_DIR";

/// Default GeoIP database path.
pub const DEFAULT_GEOIP_DB: &'static str = "/var/lib/GeoIP/GeoLite2-City.mmdb";

/// Environment variable that sets the GeoIP database path.
pub const GEOIP_DB_ENV: &'static str = "BO_GEOIP_DB";

/// Alias of [`GEOIP_DB_ENV`].
pub const GEOIP_DB_ENV_ALIAS: &'static str = "BO_SERVICE_GEOIP_DB";

/// Capacity of the queue; a full queue drops entries.
pub const QUEUE_CAPACITY: usize = 65536;

/// The extras of a local grid request.
#[derive(Debug, Clone, Copy, PartialEq, Eq, Structural)]
pub struct LocalGridLog {
    pub x: i64,
    pub y: i64,
    pub data_area: i64,
}

/// One recorded grid request.
///
/// `region` is `0` for a global grid and `-1` for a local one;
/// `grid_baselength` is the requested grid size before it is clamped.
#[derive(Debug, Clone, PartialEq)]
pub struct ServiceLogEntry {
    /// Microseconds since the epoch.
    pub now_us: i64,
    pub minute_length: i64,
    pub grid_baselength: i64,
    pub minute_offset: i64,
    pub region: i64,
    pub count_threshold: i64,
    pub client: Option<String>,
    pub user_agent: Option<String>,
    pub local: Option<LocalGridLog>,
}

/// Microseconds since the epoch of a UTC time, given as seconds since the epoch
/// and the microseconds of the second.
pub fn epoch_microseconds(seconds: i64, subsec_micros: u32) -> (r: i64)
    requires
        i64::MIN <= seconds * 1_000_000 + subsec_micros <= i64::MAX,
    ensures
        r == seconds * 1_000_000 + subsec_micros,
{
    let micros: i128 = seconds as i128 * 1_000_000 + subsec_micros as i128;
    micros as i64
}

/// The entry of a global grid request.
pub fn global_entry(
    now_us: i64,
    minute_length: i64,
    grid_baselength: i64,
    minute_offset: i64,
    count_threshold: i64,
    client: Option<String>,
    user_agent: Option<String>,
) -> (r: ServiceLogEntry)
    ensures
        r == (ServiceLogEntry {
            now_us,
            minute_length,
            grid_baselength,
            minute_offset,
            region: 0,
            count_threshold,
            client,
            user_agent,
            local: None,
        }),
{
    ServiceLogEntry {
        now_us,
        minute_length,
        grid_baselength,
        minute_offset,
        region: 0,
        count_threshold,
        client,
        user_agent,
        local: None,
    }
}

/// The entry of a region grid request.
pub fn region_entry(
    now_us: i64,
    minute_length: i64,
    grid_baselength: i64,
    minute_offset: i64,
    region: i64,
    count_threshold: i64,
    client: Option<String>,
    user_agent: Option<String>,
) -> (r: ServiceLogEntry)
    ensures
        r == (ServiceLogEntry {
            now_us,
            minute_length,
            grid_baselength,
            minute_offset,
            region,
            count_threshold,
            client,
            user_agent,
            local: None,
        }),
{
    ServiceLogEntry {
        now_us,
        minute_length,
        grid_baselength,
        minute_offset,
        region,
        count_threshold,
        client,
        user_agent,
        local: None,
    }
}

/// The entry of a local grid request.
pub fn local_entry(
    now_us: i64,
    minute_length: i64,
    grid_baselength: i64,
    minute_offset: i64,
    count_threshold: i64,
    client: Option<String>,
    user_agent: Option<String>,
    x: i64,
    y: i64,
    data_area: i64,
) -> (r: ServiceLogEntry)
    ensures
        r == (ServiceLogEntry {
            now_us,
            minute_length,
            grid_baselength,
            minute_offset,
            region: (-1) as i64,
            count_threshold,
            client,
            user_agent,
            local: Some(LocalGridLog { x, y, data_area }),
        }),
{
    ServiceLogEntry {
        now_us,
        minute_length,
        grid_baselength,
        minute_offset,
        region: -1,
        count_threshold,
        client,
        user_agent,
        local: Some(LocalGridLog { x, y, data_area }),
    }
}

/// The region that an entry shows for a grid.
pub open spec fn shown_region(kind: GridKind) -> i64 {
    match kind {
        GridKind::Region { region } => region,
        GridKind::Global => 0,
        GridKind::Local { x, y, data_area } => (-1) as i64,
    }
}

/// The entry of a grid request.
pub open spec fn entry_of(
    grid: GridRequest,
    now_us: i64,
    client: Option<String>,
    user_agent: Option<String>,
) -> ServiceLogEntry {
    ServiceLogEntry {
        now_us,
        minute_length: grid.minute_length,
        grid_baselength: grid.grid_base_length,
        minute_offset: grid.minute_offset,
        region: shown_region(grid.kind),
        count_threshold: grid.count_threshold,
        client,
        user_agent,
        local: match grid.kind {
            GridKind::Local { x, y, data_area } => Some(LocalGridLog { x, y, data_area }),
            _ => None,
        },
    }
}

/// The entry of a served grid request.
pub fn usage_entry(grid: &GridRequest, now_us: i64, client: Option<String>, user_agent: Option<String>) -> (r: ServiceLogEntry)
    ensures
        r == entry_of(*grid, now_us, client, user_agent),
        r == (ServiceLogEntry {
            now_us,
            minute_length: grid.minute_length,
            grid_baselength: grid.grid_base_length,
            minute_offset: grid.minute_offset,
            region: shown_region(grid.kind),
            count_threshold: grid.count_threshold,
            client,
            user_agent,
            local: (match grid.kind {
                GridKind::Local { x, y, data_area } => Some(LocalGridLog { x, y, data_area }),
                _ => None,
            }),
        }),
{
    match grid.kind {
        GridKind::Region { region } => region_entry(
            now_us,
            grid.minute_length,
            grid.grid_base_length,
            grid.minute_offset,
            region,
            grid.count_threshold,
            client,
            user_agent,
        ),
        GridKind::Global => global_entry(
            now_us,
            grid.minute_length,
            grid.grid_base_length,
            grid.minute_offset,
            grid.count_threshold,
            client,
            user_agent,
        ),
        GridKind::Local { x, y, data_area } => local_entry(
            now_us,
            grid.minute_length,
            grid.grid_base_length,
            grid.minute_offset,
            grid.count_threshold,
            client,
            user_agent,
            x,
            y,
            data_area,
        ),
    }
}

/// The characters of an optional text.
pub open spec fn opt_chars(o: Option<&str>) -> Option<Seq<char>> {
    match o {
        Some(s) => Some(s@),
        None => None,
    }
}

/// The version that a `bo-android-<n>` user agent names; `None` for any other.
pub fn user_agent_version(user_agent: Option<&str>) -> (r: Option<i64>)
    ensures
        r matches Some(v) ==> user_agent is Some && request::named_version(user_agent->0@) == Some(v as int),
        r is None ==> user_agent is None || request::named_version(user_agent->0@) is None,
{
    match user_agent {
        Some(agent) => request::parse_named_version(agent),
        None => None,
    }
}

/// The platform of a client: `A` for the Android client, `-` for any other.
pub open spec fn platform(user_agent: Option<Seq<char>>, has_version: bool) -> Seq<char> {
    if has_version || (user_agent matches Some(agent) && text::begins_with(agent, request::USER_AGENT_PREFIX@)) {
        "A"@
    } else {
        "-"@
    }
}

/// The platform marker of a client, given its user agent and its version.
pub fn client_platform(user_agent: Option<&str>, version: Option<i64>) -> (r: &'static str)
    ensures
        r@ == platform(opt_chars(user_agent), version is Some),
{
    if version.is_some() {
        return "A";
    }
    if let Some(agent) = user_agent {
        let chars = text::chars_of(agent);
        if text::has_prefix(chars.as_slice(), request::USER_AGENT_PREFIX) {
            return "A";
        }
    }
    "-"
}

/// The text of an optional value, or a placeholder.
pub open spec fn text_or(value: Option<Seq<char>>, placeholder: Seq<char>) -> Seq<char> {
    match value {
        Some(s) => s,
        None => placeholder,
    }
}

/// The number of an optional value, or a placeholder.
pub open spec fn number_or(value: Option<i64>, placeholder: Seq<char>) -> Seq<char> {
    match value {
        Some(n) => number::signed_decimal(n as int),
        None => placeholder,
    }
}

/// The fields of a row: the time, the region, the requested grid size, the
/// offset, the length and the threshold, then country, city, platform and
/// version of the client, then the extras of a local grid.
pub open spec fn row_fields(
    entry: ServiceLogEntry,
    version: Option<i64>,
    country: Option<Seq<char>>,
    city: Option<Seq<char>>,
) -> Seq<Seq<char>> {
    seq![
        number::signed_decimal(entry.now_us as int),
        number::signed_decimal(entry.region as int),
        number::signed_decimal(entry.grid_baselength as int),
        number::signed_decimal(entry.minute_offset as int),
        number::signed_decimal(entry.minute_length as int),
        number::signed_decimal(entry.count_threshold as int),
        text_or(country, "-"@),
        text_or(city, "-"@),
        platform(text::opt_text(entry.user_agent), version is Some),
        number_or(version, "None"@),
        match entry.local {
            Some(local) => number::signed_decimal(local.x as int),
            None => "-"@,
        },
        match entry.local {
            Some(local) => number::signed_decimal(local.y as int),
            None => "-"@,
        },
        match entry.local {
            Some(local) => number::signed_decimal(local.data_area as int),
            None => "-"@,
        },
    ]
}

fn text_field(value: Option<&str>) -> (r: String)
    ensures
        r@ == text_or(opt_chars(value), "-"@),
{
    match value {
        Some(s) => String::from_str(s),
        None => String::from_str("-"),
    }
}

/// Render one entry as the tab-separated row of 13 fields.
///
/// The client address is never written.
pub fn build_row(
    entry: &ServiceLogEntry,
    version: Option<i64>,
    country_code: Option<&str>,
    city: Option<&str>,
) -> (r: String)
    ensures
        r@ == text::join(
            row_fields(*entry, version, opt_chars(country_code), opt_chars(city)),
            seq!['\t'],
        ),
{
    let agent: Option<&str> = match &entry.user_agent {
        Some(s) => Some(s.as_str()),
        None => None,
    };
    let mut fields: Vec<String> = Vec::new();
    fields.push(number::signed_text(entry.now_us));
    fields.push(number::signed_text(entry.region));
    fields.push(number::signed_text(entry.grid_baselength));
    fields.push(number::signed_text(entry.minute_offset));
    fields.push(number::signed_text(entry.minute_length));
    fields.push(number::signed_text(entry.count_threshold));
    fields.push(text_field(country_code));
    fields.push(text_field(city));
    fields.push(String::from_str(client_platform(agent, version)));
    match version {
        Some(v) => {
            fields.push(number::signed_text(v));
        },
        None => {
            fields.push(String::from_str("None"));
        },
    }
    match &entry.local {
        Some(local) => {
            fields.push(number::signed_text(local.x));
            fields.push(number::signed_text(local.y));
            fields.push(number::signed_text(local.data_area));
        },
        None => {
            fields.push(String::from_str("-"));
            fields.push(String::from_str("-"));
            fields.push(String::from_str("-"));
        },
    }
    let mut out = String::new();
    let mut separator = String::new();
    separator.push('\t');
    text::push_joined(&mut out, fields.as_slice(), separator.as_str());
    proof {
        assert(separator@ =~= seq!['\t']);
        assert(text::texts(fields@) =~= row_fields(*entry, version, opt_chars(country_code), opt_chars(city)));
        assert(out@ =~= text::join(text::texts(fields@), seq!['\t']));
    }
    out
}

/// The tags of the access metric of an entry.
pub open spec fn access_tags(entry: ServiceLogEntry, version: Option<i64>, country: Option<Seq<char>>) -> Seq<char> {
    "access,version="@ + number_or(version, "-"@) + ",region="@ + number::signed_decimal(entry.region as int)
        + ",minutes="@ + number::signed_decimal(entry.minute_length as int) + ",offset="@
        + number::signed_decimal(entry.minute_offset as int) + ",grid="@
        + number::signed_decimal(entry.grid_baselength as int) + (match entry.local {
        Some(local) => if local.x != 0 && local.y != 0 && local.data_area != 0 {
            ",data_area="@ + number::signed_decimal(local.x as int) + "x"@
                + number::signed_decimal(local.y as int) + "-"@ + number::signed_decimal(local.data_area as int)
        } else {
            Seq::empty()
        },
        None => Seq::empty(),
    }) + (match country {
        Some(c) => if c.len() > 0 {
            ",country="@ + c
        } else {
            Seq::empty()
        },
        None => Seq::empty(),
    })
}

fn local_tag(local: &Option<LocalGridLog>) -> (r: String)
    ensures
        r@ == (match *local {
            Some(local) => if local.x != 0 && local.y != 0 && local.data_area != 0 {
                ",data_area="@ + number::signed_decimal(local.x as int) + "x"@
                    + number::signed_decimal(local.y as int) + "-"@ + number::signed_decimal(local.data_area as int)
            } else {
                Seq::empty()
            },
            None => Seq::empty(),
        }),
{
    let mut out = String::new();
    assert(out@ =~= Seq::<char>::empty());
    if let Some(local) = local {
        if local.x != 0 && local.y != 0 && local.data_area != 0 {
            out = String::from_str(",data_area=");
            number::push_signed(&mut out, local.x);
            out.append("x");
            number::push_signed(&mut out, local.y);
            out.append("-");
            number::push_signed(&mut out, local.data_area);
        }
    }
    out
}

fn country_tag(country: Option<&str>) -> (r: String)
    ensures
        r@ == (match opt_chars(country) {
            Some(c) => if c.len() > 0 {
                ",country="@ + c
            } else {
                Seq::empty()
            },
            None => Seq::empty(),
        }),
{
    let mut out = String::new();
    assert(out@ =~= Seq::<char>::empty());
    if let Some(c) = country {
        if !c.is_empty() {
            out = String::from_str(",country=");
            out.append(c);
        }
    }
    out
}

/// The name of the access metric of an entry, with its tags.  A local area with
/// a zero coordinate and an empty country are left out.
pub fn access_metric_key(entry: &ServiceLogEntry, version: Option<i64>, country_code: Option<&str>) -> (r: String)
    ensures
        r@ == access_tags(*entry, version, opt_chars(country_code)),
{
    let mut out = String::from_str("access,version=");
    match version {
        Some(v) => {
            number::push_signed(&mut out, v);
        },
        None => {
            out.append("-");
        },
    }
    out.append(",region=");
    number::push_signed(&mut out, entry.region);
    out.append(",minutes=");
    number::push_signed(&mut out, entry.minute_length);
    out.append(",offset=");
    number::push_signed(&mut out, entry.minute_offset);
    out.append(",grid=");
    number::push_signed(&mut out, entry.grid_baselength);
    out.append(local_tag(&entry.local).as_str());
    out.append(country_tag(country_code).as_str());
    out
}

/// A name that was found, `None` for an empty one.
pub fn known_name(name: Option<String>) -> (r: Option<String>)
    ensures
        text::opt_text(r) == (match text::opt_text(name) {
            Some(s) => if s.len() > 0 {
                Some(s)
            } else {
                None
            },
            None => None,
        }),
{
    match name {
        Some(s) => if s.as_str().is_empty() {
            None
        } else {
            Some(s)
        },
        None => None,
    }
}

// ---------------------------------------------------------------------
// daily files
// ---------------------------------------------------------------------

/// The start of the second of an instant; the epoch for an instant outside the
/// range of the calendar.
pub open spec fn day_instant(now_us: int) -> int {
    let start = (now_us / 1_000_000) * 1_000_000;
    if clock::representable(start) {
        start
    } else {
        0
    }
}

/// The UTC day of an instant, as `YYYY-MM-DD`.
pub open spec fn day_of(now_us: int) -> Seq<char> {
    match clock::utc_text(day_instant(now_us), "%Y-%m-%d"@) {
        Some(day) => day,
        None => Seq::empty(),
    }
}

/// The UTC day of an instant, as `YYYY-MM-DD`.
pub fn entry_day(now_us: i64) -> (r: String)
    ensures
        r@ == day_of(now_us as int),
        clock::utc_text(day_instant(now_us as int), "%Y-%m-%d"@) == Some(r@),
{
    let rest: i64 = now_us % 1_000_000;
    let down: i128 = if rest < 0 {
        now_us as i128 - rest as i128 - 1_000_000
    } else {
        now_us as i128 - rest as i128
    };
    assert(down == (now_us as int / 1_000_000) * 1_000_000);
    let start: i64 = if down >= i64::MIN as i128 && clock::is_representable(down as i64) {
        down as i64
    } else {
        0
    };
    match clock::format_utc(start, "%Y-%m-%d") {
        Some(day) => day,
        None => String::new(),
    }
}

/// What became of an entry that was put into the queue.
#[derive(Debug, Clone, Copy, PartialEq, Eq, Structural)]
pub enum QueueOutcome {
    Queued,
    /// The queue is full.
    Full,
    /// The consumer has stopped.
    Closed,
}

/// Counts the entries that found the queue full.
#[derive(Debug)]
pub struct UsageLogSender {
    pub dropped: u64,
}

/// The warning about a full queue.
pub open spec fn full_warning() -> Seq<char> {
    "usage log queue full; dropping entries (capacity "@ + number::decimal(QUEUE_CAPACITY as nat) + ")"@
}

impl UsageLogSender {
    /// A sender that has dropped nothing.
    pub fn new() -> (r: UsageLogSender)
        ensures
            r.dropped == 0,
    {
        UsageLogSender { dropped: 0 }
    }

    /// Take note of what became of an entry; yields the warning about a full
    /// queue for the first entry that is dropped.
    pub fn record(&mut self, outcome: QueueOutcome) -> (r: Option<String>)
        requires
            old(self).dropped < u64::MAX,
        ensures
            final(self).dropped == old(self).dropped + (if outcome == QueueOutcome::Full {
                1int
            } else {
                0
            }),
            text::opt_text(r) == (if outcome == QueueOutcome::Full && old(self).dropped == 0 {
                Some(full_warning())
            } else {
                None
            }),
    {
        match outcome {
            QueueOutcome::Queued => None,
            QueueOutcome::Closed => None,
            QueueOutcome::Full => {
                self.dropped = self.dropped + 1;
                if self.dropped != 1 {
                    return None;
                }
                let mut out = String::from_str("usage log queue full; dropping entries (capacity ");
                number::push_decimal(&mut out, QUEUE_CAPACITY as u64);
                out.append(")");
                Some(out)
            },
        }
    }

    /// Number of entries dropped so far.
    pub fn dropped(&self) -> (r: u64)
        ensures
            r == self.dropped,
    {
        self.dropped
    }
}

/// Decides which rows are appended to which daily file.
///
/// A write failure is reported once; further rows of that day are dropped.  A
/// new day is tried again.
#[derive(Debug)]
pub struct ServicelogWriter {
    /// The day of the open file.
    pub current_day: Option<String>,
    /// The day for which writing was given up.
    pub disabled_day: Option<String>,
    /// The error that made writing give up.
    pub failure: Option<String>,
    /// Rows that were dropped.
    pub dropped_rows: u64,
}

/// Outcome of one row.
#[derive(Debug, Clone, Copy, PartialEq, Eq, Structural)]
pub enum WriteOutcome {
    /// The row was written.
    Written,
    /// Writing failed, and is given up for the day.
    Failed,
    /// The row was dropped.
    Dropped,
}

/// What to do with a row.
#[derive(Debug, PartialEq, Eq)]
pub enum RowPlan {
    /// Drop it.
    Drop,
    /// Write it to the open file.
    Append { day: String },
    /// Flush the open file, open the named one, then write the row.
    Reopen { day: String, file: String },
}

/// What a [`ServicelogWriter`] holds.
pub struct WriterModel {
    pub current_day: Option<Seq<char>>,
    pub disabled_day: Option<Seq<char>>,
    pub failure: Option<Seq<char>>,
    pub dropped_rows: int,
}

impl View for ServicelogWriter {
    type V = WriterModel;

    open spec fn view(&self) -> WriterModel {
        WriterModel {
            current_day: text::opt_text(self.current_day),
            disabled_day: text::opt_text(self.disabled_day),
            failure: text::opt_text(self.failure),
            dropped_rows: self.dropped_rows as int,
        }
    }
}

/// What a [`RowPlan`] holds.
pub enum PlanModel {
    Drop,
    Append(Seq<char>),
    Reopen(Seq<char>, Seq<char>),
}

impl View for RowPlan {
    type V = PlanModel;

    open spec fn view(&self) -> PlanModel {
        match self {
            RowPlan::Drop => PlanModel::Drop,
            RowPlan::Append { day } => PlanModel::Append(day@),
            RowPlan::Reopen { day, file } => PlanModel::Reopen(day@, file@),
        }
    }
}

/// The state after a row of `day` arrived, and what to do with the row.
pub open spec fn row_arrives(state: WriterModel, day: Seq<char>) -> (WriterModel, PlanModel) {
    if state.disabled_day == Some(day) {
        (WriterModel { dropped_rows: state.dropped_rows + 1, ..state }, PlanModel::Drop)
    } else {
        let cleared = if state.disabled_day is Some {
            WriterModel { disabled_day: None, failure: None, ..state }
        } else {
            state
        };
        (
            cleared,
            if state.current_day == Some(day) {
                PlanModel::Append(day)
            } else {
                PlanModel::Reopen(day, "servicelog_"@ + day)
            },
        )
    }
}

/// The state after the file of `day` was opened.
pub open spec fn file_opened(state: WriterModel, day: Seq<char>) -> WriterModel {
    WriterModel { current_day: Some(day), ..state }
}

/// The state after a row of `day` could not be written.
pub open spec fn write_failed(state: WriterModel, day: Seq<char>, error: Seq<char>) -> WriterModel {
    WriterModel { disabled_day: Some(day), failure: Some(error), ..state }
}

impl ServicelogWriter {
    /// A writer without an open file.
    pub fn new() -> (r: ServicelogWriter)
        ensures
            r@ == (WriterModel { current_day: None, disabled_day: None, failure: None, dropped_rows: 0 }),
    {
        ServicelogWriter { current_day: None, disabled_day: None, failure: None, dropped_rows: 0 }
    }

    /// Whether writing is given up for `day`.
    pub fn is_disabled_for(&self, day: &str) -> (r: bool)
        ensures
            r == (self@.disabled_day == Some(day@)),
    {
        match &self.disabled_day {
            Some(d) => text::same_text(d.as_str(), day),
            None => false,
        }
    }

    /// The number of rows that were dropped.
    pub fn dropped_rows(&self) -> (r: u64)
        ensures
            r == self@.dropped_rows,
    {
        self.dropped_rows
    }

    /// Decide what to do with the row of an entry.
    pub fn plan(&mut self, entry: &ServiceLogEntry) -> (r: RowPlan)
        requires
            old(self)@.dropped_rows < u64::MAX,
        ensures
            (final(self)@, r@) == row_arrives(old(self)@, day_of(entry.now_us as int)),
    {
        let day = entry_day(entry.now_us);
        if self.is_disabled_for(day.as_str()) {
            self.dropped_rows = self.dropped_rows + 1;
            return RowPlan::Drop;
        }
        if self.disabled_day.is_some() {
            self.disabled_day = None;
            self.failure = None;
        }
        let open = match &self.current_day {
            Some(d) => text::same_text(d.as_str(), day.as_str()),
            None => false,
        };
        if open {
            RowPlan::Append { day }
        } else {
            let file = String::from_str("servicelog_").concat(day.as_str());
            RowPlan::Reopen { day, file }
        }
    }

    /// The file of `day` was opened.
    pub fn opened(&mut self, day: &str)
        ensures
            final(self)@ == file_opened(old(self)@, day@),
    {
        self.current_day = Some(String::from_str(day));
    }

    /// Take in how writing a row of `day` ended.
    pub fn finish(&mut self, day: &str, result: Result<(), String>) -> (r: WriteOutcome)
        ensures
            match result {
                Ok(_) => r == WriteOutcome::Written && final(self)@ == old(self)@,
                Err(e) => r == WriteOutcome::Failed && final(self)@ == write_failed(old(self)@, day@, e@),
            },
    {
        match result {
            Ok(_) => WriteOutcome::Written,
            Err(error) => {
                self.failure = Some(error);
                self.disabled_day = Some(String::from_str(day));
                WriteOutcome::Failed
            },
        }
    }
}

// ---------------------------------------------------------------------
// laws
// ---------------------------------------------------------------------

proof fn lemma_no_tab_in_number(v: int)
    ensures
        !number::signed_decimal(v).contains('\t'),
{
    let s = number::signed_decimal(v);
    assert forall|i: int| 0 <= i < s.len() implies s[i] != '\t' by {
        number::lemma_signed_chars(v, i);
    }
}

/// How many of the first `n` outcomes find the queue full.
pub open spec fn full_count(outcomes: Seq<QueueOutcome>, n: int) -> int
    decreases n,
{
    if n <= 0 {
        0
    } else {
        full_count(outcomes, n - 1) + (if outcomes[n - 1] == QueueOutcome::Full {
            1int
        } else {
            0
        })
    }
}

/// How many warnings the first `n` outcomes yield, from a sender that has
/// dropped nothing.
pub open spec fn warning_count(outcomes: Seq<QueueOutcome>, n: int) -> int
    decreases n,
{
    if n <= 0 {
        0
    } else {
        warning_count(outcomes, n - 1) + (if outcomes[n - 1] == QueueOutcome::Full && full_count(outcomes, n - 1) == 0 {
            1int
        } else {
            0
        })
    }
}

/// However many entries find the queue full, one warning is given for them.
pub proof fn one_warning_for_all_dropped_entries(outcomes: Seq<QueueOutcome>, n: int)
    requires
        0 <= n <= outcomes.len(),
    ensures
        full_count(outcomes, n) >= 0,
        warning_count(outcomes, n) == (if full_count(outcomes, n) > 0 {
            1int
        } else {
            0
        }),
    decreases n,
{
    if n > 0 {
        one_warning_for_all_dropped_entries(outcomes, n - 1);
    }
}

/// A row splits into its thirteen fields at the tabs, as long as the country
/// and the city hold no tab themselves.
pub proof fn a_row_has_thirteen_fields(
    entry: ServiceLogEntry,
    version: Option<i64>,
    country: Option<Seq<char>>,
    city: Option<Seq<char>>,
)
    requires
        country matches Some(c) ==> !c.contains('\t'),
        city matches Some(c) ==> !c.contains('\t'),
    ensures
        text::pieces(text::join(row_fields(entry, version, country, city), seq!['\t']), '\t') == row_fields(
            entry,
            version,
            country,
            city,
        ),
        row_fields(entry, version, country, city).len() == 13,
{
    reveal_strlit("-");
    reveal_strlit("A");
    reveal_strlit("None");
    let fields = row_fields(entry, version, country, city);
    lemma_no_tab_in_number(entry.now_us as int);
    lemma_no_tab_in_number(entry.region as int);
    lemma_no_tab_in_number(entry.grid_baselength as int);
    lemma_no_tab_in_number(entry.minute_offset as int);
    lemma_no_tab_in_number(entry.minute_length as int);
    lemma_no_tab_in_number(entry.count_threshold as int);
    if let Some(v) = version {
        lemma_no_tab_in_number(v as int);
    }
    if let Some(local) = entry.local {
        lemma_no_tab_in_number(local.x as int);
        lemma_no_tab_in_number(local.y as int);
        lemma_no_tab_in_number(local.data_area as int);
    }
    assert(!"-"@.contains('\t'));
    assert(!"A"@.contains('\t'));
    assert(!"None"@.contains('\t'));
    text::lemma_pieces_of_join(fields, '\t', 13);
    assert(fields.take(13) =~= fields);
}

/// The address of the client has no part in its row.
pub proof fn a_row_does_not_show_the_client(
    entry: ServiceLogEntry,
    other: Option<String>,
    version: Option<i64>,
    country: Option<Seq<char>>,
    city: Option<Seq<char>>,
)
    ensures
        row_fields(entry, version, country, city) == row_fields(
            ServiceLogEntry { client: other, ..entry },
            version,
            country,
            city,
        ),
{
}

/// The state after `n` rows of `day` arrived.
pub open spec fn rows_arrive(state: WriterModel, day: Seq<char>, n: nat) -> WriterModel
    decreases n,
{
    if n == 0 {
        state
    } else {
        row_arrives(rows_arrive(state, day, (n - 1) as nat), day).0
    }
}

/// After a write failure every further row of that day is dropped and counted,
/// and the failure stays on record.
pub proof fn rows_are_dropped_after_a_failure(state: WriterModel, day: Seq<char>, error: Seq<char>, n: nat)
    ensures
        ({
            let failed = write_failed(state, day, error);
            let later = rows_arrive(failed, day, n);
            &&& later == (WriterModel { dropped_rows: state.dropped_rows + n, ..failed })
            &&& row_arrives(later, day).1 == PlanModel::Drop
        }),
    decreases n,
{
    if n > 0 {
        rows_are_dropped_after_a_failure(state, day, error, (n - 1) as nat);
    }
}

/// A new day is tried again after a failure, with the failure forgotten.
pub proof fn a_new_day_is_tried_again(state: WriterModel, day: Seq<char>, error: Seq<char>, next: Seq<char>)
    requires
        next != day,
    ensures
        ({
            let (after, plan) = row_arrives(write_failed(state, day, error), next);
            &&& plan != PlanModel::Drop
            &&& after.disabled_day is None
            &&& after.failure is None
            &&& after.dropped_rows == state.dropped_rows
        }),
{
}

/// The row of a grid request reads back: the time, the region (0 for the
/// world, -1 for a local grid), the grid size, the offset, the length and the
/// threshold of the request, then where the client is, its platform and its
/// version, then the tile of a local grid.
pub proof fn rows_show_the_request(
    grid: GridRequest,
    now_us: i64,
    client: Option<String>,
    user_agent: Option<String>,
    version: Option<i64>,
    country: Option<Seq<char>>,
    city: Option<Seq<char>>,
)
    ensures
        ({
            let fields = row_fields(entry_of(grid, now_us, client, user_agent), version, country, city);
            &&& fields.len() == 13
            &&& number::signed_value(fields[0]) == Some(now_us as int)
            &&& number::signed_value(fields[1]) == Some(
                match grid.kind {
                    GridKind::Region { region } => region as int,
                    GridKind::Global => 0int,
                    GridKind::Local { .. } => -1int,
                },
            )
            &&& number::signed_value(fields[2]) == Some(grid.grid_base_length as int)
            &&& number::signed_value(fields[3]) == Some(grid.minute_offset as int)
            &&& number::signed_value(fields[4]) == Some(grid.minute_length as int)
            &&& number::signed_value(fields[5]) == Some(grid.count_threshold as int)
            &&& country matches Some(c) ==> fields[6] == c
            &&& country is None ==> fields[6] == seq!['-']
            &&& city matches Some(c) ==> fields[7] == c
            &&& city is None ==> fields[7] == seq!['-']
            &&& version matches Some(v) ==> fields[8] == seq!['A'] && number::signed_value(fields[9]) == Some(v as int)
            &&& version is None ==> fields[9] == "None"@
            &&& match grid.kind {
                GridKind::Local { x, y, data_area } => {
                    &&& number::signed_value(fields[10]) == Some(x as int)
                    &&& number::signed_value(fields[11]) == Some(y as int)
                    &&& number::signed_value(fields[12]) == Some(data_area as int)
                },
                _ => fields[10] == seq!['-'] && fields[11] == seq!['-'] && fields[12] == seq!['-'],
            }
        }),
{
    reveal_strlit("-");
    reveal_strlit("A");
    assert("-"@ =~= seq!['-']);
    assert("A"@ =~= seq!['A']);
    let entry = entry_of(grid, now_us, client, user_agent);
    number::signed_numbers_read_back(now_us as int);
    number::signed_numbers_read_back(entry.region as int);
    number::signed_numbers_read_back(grid.grid_base_length as int);
    number::signed_numbers_read_back(grid.minute_offset as int);
    number::signed_numbers_read_back(grid.minute_length as int);
    number::signed_numbers_read_back(grid.count_threshold as int);
    if let Some(v) = version {
        number::signed_numbers_read_back(v as int);
    }
    if let GridKind::Local { x, y, data_area } = grid.kind {
        number::signed_numbers_read_back(x as int);
        number::signed_numbers_read_back(y as int);
        number::signed_numbers_read_back(data_area as int);
    }
}

/// A client without a version is an Android client where its user agent starts
/// with the name of one, and has no platform else.
pub proof fn platforms_follow_the_user_agent(agent: Seq<char>, rest: Seq<char>)
    ensures
        platform(Some("bo-android-"@ + rest), false) == seq!['A'],
        !text::begins_with(agent, "bo-android-"@) ==> platform(Some(agent), false) == seq!['-'],
        platform(None, false) == seq!['-'],
        platform(None, true) == seq!['A'],
        platform(Some(agent), true) == seq!['A'],
{
    reveal_strlit("-");
    reveal_strlit("A");
    assert("-"@ =~= seq!['-']);
    assert("A"@ =~= seq!['A']);
    let all = "bo-android-"@ + rest;
    assert(all.subrange(0, "bo-android-"@.len() as int) =~= "bo-android-"@);
}

/// The tags that an access has whatever it asks for.
pub open spec fn own_tags(entry: ServiceLogEntry, version: Option<i64>) -> Seq<Seq<char>> {
    seq![
        "access"@,
        "version="@ + number_or(version, "-"@),
        "region="@ + number::signed_decimal(entry.region as int),
        "minutes="@ + number::signed_decimal(entry.minute_length as int),
        "offset="@ + number::signed_decimal(entry.minute_offset as int),
        "grid="@ + number::signed_decimal(entry.grid_baselength as int),
    ]
}

/// The tag of the tile of a local grid, where no part of it is zero.
pub open spec fn tile_tags(local: Option<LocalGridLog>) -> Seq<Seq<char>> {
    match local {
        Some(tile) => if tile.x != 0 && tile.y != 0 && tile.data_area != 0 {
            seq![
                "data_area="@ + number::signed_decimal(tile.x as int) + seq!['x'] + number::signed_decimal(
                    tile.y as int,
                ) + seq!['-'] + number::signed_decimal(tile.data_area as int),
            ]
        } else {
            Seq::empty()
        },
        None => Seq::empty(),
    }
}

/// The tag of the country of a client, where it has a name.
pub open spec fn country_tags(country: Option<Seq<char>>) -> Seq<Seq<char>> {
    match country {
        Some(c) => if c.len() > 0 {
            seq!["country="@ + c]
        } else {
            Seq::empty()
        },
        None => Seq::empty(),
    }
}

/// The tags of an access stand in the order version, region, minutes, offset,
/// grid, data area and country, with a comma between any two; the last two
/// only where they are there.
pub proof fn accesses_are_tagged(entry: ServiceLogEntry, version: Option<i64>, country: Option<Seq<char>>)
    ensures
        access_tags(entry, version, country) == text::join(
            own_tags(entry, version) + tile_tags(entry.local) + country_tags(country),
            seq![','],
        ),
{
    reveal_strlit("-");
    reveal_strlit("x");
    assert("-"@ =~= seq!['-']);
    assert("x"@ =~= seq!['x']);
    lemma_tag_names();
    let comma = seq![','];
    let v = number_or(version, "-"@);
    let region = number::signed_decimal(entry.region as int);
    let minutes = number::signed_decimal(entry.minute_length as int);
    let offset = number::signed_decimal(entry.minute_offset as int);
    let grid = number::signed_decimal(entry.grid_baselength as int);
    let i0 = seq!["access"@];
    let i1 = i0.push("version="@ + v);
    let i2 = i1.push("region="@ + region);
    let i3 = i2.push("minutes="@ + minutes);
    let i4 = i3.push("offset="@ + offset);
    let i5 = i4.push("grid="@ + grid);
    let own = own_tags(entry, version);
    assert(i5 =~= own);
    text::lemma_join_push(i0, "version="@ + v, comma);
    text::lemma_join_push(i1, "region="@ + region, comma);
    text::lemma_join_push(i2, "minutes="@ + minutes, comma);
    text::lemma_join_push(i3, "offset="@ + offset, comma);
    text::lemma_join_push(i4, "grid="@ + grid, comma);
    let t1 = "access"@ + comma + ("version="@ + v);
    lemma_tag("access"@, "version="@, v);
    let t2 = t1 + comma + ("region="@ + region);
    lemma_tag(t1, "region="@, region);
    let t3 = t2 + comma + ("minutes="@ + minutes);
    lemma_tag(t2, "minutes="@, minutes);
    let t4 = t3 + comma + ("offset="@ + offset);
    lemma_tag(t3, "offset="@, offset);
    let t5 = t4 + comma + ("grid="@ + grid);
    lemma_tag(t4, "grid="@, grid);
    assert(text::join(i0, comma) == "access"@);
    assert(text::join(own, comma) == t5);
    let none = Seq::<char>::empty();
    let area_part = match entry.local {
        Some(local) => if local.x != 0 && local.y != 0 && local.data_area != 0 {
            ",data_area="@ + number::signed_decimal(local.x as int) + "x"@ + number::signed_decimal(local.y as int)
                + "-"@ + number::signed_decimal(local.data_area as int)
        } else {
            none
        },
        None => none,
    };
    let with_area = own + tile_tags(entry.local);
    assert(text::join(with_area, comma) == t5 + area_part) by {
        match entry.local {
            Some(local) => {
                if local.x != 0 && local.y != 0 && local.data_area != 0 {
                    let x = number::signed_decimal(local.x as int);
                    let y = number::signed_decimal(local.y as int);
                    let d = number::signed_decimal(local.data_area as int);
                    let item = "data_area="@ + x + seq!['x'] + y + seq!['-'] + d;
                    text::lemma_join_push(own, item, comma);
                    assert(with_area =~= own.push(item));
                    lemma_area_tag(t5, comma, "data_area="@, x, seq!['x'], y, seq!['-'], d);
                } else {
                    assert(t5 + none =~= t5);
                    assert(with_area =~= own);
                }
            },
            None => {
                assert(t5 + none =~= t5);
                assert(with_area =~= own);
            },
        }
    }
    let t6 = t5 + area_part;
    assert(t5 == "access,version="@ + v + ",region="@ + region + ",minutes="@ + minutes + ",offset="@ + offset
        + ",grid="@ + grid);
    let country_part = match country {
        Some(c) => if c.len() > 0 {
            ",country="@ + c
        } else {
            none
        },
        None => none,
    };
    assert(access_tags(entry, version, country) == t6 + country_part);
    let all = with_area + country_tags(country);
    match country {
        Some(c) => {
            if c.len() > 0 {
                assert(with_area.len() > 0);
                text::lemma_join_push(with_area, "country="@ + c, comma);
                assert(all =~= with_area.push("country="@ + c));
                assert(t6 + comma + ("country="@ + c) =~= t6 + (comma + "country="@ + c));
            } else {
                assert(t6 + none =~= t6);
                assert(all =~= with_area);
            }
        },
        None => {
            assert(t6 + none =~= t6);
            assert(all =~= with_area);
        },
    }
}

proof fn lemma_tag_names()
    ensures
        "access,version="@ == "access"@ + (seq![','] + "version="@),
        ",region="@ == seq![','] + "region="@,
        ",minutes="@ == seq![','] + "minutes="@,
        ",offset="@ == seq![','] + "offset="@,
        ",grid="@ == seq![','] + "grid="@,
        ",data_area="@ == seq![','] + "data_area="@,
        ",country="@ == seq![','] + "country="@,
{
    assert("access,version="@ =~= "access"@ + (seq![','] + "version="@)) by {
        reveal_strlit("access,version=");
        reveal_strlit("access");
        reveal_strlit("version=");
    }
    assert(",region="@ =~= seq![','] + "region="@) by {
        reveal_strlit(",region=");
        reveal_strlit("region=");
    }
    assert(",minutes="@ =~= seq![','] + "minutes="@) by {
        reveal_strlit(",minutes=");
        reveal_strlit("minutes=");
    }
    assert(",offset="@ =~= seq![','] + "offset="@) by {
        reveal_strlit(",offset=");
        reveal_strlit("offset=");
    }
    assert(",grid="@ =~= seq![','] + "grid="@) by {
        reveal_strlit(",grid=");
        reveal_strlit("grid=");
    }
    assert(",data_area="@ =~= seq![','] + "data_area="@) by {
        reveal_strlit(",data_area=");
        reveal_strlit("data_area=");
    }
    assert(",country="@ =~= seq![','] + "country="@) by {
        reveal_strlit(",country=");
        reveal_strlit("country=");
    }
}

proof fn lemma_tag(before: Seq<char>, name: Seq<char>, value: Seq<char>)
    ensures
        before + seq![','] + (name + value) == before + (seq![','] + name) + value,
{
    assert(before + seq![','] + (name + value) =~= before + (seq![','] + name) + value);
}

proof fn lemma_area_tag(
    before: Seq<char>,
    comma: Seq<char>,
    name: Seq<char>,
    x: Seq<char>,
    by: Seq<char>,
    y: Seq<char>,
    of: Seq<char>,
    d: Seq<char>,
)
    ensures
        before + comma + (name + x + by + y + of + d) == before + (comma + name + x + by + y + of + d),
{
    assert(before + comma + (name + x + by + y + of + d) =~= before + (comma + name + x + by + y + of + d));
}

/// The daily file of an instant is found by the start of its second, which no
/// instant of that second misses.
pub proof fn days_are_found_by_the_second(now_us: int)
    ensures
        ({
            let start = day_instant(now_us);
            clock::representable(start) && (start != 0 ==> start <= now_us < start + 1_000_000 && start % 1_000_000 == 0)
        }),
{
}

/// A row of the day whose file is open is appended to it; a row of another day
/// goes to the file that is named after that day.
pub proof fn rows_go_to_the_file_of_their_day(state: WriterModel, day: Seq<char>)
    requires
        state.disabled_day != Some(day),
    ensures
        row_arrives(file_opened(state, day), day).1 == PlanModel::Append(day),
        state.current_day != Some(day) ==> row_arrives(state, day).1 == PlanModel::Reopen(day, "servicelog_"@ + day),
        row_arrives(state, day).0.dropped_rows == state.dropped_rows,
        row_arrives(state, day).0.current_day == state.current_day,
{
}

} // verus!
