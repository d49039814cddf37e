//! Options of the tool that prints strikes and grids.

use vstd::prelude::*;
use vstd::string::*;

use crate::area;
use crate::area::Area;
use crate::cli;
use crate::cli::Exit;
use crate::clock;
use crate::data;
use crate::data::{ArcFigures, GridData, Strike, StrikeFigures};
use crate::geom::Grid;
use crate::ieee::Real;
use crate::text;
use crate::wkb::Point;

verus! {

/// Bits of the default grid width, `1`.
pub const DEFAULT_GRID_BITS: u64 = 0x3ff0_0000_0000_0000;

/// Options of the tool.
#[derive(Debug)]
pub struct DbOptions {
    pub startdate: String,
    pub starttime: String,
    pub enddate: String,
    pub endtime: String,
    pub area: Option<String>,
    pub tz: String,
    pub useenv: bool,
    pub srid: i64,
    pub precision: i32,
    pub grid: Option<Real>,
    pub xgrid: Option<Real>,
    pub ygrid: Option<Real>,
    pub map: bool,
}

impl DbOptions {
    /// The options without any argument.
    pub fn defaults() -> (r: DbOptions)
        ensures
            r.startdate@ == "default"@,
            r.starttime@ == "default"@,
            r.enddate@ == "default"@,
            r.endtime@ == "default"@,
            r.area is None,
            r.tz@ == "UTC"@,
            !r.useenv,
            r.srid == 4326,
            r.precision == 4,
            r.grid is None,
            r.xgrid is None,
            r.ygrid is None,
            !r.map,
    {
        DbOptions {
            startdate: String::from_str("default"),
            starttime: String::from_str("default"),
            enddate: String::from_str("default"),
            endtime: String::from_str("default"),
            area: None,
            tz: String::from_str("UTC"),
            useenv: false,
            srid: 4326,
            precision: 4,
            grid: None,
            xgrid: None,
            ygrid: None,
            map: false,
        }
    }
}

/// The width of the cells along one axis: the option of the axis, else the
/// common option, else the default.
pub open spec fn cell_width(axis: Option<Real>, common: Option<Real>) -> Real {
    match axis {
        Some(w) => w,
        None => match common {
            Some(w) => w,
            None => Real { bits: DEFAULT_GRID_BITS },
        },
    }
}

fn choose_width(axis: Option<Real>, common: Option<Real>) -> (r: Real)
    ensures
        r == cell_width(axis, common),
{
    match axis {
        Some(w) => w,
        None => match common {
            Some(w) => w,
            None => Real::from_bits(DEFAULT_GRID_BITS),
        },
    }
}

/// Whether a grid option is set.
pub open spec fn wants_grid(options: DbOptions) -> bool {
    options.grid is Some || options.xgrid is Some || options.ygrid is Some
}

/// The grid that the options ask for over an area.
pub open spec fn grid_over(options: DbOptions, area: Area) -> Grid {
    Grid {
        x_min: area.bounds.0,
        x_max: area.bounds.2,
        y_min: area.bounds.1,
        y_max: area.bounds.3,
        x_div: cell_width(options.xgrid, options.grid),
        y_div: cell_width(options.ygrid, options.grid),
    }
}

/// The grid over an area when a grid option is set; the area is required then.
pub fn prepare_grid_if_applicable(options: &DbOptions, area: Option<&Area>) -> (r: Result<Option<Grid>, Exit>)
    ensures
        !wants_grid(*options) ==> r == Ok::<Option<Grid>, Exit>(None),
        wants_grid(*options) ==> (area matches Some(a) ==> r == Ok::<Option<Grid>, Exit>(
            Some(grid_over(*options, *a)),
        )),
        wants_grid(*options) ==> (match area {
            Some(a) => r == Ok::<Option<Grid>, Exit>(
                Some(
                    Grid {
                        x_min: a.bounds.0,
                        x_max: a.bounds.2,
                        y_min: a.bounds.1,
                        y_max: a.bounds.3,
                        x_div: cell_width(options.xgrid, options.grid),
                        y_div: cell_width(options.ygrid, options.grid),
                    },
                ),
            ),
            None => r matches Err(e) && e.says("grid options requires declaration of envelope area"@, 1),
        }),
{
    if options.grid.is_none() && options.xgrid.is_none() && options.ygrid.is_none() {
        return Ok(None);
    }
    match area {
        Some(a) => Ok(
            Some(
                Grid::new(
                    a.bounds.0,
                    a.bounds.2,
                    a.bounds.1,
                    a.bounds.3,
                    choose_width(options.xgrid, options.grid),
                    choose_width(options.ygrid, options.grid),
                ),
            ),
        ),
        None => Err(
            Exit { message: String::from_str("grid options requires declaration of envelope area"), code: 1 },
        ),
    }
}

// ---------------------------------------------------------------------
// the time interval
// ---------------------------------------------------------------------

/// Microseconds of an hour.
pub const HOUR: i64 = 3_600_000_000;

/// Microseconds of a minute.
pub const MINUTE: i64 = 60_000_000;

/// The value of an option: its text, or the instant under a format for
/// `default`.
pub open spec fn option_text(value: Seq<char>, instant: int, zone: Seq<char>, format: Seq<char>) -> Seq<char> {
    if value == "default"@ {
        match clock::zone_text(instant, zone, format) {
            Some(s) => s,
            None => Seq::empty(),
        }
    } else {
        value
    }
}

/// Whether the end is left to its default.
pub open spec fn default_end(options: DbOptions) -> bool {
    options.enddate@ == "default"@ && options.endtime@ == "default"@
}

/// The interval that the options mean at the instant `now`, in the given zone:
/// the last hour up to a minute ago, unless the options say otherwise.  An
/// option that cannot be read is reported with the message of the exit.
pub open spec fn interval_in(options: DbOptions, now: int, zone: Seq<char>) -> Result<(int, int), Seq<char>> {
    let first = now - HOUR;
    let last = now - MINUTE;
    let startdate = option_text(options.startdate@, first, zone, cli::DATE_FORMAT@);
    let starttime = option_text(options.starttime@, first, zone, cli::TIME_FORMAT@);
    let enddate = option_text(options.enddate@, last, zone, cli::DATE_FORMAT@);
    let endtime = option_text(options.endtime@, last, zone, cli::TIME_FORMAT@);
    match cli::local_time(startdate, starttime, zone, false) {
        None => Err("parse error in starttime: '"@ + startdate + " "@ + starttime + "'"@),
        Some(start) => if default_end(options) {
            Ok((start, last))
        } else {
            match cli::local_time(enddate, endtime, zone, true) {
                None => Err("parse error in endtime: '"@ + enddate + " "@ + endtime + "'"@),
                Some(end) => Ok((start, end)),
            }
        },
    }
}

fn option_value(value: &str, instant: i64, zone: &str, format: &str) -> (r: String)
    requires
        clock::representable(instant as int),
    ensures
        r@ == option_text(value@, instant as int, zone@, format@),
{
    if text::same_text(value, "default") {
        match clock::format_in_zone(instant, zone, format) {
            Some(s) => s,
            None => {
                let empty = String::new();
                assert(empty@ =~= Seq::<char>::empty());
                empty
            },
        }
    } else {
        String::from_str(value)
    }
}

fn time_error(prefix: &str, date: &str, time: &str) -> (r: Exit)
    ensures
        r.says(prefix@ + date@ + " "@ + time@ + "'"@, 5),
{
    Exit { message: String::from_str(prefix).concat(date).concat(" ").concat(time).concat("'"), code: 5 }
}

/// Resolve the time interval of the options at the instant `now`.
pub fn resolve_interval(options: &DbOptions, now: i64) -> (r: Result<(i64, i64), Exit>)
    requires
        clock::representable(now - HOUR),
        clock::representable(now as int),
    ensures
        match cli::zone_named(options.tz@) {
            None => r matches Err(e) && e.says("parse error in timezone \""@ + options.tz@ + "\""@, 1),
            Some(zone) => match interval_in(*options, now as int, zone) {
                Ok(interval) => r matches Ok(p) && (p.0 as int, p.1 as int) == interval,
                Err(message) => r matches Err(e) && e.says(message, 5),
            },
        },
{
    let zone = match cli::parse_timezone(options.tz.as_str()) {
        Some(zone) => zone,
        None => {
            return Err(cli::exit_quoting("parse error in timezone \"", options.tz.as_str(), "\"", 1));
        },
    };
    let zone = zone.as_str();
    let first: i64 = now - HOUR;
    let last: i64 = now - MINUTE;
    let startdate = option_value(options.startdate.as_str(), first, zone, cli::DATE_FORMAT);
    let starttime = option_value(options.starttime.as_str(), first, zone, cli::TIME_FORMAT);
    let start: i64 = match cli::parse_local_time(startdate.as_str(), starttime.as_str(), zone, false) {
        Some(t) => t,
        None => {
            return Err(time_error("parse error in starttime: '", startdate.as_str(), starttime.as_str()));
        },
    };
    if text::same_text(options.enddate.as_str(), "default") && text::same_text(
        options.endtime.as_str(),
        "default",
    ) {
        return Ok((start, last));
    }
    let enddate = option_value(options.enddate.as_str(), last, zone, cli::DATE_FORMAT);
    let endtime = option_value(options.endtime.as_str(), last, zone, cli::TIME_FORMAT);
    match cli::parse_local_time(enddate.as_str(), endtime.as_str(), zone, true) {
        Some(end) => Ok((start, end)),
        None => Err(time_error("parse error in endtime: '", enddate.as_str(), endtime.as_str())),
    }
}

// ---------------------------------------------------------------------
// the area
// ---------------------------------------------------------------------

/// The closed ring around the bounds of an area.
pub open spec fn bounds_ring(a: Area) -> Seq<Point> {
    seq![
        (a.bounds.0, a.bounds.1),
        (a.bounds.0, a.bounds.3),
        (a.bounds.2, a.bounds.3),
        (a.bounds.2, a.bounds.1),
        (a.bounds.0, a.bounds.1),
    ]
}

/// The envelope of an area, as an area.
fn envelope_area(a: &Area) -> (r: Option<Area>)
    ensures
        r matches Some(e) && area::describes(e, seq![bounds_ring(*a)]),
{
    let mut ring: Vec<Point> = Vec::new();
    ring.push((a.bounds.0, a.bounds.1));
    ring.push((a.bounds.0, a.bounds.3));
    ring.push((a.bounds.2, a.bounds.3));
    ring.push((a.bounds.2, a.bounds.1));
    ring.push((a.bounds.0, a.bounds.1));
    assert(ring@ =~= bounds_ring(*a));
    let mut rings: Vec<Vec<Point>> = Vec::new();
    rings.push(ring);
    assert(crate::wkb::ring_views(rings@) =~= seq![bounds_ring(*a)]);
    Area::from_polygon(rings.as_slice())
}

/// The area of the options, given the area that their text writes: none
/// without the option, and its envelope when that is asked for.
pub fn resolve_area(options: &DbOptions, parsed: Option<Area>) -> (r: Result<Option<Area>, Exit>)
    ensures
        match text::opt_text(options.area) {
            None => r matches Ok(None),
            Some(area_text) => match parsed {
                None => r matches Err(e) && e.says("parse error in area \""@ + area_text + "\""@, 1),
                Some(a) => if options.useenv {
                    r matches Ok(Some(e)) && area::describes(e, seq![bounds_ring(a)])
                } else {
                    r == Ok::<Option<Area>, Exit>(Some(a))
                },
            },
        },
{
    let area_text = match &options.area {
        Some(s) => s,
        None => {
            return Ok(None);
        },
    };
    match parsed {
        None => Err(cli::exit_quoting("parse error in area \"", area_text.as_str(), "\"", 1)),
        Some(a) => if options.useenv {
            Ok(envelope_area(&a))
        } else {
            Ok(Some(a))
        },
    }
}

/// The line of a strike in a time zone.
pub open spec fn zone_line(strike: Strike, zone: Seq<char>, figures: StrikeFigures) -> Seq<char> {
    match strike.timestamp.datetime {
        Some(m) => data::strike_line(
            strike,
            data::event_text(
                clock::zone_text(m as int, zone, data::TIMESTAMP_FORMAT@)->0,
                m as int,
                strike.timestamp.nanosecond as int,
            ),
            figures,
        ),
        None => data::strike_line(strike, "NaT"@, figures),
    }
}

/// The lines of strikes in a time zone.
pub open spec fn zone_lines(strikes: Seq<Strike>, zone: Seq<char>, figures: Seq<StrikeFigures>) -> Seq<Seq<char>> {
    Seq::new(strikes.len(), |i: int| zone_line(strikes[i], zone, figures[i]))
}

/// Render strikes, one on each line; `None` when no zone has that name.
pub fn render_strikes(strikes: &[Strike], zone: &str, figures: &[StrikeFigures]) -> (r: Option<String>)
    requires
        strikes@.len() == figures@.len(),
        forall|i: int| 0 <= i < strikes@.len() ==> (#[trigger] strikes@[i]).timestamp.wf(),
    ensures
        if clock::zone_known(zone@) {
            r matches Some(s) && s@ == text::join(zone_lines(strikes@, zone@, figures@), "\n"@)
        } else {
            r is None
        },
{
    if !clock::is_zone(zone) {
        return None;
    }
    let mut lines: Vec<String> = Vec::new();
    let mut i: usize = 0;
    while i < strikes.len()
        invariant
            i <= strikes@.len(),
            i == lines@.len(),
            strikes@.len() == figures@.len(),
            clock::zone_known(zone@),
            forall|k: int| 0 <= k < strikes@.len() ==> (#[trigger] strikes@[k]).timestamp.wf(),
            forall|k: int| 0 <= k < i ==> (#[trigger] lines@[k])@ == zone_line(strikes@[k], zone@, figures@[k]),
        decreases strikes@.len() - i,
    {
        match strikes[i].to_string_in_tz(zone, &figures[i]) {
            Some(line) => lines.push(line),
            None => {
                return None;
            },
        }
        i = i + 1;
    }
    assert(text::texts(lines@) =~= zone_lines(strikes@, zone@, figures@));
    let mut out = String::new();
    text::push_joined(&mut out, lines.as_slice(), "\n");
    assert(out@ =~= text::join(zone_lines(strikes@, zone@, figures@), "\n"@));
    Some(out)
}

/// Render a grid: as a map, or in the grid format.
pub fn render_grid(options: &DbOptions, grid: &GridData, figures: &ArcFigures) -> (r: String)
    requires
        data::total_fits(grid.cells()),
    ensures
        r@ == (if options.map {
            grid.map_text()
        } else {
            grid.arcgrid_text(*figures)
        }),
{
    if options.map {
        grid.to_map()
    } else {
        grid.to_arcgrid(figures)
    }
}

/// How many of the first `n` lines are not empty.
pub open spec fn filled(lines: Seq<Seq<char>>, n: int) -> int
    decreases n,
{
    if n <= 0 {
        0
    } else {
        filled(lines, n - 1) + (if lines[n - 1].len() > 0 {
            1int
        } else {
            0
        })
    }
}

/// The number of strikes that an output shows: its lines that are not empty.
pub fn shown_count(output: &str) -> (r: usize)
    ensures
        r == filled(text::lines(output@), text::lines(output@).len() as int),
{
    let chars = text::chars_of(output);
    let lines = text::lines_of(chars.as_slice());
    let mut count: usize = 0;
    let mut i: usize = 0;
    while i < lines.len()
        invariant
            i <= lines@.len(),
            count <= i,
            text::views(lines@) == text::lines(output@),
            count == filled(text::lines(output@), i as int),
        decreases lines@.len() - i,
    {
        assert(text::views(lines@)[i as int] == lines@[i as int]@);
        if lines[i].len() > 0 {
            count = count + 1;
        }
        i = i + 1;
    }
    assert(text::views(lines@).len() == lines@.len());
    count
}

/// The start of the interval depends on the start options alone, and its end on
/// the end options alone.
pub proof fn each_bound_depends_on_its_own_options(a: DbOptions, b: DbOptions, now: int, zone: Seq<char>)
    requires
        interval_in(a, now, zone) is Ok,
        interval_in(b, now, zone) is Ok,
    ensures
        ({
            let (a_start, a_end) = interval_in(a, now, zone)->Ok_0;
            let (b_start, b_end) = interval_in(b, now, zone)->Ok_0;
            &&& a.startdate@ == b.startdate@ && a.starttime@ == b.starttime@ ==> a_start == b_start
            &&& a.enddate@ == b.enddate@ && a.endtime@ == b.endtime@ ==> a_end == b_end
        }),
{
}

/// A bound whose options are given is the instant of its date and time in the
/// zone; an end includes its last minute or second.
pub proof fn given_bounds_are_kept(options: DbOptions, now: int, zone: Seq<char>)
    ensures
        match interval_in(options, now, zone) {
            Ok((start, end)) => {
                &&& options.startdate@ != "default"@ && options.starttime@ != "default"@ ==> cli::local_time(
                    options.startdate@,
                    options.starttime@,
                    zone,
                    false,
                ) == Some(start)
                &&& options.enddate@ != "default"@ && options.endtime@ != "default"@ ==> cli::local_time(
                    options.enddate@,
                    options.endtime@,
                    zone,
                    true,
                ) == Some(end)
            },
            Err(_) => options.startdate@ != "default"@ && options.starttime@ != "default"@ && options.enddate@
                != "default"@ && options.endtime@ != "default"@ ==> cli::local_time(
                options.startdate@,
                options.starttime@,
                zone,
                false,
            ) is None || cli::local_time(options.enddate@, options.endtime@, zone, true) is None,
        },
{
}

/// Without options the interval is the last hour up to a minute ago: it ends a
/// minute before now, and starts at the date, hour and minute of an hour before
/// now.  A date or a time that is left out is that of the same instant.
pub proof fn the_default_is_the_last_hour(options: DbOptions, now: int, zone: Seq<char>)
    requires
        interval_in(options, now, zone) is Ok,
        clock::zone_text(now - 3_600_000_000, zone, "%Y%m%d"@) is Some,
        clock::zone_text(now - 3_600_000_000, zone, "%H%M"@) is Some,
        clock::zone_text(now - 60_000_000, zone, "%Y%m%d"@) is Some,
        clock::zone_text(now - 60_000_000, zone, "%H%M"@) is Some,
    ensures
        ({
            let (start, end) = interval_in(options, now, zone)->Ok_0;
            let hour_ago = now - 3_600_000_000;
            let minute_ago = now - 60_000_000;
            &&& options.startdate@ == "default"@ && options.starttime@ == "default"@ ==> cli::local_time(
                clock::zone_text(hour_ago, zone, "%Y%m%d"@)->0,
                clock::zone_text(hour_ago, zone, "%H%M"@)->0,
                zone,
                false,
            ) == Some(start)
            &&& options.startdate@ == "default"@ && options.starttime@ != "default"@ ==> cli::local_time(
                clock::zone_text(hour_ago, zone, "%Y%m%d"@)->0,
                options.starttime@,
                zone,
                false,
            ) == Some(start)
            &&& options.startdate@ != "default"@ && options.starttime@ == "default"@ ==> cli::local_time(
                options.startdate@,
                clock::zone_text(hour_ago, zone, "%H%M"@)->0,
                zone,
                false,
            ) == Some(start)
            &&& options.enddate@ == "default"@ && options.endtime@ == "default"@ ==> end == minute_ago
            &&& options.enddate@ == "default"@ && options.endtime@ != "default"@ ==> cli::local_time(
                clock::zone_text(minute_ago, zone, "%Y%m%d"@)->0,
                options.endtime@,
                zone,
                true,
            ) == Some(end)
            &&& options.enddate@ != "default"@ && options.endtime@ == "default"@ ==> cli::local_time(
                options.enddate@,
                clock::zone_text(minute_ago, zone, "%H%M"@)->0,
                zone,
                true,
            ) == Some(end)
        }),
{
}

/// The grid over a rectangle has the bounds of the rectangle, in each
/// direction its own cell width, else the common one, else one degree.
pub proof fn the_grid_covers_the_area(
    options: DbOptions,
    a: Area,
    west: Real,
    south: Real,
    east: Real,
    north: Real,
)
    requires
        west.lt(east),
        south.lt(north),
        area::describes(a, seq![seq![(west, south), (east, south), (east, north), (west, north), (west, south)]]),
    ensures
        ({
            let grid = grid_over(options, a);
            &&& grid.x_min == west && grid.x_max == east
            &&& grid.y_min == south && grid.y_max == north
            &&& options.xgrid matches Some(w) ==> grid.x_div == w
            &&& options.ygrid matches Some(w) ==> grid.y_div == w
            &&& options.xgrid is None ==> (options.grid matches Some(w) ==> grid.x_div == w)
            &&& options.ygrid is None ==> (options.grid matches Some(w) ==> grid.y_div == w)
            &&& options.xgrid is None && options.grid is None ==> grid.x_div.bits == 0x3ff0_0000_0000_0000
            &&& options.ygrid is None && options.grid is None ==> grid.y_div.bits == 0x3ff0_0000_0000_0000
        }),
        wants_grid(options) <==> options.grid is Some || options.xgrid is Some || options.ygrid is Some,
{
    area::a_rectangle_is_its_own_box(a, west, south, east, north);
}

/// The envelope of an area has the bounds of the area and is a mere box.
pub proof fn envelopes_keep_the_bounds(a: Area, envelope: Area)
    requires
        a.bounds.0.lt(a.bounds.2),
        a.bounds.1.lt(a.bounds.3),
        area::describes(envelope, seq![bounds_ring(a)]),
    ensures
        envelope.bounds == a.bounds,
        envelope.geometry_wkb is None,
{
    area::a_rectangle_is_its_own_box(envelope, a.bounds.0, a.bounds.1, a.bounds.2, a.bounds.3);
}

proof fn lemma_all_filled(lines: Seq<Seq<char>>, n: int)
    requires
        0 <= n <= lines.len(),
        forall|i: int| 0 <= i < lines.len() ==> (#[trigger] lines[i]).len() > 0,
    ensures
        filled(lines, n) == n,
    decreases n,
{
    if n > 0 {
        lemma_all_filled(lines, n - 1);
        assert(lines[n - 1].len() > 0);
    }
}

/// The count of an output is the number of its lines.
pub proof fn every_shown_line_is_counted(shown: Seq<Seq<char>>)
    requires
        shown.len() > 0,
        forall|i: int|
            0 <= i < shown.len() ==> (#[trigger] shown[i]).len() > 0 && !shown[i].contains('\n') && shown[i].last()
                != '\r',
    ensures
        ({
            let lines = text::lines(text::join(shown, seq!['\n']));
            filled(lines, lines.len() as int) == shown.len()
        }),
        filled(text::lines(Seq::empty()), text::lines(Seq::empty()).len() as int) == 0,
{
    text::joined_lines_read_back(shown);
    lemma_all_filled(shown, shown.len() as int);
    text::a_line_ends_at_its_feed(Seq::empty(), Seq::empty());
}

} // verus!
