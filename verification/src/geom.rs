//! Geometry of the strike grids: envelopes, grids, regions and local tiles.

use vstd::prelude::*;

use crate::ieee::Real;
use crate::wkb;
use crate::wkb::Point;

verus! {

/// A bounding box.
#[derive(Debug, Clone, Copy, PartialEq, Eq, Structural)]
pub struct Envelope {
    pub x_min: Real,
    pub x_max: Real,
    pub y_min: Real,
    pub y_max: Real,
}

impl Envelope {
    /// The corners, counter-clockwise from the lower left one along the left
    /// edge.
    pub open spec fn corners(self) -> Seq<Point> {
        seq![
            (self.x_min, self.y_min),
            (self.x_min, self.y_max),
            (self.x_max, self.y_max),
            (self.x_max, self.y_min),
        ]
    }

    /// A box with the given bounds.
    pub fn new(x_min: Real, x_max: Real, y_min: Real, y_max: Real) -> (r: Envelope)
        ensures
            r == (Envelope { x_min, x_max, y_min, y_max }),
    {
        Envelope { x_min, x_max, y_min, y_max }
    }

    fn corner_points(&self) -> (r: Vec<Point>)
        ensures
            r@ == self.corners(),
    {
        let mut points: Vec<Point> = Vec::new();
        points.push((self.x_min, self.y_min));
        points.push((self.x_min, self.y_max));
        points.push((self.x_max, self.y_max));
        points.push((self.x_max, self.y_min));
        assert(points@ =~= self.corners());
        points
    }

    /// The envelope as a closed WKB ring.
    pub fn as_wkb_linear_ring(&self) -> (r: Vec<u8>)
        ensures
            r@ == wkb::linear_ring_bytes(self.corners()),
    {
        let points = self.corner_points();
        wkb::linear_ring(points.as_slice())
    }

    /// The envelope as a WKB polygon.
    pub fn as_wkb_polygon(&self) -> (r: Vec<u8>)
        ensures
            r@ == wkb::polygon_bytes(seq![wkb::closed_ring(self.corners())]),
    {
        let mut ring = self.corner_points();
        ring.push((self.x_min, self.y_min));
        assert(ring@ =~= wkb::closed_ring(self.corners()));
        let mut rings: Vec<Vec<Point>> = Vec::new();
        rings.push(ring);
        assert(wkb::ring_views(rings@) =~= seq![wkb::closed_ring(self.corners())]);
        wkb::polygon(rings.as_slice())
    }
}

/// Grid characteristics: a bounding box and the cell sizes.
#[derive(Debug, Clone, Copy, PartialEq, Eq, Structural)]
pub struct Grid {
    pub x_min: Real,
    pub x_max: Real,
    pub y_min: Real,
    pub y_max: Real,
    pub x_div: Real,
    pub y_div: Real,
}

impl Grid {
    /// The bounding box of the grid.
    pub open spec fn bounds(self) -> Envelope {
        Envelope { x_min: self.x_min, x_max: self.x_max, y_min: self.y_min, y_max: self.y_max }
    }

    /// A grid with the given bounds and cell sizes.
    pub fn new(x_min: Real, x_max: Real, y_min: Real, y_max: Real, x_div: Real, y_div: Real) -> (r: Grid)
        ensures
            r == (Grid { x_min, x_max, y_min, y_max, x_div, y_div }),
    {
        Grid { x_min, x_max, y_min, y_max, x_div, y_div }
    }

    /// The bounding box of the grid.
    pub fn envelope(&self) -> (r: Envelope)
        ensures
            r == self.bounds(),
    {
        Envelope::new(self.x_min, self.x_max, self.y_min, self.y_max)
    }
}

/// A region: its bounds in whole degrees and its UTM zone.
#[derive(Debug, Clone, Copy, PartialEq, Eq, Structural)]
pub struct Region {
    pub id: u32,
    pub min_lon: i64,
    pub max_lon: i64,
    pub min_lat: i64,
    pub max_lat: i64,
    pub zone: u32,
    pub southern: bool,
}

/// A region with the given bounds.
pub open spec fn degrees(
    id: u32,
    min_lon: int,
    max_lon: int,
    min_lat: int,
    max_lat: int,
    zone: u32,
    southern: bool,
) -> Option<Region> {
    Some(
        Region {
            id,
            min_lon: min_lon as i64,
            max_lon: max_lon as i64,
            min_lat: min_lat as i64,
            max_lat: max_lat as i64,
            zone,
            southern,
        },
    )
}

/// The region with the given id.
pub open spec fn region_of(id: u32) -> Option<Region> {
    if id == 1 {
        degrees(id, -25, 57, 27, 72, 33, false)
    } else if id == 2 {
        degrees(id, 110, 180, -50, 0, 55, true)
    } else if id == 3 {
        degrees(id, -140, -50, 10, 60, 14, false)
    } else if id == 4 {
        degrees(id, 85, 150, -10, 60, 50, false)
    } else if id == 5 {
        degrees(id, -100, -30, -50, 20, 20, true)
    } else if id == 6 {
        degrees(id, -20, 50, -40, 40, 33, false)
    } else if id == 7 {
        degrees(id, -115, -50, 0, 30, 14, false)
    } else {
        None
    }
}

/// Fetch a region definition by id: Europe, Oceania, North America, Asia,
/// South America, Africa and Central America, counted from 1.
pub fn region(id: u32) -> (r: Option<Region>)
    ensures
        r == region_of(id),
{
    if id == 1 {
        Some(Region { id, min_lon: -25, max_lon: 57, min_lat: 27, max_lat: 72, zone: 33, southern: false })
    } else if id == 2 {
        Some(Region { id, min_lon: 110, max_lon: 180, min_lat: -50, max_lat: 0, zone: 55, southern: true })
    } else if id == 3 {
        Some(Region { id, min_lon: -140, max_lon: -50, min_lat: 10, max_lat: 60, zone: 14, southern: false })
    } else if id == 4 {
        Some(Region { id, min_lon: 85, max_lon: 150, min_lat: -10, max_lat: 60, zone: 50, southern: false })
    } else if id == 5 {
        Some(Region { id, min_lon: -100, max_lon: -30, min_lat: -50, max_lat: 20, zone: 20, southern: true })
    } else if id == 6 {
        Some(Region { id, min_lon: -20, max_lon: 50, min_lat: -40, max_lat: 40, zone: 33, southern: false })
    } else if id == 7 {
        Some(Region { id, min_lon: -115, max_lon: -50, min_lat: 0, max_lat: 30, zone: 14, southern: false })
    } else {
        None
    }
}

/// Every region lies inside the range of geographic coordinates and is not
/// empty.
pub proof fn regions_are_valid(id: u32)
    ensures
        region_of(id) is Some <==> 1 <= id <= 7,
        region_of(id) matches Some(r) ==> r.id == id && -180 <= r.min_lon < r.max_lon <= 180 && -90 <= r.min_lat
            < r.max_lat <= 90,
{
}

/// A local grid around an (x, y) tile.
#[derive(Debug, Clone, Copy, PartialEq, Eq, Structural)]
pub struct LocalGrid {
    pub data_area: i64,
    pub x: i64,
    pub y: i64,
}

/// Size of a local grid in tiles.
pub const DATA_AREA_SIZE_FACTOR: i64 = 3;

impl LocalGrid {
    /// The width and the height of the grid, in degrees.
    pub open spec fn span(self) -> int {
        self.data_area * DATA_AREA_SIZE_FACTOR
    }

    /// The longitude at which the grid starts, in degrees.
    pub open spec fn west(self) -> int {
        (self.x - 1) * self.data_area
    }

    /// The latitude at which the grid starts, in degrees.
    pub open spec fn south(self) -> int {
        (self.y - 1) * self.data_area
    }

    /// The grid spans `data_area * 3` degrees.
    pub fn size(&self) -> (r: i64)
        requires
            i64::MIN <= self.data_area * DATA_AREA_SIZE_FACTOR <= i64::MAX,
        ensures
            r == self.data_area * DATA_AREA_SIZE_FACTOR,
            r == self.span(),
    {
        self.data_area * DATA_AREA_SIZE_FACTOR
    }

    /// Longitude of the lower left corner, in degrees.
    pub fn reference_longitude(&self) -> (r: i64)
        requires
            self.x > i64::MIN,
            i64::MIN <= (self.x - 1) * self.data_area <= i64::MAX,
        ensures
            r == (self.x - 1) * self.data_area,
            r == self.west(),
    {
        (self.x - 1) * self.data_area
    }

    /// Latitude of the lower left corner, in degrees.
    pub fn reference_latitude(&self) -> (r: i64)
        requires
            self.y > i64::MIN,
            i64::MIN <= (self.y - 1) * self.data_area <= i64::MAX,
        ensures
            r == (self.y - 1) * self.data_area,
            r == self.south(),
    {
        (self.y - 1) * self.data_area
    }
}

/// A local grid holds its tile in the middle: one tile of the data area lies
/// before it and one behind it, in both directions.
pub proof fn a_local_grid_surrounds_its_tile(grid: LocalGrid)
    ensures
        grid.west() + grid.data_area == grid.x * grid.data_area,
        grid.west() + grid.span() == (grid.x + 2) * grid.data_area,
        grid.south() + grid.data_area == grid.y * grid.data_area,
        grid.south() + grid.span() == (grid.y + 2) * grid.data_area,
{
    let d = grid.data_area as int;
    let x = grid.x as int;
    let y = grid.y as int;
    assert((x - 1) * d + d == x * d && (x - 1) * d + d * 3 == (x + 2) * d) by (nonlinear_arith);
    assert((y - 1) * d + d == y * d && (y - 1) * d + d * 3 == (y + 2) * d) by (nonlinear_arith);
}

/// The corners of a box go around it: two that follow one another share the
/// edge between them, and the first and the last share one too.
pub proof fn the_corners_go_around_the_box(b: Envelope, i: int)
    requires
        0 <= i < 4,
    ensures
        b.corners().len() == 4,
        b.corners()[0] == (b.x_min, b.y_min),
        b.corners()[2] == (b.x_max, b.y_max),
        ({
            let p = b.corners()[i];
            let q = b.corners()[(i + 1) % 4];
            &&& p.0 == b.x_min || p.0 == b.x_max
            &&& p.1 == b.y_min || p.1 == b.y_max
            &&& i % 2 == 0 ==> p.0 == q.0
            &&& i % 2 == 1 ==> p.1 == q.1
        }),
{
}

/// A grid is bounded by its own bounds.
pub proof fn a_grid_has_its_own_bounds(grid: Grid)
    ensures
        grid.bounds().x_min == grid.x_min,
        grid.bounds().x_max == grid.x_max,
        grid.bounds().y_min == grid.y_min,
        grid.bounds().y_max == grid.y_max,
{
}

/// The bounds of the regions, in the order of their ids: the least and the
/// greatest longitude, the least and the greatest latitude, and the zone, whose
/// meridian lies six degrees behind that of the zone before it.
pub proof fn regions_have_their_bounds(id: u32)
    requires
        1 <= id <= 7,
    ensures
        ({
            let longitudes = seq![
                (-25int, 57int),
                (110, 180),
                (-140, -50),
                (85, 150),
                (-100, -30),
                (-20, 50),
                (-115, -50),
            ];
            let latitudes = seq![(27int, 72int), (-50, 0), (10, 60), (-10, 60), (-50, 20), (-40, 40), (0, 30)];
            let meridians = seq![15int, 147, -99, 117, -63, 15, -99];
            region_of(id) matches Some(r) && {
                &&& (r.min_lon as int, r.max_lon as int) == longitudes[id - 1]
                &&& (r.min_lat as int, r.max_lat as int) == latitudes[id - 1]
                &&& r.zone * 6 - 183 == meridians[id - 1]
                &&& r.southern <==> id == 2 || id == 5
            }
        }),
{
}

} // verus!
