//! Raster queries and raster data.

use vstd::prelude::*;

use crate::ieee::Real;

verus! {

/// A span of time before now, in minutes.
pub trait RelativeTimeRange {
    /// Length of the span.
    spec fn duration(&self) -> u16;

    /// End of the span before now.
    spec fn offset(&self) -> u16;

    fn interval_duration(&self) -> (r: u16)
        ensures
            r == self.duration(),
    ;

    fn interval_offset(&self) -> (r: u16)
        ensures
            r == self.offset(),
    ;
}

/// Size of the raster and the least count of a cell.
pub trait RasterQuery {
    spec fn baselength(&self) -> u16;

    spec fn threshold(&self) -> u8;

    fn raster_baselength(&self) -> (r: u16)
        ensures
            r == self.baselength(),
    ;

    fn count_threshold(&self) -> (r: u8)
        ensures
            r == self.threshold(),
    ;
}

/// A query over the whole world.
#[derive(Debug, Clone, Copy, PartialEq, Eq, Hash, Structural)]
pub struct GlobalRasterQuery {
    pub interval_duration: u16,
    pub interval_offset: u16,
    pub raster_baselength: u16,
    pub count_threshold: u8,
}

impl RelativeTimeRange for GlobalRasterQuery {
    open spec fn duration(&self) -> u16 {
        self.interval_duration
    }

    open spec fn offset(&self) -> u16 {
        self.interval_offset
    }

    fn interval_duration(&self) -> (r: u16) {
        self.interval_duration
    }

    fn interval_offset(&self) -> (r: u16) {
        self.interval_offset
    }
}

impl RasterQuery for GlobalRasterQuery {
    open spec fn baselength(&self) -> u16 {
        self.raster_baselength
    }

    open spec fn threshold(&self) -> u8 {
        self.count_threshold
    }

    fn raster_baselength(&self) -> (r: u16) {
        self.raster_baselength
    }

    fn count_threshold(&self) -> (r: u8) {
        self.count_threshold
    }
}

/// A query over a region.
#[derive(Debug, Clone, Copy, PartialEq, Eq, Hash, Structural)]
pub struct RegionRasterQuery {
    pub interval_duration: u16,
    pub interval_offset: u16,
    pub raster_baselength: u16,
    pub region: u8,
    pub count_threshold: u8,
}

impl RelativeTimeRange for RegionRasterQuery {
    open spec fn duration(&self) -> u16 {
        self.interval_duration
    }

    open spec fn offset(&self) -> u16 {
        self.interval_offset
    }

    fn interval_duration(&self) -> (r: u16) {
        self.interval_duration
    }

    fn interval_offset(&self) -> (r: u16) {
        self.interval_offset
    }
}

impl RasterQuery for RegionRasterQuery {
    open spec fn baselength(&self) -> u16 {
        self.raster_baselength
    }

    open spec fn threshold(&self) -> u8 {
        self.count_threshold
    }

    fn raster_baselength(&self) -> (r: u16) {
        self.raster_baselength
    }

    fn count_threshold(&self) -> (r: u8) {
        self.count_threshold
    }
}

impl RegionRasterQuery {
    /// The region.
    pub fn region(&self) -> (r: u8)
        ensures
            r == self.region,
    {
        self.region
    }
}

/// A query over a tile.
#[derive(Debug, Clone, Copy, PartialEq, Eq, Hash, Structural)]
pub struct LocalRasterQuery {
    pub interval_duration: u16,
    pub interval_offset: u16,
    pub raster_baselength: u16,
    pub longitude_reference: u16,
    pub latitude_reference: u16,
    pub count_threshold: u8,
}

impl RelativeTimeRange for LocalRasterQuery {
    open spec fn duration(&self) -> u16 {
        self.interval_duration
    }

    open spec fn offset(&self) -> u16 {
        self.interval_offset
    }

    fn interval_duration(&self) -> (r: u16) {
        self.interval_duration
    }

    fn interval_offset(&self) -> (r: u16) {
        self.interval_offset
    }
}

impl RasterQuery for LocalRasterQuery {
    open spec fn baselength(&self) -> u16 {
        self.raster_baselength
    }

    open spec fn threshold(&self) -> u8 {
        self.count_threshold
    }

    fn raster_baselength(&self) -> (r: u16) {
        self.raster_baselength
    }

    fn count_threshold(&self) -> (r: u8) {
        self.count_threshold
    }
}

impl LocalRasterQuery {
    /// The column of the tile.
    pub fn longitude_reference(&self) -> (r: u16)
        ensures
            r == self.longitude_reference,
    {
        self.longitude_reference
    }

    /// The row of the tile.
    pub fn latitude_reference(&self) -> (r: u16)
        ensures
            r == self.latitude_reference,
    {
        self.latitude_reference
    }
}

/// Position and size of the cells of a raster.
#[derive(Debug, Clone, Copy, PartialEq, Eq, Structural)]
pub struct RasterParameters {
    pub longitude_start: Real,
    pub longitude_delta: Real,
    pub longitude_bins: u16,
    pub latitude_start: Real,
    pub latitude_delta: Real,
    pub latitude_bins: u16,
}

impl RasterParameters {
    /// Parameters with the given values.
    pub fn new(
        longitude_start: Real,
        longitude_delta: Real,
        longitude_bins: u16,
        latitude_start: Real,
        latitude_delta: Real,
        latitude_bins: u16,
    ) -> (r: RasterParameters)
        ensures
            r == (RasterParameters {
                longitude_start,
                longitude_delta,
                longitude_bins,
                latitude_start,
                latitude_delta,
                latitude_bins,
            }),
    {
        RasterParameters {
            longitude_start,
            longitude_delta,
            longitude_bins,
            latitude_start,
            latitude_delta,
            latitude_bins,
        }
    }
}

/// A cell with strikes.
#[derive(Debug, Clone, Copy, PartialEq, Eq, Structural)]
pub struct RasterEntry {
    pub x: i16,
    pub y: i16,
    pub count: u16,
    pub time: u16,
}

/// A raster: its parameters and its cells with strikes.
#[derive(Debug, Clone)]
pub struct RasterData {
    pub parameters: RasterParameters,
    pub entries: Vec<RasterEntry>,
}

impl RasterData {
    /// A raster with the given parts.
    pub fn new(parameters: RasterParameters, entries: Vec<RasterEntry>) -> (r: RasterData)
        ensures
            r == (RasterData { parameters, entries }),
    {
        RasterData { parameters, entries }
    }
}

/// A source of raster entries.
pub trait StrikeStore {
    fn raster_data() -> Vec<RasterEntry>;
}

} // verus!
