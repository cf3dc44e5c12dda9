//! The per-cell hydraulic state the flow law works on: position, elevation,
//! water depth and Strickler roughness coefficient.

use vstd::prelude::*;
use crate::fixed::{DEPTH_LIMIT, ELEVATION_LIMIT, KST_LIMIT};

verus! {

/// Default Strickler roughness coefficient: 30.
pub const DEFAULT_KST: i64 = 30_000_000;

/// One grid location's hydraulic state.  All scalar fields are fixed-point
/// values (see [`crate::fixed`]): `elevation` and `depth` in meters, `kst`
/// the dimensionless Gauckler-Strickler roughness coefficient.
#[derive(Clone, Copy, Debug)]
pub struct RasterCell {
    pub x: usize,
    pub y: usize,
    pub elevation: i64,
    pub depth: i64,
    pub kst: i64,
}

impl RasterCell {
    /// The bounds inside which the hydraulic formulas are proved exact and
    /// free of overflow: elevation within +-10_000 m, depth within 1_000 m
    /// and nonnegative, roughness positive and at most 100.
    pub open spec fn wf(self) -> bool {
        &&& -ELEVATION_LIMIT <= self.elevation <= ELEVATION_LIMIT
        &&& 0 <= self.depth <= DEPTH_LIMIT
        &&& 0 < self.kst <= KST_LIMIT
    }

    /// The level of the water surface: terrain elevation plus water depth.
    pub open spec fn spec_water_level(self) -> int {
        self.elevation + self.depth
    }

    /// A cell at the origin with no terrain, no water, default roughness.
    pub fn new() -> (r: RasterCell)
        ensures
            r.x == 0 && r.y == 0 && r.elevation == 0 && r.depth == 0,
            r.kst == DEFAULT_KST,
            r.wf(),
    {
        RasterCell { x: 0, y: 0, elevation: 0, depth: 0, kst: DEFAULT_KST }
    }

    /// A dry cell at sea level at position `(x, y)` with default roughness.
    pub fn new_with_xy(x: usize, y: usize) -> (r: RasterCell)
        ensures
            r.x == x && r.y == y && r.elevation == 0 && r.depth == 0,
            r.kst == DEFAULT_KST,
            r.wf(),
    {
        RasterCell { x, y, elevation: 0, depth: 0, kst: DEFAULT_KST }
    }

    /// A dry cell at position `(x, y)` with terrain elevation `elevation`.
    pub fn new_with_xyz(x: usize, y: usize, elevation: i64) -> (r: RasterCell)
        ensures
            r.x == x && r.y == y && r.elevation == elevation && r.depth == 0,
            r.kst == DEFAULT_KST,
    {
        RasterCell { x, y, elevation, depth: 0, kst: DEFAULT_KST }
    }

    /// A cell at position `(x, y)` with terrain elevation `elevation` and
    /// initial water depth `depth`.
    pub fn new_with_xyzh(x: usize, y: usize, elevation: i64, depth: i64) -> (r: RasterCell)
        ensures
            r.x == x && r.y == y && r.elevation == elevation && r.depth == depth,
            r.kst == DEFAULT_KST,
    {
        RasterCell { x, y, elevation, depth, kst: DEFAULT_KST }
    }

    /// The level of the water surface: terrain elevation plus water depth.
    pub fn water_level(&self) -> (r: i64)
        requires
            i64::MIN <= self.elevation + self.depth <= i64::MAX,
        ensures
            r == self.spec_water_level(),
    {
        self.elevation + self.depth
    }
}

} // verus!
