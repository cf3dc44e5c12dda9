//! The Gauckler-Manning-Strickler flow law: stateless formulas over a pair
//! of cells and the shared cell edge length.
//!
//! All results are fixed-point values computed with floor divisions; each
//! executable function's contract states the exact integer expression it
//! returns, together with the range that keeps every caller overflow-free.

use vstd::prelude::*;
use crate::fixed::{
    cbrt_floor, lemma_cbrt_floor_bound, lemma_muldiv_bound, lemma_sqrt_floor_bound, mul_div,
    pow_two_thirds_fp, sqrt_fp, sqrt_floor, CELL_SIZE_MAX, CELL_SIZE_MIN, DEPTH_LIMIT, KST_LIMIT,
    SCALE,
};
use crate::rastercell::RasterCell;

verus! {

/// Largest cross-sectional flow area the formulas can produce.
pub const AREA_LIMIT: i64 = 100_000_000_000;

/// Largest hydraulic radius the formulas can produce.
pub const RADIUS_LIMIT: i64 = 100_000_000_000;

/// Largest magnitude of a hydraulic slope between well-formed cells.
pub const SLOPE_LIMIT: i64 = 22_000_000_000;

/// Largest flow velocity the formulas can produce.
pub const VELOCITY_LIMIT: i64 = 33_000_000_000_000;

/// Largest volumetric flow rate the formulas can produce.
pub const FLOW_LIMIT: i64 = 3_300_000_000_000_000_000;

/// Both cells are inside the hydraulic bounds and the cell edge length is in
/// the supported range: the precondition shared by all the formulas.
pub open spec fn hydraulic_inputs_ok(cell1: RasterCell, cell2: RasterCell, cell_size: i64) -> bool {
    &&& cell1.wf()
    &&& cell2.wf()
    &&& CELL_SIZE_MIN <= cell_size <= CELL_SIZE_MAX
}

/// Mean water depth of the two cells.
pub open spec fn spec_average_depth(cell1: RasterCell, cell2: RasterCell) -> int {
    (cell1.depth + cell2.depth) / 2
}

/// Mean roughness coefficient of the two cells.
pub open spec fn spec_average_kst(cell1: RasterCell, cell2: RasterCell) -> int {
    (cell1.kst + cell2.kst) / 2
}

/// Water-level difference per unit length, signed: positive when `cell1`'s
/// water level is above `cell2`'s.  Rounded toward zero.
pub open spec fn spec_hydraulic_slope(cell1: RasterCell, cell2: RasterCell, cell_size: i64) -> int {
    if cell1.spec_water_level() >= cell2.spec_water_level() {
        (cell1.spec_water_level() - cell2.spec_water_level()) * SCALE / (cell_size as int)
    } else {
        -((cell2.spec_water_level() - cell1.spec_water_level()) * SCALE / (cell_size as int))
    }
}

/// Wetted perimeter of the rectangular-channel approximation between the
/// two cells.
pub open spec fn spec_wetted_perimeter(cell1: RasterCell, cell2: RasterCell, cell_size: i64) -> int {
    2 * spec_average_depth(cell1, cell2) + cell_size
}

/// Cross-sectional flow area between the two cells.
pub open spec fn spec_area(cell1: RasterCell, cell2: RasterCell, cell_size: i64) -> int {
    spec_average_depth(cell1, cell2) * (cell_size as int) / (SCALE as int)
}

/// Cross-sectional area over wetted perimeter; zero in the dry case.
pub open spec fn spec_hydraulic_radius(cell1: RasterCell, cell2: RasterCell, cell_size: i64) -> int {
    if cell1.depth == 0 && cell2.depth == 0 {
        0
    } else {
        spec_area(cell1, cell2, cell_size) * (SCALE as int)
            / spec_wetted_perimeter(cell1, cell2, cell_size)
    }
}

/// Gauckler-Manning-Strickler velocity: mean roughness times the hydraulic
/// radius to the power two thirds times the square root of the slope.
pub open spec fn spec_velocity(cell1: RasterCell, cell2: RasterCell, cell_size: i64) -> int {
    spec_average_kst(cell1, cell2)
        * cbrt_floor(
            spec_hydraulic_radius(cell1, cell2, cell_size)
                * spec_hydraulic_radius(cell1, cell2, cell_size) * SCALE,
        ) / (SCALE as int)
        * sqrt_floor(spec_hydraulic_slope(cell1, cell2, cell_size) * SCALE) / (SCALE as int)
}

/// Volumetric flow rate: cross-sectional area times velocity.
pub open spec fn spec_flow(cell1: RasterCell, cell2: RasterCell, cell_size: i64) -> int {
    spec_area(cell1, cell2, cell_size) * spec_velocity(cell1, cell2, cell_size) / (SCALE as int)
}

/// Mean water depth of the two cells.
pub fn average_depth(cell1: &RasterCell, cell2: &RasterCell) -> (r: i64)
    requires
        0 <= cell1.depth <= DEPTH_LIMIT,
        0 <= cell2.depth <= DEPTH_LIMIT,
    ensures
        r == spec_average_depth(*cell1, *cell2),
        0 <= r <= DEPTH_LIMIT,
{
    (((cell1.depth as u64) + (cell2.depth as u64)) / 2) as i64
}

/// Mean roughness coefficient of the two cells.
pub fn average_kst(cell1: &RasterCell, cell2: &RasterCell) -> (r: i64)
    requires
        0 < cell1.kst <= KST_LIMIT,
        0 < cell2.kst <= KST_LIMIT,
    ensures
        r == spec_average_kst(*cell1, *cell2),
        0 < r <= KST_LIMIT,
{
    (((cell1.kst as u64) + (cell2.kst as u64)) / 2) as i64
}

/// Water-level difference per unit length, signed: positive when `cell1`'s
/// water level is above `cell2`'s.
pub fn hydraulic_slope(cell1: &RasterCell, cell2: &RasterCell, cell_size: i64) -> (r: i64)
    requires
        hydraulic_inputs_ok(*cell1, *cell2, cell_size),
    ensures
        r == spec_hydraulic_slope(*cell1, *cell2, cell_size),
        -SLOPE_LIMIT <= r <= SLOPE_LIMIT,
        cell1.spec_water_level() >= cell2.spec_water_level() ==> 0 <= r,
{
    let wl1 = cell1.water_level();
    let wl2 = cell2.water_level();
    if wl1 >= wl2 {
        proof {
            lemma_muldiv_bound(
                wl1 - wl2, SLOPE_LIMIT as int, SCALE as int, SCALE as int,
                cell_size as int, CELL_SIZE_MIN as int,
            );
        }
        mul_div(wl1 - wl2, SCALE, cell_size)
    } else {
        proof {
            lemma_muldiv_bound(
                wl2 - wl1, SLOPE_LIMIT as int, SCALE as int, SCALE as int,
                cell_size as int, CELL_SIZE_MIN as int,
            );
        }
        -mul_div(wl2 - wl1, SCALE, cell_size)
    }
}

/// Wetted perimeter of the rectangular-channel approximation between the
/// two cells.
pub fn wetted_perimeter(cell1: &RasterCell, cell2: &RasterCell, cell_size: i64) -> (r: i64)
    requires
        hydraulic_inputs_ok(*cell1, *cell2, cell_size),
    ensures
        r == spec_wetted_perimeter(*cell1, *cell2, cell_size),
        cell_size <= r <= 2 * DEPTH_LIMIT + CELL_SIZE_MAX,
{
    2 * average_depth(cell1, cell2) + cell_size
}

/// Cross-sectional flow area between the two cells.
pub fn area(cell1: &RasterCell, cell2: &RasterCell, cell_size: i64) -> (r: i64)
    requires
        hydraulic_inputs_ok(*cell1, *cell2, cell_size),
    ensures
        r == spec_area(*cell1, *cell2, cell_size),
        0 <= r <= AREA_LIMIT,
{
    let avg = average_depth(cell1, cell2);
    proof {
        lemma_muldiv_bound(
            avg as int, DEPTH_LIMIT as int, cell_size as int, CELL_SIZE_MAX as int,
            SCALE as int, SCALE as int,
        );
    }
    mul_div(avg, cell_size, SCALE)
}

/// Cross-sectional area over wetted perimeter.  Exactly zero when both
/// cells are dry, whatever the other parameters.
pub fn hydraulic_radius(cell1: &RasterCell, cell2: &RasterCell, cell_size: i64) -> (r: i64)
    requires
        hydraulic_inputs_ok(*cell1, *cell2, cell_size),
    ensures
        r == spec_hydraulic_radius(*cell1, *cell2, cell_size),
        cell1.depth == 0 && cell2.depth == 0 ==> r == 0,
        0 <= r <= RADIUS_LIMIT,
{
    if cell1.depth == 0 && cell2.depth == 0 {
        return 0;
    }
    let a = area(cell1, cell2, cell_size);
    let wp = wetted_perimeter(cell1, cell2, cell_size);
    proof {
        lemma_muldiv_bound(
            a as int, AREA_LIMIT as int, SCALE as int, SCALE as int,
            wp as int, CELL_SIZE_MIN as int,
        );
    }
    mul_div(a, SCALE, wp)
}

/// Gauckler-Manning-Strickler velocity between the two cells.  Callers must
/// only invoke it where `cell1`'s water level is not below `cell2`'s: the
/// slope under the square root must be nonnegative.
pub fn velocity(cell1: &RasterCell, cell2: &RasterCell, cell_size: i64) -> (r: i64)
    requires
        hydraulic_inputs_ok(*cell1, *cell2, cell_size),
        cell1.spec_water_level() >= cell2.spec_water_level(),
    ensures
        r == spec_velocity(*cell1, *cell2, cell_size),
        0 <= r <= VELOCITY_LIMIT,
{
    let k = average_kst(cell1, cell2);
    let rad = hydraulic_radius(cell1, cell2, cell_size);
    let p = pow_two_thirds_fp(rad);
    proof {
        assert(rad * rad * SCALE <= 2_200_000_000 * 2_200_000_000 * 2_200_000_000)
            by (nonlinear_arith)
            requires 0 <= rad <= RADIUS_LIMIT, RADIUS_LIMIT == 100_000_000_000, SCALE == 1_000_000;
        lemma_cbrt_floor_bound(rad * rad * SCALE, p as int, 2_200_000_000);
    }
    let s = hydraulic_slope(cell1, cell2, cell_size);
    let q = sqrt_fp(s);
    proof {
        assert(s * SCALE <= 150_000_000 * 150_000_000) by (nonlinear_arith)
            requires 0 <= s <= SLOPE_LIMIT, SLOPE_LIMIT == 22_000_000_000, SCALE == 1_000_000;
        lemma_sqrt_floor_bound(s * SCALE, q as int, 150_000_000);
        lemma_muldiv_bound(
            k as int, KST_LIMIT as int, p as int, 2_200_000_000, SCALE as int, SCALE as int,
        );
    }
    let v1 = mul_div(k, p, SCALE);
    proof {
        lemma_muldiv_bound(
            v1 as int, 220_000_000_000, q as int, 150_000_000, SCALE as int, SCALE as int,
        );
    }
    mul_div(v1, q, SCALE)
}

/// Volumetric flow rate potentially exchanged between the two cells:
/// cross-sectional area times velocity.  As for [`velocity`], `cell1`'s
/// water level must not be below `cell2`'s.
pub fn flow(cell1: &RasterCell, cell2: &RasterCell, cell_size: i64) -> (r: i64)
    requires
        hydraulic_inputs_ok(*cell1, *cell2, cell_size),
        cell1.spec_water_level() >= cell2.spec_water_level(),
    ensures
        r == spec_flow(*cell1, *cell2, cell_size),
        0 <= r <= FLOW_LIMIT,
{
    let a = area(cell1, cell2, cell_size);
    let v = velocity(cell1, cell2, cell_size);
    proof {
        lemma_muldiv_bound(
            a as int, AREA_LIMIT as int, v as int, VELOCITY_LIMIT as int,
            SCALE as int, SCALE as int,
        );
    }
    mul_div(a, v, SCALE)
}

} // verus!
