//! The compute side of the depth-map renderer: scaling a cell's water depth
//! against a fixed maximum to a color intensity.  Writing the raster image
//! itself is I/O and lives outside the verified library; it reads one
//! intensity per cell through [`scale_color`].

use vstd::prelude::*;
use crate::fixed::mul_div;

verus! {

/// Map a nonnegative fixed-point value to a color intensity: values at or
/// above `max_val` saturate at 255, values below scale linearly.
pub fn scale_color(val: i64, max_val: i64) -> (r: u8)
    requires
        0 <= val,
        0 < max_val,
    ensures
        val >= max_val ==> r == 255,
        val < max_val ==> r == val * 255 / (max_val as int),
{
    if val >= max_val {
        return 255;
    }
    proof {
        crate::fixed::lemma_muldiv_bound(val as int, max_val as int, 255, 255, max_val as int,
            max_val as int);
        vstd::arithmetic::div_mod::lemma_div_by_multiple(255, max_val as int);
        crate::simulation::lemma_scaled_le(val as int, 255, max_val as int);
    }
    mul_div(val, 255, max_val) as u8
}

} // verus!
