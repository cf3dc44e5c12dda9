//! The bare per-location state: position, elevation and water depth.

use vstd::prelude::*;

verus! {

/// One grid location's hydraulic state, without a roughness coefficient.
/// Elevation and depth are fixed-point meters (see [`crate::fixed`]).
#[derive(Clone, Copy, Debug)]
pub struct Node {
    pub x: usize,
    pub y: usize,
    pub elevation: i64,
    pub depth: i64,
}

impl Node {
    /// A node at the origin with no terrain and no water.
    pub fn new() -> (r: Node)
        ensures
            r.x == 0 && r.y == 0 && r.elevation == 0 && r.depth == 0,
    {
        Node { x: 0, y: 0, elevation: 0, depth: 0 }
    }

    /// A dry node at sea level at position `(x, y)`.
    pub fn new_with_xy(x: usize, y: usize) -> (r: Node)
        ensures
            r.x == x && r.y == y && r.elevation == 0 && r.depth == 0,
    {
        Node { x, y, elevation: 0, depth: 0 }
    }

    /// A dry node at position `(x, y)` with terrain elevation `z`.
    pub fn new_with_xyz(x: usize, y: usize, z: i64) -> (r: Node)
        ensures
            r.x == x && r.y == y && r.elevation == z && r.depth == 0,
    {
        Node { x, y, elevation: z, depth: 0 }
    }

    /// A dry node at position `(x, y)` with terrain elevation `z`; the
    /// water depth still starts at zero.
    pub fn new_with_xyzh(x: usize, y: usize, z: i64) -> (r: Node)
        ensures
            r.x == x && r.y == y && r.elevation == z && r.depth == 0,
    {
        Node { x, y, elevation: z, depth: 0 }
    }

    /// The level of the water surface: terrain elevation plus water depth.
    pub fn water_level(&self) -> (r: i64)
        requires
            i64::MIN <= self.elevation + self.depth <= i64::MAX,
        ensures
            r == self.elevation + self.depth,
    {
        self.elevation + self.depth
    }
}

} // verus!
