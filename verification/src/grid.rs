//! A dense 2D raster of cells with neighbor enumeration and cell access.

use vstd::prelude::*;
use crate::fixed::{CELL_SIZE_MAX, CELL_SIZE_MIN, DEPTH_LIMIT, SCALE};
use crate::rastercell::RasterCell;

verus! {

/// Total water depth over a sequence of cells, in fixed-point meters.
/// Because every cell has the same footprint, the total water volume of a
/// grid is this sum times the cell footprint, so a step that preserves this
/// sum preserves the stored volume exactly.
pub open spec fn sum_depths(s: Seq<RasterCell>) -> int
    decreases s.len(),
{
    if s.len() == 0 {
        0
    } else {
        sum_depths(s.drop_last()) + s.last().depth
    }
}

/// Replacing one cell shifts the total depth by the difference at that slot.
pub proof fn lemma_sum_depths_update(s: Seq<RasterCell>, i: int, c: RasterCell)
    requires
        0 <= i < s.len(),
    ensures
        sum_depths(s.update(i, c)) == sum_depths(s) + c.depth - s[i].depth,
    decreases s.len(),
{
    let t = s.update(i, c);
    if i == s.len() - 1 {
        assert(t.drop_last() =~= s.drop_last());
    } else {
        assert(t.drop_last() =~= s.drop_last().update(i, c));
        lemma_sum_depths_update(s.drop_last(), i, c);
    }
}

/// A sum of nonnegative depths is nonnegative.
pub proof fn lemma_sum_depths_nonneg(s: Seq<RasterCell>)
    requires
        forall|k: int| 0 <= k < s.len() ==> 0 <= (#[trigger] s[k]).depth,
    ensures
        0 <= sum_depths(s),
    decreases s.len(),
{
    if s.len() > 0 {
        lemma_sum_depths_nonneg(s.drop_last());
    }
}

/// When all depths are nonnegative, each one is at most the total.
pub proof fn lemma_sum_depths_elem(s: Seq<RasterCell>, i: int)
    requires
        forall|k: int| 0 <= k < s.len() ==> 0 <= (#[trigger] s[k]).depth,
        0 <= i < s.len(),
    ensures
        s[i].depth <= sum_depths(s),
    decreases s.len(),
{
    if i == s.len() - 1 {
        lemma_sum_depths_nonneg(s.drop_last());
    } else {
        lemma_sum_depths_elem(s.drop_last(), i);
    }
}

/// A dense 2D array of cells, stored row-major: the cell at position
/// `(x, y)` sits at flattened index `y * n_cols + x`.  `cell_size` is the
/// fixed-point edge length in meters of every (square) cell.
///
/// `new` allocates an empty cell collection; the caller populates it before
/// use, and well-formedness ([`Grid::wf`]) is a precondition of the
/// operations that read cells, not a construction-time guarantee.
#[derive(Debug)]
pub struct Grid {
    pub n_cols: usize,
    pub n_rows: usize,
    pub cell_size: i64,
    pub cells: Vec<RasterCell>,
}

impl Grid {
    /// `(x, y)` addresses a cell of the grid.
    pub open spec fn in_bounds(self, x: int, y: int) -> bool {
        0 <= x < self.n_cols && 0 <= y < self.n_rows
    }

    /// The cell stored for position `(x, y)`.
    pub open spec fn cell_at(self, x: int, y: int) -> RasterCell {
        self.cells@[y * self.n_cols + x]
    }

    /// The dimensions are positive, the cell collection is fully populated,
    /// and the edge length lies in the supported range.
    pub open spec fn dims_ok(self) -> bool {
        &&& 1 <= self.n_cols
        &&& 1 <= self.n_rows
        &&& self.cells@.len() == self.n_cols * self.n_rows
        &&& CELL_SIZE_MIN <= self.cell_size <= CELL_SIZE_MAX
    }

    /// Every stored cell is inside the hydraulic bounds and records the
    /// position its flattened index encodes.
    pub open spec fn cells_ok(self) -> bool {
        forall|i: int| 0 <= i < self.cells@.len() ==> {
            &&& (#[trigger] self.cells@[i]).wf()
            &&& self.cells@[i].x == i % (self.n_cols as int)
            &&& self.cells@[i].y == i / (self.n_cols as int)
        }
    }

    /// A populated, consistent grid whose total water depth is within the
    /// range the update algorithm is proved overflow-free for.
    pub open spec fn wf(self) -> bool {
        &&& self.dims_ok()
        &&& self.cells_ok()
        &&& sum_depths(self.cells@) <= DEPTH_LIMIT
    }

    /// An empty grid with capacity for `n_cols * n_rows` cells; the caller
    /// pushes the cells (row-major) before using the grid.
    pub fn new(n_cols: usize, n_rows: usize, cell_size: i64) -> (r: Grid)
        requires
            n_cols * n_rows <= usize::MAX,
        ensures
            r.n_cols == n_cols,
            r.n_rows == n_rows,
            r.cell_size == cell_size,
            r.cells@.len() == 0,
    {
        Grid { n_cols, n_rows, cell_size, cells: Vec::with_capacity(n_cols * n_rows) }
    }

    /// The cell at position `(x, y)`.
    pub fn get_cell(&self, x: usize, y: usize) -> (r: RasterCell)
        requires
            self.in_bounds(x as int, y as int),
            self.cells@.len() == self.n_cols * self.n_rows,
        ensures
            r == self.cell_at(x as int, y as int),
    {
        proof {
            lemma_flat_index_in_range(self.n_cols as int, self.n_rows as int, x as int, y as int);
            vstd::std_specs::vec::axiom_spec_len(&self.cells);
        }
        self.cells[y * self.n_cols + x]
    }

    /// Overwrite the water depth of the cell at position `(x, y)`; every
    /// other field and cell is untouched.
    pub fn set_cell_depth(&mut self, x: usize, y: usize, depth: i64)
        requires
            old(self).in_bounds(x as int, y as int),
            old(self).cells@.len() == old(self).n_cols * old(self).n_rows,
        ensures
            final(self).n_cols == old(self).n_cols,
            final(self).n_rows == old(self).n_rows,
            final(self).cell_size == old(self).cell_size,
            final(self).cells@ == old(self).cells@.update(
                y * old(self).n_cols + x,
                RasterCell { depth, ..old(self).cell_at(x as int, y as int) },
            ),
    {
        proof {
            lemma_flat_index_in_range(self.n_cols as int, self.n_rows as int, x as int, y as int);
            vstd::std_specs::vec::axiom_spec_len(&self.cells);
        }
        let i = y * self.n_cols + x;
        let c = self.cells[i];
        self.cells[i] = RasterCell { depth, ..c };
    }

    /// The volume of water stored in the footprint of the cell at `(x, y)`:
    /// its depth times the squared cell edge length.
    pub fn get_water_volume(&self, x: usize, y: usize) -> (r: i64)
        requires
            self.wf(),
            self.in_bounds(x as int, y as int),
        ensures
            r == self.cell_at(x as int, y as int).depth * self.cell_size * self.cell_size
                / (SCALE * SCALE),
            0 <= r,
    {
        proof {
            lemma_flat_index_in_range(self.n_cols as int, self.n_rows as int, x as int, y as int);
        }
        let c = self.get_cell(x, y);
        let d = c.depth;
        let cs = self.cell_size;
        proof {
            assert((d as u128) * (cs as u128) < u128::MAX
                && (d as u128) * (cs as u128) * (cs as u128) == d * cs * cs
                && d * cs * cs / ((SCALE * SCALE) as int) <= i64::MAX
                && 0 <= d * cs * cs / ((SCALE * SCALE) as int)) by (nonlinear_arith)
                requires
                    0 <= d <= DEPTH_LIMIT,
                    0 < cs <= CELL_SIZE_MAX,
                    SCALE == 1_000_000,
                    DEPTH_LIMIT == 1_000_000_000,
                    CELL_SIZE_MAX == 100_000_000;
        }
        let p: u128 = (d as u128) * (cs as u128) * (cs as u128);
        let q: u128 = p / ((SCALE as u128) * (SCALE as u128));
        q as i64
    }

    /// The coordinates of the Moore neighborhood of `(x, y)`, clipped at the
    /// grid edges: row-major order within the 3x3 window centered on
    /// `(x, y)`, the center itself excluded.  Corner cells have 3 neighbors,
    /// edge cells 5, interior cells 8.
    pub open spec fn neighbour_coords(self, x: int, y: int) -> Seq<(int, int)> {
        (if 0 < y && 0 < x { seq![(x - 1, y - 1)] } else { Seq::<(int, int)>::empty() })
        + (if 0 < y { seq![(x, y - 1)] } else { Seq::<(int, int)>::empty() })
        + (if 0 < y && x + 1 < self.n_cols { seq![(x + 1, y - 1)] } else { Seq::<(int, int)>::empty() })
        + (if 0 < x { seq![(x - 1, y)] } else { Seq::<(int, int)>::empty() })
        + (if x + 1 < self.n_cols { seq![(x + 1, y)] } else { Seq::<(int, int)>::empty() })
        + (if y + 1 < self.n_rows && 0 < x { seq![(x - 1, y + 1)] } else { Seq::<(int, int)>::empty() })
        + (if y + 1 < self.n_rows { seq![(x, y + 1)] } else { Seq::<(int, int)>::empty() })
        + (if y + 1 < self.n_rows && x + 1 < self.n_cols { seq![(x + 1, y + 1)] } else { Seq::<(int, int)>::empty() })
    }

    /// The cells stored for a sequence of coordinates.
    pub open spec fn cells_of_coords(self, ps: Seq<(int, int)>) -> Seq<RasterCell> {
        ps.map_values(|p: (int, int)| self.cell_at(p.0, p.1))
    }

    /// Every enumerated neighbor coordinate is on the grid and differs from
    /// the center.
    pub proof fn lemma_neighbour_coords_props(self, x: int, y: int)
        requires
            self.in_bounds(x, y),
        ensures
            forall|k: int| 0 <= k < self.neighbour_coords(x, y).len() ==> {
                &&& self.in_bounds(
                    (#[trigger] self.neighbour_coords(x, y)[k]).0,
                    self.neighbour_coords(x, y)[k].1,
                )
                &&& self.neighbour_coords(x, y)[k] != (x, y)
            },
    {
    }

    /// The Moore neighborhood of `(x, y)` clipped at the grid edges, as
    /// cells, in the order of [`Grid::neighbour_coords`].
    pub fn get_cell_neighbours(&self, x: usize, y: usize) -> (r: Vec<RasterCell>)
        requires
            self.in_bounds(x as int, y as int),
            self.cells@.len() == self.n_cols * self.n_rows,
        ensures
            r@ == self.cells_of_coords(self.neighbour_coords(x as int, y as int)),
    {
        let mut r: Vec<RasterCell> = Vec::new();
        if y > 0 {
            if x > 0 {
                r.push(self.get_cell(x - 1, y - 1));
            }
            r.push(self.get_cell(x, y - 1));
            if x + 1 < self.n_cols {
                r.push(self.get_cell(x + 1, y - 1));
            }
        }
        if x > 0 {
            r.push(self.get_cell(x - 1, y));
        }
        if x + 1 < self.n_cols {
            r.push(self.get_cell(x + 1, y));
        }
        if y + 1 < self.n_rows {
            if x > 0 {
                r.push(self.get_cell(x - 1, y + 1));
            }
            r.push(self.get_cell(x, y + 1));
            if x + 1 < self.n_cols {
                r.push(self.get_cell(x + 1, y + 1));
            }
        }
        proof {
            assert(r@ =~= self.cells_of_coords(self.neighbour_coords(x as int, y as int)));
        }
        r
    }

    /// The predicate that keeps an on-grid neighbor coordinate whose water
    /// level is strictly below the water level at `(x, y)`.  Enumerated
    /// neighbor coordinates are always on the grid, so the first conjunct
    /// never rejects one; it makes the predicate carry that fact.
    pub open spec fn lower_pred(self, x: int, y: int) -> spec_fn((int, int)) -> bool {
        |p: (int, int)|
            self.in_bounds(p.0, p.1)
                && self.cell_at(p.0, p.1).spec_water_level() < self.cell_at(x, y).spec_water_level()
    }

    /// The neighbor coordinates of `(x, y)` whose water level is strictly
    /// below the water level at `(x, y)`, in enumeration order.
    pub open spec fn lower_neighbour_coords(self, x: int, y: int) -> Seq<(int, int)> {
        self.neighbour_coords(x, y).filter(self.lower_pred(x, y))
    }

    /// The neighbors of `(x, y)` whose water level is strictly below the
    /// center's: the cells water may flow to.  If none qualifies the result
    /// is empty.
    pub fn get_cell_neighbours_with_lower_water_level(&self, x: usize, y: usize)
        -> (r: Vec<RasterCell>)
        requires
            self.dims_ok(),
            self.cells_ok(),
            self.in_bounds(x as int, y as int),
        ensures
            r@ == self.cells_of_coords(self.lower_neighbour_coords(x as int, y as int)),
    {
        let ghost cds = self.neighbour_coords(x as int, y as int);
        let ghost pred = self.lower_pred(x as int, y as int);
        let nbrs = self.get_cell_neighbours(x, y);
        let centre = self.get_cell(x, y);
        proof {
            lemma_flat_index_in_range(self.n_cols as int, self.n_rows as int, x as int, y as int);
            assert(centre.wf());
        }
        let centre_wl = centre.water_level();
        let mut r: Vec<RasterCell> = Vec::new();
        let mut i: usize = 0;
        proof {
            self.lemma_neighbour_coords_props(x as int, y as int);
            assert(cds.take(0) =~= Seq::<(int, int)>::empty());
        }
        while i < nbrs.len()
            invariant
                i <= nbrs@.len(),
                nbrs@ == self.cells_of_coords(cds),
                cds == self.neighbour_coords(x as int, y as int),
                pred == self.lower_pred(x as int, y as int),
                self.dims_ok(),
                self.cells_ok(),
                self.in_bounds(x as int, y as int),
                centre_wl == self.cell_at(x as int, y as int).spec_water_level(),
                forall|k: int| 0 <= k < cds.len() ==> self.in_bounds(
                    (#[trigger] cds[k]).0,
                    cds[k].1,
                ),
                r@ == self.cells_of_coords(cds.take(i as int).filter(pred)),
            decreases nbrs@.len() - i,
        {
            let n = nbrs[i];
            proof {
                lemma_flat_index_in_range(
                    self.n_cols as int,
                    self.n_rows as int,
                    cds[i as int].0,
                    cds[i as int].1,
                );
                assert(n == self.cell_at(cds[i as int].0, cds[i as int].1));
                assert(n.wf());
            }
            if n.water_level() < centre_wl {
                r.push(n);
            }
            proof {
                reveal(Seq::filter);
                assert(cds.take(i + 1).drop_last() =~= cds.take(i as int));
                assert(cds.take(i + 1).last() == cds[i as int]);
                if pred(cds[i as int]) {
                    assert(cds.take(i + 1).filter(pred)
                        =~= cds.take(i as int).filter(pred).push(cds[i as int]));
                    assert(r@ =~= self.cells_of_coords(cds.take(i + 1).filter(pred)));
                } else {
                    assert(cds.take(i + 1).filter(pred) =~= cds.take(i as int).filter(pred));
                }
            }
            i = i + 1;
        }
        proof {
            assert(cds.take(nbrs@.len() as int) =~= cds);
        }
        r
    }

    /// Deep value copy: the clone holds its own cells, equal to the
    /// original's, and the same dimensions and edge length.
    fn clone_cells(&self) -> (r: Vec<RasterCell>)
        ensures
            r@ == self.cells@,
    {
        let mut copied: Vec<RasterCell> = Vec::with_capacity(self.cells.len());
        let mut i: usize = 0;
        while i < self.cells.len()
            invariant
                i <= self.cells@.len(),
                copied@ =~= self.cells@.subrange(0, i as int),
            decreases self.cells@.len() - i,
        {
            copied.push(self.cells[i]);
            i = i + 1;
        }
        proof {
            assert(copied@ =~= self.cells@);
        }
        copied
    }
}

impl Clone for Grid {
    /// Deep value copy; equal grids produce equal clones.
    fn clone(&self) -> (r: Grid)
        ensures
            r.n_cols == self.n_cols,
            r.n_rows == self.n_rows,
            r.cell_size == self.cell_size,
            r.cells@ == self.cells@,
    {
        Grid {
            n_cols: self.n_cols,
            n_rows: self.n_rows,
            cell_size: self.cell_size,
            cells: self.clone_cells(),
        }
    }
}

/// A flattened index computed from in-bounds coordinates lands inside a
/// fully populated cell collection.
pub proof fn lemma_flat_index_in_range(n_cols: int, n_rows: int, x: int, y: int)
    requires
        0 <= x < n_cols,
        0 <= y < n_rows,
    ensures
        0 <= y * n_cols + x < n_cols * n_rows,
{
    assert(y * n_cols + x < n_cols * n_rows) by (nonlinear_arith)
        requires 0 <= x < n_cols, 0 <= y < n_rows;
    assert(0 <= y * n_cols) by (nonlinear_arith)
        requires 0 <= y, 0 < n_cols;
}

/// In a grid whose cells record their flattened position, the cell looked
/// up by coordinates records those coordinates.
pub proof fn lemma_cell_coords(g: Grid, x: int, y: int)
    requires
        g.dims_ok(),
        g.cells_ok(),
        g.in_bounds(x, y),
    ensures
        g.cell_at(x, y).x == x,
        g.cell_at(x, y).y == y,
{
    let n = g.n_cols as int;
    let i = y * n + x;
    lemma_flat_index_in_range(n, g.n_rows as int, x, y);
    assert(i % n == x && i / n == y) by (nonlinear_arith)
        requires 0 <= x < n, 0 <= y, i == y * n + x;
}

/// Every strictly-lower neighbor coordinate of `(x, y)` is on the grid,
/// differs from `(x, y)`, and names a cell whose water level is strictly
/// below the water level at `(x, y)`.
pub proof fn lemma_lower_neighbour_props(g: Grid, x: int, y: int)
    requires
        g.in_bounds(x, y),
    ensures
        forall|k: int| 0 <= k < g.lower_neighbour_coords(x, y).len() ==> {
            &&& g.in_bounds(
                (#[trigger] g.lower_neighbour_coords(x, y)[k]).0,
                g.lower_neighbour_coords(x, y)[k].1,
            )
            &&& g.lower_neighbour_coords(x, y)[k] != (x, y)
            &&& g.cell_at(
                g.lower_neighbour_coords(x, y)[k].0,
                g.lower_neighbour_coords(x, y)[k].1,
            ).spec_water_level() < g.cell_at(x, y).spec_water_level()
        },
{
    let cds = g.neighbour_coords(x, y);
    let pred = g.lower_pred(x, y);
    assert forall|k: int| 0 <= k < g.lower_neighbour_coords(x, y).len() implies {
        &&& g.in_bounds(g.lower_neighbour_coords(x, y)[k].0, g.lower_neighbour_coords(x, y)[k].1)
        &&& g.lower_neighbour_coords(x, y)[k] != (x, y)
        &&& g.cell_at(
            g.lower_neighbour_coords(x, y)[k].0,
            g.lower_neighbour_coords(x, y)[k].1,
        ).spec_water_level() < g.cell_at(x, y).spec_water_level()
    } by {
        cds.lemma_filter_pred(pred, k);
        assert(pred(g.lower_neighbour_coords(x, y)[k]));
    }
}

/// A cell read through its stored coordinates sits at the flattened index
/// those coordinates encode, and that index is the cell's own.
pub proof fn lemma_src_coords(g: Grid, j: int)
    requires
        g.dims_ok(),
        g.cells_ok(),
        0 <= j < g.cells@.len(),
    ensures
        g.in_bounds(g.cells@[j].x as int, g.cells@[j].y as int),
        (g.cells@[j].y as int) * g.n_cols + g.cells@[j].x == j,
{
    let n = g.n_cols as int;
    let m = g.n_rows as int;
    vstd::arithmetic::div_mod::lemma_mod_division_less_than_divisor(j, n);
    vstd::arithmetic::div_mod::lemma_fundamental_div_mod(j, n);
    vstd::arithmetic::div_mod::lemma_div_pos_is_pos(j, n);
    assert(j < n * m);
    assert(j / n < m) by {
        vstd::arithmetic::div_mod::lemma_div_is_ordered(j, n * m - 1, n);
        assert(n * m - 1 == (m - 1) * n + (n - 1)) by (nonlinear_arith);
        vstd::arithmetic::div_mod::lemma_fundamental_div_mod_converse(n * m - 1, n, m - 1, n - 1);
    }
    assert(g.cells@[j].x == j % n);
    assert(g.cells@[j].y == j / n);
    assert((g.cells@[j].y as int) * n + g.cells@[j].x == j) by {
        vstd::arithmetic::div_mod::lemma_fundamental_div_mod(j, n);
        assert(j == n * (j / n) + j % n);
        assert((j / n) * n == n * (j / n)) by (nonlinear_arith);
    }
}

impl PartialEq for Grid {
    /// Grids are equal when they have the same dimensions and every cell
    /// has identical position, elevation and depth.  Roughness and edge
    /// length are deliberately left out: they are simulation parameters,
    /// not part of the water state's identity.
    fn eq(&self, other: &Grid) -> (r: bool) {
        if self.n_cols != other.n_cols || self.n_rows != other.n_rows
            || self.cells.len() != other.cells.len() {
            return false;
        }
        let mut i: usize = 0;
        while i < self.cells.len()
            invariant
                i <= self.cells@.len(),
                self.cells@.len() == other.cells@.len(),
                self.n_cols == other.n_cols,
                self.n_rows == other.n_rows,
                forall|j: int| 0 <= j < i ==> {
                    &&& (#[trigger] self.cells@[j]).x == other.cells@[j].x
                    &&& self.cells@[j].y == other.cells@[j].y
                    &&& self.cells@[j].elevation == other.cells@[j].elevation
                    &&& self.cells@[j].depth == other.cells@[j].depth
                },
            decreases self.cells@.len() - i,
        {
            let a = self.cells[i];
            let b = other.cells[i];
            if a.x != b.x || a.y != b.y || a.elevation != b.elevation || a.depth != b.depth {
                return false;
            }
            i = i + 1;
        }
        true
    }
}

impl vstd::std_specs::cmp::PartialEqSpecImpl for Grid {
    open spec fn obeys_eq_spec() -> bool {
        true
    }

    open spec fn eq_spec(&self, other: &Grid) -> bool {
        &&& self.n_cols == other.n_cols
        &&& self.n_rows == other.n_rows
        &&& self.cells@.len() == other.cells@.len()
        &&& forall|j: int| 0 <= j < self.cells@.len() ==> {
            &&& (#[trigger] self.cells@[j]).x == other.cells@[j].x
            &&& self.cells@[j].y == other.cells@[j].y
            &&& self.cells@[j].elevation == other.cells@[j].elevation
            &&& self.cells@[j].depth == other.cells@[j].depth
        }
    }
}

} // verus!
