//! The per-timestep update: double-buffered redistribution of water along
//! downhill water-level gradients, with a local conservation clamp.
//!
//! [`Simulation::advance_by_timestep`] snapshots the live grid into the
//! buffer grid, computes for every cell the depth it sends to each
//! strictly-lower neighbor from the snapshot alone, clamps the total
//! outflow of a cell to the depth the cell held in the snapshot, and applies
//! the deltas to the live grid.  Its contract gives the new depth of every
//! cell exactly, as `snapshot depth - outflow + inflow` over the spec
//! functions below, and states the two central invariants: no depth ever
//! becomes negative, and the total depth over the grid (hence the total
//! water volume) is conserved exactly.

use vstd::prelude::*;
use vstd::arithmetic::div_mod::{
    lemma_div_is_ordered, lemma_div_multiples_vanish, lemma_div_pos_is_pos,
    lemma_fundamental_div_mod, lemma_mod_division_less_than_divisor,
};
use crate::fixed::{lemma_muldiv_bound, mul_div, SCALE, TIMESTEP_LIMIT, DEPTH_LIMIT};
use crate::grid::{
    lemma_cell_coords, lemma_flat_index_in_range, lemma_lower_neighbour_props, lemma_src_coords,
    lemma_sum_depths_elem, lemma_sum_depths_update, sum_depths, Grid,
};
use crate::hydraulics::{
    flow, hydraulic_slope, spec_flow, spec_hydraulic_slope, FLOW_LIMIT, SLOPE_LIMIT,
};
use crate::rastercell::RasterCell;

verus! {

/// Sum of a sequence of integers.
pub open spec fn sum_ints(s: Seq<int>) -> int
    decreases s.len(),
{
    if s.len() == 0 {
        0
    } else {
        sum_ints(s.drop_last()) + s.last()
    }
}

/// A sum of nonnegative integers is nonnegative.
pub proof fn lemma_sum_ints_nonneg(s: Seq<int>)
    requires
        forall|k: int| 0 <= k < s.len() ==> 0 <= #[trigger] s[k],
    ensures
        0 <= sum_ints(s),
    decreases s.len(),
{
    if s.len() > 0 {
        lemma_sum_ints_nonneg(s.drop_last());
    }
}

/// When all entries are nonnegative, each is at most the sum.
pub proof fn lemma_sum_ints_elem(s: Seq<int>, i: int)
    requires
        forall|k: int| 0 <= k < s.len() ==> 0 <= #[trigger] s[k],
        0 <= i < s.len(),
    ensures
        s[i] <= sum_ints(s),
    decreases s.len(),
{
    if i == s.len() - 1 {
        lemma_sum_ints_nonneg(s.drop_last());
    } else {
        lemma_sum_ints_elem(s.drop_last(), i);
    }
}

/// A sum of zeros is zero.
pub proof fn lemma_sum_ints_zero(s: Seq<int>)
    requires
        forall|k: int| 0 <= k < s.len() ==> #[trigger] s[k] == 0,
    ensures
        sum_ints(s) == 0,
    decreases s.len(),
{
    if s.len() > 0 {
        lemma_sum_ints_zero(s.drop_last());
    }
}

/// Floor division distributes over addition with a deficit:
/// `x / v + y / v <= (x + y) / v` for nonnegative operands.
pub proof fn lemma_div_add_le(x: int, y: int, v: int)
    requires
        0 <= x,
        0 <= y,
        0 < v,
    ensures
        x / v + y / v <= (x + y) / v,
{
    lemma_fundamental_div_mod(x, v);
    lemma_fundamental_div_mod(y, v);
    lemma_mod_division_less_than_divisor(x, v);
    lemma_mod_division_less_than_divisor(y, v);
    let q = x / v + y / v;
    assert(v * (x / v + y / v) == v * (x / v) + v * (y / v)) by (nonlinear_arith);
    assert(v * q <= x + y);
    lemma_div_is_ordered(v * q, x + y, v);
    lemma_div_multiples_vanish(q, v);
}

/// Scaling each entry of a nonnegative sequence by `c / v` (with floor
/// division) keeps the total at or below the scaled total.
pub proof fn lemma_sum_ints_scaled(s: Seq<int>, t: Seq<int>, c: int, v: int)
    requires
        s.len() == t.len(),
        forall|k: int| 0 <= k < s.len() ==> 0 <= #[trigger] s[k],
        forall|k: int| 0 <= k < t.len() ==> #[trigger] t[k] == s[k] * c / v,
        0 <= c,
        0 < v,
    ensures
        sum_ints(t) <= sum_ints(s) * c / v,
    decreases s.len(),
{
    if s.len() == 0 {
        lemma_div_pos_is_pos(0, v);
    } else {
        let s1 = s.drop_last();
        let t1 = t.drop_last();
        lemma_sum_ints_scaled(s1, t1, c, v);
        lemma_sum_ints_nonneg(s1);
        assert(0 <= sum_ints(s1) * c && 0 <= s.last() * c) by (nonlinear_arith)
            requires 0 <= sum_ints(s1), 0 <= s.last(), 0 <= c;
        lemma_div_add_le(sum_ints(s1) * c, s.last() * c, v);
        assert(sum_ints(s1) * c + s.last() * c == sum_ints(s) * c) by (nonlinear_arith)
            requires sum_ints(s1) + s.last() == sum_ints(s);
    }
}

/// A nonnegative value scaled down by `c / v` with `a <= v` stays at or
/// below `c`.
pub proof fn lemma_scaled_le(a: int, c: int, v: int)
    requires
        0 <= a <= v,
        0 <= c,
        0 < v,
    ensures
        0 <= a * c / v <= c,
{
    assert(0 <= a * c && a * c <= v * c) by (nonlinear_arith)
        requires 0 <= a <= v, 0 <= c;
    lemma_div_pos_is_pos(a * c, v);
    lemma_div_is_ordered(a * c, v * c, v);
    lemma_div_multiples_vanish(c, v);
}

/// A prefix sum of a nonnegative sequence is at most the full sum.
pub proof fn lemma_sum_ints_take_le(s: Seq<int>, m: int)
    requires
        forall|k: int| 0 <= k < s.len() ==> 0 <= #[trigger] s[k],
        0 <= m <= s.len(),
    ensures
        sum_ints(s.take(m)) <= sum_ints(s),
    decreases s.len(),
{
    if m == s.len() {
        assert(s.take(m) =~= s);
    } else {
        assert(s.take(m) =~= s.drop_last().take(m));
        lemma_sum_ints_take_le(s.drop_last(), m);
    }
}

/// The coordinates of the strictly-lower neighbors of the cell at
/// flattened index `j` of grid `g`, in enumeration order.
pub open spec fn lower_coords(g: Grid, j: int) -> Seq<(int, int)> {
    g.lower_neighbour_coords(g.cells@[j].x as int, g.cells@[j].y as int)
}

/// The `k`-th strictly-lower neighbor cell of the cell at index `j`.
pub open spec fn nbr_cell(g: Grid, j: int, k: int) -> RasterCell {
    g.cell_at(lower_coords(g, j)[k].0, lower_coords(g, j)[k].1)
}

/// The flattened index of the `k`-th strictly-lower neighbor of the cell at
/// index `j`.
pub open spec fn nbr_index(g: Grid, j: int, k: int) -> int {
    lower_coords(g, j)[k].1 * g.n_cols + lower_coords(g, j)[k].0
}

/// The hydraulic slope from the cell at index `j` to its `k`-th
/// strictly-lower neighbor.
pub open spec fn slope_to(g: Grid, j: int, k: int) -> int {
    spec_hydraulic_slope(g.cells@[j], nbr_cell(g, j, k), g.cell_size)
}

/// All slopes from the cell at index `j` to its strictly-lower neighbors.
pub open spec fn slopes_of(g: Grid, j: int) -> Seq<int> {
    Seq::new(lower_coords(g, j).len(), |k: int| slope_to(g, j, k))
}

/// The normalization total of the slopes out of the cell at index `j`.
pub open spec fn slope_total(g: Grid, j: int) -> int {
    sum_ints(slopes_of(g, j))
}

/// The unclamped depth (fixed-point meters) the cell at index `j` would
/// send to its `k`-th strictly-lower neighbor over timestep `dt`: the flow
/// rate to that neighbor, weighted by the neighbor's share of the slope
/// total, times the timestep, divided by the cell footprint.
pub open spec fn raw_delta(g: Grid, dt: i64, j: int, k: int) -> int {
    let fl = spec_flow(g.cells@[j], nbr_cell(g, j, k), g.cell_size);
    let share = slope_to(g, j, k) * SCALE / slope_total(g, j);
    let f1 = fl * share / (SCALE as int);
    let vol = f1 * dt / (SCALE as int);
    vol * SCALE * SCALE / (g.cell_size * g.cell_size)
}

/// All unclamped outgoing depths of the cell at index `j`.
pub open spec fn raw_deltas(g: Grid, dt: i64, j: int) -> Seq<int> {
    Seq::new(lower_coords(g, j).len(), |k: int| raw_delta(g, dt, j, k))
}

/// The unclamped total outgoing depth of the cell at index `j`.
pub open spec fn raw_total(g: Grid, dt: i64, j: int) -> int {
    sum_ints(raw_deltas(g, dt, j))
}

/// The depth actually sent from the cell at index `j` to its `k`-th
/// strictly-lower neighbor: zero when the slope total vanishes, the
/// unclamped depth when the total outgoing depth fits in the cell, and the
/// proportionally scaled-down depth otherwise (the conservation clamp).
pub open spec fn sent_delta(g: Grid, dt: i64, j: int, k: int) -> int {
    if slope_total(g, j) == 0 {
        0
    } else if raw_total(g, dt, j) <= g.cells@[j].depth {
        raw_delta(g, dt, j, k)
    } else {
        raw_delta(g, dt, j, k) * g.cells@[j].depth / raw_total(g, dt, j)
    }
}

/// All outgoing depths of the cell at index `j`, after the clamp.
pub open spec fn sent_deltas(g: Grid, dt: i64, j: int) -> Seq<int> {
    Seq::new(lower_coords(g, j).len(), |k: int| sent_delta(g, dt, j, k))
}

/// The total depth the cell at index `j` loses in one step.
pub open spec fn outflow(g: Grid, dt: i64, j: int) -> int {
    sum_ints(sent_deltas(g, dt, j))
}

/// The depth the cell at index `i` receives from the first `m`
/// strictly-lower neighbors of the cell at index `j`.
pub open spec fn sent_to_upto(g: Grid, dt: i64, j: int, i: int, m: int) -> int
    decreases m,
{
    if m <= 0 {
        0
    } else {
        sent_to_upto(g, dt, j, i, m - 1)
            + if nbr_index(g, j, m - 1) == i {
                sent_delta(g, dt, j, m - 1)
            } else {
                0
            }
    }
}

/// The depth the cell at index `i` receives from the cell at index `j`.
pub open spec fn sent_to(g: Grid, dt: i64, j: int, i: int) -> int {
    sent_to_upto(g, dt, j, i, lower_coords(g, j).len() as int)
}

/// The depth the cell at index `i` receives from the first `jm` cells.
pub open spec fn inflow_upto(g: Grid, dt: i64, i: int, jm: int) -> int
    decreases jm,
{
    if jm <= 0 {
        0
    } else {
        inflow_upto(g, dt, i, jm - 1) + sent_to(g, dt, jm - 1, i)
    }
}

/// The total depth the cell at index `i` gains in one step.
pub open spec fn inflow(g: Grid, dt: i64, i: int) -> int {
    inflow_upto(g, dt, i, g.cells@.len() as int)
}

/// Each term the cell at index `i` receives from the cell at index `j` is
/// one of the nonnegative sent amounts, so the received total is
/// nonnegative.
pub proof fn lemma_sent_to_upto_nonneg(g: Grid, dt: i64, j: int, i: int, m: int)
    requires
        forall|k: int| 0 <= k < m ==> 0 <= #[trigger] sent_delta(g, dt, j, k),
    ensures
        0 <= sent_to_upto(g, dt, j, i, m),
    decreases m,
{
    if m > 0 {
        lemma_sent_to_upto_nonneg(g, dt, j, i, m - 1);
    }
}

/// A cell whose slope total vanishes sends nothing anywhere.
pub proof fn lemma_sent_to_upto_zero(g: Grid, dt: i64, j: int, i: int, m: int)
    requires
        slope_total(g, j) == 0,
    ensures
        sent_to_upto(g, dt, j, i, m) == 0,
    decreases m,
{
    if m > 0 {
        lemma_sent_to_upto_zero(g, dt, j, i, m - 1);
    }
}

/// A cell whose slope total vanishes has zero outflow and sends nothing to
/// any cell.
pub proof fn lemma_zero_outflow(g: Grid, dt: i64, j: int)
    requires
        slope_total(g, j) == 0,
    ensures
        outflow(g, dt, j) == 0,
        forall|i: int| #[trigger] sent_to(g, dt, j, i) == 0,
{
    lemma_sum_ints_zero(sent_deltas(g, dt, j));
    assert forall|i: int| #[trigger] sent_to(g, dt, j, i) == 0 by {
        lemma_sent_to_upto_zero(g, dt, j, i, lower_coords(g, j).len() as int);
    }
}

/// Two grids hold the same dimensions, edge length and cells.
pub open spec fn grids_match(a: Grid, b: Grid) -> bool {
    &&& a.n_cols == b.n_cols
    &&& a.n_rows == b.n_rows
    &&& a.cell_size == b.cell_size
    &&& a.cells@ == b.cells@
}

/// How one timestep relates the live grid after the step (`post`) to the
/// snapshot it was computed from (`snap`): dimensions, positions, terrain
/// and roughness are untouched; every cell's new depth is its snapshot
/// depth minus its outflow plus its inflow, exactly; no cell sends more
/// than it held in the snapshot; inflows are nonnegative; and the total
/// depth is conserved exactly.
pub open spec fn step_rel(snap: Grid, post: Grid, dt: i64) -> bool {
    &&& post.n_cols == snap.n_cols
    &&& post.n_rows == snap.n_rows
    &&& post.cell_size == snap.cell_size
    &&& post.cells@.len() == snap.cells@.len()
    &&& forall|i: int| 0 <= i < snap.cells@.len() ==> {
        &&& (#[trigger] post.cells@[i]).x == snap.cells@[i].x
        &&& post.cells@[i].y == snap.cells@[i].y
        &&& post.cells@[i].elevation == snap.cells@[i].elevation
        &&& post.cells@[i].kst == snap.cells@[i].kst
    }
    &&& forall|i: int| 0 <= i < snap.cells@.len() ==> (#[trigger] post.cells@[i]).depth
        == snap.cells@[i].depth - outflow(snap, dt, i) + inflow(snap, dt, i)
    &&& forall|i: int| 0 <= i < snap.cells@.len()
        ==> 0 <= #[trigger] outflow(snap, dt, i) <= snap.cells@[i].depth
    &&& forall|i: int| 0 <= i < snap.cells@.len() ==> 0 <= #[trigger] inflow(snap, dt, i)
    &&& sum_depths(post.cells@) == sum_depths(snap.cells@)
}

/// Every cell of the grid stands at one common water level.
pub open spec fn uniform_water_level(g: Grid) -> bool {
    forall|i1: int, i2: int| 0 <= i1 < g.cells@.len() && 0 <= i2 < g.cells@.len()
        ==> (#[trigger] g.cells@[i1]).spec_water_level()
            == (#[trigger] g.cells@[i2]).spec_water_level()
}

/// A cell that sends nothing to `i` in any round leaves `i`'s inflow at
/// zero.
pub proof fn lemma_inflow_upto_zero(g: Grid, dt: i64, i: int, m: int)
    requires
        forall|j: int| 0 <= j < m ==> #[trigger] sent_to(g, dt, j, i) == 0,
    ensures
        inflow_upto(g, dt, i, m) == 0,
    decreases m,
{
    if m > 0 {
        lemma_inflow_upto_zero(g, dt, i, m - 1);
    }
}

/// Filtering by a predicate no element satisfies leaves nothing.
pub proof fn lemma_filter_all_false(s: Seq<(int, int)>, pred: spec_fn((int, int)) -> bool)
    requires
        forall|t: int| 0 <= t < s.len() ==> !#[trigger] pred(s[t]),
    ensures
        s.filter(pred).len() == 0,
    decreases s.len(),
{
    reveal(Seq::filter);
    if s.len() > 0 {
        assert(!pred(s.last()));
        lemma_filter_all_false(s.drop_last(), pred);
    }
}

/// On a grid with one common water level no cell has a strictly-lower
/// neighbor, so no cell has an effective gradient.
pub proof fn lemma_uniform_no_gradient(g: Grid, j: int)
    requires
        g.wf(),
        uniform_water_level(g),
        0 <= j < g.cells@.len(),
    ensures
        lower_coords(g, j).len() == 0,
        slope_total(g, j) == 0,
{
    lemma_src_coords(g, j);
    let x = g.cells@[j].x as int;
    let y = g.cells@[j].y as int;
    let cds = g.neighbour_coords(x, y);
    let pred = g.lower_pred(x, y);
    assert forall|t: int| 0 <= t < cds.len() implies !#[trigger] pred(cds[t]) by {
        let p = cds[t];
        if g.in_bounds(p.0, p.1) {
            lemma_flat_index_in_range(g.n_cols as int, g.n_rows as int, p.0, p.1);
            assert(g.cell_at(p.0, p.1) == g.cells@[p.1 * g.n_cols + p.0]);
            assert(g.cell_at(x, y) == g.cells@[j]);
            assert(g.cells@[p.1 * g.n_cols + p.0].spec_water_level()
                == g.cells@[j].spec_water_level());
        }
    }
    lemma_filter_all_false(cds, pred);
    assert(slopes_of(g, j).len() == 0);
}

/// On a flat grid — one common water level across all cells — a timestep
/// changes nothing: no cell has a downhill neighbor, so no water moves.
pub proof fn lemma_flat_grid_step_is_identity(snap: Grid, post: Grid, dt: i64)
    requires
        snap.wf(),
        uniform_water_level(snap),
        step_rel(snap, post, dt),
    ensures
        forall|i: int| 0 <= i < snap.cells@.len()
            ==> #[trigger] post.cells@[i] == snap.cells@[i],
{
    assert forall|i: int| 0 <= i < snap.cells@.len()
        implies #[trigger] post.cells@[i] == snap.cells@[i] by {
        lemma_uniform_no_gradient(snap, i);
        lemma_zero_outflow(snap, dt, i);
        assert forall|j: int| 0 <= j < snap.cells@.len()
            implies #[trigger] sent_to(snap, dt, j, i) == 0 by {
            lemma_uniform_no_gradient(snap, j);
            lemma_zero_outflow(snap, dt, j);
        }
        lemma_inflow_upto_zero(snap, dt, i, snap.cells@.len() as int);
        assert(inflow(snap, dt, i) == 0);
        assert(outflow(snap, dt, i) == 0);
    }
}

/// On a two-cell grid whose first cell stands strictly above the second,
/// one timestep moves water only from the first to the second: the higher
/// cell cannot gain and the lower cell cannot lose, while the total depth
/// stays constant (a clause of [`step_rel`]).
pub proof fn lemma_two_cell_redistribution(snap: Grid, post: Grid, dt: i64)
    requires
        snap.wf(),
        step_rel(snap, post, dt),
        snap.n_cols == 2,
        snap.n_rows == 1,
        snap.cells@[0].spec_water_level() > snap.cells@[1].spec_water_level(),
    ensures
        post.cells@[0].depth <= snap.cells@[0].depth,
        post.cells@[1].depth >= snap.cells@[1].depth,
        sum_depths(post.cells@) == sum_depths(snap.cells@),
{
    reveal(Seq::filter);
    assert(snap.cells@.len() == 2);
    lemma_src_coords(snap, 0);
    lemma_src_coords(snap, 1);
    assert(snap.cells@[0].x == 0 && snap.cells@[0].y == 0);
    assert(snap.cells@[1].x == 1 && snap.cells@[1].y == 0);
    assert(snap.cell_at(0, 0) == snap.cells@[0]);
    assert(snap.cell_at(1, 0) == snap.cells@[1]);

    // The lower cell's only neighbor is the higher cell, so it has no
    // strictly-lower neighbor and sends nothing.
    let cds1 = snap.neighbour_coords(1, 0);
    assert(cds1 =~= seq![(0int, 0int)]);
    let pred1 = snap.lower_pred(1, 0);
    assert(!pred1((0int, 0int)));
    assert(lower_coords(snap, 1) =~= Seq::<(int, int)>::empty());
    assert(slopes_of(snap, 1).len() == 0);
    assert(slope_total(snap, 1) == 0);
    lemma_zero_outflow(snap, dt, 1);

    // The higher cell's only strictly-lower neighbor is the lower cell, so
    // nothing flows back to the higher cell.
    let cds0 = snap.neighbour_coords(0, 0);
    assert(cds0 =~= seq![(1int, 0int)]);
    let pred0 = snap.lower_pred(0, 0);
    assert(pred0((1int, 0int)));
    assert(lower_coords(snap, 0) =~= seq![(1int, 0int)]);
    assert(nbr_index(snap, 0, 0) == 1);
    assert(sent_to(snap, dt, 0, 0) == sent_to_upto(snap, dt, 0, 0, 1));
    assert(sent_to_upto(snap, dt, 0, 0, 0) == 0);
    assert(sent_to_upto(snap, dt, 0, 0, 1) == 0);
    assert(inflow(snap, dt, 0) == inflow_upto(snap, dt, 0, 2));
    assert(inflow_upto(snap, dt, 0, 0) == 0);
    assert(inflow_upto(snap, dt, 0, 1)
        == inflow_upto(snap, dt, 0, 0) + sent_to(snap, dt, 0, 0));
    assert(inflow_upto(snap, dt, 0, 2)
        == inflow_upto(snap, dt, 0, 1) + sent_to(snap, dt, 1, 0));
    assert(inflow(snap, dt, 0) == 0);
}

/// Owns the live grid (the authoritative state) and a buffer grid that is
/// overwritten with a snapshot of the live grid at the start of every
/// timestep.
pub struct Simulation {
    pub grid: Grid,
    pub buffer_grid: Grid,
}


/// The depths the cell at snapshot index `jj` sends to each of its
/// strictly-lower neighbors over one timestep, after the conservation
/// clamp, together with their total: exactly the sent amounts of the spec
/// functions above.  When the cell has no downhill neighbor with an
/// effective gradient every entry is zero.
#[verifier::loop_isolation(false)]
#[verifier::rlimit(100)]
fn transfer_amounts(
    cell: RasterCell,
    neighbours: &Vec<RasterCell>,
    cs: i64,
    dt: i64,
    Ghost(bg): Ghost<Grid>,
    Ghost(jj): Ghost<int>,
) -> (r: (Vec<i64>, i64))
    requires
        bg.wf(),
        0 <= jj < bg.cells@.len(),
        cell == bg.cells@[jj],
        cs == bg.cell_size,
        0 <= dt <= TIMESTEP_LIMIT,
        neighbours@ == bg.cells_of_coords(lower_coords(bg, jj)),
        bg.in_bounds(cell.x as int, cell.y as int),
        (cell.y as int) * bg.n_cols + cell.x == jj,
    ensures
        r.0@.len() == lower_coords(bg, jj).len(),
        forall|t: int| 0 <= t < r.0@.len()
            ==> #[trigger] r.0@[t] as int == sent_delta(bg, dt, jj, t),
        forall|t: int| 0 <= t < r.0@.len() ==> 0 <= #[trigger] r.0@[t] <= cell.depth,
        r.1 == outflow(bg, dt, jj),
        0 <= r.1 <= cell.depth,
{
    let ghost x = cell.x as int;
    let ghost y = cell.y as int;
    let ghost lnc = lower_coords(bg, jj);
    let n_nb = neighbours.len();
    proof {
        lemma_lower_neighbour_props(bg, x, y);
        assert(bg.neighbour_coords(x, y).len() <= 8);
        bg.neighbour_coords(x, y).lemma_filter_len(bg.lower_pred(x, y));
        assert(lnc.len() == n_nb);
        assert(n_nb <= 8);
        assert(forall|t: int| 0 <= t < n_nb
            ==> #[trigger] neighbours@[t] == nbr_cell(bg, jj, t));
        assert(bg.cell_at(x, y) == cell);
        assert(cell.wf());
    }

    // Maximum flows and slopes toward each strictly-lower neighbor.
    let mut slopes: Vec<i64> = Vec::new();
    let mut flows: Vec<i64> = Vec::new();
    let mut ssum: i64 = 0;
    let mut k: usize = 0;
    while k < n_nb
        invariant
            k <= n_nb,
            slopes@.len() == k,
            flows@.len() == k,
            forall|t: int| 0 <= t < k ==> #[trigger] slopes@[t] == slope_to(bg, jj, t),
            forall|t: int| 0 <= t < k ==> 0 <= #[trigger] slopes@[t] <= SLOPE_LIMIT,
            forall|t: int| 0 <= t < k ==> #[trigger] flows@[t]
                == spec_flow(bg.cells@[jj], nbr_cell(bg, jj, t), bg.cell_size),
            forall|t: int| 0 <= t < k ==> 0 <= #[trigger] flows@[t] <= FLOW_LIMIT,
            ssum == sum_ints(slopes_of(bg, jj).take(k as int)),
            0 <= ssum <= k * SLOPE_LIMIT,
        decreases n_nb - k,
    {
        let nb = neighbours[k];
        proof {
            assert(nb == nbr_cell(bg, jj, k as int));
            lemma_flat_index_in_range(bg.n_cols as int, bg.n_rows as int,
                lnc[k as int].0, lnc[k as int].1);
            assert(nb.wf());
        }
        let s = hydraulic_slope(&cell, &nb, cs);
        let f = flow(&cell, &nb, cs);
        slopes.push(s);
        flows.push(f);
        proof {
            let so = slopes_of(bg, jj);
            assert(so.take(k + 1).drop_last() =~= so.take(k as int));
            assert(so.take(k + 1).last() == slope_to(bg, jj, k as int));
        }
        ssum = ssum + s;
        k = k + 1;
    }
    proof {
        assert(slopes_of(bg, jj).take(n_nb as int) =~= slopes_of(bg, jj));
        assert(ssum == slope_total(bg, jj));
    }

    if ssum == 0 {
        // No downhill neighbor, or no effective gradient at fixed-point
        // precision: nothing is sent.
        proof {
            lemma_zero_outflow(bg, dt, jj);
        }
        let mut sent: Vec<i64> = Vec::new();
        let mut k: usize = 0;
        while k < n_nb
            invariant
                k <= n_nb,
                sent@.len() == k,
                forall|t: int| 0 <= t < k ==> #[trigger] sent@[t] == 0,
            decreases n_nb - k,
        {
            sent.push(0);
            k = k + 1;
        }
        proof {
            assert(cell.depth >= 0);
            assert forall|t: int| 0 <= t < sent@.len() implies
                #[trigger] sent@[t] as int == sent_delta(bg, dt, jj, t) by {
                assert(sent_delta(bg, dt, jj, t) == 0);
            }
        }
        return (sent, 0);
    }

    // Candidate depth deltas: flow, weighted by the neighbor's share of the
    // slope total, over the timestep, per cell footprint.
    let ghost rdl = raw_deltas(bg, dt, jj);
    let mut raw: Vec<u128> = Vec::new();
    let mut rsum: u128 = 0;
    let mut k: usize = 0;
    while k < n_nb
        invariant
            k <= n_nb,
            raw@.len() == k,
            ssum != 0,
            forall|t: int| 0 <= t < k ==> #[trigger] raw@[t] as int
                == raw_delta(bg, dt, jj, t),
            forall|t: int| 0 <= t < k
                ==> #[trigger] raw@[t] <= 3_300_000_000_000_000_000_000u128,
            rsum == sum_ints(rdl.take(k as int)),
            rsum <= k * 3_300_000_000_000_000_000_000u128,
        decreases n_nb - k,
    {
        proof {
            assert forall|t: int| 0 <= t < slopes_of(bg, jj).len()
                implies 0 <= #[trigger] slopes_of(bg, jj)[t] by {
                assert(0 <= slopes@[t]);
            }
            lemma_sum_ints_elem(slopes_of(bg, jj), k as int);
            assert(slopes@[k as int] <= ssum);
            lemma_muldiv_bound(slopes@[k as int] as int, SLOPE_LIMIT as int,
                SCALE as int, SCALE as int, ssum as int, 1);
            lemma_scaled_le(slopes@[k as int] as int, SCALE as int, ssum as int);
        }
        let share = mul_div(slopes[k], SCALE, ssum);
        proof {
            lemma_muldiv_bound(flows@[k as int] as int, FLOW_LIMIT as int,
                share as int, SCALE as int, SCALE as int, SCALE as int);
            vstd::arithmetic::div_mod::lemma_div_by_multiple(
                FLOW_LIMIT as int, SCALE as int);
        }
        let f1 = mul_div(flows[k], share, SCALE);
        proof {
            assert(f1 * dt <= FLOW_LIMIT * TIMESTEP_LIMIT && 0 <= f1 * dt)
                by (nonlinear_arith)
                requires 0 <= f1 <= FLOW_LIMIT, 0 <= dt <= TIMESTEP_LIMIT;
        }
        let volp: u128 = (f1 as u128) * (dt as u128) / (SCALE as u128);
        proof {
            lemma_muldiv_bound(f1 as int, FLOW_LIMIT as int, dt as int,
                TIMESTEP_LIMIT as int, SCALE as int, SCALE as int);
            assert(volp as int == f1 * dt / (SCALE as int));
            assert(volp <= 3_300_000_000_000_000_000_000u128);
            assert(volp * (SCALE as u128) * (SCALE as u128)
                <= 3_300_000_000_000_000_000_000_000_000_000_000u128)
                by (nonlinear_arith)
                requires volp <= 3_300_000_000_000_000_000_000u128, SCALE == 1_000_000;
            assert((cs as u128) * (cs as u128) >= 1_000_000_000_000u128
                && (cs as u128) * (cs as u128) <= 10_000_000_000_000_000u128)
                by (nonlinear_arith)
                requires 1_000_000 <= cs <= 100_000_000;
        }
        let d: u128 = volp * (SCALE as u128) * (SCALE as u128)
            / ((cs as u128) * (cs as u128));
        proof {
            lemma_muldiv_bound((volp * (SCALE as u128)) as int,
                3_300_000_000_000_000_000_000_000_000, SCALE as int, SCALE as int,
                (cs as int) * (cs as int), 1_000_000_000_000);
            assert(d as int == raw_delta(bg, dt, jj, k as int));
            assert(d <= 3_300_000_000_000_000_000_000u128);
            assert(rdl.take(k + 1).drop_last() =~= rdl.take(k as int));
            assert(rdl.take(k + 1).last() == raw_delta(bg, dt, jj, k as int));
        }
        raw.push(d);
        rsum = rsum + d;
        k = k + 1;
    }
    proof {
        assert(rdl.take(n_nb as int) =~= rdl);
        assert(rsum as int == raw_total(bg, dt, jj));
        assert forall|t: int| 0 <= t < rdl.len() implies 0 <= #[trigger] rdl[t] by {
            assert(raw@[t] as int == raw_delta(bg, dt, jj, t));
        }
    }

    // Conservation clamp: never send more depth than the cell held in the
    // snapshot.
    let ghost sdl = sent_deltas(bg, dt, jj);
    let du: u128 = cell.depth as u128;
    let clamp = rsum > du;
    let mut sent: Vec<i64> = Vec::new();
    let mut ssent: i64 = 0;
    let mut k: usize = 0;
    while k < n_nb
        invariant
            k <= n_nb,
            raw@.len() == n_nb,
            sent@.len() == k,
            ssum != 0,
            rsum as int == raw_total(bg, dt, jj),
            clamp == (rsum > du),
            du == cell.depth as u128,
            forall|t: int| 0 <= t < n_nb ==> #[trigger] raw@[t] as int
                == raw_delta(bg, dt, jj, t),
            forall|t: int| 0 <= t < n_nb
                ==> #[trigger] raw@[t] <= 3_300_000_000_000_000_000_000u128,
            forall|t: int| 0 <= t < k ==> #[trigger] sent@[t] as int
                == sent_delta(bg, dt, jj, t),
            forall|t: int| 0 <= t < k ==> 0 <= #[trigger] sent@[t] <= cell.depth,
            ssent == sum_ints(sdl.take(k as int)),
            0 <= ssent <= k * DEPTH_LIMIT,
        decreases n_nb - k,
    {
        proof {
            assert forall|t: int| 0 <= t < rdl.len() implies 0 <= #[trigger] rdl[t] by {
                assert(raw@[t] as int == raw_delta(bg, dt, jj, t));
            }
            lemma_sum_ints_elem(rdl, k as int);
            assert(raw@[k as int] as int <= rsum as int);
        }
        let d_t: i64;
        if clamp {
            proof {
                assert(raw@[k as int] * du <= 3_300_000_000_000_000_000_000u128
                    * 1_000_000_000u128) by (nonlinear_arith)
                    requires
                        raw@[k as int] <= 3_300_000_000_000_000_000_000u128,
                        du <= 1_000_000_000u128;
                lemma_scaled_le(raw@[k as int] as int, du as int, rsum as int);
            }
            d_t = ((raw[k] * du) / rsum) as i64;
        } else {
            d_t = raw[k] as i64;
        }
        proof {
            assert(d_t as int == sent_delta(bg, dt, jj, k as int));
            assert(sdl.take(k + 1).drop_last() =~= sdl.take(k as int));
            assert(sdl.take(k + 1).last() == sent_delta(bg, dt, jj, k as int));
        }
        sent.push(d_t);
        ssent = ssent + d_t;
        k = k + 1;
    }
    proof {
        assert(sdl.take(n_nb as int) =~= sdl);
        assert(ssent == outflow(bg, dt, jj));
        if clamp {
            assert forall|t: int| 0 <= t < sdl.len() implies #[trigger] sdl[t]
                == rdl[t] * (cell.depth as int) / (rsum as int) by {
                assert(rdl[t] == raw_delta(bg, dt, jj, t));
                assert(sdl[t] == sent_delta(bg, dt, jj, t));
            }
            assert forall|t: int| 0 <= t < rdl.len() implies 0 <= #[trigger] rdl[t] by {
                assert(raw@[t] as int == raw_delta(bg, dt, jj, t));
            }
            lemma_sum_ints_scaled(rdl, sdl, cell.depth as int, rsum as int);
            assert(sum_ints(rdl) * (cell.depth as int) / (rsum as int)
                == cell.depth as int) by {
                lemma_div_multiples_vanish(cell.depth as int, rsum as int);
                assert(sum_ints(rdl) == rsum as int);
            }
        } else {
            assert(sdl =~= rdl);
        }
        assert(ssent <= cell.depth);
    }
    (sent, ssent)
}

impl Simulation {
    /// Wrap an initial grid; the buffer starts as a copy of it.
    pub fn new(grid: Grid) -> (r: Simulation)
        ensures
            r.grid == grid,
            grids_match(r.buffer_grid, grid),
    {
        let cloned_grid = grid.clone();
        Simulation { grid, buffer_grid: cloned_grid }
    }

    /// One explicit timestep: snapshot the live grid into the buffer, then,
    /// for every cell of the snapshot, route water to its strictly-lower
    /// neighbors in proportion to the slopes, clamp the cell's total
    /// outflow to the depth it held in the snapshot, and apply the deltas
    /// to the live grid.
    ///
    /// The contract pins the result exactly: the buffer equals the pre-step
    /// live grid, and the live grid relates to that snapshot by
    /// [`step_rel`] — every new depth is `snapshot - outflow + inflow`, no
    /// depth goes negative, and the total depth (hence the total water
    /// volume) is conserved exactly.
    #[verifier::loop_isolation(false)]
    #[verifier::rlimit(100)]
    pub fn advance_by_timestep(&mut self, timestep: i64)
        requires
            old(self).grid.wf(),
            0 <= timestep <= TIMESTEP_LIMIT,
        ensures
            grids_match(final(self).buffer_grid, old(self).grid),
            step_rel(final(self).buffer_grid, final(self).grid, timestep),
            final(self).grid.wf(),
    {
        self.buffer_grid = self.grid.clone();
        let ghost bg = self.buffer_grid;
        proof {
            assert(grids_match(bg, old(self).grid));
            assert(bg.wf());
        }
        let n_cols = self.buffer_grid.n_cols;
        let cs = self.buffer_grid.cell_size;
        let n_cells = self.buffer_grid.cells.len();
        let ghost nn = bg.cells@.len() as int;
        let mut j: usize = 0;
        while j < n_cells
            invariant
                j <= n_cells,
                self.buffer_grid == bg,
                self.grid.n_cols == bg.n_cols,
                self.grid.n_rows == bg.n_rows,
                self.grid.cell_size == bg.cell_size,
                self.grid.cells@.len() == nn,
                forall|i: int| 0 <= i < nn ==> {
                    &&& (#[trigger] self.grid.cells@[i]).x == bg.cells@[i].x
                    &&& self.grid.cells@[i].y == bg.cells@[i].y
                    &&& self.grid.cells@[i].elevation == bg.cells@[i].elevation
                    &&& self.grid.cells@[i].kst == bg.cells@[i].kst
                },
                forall|i: int| 0 <= i < nn ==> (#[trigger] self.grid.cells@[i]).depth
                    == bg.cells@[i].depth
                        - (if i < j { outflow(bg, timestep, i) } else { 0 })
                        + inflow_upto(bg, timestep, i, j as int),
                forall|i: int| 0 <= i < nn ==> 0 <= (#[trigger] self.grid.cells@[i]).depth,
                forall|i: int| 0 <= i < nn
                    ==> 0 <= #[trigger] inflow_upto(bg, timestep, i, j as int),
                forall|i: int| 0 <= i < j
                    ==> 0 <= #[trigger] outflow(bg, timestep, i) <= bg.cells@[i].depth,
                sum_depths(self.grid.cells@) == sum_depths(bg.cells@),
            decreases n_cells - j,
        {
            let ghost jj = j as int;
            let cell = self.buffer_grid.cells[j];
            proof {
                lemma_src_coords(bg, jj);
            }
            let neighbours = self.buffer_grid.get_cell_neighbours_with_lower_water_level(
                cell.x,
                cell.y,
            );
            let ghost x = cell.x as int;
            let ghost y = cell.y as int;
            let ghost lnc = lower_coords(bg, jj);
            let n_nb = neighbours.len();
            proof {
                lemma_lower_neighbour_props(bg, x, y);
                assert(lnc.len() == n_nb);
                assert(forall|t: int| 0 <= t < n_nb
                    ==> #[trigger] neighbours@[t] == nbr_cell(bg, jj, t));
            }
            let pair = transfer_amounts(cell, &neighbours, cs, timestep,
                Ghost(bg), Ghost(jj));
            let sent = pair.0;
            let ssent = pair.1;
            let ghost sdl = sent_deltas(bg, timestep, jj);
            proof {
                assert forall|t: int| 0 <= t < sdl.len() implies 0 <= #[trigger] sdl[t] by {
                    assert(sent@[t] as int == sent_delta(bg, timestep, jj, t));
                }
            }

            // Apply the deltas to the live grid: the source loses the
            // clamped total, each strictly-lower neighbor gains its part.
            let ghost pre_iter = self.grid.cells@;
            let lc = self.grid.cells[j];
            proof {
                assert(lc.depth >= bg.cells@[jj].depth);
                lemma_sum_depths_update(self.grid.cells@, jj,
                    RasterCell { depth: (lc.depth - ssent) as i64, ..lc });
            }
            let new_src = RasterCell { depth: lc.depth - ssent, ..lc };
            self.grid.cells[j] = new_src;
            let ghost mid = self.grid.cells@;
            let mut k2: usize = 0;
            while k2 < n_nb
                invariant
                    k2 <= n_nb,
                    self.buffer_grid == bg,
                    self.grid.n_cols == bg.n_cols,
                    self.grid.n_rows == bg.n_rows,
                    self.grid.cell_size == bg.cell_size,
                    self.grid.cells@.len() == nn,
                    forall|i: int| 0 <= i < nn ==> {
                        &&& (#[trigger] self.grid.cells@[i]).x == mid[i].x
                        &&& self.grid.cells@[i].y == mid[i].y
                        &&& self.grid.cells@[i].elevation == mid[i].elevation
                        &&& self.grid.cells@[i].kst == mid[i].kst
                    },
                    forall|i: int| 0 <= i < nn ==> (#[trigger] self.grid.cells@[i]).depth
                        == mid[i].depth + sent_to_upto(bg, timestep, jj, i, k2 as int),
                    forall|i: int| 0 <= i < nn ==> 0 <= (#[trigger] self.grid.cells@[i]).depth,
                    sum_depths(self.grid.cells@) == sum_depths(mid)
                        + sum_ints(sdl.take(k2 as int)),
                decreases n_nb - k2,
            {
                let nb = neighbours[k2];
                proof {
                    assert(nb == nbr_cell(bg, jj, k2 as int));
                    lemma_cell_coords(bg, lnc[k2 as int].0, lnc[k2 as int].1);
                    assert(nb.x as int == lnc[k2 as int].0);
                    assert(nb.y as int == lnc[k2 as int].1);
                    lemma_flat_index_in_range(bg.n_cols as int, bg.n_rows as int,
                        lnc[k2 as int].0, lnc[k2 as int].1);
                }
                let idx = nb.y * n_cols + nb.x;
                let nc = self.grid.cells[idx];
                proof {
                    // The add cannot overflow: the running total never
                    // exceeds the snapshot total, so each depth is at most
                    // `DEPTH_LIMIT`.
                    lemma_sum_ints_take_le(sdl, k2 as int);
                    lemma_sum_ints_nonneg(sdl.take(k2 as int));
                    assert(sum_depths(mid) == sum_depths(bg.cells@) - ssent);
                    assert(sum_ints(sdl.take(k2 as int)) <= ssent);
                    assert(sum_depths(self.grid.cells@) <= sum_depths(bg.cells@));
                    lemma_sum_depths_elem(self.grid.cells@, idx as int);
                    assert(nc.depth <= DEPTH_LIMIT);
                    lemma_sum_depths_update(self.grid.cells@, idx as int,
                        RasterCell { depth: (nc.depth + sent@[k2 as int]) as i64, ..nc });
                    assert(sdl.take(k2 + 1).drop_last() =~= sdl.take(k2 as int));
                    assert(sdl.take(k2 + 1).last() == sent_delta(bg, timestep, jj, k2 as int));
                    assert(nbr_index(bg, jj, k2 as int) == idx as int);
                }
                let new_nb = RasterCell { depth: nc.depth + sent[k2], ..nc };
                self.grid.cells[idx] = new_nb;
                k2 = k2 + 1;
            }
            proof {
                assert(sdl.take(n_nb as int) =~= sdl);
                assert(sum_ints(sdl) == ssent);
                assert(sum_depths(self.grid.cells@) == sum_depths(bg.cells@));
                assert forall|i: int| 0 <= i < nn implies
                    (#[trigger] self.grid.cells@[i]).depth == bg.cells@[i].depth
                        - (if i < jj + 1 { outflow(bg, timestep, i) } else { 0 })
                        + inflow_upto(bg, timestep, i, jj + 1) by {
                    assert(sent_to_upto(bg, timestep, jj, i, n_nb as int)
                        == sent_to(bg, timestep, jj, i));
                    assert(inflow_upto(bg, timestep, i, jj + 1)
                        == inflow_upto(bg, timestep, i, jj) + sent_to(bg, timestep, jj, i));
                    assert(mid[i].depth == pre_iter[i].depth
                        - (if i == jj { ssent as int } else { 0 }));
                }
                assert forall|i: int| 0 <= i < nn implies
                    0 <= #[trigger] inflow_upto(bg, timestep, i, jj + 1) by {
                    assert forall|t: int| 0 <= t < lnc.len() implies
                        0 <= #[trigger] sent_delta(bg, timestep, jj, t) by {
                        assert(sent@[t] as int == sent_delta(bg, timestep, jj, t));
                    }
                    lemma_sent_to_upto_nonneg(bg, timestep, jj, i, lnc.len() as int);
                    assert(sent_to(bg, timestep, jj, i)
                        == sent_to_upto(bg, timestep, jj, i, lnc.len() as int));
                    assert(inflow_upto(bg, timestep, i, jj + 1)
                        == inflow_upto(bg, timestep, i, jj) + sent_to(bg, timestep, jj, i));
                    assert(0 <= inflow_upto(bg, timestep, i, jj));
                }
            }
            j = j + 1;
        }
        proof {
            assert forall|i: int| 0 <= i < nn implies (#[trigger] self.grid.cells@[i]).depth
                == bg.cells@[i].depth - outflow(bg, timestep, i) + inflow(bg, timestep, i) by {
                assert(inflow_upto(bg, timestep, i, nn) == inflow(bg, timestep, i));
            }
            assert forall|i: int| 0 <= i < nn implies (#[trigger] self.grid.cells@[i]).wf()
                && self.grid.cells@[i].x == i % (self.grid.n_cols as int)
                && self.grid.cells@[i].y == i / (self.grid.n_cols as int) by {
                lemma_sum_depths_elem(self.grid.cells@, i);
                assert(bg.cells@[i].wf());
            }
            assert(self.grid.wf());
        }
    }
}

} // verus!
