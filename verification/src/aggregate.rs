//! Eight-direction scanline cost aggregation: the dynamic-programming core
//! of semi-global matching.
//!
//! Each of the eight compass directions propagates costs pixel-to-pixel
//! along its own path. A pixel's aggregated value for a direction is its raw
//! cost plus the best smoothness-penalized candidate from the predecessor
//! pixel one step backward along that direction, minus the predecessor's
//! minimum (the standard normalization that keeps path sums bounded). The
//! four directions whose predecessor lies earlier in ascending raster order
//! are swept forward; the other four are swept in reverse raster order.

use vstd::prelude::*;
use crate::volumes::{AggCostVolume, CostVolume, SumCostVolume};

verus! {

/// Row step of direction `p`.
pub open spec fn path_drow(p: int) -> int {
    if p == 0 {
        1
    } else if p == 1 {
        1
    } else if p == 2 {
        1
    } else if p == 3 {
        0
    } else if p == 4 {
        -1
    } else if p == 5 {
        -1
    } else if p == 6 {
        -1
    } else {
        0
    }
}

/// Column step of direction `p`.
pub open spec fn path_dcol(p: int) -> int {
    if p == 0 {
        1
    } else if p == 1 {
        0
    } else if p == 2 {
        -1
    } else if p == 3 {
        -1
    } else if p == 4 {
        -1
    } else if p == 5 {
        0
    } else if p == 6 {
        1
    } else {
        1
    }
}

/// Whether direction `p` belongs to the forward raster sweep: its
/// predecessor pixel lies strictly earlier in ascending raster order.
pub open spec fn path_forward(p: int) -> bool {
    p == 0 || p == 1 || p == 2 || p == 7
}

/// The (row step, column step) of direction `p`.
pub fn path_dir(p: usize) -> (r: (i32, i32))
    requires
        p < 8,
    ensures
        r.0 as int == path_drow(p as int),
        r.1 as int == path_dcol(p as int),
{
    match p {
        0 => (1, 1),
        1 => (1, 0),
        2 => (1, -1),
        3 => (0, -1),
        4 => (-1, -1),
        5 => (-1, 0),
        6 => (-1, 1),
        _ => (0, 1),
    }
}

/// Whether direction `p` is swept in the forward raster pass.
pub fn path_is_forward(p: usize) -> (r: bool)
    requires
        p < 8,
    ensures
        r == path_forward(p as int),
{
    p == 0 || p == 1 || p == 2 || p == 7
}

/// Predecessor row of `y` along direction `p`.
pub open spec fn pred_row(p: int, y: int) -> int {
    y - path_drow(p)
}

/// Predecessor column of `x` along direction `p`.
pub open spec fn pred_col(p: int, x: int) -> int {
    x - path_dcol(p)
}

/// Whether the path through (y, x) along direction `p` has a predecessor
/// pixel inside the grid of `c`.
pub open spec fn has_pred(c: CostVolume, p: int, y: int, x: int) -> bool {
    0 <= pred_row(p, y) < c.rows && 0 <= pred_col(p, x) < c.cols
}

/// Steps left until the path of direction `p` through (y, x) reaches the
/// border it started from: the recursion depth of the path recurrence.
pub open spec fn path_measure(c: CostVolume, p: int, y: int, x: int) -> int {
    if path_drow(p) == 1 {
        y
    } else if path_drow(p) == -1 {
        c.rows - 1 - y
    } else if path_dcol(p) == 1 {
        x
    } else {
        c.cols - 1 - x
    }
}

/// The smoothness penalty for a step from predecessor disparity `dd` to
/// disparity `d`: none for staying, `p1` for a one-step change, `p2` for
/// any larger jump.
pub open spec fn penalty(d: int, dd: int, p1: int, p2: int) -> int {
    if dd == d {
        0
    } else if dd == d - 1 || dd == d + 1 {
        p1
    } else {
        p2
    }
}

/// The smaller of two integers.
pub open spec fn min_int(a: int, b: int) -> int {
    if a <= b {
        a
    } else {
        b
    }
}

/// The aggregated cost of direction `p` at pixel (y, x) and disparity `d`.
/// A pixel whose predecessor lies outside the grid starts its path at the
/// raw cost; otherwise the raw cost is added to the best penalized
/// predecessor candidate, normalized by the predecessor's minimum.
pub open spec fn path_cost(c: CostVolume, p1: int, p2: int, p: int, y: int, x: int, d: int) -> int
    decreases path_measure(c, p, y, x), 0int, 0int,
        when 0 <= p < 8 && 0 <= y < c.rows && 0 <= x < c.cols && 0 <= d < c.d_range
{
    if !has_pred(c, p, y, x) {
        c.at(y, x, d)
    } else {
        let py = pred_row(p, y);
        let px = pred_col(p, x);
        c.at(y, x, d) + cand_min_upto(c, p1, p2, p, py, px, d, c.d_range as int) - prev_min_upto(
            c, p1, p2, p, py, px, c.d_range as int)
    }
}

/// Minimum aggregated cost of direction `p` at pixel (py, px) over its
/// first `n` disparities.
pub open spec fn prev_min_upto(c: CostVolume, p1: int, p2: int, p: int, py: int, px: int, n: int) -> int
    decreases path_measure(c, p, py, px), 1int, n,
        when 0 <= p < 8 && 0 <= py < c.rows && 0 <= px < c.cols && 1 <= n <= c.d_range
{
    if n == 1 {
        path_cost(c, p1, p2, p, py, px, 0)
    } else {
        min_int(
            prev_min_upto(c, p1, p2, p, py, px, n - 1),
            path_cost(c, p1, p2, p, py, px, n - 1),
        )
    }
}

/// Minimum penalized candidate toward disparity `d` from the first `n`
/// disparities of direction `p` at pixel (py, px).
pub open spec fn cand_min_upto(
    c: CostVolume, p1: int, p2: int, p: int, py: int, px: int, d: int, n: int,
) -> int
    decreases path_measure(c, p, py, px), 1int, n,
        when 0 <= p < 8 && 0 <= py < c.rows && 0 <= px < c.cols && 1 <= n <= c.d_range
{
    if n == 1 {
        path_cost(c, p1, p2, p, py, px, 0) + penalty(d, 0, p1, p2)
    } else {
        min_int(
            cand_min_upto(c, p1, p2, p, py, px, d, n - 1),
            path_cost(c, p1, p2, p, py, px, n - 1) + penalty(d, n - 1, p1, p2),
        )
    }
}

/// The candidate minimum sits between the plain predecessor minimum and
/// that minimum plus the far penalty.
pub proof fn lemma_cand_min_bounds(
    c: CostVolume, p1: int, p2: int, p: int, py: int, px: int, d: int, n: int,
)
    requires
        0 <= p < 8,
        0 <= py < c.rows,
        0 <= px < c.cols,
        1 <= n <= c.d_range,
        0 <= p1 <= p2,
    ensures
        prev_min_upto(c, p1, p2, p, py, px, n) <= cand_min_upto(c, p1, p2, p, py, px, d, n),
        cand_min_upto(c, p1, p2, p, py, px, d, n) <= prev_min_upto(c, p1, p2, p, py, px, n) + p2,
    decreases n,
{
    if n > 1 {
        lemma_cand_min_bounds(c, p1, p2, p, py, px, d, n - 1);
    }
}

/// Each aggregated path cost sits between the raw pixel cost and the raw
/// cost plus the far penalty.
pub proof fn lemma_path_cost_bounds(
    c: CostVolume, p1: int, p2: int, p: int, y: int, x: int, d: int,
)
    requires
        0 <= p < 8,
        0 <= y < c.rows,
        0 <= x < c.cols,
        0 <= d < c.d_range,
        0 <= p1 <= p2,
    ensures
        c.at(y, x, d) <= path_cost(c, p1, p2, p, y, x, d) <= c.at(y, x, d) + p2,
{
    if has_pred(c, p, y, x) {
        lemma_cand_min_bounds(c, p1, p2, p, pred_row(p, y), pred_col(p, x), d,
            c.d_range as int);
    }
}

/// The path recurrence reads nothing of a cost volume but its dimensions
/// and its in-range entries: equal volumes give equal path costs.
pub proof fn lemma_path_cost_congruence(
    c1: CostVolume, c2: CostVolume, p1: int, p2: int, p: int, y: int, x: int, d: int,
)
    requires
        c1.rows == c2.rows,
        c1.cols == c2.cols,
        c1.d_range == c2.d_range,
        forall|yy: int, xx: int, dd: int|
            c1.valid(yy, xx, dd) ==> c1.at(yy, xx, dd) == c2.at(yy, xx, dd),
        0 <= p < 8,
        0 <= y < c1.rows,
        0 <= x < c1.cols,
        0 <= d < c1.d_range,
    ensures
        path_cost(c1, p1, p2, p, y, x, d) == path_cost(c2, p1, p2, p, y, x, d),
    decreases path_measure(c1, p, y, x), 2int, 0int,
{
    if has_pred(c1, p, y, x) {
        let py = pred_row(p, y);
        let px = pred_col(p, x);
        lemma_prev_min_congruence(c1, c2, p1, p2, p, py, px, c1.d_range as int);
        lemma_cand_min_congruence(c1, c2, p1, p2, p, py, px, d, c1.d_range as int);
    }
}

/// Congruence of the predecessor minimum in the cost volume.
pub proof fn lemma_prev_min_congruence(
    c1: CostVolume, c2: CostVolume, p1: int, p2: int, p: int, py: int, px: int, n: int,
)
    requires
        c1.rows == c2.rows,
        c1.cols == c2.cols,
        c1.d_range == c2.d_range,
        forall|yy: int, xx: int, dd: int|
            c1.valid(yy, xx, dd) ==> c1.at(yy, xx, dd) == c2.at(yy, xx, dd),
        0 <= p < 8,
        0 <= py < c1.rows,
        0 <= px < c1.cols,
        1 <= n <= c1.d_range,
    ensures
        prev_min_upto(c1, p1, p2, p, py, px, n) == prev_min_upto(c2, p1, p2, p, py, px, n),
    decreases path_measure(c1, p, py, px), 3int, n,
{
    lemma_path_cost_congruence(c1, c2, p1, p2, p, py, px, n - 1);
    if n > 1 {
        lemma_prev_min_congruence(c1, c2, p1, p2, p, py, px, n - 1);
    }
}

/// Congruence of the candidate minimum in the cost volume.
pub proof fn lemma_cand_min_congruence(
    c1: CostVolume, c2: CostVolume, p1: int, p2: int, p: int, py: int, px: int, d: int, n: int,
)
    requires
        c1.rows == c2.rows,
        c1.cols == c2.cols,
        c1.d_range == c2.d_range,
        forall|yy: int, xx: int, dd: int|
            c1.valid(yy, xx, dd) ==> c1.at(yy, xx, dd) == c2.at(yy, xx, dd),
        0 <= p < 8,
        0 <= py < c1.rows,
        0 <= px < c1.cols,
        1 <= n <= c1.d_range,
    ensures
        cand_min_upto(c1, p1, p2, p, py, px, d, n) == cand_min_upto(c2, p1, p2, p, py, px, d, n),
    decreases path_measure(c1, p, py, px), 3int, n,
{
    lemma_path_cost_congruence(c1, c2, p1, p2, p, py, px, n - 1);
    if n > 1 {
        lemma_cand_min_congruence(c1, c2, p1, p2, p, py, px, d, n - 1);
    }
}

/// The predecessor minimum never drops below zero.
pub proof fn lemma_prev_min_nonneg(
    c: CostVolume, p1: int, p2: int, p: int, py: int, px: int, n: int,
)
    requires
        0 <= p < 8,
        0 <= py < c.rows,
        0 <= px < c.cols,
        1 <= n <= c.d_range,
        0 <= p1 <= p2,
    ensures
        prev_min_upto(c, p1, p2, p, py, px, n) >= 0,
    decreases n,
{
    lemma_path_cost_bounds(c, p1, p2, p, py, px, n - 1);
    if n > 1 {
        lemma_prev_min_nonneg(c, p1, p2, p, py, px, n - 1);
    } else {
        lemma_path_cost_bounds(c, p1, p2, p, py, px, 0);
    }
}

/// The candidate minimum is at most its first candidate.
pub proof fn lemma_cand_min_le_first(
    c: CostVolume, p1: int, p2: int, p: int, py: int, px: int, d: int, n: int,
)
    requires
        0 <= p < 8,
        0 <= py < c.rows,
        0 <= px < c.cols,
        1 <= n <= c.d_range,
    ensures
        cand_min_upto(c, p1, p2, p, py, px, d, n) <= path_cost(c, p1, p2, p, py, px, 0)
            + penalty(d, 0, p1, p2),
    decreases n,
{
    if n > 1 {
        lemma_cand_min_le_first(c, p1, p2, p, py, px, d, n - 1);
    }
}

/// Where the raw cost at disparity zero vanishes on every pixel, so does
/// every aggregated path cost at disparity zero: the zero-cost path is
/// never penalized.
pub proof fn lemma_path_cost_zero(c: CostVolume, p1: int, p2: int, p: int, y: int, x: int)
    requires
        0 <= p < 8,
        0 <= y < c.rows,
        0 <= x < c.cols,
        1 <= c.d_range,
        0 <= p1 <= p2,
        forall|yy: int, xx: int|
            0 <= yy < c.rows && 0 <= xx < c.cols ==> c.at(yy, xx, 0) == 0,
    ensures
        path_cost(c, p1, p2, p, y, x, 0) == 0,
    decreases path_measure(c, p, y, x),
{
    if has_pred(c, p, y, x) {
        let py = pred_row(p, y);
        let px = pred_col(p, x);
        lemma_path_cost_zero(c, p1, p2, p, py, px);
        lemma_cand_min_le_first(c, p1, p2, p, py, px, 0, c.d_range as int);
        lemma_prev_min_nonneg(c, p1, p2, p, py, px, c.d_range as int);
        lemma_cand_min_bounds(c, p1, p2, p, py, px, 0, c.d_range as int);
    }
}

/// Where the raw cost at disparity zero vanishes on every pixel, an
/// orientation sum at disparity zero vanishes too.
pub proof fn lemma_orient_sum_zero(
    c: CostVolume, p1: int, p2: int, fwd: bool, y: int, x: int, n: int,
)
    requires
        0 <= y < c.rows,
        0 <= x < c.cols,
        1 <= c.d_range,
        0 <= p1 <= p2,
        0 <= n <= 8,
        forall|yy: int, xx: int|
            0 <= yy < c.rows && 0 <= xx < c.cols ==> c.at(yy, xx, 0) == 0,
    ensures
        orient_sum_upto(c, p1, p2, fwd, y, x, 0, n) == 0,
    decreases n,
{
    if n > 0 {
        lemma_orient_sum_zero(c, p1, p2, fwd, y, x, n - 1);
        if path_forward(n - 1) == fwd {
            lemma_path_cost_zero(c, p1, p2, n - 1, y, x);
        }
    }
}

/// Every entry of the aggregation volume stays below the raw-cost ceiling
/// plus the far penalty.
pub open spec fn agg_bounded(agg: AggCostVolume, p2: int) -> bool {
    forall|pp: int, yy: int, xx: int, dd: int|
        agg.valid(pp, yy, xx, dd) ==> agg.at(pp, yy, xx, dd) <= 255 + p2
}

/// Steps from `i` one grid step backward by `delta` inside `0..n`.
fn step_back(i: usize, delta: i32, n: usize) -> (r: Option<usize>)
    requires
        i < n,
        -1 <= delta <= 1,
    ensures
        r is Some <==> 0 <= i - delta < n,
        r matches Some(j) ==> j as int == i - delta,
{
    if delta == 1 {
        if i >= 1 {
            Some(i - 1)
        } else {
            None
        }
    } else if delta == -1 {
        if i + 1 < n {
            Some(i + 1)
        } else {
            None
        }
    } else {
        Some(i)
    }
}

/// The smoothness penalty for a step from disparity `dd` to `d`.
fn penalty_for(d: usize, dd: usize, p1: u32, p2: u32) -> (r: u32)
    requires
        d < usize::MAX,
        dd < usize::MAX,
    ensures
        r as int == penalty(d as int, dd as int, p1 as int, p2 as int),
{
    if dd == d {
        0
    } else if dd + 1 == d || d + 1 == dd {
        p1
    } else {
        p2
    }
}

/// Computes the aggregated cost of direction `path` at pixel (row, col) and
/// disparity `depth` and stores it, leaving every other entry as it was.
/// The predecessor pixel along `path`, where it exists, must already hold
/// its finalized aggregated values. A pixel with no in-grid predecessor
/// gets exactly its raw cost, with no penalty.
pub fn aggregate_cost(
    row: usize, col: usize, depth: usize, path: usize, p1: u32, p2: u32,
    cost_array: &CostVolume, agg_cost: &mut AggCostVolume,
) -> (r: u32)
    requires
        cost_array.wf(),
        old(agg_cost).wf(),
        old(agg_cost).rows == cost_array.rows,
        old(agg_cost).cols == cost_array.cols,
        old(agg_cost).d_range == cost_array.d_range,
        row < cost_array.rows,
        col < cost_array.cols,
        depth < cost_array.d_range,
        path < 8,
        p1 <= p2,
        p2 <= 100_000_000,
        agg_bounded(*old(agg_cost), p2 as int),
        has_pred(*cost_array, path as int, row as int, col as int) ==> forall|dd: int|
            0 <= dd < cost_array.d_range ==> old(agg_cost).at(
                path as int,
                pred_row(path as int, row as int),
                pred_col(path as int, col as int),
                dd,
            ) == path_cost(
                *cost_array,
                p1 as int,
                p2 as int,
                path as int,
                pred_row(path as int, row as int),
                pred_col(path as int, col as int),
                dd,
            ),
    ensures
        final(agg_cost).wf(),
        final(agg_cost).rows == old(agg_cost).rows,
        final(agg_cost).cols == old(agg_cost).cols,
        final(agg_cost).d_range == old(agg_cost).d_range,
        r as int == path_cost(*cost_array, p1 as int, p2 as int, path as int, row as int,
            col as int, depth as int),
        r <= 255 + p2,
        final(agg_cost).at(path as int, row as int, col as int, depth as int) == r,
        forall|pp: int, yy: int, xx: int, dd: int|
            final(agg_cost).valid(pp, yy, xx, dd) && !(pp == path as int && yy == row as int && xx
                == col as int && dd == depth as int) ==> final(agg_cost).at(pp, yy, xx, dd) == old(
                agg_cost).at(pp, yy, xx, dd),
        !has_pred(*cost_array, path as int, row as int, col as int) ==> r as int == cost_array.at(
            row as int, col as int, depth as int),
{
    let ghost c = *cost_array;
    let ghost gp1 = p1 as int;
    let ghost gp2 = p2 as int;
    let ghost pi = path as int;
    let (drow, dcol) = path_dir(path);
    let indiv = cost_array.get(row, col, depth);
    let pred = match (step_back(row, drow, cost_array.rows), step_back(col, dcol,
        cost_array.cols)) {
        (Some(py), Some(px)) => Some((py, px)),
        _ => None,
    };
    match pred {
        Some((py, px)) => {
            assert(has_pred(c, pi, row as int, col as int));
            assert(py as int == pred_row(pi, row as int) && px as int == pred_col(
                pi, col as int));
            let dr = cost_array.d_range;
            let first = agg_cost.get(path, py, px, 0);
            proof {
                assert(agg_cost.valid(pi, py as int, px as int, 0));
                assert(agg_cost.at(pi, py as int, px as int, 0) <= 255 + gp2);
            }
            let mut min_prev: u32 = first;
            let mut min_cand: u32 = first + penalty_for(depth, 0, p1, p2);
            let mut dd: usize = 1;
            while dd < dr
                invariant
                    c == *cost_array,
                    gp1 == p1 as int,
                    gp2 == p2 as int,
                    pi == path as int,
                    cost_array.wf(),
                    agg_cost.wf(),
                    agg_cost.rows == cost_array.rows,
                    agg_cost.cols == cost_array.cols,
                    agg_cost.d_range == cost_array.d_range,
                    *agg_cost == *old(agg_cost),
                    row < cost_array.rows,
                    col < cost_array.cols,
                    depth < cost_array.d_range,
                    path < 8,
                    p1 <= p2,
                    p2 <= 100_000_000,
                    agg_bounded(*agg_cost, gp2),
                    dr == cost_array.d_range,
                    1 <= dd <= dr,
                    py < cost_array.rows,
                    px < cost_array.cols,
                    py as int == pred_row(pi, row as int),
                    px as int == pred_col(pi, col as int),
                    has_pred(c, pi, row as int, col as int),
                    forall|k: int|
                        0 <= k < dr ==> agg_cost.at(pi, py as int, px as int, k) == path_cost(
                            c, gp1, gp2, pi, py as int, px as int, k),
                    min_prev as int == prev_min_upto(c, gp1, gp2, pi, py as int, px as int,
                        dd as int),
                    min_cand as int == cand_min_upto(c, gp1, gp2, pi, py as int, px as int,
                        depth as int, dd as int),
                    min_prev <= 255 + p2,
                    min_prev <= min_cand <= min_prev + p2,
                decreases dr - dd,
            {
                let prev = agg_cost.get(path, py, px, dd);
                proof {
                    assert(agg_cost.valid(pi, py as int, px as int, dd as int));
                    assert(agg_cost.at(pi, py as int, px as int, dd as int) <= 255 + gp2);
                }
                let cand = prev + penalty_for(depth, dd, p1, p2);
                if prev < min_prev {
                    min_prev = prev;
                }
                if cand < min_cand {
                    min_cand = cand;
                }
                dd = dd + 1;
            }
            let val = indiv as u32 + min_cand - min_prev;
            agg_cost.set(path, row, col, depth, val);
            val
        },
        None => {
            assert(!has_pred(c, pi, row as int, col as int));
            let val = indiv as u32;
            agg_cost.set(path, row, col, depth, val);
            val
        },
    }
}

/// Sum of the aggregated path costs at (y, x, d) over the directions among
/// 0..n whose sweep orientation is `fwd`.
pub open spec fn orient_sum_upto(
    c: CostVolume, p1: int, p2: int, fwd: bool, y: int, x: int, d: int, n: int,
) -> int
    decreases n,
{
    if n <= 0 {
        0
    } else {
        orient_sum_upto(c, p1, p2, fwd, y, x, d, n - 1) + if path_forward(n - 1) == fwd {
            path_cost(c, p1, p2, n - 1, y, x, d)
        } else {
            0
        }
    }
}

/// The direction-summed aggregated cost at (y, x, d): all eight directions
/// together.
pub open spec fn total_cost(c: CostVolume, p1: int, p2: int, y: int, x: int, d: int) -> int {
    orient_sum_upto(c, p1, p2, true, y, x, d, 8) + orient_sum_upto(c, p1, p2, false, y, x, d, 8)
}

/// A partial orientation sum stays within `n` times the per-path ceiling.
pub proof fn lemma_orient_sum_bounds(
    c: CostVolume, p1: int, p2: int, fwd: bool, y: int, x: int, d: int, n: int,
)
    requires
        0 <= y < c.rows,
        0 <= x < c.cols,
        0 <= d < c.d_range,
        0 <= p1 <= p2,
        0 <= n <= 8,
    ensures
        0 <= orient_sum_upto(c, p1, p2, fwd, y, x, d, n) <= n * (255 + p2),
    decreases n,
{
    if n > 0 {
        lemma_orient_sum_bounds(c, p1, p2, fwd, y, x, d, n - 1);
        lemma_path_cost_bounds(c, p1, p2, n - 1, y, x, d);
        assert((n - 1) * (255 + p2) + (255 + p2) == n * (255 + p2)) by (nonlinear_arith);
    }
}

/// Congruence of the orientation sums in the cost volume.
pub proof fn lemma_orient_sum_congruence(
    c1: CostVolume, c2: CostVolume, p1: int, p2: int, fwd: bool, y: int, x: int, d: int, n: int,
)
    requires
        c1.rows == c2.rows,
        c1.cols == c2.cols,
        c1.d_range == c2.d_range,
        forall|yy: int, xx: int, dd: int|
            c1.valid(yy, xx, dd) ==> c1.at(yy, xx, dd) == c2.at(yy, xx, dd),
        0 <= y < c1.rows,
        0 <= x < c1.cols,
        0 <= d < c1.d_range,
        0 <= n <= 8,
    ensures
        orient_sum_upto(c1, p1, p2, fwd, y, x, d, n) == orient_sum_upto(c2, p1, p2, fwd, y, x,
            d, n),
    decreases n,
{
    if n > 0 {
        lemma_orient_sum_congruence(c1, c2, p1, p2, fwd, y, x, d, n - 1);
        if path_forward(n - 1) == fwd {
            lemma_path_cost_congruence(c1, c2, p1, p2, n - 1, y, x, d);
        }
    }
}

/// Congruence of the direction-summed total in the cost volume.
pub proof fn lemma_total_cost_congruence(
    c1: CostVolume, c2: CostVolume, p1: int, p2: int, y: int, x: int, d: int,
)
    requires
        c1.rows == c2.rows,
        c1.cols == c2.cols,
        c1.d_range == c2.d_range,
        forall|yy: int, xx: int, dd: int|
            c1.valid(yy, xx, dd) ==> c1.at(yy, xx, dd) == c2.at(yy, xx, dd),
        0 <= y < c1.rows,
        0 <= x < c1.cols,
        0 <= d < c1.d_range,
    ensures
        total_cost(c1, p1, p2, y, x, d) == total_cost(c2, p1, p2, y, x, d),
{
    lemma_orient_sum_congruence(c1, c2, p1, p2, true, y, x, d, 8);
    lemma_orient_sum_congruence(c1, c2, p1, p2, false, y, x, d, 8);
}

/// Direction `p` holds its finalized path costs at pixel (y, x).
pub open spec fn dir_done(
    agg: AggCostVolume, c: CostVolume, p1: int, p2: int, p: int, y: int, x: int,
) -> bool {
    forall|d: int| 0 <= d < c.d_range ==> agg.at(p, y, x, d) == path_cost(c, p1, p2, p, y, x, d)
}

/// Every direction of orientation `fwd` holds its finalized path costs at
/// pixel (y, x).
pub open spec fn orient_done(
    agg: AggCostVolume, c: CostVolume, p1: int, p2: int, fwd: bool, y: int, x: int,
) -> bool {
    forall|p: int|
        0 <= p < 8 && path_forward(p) == fwd ==> dir_done(agg, c, p1, p2, p, y, x)
}

/// Aggregates the four directions of one sweep orientation at a single
/// pixel, over every disparity, and adds each value into the pixel's
/// summed-cost entries. The predecessor pixel of each such direction, where
/// it exists, must already hold its finalized values.
fn aggregate_pixel(
    row: usize, col: usize, fwd: bool, p1: u32, p2: u32,
    cost_array: &CostVolume, agg_cost: &mut AggCostVolume, sum_cost: &mut SumCostVolume,
)
    requires
        cost_array.wf(),
        old(agg_cost).wf(),
        old(agg_cost).rows == cost_array.rows,
        old(agg_cost).cols == cost_array.cols,
        old(agg_cost).d_range == cost_array.d_range,
        old(sum_cost).wf(),
        old(sum_cost).rows == cost_array.rows,
        old(sum_cost).cols == cost_array.cols,
        old(sum_cost).d_range == cost_array.d_range,
        row < cost_array.rows,
        col < cost_array.cols,
        p1 <= p2,
        p2 <= 100_000_000,
        agg_bounded(*old(agg_cost), p2 as int),
        forall|d: int|
            0 <= d < cost_array.d_range ==> old(sum_cost).at(row as int, col as int, d) <= 8 * (
            255 + p2),
        forall|p: int|
            0 <= p < 8 && path_forward(p) == fwd && has_pred(*cost_array, p, row as int,
                col as int) ==> dir_done(*old(agg_cost), *cost_array, p1 as int, p2 as int, p,
                pred_row(p, row as int), pred_col(p, col as int)),
    ensures
        final(agg_cost).wf(),
        final(agg_cost).rows == old(agg_cost).rows,
        final(agg_cost).cols == old(agg_cost).cols,
        final(agg_cost).d_range == old(agg_cost).d_range,
        final(sum_cost).wf(),
        final(sum_cost).rows == old(sum_cost).rows,
        final(sum_cost).cols == old(sum_cost).cols,
        final(sum_cost).d_range == old(sum_cost).d_range,
        agg_bounded(*final(agg_cost), p2 as int),
        orient_done(*final(agg_cost), *cost_array, p1 as int, p2 as int, fwd, row as int,
            col as int),
        forall|pp: int, yy: int, xx: int, dd: int|
            final(agg_cost).valid(pp, yy, xx, dd) && !(path_forward(pp) == fwd && yy == row as int
                && xx == col as int) ==> final(agg_cost).at(pp, yy, xx, dd) == old(agg_cost).at(
                pp, yy, xx, dd),
        forall|d: int|
            0 <= d < cost_array.d_range ==> final(sum_cost).at(row as int, col as int, d) == old(
                sum_cost).at(row as int, col as int, d) + orient_sum_upto(*cost_array, p1 as int,
                p2 as int, fwd, row as int, col as int, d, 8),
        forall|yy: int, xx: int, dd: int|
            final(sum_cost).valid(yy, xx, dd) && !(yy == row as int && xx == col as int)
                ==> final(sum_cost).at(yy, xx, dd) == old(sum_cost).at(yy, xx, dd),
{
    let ghost c = *cost_array;
    let ghost gp1 = p1 as int;
    let ghost gp2 = p2 as int;
    let ghost ri = row as int;
    let ghost ci = col as int;
    let dr = cost_array.d_range;
    let mut d: usize = 0;
    while d < dr
        invariant
            c == *cost_array,
            gp1 == p1 as int,
            gp2 == p2 as int,
            ri == row as int,
            ci == col as int,
            cost_array.wf(),
            agg_cost.wf(),
            agg_cost.rows == cost_array.rows,
            agg_cost.cols == cost_array.cols,
            agg_cost.d_range == cost_array.d_range,
            sum_cost.wf(),
            sum_cost.rows == cost_array.rows,
            sum_cost.cols == cost_array.cols,
            sum_cost.d_range == cost_array.d_range,
            row < cost_array.rows,
            col < cost_array.cols,
            p1 <= p2,
            p2 <= 100_000_000,
            dr == cost_array.d_range,
            d <= dr,
            agg_bounded(*agg_cost, gp2),
            forall|dd: int|
                0 <= dd < dr ==> old(sum_cost).at(ri, ci, dd) <= 8 * (255 + gp2),
            forall|p: int|
                0 <= p < 8 && path_forward(p) == fwd && has_pred(c, p, ri, ci) ==> dir_done(
                    *old(agg_cost), c, gp1, gp2, p, pred_row(p, ri), pred_col(p, ci)),
            forall|pp: int, yy: int, xx: int, dd: int|
                agg_cost.valid(pp, yy, xx, dd) && !(path_forward(pp) == fwd && yy == ri && xx
                    == ci) ==> agg_cost.at(pp, yy, xx, dd) == old(agg_cost).at(pp, yy, xx, dd),
            forall|pp: int, k: int|
                0 <= pp < 8 && path_forward(pp) == fwd && 0 <= k < d ==> agg_cost.at(pp, ri, ci,
                    k) == path_cost(c, gp1, gp2, pp, ri, ci, k),
            forall|k: int|
                0 <= k < d ==> sum_cost.at(ri, ci, k) == old(sum_cost).at(ri, ci, k)
                    + orient_sum_upto(c, gp1, gp2, fwd, ri, ci, k, 8),
            forall|k: int|
                d <= k < dr ==> sum_cost.at(ri, ci, k) == old(sum_cost).at(ri, ci, k),
            forall|yy: int, xx: int, dd: int|
                sum_cost.valid(yy, xx, dd) && !(yy == ri && xx == ci) ==> sum_cost.at(yy, xx, dd)
                    == old(sum_cost).at(yy, xx, dd),
        decreases dr - d,
    {
        let ghost di = d as int;
        let mut s: u32 = 0;
        let mut p: usize = 0;
        while p < 8
            invariant
                c == *cost_array,
                gp1 == p1 as int,
                gp2 == p2 as int,
                ri == row as int,
                ci == col as int,
                di == d as int,
                cost_array.wf(),
                agg_cost.wf(),
                agg_cost.rows == cost_array.rows,
                agg_cost.cols == cost_array.cols,
                agg_cost.d_range == cost_array.d_range,
                sum_cost.wf(),
                sum_cost.rows == cost_array.rows,
                sum_cost.cols == cost_array.cols,
                sum_cost.d_range == cost_array.d_range,
                row < cost_array.rows,
                col < cost_array.cols,
                p1 <= p2,
                p2 <= 100_000_000,
                dr == cost_array.d_range,
                d < dr,
                p <= 8,
                agg_bounded(*agg_cost, gp2),
                forall|dd: int|
                    0 <= dd < dr ==> old(sum_cost).at(ri, ci, dd) <= 8 * (255 + gp2),
                forall|pq: int|
                    0 <= pq < 8 && path_forward(pq) == fwd && has_pred(c, pq, ri, ci)
                        ==> dir_done(*old(agg_cost), c, gp1, gp2, pq, pred_row(pq, ri), pred_col(
                        pq, ci)),
                forall|pp: int, yy: int, xx: int, dd: int|
                    agg_cost.valid(pp, yy, xx, dd) && !(path_forward(pp) == fwd && yy == ri && xx
                        == ci) ==> agg_cost.at(pp, yy, xx, dd) == old(agg_cost).at(pp, yy, xx,
                        dd),
                forall|pp: int, k: int|
                    0 <= pp < 8 && path_forward(pp) == fwd && 0 <= k < d ==> agg_cost.at(pp, ri,
                        ci, k) == path_cost(c, gp1, gp2, pp, ri, ci, k),
                forall|pp: int|
                    0 <= pp < p && path_forward(pp) == fwd ==> agg_cost.at(pp, ri, ci, di)
                        == path_cost(c, gp1, gp2, pp, ri, ci, di),
                s as int == orient_sum_upto(c, gp1, gp2, fwd, ri, ci, di, p as int),
                0 <= s as int <= (p as int) * (255 + gp2),
                forall|k: int|
                    0 <= k < d ==> sum_cost.at(ri, ci, k) == old(sum_cost).at(ri, ci, k)
                        + orient_sum_upto(c, gp1, gp2, fwd, ri, ci, k, 8),
                forall|k: int|
                    d <= k < dr ==> sum_cost.at(ri, ci, k) == old(sum_cost).at(ri, ci, k),
                forall|yy: int, xx: int, dd: int|
                    sum_cost.valid(yy, xx, dd) && !(yy == ri && xx == ci) ==> sum_cost.at(yy, xx,
                        dd) == old(sum_cost).at(yy, xx, dd),
            decreases 8 - p,
        {
            let ghost pint = p as int;
            if path_is_forward(p) == fwd {
                let ghost agg0 = *agg_cost;
                proof {
                    assert(agg_bounded(agg0, gp2));
                    if has_pred(c, pint, ri, ci) {
                        let py = pred_row(pint, ri);
                        let px = pred_col(pint, ci);
                        assert(!(py == ri && px == ci));
                        assert(dir_done(*old(agg_cost), c, gp1, gp2, pint, py, px));
                        assert forall|k: int| 0 <= k < dr implies agg_cost.at(pint, py, px, k)
                            == path_cost(c, gp1, gp2, pint, py, px, k) by {
                            assert(agg_cost.at(pint, py, px, k) == old(agg_cost).at(pint, py,
                                px, k));
                        }
                    }
                }
                let v = aggregate_cost(row, col, d, p, p1, p2, cost_array, agg_cost);
                proof {
                    assert forall|pp: int, yy: int, xx: int, dd: int|
                        agg_cost.valid(pp, yy, xx, dd) && !(path_forward(pp) == fwd && yy == ri
                            && xx == ci) implies agg_cost.at(pp, yy, xx, dd) == old(agg_cost).at(
                            pp, yy, xx, dd) by {
                        assert(agg_cost.at(pp, yy, xx, dd) == agg0.at(pp, yy, xx, dd));
                    }
                    assert forall|pp: int, yy: int, xx: int, dd: int|
                        agg_cost.valid(pp, yy, xx, dd) implies agg_cost.at(pp, yy, xx, dd) <= 255
                        + gp2 by {
                        if pp == pint && yy == ri && xx == ci && dd == di {
                            assert(agg_cost.at(pint, ri, ci, di) == v);
                            assert(v <= 255 + gp2);
                        } else {
                            assert(agg_cost.at(pp, yy, xx, dd) == agg0.at(pp, yy, xx, dd));
                            assert(agg0.valid(pp, yy, xx, dd));
                            assert(agg0.at(pp, yy, xx, dd) <= 255 + gp2);
                        }
                    }
                    lemma_orient_sum_bounds(c, gp1, gp2, fwd, ri, ci, di, pint);
                    assert(pint * (255 + gp2) <= 7 * (255 + gp2)) by (nonlinear_arith)
                        requires
                            pint <= 7,
                            0 <= gp2,
                    ;
                }
                s = s + v;
            }
            proof {
                assert((pint + 1) * (255 + gp2) == pint * (255 + gp2) + (255 + gp2))
                    by (nonlinear_arith);
            }
            p = p + 1;
        }
        proof {
            lemma_orient_sum_bounds(c, gp1, gp2, fwd, ri, ci, di, 8);
        }
        let cur = sum_cost.get(row, col, d);
        sum_cost.set(row, col, d, cur + s);
        d = d + 1;
    }
}

/// Forward raster sweep (ascending row, ascending column): finalizes the
/// four forward directions at every pixel and adds their values into the
/// summed-cost volume.
fn forward_sweep(
    cost_array: &CostVolume, agg_cost: &mut AggCostVolume, sum_cost: &mut SumCostVolume,
    p1: u32, p2: u32,
)
    requires
        cost_array.wf(),
        old(agg_cost).wf(),
        old(agg_cost).rows == cost_array.rows,
        old(agg_cost).cols == cost_array.cols,
        old(agg_cost).d_range == cost_array.d_range,
        old(sum_cost).wf(),
        old(sum_cost).rows == cost_array.rows,
        old(sum_cost).cols == cost_array.cols,
        old(sum_cost).d_range == cost_array.d_range,
        p1 <= p2,
        p2 <= 100_000_000,
        agg_bounded(*old(agg_cost), p2 as int),
        forall|y: int, x: int, d: int|
            old(sum_cost).valid(y, x, d) ==> old(sum_cost).at(y, x, d) == 0,
    ensures
        final(agg_cost).wf(),
        final(agg_cost).rows == old(agg_cost).rows,
        final(agg_cost).cols == old(agg_cost).cols,
        final(agg_cost).d_range == old(agg_cost).d_range,
        final(sum_cost).wf(),
        final(sum_cost).rows == old(sum_cost).rows,
        final(sum_cost).cols == old(sum_cost).cols,
        final(sum_cost).d_range == old(sum_cost).d_range,
        agg_bounded(*final(agg_cost), p2 as int),
        forall|y: int, x: int|
            0 <= y < cost_array.rows && 0 <= x < cost_array.cols ==> orient_done(
                *final(agg_cost), *cost_array, p1 as int, p2 as int, true, y, x),
        forall|y: int, x: int, d: int|
            final(sum_cost).valid(y, x, d) ==> final(sum_cost).at(y, x, d) == orient_sum_upto(
                *cost_array, p1 as int, p2 as int, true, y, x, d, 8),
{
    let ghost c = *cost_array;
    let ghost gp1 = p1 as int;
    let ghost gp2 = p2 as int;
    let rows = cost_array.rows;
    let cols = cost_array.cols;
    let mut row: usize = 0;
    while row < rows
        invariant
            c == *cost_array,
            gp1 == p1 as int,
            gp2 == p2 as int,
            cost_array.wf(),
            agg_cost.wf(),
            agg_cost.rows == cost_array.rows,
            agg_cost.cols == cost_array.cols,
            agg_cost.d_range == cost_array.d_range,
            sum_cost.wf(),
            sum_cost.rows == cost_array.rows,
            sum_cost.cols == cost_array.cols,
            sum_cost.d_range == cost_array.d_range,
            rows == cost_array.rows,
            cols == cost_array.cols,
            p1 <= p2,
            p2 <= 100_000_000,
            row <= rows,
            agg_bounded(*agg_cost, gp2),
            forall|y: int, x: int|
                0 <= y < row && 0 <= x < cols ==> orient_done(*agg_cost, c, gp1, gp2, true, y,
                    x),
            forall|y: int, x: int, d: int|
                sum_cost.valid(y, x, d) && y < row ==> sum_cost.at(y, x, d) == orient_sum_upto(
                    c, gp1, gp2, true, y, x, d, 8),
            forall|y: int, x: int, d: int|
                sum_cost.valid(y, x, d) && y >= row ==> sum_cost.at(y, x, d) == 0,
        decreases rows - row,
    {
        let ghost ri = row as int;
        let mut col: usize = 0;
        while col < cols
            invariant
                c == *cost_array,
                gp1 == p1 as int,
                gp2 == p2 as int,
                ri == row as int,
                cost_array.wf(),
                agg_cost.wf(),
                agg_cost.rows == cost_array.rows,
                agg_cost.cols == cost_array.cols,
                agg_cost.d_range == cost_array.d_range,
                sum_cost.wf(),
                sum_cost.rows == cost_array.rows,
                sum_cost.cols == cost_array.cols,
                sum_cost.d_range == cost_array.d_range,
                rows == cost_array.rows,
                cols == cost_array.cols,
                p1 <= p2,
                p2 <= 100_000_000,
                row < rows,
                col <= cols,
                agg_bounded(*agg_cost, gp2),
                forall|y: int, x: int|
                    (0 <= y < ri && 0 <= x < cols) || (y == ri && 0 <= x < col) ==> orient_done(
                        *agg_cost, c, gp1, gp2, true, y, x),
                forall|y: int, x: int, d: int|
                    sum_cost.valid(y, x, d) && (y < ri || (y == ri && x < col)) ==> sum_cost.at(
                        y, x, d) == orient_sum_upto(c, gp1, gp2, true, y, x, d, 8),
                forall|y: int, x: int, d: int|
                    sum_cost.valid(y, x, d) && (y > ri || (y == ri && x >= col)) ==> sum_cost.at(
                        y, x, d) == 0,
            decreases cols - col,
        {
            let ghost ci = col as int;
            let ghost agg0 = *agg_cost;
            let ghost sum0 = *sum_cost;
            proof {
                assert forall|p: int|
                    0 <= p < 8 && path_forward(p) == true && has_pred(c, p, ri, ci)
                    implies dir_done(*agg_cost, c, gp1, gp2, p, pred_row(p, ri), pred_col(p,
                        ci)) by {
                    let py = pred_row(p, ri);
                    let px = pred_col(p, ci);
                    assert(py < ri || (py == ri && px < ci));
                    assert(orient_done(*agg_cost, c, gp1, gp2, true, py, px));
                }
            }
            aggregate_pixel(row, col, true, p1, p2, cost_array, agg_cost, sum_cost);
            proof {
                assert forall|y: int, x: int|
                    (0 <= y < ri && 0 <= x < cols) || (y == ri && 0 <= x < ci + 1)
                    implies orient_done(*agg_cost, c, gp1, gp2, true, y, x) by {
                    if y == ri && x == ci {
                    } else {
                        assert(orient_done(agg0, c, gp1, gp2, true, y, x));
                        assert forall|p: int, k: int|
                            0 <= p < 8 && path_forward(p) == true && 0 <= k < c.d_range
                            implies agg_cost.at(p, y, x, k) == path_cost(c, gp1, gp2, p, y, x,
                                k) by {
                            assert(agg_cost.at(p, y, x, k) == agg0.at(p, y, x, k));
                            assert(dir_done(agg0, c, gp1, gp2, p, y, x));
                        }
                        assert forall|p: int|
                            0 <= p < 8 && path_forward(p) == true
                            implies dir_done(*agg_cost, c, gp1, gp2, p, y, x) by {
                        }
                    }
                }
                assert forall|y: int, x: int, d: int|
                    sum_cost.valid(y, x, d) && (y < ri || (y == ri && x < ci + 1))
                    implies sum_cost.at(y, x, d) == orient_sum_upto(c, gp1, gp2, true, y, x, d,
                        8) by {
                    if y == ri && x == ci {
                        assert(sum0.at(y, x, d) == 0);
                    } else {
                        assert(sum_cost.at(y, x, d) == sum0.at(y, x, d));
                    }
                }
                assert forall|y: int, x: int, d: int|
                    sum_cost.valid(y, x, d) && (y > ri || (y == ri && x >= ci + 1))
                    implies sum_cost.at(y, x, d) == 0 by {
                    assert(sum_cost.at(y, x, d) == sum0.at(y, x, d));
                }
            }
            col = col + 1;
        }
        row = row + 1;
    }
}

/// Reverse raster sweep (descending row, descending column): finalizes the
/// four backward directions at every pixel and adds their values into the
/// summed-cost volume, leaving the forward directions' aggregated values
/// untouched.
fn backward_sweep(
    cost_array: &CostVolume, agg_cost: &mut AggCostVolume, sum_cost: &mut SumCostVolume,
    p1: u32, p2: u32,
)
    requires
        cost_array.wf(),
        old(agg_cost).wf(),
        old(agg_cost).rows == cost_array.rows,
        old(agg_cost).cols == cost_array.cols,
        old(agg_cost).d_range == cost_array.d_range,
        old(sum_cost).wf(),
        old(sum_cost).rows == cost_array.rows,
        old(sum_cost).cols == cost_array.cols,
        old(sum_cost).d_range == cost_array.d_range,
        p1 <= p2,
        p2 <= 100_000_000,
        agg_bounded(*old(agg_cost), p2 as int),
        forall|y: int, x: int, d: int|
            old(sum_cost).valid(y, x, d) ==> old(sum_cost).at(y, x, d) <= 8 * (255 + p2),
    ensures
        final(agg_cost).wf(),
        final(agg_cost).rows == old(agg_cost).rows,
        final(agg_cost).cols == old(agg_cost).cols,
        final(agg_cost).d_range == old(agg_cost).d_range,
        final(sum_cost).wf(),
        final(sum_cost).rows == old(sum_cost).rows,
        final(sum_cost).cols == old(sum_cost).cols,
        final(sum_cost).d_range == old(sum_cost).d_range,
        agg_bounded(*final(agg_cost), p2 as int),
        forall|y: int, x: int|
            0 <= y < cost_array.rows && 0 <= x < cost_array.cols ==> orient_done(
                *final(agg_cost), *cost_array, p1 as int, p2 as int, false, y, x),
        forall|p: int, y: int, x: int, d: int|
            final(agg_cost).valid(p, y, x, d) && path_forward(p) ==> final(agg_cost).at(p, y, x,
                d) == old(agg_cost).at(p, y, x, d),
        forall|y: int, x: int, d: int|
            final(sum_cost).valid(y, x, d) ==> final(sum_cost).at(y, x, d) == old(sum_cost).at(
                y, x, d) + orient_sum_upto(*cost_array, p1 as int, p2 as int, false, y, x, d, 8),
{
    let ghost c = *cost_array;
    let ghost gp1 = p1 as int;
    let ghost gp2 = p2 as int;
    let rows = cost_array.rows;
    let cols = cost_array.cols;
    let mut row: usize = rows;
    while row > 0
        invariant
            c == *cost_array,
            gp1 == p1 as int,
            gp2 == p2 as int,
            cost_array.wf(),
            agg_cost.wf(),
            agg_cost.rows == cost_array.rows,
            agg_cost.cols == cost_array.cols,
            agg_cost.d_range == cost_array.d_range,
            sum_cost.wf(),
            sum_cost.rows == cost_array.rows,
            sum_cost.cols == cost_array.cols,
            sum_cost.d_range == cost_array.d_range,
            rows == cost_array.rows,
            cols == cost_array.cols,
            p1 <= p2,
            p2 <= 100_000_000,
            row <= rows,
            agg_bounded(*agg_cost, gp2),
            forall|y: int, x: int|
                row <= y < rows && 0 <= x < cols ==> orient_done(*agg_cost, c, gp1, gp2, false,
                    y, x),
            forall|p: int, y: int, x: int, d: int|
                agg_cost.valid(p, y, x, d) && path_forward(p) ==> agg_cost.at(p, y, x, d) == old(
                    agg_cost).at(p, y, x, d),
            old(sum_cost).rows == cost_array.rows,
            old(sum_cost).cols == cost_array.cols,
            old(sum_cost).d_range == cost_array.d_range,
            forall|y: int, x: int, d: int|
                old(sum_cost).valid(y, x, d) ==> old(sum_cost).at(y, x, d) <= 8 * (255 + gp2),
            forall|y: int, x: int, d: int|
                sum_cost.valid(y, x, d) && y >= row ==> sum_cost.at(y, x, d) == old(sum_cost).at(
                    y, x, d) + orient_sum_upto(c, gp1, gp2, false, y, x, d, 8),
            forall|y: int, x: int, d: int|
                sum_cost.valid(y, x, d) && y < row ==> sum_cost.at(y, x, d) == old(sum_cost).at(
                    y, x, d),
        decreases row,
    {
        row = row - 1;
        let ghost ri = row as int;
        let mut col: usize = cols;
        while col > 0
            invariant
                c == *cost_array,
                gp1 == p1 as int,
                gp2 == p2 as int,
                ri == row as int,
                cost_array.wf(),
                agg_cost.wf(),
                agg_cost.rows == cost_array.rows,
                agg_cost.cols == cost_array.cols,
                agg_cost.d_range == cost_array.d_range,
                sum_cost.wf(),
                sum_cost.rows == cost_array.rows,
                sum_cost.cols == cost_array.cols,
                sum_cost.d_range == cost_array.d_range,
                rows == cost_array.rows,
                cols == cost_array.cols,
                p1 <= p2,
                p2 <= 100_000_000,
                row < rows,
                col <= cols,
                agg_bounded(*agg_cost, gp2),
                forall|y: int, x: int|
                    (ri < y < rows && 0 <= x < cols) || (y == ri && col <= x < cols)
                        ==> orient_done(*agg_cost, c, gp1, gp2, false, y, x),
                forall|p: int, y: int, x: int, d: int|
                    agg_cost.valid(p, y, x, d) && path_forward(p) ==> agg_cost.at(p, y, x, d)
                        == old(agg_cost).at(p, y, x, d),
                old(sum_cost).rows == cost_array.rows,
                old(sum_cost).cols == cost_array.cols,
                old(sum_cost).d_range == cost_array.d_range,
                forall|y: int, x: int, d: int|
                    old(sum_cost).valid(y, x, d) ==> old(sum_cost).at(y, x, d) <= 8 * (255 + gp2),
                forall|y: int, x: int, d: int|
                    sum_cost.valid(y, x, d) && (y > ri || (y == ri && x >= col)) ==> sum_cost.at(
                        y, x, d) == old(sum_cost).at(y, x, d) + orient_sum_upto(c, gp1, gp2,
                        false, y, x, d, 8),
                forall|y: int, x: int, d: int|
                    sum_cost.valid(y, x, d) && (y < ri || (y == ri && x < col)) ==> sum_cost.at(
                        y, x, d) == old(sum_cost).at(y, x, d),
            decreases col,
        {
            col = col - 1;
            let ghost ci = col as int;
            let ghost agg0 = *agg_cost;
            let ghost sum0 = *sum_cost;
            proof {
                assert forall|p: int|
                    0 <= p < 8 && path_forward(p) == false && has_pred(c, p, ri, ci)
                    implies dir_done(*agg_cost, c, gp1, gp2, p, pred_row(p, ri), pred_col(p,
                        ci)) by {
                    let py = pred_row(p, ri);
                    let px = pred_col(p, ci);
                    assert(py > ri || (py == ri && px > ci));
                    assert(orient_done(*agg_cost, c, gp1, gp2, false, py, px));
                }
                assert forall|d: int|
                    0 <= d < cost_array.d_range implies sum_cost.at(ri, ci, d) <= 8 * (255
                    + gp2) by {
                    assert(old(sum_cost).valid(ri, ci, d));
                    assert(sum_cost.at(ri, ci, d) == old(sum_cost).at(ri, ci, d));
                }
            }
            aggregate_pixel(row, col, false, p1, p2, cost_array, agg_cost, sum_cost);
            proof {
                assert forall|y: int, x: int|
                    (ri < y < rows && 0 <= x < cols) || (y == ri && ci <= x < cols)
                    implies orient_done(*agg_cost, c, gp1, gp2, false, y, x) by {
                    if y == ri && x == ci {
                    } else {
                        assert(orient_done(agg0, c, gp1, gp2, false, y, x));
                        assert forall|p: int, k: int|
                            0 <= p < 8 && path_forward(p) == false && 0 <= k < c.d_range
                            implies agg_cost.at(p, y, x, k) == path_cost(c, gp1, gp2, p, y, x,
                                k) by {
                            assert(agg_cost.at(p, y, x, k) == agg0.at(p, y, x, k));
                            assert(dir_done(agg0, c, gp1, gp2, p, y, x));
                        }
                        assert forall|p: int|
                            0 <= p < 8 && path_forward(p) == false
                            implies dir_done(*agg_cost, c, gp1, gp2, p, y, x) by {
                        }
                    }
                }
                assert forall|p: int, y: int, x: int, d: int|
                    agg_cost.valid(p, y, x, d) && path_forward(p)
                    implies agg_cost.at(p, y, x, d) == old(agg_cost).at(p, y, x, d) by {
                    assert(agg_cost.at(p, y, x, d) == agg0.at(p, y, x, d));
                }
                assert forall|y: int, x: int, d: int|
                    sum_cost.valid(y, x, d) && (y > ri || (y == ri && x >= ci))
                    implies sum_cost.at(y, x, d) == old(sum_cost).at(y, x, d) + orient_sum_upto(
                        c, gp1, gp2, false, y, x, d, 8) by {
                    if !(y == ri && x == ci) {
                        assert(sum_cost.at(y, x, d) == sum0.at(y, x, d));
                    }
                }
                assert forall|y: int, x: int, d: int|
                    sum_cost.valid(y, x, d) && (y < ri || (y == ri && x < ci))
                    implies sum_cost.at(y, x, d) == old(sum_cost).at(y, x, d) by {
                    assert(sum_cost.at(y, x, d) == sum0.at(y, x, d));
                }
            }
        }
    }
}

/// Aggregates the raw costs along all eight scan directions, leaving every
/// pixel's summed-cost entry at the sum of its eight finalized per-direction
/// values: a forward raster sweep orders the four forward directions, then a
/// reverse sweep the four backward ones.
pub fn aggregate_cost_for_each_scanline(
    cost_array: &CostVolume, agg_cost: &mut AggCostVolume, sum_cost: &mut SumCostVolume,
    p1: u32, p2: u32,
)
    requires
        cost_array.wf(),
        old(agg_cost).wf(),
        old(agg_cost).rows == cost_array.rows,
        old(agg_cost).cols == cost_array.cols,
        old(agg_cost).d_range == cost_array.d_range,
        old(sum_cost).wf(),
        old(sum_cost).rows == cost_array.rows,
        old(sum_cost).cols == cost_array.cols,
        old(sum_cost).d_range == cost_array.d_range,
        p1 <= p2,
        p2 <= 100_000_000,
        forall|p: int, y: int, x: int, d: int|
            old(agg_cost).valid(p, y, x, d) ==> old(agg_cost).at(p, y, x, d) == 0,
        forall|y: int, x: int, d: int|
            old(sum_cost).valid(y, x, d) ==> old(sum_cost).at(y, x, d) == 0,
    ensures
        final(agg_cost).wf(),
        final(agg_cost).rows == old(agg_cost).rows,
        final(agg_cost).cols == old(agg_cost).cols,
        final(agg_cost).d_range == old(agg_cost).d_range,
        final(sum_cost).wf(),
        final(sum_cost).rows == old(sum_cost).rows,
        final(sum_cost).cols == old(sum_cost).cols,
        final(sum_cost).d_range == old(sum_cost).d_range,
        forall|p: int, y: int, x: int, d: int|
            final(agg_cost).valid(p, y, x, d) ==> final(agg_cost).at(p, y, x, d) == path_cost(
                *cost_array, p1 as int, p2 as int, p, y, x, d),
        forall|y: int, x: int, d: int|
            final(sum_cost).valid(y, x, d) ==> final(sum_cost).at(y, x, d) == total_cost(
                *cost_array, p1 as int, p2 as int, y, x, d),
{
    let ghost c = *cost_array;
    let ghost gp1 = p1 as int;
    let ghost gp2 = p2 as int;
    forward_sweep(cost_array, agg_cost, sum_cost, p1, p2);
    let ghost agg1 = *agg_cost;
    proof {
        assert forall|y: int, x: int, d: int|
            sum_cost.valid(y, x, d) implies sum_cost.at(y, x, d) <= 8 * (255 + gp2) by {
            lemma_orient_sum_bounds(c, gp1, gp2, true, y, x, d, 8);
        }
    }
    backward_sweep(cost_array, agg_cost, sum_cost, p1, p2);
    proof {
        assert forall|p: int, y: int, x: int, d: int|
            agg_cost.valid(p, y, x, d) implies agg_cost.at(p, y, x, d) == path_cost(c, gp1,
                gp2, p, y, x, d) by {
            if path_forward(p) {
                assert(agg_cost.at(p, y, x, d) == agg1.at(p, y, x, d));
                assert(orient_done(agg1, c, gp1, gp2, true, y, x));
                assert(dir_done(agg1, c, gp1, gp2, p, y, x));
            } else {
                assert(orient_done(*agg_cost, c, gp1, gp2, false, y, x));
                assert(dir_done(*agg_cost, c, gp1, gp2, p, y, x));
            }
        }
    }
}

} // verus!
