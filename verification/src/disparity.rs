//! Winner-take-all disparity selection from the summed cost volume.

use vstd::prelude::*;
use crate::grid::Image;
use crate::volumes::SumCostVolume;

verus! {

/// The first index in 0..n minimizing `f`: the incumbent is replaced only
/// on strictly smaller cost while scanning upward, so ties keep the
/// smallest index.
pub open spec fn argmin_upto(f: spec_fn(int) -> int, n: int) -> int
    decreases n,
{
    if n <= 1 {
        0
    } else {
        let b = argmin_upto(f, n - 1);
        if f(n - 1) < f(b) {
            n - 1
        } else {
            b
        }
    }
}

/// The summed costs of pixel (y, x) as a function of the disparity index.
pub open spec fn sum_slice(s: SumCostVolume, y: int, x: int) -> spec_fn(int) -> int {
    |d: int| s.at(y, x, d)
}

/// The winner lies in range, attains the minimum, and is the least index
/// among the minima.
pub proof fn lemma_argmin_upto_properties(f: spec_fn(int) -> int, n: int)
    requires
        1 <= n,
    ensures
        0 <= argmin_upto(f, n) < n,
        forall|d: int| 0 <= d < n ==> f(argmin_upto(f, n)) <= #[trigger] f(d),
        forall|d: int| 0 <= d < argmin_upto(f, n) ==> #[trigger] f(d) > f(argmin_upto(f, n)),
    decreases n,
{
    if n > 1 {
        lemma_argmin_upto_properties(f, n - 1);
    }
}

/// When index zero attains the minimum over 0..n, it is the winner: ties
/// break to the smallest index.
pub proof fn lemma_argmin_upto_zero(f: spec_fn(int) -> int, n: int)
    requires
        1 <= n,
        forall|d: int| 0 <= d < n ==> #[trigger] f(d) >= f(0),
    ensures
        argmin_upto(f, n) == 0,
{
    lemma_argmin_upto_properties(f, n);
    let b = argmin_upto(f, n);
    if b > 0 {
        assert(f(0) > f(b));
        assert(f(b) >= f(0));
    }
}

/// Two cost functions that agree on 0..n share the same winner.
pub proof fn lemma_argmin_upto_congruence(f: spec_fn(int) -> int, g: spec_fn(int) -> int, n: int)
    requires
        forall|d: int| 0 <= d < n ==> #[trigger] f(d) == g(d),
    ensures
        argmin_upto(f, n) == argmin_upto(g, n),
    decreases n,
{
    if n > 1 {
        lemma_argmin_upto_congruence(f, g, n - 1);
        lemma_argmin_upto_properties(f, n - 1);
        assert(f(n - 1) == g(n - 1));
        assert(f(argmin_upto(f, n - 1)) == g(argmin_upto(g, n - 1)));
    }
}

/// Picks, for every pixel, the least disparity index minimizing that
/// pixel's summed cost.
pub fn calc_disparity(sum_cost: &SumCostVolume) -> (r: Image)
    requires
        sum_cost.wf(),
        1 <= sum_cost.d_range <= 256,
    ensures
        r.wf(),
        r.width == sum_cost.cols,
        r.height == sum_cost.rows,
        forall|x: int, y: int|
            r.in_bounds(x, y) ==> r.pixel(x, y) as int == argmin_upto(
                sum_slice(*sum_cost, y, x), sum_cost.d_range as int),
        forall|x: int, y: int| r.in_bounds(x, y) ==> r.pixel(x, y) < sum_cost.d_range,
{
    let ghost s = *sum_cost;
    let rows = sum_cost.rows;
    let cols = sum_cost.cols;
    let dr = sum_cost.d_range;
    proof {
        vstd::std_specs::vec::axiom_spec_len(&sum_cost.data);
        assert(rows * cols <= rows * cols * dr) by (nonlinear_arith)
            requires 1 <= dr, 0 <= rows, 0 <= cols,
        ;
    }
    let mut disp = Image::new(cols, rows);
    let mut y: usize = 0;
    while y < rows
        invariant
            s == *sum_cost,
            sum_cost.wf(),
            rows == sum_cost.rows,
            cols == sum_cost.cols,
            dr == sum_cost.d_range,
            1 <= dr <= 256,
            y <= rows,
            disp.wf(),
            disp.width == cols,
            disp.height == rows,
            forall|xx: int, yy: int|
                disp.in_bounds(xx, yy) && yy < y ==> disp.pixel(xx, yy) as int == argmin_upto(
                    sum_slice(s, yy, xx), dr as int),
            forall|xx: int, yy: int|
                disp.in_bounds(xx, yy) && yy < y ==> disp.pixel(xx, yy) < dr,
        decreases rows - y,
    {
        let mut x: usize = 0;
        while x < cols
            invariant
                s == *sum_cost,
                sum_cost.wf(),
                rows == sum_cost.rows,
                cols == sum_cost.cols,
                dr == sum_cost.d_range,
                1 <= dr <= 256,
                y < rows,
                x <= cols,
                disp.wf(),
                disp.width == cols,
                disp.height == rows,
                forall|xx: int, yy: int|
                    disp.in_bounds(xx, yy) && (yy < y || (yy == y && xx < x)) ==> disp.pixel(xx,
                        yy) as int == argmin_upto(sum_slice(s, yy, xx), dr as int),
                forall|xx: int, yy: int|
                    disp.in_bounds(xx, yy) && (yy < y || (yy == y && xx < x)) ==> disp.pixel(xx,
                        yy) < dr,
            decreases cols - x,
        {
            let mut best: usize = 0;
            let mut bestv = sum_cost.get(y, x, 0);
            let mut d: usize = 1;
            while d < dr
                invariant
                    s == *sum_cost,
                    sum_cost.wf(),
                    rows == sum_cost.rows,
                    cols == sum_cost.cols,
                    dr == sum_cost.d_range,
                    y < rows,
                    x < cols,
                    1 <= d <= dr,
                    best < d,
                    best as int == argmin_upto(sum_slice(s, y as int, x as int), d as int),
                    bestv as int == s.at(y as int, x as int, best as int),
                decreases dr - d,
            {
                let v = sum_cost.get(y, x, d);
                if v < bestv {
                    best = d;
                    bestv = v;
                }
                d = d + 1;
            }
            proof {
                assert(best < dr);
            }
            let ghost disp0 = disp;
            disp.set(x, y, best as u8);
            proof {
                assert(disp.pixel(x as int, y as int) as int == best as int);
                assert forall|xx: int, yy: int|
                    disp.in_bounds(xx, yy) && (yy < y || (yy == y && xx < x + 1))
                    implies disp.pixel(xx, yy) as int == argmin_upto(sum_slice(s, yy, xx),
                        dr as int) && disp.pixel(xx, yy) < dr by {
                    if !(xx == x as int && yy == y as int) {
                        assert(disp.pixel(xx, yy) == disp0.pixel(xx, yy));
                        assert(disp0.in_bounds(xx, yy));
                    }
                }
            }
            x = x + 1;
        }
        y = y + 1;
    }
    disp
}

} // verus!
