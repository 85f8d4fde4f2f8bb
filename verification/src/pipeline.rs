//! The full disparity pipeline: census transform, cost volume, scanline
//! aggregation, winner-take-all selection.

use vstd::prelude::*;
use crate::aggregate::{
    aggregate_cost_for_each_scanline, lemma_total_cost_congruence, total_cost,
};
use crate::census::{census_transform, is_census_of};
use crate::cost::{calc_pixel_cost, is_cost_volume_of, pixel_cost};
use crate::disparity::{
    argmin_upto, calc_disparity, lemma_argmin_upto_congruence, sum_slice,
};
use crate::grid::Image;
use crate::indexing::lemma_row_major_inverse;
use crate::volumes::{AggCostVolume, CostVolume, SumCostVolume};

verus! {

/// The small smoothness penalty: charged for a one-step disparity change
/// along a path.
pub const P1: u32 = 3;

/// The large smoothness penalty: charged for any larger disparity jump,
/// chosen well above the small penalty to favor smooth disparity surfaces.
pub const P2: u32 = 10;

/// The direction-summed aggregated costs of `cv` at pixel (y, x), as a
/// function of the disparity index.
pub open spec fn total_slice(cv: CostVolume, p1: int, p2: int, y: int, x: int) -> spec_fn(
    int,
) -> int {
    |d: int| total_cost(cv, p1, p2, y, x, d)
}

/// The stages that link a disparity map `m` to the raw image pair: census
/// planes of both images and a cost volume over them, whose aggregated
/// totals `m` minimizes pixel by pixel, ties to the smallest index.
pub open spec fn pipeline_stages(
    cl: Image, cr: Image, cv: CostVolume, left: Image, right: Image, d_range: int,
) -> bool {
    &&& is_census_of(cl, left)
    &&& is_census_of(cr, right)
    &&& is_cost_volume_of(cv, cl, cr)
    &&& cv.d_range == d_range
}

/// `m` is the disparity map that semi-global matching with penalties `p1`,
/// `p2` over `d_range` candidate disparities assigns to the image pair.
pub open spec fn is_disparity_of(
    m: Image, left: Image, right: Image, d_range: int, p1: int, p2: int,
) -> bool {
    &&& m.wf()
    &&& m.width == left.width
    &&& m.height == left.height
    &&& exists|cl: Image, cr: Image, cv: CostVolume|
        pipeline_stages(cl, cr, cv, left, right, d_range)
    &&& forall|cl: Image, cr: Image, cv: CostVolume|
        pipeline_stages(cl, cr, cv, left, right, d_range) ==> forall|x: int, y: int|
            m.in_bounds(x, y) ==> m.pixel(x, y) as int == argmin_upto(
                total_slice(cv, p1, p2, y, x), d_range)
}

/// Runs the pipeline on a pre-smoothed, rectified grayscale pair with
/// caller-chosen smoothness penalties. Every produced disparity index lies
/// in [0, d_range).
pub fn compute_disp_with_penalties(
    left: &Image, right: &Image, d_range: usize, p1: u32, p2: u32,
) -> (r: Image)
    requires
        left.wf(),
        right.wf(),
        left.width == right.width,
        left.height == right.height,
        3 <= left.width,
        3 <= left.height,
        1 <= d_range <= 256,
        8 * left.height * left.width * d_range <= usize::MAX,
        p1 <= p2,
        p2 <= 100_000_000,
    ensures
        is_disparity_of(r, *left, *right, d_range as int, p1 as int, p2 as int),
        forall|x: int, y: int| r.in_bounds(x, y) ==> r.pixel(x, y) < d_range,
{
    let ghost gp1 = p1 as int;
    let ghost gp2 = p2 as int;
    let ghost gdr = d_range as int;
    proof {
        let h = left.height as int;
        let w = left.width as int;
        let dd = d_range as int;
        assert(8 * h * w * dd == 8 * (h * w * dd) && h * w * dd <= 8 * (h * w * dd))
            by (nonlinear_arith)
            requires
                0 <= h,
                0 <= w,
                0 <= dd,
        ;
    }
    let census_l = census_transform(left);
    let census_r = census_transform(right);
    let cost_array = calc_pixel_cost(&census_l, &census_r, d_range);
    let imgx = census_l.width;
    let imgy = census_l.height;
    let mut agg_cost = AggCostVolume::new(imgy, imgx, d_range);
    let mut sum_cost = SumCostVolume::new(imgy, imgx, d_range);
    aggregate_cost_for_each_scanline(&cost_array, &mut agg_cost, &mut sum_cost, p1, p2);
    let disp = calc_disparity(&sum_cost);
    proof {
        assert(pipeline_stages(census_l, census_r, cost_array, *left, *right, gdr));
        assert forall|cl: Image, cr: Image, cv: CostVolume|
            pipeline_stages(cl, cr, cv, *left, *right, gdr) implies forall|x: int, y: int|
                disp.in_bounds(x, y) ==> disp.pixel(x, y) as int == argmin_upto(
                    total_slice(cv, gp1, gp2, y, x), gdr) by {
            assert(cv.rows == cost_array.rows && cv.cols == cost_array.cols && cv.d_range
                == cost_array.d_range);
            assert forall|yy: int, xx: int, dd: int|
                cv.valid(yy, xx, dd) implies cv.at(yy, xx, dd) == cost_array.at(yy, xx, dd) by {
                assert(cv.at(yy, xx, dd) == pixel_cost(cl, cr, yy, xx, dd));
                assert(cost_array.at(yy, xx, dd) == pixel_cost(census_l, census_r, yy, xx, dd));
                assert(cl.pixel(xx, yy) == census_l.pixel(xx, yy));
                if dd <= xx {
                    assert(cr.pixel(xx - dd, yy) == census_r.pixel(xx - dd, yy));
                }
            }
            assert forall|x: int, y: int| disp.in_bounds(x, y) implies disp.pixel(x, y) as int
                == argmin_upto(total_slice(cv, gp1, gp2, y, x), gdr) by {
                assert forall|dd: int| 0 <= dd < gdr implies total_cost(cv, gp1, gp2, y, x, dd)
                    == sum_cost.at(y, x, dd) by {
                    lemma_total_cost_congruence(cv, cost_array, gp1, gp2, y, x, dd);
                    assert(sum_cost.valid(y, x, dd));
                    assert(sum_cost.at(y, x, dd) == total_cost(cost_array, gp1, gp2, y, x, dd));
                }
                lemma_argmin_upto_congruence(total_slice(cv, gp1, gp2, y, x), sum_slice(
                    sum_cost, y, x), gdr);
            }
        }
    }
    disp
}

/// Runs the full pipeline with the standard penalties. The images must be
/// rectified, equal-sized, at least 3 x 3 (the census border), and already
/// smoothed by the caller's preprocessor.
pub fn compute_disp(left: &Image, right: &Image, d_range: usize) -> (r: Image)
    requires
        left.wf(),
        right.wf(),
        left.width == right.width,
        left.height == right.height,
        3 <= left.width,
        3 <= left.height,
        1 <= d_range <= 256,
        8 * left.height * left.width * d_range <= usize::MAX,
    ensures
        is_disparity_of(r, *left, *right, d_range as int, P1 as int, P2 as int),
        forall|x: int, y: int| r.in_bounds(x, y) ==> r.pixel(x, y) < d_range,
{
    compute_disp_with_penalties(left, right, d_range, P1, P2)
}

/// An image paired with an identical copy of itself gets the all-zero
/// disparity map: at disparity zero every matching cost vanishes, the
/// zero-cost paths carry no penalty, and ties break to the smallest index.
pub proof fn lemma_identical_pair_zero_disparity(
    m: Image, img: Image, d_range: int, p1: int, p2: int,
)
    requires
        is_disparity_of(m, img, img, d_range, p1, p2),
        1 <= d_range,
        0 <= p1 <= p2,
    ensures
        forall|x: int, y: int| m.in_bounds(x, y) ==> m.pixel(x, y) == 0,
{
    let (cl, cr, cv) = choose|cl: Image, cr: Image, cv: CostVolume|
        pipeline_stages(cl, cr, cv, img, img, d_range);
    assert(pipeline_stages(cl, cr, cv, img, img, d_range));
    assert forall|yy: int, xx: int|
        0 <= yy < cv.rows && 0 <= xx < cv.cols implies cv.at(yy, xx, 0) == 0 by {
        assert(cv.valid(yy, xx, 0));
        assert(cv.at(yy, xx, 0) == pixel_cost(cl, cr, yy, xx, 0));
        assert(cl.pixel(xx, yy) == cr.pixel(xx, yy));
        crate::hamming::lemma_hamming_zero_iff_equal(cl.pixel(xx, yy), cr.pixel(xx, yy));
    }
    assert forall|x: int, y: int| m.in_bounds(x, y) implies m.pixel(x, y) == 0 by {
        assert(m.pixel(x, y) as int == argmin_upto(total_slice(cv, p1, p2, y, x), d_range));
        assert(0 <= y < cv.rows && 0 <= x < cv.cols);
        crate::aggregate::lemma_orient_sum_zero(cv, p1, p2, true, y, x, 8);
        crate::aggregate::lemma_orient_sum_zero(cv, p1, p2, false, y, x, 8);
        assert(total_cost(cv, p1, p2, y, x, 0) == 0);
        assert forall|d: int| 0 <= d < d_range implies #[trigger] total_slice(cv, p1, p2, y, x)(
            d) >= total_slice(cv, p1, p2, y, x)(0) by {
            crate::aggregate::lemma_orient_sum_bounds(cv, p1, p2, true, y, x, d, 8);
            crate::aggregate::lemma_orient_sum_bounds(cv, p1, p2, false, y, x, d, 8);
        }
        crate::disparity::lemma_argmin_upto_zero(total_slice(cv, p1, p2, y, x), d_range);
    }
}

/// The pipeline is deterministic: any two disparity maps of the same image
/// pair, disparity range and penalties are byte-identical.
pub proof fn lemma_compute_disp_deterministic(
    m1: Image, m2: Image, left: Image, right: Image, d_range: int, p1: int, p2: int,
)
    requires
        is_disparity_of(m1, left, right, d_range, p1, p2),
        is_disparity_of(m2, left, right, d_range, p1, p2),
    ensures
        m1.width == m2.width,
        m1.height == m2.height,
        m1.data@ == m2.data@,
{
    let (cl, cr, cv) = choose|cl: Image, cr: Image, cv: CostVolume|
        pipeline_stages(cl, cr, cv, left, right, d_range);
    let w = m1.width as int;
    let h = m1.height as int;
    assert(m1.data@.len() == m2.data@.len());
    assert forall|i: int| 0 <= i < m1.data@.len() implies m1.data@[i] == m2.data@[i] by {
        assert(0 < w) by (nonlinear_arith)
            requires
                0 <= i < w * h,
                0 <= w,
        ;
        lemma_row_major_inverse(i, w, h);
        let y = i / w;
        let x = i % w;
        assert(m1.pixel(x, y) as int == argmin_upto(total_slice(cv, p1, p2, y, x), d_range));
        assert(m2.pixel(x, y) as int == argmin_upto(total_slice(cv, p1, p2, y, x), d_range));
    }
    assert(m1.data@ =~= m2.data@);
}

} // verus!
