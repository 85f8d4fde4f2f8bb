//! Matching-cost volume: the Hamming distance between census descriptors of
//! the left image and the disparity-shifted right image.

use vstd::prelude::*;
use crate::grid::Image;
use crate::hamming::{calc_hamming_distance, hamming};
use crate::volumes::CostVolume;

verus! {

/// The matching cost of pixel (x, y) at disparity `d`: the Hamming distance
/// between the left descriptor and the right descriptor `d` columns to the
/// left. Where x - d falls outside the frame, the right descriptor is taken
/// to be all-zero rather than the disparity being skipped — a deliberate,
/// known approximation at the left border that biases the cost toward
/// whatever a zero descriptor encodes.
pub open spec fn pixel_cost(census_l: Image, census_r: Image, y: int, x: int, d: int) -> int {
    if d <= x {
        hamming(census_l.pixel(x, y), census_r.pixel(x - d, y))
    } else {
        hamming(census_l.pixel(x, y), 0)
    }
}

/// `c` holds the matching cost of every pixel and candidate disparity for
/// the two descriptor planes.
pub open spec fn is_cost_volume_of(c: CostVolume, census_l: Image, census_r: Image) -> bool {
    &&& c.wf()
    &&& c.rows == census_l.height
    &&& c.cols == census_l.width
    &&& forall|y: int, x: int, d: int|
        c.valid(y, x, d) ==> c.at(y, x, d) == pixel_cost(census_l, census_r, y, x, d)
}

/// Builds the full cost volume over `d_range` candidate disparities from
/// the two census-descriptor planes.
pub fn calc_pixel_cost(census_l: &Image, census_r: &Image, d_range: usize) -> (r: CostVolume)
    requires
        census_l.wf(),
        census_r.wf(),
        census_l.width == census_r.width,
        census_l.height == census_r.height,
        1 <= d_range,
        census_l.height * census_l.width * d_range <= usize::MAX,
    ensures
        is_cost_volume_of(r, *census_l, *census_r),
        r.d_range == d_range,
{
    let imgx = census_l.width;
    let imgy = census_l.height;
    let mut ans = CostVolume::new(imgy, imgx, d_range);
    let mut y: usize = 0;
    while y < imgy
        invariant
            census_l.wf(),
            census_r.wf(),
            census_l.width == census_r.width == imgx,
            census_l.height == census_r.height == imgy,
            y <= imgy,
            ans.wf(),
            ans.rows == imgy,
            ans.cols == imgx,
            ans.d_range == d_range,
            forall|yy: int, xx: int, dd: int|
                ans.valid(yy, xx, dd) && yy < y ==> ans.at(yy, xx, dd) == pixel_cost(
                    *census_l, *census_r, yy, xx, dd),
        decreases imgy - y,
    {
        let mut x: usize = 0;
        while x < imgx
            invariant
                census_l.wf(),
                census_r.wf(),
                census_l.width == census_r.width == imgx,
                census_l.height == census_r.height == imgy,
                y < imgy,
                x <= imgx,
                ans.wf(),
                ans.rows == imgy,
                ans.cols == imgx,
                ans.d_range == d_range,
                forall|yy: int, xx: int, dd: int|
                    ans.valid(yy, xx, dd) && (yy < y || (yy == y && xx < x)) ==> ans.at(yy, xx,
                        dd) == pixel_cost(*census_l, *census_r, yy, xx, dd),
            decreases imgx - x,
        {
            let val_l = census_l.get(x, y);
            let mut d: usize = 0;
            while d < d_range
                invariant
                    census_l.wf(),
                    census_r.wf(),
                    census_l.width == census_r.width == imgx,
                    census_l.height == census_r.height == imgy,
                    y < imgy,
                    x < imgx,
                    d <= d_range,
                    val_l == census_l.pixel(x as int, y as int),
                    ans.wf(),
                    ans.rows == imgy,
                    ans.cols == imgx,
                    ans.d_range == d_range,
                    forall|yy: int, xx: int, dd: int|
                        ans.valid(yy, xx, dd) && (yy < y || (yy == y && xx < x) || (yy == y && xx
                            == x && dd < d)) ==> ans.at(yy, xx, dd) == pixel_cost(*census_l,
                            *census_r, yy, xx, dd),
                decreases d_range - d,
            {
                let cost = if d <= x {
                    calc_hamming_distance(val_l, census_r.get(x - d, y))
                } else {
                    calc_hamming_distance(val_l, 0)
                };
                ans.set(y, x, d, cost);
                d = d + 1;
            }
            x = x + 1;
        }
        y = y + 1;
    }
    ans
}

} // verus!
