//! Census transform: a per-pixel local binary pattern descriptor.
//!
//! Each interior pixel compares its eight ring neighbors against its own
//! intensity, in a fixed visiting order, and packs one bit per neighbor into
//! an 8-bit accumulator by an add-then-shift step. The step drops the bit
//! shifted out of the 8-bit window, so the first neighbor's bit is lost and
//! the remaining seven occupy bit positions 7 down to 1; the encoding is
//! order-sensitive. Border pixels are left at zero.

use vstd::prelude::*;
use crate::grid::Image;
use crate::indexing::lemma_row_major_inverse;

verus! {

/// One packing step: add bit `b` to the accumulator, then shift left by one
/// inside the 8-bit window.
pub open spec fn census_step(v: int, b: int) -> int {
    ((v + b) % 128) * 2
}

/// The comparison bit for neighbor (nx, ny) of center (cx, cy): zero when
/// the neighbor is strictly darker than the center, one otherwise (so equal
/// intensities count as "not darker").
pub open spec fn census_bit(img: Image, cx: int, cy: int, nx: int, ny: int) -> int {
    if img.pixel(nx, ny) < img.pixel(cx, cy) {
        0
    } else {
        1
    }
}

/// The descriptor of interior pixel (x, y): the eight neighbors visited in
/// fixed order, column x-1 top to bottom, then (x, y-1), (x, y+1), then
/// column x+1 top to bottom.
pub open spec fn census_at(img: Image, x: int, y: int) -> int {
    let v1 = census_step(0, census_bit(img, x, y, x - 1, y - 1));
    let v2 = census_step(v1, census_bit(img, x, y, x - 1, y));
    let v3 = census_step(v2, census_bit(img, x, y, x - 1, y + 1));
    let v4 = census_step(v3, census_bit(img, x, y, x, y - 1));
    let v5 = census_step(v4, census_bit(img, x, y, x, y + 1));
    let v6 = census_step(v5, census_bit(img, x, y, x + 1, y - 1));
    let v7 = census_step(v6, census_bit(img, x, y, x + 1, y));
    census_step(v7, census_bit(img, x, y, x + 1, y + 1))
}

/// Whether (x, y) is an interior pixel of `img`, away from every border.
pub open spec fn interior(img: Image, x: int, y: int) -> bool {
    1 <= x < img.width - 1 && 1 <= y < img.height - 1
}

/// The value of the descriptor plane at (x, y): the census descriptor on
/// interior pixels, zero on border pixels.
pub open spec fn census_val(img: Image, x: int, y: int) -> int {
    if interior(img, x, y) {
        census_at(img, x, y)
    } else {
        0
    }
}

/// `c` is the census-descriptor plane of `img`.
pub open spec fn is_census_of(c: Image, img: Image) -> bool {
    &&& c.wf()
    &&& c.width == img.width
    &&& c.height == img.height
    &&& forall|x: int, y: int| c.in_bounds(x, y) ==> c.pixel(x, y) == census_val(img, x, y)
}

/// One executed packing step, matching `census_step` on the 8-bit
/// accumulator.
fn census_update(v: u8, neighbor: u8, center: u8) -> (r: u8)
    requires
        v <= 254,
    ensures
        r as int == census_step(v as int, if neighbor < center { 0int } else { 1int }),
        r <= 254,
        r % 2 == 0,
{
    let b: u8 = if neighbor < center { 0 } else { 1 };
    ((v + b) % 128) * 2
}

/// Computes the census-descriptor plane of `img`. Border pixels of the
/// result are zero; each interior pixel holds its packed neighborhood
/// descriptor.
pub fn census_transform(img: &Image) -> (r: Image)
    requires
        img.wf(),
        3 <= img.width,
        3 <= img.height,
    ensures
        is_census_of(r, *img),
{
    let imgx = img.width;
    let imgy = img.height;
    proof {
        vstd::std_specs::vec::axiom_spec_len(&img.data);
    }
    let mut census = Image::new(imgx, imgy);
    let mut x: usize = 1;
    while x < imgx - 1
        invariant
            img.wf(),
            3 <= imgx == img.width,
            3 <= imgy == img.height,
            1 <= x <= imgx - 1,
            census.wf(),
            census.width == imgx,
            census.height == imgy,
            forall|xx: int, yy: int|
                census.in_bounds(xx, yy) && (xx < x || !interior(*img, xx, yy)) ==> census.pixel(
                    xx, yy) == census_val(*img, xx, yy),
        decreases imgx - 1 - x,
    {
        let mut y: usize = 1;
        while y < imgy - 1
            invariant
                img.wf(),
                3 <= imgx == img.width,
                3 <= imgy == img.height,
                1 <= x < imgx - 1,
                1 <= y <= imgy - 1,
                census.wf(),
                census.width == imgx,
                census.height == imgy,
                forall|xx: int, yy: int|
                    census.in_bounds(xx, yy) && (xx < x || (xx == x && yy < y) || !interior(
                        *img, xx, yy)) ==> census.pixel(xx, yy) == census_val(*img, xx, yy),
            decreases imgy - 1 - y,
        {
            let center = img.get(x, y);
            let mut val: u8 = 0;
            val = census_update(val, img.get(x - 1, y - 1), center);
            val = census_update(val, img.get(x - 1, y), center);
            val = census_update(val, img.get(x - 1, y + 1), center);
            val = census_update(val, img.get(x, y - 1), center);
            val = census_update(val, img.get(x, y + 1), center);
            val = census_update(val, img.get(x + 1, y - 1), center);
            val = census_update(val, img.get(x + 1, y), center);
            val = census_update(val, img.get(x + 1, y + 1), center);
            assert(val as int == census_at(*img, x as int, y as int));
            census.set(x, y, val);
            y = y + 1;
        }
        x = x + 1;
    }
    census
}

/// The census transform is a pure function of its input: any two descriptor
/// planes of the same image are byte-identical, and their border entries are
/// zero.
pub proof fn lemma_census_deterministic(a: Image, b: Image, img: Image)
    requires
        is_census_of(a, img),
        is_census_of(b, img),
    ensures
        a.width == b.width,
        a.height == b.height,
        a.data@ == b.data@,
{
    let w = a.width as int;
    let h = a.height as int;
    assert(a.data@.len() == b.data@.len());
    assert forall|i: int| 0 <= i < a.data@.len() implies a.data@[i] == b.data@[i] by {
        assert(0 < w) by (nonlinear_arith)
            requires 0 <= i < w * h, 0 <= w,
        ;
        lemma_row_major_inverse(i, w, h);
        let y = i / w;
        let x = i % w;
        assert(a.pixel(x, y) == census_val(img, x, y));
        assert(b.pixel(x, y) == census_val(img, x, y));
    }
    assert(a.data@ =~= b.data@);
}

} // verus!
