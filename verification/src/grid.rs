//! A dense row-major grid of 8-bit samples.
//!
//! One type serves all three planar roles of the pipeline: a grayscale input
//! image, a census-descriptor plane, and the final disparity map.

use vstd::prelude::*;
use crate::indexing::{lemma_row_major_distinct, lemma_row_major_index};

verus! {

/// A `width` x `height` grid of bytes, stored row by row.
pub struct Image {
    pub width: usize,
    pub height: usize,
    pub data: Vec<u8>,
}

impl Image {
    /// The grid holds exactly one sample per pixel.
    pub open spec fn wf(self) -> bool {
        self.data@.len() == self.width * self.height
    }

    /// Whether (`x`, `y`) names a pixel of the grid.
    pub open spec fn in_bounds(self, x: int, y: int) -> bool {
        0 <= x < self.width && 0 <= y < self.height
    }

    /// The sample at column `x` of row `y`.
    pub open spec fn pixel(self, x: int, y: int) -> u8 {
        self.data@[y * self.width + x]
    }

    /// A grid of the given dimensions with every sample zero.
    pub fn new(width: usize, height: usize) -> (r: Image)
        requires
            width * height <= usize::MAX,
        ensures
            r.wf(),
            r.width == width,
            r.height == height,
            forall|x: int, y: int| r.in_bounds(x, y) ==> r.pixel(x, y) == 0,
    {
        let total = width * height;
        let mut data: Vec<u8> = Vec::new();
        let mut i: usize = 0;
        while i < total
            invariant
                i <= total,
                data@.len() == i,
                forall|k: int| 0 <= k < i ==> data@[k] == 0,
            decreases total - i,
        {
            data.push(0);
            i = i + 1;
        }
        let r = Image { width, height, data };
        proof {
            assert forall|x: int, y: int| r.in_bounds(x, y) implies r.pixel(x, y) == 0 by {
                lemma_row_major_index(x, y, width as int, height as int);
            }
        }
        r
    }

    /// Reads the sample at (`x`, `y`).
    pub fn get(&self, x: usize, y: usize) -> (r: u8)
        requires
            self.wf(),
            x < self.width,
            y < self.height,
        ensures
            r == self.pixel(x as int, y as int),
    {
        proof {
            vstd::std_specs::vec::axiom_spec_len(&self.data);
            lemma_row_major_index(x as int, y as int, self.width as int, self.height as int);
        }
        self.data[y * self.width + x]
    }

    /// Writes the sample at (`x`, `y`), leaving every other sample as it was.
    pub fn set(&mut self, x: usize, y: usize, v: u8)
        requires
            old(self).wf(),
            x < old(self).width,
            y < old(self).height,
        ensures
            final(self).wf(),
            final(self).width == old(self).width,
            final(self).height == old(self).height,
            final(self).pixel(x as int, y as int) == v,
            forall|x2: int, y2: int|
                final(self).in_bounds(x2, y2) && !(x2 == x as int && y2 == y as int)
                    ==> final(self).pixel(x2, y2) == old(self).pixel(x2, y2),
    {
        proof {
            vstd::std_specs::vec::axiom_spec_len(&self.data);
            lemma_row_major_index(x as int, y as int, self.width as int, self.height as int);
        }
        let idx = y * self.width + x;
        self.data.set(idx, v);
        proof {
            assert forall|x2: int, y2: int|
                self.in_bounds(x2, y2) && !(x2 == x as int && y2 == y as int)
                implies self.pixel(x2, y2) == old(self).pixel(x2, y2) by {
                lemma_row_major_index(x2, y2, self.width as int, self.height as int);
                lemma_row_major_distinct(x2, y2, x as int, y as int, self.width as int);
            }
        }
    }

    /// Wraps a raw row-major byte buffer as an image, when its length
    /// matches the dimensions; returns `None` otherwise.
    pub fn try_from_raw(width: usize, height: usize, data: Vec<u8>) -> (r: Option<Image>)
        ensures
            r is Some <==> width * height == data@.len(),
            r matches Some(img) ==> {
                &&& img.wf()
                &&& img.width == width
                &&& img.height == height
                &&& img.data@ == data@
            },
    {
        let n = data.len();
        match width.checked_mul(height) {
            Some(total) => {
                if n == total {
                    Some(Image { width, height, data })
                } else {
                    None
                }
            },
            None => None,
        }
    }
}

} // verus!
