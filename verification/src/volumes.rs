//! Dense cost volumes: per-pixel matching costs over a disparity range, the
//! per-direction aggregated costs, and their direction-summed total.

use vstd::prelude::*;
use crate::indexing::{lemma_row_major_index, lemma_row_major_distinct, lemma_vol3_index,
    lemma_vol3_distinct};

verus! {

/// A `rows` x `cols` x `d_range` volume of 8-bit matching costs, stored with
/// the disparity index fastest.
pub struct CostVolume {
    pub rows: usize,
    pub cols: usize,
    pub d_range: usize,
    pub data: Vec<u8>,
}

impl CostVolume {
    pub open spec fn wf(self) -> bool {
        self.data@.len() == self.rows * self.cols * self.d_range
    }

    pub open spec fn valid(self, y: int, x: int, d: int) -> bool {
        0 <= y < self.rows && 0 <= x < self.cols && 0 <= d < self.d_range
    }

    pub open spec fn flat(self, y: int, x: int, d: int) -> int {
        (y * self.cols + x) * self.d_range + d
    }

    /// The cost stored for pixel (y, x) at disparity `d`.
    pub open spec fn at(self, y: int, x: int, d: int) -> int {
        self.data@[self.flat(y, x, d)] as int
    }

    /// An all-zero volume of the given dimensions.
    pub fn new(rows: usize, cols: usize, d_range: usize) -> (r: CostVolume)
        requires
            rows * cols * d_range <= usize::MAX,
            1 <= d_range,
        ensures
            r.wf(),
            r.rows == rows,
            r.cols == cols,
            r.d_range == d_range,
            forall|y: int, x: int, d: int| r.valid(y, x, d) ==> r.at(y, x, d) == 0,
    {
        proof {
            assert(rows * cols <= rows * cols * d_range) by (nonlinear_arith)
                requires 1 <= d_range, 0 <= rows, 0 <= cols,
            ;
        }
        let plane = rows * cols;
        let total = plane * d_range;
        let mut data: Vec<u8> = Vec::new();
        let mut i: usize = 0;
        while i < total
            invariant
                i <= total,
                data@.len() == i,
                forall|k: int| 0 <= k < i ==> data@[k] == 0,
            decreases total - i,
        {
            data.push(0);
            i = i + 1;
        }
        let r = CostVolume { rows, cols, d_range, data };
        proof {
            assert forall|y: int, x: int, d: int| r.valid(y, x, d) implies r.at(y, x, d) == 0 by {
                lemma_vol3_index(y, x, d, rows as int, cols as int, d_range as int);
            }
        }
        r
    }

    /// Reads the cost for pixel (y, x) at disparity `d`.
    pub fn get(&self, y: usize, x: usize, d: usize) -> (r: u8)
        requires
            self.wf(),
            y < self.rows,
            x < self.cols,
            d < self.d_range,
        ensures
            r as int == self.at(y as int, x as int, d as int),
    {
        proof {
            vstd::std_specs::vec::axiom_spec_len(&self.data);
            lemma_vol3_index(y as int, x as int, d as int, self.rows as int, self.cols as int,
                self.d_range as int);
        }
        self.data[(y * self.cols + x) * self.d_range + d]
    }

    /// Writes the cost for pixel (y, x) at disparity `d`, leaving every other
    /// entry as it was.
    pub fn set(&mut self, y: usize, x: usize, d: usize, v: u8)
        requires
            old(self).wf(),
            y < old(self).rows,
            x < old(self).cols,
            d < old(self).d_range,
        ensures
            final(self).wf(),
            final(self).rows == old(self).rows,
            final(self).cols == old(self).cols,
            final(self).d_range == old(self).d_range,
            final(self).at(y as int, x as int, d as int) == v,
            forall|y2: int, x2: int, d2: int|
                final(self).valid(y2, x2, d2) && !(y2 == y as int && x2 == x as int && d2
                    == d as int) ==> final(self).at(y2, x2, d2) == old(self).at(y2, x2, d2),
    {
        proof {
            vstd::std_specs::vec::axiom_spec_len(&self.data);
            lemma_vol3_index(y as int, x as int, d as int, self.rows as int, self.cols as int,
                self.d_range as int);
        }
        let idx = (y * self.cols + x) * self.d_range + d;
        self.data.set(idx, v);
        proof {
            assert forall|y2: int, x2: int, d2: int|
                self.valid(y2, x2, d2) && !(y2 == y as int && x2 == x as int && d2 == d as int)
                implies self.at(y2, x2, d2) == old(self).at(y2, x2, d2) by {
                lemma_vol3_index(y2, x2, d2, self.rows as int, self.cols as int,
                    self.d_range as int);
                lemma_vol3_distinct(y2, x2, d2, y as int, x as int, d as int, self.rows as int,
                    self.cols as int, self.d_range as int);
            }
        }
    }

    /// Wraps a raw buffer as a cost volume, when its length matches the
    /// dimensions; returns `None` otherwise.
    pub fn try_from_raw(rows: usize, cols: usize, d_range: usize, data: Vec<u8>) -> (r: Option<
        CostVolume,
    >)
        ensures
            r is Some <==> rows * cols * d_range == data@.len(),
            r matches Some(v) ==> {
                &&& v.wf()
                &&& v.rows == rows
                &&& v.cols == cols
                &&& v.d_range == d_range
                &&& v.data@ == data@
            },
    {
        let n = data.len();
        if d_range == 0 {
            if n == 0 {
                Some(CostVolume { rows, cols, d_range, data })
            } else {
                None
            }
        } else {
            match rows.checked_mul(cols) {
                Some(plane) => {
                    match plane.checked_mul(d_range) {
                        Some(total) => {
                            if n == total {
                                Some(CostVolume { rows, cols, d_range, data })
                            } else {
                                None
                            }
                        },
                        None => None,
                    }
                },
                None => {
                    proof {
                        assert(rows * cols <= rows * cols * d_range) by (nonlinear_arith)
                            requires 0 <= rows, 0 <= cols, 1 <= d_range,
                        ;
                    }
                    None
                },
            }
        }
    }
}

/// A `rows` x `cols` x `d_range` volume of 32-bit summed costs.
pub struct SumCostVolume {
    pub rows: usize,
    pub cols: usize,
    pub d_range: usize,
    pub data: Vec<u32>,
}

impl SumCostVolume {
    pub open spec fn wf(self) -> bool {
        self.data@.len() == self.rows * self.cols * self.d_range
    }

    pub open spec fn valid(self, y: int, x: int, d: int) -> bool {
        0 <= y < self.rows && 0 <= x < self.cols && 0 <= d < self.d_range
    }

    pub open spec fn flat(self, y: int, x: int, d: int) -> int {
        (y * self.cols + x) * self.d_range + d
    }

    /// The summed cost stored for pixel (y, x) at disparity `d`.
    pub open spec fn at(self, y: int, x: int, d: int) -> int {
        self.data@[self.flat(y, x, d)] as int
    }

    /// An all-zero volume of the given dimensions.
    pub fn new(rows: usize, cols: usize, d_range: usize) -> (r: SumCostVolume)
        requires
            rows * cols * d_range <= usize::MAX,
            1 <= d_range,
        ensures
            r.wf(),
            r.rows == rows,
            r.cols == cols,
            r.d_range == d_range,
            forall|y: int, x: int, d: int| r.valid(y, x, d) ==> r.at(y, x, d) == 0,
    {
        proof {
            assert(rows * cols <= rows * cols * d_range) by (nonlinear_arith)
                requires 1 <= d_range, 0 <= rows, 0 <= cols,
            ;
        }
        let plane = rows * cols;
        let total = plane * d_range;
        let mut data: Vec<u32> = Vec::new();
        let mut i: usize = 0;
        while i < total
            invariant
                i <= total,
                data@.len() == i,
                forall|k: int| 0 <= k < i ==> data@[k] == 0,
            decreases total - i,
        {
            data.push(0);
            i = i + 1;
        }
        let r = SumCostVolume { rows, cols, d_range, data };
        proof {
            assert forall|y: int, x: int, d: int| r.valid(y, x, d) implies r.at(y, x, d) == 0 by {
                lemma_vol3_index(y, x, d, rows as int, cols as int, d_range as int);
            }
        }
        r
    }

    /// Reads the summed cost for pixel (y, x) at disparity `d`.
    pub fn get(&self, y: usize, x: usize, d: usize) -> (r: u32)
        requires
            self.wf(),
            y < self.rows,
            x < self.cols,
            d < self.d_range,
        ensures
            r as int == self.at(y as int, x as int, d as int),
    {
        proof {
            vstd::std_specs::vec::axiom_spec_len(&self.data);
            lemma_vol3_index(y as int, x as int, d as int, self.rows as int, self.cols as int,
                self.d_range as int);
        }
        self.data[(y * self.cols + x) * self.d_range + d]
    }

    /// Writes the summed cost for pixel (y, x) at disparity `d`, leaving
    /// every other entry as it was.
    pub fn set(&mut self, y: usize, x: usize, d: usize, v: u32)
        requires
            old(self).wf(),
            y < old(self).rows,
            x < old(self).cols,
            d < old(self).d_range,
        ensures
            final(self).wf(),
            final(self).rows == old(self).rows,
            final(self).cols == old(self).cols,
            final(self).d_range == old(self).d_range,
            final(self).at(y as int, x as int, d as int) == v,
            forall|y2: int, x2: int, d2: int|
                final(self).valid(y2, x2, d2) && !(y2 == y as int && x2 == x as int && d2
                    == d as int) ==> final(self).at(y2, x2, d2) == old(self).at(y2, x2, d2),
    {
        proof {
            vstd::std_specs::vec::axiom_spec_len(&self.data);
            lemma_vol3_index(y as int, x as int, d as int, self.rows as int, self.cols as int,
                self.d_range as int);
        }
        let idx = (y * self.cols + x) * self.d_range + d;
        self.data.set(idx, v);
        proof {
            assert forall|y2: int, x2: int, d2: int|
                self.valid(y2, x2, d2) && !(y2 == y as int && x2 == x as int && d2 == d as int)
                implies self.at(y2, x2, d2) == old(self).at(y2, x2, d2) by {
                lemma_vol3_index(y2, x2, d2, self.rows as int, self.cols as int,
                    self.d_range as int);
                lemma_vol3_distinct(y2, x2, d2, y as int, x as int, d as int, self.rows as int,
                    self.cols as int, self.d_range as int);
            }
        }
    }

    /// Wraps a raw buffer as a summed-cost volume, when its length matches
    /// the dimensions; returns `None` otherwise.
    pub fn try_from_raw(rows: usize, cols: usize, d_range: usize, data: Vec<u32>) -> (r: Option<
        SumCostVolume,
    >)
        ensures
            r is Some <==> rows * cols * d_range == data@.len(),
            r matches Some(v) ==> {
                &&& v.wf()
                &&& v.rows == rows
                &&& v.cols == cols
                &&& v.d_range == d_range
                &&& v.data@ == data@
            },
    {
        let n = data.len();
        if d_range == 0 {
            if n == 0 {
                Some(SumCostVolume { rows, cols, d_range, data })
            } else {
                None
            }
        } else {
            match rows.checked_mul(cols) {
                Some(plane) => {
                    match plane.checked_mul(d_range) {
                        Some(total) => {
                            if n == total {
                                Some(SumCostVolume { rows, cols, d_range, data })
                            } else {
                                None
                            }
                        },
                        None => None,
                    }
                },
                None => {
                    proof {
                        assert(rows * cols <= rows * cols * d_range) by (nonlinear_arith)
                            requires 0 <= rows, 0 <= cols, 1 <= d_range,
                        ;
                    }
                    None
                },
            }
        }
    }
}

/// Eight per-direction aggregated-cost volumes, one `rows` x `cols` x
/// `d_range` block per scan direction, stored with the disparity fastest.
pub struct AggCostVolume {
    pub rows: usize,
    pub cols: usize,
    pub d_range: usize,
    pub data: Vec<u32>,
}

impl AggCostVolume {
    pub open spec fn wf(self) -> bool {
        self.data@.len() == 8 * self.rows * self.cols * self.d_range
    }

    pub open spec fn valid(self, p: int, y: int, x: int, d: int) -> bool {
        0 <= p < 8 && 0 <= y < self.rows && 0 <= x < self.cols && 0 <= d < self.d_range
    }

    pub open spec fn flat(self, p: int, y: int, x: int, d: int) -> int {
        ((p * self.rows + y) * self.cols + x) * self.d_range + d
    }

    /// The aggregated cost of direction `p` for pixel (y, x) at disparity
    /// `d`.
    pub open spec fn at(self, p: int, y: int, x: int, d: int) -> int {
        self.data@[self.flat(p, y, x, d)] as int
    }

    /// An all-zero volume of the given dimensions.
    pub fn new(rows: usize, cols: usize, d_range: usize) -> (r: AggCostVolume)
        requires
            8 * rows * cols * d_range <= usize::MAX,
            1 <= rows,
            1 <= cols,
            1 <= d_range,
        ensures
            r.wf(),
            r.rows == rows,
            r.cols == cols,
            r.d_range == d_range,
            forall|p: int, y: int, x: int, d: int|
                r.valid(p, y, x, d) ==> r.at(p, y, x, d) == 0,
    {
        proof {
            assert(8 * rows <= 8 * rows * cols && 8 * rows * cols <= 8 * rows * cols * d_range)
                by (nonlinear_arith)
                requires 1 <= d_range, 1 <= rows, 1 <= cols,
            ;
        }
        let dirs = 8usize * rows;
        let plane = dirs * cols;
        let total = plane * d_range;
        let mut data: Vec<u32> = Vec::new();
        let mut i: usize = 0;
        while i < total
            invariant
                i <= total,
                data@.len() == i,
                forall|k: int| 0 <= k < i ==> data@[k] == 0,
            decreases total - i,
        {
            data.push(0);
            i = i + 1;
        }
        let r = AggCostVolume { rows, cols, d_range, data };
        proof {
            assert forall|p: int, y: int, x: int, d: int| r.valid(p, y, x, d)
                implies r.at(p, y, x, d) == 0 by {
                lemma_row_major_index(y, p, rows as int, 8);
                lemma_vol3_index(p * (rows as int) + y, x, d, 8 * (rows as int), cols as int,
                    d_range as int);
            }
        }
        r
    }

    /// Reads the aggregated cost of direction `p` for pixel (y, x) at
    /// disparity `d`.
    pub fn get(&self, p: usize, y: usize, x: usize, d: usize) -> (r: u32)
        requires
            self.wf(),
            p < 8,
            y < self.rows,
            x < self.cols,
            d < self.d_range,
        ensures
            r as int == self.at(p as int, y as int, x as int, d as int),
    {
        proof {
            vstd::std_specs::vec::axiom_spec_len(&self.data);
            lemma_row_major_index(y as int, p as int, self.rows as int, 8);
            lemma_vol3_index((p * self.rows + y) as int, x as int, d as int,
                8 * (self.rows as int), self.cols as int, self.d_range as int);
        }
        self.data[((p * self.rows + y) * self.cols + x) * self.d_range + d]
    }

    /// Writes the aggregated cost of direction `p` for pixel (y, x) at
    /// disparity `d`, leaving every other entry as it was.
    pub fn set(&mut self, p: usize, y: usize, x: usize, d: usize, v: u32)
        requires
            old(self).wf(),
            p < 8,
            y < old(self).rows,
            x < old(self).cols,
            d < old(self).d_range,
        ensures
            final(self).wf(),
            final(self).rows == old(self).rows,
            final(self).cols == old(self).cols,
            final(self).d_range == old(self).d_range,
            final(self).at(p as int, y as int, x as int, d as int) == v,
            forall|p2: int, y2: int, x2: int, d2: int|
                final(self).valid(p2, y2, x2, d2) && !(p2 == p as int && y2 == y as int && x2
                    == x as int && d2 == d as int) ==> final(self).at(p2, y2, x2, d2) == old(
                    self,
                ).at(p2, y2, x2, d2),
    {
        proof {
            vstd::std_specs::vec::axiom_spec_len(&self.data);
            lemma_row_major_index(y as int, p as int, self.rows as int, 8);
            lemma_vol3_index((p * self.rows + y) as int, x as int, d as int,
                8 * (self.rows as int), self.cols as int, self.d_range as int);
        }
        let idx = ((p * self.rows + y) * self.cols + x) * self.d_range + d;
        self.data.set(idx, v);
        proof {
            assert forall|p2: int, y2: int, x2: int, d2: int|
                self.valid(p2, y2, x2, d2) && !(p2 == p as int && y2 == y as int && x2 == x as int
                    && d2 == d as int)
                implies self.at(p2, y2, x2, d2) == old(self).at(p2, y2, x2, d2) by {
                let rows = self.rows as int;
                lemma_row_major_index(y2, p2, rows, 8);
                lemma_row_major_index(y as int, p as int, rows, 8);
                lemma_vol3_index(p2 * rows + y2, x2, d2, 8 * rows, self.cols as int,
                    self.d_range as int);
                if !(p2 == p as int && y2 == y as int) {
                    lemma_row_major_distinct(y2, p2, y as int, p as int, rows);
                }
                lemma_vol3_distinct(p2 * rows + y2, x2, d2, (p as int) * rows + y as int,
                    x as int, d as int, 8 * rows, self.cols as int, self.d_range as int);
            }
        }
    }
}

} // verus!
