//! Arithmetic facts about row-major offsets into dense grids and volumes.

use vstd::prelude::*;
use vstd::arithmetic::div_mod::{
    lemma_fundamental_div_mod, lemma_mod_bound,
};

verus! {

/// A sample at column `x` of row `y` lies inside a grid of `h` rows of
/// width `w`.
pub proof fn lemma_row_major_index(x: int, y: int, w: int, h: int)
    by (nonlinear_arith)
    requires
        0 <= x < w,
        0 <= y < h,
    ensures
        0 <= y * w + x < w * h,
{
}

/// Distinct positions have distinct row-major offsets.
pub proof fn lemma_row_major_distinct(x1: int, y1: int, x2: int, y2: int, w: int)
    by (nonlinear_arith)
    requires
        0 <= x1 < w,
        0 <= x2 < w,
        0 <= y1,
        0 <= y2,
        !(x1 == x2 && y1 == y2),
    ensures
        y1 * w + x1 != y2 * w + x2,
{
}

/// A row-major offset decomposes into a unique row and column.
pub proof fn lemma_row_major_inverse(i: int, w: int, h: int)
    requires
        0 < w,
        0 <= i < w * h,
    ensures
        0 <= i % w < w,
        0 <= i / w < h,
        i == (i / w) * w + (i % w),
{
    lemma_fundamental_div_mod(i, w);
    lemma_mod_bound(i, w);
    vstd::arithmetic::mul::lemma_mul_is_commutative(w, i / w);
    assert(0 <= i / w < h) by (nonlinear_arith)
        requires
            0 < w,
            0 <= i < w * h,
            i == w * (i / w) + (i % w),
            0 <= i % w < w,
    ;
}

/// An entry (y, x, d) lies inside a dense volume of `rows` x `cols` x `dr`
/// entries laid out with `d` fastest.
pub proof fn lemma_vol3_index(y: int, x: int, d: int, rows: int, cols: int, dr: int)
    requires
        0 <= y < rows,
        0 <= x < cols,
        0 <= d < dr,
    ensures
        0 <= y * cols + x < rows * cols,
        y <= y * cols + x,
        y * cols + x <= (y * cols + x) * dr + d,
        0 <= (y * cols + x) * dr + d < rows * cols * dr,
{
    lemma_row_major_index(x, y, cols, rows);
    lemma_row_major_index(d, y * cols + x, dr, cols * rows);
    assert(dr * (cols * rows) == rows * cols * dr && cols * rows == rows * cols)
        by (nonlinear_arith);
    assert(y <= y * cols && y * cols + x <= (y * cols + x) * dr) by (nonlinear_arith)
        requires
            0 <= y,
            0 <= x,
            1 <= cols,
            1 <= dr,
            0 <= y * cols + x,
    ;
}

/// Distinct volume entries have distinct flat offsets.
pub proof fn lemma_vol3_distinct(
    y1: int, x1: int, d1: int,
    y2: int, x2: int, d2: int,
    rows: int, cols: int, dr: int,
)
    requires
        0 <= y1 < rows,
        0 <= x1 < cols,
        0 <= d1 < dr,
        0 <= y2 < rows,
        0 <= x2 < cols,
        0 <= d2 < dr,
        !(y1 == y2 && x1 == x2 && d1 == d2),
    ensures
        (y1 * cols + x1) * dr + d1 != (y2 * cols + x2) * dr + d2,
{
    lemma_row_major_index(x1, y1, cols, rows);
    lemma_row_major_index(x2, y2, cols, rows);
    if !(y1 == y2 && x1 == x2) {
        lemma_row_major_distinct(x1, y1, x2, y2, cols);
    }
    lemma_row_major_distinct(d1, y1 * cols + x1, d2, y2 * cols + x2, dr);
}

} // verus!
