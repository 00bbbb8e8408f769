//! Mathematical model of a packed RGB frame: `3 * width * height` bytes,
//! row-major, three channels per pixel.

use vstd::prelude::*;

verus! {

/// Channel `c` of the pixel at column `x`, row `y`.
pub open spec fn channel_at(p: Seq<u8>, w: int, x: int, y: int, c: int) -> int {
    p[3 * (y * w + x) + c] as int
}

/// Sum of channel `c` over columns `[x1, x2)` of row `y`.
pub open spec fn row_sum(p: Seq<u8>, w: int, c: int, y: int, x1: int, x2: int) -> int
    decreases x2 - x1,
{
    if x2 <= x1 {
        0
    } else {
        row_sum(p, w, c, y, x1, x2 - 1) + channel_at(p, w, x2 - 1, y, c)
    }
}

/// Sum of channel `c` over the rectangle of columns `[x1, x2)` and rows `[y1, y2)`.
pub open spec fn rect_sum(p: Seq<u8>, w: int, c: int, x1: int, y1: int, x2: int, y2: int) -> int
    decreases y2 - y1,
{
    if y2 <= y1 {
        0
    } else {
        rect_sum(p, w, c, x1, y1, x2, y2 - 1) + row_sum(p, w, c, y2 - 1, x1, x2)
    }
}

/// The rounded mean that the library reports for a region: `sum / count`,
/// rounded to the nearest integer with halves rounded up.
pub open spec fn rounded_mean(sum: int, count: int) -> int {
    (sum + count / 2) / count
}

pub proof fn lemma_row_sum_bounds(p: Seq<u8>, w: int, c: int, y: int, x1: int, x2: int)
    requires
        x1 <= x2,
    ensures
        0 <= row_sum(p, w, c, y, x1, x2) <= 255 * (x2 - x1),
    decreases x2 - x1,
{
    if x2 > x1 {
        lemma_row_sum_bounds(p, w, c, y, x1, x2 - 1);
    }
}

pub proof fn lemma_rect_sum_bounds(p: Seq<u8>, w: int, c: int, x1: int, y1: int, x2: int, y2: int)
    requires
        x1 <= x2,
        y1 <= y2,
    ensures
        0 <= rect_sum(p, w, c, x1, y1, x2, y2) <= 255 * ((x2 - x1) * (y2 - y1)),
    decreases y2 - y1,
{
    if y2 > y1 {
        lemma_rect_sum_bounds(p, w, c, x1, y1, x2, y2 - 1);
        lemma_row_sum_bounds(p, w, c, y2 - 1, x1, x2);
        assert((x2 - x1) * (y2 - y1) == (x2 - x1) * (y2 - 1 - y1) + (x2 - x1)) by (nonlinear_arith);
    }
}

/// A row sum splits at any column.
pub proof fn lemma_row_sum_split(p: Seq<u8>, w: int, c: int, y: int, x1: int, xm: int, x2: int)
    requires
        x1 <= xm <= x2,
    ensures
        row_sum(p, w, c, y, x1, x2) == row_sum(p, w, c, y, x1, xm) + row_sum(p, w, c, y, xm, x2),
    decreases x2 - xm,
{
    if x2 > xm {
        lemma_row_sum_split(p, w, c, y, x1, xm, x2 - 1);
    }
}

/// A rectangle sum splits at any row.
pub proof fn lemma_rect_sum_split_rows(p: Seq<u8>, w: int, c: int, x1: int, y1: int, ym: int, x2: int, y2: int)
    requires
        y1 <= ym <= y2,
    ensures
        rect_sum(p, w, c, x1, y1, x2, y2) == rect_sum(p, w, c, x1, y1, x2, ym) + rect_sum(p, w, c, x1, ym, x2, y2),
    decreases y2 - ym,
{
    if y2 > ym {
        lemma_rect_sum_split_rows(p, w, c, x1, y1, ym, x2, y2 - 1);
    }
}

/// A rectangle sum splits at any column.
pub proof fn lemma_rect_sum_split_cols(p: Seq<u8>, w: int, c: int, x1: int, xm: int, y1: int, x2: int, y2: int)
    requires
        x1 <= xm <= x2,
    ensures
        rect_sum(p, w, c, x1, y1, x2, y2) == rect_sum(p, w, c, x1, y1, xm, y2) + rect_sum(p, w, c, xm, y1, x2, y2),
    decreases y2 - y1,
{
    if y2 > y1 {
        lemma_rect_sum_split_cols(p, w, c, x1, xm, y1, x2, y2 - 1);
        lemma_row_sum_split(p, w, c, y2 - 1, x1, xm, x2);
    }
}

/// Inclusion–exclusion over the four corner prefix sums.
pub proof fn lemma_rect_from_prefixes(p: Seq<u8>, w: int, c: int, x1: int, y1: int, x2: int, y2: int)
    requires
        0 <= x1 <= x2,
        0 <= y1 <= y2,
    ensures
        rect_sum(p, w, c, x1, y1, x2, y2) == rect_sum(p, w, c, 0, 0, x2, y2) - rect_sum(p, w, c, 0, 0, x1, y2)
            - rect_sum(p, w, c, 0, 0, x2, y1) + rect_sum(p, w, c, 0, 0, x1, y1),
{
    lemma_rect_sum_split_rows(p, w, c, 0, 0, y1, x2, y2);
    lemma_rect_sum_split_rows(p, w, c, 0, 0, y1, x1, y2);
    lemma_rect_sum_split_cols(p, w, c, 0, x1, y1, x2, y2);
}

/// Prefix sums grow with the corner.
pub proof fn lemma_prefix_monotone(p: Seq<u8>, w: int, c: int, x: int, y: int, xx: int, yy: int)
    requires
        0 <= x <= xx,
        0 <= y <= yy,
    ensures
        rect_sum(p, w, c, 0, 0, x, y) <= rect_sum(p, w, c, 0, 0, xx, yy),
{
    lemma_rect_sum_split_cols(p, w, c, 0, x, 0, xx, y);
    lemma_rect_sum_bounds(p, w, c, x, 0, xx, y);
    lemma_rect_sum_split_rows(p, w, c, 0, 0, y, xx, yy);
    lemma_rect_sum_bounds(p, w, c, 0, y, xx, yy);
}

/// A rectangle inside the frame sums to at most the whole frame.
pub proof fn lemma_sub_rect_within(p: Seq<u8>, w: int, h: int, c: int, x1: int, y1: int, x2: int, y2: int)
    requires
        0 <= x1 <= x2 <= w,
        0 <= y1 <= y2 <= h,
    ensures
        rect_sum(p, w, c, x1, y1, x2, y2) <= rect_sum(p, w, c, 0, 0, w, h),
{
    lemma_rect_sum_split_cols(p, w, c, 0, x1, y1, x2, y2);
    lemma_rect_sum_bounds(p, w, c, 0, y1, x1, y2);
    lemma_rect_sum_split_rows(p, w, c, 0, 0, y1, x2, y2);
    lemma_rect_sum_bounds(p, w, c, 0, 0, x2, y1);
    lemma_prefix_monotone(p, w, c, x2, y2, w, h);
}

/// A rectangle with no columns sums to zero.
pub proof fn lemma_rect_sum_no_cols(p: Seq<u8>, w: int, c: int, x: int, y1: int, y2: int)
    ensures
        rect_sum(p, w, c, x, y1, x, y2) == 0,
    decreases y2 - y1,
{
    if y2 > y1 {
        lemma_rect_sum_no_cols(p, w, c, x, y1, y2 - 1);
    }
}

/// Row-major cell indices of a grid with `s` columns are distinct.
pub proof fn lemma_grid_index_unique(s: int, x1: int, y1: int, x2: int, y2: int)
    requires
        0 <= x1 < s,
        0 <= x2 < s,
        0 <= y1,
        0 <= y2,
        y1 * s + x1 == y2 * s + x2,
    ensures
        x1 == x2,
        y1 == y2,
{
    if y1 < y2 {
        assert(y1 * s + s <= y2 * s) by (nonlinear_arith)
            requires y1 < y2, 0 < s;
    } else if y2 < y1 {
        assert(y2 * s + s <= y1 * s) by (nonlinear_arith)
            requires y2 < y1, 0 < s;
    }
}

/// A cell index of a grid with `s` columns and `rows` rows is in range.
pub proof fn lemma_grid_index_bound(s: int, rows: int, x: int, y: int)
    requires
        0 <= x < s,
        0 <= y < rows,
    ensures
        0 <= y * s + x < rows * s,
{
    assert(0 <= y * s + x < rows * s) by (nonlinear_arith)
        requires 0 <= x < s, 0 <= y < rows;
}

/// Sums only read the pixels inside the frame.
pub proof fn lemma_row_sum_same_prefix(p: Seq<u8>, q: Seq<u8>, w: int, c: int, y: int, x1: int, x2: int)
    requires
        0 <= c < 3,
        0 <= x1 <= x2 <= w,
        0 <= y,
        3 * (y * w + x2) <= p.len(),
        3 * (y * w + x2) <= q.len(),
        forall|i: int| 0 <= i < 3 * (y * w + x2) ==> p[i] == q[i],
    ensures
        row_sum(p, w, c, y, x1, x2) == row_sum(q, w, c, y, x1, x2),
    decreases x2 - x1,
{
    if x2 > x1 {
        assert(3 * (y * w + x2 - 1) + c < 3 * (y * w + x2));
        lemma_row_sum_same_prefix(p, q, w, c, y, x1, x2 - 1);
    }
}

pub proof fn lemma_zero_frame_sums(p: Seq<u8>, w: int, c: int, x1: int, y1: int, x2: int, y2: int)
    requires
        forall|i: int| 0 <= i < p.len() ==> p[i] == 0,
        0 <= c < 3,
        0 <= x1,
        x2 <= w,
        0 <= w,
        0 <= y1,
        3 * (y2 * w) <= p.len(),
    ensures
        rect_sum(p, w, c, x1, y1, x2, y2) == 0,
    decreases y2 - y1,
{
    if y2 > y1 {
        assert((y2 - 1) * w <= y2 * w) by (nonlinear_arith)
            requires 0 <= w;
        lemma_zero_frame_sums(p, w, c, x1, y1, x2, y2 - 1);
        lemma_zero_row(p, w, c, y2 - 1, x1, x2);
    }
}

proof fn lemma_zero_row(p: Seq<u8>, w: int, c: int, y: int, x1: int, x2: int)
    requires
        forall|i: int| 0 <= i < p.len() ==> p[i] == 0,
        0 <= c < 3,
        0 <= x1,
        x2 <= w,
        0 <= y,
        3 * ((y + 1) * w) <= p.len(),
    ensures
        row_sum(p, w, c, y, x1, x2) == 0,
    decreases x2 - x1,
{
    if x2 > x1 {
        lemma_zero_row(p, w, c, y, x1, x2 - 1);
        assert(0 <= y * w + x2 - 1 < (y + 1) * w) by (nonlinear_arith)
            requires x1 < x2 <= w, 0 <= x1, 0 <= y;
    }
}

/// Sum of channel `c` over the rectangle of columns `[x0, x1)` and rows `[y0, y1)` of a
/// `w` x `h` frame.
pub fn region_sum(p: &Vec<u8>, w: u32, h: u32, c: usize, x0: u32, y0: u32, x1: u32, y1: u32) -> (r: u128)
    requires
        p@.len() == 3 * w * h,
        c < 3,
        x1 <= w,
        y1 <= h,
    ensures
        r == rect_sum(p@, w as int, c as int, x0 as int, y0 as int, x1 as int, y1 as int),
{
    let len = p.len();
    let mut total: u128 = 0;
    let mut y = y0;
    if y1 <= y0 {
        return 0;
    }
    if x1 <= x0 {
        proof {
            lemma_rect_sum_empty_rows(p@, w as int, c as int, x0 as int, y0 as int, x1 as int, y1 as int);
        }
        return 0;
    }
    while y < y1
        invariant
            len == p@.len(),
            p@.len() == 3 * w * h,
            c < 3,
            x0 < x1 <= w,
            y0 <= y <= y1 <= h,
            total == rect_sum(p@, w as int, c as int, x0 as int, y0 as int, x1 as int, y as int),
            total <= 255 * ((x1 - x0) * (y - y0)),
        decreases y1 - y,
    {
        let mut x = x0;
        let ghost before = total;
        while x < x1
            invariant
                len == p@.len(),
                p@.len() == 3 * w * h,
                c < 3,
                x0 <= x <= x1 <= w,
                y0 <= y < y1 <= h,
                before == rect_sum(p@, w as int, c as int, x0 as int, y0 as int, x1 as int, y as int),
                before <= 255 * ((x1 - x0) * (y - y0)),
                total == before + row_sum(p@, w as int, c as int, y as int, x0 as int, x as int),
                row_sum(p@, w as int, c as int, y as int, x0 as int, x as int) <= 255 * (x - x0),
            decreases x1 - x,
        {
            proof {
                assert(y * w + x < h * w) by (nonlinear_arith)
                    requires y < h, x < w;
                assert(3 * w * h == 3 * (h * w)) by (nonlinear_arith);
                assert(y * w <= y * w + x) by (nonlinear_arith)
                    requires x >= 0, y >= 0, w >= 0;
                assert(255 * ((x1 - x0) * (y - y0)) + 255 * (x - x0) <= 255 * ((x1 - x0) * (y1 - y0))) by (nonlinear_arith)
                    requires x < x1, y < y1, x0 <= x, y0 <= y;
                assert(255 * ((x1 - x0) * (y1 - y0)) <= 255 * (0x1_0000_0000 * 0x1_0000_0000)) by (nonlinear_arith)
                    requires x1 - x0 <= 0x1_0000_0000, y1 - y0 <= 0x1_0000_0000;
            }
            let k = 3 * (y as usize * w as usize + x as usize) + c;
            total = total + p[k] as u128;
            x += 1;
        }
        proof {
            assert(255 * ((x1 - x0) * (y - y0)) + 255 * (x1 - x0) == 255 * ((x1 - x0) * (y + 1 - y0))) by (nonlinear_arith);
        }
        y += 1;
    }
    total
}

/// Sum of channel `c` over columns `[x1, x2)` and rows `[y1, y2)` of a frame `w` pixels
/// wide, in a buffer that holds at least the rows above `y2`.
pub fn block_sum(p: &[u8], w: u32, c: usize, x1: u32, y1: u32, x2: u32, y2: u32) -> (r: u64)
    requires
        c < 3,
        x1 <= x2 <= w,
        y1 <= y2,
        3 * (y2 * w) <= p@.len(),
        3 * (y2 * w) <= u32::MAX,
    ensures
        r == rect_sum(p@, w as int, c as int, x1 as int, y1 as int, x2 as int, y2 as int),
{
    let mut total: u64 = 0;
    let mut y = y1;
    proof {
        assert((x2 - x1) * (y2 - y1) <= w * y2) by (nonlinear_arith)
            requires x1 <= x2 <= w, y1 <= y2;
    }
    while y < y2
        invariant
            c < 3,
            x1 <= x2 <= w,
            y1 <= y <= y2,
            3 * (y2 * w) <= p@.len(),
            3 * (y2 * w) <= u32::MAX,
            (x2 - x1) * (y2 - y1) <= w * y2,
            total == rect_sum(p@, w as int, c as int, x1 as int, y1 as int, x2 as int, y as int),
            total <= 255 * ((x2 - x1) * (y - y1)),
        decreases y2 - y,
    {
        let mut x = x1;
        let ghost before = total;
        while x < x2
            invariant
                c < 3,
                x1 <= x <= x2 <= w,
                y1 <= y < y2,
                3 * (y2 * w) <= p@.len(),
                3 * (y2 * w) <= u32::MAX,
                (x2 - x1) * (y2 - y1) <= w * y2,
                before == rect_sum(p@, w as int, c as int, x1 as int, y1 as int, x2 as int, y as int),
                before <= 255 * ((x2 - x1) * (y - y1)),
                total == before + row_sum(p@, w as int, c as int, y as int, x1 as int, x as int),
                row_sum(p@, w as int, c as int, y as int, x1 as int, x as int) <= 255 * (x - x1),
            decreases x2 - x,
        {
            proof {
                assert(y * w + x < y2 * w) by (nonlinear_arith)
                    requires y < y2, x < w;
                assert(y * w <= y * w + x) by (nonlinear_arith)
                    requires x >= 0, y >= 0, w >= 0;
                assert(255 * ((x2 - x1) * (y - y1)) + 255 * (x - x1) <= 255 * ((x2 - x1) * (y2 - y1))) by (nonlinear_arith)
                    requires x < x2, y < y2, x1 <= x, y1 <= y;
            }
            let k = 3 * (y as usize * w as usize + x as usize) + c;
            total = total + p[k] as u64;
            x += 1;
        }
        proof {
            assert(255 * ((x2 - x1) * (y - y1)) + 255 * (x2 - x1) == 255 * ((x2 - x1) * (y + 1 - y1))) by (nonlinear_arith);
        }
        y += 1;
    }
    total
}

/// A rectangle whose columns run backward sums to zero.
pub proof fn lemma_rect_sum_empty_rows(p: Seq<u8>, w: int, c: int, x0: int, y0: int, x1: int, y1: int)
    requires
        x1 <= x0,
    ensures
        rect_sum(p, w, c, x0, y0, x1, y1) == 0,
    decreases y1 - y0,
{
    if y1 > y0 {
        lemma_rect_sum_empty_rows(p, w, c, x0, y0, x1, y1 - 1);
    }
}

} // verus!
