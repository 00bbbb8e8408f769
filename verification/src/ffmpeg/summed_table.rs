//! Summed-area table over a packed RGB frame: after one pass over the
//! pixels, the sum of any rectangle comes from four table lookups.

use vstd::prelude::*;
use crate::ffmpeg::pixels::{
    lemma_grid_index_bound, lemma_grid_index_unique, lemma_prefix_monotone, lemma_rect_from_prefixes,
    lemma_rect_sum_bounds, lemma_rect_sum_no_cols, lemma_rect_sum_split_cols, lemma_rect_sum_split_rows,
    lemma_row_sum_bounds, lemma_zero_frame_sums, rect_sum, rounded_mean, row_sum, channel_at,
};

verus! {

pub struct SummedAreaTable {
    sums: Vec<[u32; 3]>,
    stride: u32,
    width: u32,
    height: u32,
    frame: Ghost<Seq<u8>>,
}

impl SummedAreaTable {
    /// Width of the frames that the table holds.
    pub closed spec fn frame_width(&self) -> nat {
        self.width as nat
    }

    /// Height of the frames that the table holds.
    pub closed spec fn frame_height(&self) -> nat {
        self.height as nat
    }

    /// The frame whose sums the table currently holds.
    pub closed spec fn frame(&self) -> Seq<u8> {
        self.frame@
    }

    closed spec fn entry(&self, x: int, y: int, c: int) -> int {
        self.sums@[y * self.stride + x][c] as int
    }

    /// Entry `(x, y)` holds, per channel, the sum over all pixels above and left of it.
    pub closed spec fn wf(&self) -> bool {
        &&& self.stride == self.width + 1
        &&& (self.width + 1) * (self.height + 1) <= u32::MAX
        &&& self.sums@.len() == (self.width + 1) * (self.height + 1)
        &&& forall|x: int, y: int, c: int|
            0 <= x <= self.width && 0 <= y <= self.height && 0 <= c < 3 ==> #[trigger] self.entry(x, y, c)
                == rect_sum(self.frame@, self.width as int, c, 0, 0, x, y)
    }

    /// A table for `width` x `height` frames, holding an all-black frame.
    pub fn new(width: u32, height: u32) -> (t: Self)
        requires
            (width + 1) * (height + 1) <= u32::MAX,
        ensures
            t.wf(),
            t.frame_width() == width,
            t.frame_height() == height,
            t.frame() == Seq::new((3 * width * height) as nat, |i: int| 0u8),
    {
        proof {
            assert(width + 1 <= (width + 1) * (height + 1) && height + 1 <= (width + 1) * (height + 1)) by (nonlinear_arith)
                requires 0 <= width, 0 <= height;
        }
        let stride = width + 1;
        let total = (width + 1) * (height + 1);
        let mut sums: Vec<[u32; 3]> = Vec::new();
        while sums.len() < total as usize
            invariant
                total == (width + 1) * (height + 1),
                sums.len() <= total,
                forall|i: int| 0 <= i < sums.len() ==> #[trigger] sums@[i] == [0u32, 0u32, 0u32],
            decreases total - sums.len(),
        {
            sums.push([0u32, 0u32, 0u32]);
        }
        let ghost zero = Seq::new((3 * width * height) as nat, |i: int| 0u8);
        let t = SummedAreaTable { sums, stride, width, height, frame: Ghost(zero) };
        assert forall|x: int, y: int, c: int|
            0 <= x <= width && 0 <= y <= height && 0 <= c < 3 implies #[trigger] t.entry(x, y, c)
                == rect_sum(zero, width as int, c, 0, 0, x, y) by {
            lemma_grid_index_bound(stride as int, height + 1, x, y);
            assert(3 * (y * width) <= 3 * width * height) by (nonlinear_arith)
                requires 0 <= y <= height, 0 <= width;
            lemma_zero_frame_sums(zero, width as int, c, 0, 0, x, y);
        }
        t
    }

    /// Fills the table from a frame of packed RGB pixels.
    pub fn init(&mut self, pixels: &[u8])
        requires
            old(self).wf(),
            pixels@.len() >= 3 * old(self).frame_width() * old(self).frame_height(),
            3 * old(self).frame_width() * old(self).frame_height() <= u32::MAX,
            forall|c: int| 0 <= c < 3 ==> #[trigger] rect_sum(pixels@, old(self).frame_width() as int, c, 0, 0,
                old(self).frame_width() as int, old(self).frame_height() as int) <= u32::MAX,
        ensures
            final(self).wf(),
            final(self).frame_width() == old(self).frame_width(),
            final(self).frame_height() == old(self).frame_height(),
            final(self).frame() == pixels@,
        no_unwind
    {
        let w = self.width;
        let h = self.height;
        let ghost p = pixels@;
        let ghost wi = w as int;
        let ghost old_frame = self.frame@;
        proof {
            assert forall|y: int, c: int| 0 <= y <= h && 0 <= c < 3 implies #[trigger] self.entry(0, y, c) == 0 by {
                lemma_rect_sum_no_cols(old_frame, wi, c, 0, 0, y);
            }
            assert forall|x: int, c: int| 0 <= x <= w && 0 <= c < 3 implies #[trigger] self.entry(x, 0, c) == 0 by {}
        }
        let mut y: u32 = 0;
        while y < h
            invariant
                w == self.width,
                h == self.height,
                wi == w,
                p == pixels@,
                self.stride == w + 1,
                (w + 1) * (h + 1) <= u32::MAX,
                self.sums@.len() == (w + 1) * (h + 1),
                p.len() >= 3 * w * h,
                3 * w * h <= u32::MAX,
                forall|c: int| 0 <= c < 3 ==> #[trigger] rect_sum(p, wi, c, 0, 0, wi, h as int) <= u32::MAX,
                y <= h,
                forall|x: int, yy: int, c: int|
                    0 <= x <= w && 0 <= yy <= y && 0 <= c < 3 ==> #[trigger] self.entry(x, yy, c) == rect_sum(p, wi, c, 0, 0, x, yy),
                forall|yy: int, c: int| 0 <= yy <= h && 0 <= c < 3 ==> #[trigger] self.entry(0, yy, c) == 0,
            decreases h - y,
        {
            let mut row_red: u32 = 0;
            let mut row_green: u32 = 0;
            let mut row_blue: u32 = 0;

            assert(y * w * 3 <= 3 * w * h && (y + 1) * (w + 1) <= (w + 1) * (h + 1)
                && y * (w + 1) <= (w + 1) * (h + 1)) by (nonlinear_arith)
                requires y < h, 0 <= w;
            proof {
                assert forall|c: int| 0 <= c < 3 implies #[trigger] self.entry(0, y + 1, c) == rect_sum(p, wi, c, 0, 0, 0, y + 1) by {
                    lemma_rect_sum_no_cols(p, wi, c, 0, 0, y + 1);
                }
            }
            let src_row = y * w * 3;
            let dst_row = (y + 1) * self.stride;
            let prev_row = y * self.stride;

            let mut x: u32 = 0;
            while x < w
                invariant
                    w == self.width,
                    h == self.height,
                    wi == w,
                    p == pixels@,
                    self.stride == w + 1,
                    (w + 1) * (h + 1) <= u32::MAX,
                    self.sums@.len() == (w + 1) * (h + 1),
                    p.len() >= 3 * w * h,
                    3 * w * h <= u32::MAX,
                    forall|c: int| 0 <= c < 3 ==> #[trigger] rect_sum(p, wi, c, 0, 0, wi, h as int) <= u32::MAX,
                    y < h,
                    x <= w,
                    src_row == 3 * (y * w),
                    dst_row == (y + 1) * (w + 1),
                    prev_row == y * (w + 1),
                    row_red == row_sum(p, wi, 0, y as int, 0, x as int),
                    row_green == row_sum(p, wi, 1, y as int, 0, x as int),
                    row_blue == row_sum(p, wi, 2, y as int, 0, x as int),
                    forall|xx: int, yy: int, c: int|
                        0 <= xx <= w && 0 <= yy <= y && 0 <= c < 3 ==> #[trigger] self.entry(xx, yy, c) == rect_sum(p, wi, c, 0, 0, xx, yy),
                    forall|xx: int, c: int|
                        0 <= xx <= x && 0 <= c < 3 ==> #[trigger] self.entry(xx, y + 1, c) == rect_sum(p, wi, c, 0, 0, xx, y + 1),
                    forall|yy: int, c: int| 0 <= yy <= h && 0 <= c < 3 ==> #[trigger] self.entry(0, yy, c) == 0,
                decreases w - x,
            {
                proof {
                    assert(3 * (y * w) + 3 * x + 2 < 3 * w * h) by (nonlinear_arith) requires y < h, x < w;
                    lemma_grid_index_bound(w + 1, h + 1, x + 1, y + 1);
                    lemma_grid_index_bound(w + 1, h + 1, x + 1, y as int);
                    lemma_fill_step(p, wi, h as int, x as int, y as int, 0);
                    lemma_fill_step(p, wi, h as int, x as int, y as int, 1);
                    lemma_fill_step(p, wi, h as int, x as int, y as int, 2);
                }
                let src = (src_row + x * 3) as usize;

                row_red += pixels[src] as u32;
                row_green += pixels[src + 1] as u32;
                row_blue += pixels[src + 2] as u32;

                let dst = (dst_row + x + 1) as usize;
                let above = (prev_row + x + 1) as usize;

                let ghost before = *self;
                assert(self.entry(x + 1, y as int, 0) == rect_sum(p, wi, 0, 0, 0, x + 1, y as int));
                assert(self.entry(x + 1, y as int, 1) == rect_sum(p, wi, 1, 0, 0, x + 1, y as int));
                assert(self.entry(x + 1, y as int, 2) == rect_sum(p, wi, 2, 0, 0, x + 1, y as int));
                let cell = [
                    self.sums[above][0] + row_red,
                    self.sums[above][1] + row_green,
                    self.sums[above][2] + row_blue,
                ];
                self.sums[dst] = cell;

                proof {
                    assert forall|xx: int, yy: int, c: int|
                        0 <= xx <= w && 0 <= yy <= h && 0 <= c < 3 && !(xx == x + 1 && yy == y + 1)
                        implies #[trigger] self.entry(xx, yy, c) == before.entry(xx, yy, c) by {
                        lemma_grid_index_bound(w + 1, h + 1, xx, yy);
                        if yy * (w + 1) + xx == (y + 1) * (w + 1) + x + 1 {
                            lemma_grid_index_unique(w + 1, xx, yy, x + 1, y + 1);
                        }
                    }
                    assert(self.entry(x + 1, y + 1, 0) == rect_sum(p, wi, 0, 0, 0, x + 1, y + 1));
                    assert(self.entry(x + 1, y + 1, 1) == rect_sum(p, wi, 1, 0, 0, x + 1, y + 1));
                    assert(self.entry(x + 1, y + 1, 2) == rect_sum(p, wi, 2, 0, 0, x + 1, y + 1));
                }
                x += 1;
            }
            y += 1;
        }
        let ghost filled = *self;
        self.frame = Ghost(p);
        proof {
            assert forall|x: int, yy: int, c: int|
                0 <= x <= w && 0 <= yy <= h && 0 <= c < 3 implies #[trigger] self.entry(x, yy, c)
                    == rect_sum(self.frame@, wi, c, 0, 0, x, yy) by {
                assert(self.entry(x, yy, c) == filled.entry(x, yy, c));
            }
        }
    }

    proof fn lemma_corners(&self, x1: int, y1: int, x2: int, y2: int, k: int)
        requires
            self.wf(),
            0 <= x1 <= x2 <= self.width,
            0 <= y1 <= y2 <= self.height,
            0 <= k < 3,
        ensures
            self.entry(x2, y2, k) - self.entry(x2, y1, k) >= self.entry(x1, y2, k) - self.entry(x1, y1, k),
            self.entry(x1, y2, k) >= self.entry(x1, y1, k),
            self.entry(x2, y2, k) >= self.entry(x2, y1, k),
            rect_sum(self.frame@, self.width as int, k, x1, y1, x2, y2) == (self.entry(x2, y2, k) - self.entry(x2, y1, k))
                - (self.entry(x1, y2, k) - self.entry(x1, y1, k)),
    {
        let f = self.frame@;
        let w = self.width as int;
        assert(self.entry(x1, y1, k) == rect_sum(f, w, k, 0, 0, x1, y1));
        assert(self.entry(x2, y1, k) == rect_sum(f, w, k, 0, 0, x2, y1));
        assert(self.entry(x1, y2, k) == rect_sum(f, w, k, 0, 0, x1, y2));
        assert(self.entry(x2, y2, k) == rect_sum(f, w, k, 0, 0, x2, y2));
        lemma_rect_from_prefixes(f, w, k, x1, y1, x2, y2);
        lemma_rect_sum_split_rows(f, w, k, 0, 0, y1, x1, y2);
        lemma_rect_sum_bounds(f, w, k, 0, y1, x1, y2);
        lemma_rect_sum_split_rows(f, w, k, 0, 0, y1, x2, y2);
        lemma_rect_sum_bounds(f, w, k, 0, y1, x2, y2);
        lemma_rect_sum_split_cols(f, w, k, 0, x1, y1, x2, y2);
        lemma_rect_sum_bounds(f, w, k, x1, y1, x2, y2);
    }

    /// Per-channel sum over columns `[x1, x2)` and rows `[y1, y2)` of the held frame.
    fn sum_rect(&self, x1: u32, y1: u32, x2: u32, y2: u32) -> (r: [u32; 3])
        requires
            self.wf(),
            x1 <= x2 <= self.frame_width(),
            y1 <= y2 <= self.frame_height(),
        ensures
            forall|c: int| 0 <= c < 3 ==> #[trigger] r[c] as int == rect_sum(self.frame(), self.frame_width() as int, c,
                x1 as int, y1 as int, x2 as int, y2 as int),
    {
        let ghost w = self.width as int;
        let ghost f = self.frame@;
        proof {
            lemma_grid_index_bound(self.stride as int, self.height + 1, x1 as int, y1 as int);
            lemma_grid_index_bound(self.stride as int, self.height + 1, x2 as int, y1 as int);
            lemma_grid_index_bound(self.stride as int, self.height + 1, x1 as int, y2 as int);
            lemma_grid_index_bound(self.stride as int, self.height + 1, x2 as int, y2 as int);
        }
        let a = (y1 * self.stride + x1) as usize;
        let b = (y1 * self.stride + x2) as usize;
        let c = (y2 * self.stride + x1) as usize;
        let d = (y2 * self.stride + x2) as usize;

        proof {
            self.lemma_corners(x1 as int, y1 as int, x2 as int, y2 as int, 0);
            self.lemma_corners(x1 as int, y1 as int, x2 as int, y2 as int, 1);
            self.lemma_corners(x1 as int, y1 as int, x2 as int, y2 as int, 2);
        }
        let sa = self.sums[a];
        let sb = self.sums[b];
        let sc = self.sums[c];
        let sd = self.sums[d];
        [
            (sd[0] - sb[0]) - (sc[0] - sa[0]),
            (sd[1] - sb[1]) - (sc[1] - sa[1]),
            (sd[2] - sb[2]) - (sc[2] - sa[2]),
        ]
    }

    /// Per-channel mean over columns `[x1, x2)` and rows `[y1, y2)`, rounded to nearest
    /// with halves rounded up.
    pub fn average_rect(&self, x1: u32, y1: u32, x2: u32, y2: u32) -> (r: [u8; 3])
        requires
            self.wf(),
            x1 < x2 <= self.frame_width(),
            y1 < y2 <= self.frame_height(),
        ensures
            forall|c: int| 0 <= c < 3 ==> #[trigger] r[c] as int == rounded_mean(
                rect_sum(self.frame(), self.frame_width() as int, c, x1 as int, y1 as int, x2 as int, y2 as int),
                (x2 - x1) * (y2 - y1),
            ),
    {
        let sum = self.sum_rect(x1, y1, x2, y2);
        proof {
            assert((x2 - x1) * (y2 - y1) <= (self.width + 1) * (self.height + 1)) by (nonlinear_arith)
                requires x1 < x2 <= self.width, y1 < y2 <= self.height;
        }
        let count = (x2 - x1) * (y2 - y1);
        let ghost f = self.frame@;
        let ghost w = self.width as int;
        proof {
            assert(count > 0) by (nonlinear_arith) requires count == (x2 - x1) * (y2 - y1), x1 < x2, y1 < y2;
            lemma_rect_sum_bounds(f, w, 0, x1 as int, y1 as int, x2 as int, y2 as int);
            lemma_rect_sum_bounds(f, w, 1, x1 as int, y1 as int, x2 as int, y2 as int);
            lemma_rect_sum_bounds(f, w, 2, x1 as int, y1 as int, x2 as int, y2 as int);
            lemma_rounded_mean_bound(sum[0] as int, count as int);
            lemma_rounded_mean_bound(sum[1] as int, count as int);
            lemma_rounded_mean_bound(sum[2] as int, count as int);
        }
        let half = (count / 2) as u64;
        [
            ((sum[0] as u64 + half) / count as u64) as u8,
            ((sum[1] as u64 + half) / count as u64) as u8,
            ((sum[2] as u64 + half) / count as u64) as u8,
        ]
    }
}

proof fn lemma_fill_step(p: Seq<u8>, w: int, h: int, x: int, y: int, c: int)
    requires
        0 <= x < w,
        0 <= y < h,
        0 <= c < 3,
        rect_sum(p, w, c, 0, 0, w, h) <= u32::MAX,
    ensures
        rect_sum(p, w, c, 0, 0, x + 1, y + 1) <= u32::MAX,
        rect_sum(p, w, c, 0, 0, x + 1, y + 1) == rect_sum(p, w, c, 0, 0, x + 1, y) + row_sum(p, w, c, y, 0, x + 1),
        rect_sum(p, w, c, 0, 0, x + 1, y) >= 0,
        row_sum(p, w, c, y, 0, x + 1) == row_sum(p, w, c, y, 0, x) + channel_at(p, w, x, y, c),
{
    lemma_prefix_monotone(p, w, c, x + 1, y + 1, w, h);
    lemma_rect_sum_bounds(p, w, c, 0, 0, x + 1, y);
    lemma_row_sum_bounds(p, w, c, y, 0, x + 1);
}

/// A rounded mean of values of at most 255 is at most 255.
pub proof fn lemma_rounded_mean_bound(sum: int, count: int)
    requires
        count > 0,
        0 <= sum <= 255 * count,
    ensures
        0 <= rounded_mean(sum, count) <= 255,
{
    assert(sum + count / 2 < 256 * count) by (nonlinear_arith)
        requires count > 0, sum <= 255 * count;
    assert((sum + count / 2) / count < 256) by (nonlinear_arith)
        requires count > 0, sum + count / 2 < 256 * count, sum >= 0;
}

} // verus!
