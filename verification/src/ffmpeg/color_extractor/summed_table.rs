//! Colour extraction through a summed-area table: one pass over the frame,
//! then four lookups per tile.

use vstd::prelude::*;
use crate::ffmpeg::color_extractor::{
    compute_output_buffer_size, crops_in_frame, crops_nonempty, tile_in_frame, frame_text, line_prefix, output_buffer_size, push_color,
    push_line_prefix, tile_average, tiles_text, FrameColorExtractionAlgorithm,
};
use crate::ffmpeg::crops::CropSetting;
use crate::ffmpeg::pixels::{block_sum, rect_sum};
use crate::ffmpeg::summed_table::SummedAreaTable as FrameSums;
use crate::text::string_from_chars;

verus! {

pub struct SummedAreaTable {
    sums: FrameSums,
    frame_width: u32,
    frame_height: u32,
    buffer_capacity: usize,
    frame_crops: Vec<CropSetting>,
}

/// A whole `w` x `h` frame whose channel totals fit in `u32`, with every tile inside the
/// frame and not empty.
pub open spec fn table_accepts(w: int, h: int, crops: Seq<CropSetting>, pixels: Seq<u8>) -> bool {
    &&& pixels.len() >= 3 * w * h
    &&& 3 * w * h <= u32::MAX
    &&& forall|c: int| 0 <= c < 3 ==> #[trigger] rect_sum(pixels, w, c, 0, 0, w, h) <= u32::MAX
    &&& crops_in_frame(crops, w, h)
    &&& crops_nonempty(crops)
}

impl SummedAreaTable {
    /// An extractor for `frame_width` x `frame_height` frames; it takes the whole frames
    /// whose channel totals fit in `u32`, when every tile lies inside the frame and is not
    /// empty.
    pub fn new(frame_width: u32, frame_height: u32, frame_crops: Vec<CropSetting>) -> (t: Self)
        requires
            (frame_width + 1) * (frame_height + 1) <= u32::MAX,
            output_buffer_size(frame_crops@) <= usize::MAX,
        ensures
            t.frame_crops() == frame_crops@,
            t.frame_width() == frame_width,
            t.frame_height() == frame_height,
            forall|q: Seq<u8>| t.accepts_frame(q) == table_accepts(frame_width as int, frame_height as int, frame_crops@, q),
    {
        let sums = FrameSums::new(frame_width, frame_height);
        let buffer_capacity = compute_output_buffer_size(&frame_crops);
        SummedAreaTable { sums, frame_width, frame_height, buffer_capacity, frame_crops }
    }

    /// Height of the frames, in pixels.
    pub closed spec fn frame_height(&self) -> nat {
        self.frame_height as nat
    }

    /// The frames the extractor takes are those `table_accepts` describes for its size and
    /// crops.
    pub proof fn lemma_accepts_frame(&self, p: Seq<u8>)
        ensures
            self.accepts_frame(p) == table_accepts(self.frame_width() as int, self.frame_height() as int, self.frame_crops(), p),
    {
    }

    /// Whether the extractor takes the frame `pixels`.
    fn frame_fits(&self, pixels: &[u8]) -> (b: bool)
        ensures
            b == self.accepts_frame(pixels@),
    {
        let ghost crops = self.frame_crops@;
        let w = self.frame_width;
        let h = self.frame_height;
        let ghost wi = w as int;
        let ghost hi = h as int;
        let wu = w as u128;
        let hu = h as u128;
        assert(wu * hu <= 0xffff_ffff * 0xffff_ffff) by (nonlinear_arith)
            requires wu <= 0xffff_ffff, hu <= 0xffff_ffff;
        let size = 3 * (wu * hu);
        assert(3 * wi * hi == 3 * (wu * hu)) by (nonlinear_arith)
            requires wi == wu, hi == hu;
        if size > pixels.len() as u128 || size > u32::MAX as u128 {
            return false;
        }
        assert(h * w == w * h) by (nonlinear_arith);
        let red = block_sum(pixels, w, 0, 0, 0, w, h);
        let green = block_sum(pixels, w, 1, 0, 0, w, h);
        let blue = block_sum(pixels, w, 2, 0, 0, w, h);
        if red > u32::MAX as u64 || green > u32::MAX as u64 || blue > u32::MAX as u64 {
            assert(rect_sum(pixels@, wi, 0, 0, 0, wi, hi) == red);
            assert(rect_sum(pixels@, wi, 1, 0, 0, wi, hi) == green);
            assert(rect_sum(pixels@, wi, 2, 0, 0, wi, hi) == blue);
            return false;
        }
        assert forall|c: int| 0 <= c < 3 implies #[trigger] rect_sum(pixels@, wi, c, 0, 0, wi, hi) <= u32::MAX by {
            if c == 0 {
            } else if c == 1 {
            } else {
            }
        }
        let mut i: usize = 0;
        while i < self.frame_crops.len()
            invariant
                i <= crops.len(),
                crops == self.frame_crops@,
                wi == w,
                hi == h,
                w == self.frame_width,
                h == self.frame_height,
                forall|a: int, b: int| 0 <= a < i && 0 <= b < crops[a].tiles@.len() ==> tile_in_frame(#[trigger] crops[a].tiles@[b], wi, hi)
                    && crops[a].tiles@[b].total_pixels > 0,
            decreases crops.len() - i,
        {
            let crop = &self.frame_crops[i];
            let mut j: usize = 0;
            while j < crop.tiles.len()
                invariant
                    i < crops.len(),
                    j <= crop.tiles@.len(),
                    *crop == crops[i as int],
                    crops == self.frame_crops@,
                    wi == w,
                    hi == h,
                    w == self.frame_width,
                    h == self.frame_height,
                    forall|a: int, b: int| 0 <= a < i && 0 <= b < crops[a].tiles@.len() ==> tile_in_frame(#[trigger] crops[a].tiles@[b], wi, hi)
                        && crops[a].tiles@[b].total_pixels > 0,
                    forall|b: int| 0 <= b < j ==> tile_in_frame(#[trigger] crops[i as int].tiles@[b], wi, hi)
                        && crops[i as int].tiles@[b].total_pixels > 0,
                decreases crop.tiles@.len() - j,
            {
                let t = crop.tiles[j];
                assert(t == crops[i as int].tiles@[j as int]);
                let inside = t.start_x <= t.end_x && t.end_x <= w && t.start_y <= t.end_y && t.end_y <= h;
                if !inside {
                    assert(!tile_in_frame(crops[i as int].tiles@[j as int], wi, hi));
                    return false;
                }
                let dx = (t.end_x - t.start_x) as u128;
                let dy = (t.end_y - t.start_y) as u128;
                assert(dx * dy <= 0xffff_ffff * 0xffff_ffff) by (nonlinear_arith)
                    requires dx <= 0xffff_ffff, dy <= 0xffff_ffff;
                let counted = t.total_pixels as u128 == dx * dy;
                if !counted {
                    assert(!tile_in_frame(crops[i as int].tiles@[j as int], wi, hi));
                    return false;
                }
                if t.total_pixels == 0 {
                    assert(crops[i as int].tiles@[j as int].total_pixels == 0);
                    return false;
                }
                j += 1;
            }
            assert forall|a: int, b: int| 0 <= a < i + 1 && 0 <= b < crops[a].tiles@.len() implies tile_in_frame(#[trigger] crops[a].tiles@[b], wi, hi)
                && crops[a].tiles@[b].total_pixels > 0 by {
                if a == i {
                    assert(tile_in_frame(crops[i as int].tiles@[b], wi, hi));
                }
            }
            i += 1;
        }
        true
    }

    /// The table always has the size of the frames.
    #[verifier::type_invariant]
    closed spec fn sized(&self) -> bool {
        &&& self.sums.wf()
        &&& self.sums.frame_width() == self.frame_width
        &&& self.sums.frame_height() == self.frame_height
    }
}

impl FrameColorExtractionAlgorithm for SummedAreaTable {
    closed spec fn frame_crops(&self) -> Seq<CropSetting> {
        self.frame_crops@
    }

    closed spec fn frame_width(&self) -> nat {
        self.frame_width as nat
    }

    /// A whole `frame_width` x `frame_height` frame whose channel totals fit in `u32`,
    /// with every tile inside the frame and not empty.
    closed spec fn accepts_frame(&self, pixels: Seq<u8>) -> bool {
        table_accepts(self.frame_width as int, self.frame_height as int, self.frame_crops@, pixels)
    }

    fn accepts(&self, pixels: &[u8]) -> (b: bool) {
        self.frame_fits(pixels)
    }

    fn process_frame(&mut self, frame_number: u64, pixels: &[u8]) -> (out: String) {
        let ghost p = pixels@;
        let ghost crops = self.frame_crops@;
        let ghost w = self.frame_width as int;
        let ghost h = self.frame_height as int;
        proof {
            use_type_invariant(&*self);
        }
        self.sums.init(pixels);
        let mut output: Vec<char> = Vec::with_capacity(self.buffer_capacity);
        let mut i: usize = 0;
        while i < self.frame_crops.len()
            invariant
                i <= crops.len(),
                crops == self.frame_crops@,
                w == self.frame_width,
                h == self.frame_height,
                p == pixels@,
                self.sums.wf(),
                self.sums.frame() == p,
                self.sums.frame_width() == w,
                self.sums.frame_height() == h,
                crops_in_frame(crops, w, h),
                crops_nonempty(crops),
                output@ == frame_text(frame_number as nat, crops.subrange(0, i as int), p, w),
            decreases crops.len() - i,
        {
            let crop = &self.frame_crops[i];
            let ghost line_start = output@;
            push_line_prefix(&mut output, frame_number, crop);
            let mut j: usize = 0;
            while j < crop.tiles.len()
                invariant
                    i < crops.len(),
                    j <= crop.tiles@.len(),
                    *crop == crops[i as int],
                    crops == self.frame_crops@,
                    w == self.frame_width,
                    h == self.frame_height,
                    p == pixels@,
                    self.sums.wf(),
                    self.sums.frame() == p,
                    self.sums.frame_width() == w,
                    self.sums.frame_height() == h,
                    crops_in_frame(crops, w, h),
                    crops_nonempty(crops),
                    output@ == line_start + line_prefix(frame_number as nat, *crop) + tiles_text(p, w, crop.tiles@.subrange(0, j as int)),
                decreases crop.tiles@.len() - j,
            {
                let tile = crop.tiles[j];
                assert(crops[i as int].tiles@[j as int] == tile);
                assert(tile.total_pixels > 0);
                assert(tile.start_x < tile.end_x && tile.start_y < tile.end_y) by (nonlinear_arith)
                    requires tile.total_pixels > 0, tile.total_pixels == (tile.end_x - tile.start_x) * (tile.end_y - tile.start_y),
                        tile.start_x <= tile.end_x, tile.start_y <= tile.end_y;
                let rgb = self.sums.average_rect(tile.start_x, tile.start_y, tile.end_x, tile.end_y);
                assert(rgb[0] == tile_average(p, w, tile, 0));
                assert(rgb[1] == tile_average(p, w, tile, 1));
                assert(rgb[2] == tile_average(p, w, tile, 2));
                push_color(&mut output, rgb[0], rgb[1], rgb[2]);
                assert(crop.tiles@.subrange(0, j + 1).drop_last() == crop.tiles@.subrange(0, j as int));
                j += 1;
            }
            output.push('\n');
            assert(crop.tiles@.subrange(0, j as int) == crop.tiles@);
            assert(crops.subrange(0, i + 1).drop_last() == crops.subrange(0, i as int));
            i += 1;
        }
        assert(crops.subrange(0, i as int) == crops);
        string_from_chars(&output)
    }
}

} // verus!
