//! Colour extraction by visiting every pixel of every tile.

use vstd::prelude::*;
use crate::ffmpeg::color_extractor::{
    compute_output_buffer_size, crop_line, frame_text, line_prefix, output_buffer_size, push_color, push_line_prefix,
    tile_average, tiles_text, FrameColorExtractionAlgorithm,
};
use crate::ffmpeg::crops::{CropSetting, CropTile};
use crate::ffmpeg::color_extractor::summed_table::{table_accepts, SummedAreaTable};
use crate::ffmpeg::color_extractor::tile_in_frame;
use crate::ffmpeg::pixels::{
    block_sum, lemma_sub_rect_within, lemma_rect_sum_bounds, lemma_rect_sum_split_rows, lemma_row_sum_bounds, lemma_row_sum_split, rect_sum, row_sum,
};
use crate::ffmpeg::summed_table::lemma_rounded_mean_bound;
use crate::text::string_from_chars;

verus! {

pub struct PixelArray {
    frame_width: u32,
    frame_crops: Vec<CropSetting>,
    buffer_capacity: usize,
}

/// The tile can be summed directly from a buffer of `len` bytes holding a frame of width `w`.
pub open spec fn tile_readable(p: Seq<u8>, w: int, t: CropTile) -> bool {
    &&& t.start_x <= t.end_x <= w
    &&& t.start_y <= t.end_y
    &&& t.total_pixels == (t.end_x - t.start_x) * (t.end_y - t.start_y)
    &&& 3 * (t.end_y * w) <= p.len()
    &&& 3 * (t.end_y * w) <= u32::MAX
    &&& forall|c: int| 0 <= c < 3 ==> #[trigger] rect_sum(p, w, c, t.start_x as int, t.start_y as int, t.end_x as int, t.end_y as int) <= u32::MAX
}

/// Every tile of every crop can be summed from the buffer.
pub open spec fn array_accepts(w: int, crops: Seq<CropSetting>, p: Seq<u8>) -> bool {
    forall|i: int, j: int|
        0 <= i < crops.len() && 0 <= j < crops[i].tiles@.len() ==> tile_readable(p, w, #[trigger] crops[i].tiles@[j])
}

impl PixelArray {
    /// An extractor for frames `frame_width` pixels wide; it takes the frames in which every
    /// tile can be summed.
    pub fn new(frame_width: u32, frame_crops: Vec<CropSetting>) -> (p: Self)
        requires
            output_buffer_size(frame_crops@) <= usize::MAX,
        ensures
            p.frame_crops() == frame_crops@,
            p.frame_width() == frame_width,
            forall|q: Seq<u8>| p.accepts_frame(q) == array_accepts(frame_width as int, frame_crops@, q),
    {
        let buffer_capacity = compute_output_buffer_size(&frame_crops);
        PixelArray { frame_width, frame_crops, buffer_capacity }
    }

    /// Whether the extractor takes the frame `pixels`.
    fn frame_fits(&self, pixels: &[u8]) -> (b: bool)
        ensures
            b == self.accepts_frame(pixels@),
    {
        let ghost crops = self.frame_crops@;
        let ghost w = self.frame_width as int;
        let mut i: usize = 0;
        while i < self.frame_crops.len()
            invariant
                i <= crops.len(),
                crops == self.frame_crops@,
                w == self.frame_width,
                forall|a: int, b: int| 0 <= a < i && 0 <= b < crops[a].tiles@.len() ==> tile_readable(pixels@, w, #[trigger] crops[a].tiles@[b]),
            decreases crops.len() - i,
        {
            let crop = &self.frame_crops[i];
            let mut j: usize = 0;
            while j < crop.tiles.len()
                invariant
                    i < crops.len(),
                    j <= crop.tiles@.len(),
                    *crop == crops[i as int],
                    crops == self.frame_crops@,
                    w == self.frame_width,
                    forall|a: int, b: int| 0 <= a < i && 0 <= b < crops[a].tiles@.len() ==> tile_readable(pixels@, w, #[trigger] crops[a].tiles@[b]),
                    forall|b: int| 0 <= b < j ==> tile_readable(pixels@, w, #[trigger] crops[i as int].tiles@[b]),
                decreases crop.tiles@.len() - j,
            {
                if !tile_fits(pixels, self.frame_width, crop.tiles[j]) {
                    assert(!tile_readable(pixels@, w, crops[i as int].tiles@[j as int]));
                    return false;
                }
                j += 1;
            }
            assert forall|a: int, b: int| 0 <= a < i + 1 && 0 <= b < crops[a].tiles@.len() implies tile_readable(pixels@, w, #[trigger] crops[a].tiles@[b]) by {
                if a == i {
                    assert(tile_readable(pixels@, w, crops[i as int].tiles@[b]));
                }
            }
            i += 1;
        }
        true
    }
}

/// A frame that the summed-area extractor takes, the extractor that visits every pixel
/// takes too when it has the same crops and frame width; as both write `frame_text` of the
/// frames they take, they then write the same lines.
pub proof fn lemma_table_frames_suit_pixel_array(w: int, h: int, crops: Seq<CropSetting>, p: Seq<u8>)
    requires
        w >= 0,
        h >= 0,
        table_accepts(w, h, crops, p),
    ensures
        array_accepts(w, crops, p),
{
    assert forall|i: int, j: int| 0 <= i < crops.len() && 0 <= j < crops[i].tiles@.len()
        implies tile_readable(p, w, #[trigger] crops[i].tiles@[j]) by {
        let t = crops[i].tiles@[j];
        assert(tile_in_frame(t, w, h));
        assert(3 * (t.end_y * w) <= 3 * w * h) by (nonlinear_arith)
            requires t.end_y <= h, w >= 0, t.end_y >= 0;
        assert forall|c: int| 0 <= c < 3 implies #[trigger] rect_sum(p, w, c, t.start_x as int, t.start_y as int, t.end_x as int, t.end_y as int) <= u32::MAX by {
            lemma_sub_rect_within(p, w, h, c, t.start_x as int, t.start_y as int, t.end_x as int, t.end_y as int);
            assert(rect_sum(p, w, c, 0, 0, w, h) <= u32::MAX);
        }
    }
}

/// The two extractors agree: a frame that a summed-area extractor takes, an extractor that
/// visits every pixel with the same crops and frame width takes too, and both write the same
/// lines for it, `frame_text` of the frame number, the crops and the frame.
pub proof fn lemma_extractors_agree(a: &PixelArray, t: &SummedAreaTable, p: Seq<u8>)
    requires
        a.frame_crops() == t.frame_crops(),
        a.frame_width() == t.frame_width(),
        t.accepts_frame(p),
    ensures
        a.accepts_frame(p),
{
    t.lemma_accepts_frame(p);
    lemma_table_frames_suit_pixel_array(t.frame_width() as int, t.frame_height() as int, t.frame_crops(), p);
}

/// Whether the tile can be summed from the buffer.
fn tile_fits(pixels: &[u8], w: u32, t: CropTile) -> (b: bool)
    ensures
        b == tile_readable(pixels@, w as int, t),
{
    if !(t.start_x <= t.end_x && t.end_x <= w && t.start_y <= t.end_y) {
        return false;
    }
    let dx = (t.end_x - t.start_x) as u128;
    let dy = (t.end_y - t.start_y) as u128;
    assert(dx * dy <= 0xffff_ffff * 0xffff_ffff) by (nonlinear_arith)
        requires dx <= 0xffff_ffff, dy <= 0xffff_ffff;
    let area = dx * dy;
    if t.total_pixels as u128 != area {
        return false;
    }
    let ey = t.end_y as u128;
    let wu = w as u128;
    assert(ey * wu <= 0xffff_ffff * 0xffff_ffff) by (nonlinear_arith)
        requires ey <= 0xffff_ffff, wu <= 0xffff_ffff;
    let reach = 3 * (ey * wu);
    if reach > pixels.len() as u128 || reach > u32::MAX as u128 {
        return false;
    }
    let red = block_sum(pixels, w, 0, t.start_x, t.start_y, t.end_x, t.end_y);
    let green = block_sum(pixels, w, 1, t.start_x, t.start_y, t.end_x, t.end_y);
    let blue = block_sum(pixels, w, 2, t.start_x, t.start_y, t.end_x, t.end_y);
    let fits = red <= u32::MAX as u64 && green <= u32::MAX as u64 && blue <= u32::MAX as u64;
    proof {
        let p = pixels@;
        let wi = w as int;
        if fits {
            assert forall|c: int| 0 <= c < 3 implies #[trigger] rect_sum(p, wi, c, t.start_x as int, t.start_y as int, t.end_x as int, t.end_y as int) <= u32::MAX by {
                if c == 0 {
                } else if c == 1 {
                } else {
                }
            }
        } else {
            assert(rect_sum(p, wi, 0, t.start_x as int, t.start_y as int, t.end_x as int, t.end_y as int) == red);
            assert(rect_sum(p, wi, 1, t.start_x as int, t.start_y as int, t.end_x as int, t.end_y as int) == green);
            assert(rect_sum(p, wi, 2, t.start_x as int, t.start_y as int, t.end_x as int, t.end_y as int) == blue);
        }
    }
    fits
}

/// Mean colour of a tile, summing its pixels row by row.
fn average_tile(pixels: &[u8], w: u32, t: CropTile) -> (r: [u8; 3])
    requires
        tile_readable(pixels@, w as int, t),
    ensures
        r[0] == tile_average(pixels@, w as int, t, 0),
        r[1] == tile_average(pixels@, w as int, t, 1),
        r[2] == tile_average(pixels@, w as int, t, 2),
{
    let ghost p = pixels@;
    let ghost wi = w as int;
    let ghost sx = t.start_x as int;
    let ghost sy = t.start_y as int;
    let ghost ex = t.end_x as int;
    let ghost ey = t.end_y as int;
    let mut total_red: u32 = 0;
    let mut total_green: u32 = 0;
    let mut total_blue: u32 = 0;
    let mut y = t.start_y;
    while y < t.end_y
        invariant
            tile_readable(p, wi, t),
            p == pixels@,
            wi == w,
            sx == t.start_x,
            sy == t.start_y,
            ex == t.end_x,
            ey == t.end_y,
            sy <= y <= ey,
            total_red == rect_sum(p, wi, 0, sx, sy, ex, y as int),
            total_green == rect_sum(p, wi, 1, sx, sy, ex, y as int),
            total_blue == rect_sum(p, wi, 2, sx, sy, ex, y as int),
        decreases t.end_y - y,
    {
        let mut x = t.start_x;
        while x < t.end_x
            invariant
                tile_readable(p, wi, t),
                p == pixels@,
                wi == w,
                sx == t.start_x,
                sy == t.start_y,
                ex == t.end_x,
                ey == t.end_y,
                sy <= y < ey,
                sx <= x <= ex,
                total_red == rect_sum(p, wi, 0, sx, sy, ex, y as int) + row_sum(p, wi, 0, y as int, sx, x as int),
                total_green == rect_sum(p, wi, 1, sx, sy, ex, y as int) + row_sum(p, wi, 1, y as int, sx, x as int),
                total_blue == rect_sum(p, wi, 2, sx, sy, ex, y as int) + row_sum(p, wi, 2, y as int, sx, x as int),
            decreases t.end_x - x,
        {
            proof {
                assert(3 * (y * wi + x) + 2 < 3 * (ey * wi)) by (nonlinear_arith)
                    requires y < ey, x < ex, ex <= wi;
                lemma_sum_step(p, wi, sx, sy, ex, ey, x as int, y as int, 0);
                lemma_sum_step(p, wi, sx, sy, ex, ey, x as int, y as int, 1);
                lemma_sum_step(p, wi, sx, sy, ex, ey, x as int, y as int, 2);
            }
            let src = ((y * w + x) * 3) as usize;
            total_red += pixels[src] as u32;
            total_green += pixels[src + 1] as u32;
            total_blue += pixels[src + 2] as u32;
            x += 1;
        }
        y += 1;
    }
    let count = t.total_pixels;
    if count == 0 {
        return [0u8, 0u8, 0u8];
    }
    proof {
        lemma_rect_sum_bounds(p, wi, 0, sx, sy, ex, ey);
        lemma_rect_sum_bounds(p, wi, 1, sx, sy, ex, ey);
        lemma_rect_sum_bounds(p, wi, 2, sx, sy, ex, ey);
        lemma_rounded_mean_bound(total_red as int, count as int);
        lemma_rounded_mean_bound(total_green as int, count as int);
        lemma_rounded_mean_bound(total_blue as int, count as int);
    }
    let half = (count / 2) as u64;
    [
        ((total_red as u64 + half) / count as u64) as u8,
        ((total_green as u64 + half) / count as u64) as u8,
        ((total_blue as u64 + half) / count as u64) as u8,
    ]
}

proof fn lemma_sum_step(p: Seq<u8>, w: int, sx: int, sy: int, ex: int, ey: int, x: int, y: int, c: int)
    requires
        sx <= x < ex,
        sy <= y < ey,
        rect_sum(p, w, c, sx, sy, ex, ey) <= u32::MAX,
    ensures
        rect_sum(p, w, c, sx, sy, ex, y) + row_sum(p, w, c, y, sx, x + 1) <= u32::MAX,
        row_sum(p, w, c, y, sx, x + 1) == row_sum(p, w, c, y, sx, x) + p[3 * (y * w + x) + c],
{
    lemma_row_sum_split(p, w, c, y, sx, x + 1, ex);
    lemma_row_sum_bounds(p, w, c, y, x + 1, ex);
    lemma_rect_sum_split_rows(p, w, c, sx, sy, y + 1, ex, ey);
    lemma_rect_sum_bounds(p, w, c, sx, y + 1, ex, ey);
}

impl FrameColorExtractionAlgorithm for PixelArray {
    closed spec fn frame_crops(&self) -> Seq<CropSetting> {
        self.frame_crops@
    }

    closed spec fn frame_width(&self) -> nat {
        self.frame_width as nat
    }

    /// Every tile of every crop lies in the buffer.
    closed spec fn accepts_frame(&self, pixels: Seq<u8>) -> bool {
        array_accepts(self.frame_width as int, self.frame_crops@, pixels)
    }

    fn accepts(&self, pixels: &[u8]) -> (b: bool) {
        self.frame_fits(pixels)
    }

    fn process_frame(&mut self, frame_number: u64, pixels: &[u8]) -> (out: String) {
        let ghost p = pixels@;
        let ghost crops = self.frame_crops@;
        let ghost w = self.frame_width as int;
        let mut output: Vec<char> = Vec::with_capacity(self.buffer_capacity);
        let mut i: usize = 0;
        while i < self.frame_crops.len()
            invariant
                i <= crops.len(),
                crops == self.frame_crops@,
                w == self.frame_width,
                p == pixels@,
                self.accepts_frame(p),
                output@ == frame_text(frame_number as nat, crops.subrange(0, i as int), p, w),
            decreases crops.len() - i,
        {
            let crop = &self.frame_crops[i];
            let ghost line_start = output@;
            push_line_prefix(&mut output, frame_number, crop);
            let mut j: usize = 0;
            while j < crop.tiles.len()
                invariant
                    i < crops.len(),
                    j <= crop.tiles@.len(),
                    *crop == crops[i as int],
                    crops == self.frame_crops@,
                    w == self.frame_width,
                    p == pixels@,
                    self.accepts_frame(p),
                    output@ == line_start + line_prefix(frame_number as nat, *crop) + tiles_text(p, w, crop.tiles@.subrange(0, j as int)),
                decreases crop.tiles@.len() - j,
            {
                let tile = crop.tiles[j];
                assert(tile_readable(p, w, self.frame_crops@[i as int].tiles@[j as int]));
                let rgb = average_tile(pixels, self.frame_width, tile);
                push_color(&mut output, rgb[0], rgb[1], rgb[2]);
                assert(crop.tiles@.subrange(0, j + 1).drop_last() == crop.tiles@.subrange(0, j as int));
                j += 1;
            }
            output.push('\n');
            assert(crop.tiles@.subrange(0, j as int) == crop.tiles@);
            assert(crops.subrange(0, i + 1).drop_last() == crops.subrange(0, i as int));
            i += 1;
        }
        assert(crops.subrange(0, i as int) == crops);
        string_from_chars(&output)
    }
}

} // verus!
