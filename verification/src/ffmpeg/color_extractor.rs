//! Colour extraction from decoded frames: for each crop of the frame, the
//! mean colour of each of its tiles, written as one line of text.
//!
//! A line reads `frame resize pos_x pos_y r,g,b r,g,b ...`, with the
//! percentages in shortest decimal form (`66.666`, `12.5`, `100`).

pub mod pixel_array;
pub mod summed_table;

pub use pixel_array::PixelArray;
pub use summed_table::SummedAreaTable;

use vstd::prelude::*;
use crate::ffmpeg::crops::{CropSetting, CropTile, CropError, crops_16x9, crops_16x9_fit, are_crops};
use crate::ffmpeg::aspect_ratio::{AspectRatio, classify_hundredths, ratio_hundredths};
use crate::ffmpeg::pixels::{rect_sum, rounded_mean};
use crate::text::{digits, fixed_point_text, push_digits, push_fixed_point};
use crate::ffmpeg::video_metadata::VideoMetadata;
use crate::ffmpeg::frame_extractor::{DEFAULT_RESIZE_WIDTH, SMALLEST_RESIZED_WIDTH, clamped_resize_width};
use crate::numeric::{min_int, max_int};

verus! {

/// How the mean colours of the tiles are computed.
#[derive(PartialEq, Eq, Structural, Clone, Copy, Debug)]
pub enum ColorExtractionAlgorithm {
    PixelArrayTraversal,
    SummedAreaTable,
}

/// Mean of channel `c` over the tile, rounded to nearest with halves up; zero for an empty tile.
pub open spec fn tile_average(p: Seq<u8>, w: int, t: CropTile, c: int) -> int {
    let count = (t.end_x - t.start_x) * (t.end_y - t.start_y);
    if count == 0 {
        0
    } else {
        rounded_mean(rect_sum(p, w, c, t.start_x as int, t.start_y as int, t.end_x as int, t.end_y as int), count)
    }
}

/// ` r,g,b` for one colour.
pub open spec fn color_text(r: nat, g: nat, b: nat) -> Seq<char> {
    seq![' '] + digits(r) + seq![','] + digits(g) + seq![','] + digits(b)
}

/// The mean colours of the tiles, in order.
pub open spec fn tiles_text(p: Seq<u8>, w: int, tiles: Seq<CropTile>) -> Seq<char>
    decreases tiles.len(),
{
    if tiles.len() == 0 {
        Seq::empty()
    } else {
        let t = tiles.last();
        tiles_text(p, w, tiles.drop_last()) + color_text(
            tile_average(p, w, t, 0) as nat,
            tile_average(p, w, t, 1) as nat,
            tile_average(p, w, t, 2) as nat,
        )
    }
}

/// The start of a line: frame number and the crop's size and position.
pub open spec fn line_prefix(frame_number: nat, crop: CropSetting) -> Seq<char> {
    digits(frame_number) + seq![' '] + fixed_point_text(crop.resize_thousandths as nat, 3) + seq![' ']
        + fixed_point_text(crop.pos_x_thousandths as nat, 3) + seq![' '] + fixed_point_text(crop.pos_y_thousandths as nat, 3)
}

/// The line written for one crop of a frame.
pub open spec fn crop_line(frame_number: nat, crop: CropSetting, p: Seq<u8>, w: int) -> Seq<char> {
    line_prefix(frame_number, crop) + tiles_text(p, w, crop.tiles@) + seq!['\n']
}

/// The text written for a frame: one line per crop.
pub open spec fn frame_text(frame_number: nat, crops: Seq<CropSetting>, p: Seq<u8>, w: int) -> Seq<char>
    decreases crops.len(),
{
    if crops.len() == 0 {
        Seq::empty()
    } else {
        frame_text(frame_number, crops.drop_last(), p, w) + crop_line(frame_number, crops.last(), p, w)
    }
}

/// The tile lies within a `w` x `h` frame and counts its pixels.
pub open spec fn tile_in_frame(t: CropTile, w: int, h: int) -> bool {
    &&& t.start_x <= t.end_x <= w
    &&& t.start_y <= t.end_y <= h
    &&& t.total_pixels == (t.end_x - t.start_x) * (t.end_y - t.start_y)
}

/// Every tile of every crop lies within a `w` x `h` frame.
pub open spec fn crops_in_frame(crops: Seq<CropSetting>, w: int, h: int) -> bool {
    forall|i: int, j: int|
        0 <= i < crops.len() && 0 <= j < crops[i].tiles@.len() ==> tile_in_frame(#[trigger] crops[i].tiles@[j], w, h)
}

/// Every tile of every crop has at least one pixel.
pub open spec fn crops_nonempty(crops: Seq<CropSetting>) -> bool {
    forall|i: int, j: int|
        0 <= i < crops.len() && 0 <= j < crops[i].tiles@.len() ==> (#[trigger] crops[i].tiles@[j]).total_pixels > 0
}

/// Bytes reserved for the text of one frame: ten, plus per crop 29 for the prefix
/// (`1123456 66.666 33.333 33.333 `) and 12 per tile (`255,255,255 `).
pub open spec fn output_buffer_size(crops: Seq<CropSetting>) -> int
    decreases crops.len(),
{
    if crops.len() == 0 {
        10
    } else {
        output_buffer_size(crops.drop_last()) + 29 + 12 * crops.last().tiles@.len()
    }
}

/// A way of turning frames into colour lines.
pub trait FrameColorExtractionAlgorithm {
    /// The crops whose tiles are measured.
    spec fn frame_crops(&self) -> Seq<CropSetting>;

    /// Width of the frames, in pixels.
    spec fn frame_width(&self) -> nat;

    /// Frames that this extractor can process.
    spec fn accepts_frame(&self, pixels: Seq<u8>) -> bool;

    /// Whether this extractor can process the frame `pixels`.
    fn accepts(&self, pixels: &[u8]) -> (b: bool)
        ensures
            b == self.accepts_frame(pixels@),
    ;

    /// The colour lines of one frame of packed RGB pixels.
    fn process_frame(&mut self, frame_number: u64, pixels: &[u8]) -> (out: String)
        requires
            old(self).accepts_frame(pixels@),
        ensures
            out@ == frame_text(frame_number as nat, old(self).frame_crops(), pixels@, old(self).frame_width() as int),
            final(self).frame_crops() == old(self).frame_crops(),
            final(self).frame_width() == old(self).frame_width(),
            forall|q: Seq<u8>| final(self).accepts_frame(q) == old(self).accepts_frame(q),
    ;
}

/// Length of the longest line prefix, `1123456 66.666 33.333 33.333 `.
pub const PREFIX_LENGTH: usize = 29;

/// Length of the longest colour, `255,255,255 `.
pub const RGB_LENGTH: usize = 12;

/// Bytes to reserve for the text of one frame.
pub fn compute_output_buffer_size(crops: &[CropSetting]) -> (n: usize)
    requires
        output_buffer_size(crops@) <= usize::MAX,
    ensures
        n == output_buffer_size(crops@),
{
    let mut buffer_capacity: usize = 10;
    let mut i: usize = 0;
    while i < crops.len()
        invariant
            i <= crops@.len(),
            output_buffer_size(crops@) <= usize::MAX,
            buffer_capacity == output_buffer_size(crops@.subrange(0, i as int)),
        decreases crops.len() - i,
    {
        assert(crops@.subrange(0, i + 1).drop_last() == crops@.subrange(0, i as int));
        proof {
            lemma_output_buffer_size_prefix(crops@, i + 1);
        }
        buffer_capacity += PREFIX_LENGTH;
        let num_tiles = crops[i].tiles.len();
        buffer_capacity += num_tiles * RGB_LENGTH;
        i += 1;
    }
    assert(crops@.subrange(0, i as int) == crops@);
    buffer_capacity
}

proof fn lemma_output_buffer_size_prefix(crops: Seq<CropSetting>, k: int)
    requires
        0 <= k <= crops.len(),
    ensures
        output_buffer_size(crops.subrange(0, k)) <= output_buffer_size(crops),
    decreases crops.len() - k,
{
    if k < crops.len() {
        lemma_output_buffer_size_prefix(crops, k + 1);
        assert(crops.subrange(0, k + 1).drop_last() == crops.subrange(0, k));
    } else {
        assert(crops.subrange(0, k) == crops);
    }
}

/// Appends the start of a crop's line.
pub(crate) fn push_line_prefix(out: &mut Vec<char>, frame_number: u64, crop: &CropSetting)
    ensures
        final(out)@ == old(out)@ + line_prefix(frame_number as nat, *crop),
{
    push_digits(out, frame_number);
    out.push(' ');
    push_fixed_point(out, crop.resize_thousandths as u64, 3);
    out.push(' ');
    push_fixed_point(out, crop.pos_x_thousandths as u64, 3);
    out.push(' ');
    push_fixed_point(out, crop.pos_y_thousandths as u64, 3);
    assert(final(out)@ == old(out)@ + line_prefix(frame_number as nat, *crop));
}

/// Appends ` r,g,b`.
pub(crate) fn push_color(out: &mut Vec<char>, r: u8, g: u8, b: u8)
    ensures
        final(out)@ == old(out)@ + color_text(r as nat, g as nat, b as nat),
{
    out.push(' ');
    push_digits(out, r as u64);
    out.push(',');
    push_digits(out, g as u64);
    out.push(',');
    push_digits(out, b as u64);
    assert(final(out)@ == old(out)@ + color_text(r as nat, g as nat, b as nat));
}

/// Threads each ffmpeg process may use unless told otherwise.
pub const DEFAULT_MAX_FFMPEG_THREADS: u32 = 4;

/// Frames between two progress reports.
pub const OUTPUT_FRAME_INTERVAL: u64 = 123;

/// Why a video cannot be indexed.
#[derive(Clone, Copy, Debug, PartialEq, Eq, Structural)]
pub enum ExtractionError {
    /// Frame numbers of a variable frame rate video do not follow its timestamps.
    VariableFrameRate,
}

/// The settings for indexing the frames `[start_frame_index, end_frame_index)` of a video.
pub struct ColorExtractor {
    instance_id: u32,
    video: VideoMetadata,
    max_ffmpeg_threads: u32,
    resize_width: u32,
    start_frame_index: u64,
    end_frame_index: u64,
    tiles_x: u32,
    tiles_y: u32,
    algorithm: ColorExtractionAlgorithm,
}

impl ColorExtractor {
    pub closed spec fn id(&self) -> u32 {
        self.instance_id
    }

    pub closed spec fn video(&self) -> VideoMetadata {
        self.video
    }

    pub closed spec fn max_threads(&self) -> nat {
        self.max_ffmpeg_threads as nat
    }

    pub closed spec fn resize_width(&self) -> nat {
        self.resize_width as nat
    }

    pub closed spec fn frame_range(&self) -> (u64, u64) {
        (self.start_frame_index, self.end_frame_index)
    }

    pub closed spec fn tiles(&self) -> (u32, u32) {
        (self.tiles_x, self.tiles_y)
    }

    pub closed spec fn algorithm(&self) -> ColorExtractionAlgorithm {
        self.algorithm
    }

    /// Settings for indexing a constant frame rate video at 1920 pixels wide (or the video's
    /// width when less), four ffmpeg threads, with the summed-area table.
    pub fn init(
        instance_id: u32,
        video: VideoMetadata,
        start_frame_index: u64,
        end_frame_index: u64,
        tiles_x: u32,
        tiles_y: u32,
    ) -> (r: Result<ColorExtractor, ExtractionError>)
        ensures
            match r {
                Ok(e) => {
                    &&& !video.is_variable_frame_rate
                    &&& e.id() == instance_id
                    &&& e.video() == video
                    &&& e.max_threads() == DEFAULT_MAX_FFMPEG_THREADS
                    &&& e.resize_width() == min_int(DEFAULT_RESIZE_WIDTH as int, video.width as int)
                    &&& e.frame_range() == (start_frame_index, end_frame_index)
                    &&& e.tiles() == (tiles_x, tiles_y)
                    &&& e.algorithm() == ColorExtractionAlgorithm::SummedAreaTable
                },
                Err(err) => video.is_variable_frame_rate && err == ExtractionError::VariableFrameRate,
            },
    {
        if video.is_variable_frame_rate {
            return Err(ExtractionError::VariableFrameRate);
        }
        let resize_width = if DEFAULT_RESIZE_WIDTH < video.width { DEFAULT_RESIZE_WIDTH } else { video.width };
        Ok(ColorExtractor {
            instance_id,
            video,
            max_ffmpeg_threads: DEFAULT_MAX_FFMPEG_THREADS,
            resize_width,
            start_frame_index,
            end_frame_index,
            tiles_x,
            tiles_y,
            algorithm: ColorExtractionAlgorithm::SummedAreaTable,
        })
    }

    /// Lets each ffmpeg process use `num` threads, at least one.
    pub fn set_max_threads(&mut self, num: u32)
        ensures
            final(self).max_threads() == max_int(1, num as int),
            final(self).id() == old(self).id(),
            final(self).video() == old(self).video(),
            final(self).resize_width() == old(self).resize_width(),
            final(self).frame_range() == old(self).frame_range(),
            final(self).tiles() == old(self).tiles(),
            final(self).algorithm() == old(self).algorithm(),
    {
        self.max_ffmpeg_threads = if num > 1 { num } else { 1 };
    }

    /// Decodes at `width`, kept at least 640 and at most the video's width.
    pub fn set_resize_width(&mut self, width: u32)
        ensures
            final(self).resize_width() == clamped_resize_width(width as nat, old(self).video().width as nat),
            final(self).id() == old(self).id(),
            final(self).video() == old(self).video(),
            final(self).max_threads() == old(self).max_threads(),
            final(self).frame_range() == old(self).frame_range(),
            final(self).tiles() == old(self).tiles(),
            final(self).algorithm() == old(self).algorithm(),
    {
        let width = if width > SMALLEST_RESIZED_WIDTH { width } else { SMALLEST_RESIZED_WIDTH };
        self.resize_width = if width < self.video.width { width } else { self.video.width };
    }

    /// Chooses how tile colours are computed.
    pub fn set_algorithm(&mut self, algorithm: ColorExtractionAlgorithm)
        ensures
            final(self).algorithm() == algorithm,
            final(self).id() == old(self).id(),
            final(self).video() == old(self).video(),
            final(self).max_threads() == old(self).max_threads(),
            final(self).resize_width() == old(self).resize_width(),
            final(self).frame_range() == old(self).frame_range(),
            final(self).tiles() == old(self).tiles(),
    {
        self.algorithm = algorithm;
    }

    pub fn instance_id(&self) -> (r: u32)
        ensures
            r == self.id(),
    {
        self.instance_id
    }

    pub fn max_ffmpeg_threads(&self) -> (r: u32)
        ensures
            r == self.max_threads(),
    {
        self.max_ffmpeg_threads
    }

    pub fn color_algorithm(&self) -> (r: ColorExtractionAlgorithm)
        ensures
            r == self.algorithm(),
    {
        self.algorithm
    }

    pub fn start_frame(&self) -> (r: u64)
        ensures
            r == self.frame_range().0,
    {
        self.start_frame_index
    }

    pub fn end_frame(&self) -> (r: u64)
        ensures
            r == self.frame_range().1,
    {
        self.end_frame_index
    }

    /// The width frames are decoded at.
    pub fn frame_width(&self) -> (w: u32)
        ensures
            w == self.resize_width(),
    {
        self.resize_width
    }

    /// The height frames are decoded at: the width over the video's shape.
    pub fn frame_height(&self) -> (h: u32)
        ensures
            h == self.video().aspect_ratio.height_for(self.resize_width()),
    {
        self.video.aspect_ratio.frame_height(self.resize_width)
    }

    /// The crops whose tile colours are recorded for each frame.
    pub fn frame_crops(&self) -> (r: Result<Vec<CropSetting>, CropError>)
        requires
            self.video().aspect_ratio.height_for(self.resize_width()) > 0 && classify_hundredths(
                ratio_hundredths(self.resize_width(), self.video().aspect_ratio.height_for(self.resize_width())),
            ) == AspectRatio::Landscape16x9 ==> crops_16x9_fit(
                self.resize_width() as int,
                self.video().aspect_ratio.height_for(self.resize_width()) as int,
                self.tiles().0 as int,
                self.tiles().1 as int,
            ),
        ensures
            ({
                let h = self.video().aspect_ratio.height_for(self.resize_width());
                match r {
                    Ok(v) => h > 0 && classify_hundredths(ratio_hundredths(self.resize_width(), h)) == AspectRatio::Landscape16x9
                        && are_crops(v@, crops_16x9(), self.resize_width() as int, h as int, self.tiles().0 as int, self.tiles().1 as int),
                    Err(e) => e == CropError::UnsupportedAspectRatio { width: self.resize_width() as u32, height: h as u32 }
                        && !(h > 0 && classify_hundredths(ratio_hundredths(self.resize_width(), h)) == AspectRatio::Landscape16x9),
                }
            }),
    {
        let h = self.frame_height();
        CropSetting::all_crops(self.resize_width, h, self.tiles_x, self.tiles_y)
    }
}

/// What happens after a frame's colours were written.
#[derive(Clone, Copy, Debug, PartialEq, Eq, Structural)]
pub enum FrameProgress {
    /// The last frame of the range was written; this many frames were processed.
    Finished(u64),
    /// A progress report is due; this many frames were processed so far.
    Report(u64),
    /// Nothing to report.
    Quiet,
}

/// Counts the frames of the range `[start, end)` as they are written.
pub struct FrameCounter {
    start: u64,
    end: u64,
    current: u64,
}

impl FrameCounter {
    pub closed spec fn state(&self) -> (u64, u64, u64) {
        (self.start, self.end, self.current)
    }

    /// A counter at the start of `[start, end)`.
    pub fn new(start: u64, end: u64) -> (c: FrameCounter)
        requires
            start <= end,
        ensures
            c.state() == (start, end, start),
    {
        FrameCounter { start, end, current: start }
    }

    /// Frames in the range.
    pub fn total_frames(&self) -> (n: u64)
        requires
            self.state().0 <= self.state().1,
        ensures
            n == self.state().1 - self.state().0,
    {
        self.end - self.start
    }

    /// The index of the next frame.
    pub fn current_frame(&self) -> (n: u64)
        ensures
            n == self.state().2,
    {
        self.current
    }

    /// Counts one more frame written: the range is finished when its end is reached, and a
    /// report is due every 123 frames.
    pub fn frame_written(&mut self) -> (p: FrameProgress)
        requires
            old(self).state().0 <= old(self).state().1,
            old(self).state().0 <= old(self).state().2 < u64::MAX,
        ensures
            ({
                let (start, end, current) = old(self).state();
                &&& final(self).state() == (start, end, (current + 1) as u64)
                &&& p == (if current + 1 == end {
                    FrameProgress::Finished((end - start) as u64)
                } else if (current + 1) % (OUTPUT_FRAME_INTERVAL as int) == 0 {
                    FrameProgress::Report((current + 1 - start) as u64)
                } else {
                    FrameProgress::Quiet
                })
            }),
    {
        self.current = self.current + 1;
        if self.current == self.end {
            FrameProgress::Finished(self.end - self.start)
        } else if self.current % OUTPUT_FRAME_INTERVAL == 0 {
            FrameProgress::Report(self.current - self.start)
        } else {
            FrameProgress::Quiet
        }
    }
}

} // verus!
