//! Colours, and the colour data that indexing records for each video frame.

use vstd::prelude::*;
use crate::numeric::{round_div, lemma_round_div_bound};
use crate::ffmpeg::crops::CropLevel;

verus! {

#[derive(Clone, Copy, Debug, PartialEq, Eq, Structural)]
pub struct Color {
    pub r: u8,
    pub g: u8,
    pub b: u8,
}

/// A percentage of at most 100.
pub open spec fn clamp_percentage(percentage: u8) -> int {
    if percentage <= 100 { percentage as int } else { 100 }
}

/// The channel values and percentages at which `value * percentage / 100` is exactly a half
/// above an integer but the single-precision product `(value / 100.0) * percentage`, whose
/// quotient is rounded to 24 bits, falls just below that half.
pub open spec fn single_precision_below_half(value: int, percentage: int) -> bool {
    ||| (value == 42 && percentage == 75)
    ||| (value == 53 && percentage == 50)
    ||| (value == 59 && percentage == 50)
    ||| (value == 65 && percentage == 90)
    ||| (value == 78 && percentage == 75)
    ||| (value == 105 && percentage == 30)
    ||| (value == 105 && percentage == 50)
    ||| (value == 105 && percentage == 90)
    ||| (value == 106 && percentage == 25)
    ||| (value == 106 && percentage == 75)
    ||| (value == 117 && percentage == 50)
    ||| (value == 118 && percentage == 25)
    ||| (value == 118 && percentage == 75)
    ||| (value == 130 && percentage == 45)
    ||| (value == 130 && percentage == 85)
    ||| (value == 130 && percentage == 95)
    ||| (value == 209 && percentage == 50)
    ||| (value == 210 && percentage == 15)
    ||| (value == 210 && percentage == 25)
    ||| (value == 210 && percentage == 45)
    ||| (value == 210 && percentage == 55)
    ||| (value == 210 && percentage == 85)
    ||| (value == 210 && percentage == 95)
    ||| (value == 211 && percentage == 50)
    ||| (value == 234 && percentage == 25)
    ||| (value == 235 && percentage == 50)
    ||| (value == 235 && percentage == 90)
    ||| (value == 237 && percentage == 50)
}

/// `percentage` percent (at most 100) of a channel value as single precision computes it:
/// `((value / 100.0) * percentage).round()`. That is the exact share rounded to nearest with
/// halves up, one less where single precision falls just below a half.
pub open spec fn channel_share(value: u8, percentage: u8) -> int {
    let p = clamp_percentage(percentage);
    round_div(value * p, 100) - (if single_precision_below_half(value as int, p) { 1int } else { 0int })
}

fn below_half_in_single_precision(value: u8, percentage: u64) -> (b: bool)
    ensures
        b == single_precision_below_half(value as int, percentage as int),
{
    matches!((value, percentage), (42, 75) | (53, 50) | (59, 50) | (65, 90) | (78, 75) | (105, 30) | (105, 50) | (105, 90) | (106, 25) | (106, 75) | (117, 50) | (118, 25) | (118, 75) | (130, 45) | (130, 85) | (130, 95) | (209, 50) | (210, 15) | (210, 25) | (210, 45) | (210, 55) | (210, 85) | (210, 95) | (211, 50) | (234, 25) | (235, 50) | (235, 90) | (237, 50))
}

/// A channel moved `percentage` percent of the way from `base` toward `toward`, rounded.
pub open spec fn blended_channel(base: u8, toward: u8, percentage: u8) -> int {
    let p = clamp_percentage(percentage);
    round_div(base * (100 - p) + toward * p, 100)
}

/// Lightening by `percentage` keeps every channel within 255.
pub open spec fn can_lighten(c: Color, percentage: u8) -> bool {
    &&& c.r + channel_share(c.r, percentage) <= 255
    &&& c.g + channel_share(c.g, percentage) <= 255
    &&& c.b + channel_share(c.b, percentage) <= 255
}

fn share(value: u8, percentage: u64) -> (r: u8)
    requires
        percentage <= 100,
    ensures
        r == round_div(value * percentage, 100) - (if single_precision_below_half(value as int, percentage as int) { 1int } else { 0int }),
        r <= value,
{
    proof {
        assert(value * percentage <= value * 100) by (nonlinear_arith) requires percentage <= 100;
        lemma_round_div_bound(value * percentage, 100, value as int);
        assert((value as u64) * percentage <= 25500) by (nonlinear_arith) requires percentage <= 100, value <= 255;
    }
    let rounded = ((2 * ((value as u64) * percentage) + 100) / 200) as u8;
    if below_half_in_single_precision(value, percentage) {
        rounded - 1
    } else {
        rounded
    }
}

impl Color {
    /// Each channel reduced by `percentage` percent (at most 100) of itself.
    pub fn darken(&self, percentage: u8) -> (c: Color)
        ensures
            c.r == self.r - channel_share(self.r, percentage),
            c.g == self.g - channel_share(self.g, percentage),
            c.b == self.b - channel_share(self.b, percentage),
    {
        let percentage = if percentage < 100 { percentage as u64 } else { 100 };
        Color {
            r: self.r - share(self.r, percentage),
            g: self.g - share(self.g, percentage),
            b: self.b - share(self.b, percentage),
        }
    }

    /// Each channel increased by `percentage` percent (at most 100) of itself.
    pub fn lighten(&self, percentage: u8) -> (c: Color)
        requires
            can_lighten(*self, percentage),
        ensures
            c.r == self.r + channel_share(self.r, percentage),
            c.g == self.g + channel_share(self.g, percentage),
            c.b == self.b + channel_share(self.b, percentage),
    {
        let percentage = if percentage < 100 { percentage as u64 } else { 100 };
        Color {
            r: self.r + share(self.r, percentage),
            g: self.g + share(self.g, percentage),
            b: self.b + share(self.b, percentage),
        }
    }

    /// Each channel moved `percentage` percent (at most 100) of the way toward `toward`.
    pub fn blend_toward(&self, toward: &Color, percentage: u8) -> (c: Color)
        ensures
            c.r == blended_channel(self.r, toward.r, percentage),
            c.g == blended_channel(self.g, toward.g, percentage),
            c.b == blended_channel(self.b, toward.b, percentage),
    {
        let percentage = if percentage < 100 { percentage as u64 } else { 100 };
        Color {
            r: Self::blend_channel(self.r, toward.r, percentage),
            g: Self::blend_channel(self.g, toward.g, percentage),
            b: Self::blend_channel(self.b, toward.b, percentage),
        }
    }

    fn blend_channel(base: u8, toward: u8, percentage: u64) -> (r: u8)
        requires
            percentage <= 100,
        ensures
            r == round_div(base * (100 - percentage) + toward * percentage, 100),
    {
        proof {
            assert((base as u64) * (100 - percentage) <= 25500 && (toward as u64) * percentage <= 25500) by (nonlinear_arith)
                requires percentage <= 100, base <= 255, toward <= 255;
        }
        let n = (base as u64) * (100 - percentage) + (toward as u64) * percentage;
        proof {
            assert(n <= 255 * 100) by (nonlinear_arith)
                requires n == base * (100 - percentage) + toward * percentage, percentage <= 100, base <= 255, toward <= 255;
            lemma_round_div_bound(n as int, 100, 255);
        }
        ((2 * n + 100) / 200) as u8
    }
}

/// The colours extracted for a video, frame by frame.
pub struct VideoColorIndexDatabase {
    pub tiles_x: u32,
    pub tiles_y: u32,
    pub frames: Vec<FrameData>,
}

impl VideoColorIndexDatabase {
    pub fn new(tiles_x: u32, tiles_y: u32, frames: Vec<FrameData>) -> (d: VideoColorIndexDatabase)
        ensures
            d.tiles_x == tiles_x,
            d.tiles_y == tiles_y,
            d.frames@ == frames@,
    {
        VideoColorIndexDatabase { tiles_x, tiles_y, frames }
    }

    /// The frames, in the order they were recorded.
    pub fn frames(&self) -> (f: &Vec<FrameData>)
        ensures
            f@ == self.frames@,
    {
        &self.frames
    }

    pub fn total_frames(&self) -> (n: u64)
        ensures
            n == self.frames@.len(),
    {
        self.frames.len() as u64
    }
}

/// The crops recorded for one frame of a video.
pub struct FrameData {
    pub frame_index: u32,
    pub crops: Vec<FrameCrop>,
}

impl FrameData {
    pub fn new(frame_index: u32) -> (f: FrameData)
        ensures
            f.frame_index == frame_index,
            f.crops@.len() == 0,
    {
        FrameData { frame_index, crops: Vec::new() }
    }
}

/// The tile colours of one crop of a frame, row by row, `tiles_x` to a row. Size and
/// position are in thousandths of a percent.
pub struct FrameCrop {
    pub resize_thousandths: u32,
    pub pos_x_thousandths: u32,
    pub pos_y_thousandths: u32,
    /// The crop's level, where the database line records one.
    pub crop_level: Option<CropLevel>,
    pub tiles_x: usize,
    pub colors: Vec<Color>,
}

/// The colours mirrored left to right: each full row of `tiles_x` colours reversed,
/// an incomplete last row dropped.
pub open spec fn flipped_colors(colors: Seq<Color>, tiles_x: int) -> Seq<Color> {
    Seq::new((((colors.len() as int) / tiles_x) * tiles_x) as nat, |i: int| colors[(i / tiles_x) * tiles_x + (tiles_x - 1 - i % tiles_x)])
}

impl FrameCrop {
    /// A crop with no colours yet.
    pub fn init(tiles_x: u32, resize_thousandths: u32, pos_x_thousandths: u32, pos_y_thousandths: u32, crop_level: CropLevel) -> (c: FrameCrop)
        ensures
            c.crop_level == Some(crop_level),
            c.tiles_x == tiles_x,
            c.resize_thousandths == resize_thousandths,
            c.pos_x_thousandths == pos_x_thousandths,
            c.pos_y_thousandths == pos_y_thousandths,
            c.colors@.len() == 0,
    {
        FrameCrop { resize_thousandths, pos_x_thousandths, pos_y_thousandths, crop_level: Some(crop_level), tiles_x: tiles_x as usize, colors: Vec::new() }
    }

    /// The colours as they are when the crop is mirrored left to right.
    pub fn colors_flipped(&self) -> (v: Vec<Color>)
        requires
            self.tiles_x > 0,
        ensures
            v@ == flipped_colors(self.colors@, self.tiles_x as int),
    {
        let tx = self.tiles_x;
        let rows = self.colors.len() / tx;
        assert(self.colors@.len() <= usize::MAX);
        let ghost target = flipped_colors(self.colors@, tx as int);
        let mut v: Vec<Color> = Vec::new();
        let mut row: usize = 0;
        while row < rows
            invariant
                tx == self.tiles_x,
                tx > 0,
                rows == (self.colors@.len() as int) / (tx as int),
                self.colors@.len() <= usize::MAX,
                row <= rows,
                target == flipped_colors(self.colors@, tx as int),
                target.len() == rows * tx,
                v@.len() == row * tx,
                forall|i: int| 0 <= i < v@.len() ==> #[trigger] v@[i] == target[i],
            decreases rows - row,
        {
            proof {
                assert((row + 1) * tx <= rows * tx) by (nonlinear_arith) requires row < rows, tx > 0;
                assert(rows * tx <= self.colors@.len()) by (nonlinear_arith)
                    requires rows == (self.colors@.len() as int) / (tx as int), tx > 0;
            }
            let mut k: usize = 0;
            while k < tx
                invariant
                    tx == self.tiles_x,
                    tx > 0,
                    rows == (self.colors@.len() as int) / (tx as int),
                    row < rows,
                    (row + 1) * tx <= rows * tx,
                    rows * tx <= self.colors@.len(),
                    self.colors@.len() <= usize::MAX,
                    k <= tx,
                    target == flipped_colors(self.colors@, tx as int),
                    target.len() == rows * tx,
                    v@.len() == row * tx + k,
                    forall|i: int| 0 <= i < v@.len() ==> #[trigger] v@[i] == target[i],
                decreases tx - k,
            {
                let ghost i = row * tx + k;
                proof {
                    assert(i / (tx as int) == row && i % (tx as int) == k) by (nonlinear_arith)
                        requires i == row * tx + k, k < tx, tx > 0;
                    assert(row * tx + (tx - 1 - k) < (row + 1) * tx && row * tx + tx == (row + 1) * tx) by (nonlinear_arith) requires k < tx;
                }
                let src = row * tx + (tx - 1 - k);
                v.push(self.colors[src]);
                k += 1;
            }
            assert(row * tx + tx == (row + 1) * tx) by (nonlinear_arith);
            row += 1;
        }
        proof {
            assert(v@ =~= target);
        }
        v
    }
}

/// Mirroring the colours of a crop twice gives them back, when they fill whole rows.
pub proof fn lemma_flip_twice(colors: Seq<Color>, tiles_x: int)
    requires
        tiles_x > 0,
        (colors.len() as int) % tiles_x == 0,
    ensures
        flipped_colors(flipped_colors(colors, tiles_x), tiles_x) == colors,
{
    let once = flipped_colors(colors, tiles_x);
    vstd::arithmetic::div_mod::lemma_fundamental_div_mod(colors.len() as int, tiles_x);
    let n = colors.len() as int;
    assert((n / tiles_x) * tiles_x == tiles_x * (n / tiles_x)) by (nonlinear_arith);
    assert(once.len() == colors.len());
    vstd::arithmetic::div_mod::lemma_fundamental_div_mod(once.len() as int, tiles_x);
    let twice = flipped_colors(once, tiles_x);
    assert forall|i: int| 0 <= i < colors.len() implies #[trigger] twice[i] == colors[i] by {
        let q = i / tiles_x;
        let r = i % tiles_x;
        vstd::arithmetic::div_mod::lemma_fundamental_div_mod(i, tiles_x);
        let j = q * tiles_x + (tiles_x - 1 - r);
        vstd::arithmetic::div_mod::lemma_fundamental_div_mod_converse(j, tiles_x, q, tiles_x - 1 - r);
        assert(0 <= j < colors.len()) by (nonlinear_arith)
            requires j == q * tiles_x + (tiles_x - 1 - r), 0 <= r < tiles_x, i == tiles_x * q + r, 0 <= i < colors.len(),
                (colors.len() as int) % tiles_x == 0,
                colors.len() as int == tiles_x * ((colors.len() as int) / tiles_x) + (colors.len() as int) % tiles_x;
        assert(q * tiles_x == tiles_x * q) by (nonlinear_arith);
    }
    assert(twice =~= colors);
}

} // verus!
