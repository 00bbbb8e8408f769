//! The crops of a frame that colours are extracted from, and the grid of
//! tiles that each crop is divided into.
//!
//! Percentages are held in thousandths of a percent: 66666 is 66.666%.

use vstd::prelude::*;
use vstd::arithmetic::div_mod::lemma_fundamental_div_mod_converse;
use vstd::arithmetic::mul::lemma_mul_upper_bound;
use crate::ffmpeg::aspect_ratio::{AspectRatio, classify_hundredths, ratio_hundredths};
use crate::numeric::{
    double_side, lemma_round_div_bound, lemma_round_half_even_exact, lemma_round_half_even_monotonic, lemma_two_to_adds,
    lemma_two_to_positive, min_int, min_u64, nearest_double, nearest_double_below_floor, quotient_side, ratio_double, round_div,
    shift_up, significand_floor, two_to,
};

verus! {

/// One tile of a crop: columns `[start_x, end_x)` and rows `[start_y, end_y)` of the frame.
#[derive(Clone, Copy, PartialEq, Eq, Structural, Debug)]
pub struct CropTile {
    pub start_x: u32,
    pub end_x: u32,
    pub start_y: u32,
    pub end_y: u32,
    pub total_pixels: u32,
}

/// A crop of the frame: its size and offset as percentages of the frame, and its tiles in
/// row-major order.
pub struct CropSetting {
    pub resize_thousandths: u32,
    pub pos_x_thousandths: u32,
    pub pos_y_thousandths: u32,
    pub tiles: Vec<CropTile>,
}

/// How far a crop reaches into a frame: the crops every video gets, the moderate ones and
/// the aggressive ones.
#[derive(Clone, Copy, PartialEq, Eq, Structural, Debug)]
pub enum CropLevel {
    Essential,
    Moderate,
    Aggressive,
}

/// The crop level that a database records as `code`: `0`, `1` and `2` in the order of the
/// levels.
pub open spec fn crop_level_of_code(code: nat) -> Option<CropLevel> {
    if code == 0 {
        Some(CropLevel::Essential)
    } else if code == 1 {
        Some(CropLevel::Moderate)
    } else if code == 2 {
        Some(CropLevel::Aggressive)
    } else {
        None
    }
}

impl CropLevel {
    /// The level recorded as `code`, if any.
    pub fn from_code(code: u8) -> (r: Option<CropLevel>)
        ensures
            r == crop_level_of_code(code as nat),
    {
        if code == 0 {
            Some(CropLevel::Essential)
        } else if code == 1 {
            Some(CropLevel::Moderate)
        } else if code == 2 {
            Some(CropLevel::Aggressive)
        } else {
            None
        }
    }
}

/// Why no crops can be made for a frame.
#[derive(Clone, Copy, PartialEq, Eq, Structural, Debug)]
pub enum CropError {
    /// Only 16:9 frames are supported.
    UnsupportedAspectRatio { width: u32, height: u32 },
}

/// `pct` thousandths of a percent of `side`, computed in doubles: the nearest double to
/// `side / 100` times the nearest double to `pct / 1000` (the percentage), rounded to the
/// nearest double, then to the nearest integer with halves up, at most `u32::MAX`.
pub open spec fn percent_share(side: int, pct: int) -> int {
    if side <= 0 || pct <= 0 {
        0
    } else {
        let a = nearest_double(side as nat, 100);
        let b = nearest_double(pct as nat, 1000);
        let p = nearest_double(a.0 * b.0, a.1 * b.1);
        let v = round_div(p.0 as int, p.1 as int);
        if v > u32::MAX { u32::MAX as int } else { v }
    }
}

/// Width of a crop of `resize` thousandths of a percent of the frame width.
pub open spec fn cropped_width(frame_width: int, resize: int) -> int {
    percent_share(frame_width, resize)
}

/// Height of a 16:9 crop of the given width: the width over the nearest double to `16 / 9`,
/// rounded to the nearest double, then to the nearest integer with halves up.
pub open spec fn cropped_height(width: int) -> int {
    if width <= 0 {
        0
    } else {
        let r = nearest_double(16, 9);
        let q = nearest_double((width * r.1) as nat, r.0);
        round_div(q.0 as int, q.1 as int)
    }
}

/// Offset of a crop placed at `pos` thousandths of a percent of a frame side.
pub open spec fn crop_start(side: int, pos: int) -> int {
    percent_share(side, pos)
}

/// Side of one of `n` grid cells over a length, the nearest double to `len / n` rounded to
/// the nearest integer with halves up (no cells when `n` is zero).
pub open spec fn grid_len(len: int, n: int) -> int {
    if n <= 0 || len <= 0 {
        0
    } else {
        let q = nearest_double(len as nat, n as nat);
        round_div(q.0 as int, q.1 as int)
    }
}

/// `pct` thousandths of a percent of `side` (see `percent_share`).
pub fn percent_share_exec(side: u32, pct: u32) -> (r: u64)
    requires
        pct <= 100000,
    ensures
        r == percent_share(side as int, pct as int),
        r <= u32::MAX,
{
    if side == 0 || pct == 0 {
        return 0;
    }
    proof {
        assert(side < significand_floor() * 100);
        assert(pct < significand_floor() * 1000);
    }
    let (am, a_scale) = nearest_double_below_floor(side as u128, 100);
    let (bm, b_scale) = nearest_double_below_floor(pct as u128, 1000);
    proof {
        lemma_two_to_adds(shift_up(side as nat, 100), shift_up(pct as nat, 1000));
        let (sd, pc) = (side as int, pct as int);
        assert(a_scale <= 200 * significand_floor()) by (nonlinear_arith)
            requires sd * a_scale < 2 * significand_floor() * 100, sd >= 1;
        assert(b_scale <= 2000 * significand_floor()) by (nonlinear_arith)
            requires pc * b_scale < 2 * significand_floor() * 1000, pc >= 1;
        assert(a_scale * b_scale <= (200 * significand_floor()) * (2000 * significand_floor())) by (nonlinear_arith)
            requires a_scale <= 200 * significand_floor(), b_scale <= 2000 * significand_floor();
        assert((200 * significand_floor()) * (2000 * significand_floor()) <= 0x2000_0000_0000_0000_0000_0000_0000_0000) by (nonlinear_arith)
            requires significand_floor() == 4_503_599_627_370_496;
        assert(am * bm <= (2 * significand_floor()) * (2 * significand_floor())) by (nonlinear_arith)
            requires am <= 2 * significand_floor(), bm <= 2 * significand_floor();
        assert((2 * significand_floor()) * (2 * significand_floor()) <= 0x4000_0000_0000_0000_0000_0000_0000) by (nonlinear_arith)
            requires significand_floor() == 4_503_599_627_370_496;
        assert(am * bm >= significand_floor()) by (nonlinear_arith)
            requires am >= significand_floor(), bm >= significand_floor();
        // the product is at most 400 * side
        assert(am * (significand_floor() * 100) <= 2 * significand_floor() * (sd * a_scale)) by (nonlinear_arith)
            requires am <= 2 * significand_floor(), significand_floor() * 100 <= sd * a_scale;
        assert(am * 100 <= 2 * sd * a_scale) by (nonlinear_arith)
            requires am * (significand_floor() * 100) <= 2 * significand_floor() * (sd * a_scale), significand_floor() > 0;
        assert(bm * (significand_floor() * 1000) <= 2 * significand_floor() * (pc * b_scale)) by (nonlinear_arith)
            requires bm <= 2 * significand_floor(), significand_floor() * 1000 <= pc * b_scale;
        assert(bm * 1000 <= 2 * pc * b_scale) by (nonlinear_arith)
            requires bm * (significand_floor() * 1000) <= 2 * significand_floor() * (pc * b_scale), significand_floor() > 0;
        assert(am * bm * 100000 <= 4 * sd * pc * (a_scale * b_scale)) by (nonlinear_arith)
            requires am * 100 <= 2 * sd * a_scale, bm * 1000 <= 2 * pc * b_scale, am >= 0, bm >= 0;
        let ss = a_scale * b_scale;
        assert(4 * sd * pc * ss <= ((4 * sd) * ss) * 100000) by (nonlinear_arith)
            requires pc <= 100000, sd >= 0, ss >= 0;
        let x = am * bm;
        assert(x * 100000 <= ((4 * sd) * ss) * 100000);
        assert(x <= (4 * sd) * ss) by (nonlinear_arith)
            requires x * 100000 <= ((4 * sd) * ss) * 100000;
    }
    let v = double_side(am * bm, a_scale * b_scale, Ghost(shift_up(side as nat, 100) + shift_up(pct as nat, 1000)), 4 * side as u128);
    if v > u32::MAX as u128 { u32::MAX as u64 } else { v as u64 }
}

/// Height of a 16:9 crop of the given width (see `cropped_height`).
pub fn cropped_height_exec(width: u64) -> (r: u64)
    requires
        width <= u32::MAX,
    ensures
        r == cropped_height(width as int),
        r <= width,
{
    if width == 0 {
        return 0;
    }
    let (m, scale) = ratio_double(16, 9);
    proof {
        assert(width * scale <= width * m) by (nonlinear_arith)
            requires scale <= m, width >= 0;
    }
    quotient_side(width as u128, m, scale, width as u128) as u64
}

/// Side of one of `n` grid cells over `len` (see `grid_len`).
fn grid_len_exec(len: u64, n: u32) -> (r: u64)
    requires
        len <= u32::MAX,
    ensures
        r == grid_len(len as int, n as int),
        r <= len,
{
    if n == 0 || len == 0 {
        return 0;
    }
    proof {
        assert(len < significand_floor() * n) by (nonlinear_arith)
            requires len <= u32::MAX, n >= 1, significand_floor() == 4_503_599_627_370_496;
    }
    let (q_m, q_s) = nearest_double_below_floor(len as u128, n as u128);
    proof {
        let (l, d) = (len as int, n as int);
        assert(l * q_s <= l * q_s * d) by (nonlinear_arith)
            requires d >= 1, l >= 0, q_s >= 0;
        assert(l * q_s * d == (l * q_s) * d);
        lemma_round_half_even_monotonic((l * q_s) as nat, (l * q_s * d) as nat, d as nat);
        lemma_round_half_even_exact((l * q_s) as nat, d as nat);
        lemma_round_div_bound(q_m as int, q_s as int, l);
        lemma_two_to_positive(shift_up(len as nat, n as nat));
        assert(q_s <= l * q_s) by (nonlinear_arith)
            requires l >= 1, q_s >= 0;
        assert(q_s < 2 * significand_floor() * d);
        assert(2 * significand_floor() * d <= 2 * significand_floor() * 0xffff_ffff) by (nonlinear_arith)
            requires d <= 0xffff_ffff;
    }
    ((2 * q_m + q_s) / (2 * q_s)) as u64
}

pub open spec fn grid_width(frame_width: int, resize: int, tiles_x: int) -> int {
    grid_len(cropped_width(frame_width, resize), tiles_x)
}

pub open spec fn grid_height(frame_width: int, resize: int, tiles_y: int) -> int {
    grid_len(cropped_height(cropped_width(frame_width, resize)), tiles_y)
}

/// Tile `(gx, gy)` of the crop: its cell on the grid, clipped to the frame.
pub open spec fn is_crop_tile(
    t: CropTile,
    resize: int,
    pos_x: int,
    pos_y: int,
    frame_width: int,
    frame_height: int,
    tiles_x: int,
    tiles_y: int,
    gx: int,
    gy: int,
) -> bool {
    let gw = grid_width(frame_width, resize, tiles_x);
    let gh = grid_height(frame_width, resize, tiles_y);
    let sx = crop_start(frame_width, pos_x) + gw * gx;
    let sy = crop_start(frame_height, pos_y) + gh * gy;
    &&& t.start_x == sx
    &&& t.end_x == min_int(sx + gw, frame_width)
    &&& t.start_y == sy
    &&& t.end_y == min_int(sy + gh, frame_height)
    &&& t.total_pixels == (t.end_x - t.start_x) * (t.end_y - t.start_y)
}

/// `c` is the crop of the given size and position, with a `tiles_x` x `tiles_y` grid of tiles.
pub open spec fn is_crop(
    c: CropSetting,
    resize: int,
    pos_x: int,
    pos_y: int,
    frame_width: int,
    frame_height: int,
    tiles_x: int,
    tiles_y: int,
) -> bool {
    &&& c.resize_thousandths == resize
    &&& c.pos_x_thousandths == pos_x
    &&& c.pos_y_thousandths == pos_y
    &&& c.tiles@.len() == tiles_x * tiles_y
    &&& forall|gx: int, gy: int|
        0 <= gx < tiles_x && 0 <= gy < tiles_y ==> #[trigger] is_crop_tile(
            c.tiles@[gy * tiles_x + gx],
            resize,
            pos_x,
            pos_y,
            frame_width,
            frame_height,
            tiles_x,
            tiles_y,
            gx,
            gy,
        )
}

/// Every tile of the crop starts inside the frame and all its numbers fit in `u32`.
pub open spec fn crop_fits(
    resize: int,
    pos_x: int,
    pos_y: int,
    frame_width: int,
    frame_height: int,
    tiles_x: int,
    tiles_y: int,
) -> bool {
    let gw = grid_width(frame_width, resize, tiles_x);
    let gh = grid_height(frame_width, resize, tiles_y);
    let sx = crop_start(frame_width, pos_x);
    let sy = crop_start(frame_height, pos_y);
    &&& tiles_x * tiles_y <= u32::MAX
    &&& (tiles_x == 0 || tiles_y == 0 || (sx + gw * (tiles_x - 1) <= frame_width
        && sx + gw * tiles_x <= u32::MAX
        && sy + gh * (tiles_y - 1) <= frame_height
        && sy + gh * tiles_y <= u32::MAX
        && min_int(gw, frame_width) * min_int(gh, frame_height) <= u32::MAX))
}

/// The crops taken from 16:9 frames: the full frame, nine 50% crops on a 3x3 layout,
/// four inner 50% crops and nine 66.666% crops on a 3x3 layout.
pub open spec fn crops_16x9() -> Seq<(int, int, int)> {
    seq![
        (100000, 0, 0),
        (50000, 0, 0),
        (50000, 25000, 0),
        (50000, 50000, 0),
        (50000, 0, 25000),
        (50000, 25000, 25000),
        (50000, 50000, 25000),
        (50000, 0, 50000),
        (50000, 25000, 50000),
        (50000, 50000, 50000),
        (50000, 12500, 12500),
        (50000, 37500, 12500),
        (50000, 12500, 37500),
        (50000, 37500, 37500),
        (66666, 0, 0),
        (66666, 16666, 0),
        (66666, 33333, 0),
        (66666, 0, 16666),
        (66666, 16666, 16666),
        (66666, 33333, 16666),
        (66666, 0, 33333),
        (66666, 16666, 33333),
        (66666, 33333, 33333),
    ]
}

/// All crops of a 16:9 frame fit it with the given grid.
pub open spec fn crops_16x9_fit(frame_width: int, frame_height: int, tiles_x: int, tiles_y: int) -> bool {
    forall|i: int|
        0 <= i < crops_16x9().len() ==> #[trigger] crop_fits(
            crops_16x9()[i].0,
            crops_16x9()[i].1,
            crops_16x9()[i].2,
            frame_width,
            frame_height,
            tiles_x,
            tiles_y,
        )
}

/// `v` holds the crops of `table`, in order, for the given frame and grid.
pub open spec fn are_crops(
    v: Seq<CropSetting>,
    table: Seq<(int, int, int)>,
    frame_width: int,
    frame_height: int,
    tiles_x: int,
    tiles_y: int,
) -> bool {
    &&& v.len() == table.len()
    &&& forall|i: int|
        0 <= i < v.len() ==> #[trigger] is_crop(v[i], table[i].0, table[i].1, table[i].2, frame_width, frame_height, tiles_x, tiles_y)
}

/// Whether the crop of the given size and position fits the frame with the given grid (see
/// `crop_fits`).
fn crop_fits_exec(resize: u32, pos_x: u32, pos_y: u32, frame_width: u32, frame_height: u32, tiles_x: u32, tiles_y: u32) -> (b: bool)
    requires
        resize <= 100000,
        pos_x <= 100000,
        pos_y <= 100000,
    ensures
        b == crop_fits(resize as int, pos_x as int, pos_y as int, frame_width as int, frame_height as int, tiles_x as int, tiles_y as int),
{
    let cropped_w = percent_share_exec(frame_width, resize);
    let cropped_h = cropped_height_exec(cropped_w);
    let start_x = percent_share_exec(frame_width, pos_x);
    let start_y = percent_share_exec(frame_height, pos_y);
    let grid_w = grid_len_exec(cropped_w, tiles_x);
    let grid_h = grid_len_exec(cropped_h, tiles_y);
    assert(grid_w <= u32::MAX && grid_h <= u32::MAX);
    let gw = grid_w as u128;
    let gh = grid_h as u128;
    let tx = tiles_x as u128;
    let ty = tiles_y as u128;
    let sx = start_x as u128;
    let sy = start_y as u128;
    proof {
        assert(tx * ty <= u32::MAX * u32::MAX) by (nonlinear_arith) requires tx <= u32::MAX, ty <= u32::MAX;
        assert(gw * tx <= u32::MAX * u32::MAX) by (nonlinear_arith) requires tx <= u32::MAX, gw <= u32::MAX;
        assert(gh * ty <= u32::MAX * u32::MAX) by (nonlinear_arith) requires ty <= u32::MAX, gh <= u32::MAX;
    }
    if tx * ty > u32::MAX as u128 {
        return false;
    }
    if tiles_x == 0 || tiles_y == 0 {
        return true;
    }
    proof {
        assert(gw * (tx - 1) <= gw * tx) by (nonlinear_arith) requires tx >= 1, gw >= 0;
        assert(gh * (ty - 1) <= gh * ty) by (nonlinear_arith) requires ty >= 1, gh >= 0;
    }
    let mw = if gw < frame_width as u128 { gw } else { frame_width as u128 };
    let mh = if gh < frame_height as u128 { gh } else { frame_height as u128 };
    proof {
        assert(mw * mh <= u32::MAX * u32::MAX) by (nonlinear_arith) requires mw <= u32::MAX, mh <= u32::MAX;
    }
    sx + gw * (tx - 1) <= frame_width as u128
        && sx + gw * tx <= u32::MAX as u128
        && sy + gh * (ty - 1) <= frame_height as u128
        && sy + gh * ty <= u32::MAX as u128
        && mw * mh <= u32::MAX as u128
}

/// The rows of `crops_16x9` as machine integers.
fn crop_table() -> (table: [(u32, u32, u32); 23])
    ensures
        forall|i: int| 0 <= i < 23 ==> (#[trigger] table@[i]).0 as int == crops_16x9()[i].0
            && table@[i].1 as int == crops_16x9()[i].1 && table@[i].2 as int == crops_16x9()[i].2
            && table@[i].0 <= 100000 && table@[i].1 <= 100000 && table@[i].2 <= 100000,
        crops_16x9().len() == 23,
{
    let table: [(u32, u32, u32); 23] = [
        (100000, 0, 0),
        (50000, 0, 0),
        (50000, 25000, 0),
        (50000, 50000, 0),
        (50000, 0, 25000),
        (50000, 25000, 25000),
        (50000, 50000, 25000),
        (50000, 0, 50000),
        (50000, 25000, 50000),
        (50000, 50000, 50000),
        (50000, 12500, 12500),
        (50000, 37500, 12500),
        (50000, 12500, 37500),
        (50000, 37500, 37500),
        (66666, 0, 0),
        (66666, 16666, 0),
        (66666, 33333, 0),
        (66666, 0, 16666),
        (66666, 16666, 16666),
        (66666, 33333, 16666),
        (66666, 0, 33333),
        (66666, 16666, 33333),
        (66666, 33333, 33333),
    ];
    assert forall|i: int| 0 <= i < 23 implies (#[trigger] table@[i]).0 as int == crops_16x9()[i].0
        && table@[i].1 as int == crops_16x9()[i].1 && table@[i].2 as int == crops_16x9()[i].2
        && table@[i].0 <= 100000 && table@[i].1 <= 100000 && table@[i].2 <= 100000 by {}
    table
}

/// Whether every crop of a 16:9 frame fits it with the given grid (see `crops_16x9_fit`).
pub fn crops_fit_16x9(frame_width: u32, frame_height: u32, tiles_x: u32, tiles_y: u32) -> (b: bool)
    ensures
        b == crops_16x9_fit(frame_width as int, frame_height as int, tiles_x as int, tiles_y as int),
{
    let table = crop_table();
    let mut i: usize = 0;
    while i < 23
        invariant
            i <= 23,
            crops_16x9().len() == 23,
            forall|j: int| 0 <= j < 23 ==> (#[trigger] table@[j]).0 as int == crops_16x9()[j].0
                && table@[j].1 as int == crops_16x9()[j].1 && table@[j].2 as int == crops_16x9()[j].2
                && table@[j].0 <= 100000 && table@[j].1 <= 100000 && table@[j].2 <= 100000,
            forall|j: int| 0 <= j < i ==> #[trigger] crop_fits(crops_16x9()[j].0, crops_16x9()[j].1, crops_16x9()[j].2,
                frame_width as int, frame_height as int, tiles_x as int, tiles_y as int),
        decreases 23 - i,
    {
        let (resize, pos_x, pos_y) = table[i];
        if !crop_fits_exec(resize, pos_x, pos_y, frame_width, frame_height, tiles_x, tiles_y) {
            return false;
        }
        i += 1;
    }
    true
}

impl CropSetting {
    fn new(resize: u32, pos_x: u32, pos_y: u32, frame_width: u32, frame_height: u32, tiles_x: u32, tiles_y: u32) -> (c: Self)
        requires
            resize <= 100000,
            pos_x <= 100000,
            pos_y <= 100000,
            crop_fits(resize as int, pos_x as int, pos_y as int, frame_width as int, frame_height as int, tiles_x as int, tiles_y as int),
        ensures
            is_crop(c, resize as int, pos_x as int, pos_y as int, frame_width as int, frame_height as int, tiles_x as int, tiles_y as int),
    {
        let fw = frame_width as u64;
        let fh = frame_height as u64;
        let cropped_w = percent_share_exec(frame_width, resize);
        let cropped_h = cropped_height_exec(cropped_w);
        let start_x = percent_share_exec(frame_width, pos_x);
        let start_y = percent_share_exec(frame_height, pos_y);
        let grid_w = grid_len_exec(cropped_w, tiles_x);
        let grid_h = grid_len_exec(cropped_h, tiles_y);

        let ghost r = resize as int;
        let ghost px = pos_x as int;
        let ghost py = pos_y as int;
        let ghost fwi = frame_width as int;
        let ghost fhi = frame_height as int;
        let ghost txi = tiles_x as int;
        let ghost tyi = tiles_y as int;

        let mut tiles: Vec<CropTile> = Vec::new();
        let mut gy: u32 = 0;
        while gy < tiles_y
            invariant
                gy <= tiles_y,
                tiles@.len() == gy * tiles_x,
                grid_w == grid_width(fwi, r, txi),
                grid_h == grid_height(fwi, r, tyi),
                start_x == crop_start(fwi, px),
                start_y == crop_start(fhi, py),
                fw == frame_width,
                fh == frame_height,
                r == resize, px == pos_x, py == pos_y, fwi == frame_width, fhi == frame_height, txi == tiles_x, tyi == tiles_y,
                crop_fits(r, px, py, fwi, fhi, txi, tyi),
                forall|i: int|
                    0 <= i < tiles@.len() ==> #[trigger] is_crop_tile(tiles@[i], r, px, py, fwi, fhi, txi, tyi, i % txi, i / txi),
            decreases tiles_y - gy,
        {
            let mut gx: u32 = 0;
            while gx < tiles_x
                invariant
                    gy < tiles_y,
                    gx <= tiles_x,
                    tiles@.len() == gy * tiles_x + gx,
                    grid_w == grid_width(fwi, r, txi),
                    grid_h == grid_height(fwi, r, tyi),
                    start_x == crop_start(fwi, px),
                    start_y == crop_start(fhi, py),
                    fw == frame_width,
                    fh == frame_height,
                    r == resize, px == pos_x, py == pos_y, fwi == frame_width, fhi == frame_height, txi == tiles_x, tyi == tiles_y,
                    crop_fits(r, px, py, fwi, fhi, txi, tyi),
                    forall|i: int|
                        0 <= i < tiles@.len() ==> #[trigger] is_crop_tile(tiles@[i], r, px, py, fwi, fhi, txi, tyi, i % txi, i / txi),
                decreases tiles_x - gx,
            {
                proof {
                    assert(grid_w * gx <= grid_w * (tiles_x - 1)) by (nonlinear_arith) requires gx < tiles_x, grid_w >= 0;
                    assert(grid_h * gy <= grid_h * (tiles_y - 1)) by (nonlinear_arith) requires gy < tiles_y, grid_h >= 0;
                    assert(tiles_x != 0 && tiles_y != 0);
                    assert(start_x + grid_w * (tiles_x - 1) <= frame_width);
                    assert(start_x + grid_w * tiles_x <= u32::MAX);
                    assert(start_y + grid_h * (tiles_y - 1) <= frame_height);
                    assert(start_y + grid_h * tiles_y <= u32::MAX);
                    assert(grid_w * gx + grid_w == grid_w * (gx + 1)) by (nonlinear_arith);
                    assert(grid_h * gy + grid_h == grid_h * (gy + 1)) by (nonlinear_arith);
                    assert(grid_w * (gx + 1) <= grid_w * tiles_x) by (nonlinear_arith) requires gx < tiles_x, grid_w >= 0;
                    assert(grid_h * (gy + 1) <= grid_h * tiles_y) by (nonlinear_arith) requires gy < tiles_y, grid_h >= 0;
                }
                let sx = start_x + grid_w * gx as u64;
                let ex = min_u64(sx + grid_w, fw);
                let sy = start_y + grid_h * gy as u64;
                let ey = min_u64(sy + grid_h, fh);
                proof {
                    lemma_mul_upper_bound(ex - sx, min_int(grid_w as int, fwi), ey - sy, min_int(grid_h as int, fhi));
                }
                let total = (ex - sx) * (ey - sy);
                let tile = CropTile {
                    start_x: sx as u32,
                    end_x: ex as u32,
                    start_y: sy as u32,
                    end_y: ey as u32,
                    total_pixels: total as u32,
                };
                let ghost idx = gy * tiles_x + gx;
                proof {
                    lemma_fundamental_div_mod_converse(idx, txi, gy as int, gx as int);
                }
                tiles.push(tile);
                gx += 1;
            }
            assert((gy + 1) * tiles_x == gy * tiles_x + tiles_x) by (nonlinear_arith);
            gy += 1;
        }
        let c = CropSetting { resize_thousandths: resize, pos_x_thousandths: pos_x, pos_y_thousandths: pos_y, tiles };
        proof {
            assert(c.tiles@.len() == txi * tyi) by (nonlinear_arith) requires c.tiles@.len() == tyi * txi;
            assert forall|gx: int, gy: int| 0 <= gx < txi && 0 <= gy < tyi implies #[trigger] is_crop_tile(
                c.tiles@[gy * txi + gx], r, px, py, fwi, fhi, txi, tyi, gx, gy) by {
                assert(gy * txi + gx < txi * tyi) by (nonlinear_arith) requires 0 <= gx < txi, 0 <= gy < tyi;
                lemma_fundamental_div_mod_converse(gy * txi + gx, txi, gy, gx);
            }
        }
        c
    }

    /// The crops of a 16:9 frame, each divided into `tiles_x` x `tiles_y` tiles.
    fn get_16x9(frame_width: u32, frame_height: u32, tiles_x: u32, tiles_y: u32) -> (v: Vec<Self>)
        requires
            crops_16x9_fit(frame_width as int, frame_height as int, tiles_x as int, tiles_y as int),
        ensures
            are_crops(v@, crops_16x9(), frame_width as int, frame_height as int, tiles_x as int, tiles_y as int),
    {
        let table = crop_table();
        let ghost spec_table = crops_16x9();
        let mut crops: Vec<CropSetting> = Vec::new();
        let mut i: usize = 0;
        while i < 23
            invariant
                i <= 23,
                spec_table == crops_16x9(),
                crops_16x9_fit(frame_width as int, frame_height as int, tiles_x as int, tiles_y as int),
                forall|j: int| 0 <= j < 23 ==> (#[trigger] table@[j]).0 as int == spec_table[j].0
                    && table@[j].1 as int == spec_table[j].1 && table@[j].2 as int == spec_table[j].2
                    && table@[j].0 <= 100000 && table@[j].1 <= 100000 && table@[j].2 <= 100000,
                crops@.len() == i,
                forall|j: int| 0 <= j < i ==> #[trigger] is_crop(crops@[j], spec_table[j].0, spec_table[j].1, spec_table[j].2,
                    frame_width as int, frame_height as int, tiles_x as int, tiles_y as int),
            decreases 23 - i,
        {
            let (resize, pos_x, pos_y) = table[i];
            assert(crop_fits(spec_table[i as int].0, spec_table[i as int].1, spec_table[i as int].2,
                frame_width as int, frame_height as int, tiles_x as int, tiles_y as int));
            let crop = CropSetting::new(resize, pos_x, pos_y, frame_width, frame_height, tiles_x, tiles_y);
            crops.push(crop);
            i += 1;
        }
        crops
    }

    /// The crops of a frame, each divided into `tiles_x` x `tiles_y` tiles; only 16:9 frames
    /// are supported.
    pub fn all_crops(frame_width: u32, frame_height: u32, tiles_x: u32, tiles_y: u32) -> (r: Result<Vec<Self>, CropError>)
        requires
            frame_height > 0 && classify_hundredths(ratio_hundredths(frame_width as nat, frame_height as nat))
                == AspectRatio::Landscape16x9 ==> crops_16x9_fit(frame_width as int, frame_height as int, tiles_x as int, tiles_y as int),
        ensures
            match r {
                Ok(v) => frame_height > 0 && classify_hundredths(ratio_hundredths(frame_width as nat, frame_height as nat))
                    == AspectRatio::Landscape16x9 && are_crops(v@, crops_16x9(), frame_width as int, frame_height as int,
                    tiles_x as int, tiles_y as int),
                Err(e) => e == CropError::UnsupportedAspectRatio { width: frame_width, height: frame_height } && !(frame_height > 0
                    && classify_hundredths(ratio_hundredths(frame_width as nat, frame_height as nat)) == AspectRatio::Landscape16x9),
            },
    {
        if frame_height == 0 {
            return Err(CropError::UnsupportedAspectRatio { width: frame_width, height: frame_height });
        }
        let aspect_ratio = AspectRatio::new(frame_width, frame_height);
        match aspect_ratio {
            AspectRatio::Landscape16x9 => Ok(CropSetting::get_16x9(frame_width, frame_height, tiles_x, tiles_y)),
            _ => Err(CropError::UnsupportedAspectRatio { width: frame_width, height: frame_height }),
        }
    }
}

} // verus!
