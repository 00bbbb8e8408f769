//! The grids of tiles that an image can be divided into, with the cropping
//! that each grid needs.

use vstd::prelude::*;
use std::sync::Arc;
use crate::app::print_sizes::{PrintSize, size_for_tiles};
use crate::app::tile_shape::{TileShape, aspect_of};
use crate::color_matcher::{FrameMatch, ImageTile};
use crate::numeric::{double_at_most, double_fraction, nearest_double, nearest_double_below_floor, shift_up, significand_floor};

verus! {

/// The most tiles along either side of a mosaic.
pub const MAX_TILES_PER_AXIS: u8 = 80;

/// A grid of `num_tiles_x` x `num_tiles_y` tiles over an image, and the part of the image
/// that it covers. The crop is exact: `cropped_pixels` of the `image_pixels` are cut away.
pub struct MosaicTilingOption {
    pub num_tiles_x: u8,
    pub num_tiles_y: u8,
    pub cropped_pixels: u64,
    pub image_pixels: u64,
    pub cropped_width: u32,
    pub cropped_height: u32,
    pub ideal_print_size: PrintSize,
    pub is_chosen: bool,
    pub image_tiles: Option<Arc<Vec<ImageTile>>>,
    pub matched_tiles: Option<Vec<FrameMatch>>,
}

/// `n / d` rounded to nearest, as `(n + d / 2) / d`.
pub open spec fn divide_round(n: int, d: int) -> int {
    (n + d / 2) / d
}

/// Width and height of the part of a `w` x `h` image that a grid of `x` x `y` tiles of the
/// shape covers: the whole width when the grid is relatively wider than the image, the whole
/// height when it is relatively taller.
pub open spec fn covered_size(w: int, h: int, shape: TileShape, x: int, y: int) -> (int, int) {
    let gw = aspect_of(shape).0 * x;
    let gh = aspect_of(shape).1 * y;
    if gw * h > gh * w {
        (w, if divide_round(w * gh, gw) <= h { divide_round(w * gh, gw) } else { h })
    } else if gw * h < gh * w {
        (if divide_round(h * gw, gh) <= w { divide_round(h * gw, gh) } else { w }, h)
    } else {
        (w, h)
    }
}

/// Pixels of a `w` x `h` image cut away by a grid of `x` x `y` tiles.
pub open spec fn removed_pixels(w: int, h: int, shape: TileShape, x: int, y: int) -> int {
    let (cw, ch) = covered_size(w, h, shape, x, y);
    let d = w * h - cw * ch;
    if d >= 0 { d } else { -d }
}

/// `removed` of `area` pixels, as a percentage computed in doubles, is at most `limit`
/// thousandths of a percent: the nearest double to `removed / area`, times a hundred and
/// rounded to the nearest double, against the nearest double to `limit / 1000`.
#[verifier::opaque]
pub open spec fn share_within(removed: nat, area: nat, limit: nat) -> bool {
    if removed == 0 {
        true
    } else if limit == 0 {
        false
    } else {
        let q = nearest_double(removed, area);
        let p = nearest_double(100 * q.0, q.1);
        let l = nearest_double(limit, 1000);
        p.0 * l.1 <= l.0 * p.1
    }
}

/// The grid's cropping is at most `max_thousandths` thousandths of a percent (capped at 100%),
/// compared in doubles (see `share_within`).
pub open spec fn within_crop_limit(w: int, h: int, shape: TileShape, x: int, y: int, max_thousandths: int) -> bool {
    let limit = if max_thousandths <= 100000 { max_thousandths } else { 100000 };
    share_within(removed_pixels(w, h, shape, x, y) as nat, (w * h) as nat, limit as nat)
}

/// Whether `removed` of `area` pixels is within `limit` thousandths of a percent (see
/// `share_within`).
fn crop_share_within(removed: u64, area: u64, limit: u64) -> (b: bool)
    requires
        removed <= area,
        area >= 1,
        limit <= 100000,
    ensures
        b == share_within(removed as nat, area as nat, limit as nat),
{
    reveal(share_within);
    if removed == 0 {
        return true;
    }
    if limit == 0 {
        return false;
    }
    proof {
        assert(removed < significand_floor() * area) by (nonlinear_arith)
            requires removed <= area, area >= 1, significand_floor() == 4_503_599_627_370_496;
        assert(area <= 0x40_0000_0000_0000_0000);
    }
    let (qm, qs) = nearest_double_below_floor(removed as u128, area as u128);
    proof {
        let (r, a) = (removed as int, area as int);
        assert(qs <= r * qs) by (nonlinear_arith)
            requires r >= 1, qs >= 0;
        assert(qs < 2 * significand_floor() * 0x1_0000_0000_0000_0000) by (nonlinear_arith)
            requires r * qs < 2 * significand_floor() * a, qs <= r * qs, a <= 0xffff_ffff_ffff_ffff;
        assert(2 * significand_floor() * 0x1_0000_0000_0000_0000 <= 0x2000_0000_0000_0000_0000_0000_0000_0000) by (nonlinear_arith)
            requires significand_floor() == 4_503_599_627_370_496;
        assert(qm * (significand_floor() * a) <= qm * (r * qs)) by (nonlinear_arith)
            requires significand_floor() * a <= r * qs, qm >= 0;
        assert(qm * (r * qs) <= 2 * significand_floor() * (r * qs)) by (nonlinear_arith)
            requires qm <= 2 * significand_floor(), r * qs >= 0;
        assert(qm * a <= 2 * r * qs) by (nonlinear_arith)
            requires qm * (significand_floor() * a) <= 2 * significand_floor() * (r * qs), significand_floor() > 0;
        assert(qm * a <= 2 * a * qs) by (nonlinear_arith)
            requires qm * a <= 2 * r * qs, r <= a, qs >= 0;
        assert(qm <= 2 * qs) by (nonlinear_arith)
            requires qm * a <= 2 * a * qs, a >= 1;
        assert(100 * qm < significand_floor() * qs) by (nonlinear_arith)
            requires qm <= 2 * qs, qs >= 1, significand_floor() == 4_503_599_627_370_496;
        assert(100 * qm >= significand_floor()) by (nonlinear_arith)
            requires qm >= significand_floor();
        assert(100 * qm <= 0x4000_0000_0000_0000_0000_0000_0000) by (nonlinear_arith)
            requires qm <= 2 * significand_floor(), significand_floor() == 4_503_599_627_370_496;
    }
    let (pm, ps) = double_fraction(100 * qm, qs, Ghost(shift_up(removed as nat, area as nat)));
    proof {
        assert(limit < significand_floor() * 1000);
    }
    let (lm, ls) = nearest_double_below_floor(limit as u128, 1000);
    double_at_most(pm, ps, Ghost(shift_up((100 * qm) as nat, qs as nat)), lm, ls, Ghost(shift_up(limit as nat, 1000)))
}

/// The `k`-th grid tried: tile counts 1..=80 across, and for each 1..=80 down.
pub open spec fn grid_at(k: int) -> (int, int) {
    (k / 80 + 1, k % 80 + 1)
}

/// The grids among the first `k` tried that stay within the cropping limit, in order.
pub open spec fn accepted_grids(w: int, h: int, shape: TileShape, max_thousandths: int, k: nat) -> Seq<(int, int)>
    decreases k,
{
    if k == 0 {
        Seq::empty()
    } else {
        let prev = accepted_grids(w, h, shape, max_thousandths, (k - 1) as nat);
        let g = grid_at(k - 1);
        if within_crop_limit(w, h, shape, g.0, g.1, max_thousandths) {
            prev.push(g)
        } else {
            prev
        }
    }
}

/// A fresh option for the `x` x `y` grid over a `w` x `h` image: not chosen, no tiles yet.
pub open spec fn is_option_for(o: MosaicTilingOption, w: int, h: int, shape: TileShape, x: int, y: int) -> bool {
    &&& o.num_tiles_x == x
    &&& o.num_tiles_y == y
    &&& o.cropped_width == covered_size(w, h, shape, x, y).0
    &&& o.cropped_height == covered_size(w, h, shape, x, y).1
    &&& o.cropped_pixels == removed_pixels(w, h, shape, x, y)
    &&& o.image_pixels == w * h
    &&& o.ideal_print_size == size_for_tiles(if x >= y { x } else { y })
    &&& !o.is_chosen
    &&& o.image_tiles is None
    &&& o.matched_tiles is None
}

/// Same grid and crop as `b`, fresh selection state.
pub open spec fn same_layout(a: MosaicTilingOption, b: MosaicTilingOption) -> bool {
    &&& a.num_tiles_x == b.num_tiles_x
    &&& a.num_tiles_y == b.num_tiles_y
    &&& a.cropped_pixels == b.cropped_pixels
    &&& a.image_pixels == b.image_pixels
    &&& a.cropped_width == b.cropped_width
    &&& a.cropped_height == b.cropped_height
    &&& a.ideal_print_size == size_for_tiles(if a.num_tiles_x >= a.num_tiles_y { a.num_tiles_x as int } else { a.num_tiles_y as int })
    &&& !a.is_chosen
    &&& a.image_tiles is None
    &&& a.matched_tiles is None
}

impl MosaicTilingOption {
    /// A fresh option: not chosen, no tiles yet, with the paper size suited to the grid.
    pub fn new(num_tiles_x: u8, num_tiles_y: u8, cropped_pixels: u64, image_pixels: u64, cropped_width: u32, cropped_height: u32) -> (o: Self)
        ensures
            o.num_tiles_x == num_tiles_x,
            o.num_tiles_y == num_tiles_y,
            o.cropped_pixels == cropped_pixels,
            o.image_pixels == image_pixels,
            o.cropped_width == cropped_width,
            o.cropped_height == cropped_height,
            o.ideal_print_size == size_for_tiles(if num_tiles_x >= num_tiles_y { num_tiles_x as int } else { num_tiles_y as int }),
            !o.is_chosen,
            o.image_tiles is None,
            o.matched_tiles is None,
    {
        Self {
            num_tiles_x,
            num_tiles_y,
            cropped_pixels,
            image_pixels,
            cropped_width,
            cropped_height,
            ideal_print_size: PrintSize::from_mosaic_tile_layout(num_tiles_x, num_tiles_y),
            is_chosen: false,
            image_tiles: None,
            matched_tiles: None,
        }
    }

    /// A fresh option with the same grid and crop.
    pub fn fresh_copy(&self) -> (o: Self)
        ensures
            same_layout(o, *self),
    {
        Self::new(self.num_tiles_x, self.num_tiles_y, self.cropped_pixels, self.image_pixels, self.cropped_width, self.cropped_height)
    }

    /// `crop percentage * 1000`, rounded: the key by which crops are compared.
    pub open spec fn crop_key(self) -> int {
        if self.image_pixels == 0 { 0 } else { (self.cropped_pixels * 100000 + self.image_pixels / 2) / (self.image_pixels as int) }
    }

    /// Every grid from 1x1 to 80x80 whose cropping of a `image_width` x `image_height` image
    /// is at most `max_crop_thousandths` thousandths of a percent, across counts outermost.
    pub fn tiling_candidates(image_width: u32, image_height: u32, max_crop_thousandths: u32, tile_shape: &TileShape) -> (v: Vec<Self>)
        ensures
            image_width == 0 || image_height == 0 ==> v@.len() == 0,
            image_width > 0 && image_height > 0 ==> {
                let grids = accepted_grids(image_width as int, image_height as int, *tile_shape, max_crop_thousandths as int, 6400);
                &&& v@.len() == grids.len()
                &&& forall|i: int| 0 <= i < v@.len() ==> #[trigger] is_option_for(v@[i], image_width as int,
                    image_height as int, *tile_shape, grids[i].0, grids[i].1)
            },
    {
        let mut candidates: Vec<Self> = Vec::new();
        if image_width == 0 || image_height == 0 {
            return candidates;
        }
        let limit: u64 = if max_crop_thousandths <= 100000 { max_crop_thousandths as u64 } else { 100000 };
        let (tile_aspect_width, tile_aspect_height) = tile_shape.aspect_dimensions();
        let w = image_width as u64;
        let h = image_height as u64;
        assert(w * h <= 4294967295 * 4294967295) by (nonlinear_arith) requires w <= 4294967295, h <= 4294967295;
        let image_area = w * h;
        assert(image_area >= 1) by (nonlinear_arith)
            requires image_area == w * h, w >= 1, h >= 1;
        let ghost wi = image_width as int;
        let ghost hi = image_height as int;
        let ghost shape = *tile_shape;
        let ghost mx = max_crop_thousandths as int;

        let mut mosaic_tile_x: u8 = 1;
        while mosaic_tile_x <= MAX_TILES_PER_AXIS
            invariant
                1 <= mosaic_tile_x <= 81,
                w == image_width,
                h == image_height,
                w > 0,
                h > 0,
                image_area == w * h,
                image_area >= 1,
                wi == w,
                hi == h,
                shape == *tile_shape,
                mx == max_crop_thousandths,
                limit == (if max_crop_thousandths <= 100000 { max_crop_thousandths as int } else { 100000 }),
                (tile_aspect_width, tile_aspect_height) == aspect_of(shape),
                candidates@.len() == accepted_grids(wi, hi, shape, mx, ((mosaic_tile_x - 1) * 80) as nat).len(),
                forall|i: int| 0 <= i < candidates@.len() ==> #[trigger] is_option_for(candidates@[i], wi, hi, shape,
                    accepted_grids(wi, hi, shape, mx, ((mosaic_tile_x - 1) * 80) as nat)[i].0,
                    accepted_grids(wi, hi, shape, mx, ((mosaic_tile_x - 1) * 80) as nat)[i].1),
            decreases 81 - mosaic_tile_x,
        {
            let mut mosaic_tile_y: u8 = 1;
            while mosaic_tile_y <= MAX_TILES_PER_AXIS
                invariant
                    1 <= mosaic_tile_x <= 80,
                    1 <= mosaic_tile_y <= 81,
                    w == image_width,
                    h == image_height,
                    w > 0,
                    h > 0,
                    image_area == w * h,
                    image_area >= 1,
                image_area >= 1,
                    wi == w,
                    hi == h,
                    shape == *tile_shape,
                    mx == max_crop_thousandths,
                    limit == (if max_crop_thousandths <= 100000 { max_crop_thousandths as int } else { 100000 }),
                    (tile_aspect_width, tile_aspect_height) == aspect_of(shape),
                    candidates@.len() == accepted_grids(wi, hi, shape, mx, ((mosaic_tile_x - 1) * 80 + mosaic_tile_y - 1) as nat).len(),
                    forall|i: int| 0 <= i < candidates@.len() ==> #[trigger] is_option_for(candidates@[i], wi, hi, shape,
                        accepted_grids(wi, hi, shape, mx, ((mosaic_tile_x - 1) * 80 + mosaic_tile_y - 1) as nat)[i].0,
                        accepted_grids(wi, hi, shape, mx, ((mosaic_tile_x - 1) * 80 + mosaic_tile_y - 1) as nat)[i].1),
                decreases 81 - mosaic_tile_y,
            {
                let ghost k = (mosaic_tile_x - 1) * 80 + mosaic_tile_y - 1;
                let ghost prev = accepted_grids(wi, hi, shape, mx, k as nat);
                proof {
                    assert(k / 80 == mosaic_tile_x - 1 && k % 80 == mosaic_tile_y - 1) by (nonlinear_arith)
                        requires k == (mosaic_tile_x - 1) * 80 + mosaic_tile_y - 1, 1 <= mosaic_tile_y <= 80, 1 <= mosaic_tile_x;
                    assert(grid_at(k) == (mosaic_tile_x as int, mosaic_tile_y as int));
                }
                assert(1 <= tile_aspect_width <= 16 && 1 <= tile_aspect_height <= 16);
                assert(tile_aspect_width * mosaic_tile_x <= 1280 && tile_aspect_height * mosaic_tile_y <= 1280) by (nonlinear_arith)
                    requires 1 <= tile_aspect_width <= 16, 1 <= tile_aspect_height <= 16, 1 <= mosaic_tile_x <= 80, 1 <= mosaic_tile_y <= 80;
                let grid_width = tile_aspect_width as u64 * mosaic_tile_x as u64;
                let grid_height = tile_aspect_height as u64 * mosaic_tile_y as u64;
                proof {
                    assert(grid_width <= 1280 && grid_height <= 1280 && grid_width >= 1 && grid_height >= 1) by (nonlinear_arith)
                        requires grid_width == tile_aspect_width * mosaic_tile_x, grid_height == tile_aspect_height * mosaic_tile_y,
                            1 <= tile_aspect_width <= 16, 1 <= tile_aspect_height <= 16, 1 <= mosaic_tile_x <= 80, 1 <= mosaic_tile_y <= 80;
                    assert(grid_width * h <= 1280 * 4294967295 && grid_height * w <= 1280 * 4294967295 && w * grid_height <= 1280 * 4294967295
                        && h * grid_width <= 1280 * 4294967295) by (nonlinear_arith)
                        requires grid_width <= 1280, grid_height <= 1280, w <= 4294967295, h <= 4294967295;
                }
                let grid_cross = grid_width * h;
                let image_cross = grid_height * w;
                let (cropped_width, cropped_height) = if grid_cross > image_cross {
                    let rounded = Self::divide_round(w * grid_height, grid_width);
                    (w, if rounded <= h { rounded } else { h })
                } else if grid_cross < image_cross {
                    let rounded = Self::divide_round(h * grid_width, grid_height);
                    (if rounded <= w { rounded } else { w }, h)
                } else {
                    (w, h)
                };
                proof {
                    assert(cropped_width * cropped_height <= w * h) by (nonlinear_arith)
                        requires cropped_width <= w, cropped_height <= h;
                }
                let cropped_area = cropped_width * cropped_height;
                let removed = image_area - cropped_area;
                let within = crop_share_within(removed, image_area, limit);
                if within {
                    candidates.push(Self::new(mosaic_tile_x, mosaic_tile_y, removed, image_area, cropped_width as u32, cropped_height as u32));
                }
                proof {
                    assert(accepted_grids(wi, hi, shape, mx, (k + 1) as nat) == (if within { prev.push(grid_at(k)) } else { prev }));
                }
                mosaic_tile_y += 1;
            }
            mosaic_tile_x += 1;
        }
        candidates
    }

    fn divide_round(numerator: u64, denominator: u64) -> (r: u64)
        requires
            denominator > 0,
            numerator + denominator / 2 <= u64::MAX,
        ensures
            r == divide_round(numerator as int, denominator as int),
    {
        (numerator + denominator / 2) / denominator
    }
}

/// A grid tried within the limit is among the grids kept.
proof fn lemma_accepted_grid_kept(w: int, h: int, shape: TileShape, max_thousandths: int, k: nat, j: int)
    requires
        0 <= j < k,
        within_crop_limit(w, h, shape, grid_at(j).0, grid_at(j).1, max_thousandths),
    ensures
        accepted_grids(w, h, shape, max_thousandths, k).contains(grid_at(j)),
    decreases k,
{
    let prev = accepted_grids(w, h, shape, max_thousandths, (k - 1) as nat);
    if j < k - 1 {
        lemma_accepted_grid_kept(w, h, shape, max_thousandths, (k - 1) as nat, j);
        let at = choose|q: int| 0 <= q < prev.len() && prev[q] == grid_at(j);
        assert(accepted_grids(w, h, shape, max_thousandths, k)[at] == grid_at(j));
    } else {
        assert(accepted_grids(w, h, shape, max_thousandths, k) == prev.push(grid_at(j)));
        assert(accepted_grids(w, h, shape, max_thousandths, k)[prev.len() as int] == grid_at(j));
    }
}

/// An image in the proportions of the tile shape is covered whole by every square grid, from
/// 1 x 1 to 80 x 80: nothing is cut away, so each of them is a candidate whatever the limit.
pub proof fn lemma_square_grids_fit_matching_images(w: int, h: int, shape: TileShape, n: int, max_thousandths: int)
    requires
        w > 0,
        h > 0,
        w * aspect_of(shape).1 == h * aspect_of(shape).0,
        1 <= n <= MAX_TILES_PER_AXIS,
        max_thousandths >= 0,
    ensures
        covered_size(w, h, shape, n, n) == (w, h),
        removed_pixels(w, h, shape, n, n) == 0,
        accepted_grids(w, h, shape, max_thousandths, 6400).contains((n, n)),
{
    let aw = aspect_of(shape).0 as int;
    let ah = aspect_of(shape).1 as int;
    assert((aw * n) * h == (ah * n) * w) by (nonlinear_arith)
        requires w * ah == h * aw;
    assert(w * h - w * h == 0);
    let j = (n - 1) * 80 + (n - 1);
    vstd::arithmetic::div_mod::lemma_fundamental_div_mod_converse(j, 80, n - 1, n - 1);
    assert(grid_at(j) == (n, n));
    assert(0 <= j < 6400) by (nonlinear_arith)
        requires j == (n - 1) * 80 + (n - 1), 1 <= n <= 80;
    reveal(share_within);
    lemma_accepted_grid_kept(w, h, shape, max_thousandths, 6400, j);
}

} // verus!
