//! The colours of the chosen image's mosaic tiles: the image is cropped to the tiling
//! option's size, scaled so that its longer side is 10000 pixels (rounded to whole tiles),
//! and each tile is split into a grid of colour tiles whose mean colours are taken.

use vstd::prelude::*;
use crate::app::frame_data::Color;
use crate::color_matcher::ImageTile;
use crate::ffmpeg::pixels::{rect_sum, region_sum, lemma_rect_sum_bounds};
use crate::numeric::{round_div, min_int};
use crate::images::{fitted_dimensions, resize_dimensions};
use crate::raster::{TileImage, ResizeFilter, crop_image, resize_rgb, sub_image, clamped_region};
use crate::app::mosaic_tiling_option::MosaicTilingOption;

verus! {

/// Length of the longer side of the image that the tile colours are taken from.
pub const LARGEST_DIMENSION: u32 = 10000;

/// The tile colours computed for one tiling option.
pub struct Response {
    pub num_tiles_x: u8,
    pub num_tiles_y: u8,
    pub tiles: Vec<ImageTile>,
}

/// The sizes used in taking the tile colours of an image.
#[derive(Clone, Copy, Debug, PartialEq, Eq, Structural)]
pub struct TileGeometry {
    /// Top left corner of the crop.
    pub crop_x: u32,
    pub crop_y: u32,
    /// Size of a mosaic tile in the scaled image.
    pub mosaic_tile_width: u32,
    pub mosaic_tile_height: u32,
    /// Size of the scaled image: whole mosaic tiles.
    pub resize_width: u32,
    pub resize_height: u32,
    /// Size of a colour tile within a mosaic tile.
    pub color_tile_width: u32,
    pub color_tile_height: u32,
}

/// The scaled size of a `w` x `h` image whose longer side (its height when the sides are
/// equal) becomes 10000 pixels, the other side computed in doubles (see
/// `fitted_dimensions`).
pub open spec fn target_size(w: nat, h: nat) -> (nat, nat) {
    fitted_dimensions(w, h, LARGEST_DIMENSION as nat)
}

/// The geometry for an `image_width` x `image_height` image cropped, centred, to
/// `cropped_width` x `cropped_height`, with a `tiles_x` x `tiles_y` mosaic grid and
/// `color_tiles_x` x `color_tiles_y` colours per mosaic tile. Halves round up.
pub open spec fn tile_geometry(
    image_width: nat,
    image_height: nat,
    cropped_width: nat,
    cropped_height: nat,
    tiles_x: nat,
    tiles_y: nat,
    color_tiles_x: nat,
    color_tiles_y: nat,
) -> TileGeometry {
    let (tw, th) = target_size(cropped_width, cropped_height);
    let mtw = round_div(tw as int, tiles_x as int);
    let mth = round_div(th as int, tiles_y as int);
    TileGeometry {
        crop_x: ((image_width - cropped_width) / 2) as u32,
        crop_y: ((image_height - cropped_height) / 2) as u32,
        mosaic_tile_width: mtw as u32,
        mosaic_tile_height: mth as u32,
        resize_width: (mtw * tiles_x) as u32,
        resize_height: (mth * tiles_y) as u32,
        color_tile_width: round_div(mtw, color_tiles_x as int) as u32,
        color_tile_height: round_div(mth, color_tiles_y as int) as u32,
    }
}

/// The image sizes and grids that the tile colours can be taken for.
pub open spec fn geometry_inputs_ok(
    image_width: nat,
    image_height: nat,
    cropped_width: nat,
    cropped_height: nat,
    tiles_x: nat,
    tiles_y: nat,
    color_tiles_x: nat,
    color_tiles_y: nat,
) -> bool {
    &&& 0 < cropped_width <= image_width
    &&& 0 < cropped_height <= image_height
    &&& tiles_x > 0
    &&& tiles_y > 0
    &&& color_tiles_x > 0
    &&& color_tiles_y > 0
}

/// The sizes used in taking the tile colours (see `tile_geometry`).
pub fn compute_tile_geometry(
    image_width: u32,
    image_height: u32,
    cropped_width: u32,
    cropped_height: u32,
    tiles_x: u32,
    tiles_y: u32,
    color_tiles_x: u32,
    color_tiles_y: u32,
) -> (g: TileGeometry)
    requires
        geometry_inputs_ok(
            image_width as nat,
            image_height as nat,
            cropped_width as nat,
            cropped_height as nat,
            tiles_x as nat,
            tiles_y as nat,
            color_tiles_x as nat,
            color_tiles_y as nat,
        ),
    ensures
        g == tile_geometry(
            image_width as nat,
            image_height as nat,
            cropped_width as nat,
            cropped_height as nat,
            tiles_x as nat,
            tiles_y as nat,
            color_tiles_x as nat,
            color_tiles_y as nat,
        ),
        g.mosaic_tile_width <= LARGEST_DIMENSION,
        g.mosaic_tile_height <= LARGEST_DIMENSION,
        g.resize_width <= 2 * LARGEST_DIMENSION,
        g.resize_height <= 2 * LARGEST_DIMENSION,
        g.resize_width == g.mosaic_tile_width * tiles_x,
        g.resize_height == g.mosaic_tile_height * tiles_y,
        g.color_tile_width <= LARGEST_DIMENSION,
        g.color_tile_height <= LARGEST_DIMENSION,
{
    let (tw, th) = resize_dimensions(cropped_width, cropped_height, LARGEST_DIMENSION);
    let target_width = tw as u64;
    let target_height = th as u64;
    let tx = tiles_x as u64;
    let ty = tiles_y as u64;
    let mosaic_tile_width = (2 * target_width + tx) / (2 * tx);
    let mosaic_tile_height = (2 * target_height + ty) / (2 * ty);
    proof {
        assert((2 * target_width + tx) / (2 * tx) <= target_width + 1) by (nonlinear_arith)
            requires tx > 0;
        assert((2 * target_height + ty) / (2 * ty) <= target_height + 1) by (nonlinear_arith)
            requires ty > 0;
        assert(mosaic_tile_width <= 10000) by (nonlinear_arith)
            requires mosaic_tile_width == (2 * target_width + tx) / (2 * tx), target_width <= 10000, tx >= 1;
        assert(mosaic_tile_height <= 10000) by (nonlinear_arith)
            requires mosaic_tile_height == (2 * target_height + ty) / (2 * ty), target_height <= 10000, ty >= 1;
        assert(mosaic_tile_width * tx <= 20000) by (nonlinear_arith)
            requires mosaic_tile_width == (2 * target_width + tx) / (2 * tx), target_width <= 10000, tx >= 1;
        assert(mosaic_tile_height * ty <= 20000) by (nonlinear_arith)
            requires mosaic_tile_height == (2 * target_height + ty) / (2 * ty), target_height <= 10000, ty >= 1;
    }
    let cx = color_tiles_x as u64;
    let cy = color_tiles_y as u64;
    proof {
        assert((2 * mosaic_tile_width + cx) / (2 * cx) <= 10000) by (nonlinear_arith)
            requires mosaic_tile_width <= 10000, cx >= 1;
        assert((2 * mosaic_tile_height + cy) / (2 * cy) <= 10000) by (nonlinear_arith)
            requires mosaic_tile_height <= 10000, cy >= 1;
    }
    TileGeometry {
        crop_x: (image_width - cropped_width) / 2,
        crop_y: (image_height - cropped_height) / 2,
        mosaic_tile_width: mosaic_tile_width as u32,
        mosaic_tile_height: mosaic_tile_height as u32,
        resize_width: (mosaic_tile_width * tx) as u32,
        resize_height: (mosaic_tile_height * ty) as u32,
        color_tile_width: ((2 * mosaic_tile_width + cx) / (2 * cx)) as u32,
        color_tile_height: ((2 * mosaic_tile_height + cy) / (2 * cy)) as u32,
    }
}

/// Channel `c` of colour tile `(sx, sy)` of mosaic tile `(tx, ty)` in the scaled image `p`
/// (`w` pixels wide): the sum over the colour tile, cut at the mosaic tile's edge, divided by
/// a full colour tile's pixel count and rounded to nearest with halves up; zero when colour
/// tiles have no pixels.
pub open spec fn color_tile_mean(p: Seq<u8>, w: int, g: TileGeometry, tx: int, ty: int, sx: int, sy: int, c: int) -> int {
    let mtw = g.mosaic_tile_width as int;
    let mth = g.mosaic_tile_height as int;
    let ctw = g.color_tile_width as int;
    let cth = g.color_tile_height as int;
    let x0 = tx * mtw + sx * ctw;
    let x1 = tx * mtw + min_int(sx * ctw + ctw, mtw);
    let y0 = ty * mth + sy * cth;
    let y1 = ty * mth + min_int(sy * cth + cth, mth);
    if ctw * cth == 0 {
        0
    } else {
        round_div(rect_sum(p, w, c, x0, y0, x1, y1), ctw * cth)
    }
}

/// The colour of colour tile `(sx, sy)` of mosaic tile `(tx, ty)`.
pub open spec fn color_tile(p: Seq<u8>, w: int, g: TileGeometry, tx: int, ty: int, sx: int, sy: int) -> Color {
    Color {
        r: color_tile_mean(p, w, g, tx, ty, sx, sy, 0) as u8,
        g: color_tile_mean(p, w, g, tx, ty, sx, sy, 1) as u8,
        b: color_tile_mean(p, w, g, tx, ty, sx, sy, 2) as u8,
    }
}

/// `tiles` holds, for each mosaic tile in row-major order, the colours of its colour tiles in
/// row-major order.
pub open spec fn tiles_colored(tiles: Seq<ImageTile>, p: Seq<u8>, w: int, g: TileGeometry, tiles_x: int, tiles_y: int,
    color_tiles_x: int, color_tiles_y: int) -> bool {
    &&& tiles.len() == tiles_x * tiles_y
    &&& forall|t: int|
        0 <= t < tiles.len() ==> {
            &&& (#[trigger] tiles[t]).colors@.len() == color_tiles_x * color_tiles_y
            &&& forall|s: int|
                0 <= s < color_tiles_x * color_tiles_y ==> #[trigger] tiles[t].colors@[s] == color_tile(
                    p,
                    w,
                    g,
                    t % tiles_x,
                    t / tiles_x,
                    s % color_tiles_x,
                    s / color_tiles_x,
                )
        }
}

/// The mean over a colour tile, rounded; zero for an empty colour tile.
fn mean_of(total: u128, count: u64) -> (r: u8)
    requires
        total <= 255 * count,
    ensures
        r == (if count == 0 { 0 } else { round_div(total as int, count as int) }),
{
    if count == 0 {
        0
    } else {
        proof {
            assert((2 * total + count) / (2 * count) <= 255) by (nonlinear_arith)
                requires total <= 255 * count, count > 0;
        }
        ((2 * total + count as u128) / (2 * count as u128)) as u8
    }
}

/// The colour of one colour tile of one mosaic tile.
fn color_of_tile(p: &Vec<u8>, w: u32, h: u32, g: TileGeometry, tx: u32, ty: u32, sx: u32, sy: u32) -> (c: Color)
    requires
        p@.len() == 3 * w * h,
        g.mosaic_tile_width <= LARGEST_DIMENSION,
        g.mosaic_tile_height <= LARGEST_DIMENSION,
        (tx + 1) * g.mosaic_tile_width <= w,
        (ty + 1) * g.mosaic_tile_height <= h,
        g.color_tile_width <= LARGEST_DIMENSION,
        g.color_tile_height <= LARGEST_DIMENSION,
    ensures
        c == color_tile(p@, w as int, g, tx as int, ty as int, sx as int, sy as int),
{
    let mtw = g.mosaic_tile_width as u64;
    let mth = g.mosaic_tile_height as u64;
    let ctw = g.color_tile_width as u64;
    let cth = g.color_tile_height as u64;
    proof {
        assert(tx * mtw + mtw <= w) by (nonlinear_arith)
            requires (tx + 1) * mtw <= w;
        assert(ty * mth + mth <= h) by (nonlinear_arith)
            requires (ty + 1) * mth <= h;
        assert(sx * ctw <= 0xffff_ffff * 10000) by (nonlinear_arith)
            requires sx <= 0xffff_ffff, ctw <= 10000;
        assert(sy * cth <= 0xffff_ffff * 10000) by (nonlinear_arith)
            requires sy <= 0xffff_ffff, cth <= 10000;
        assert(ctw * cth <= 10000 * 10000) by (nonlinear_arith)
            requires ctw <= 10000, cth <= 10000;
    }
    let start_x = sx as u64 * ctw;
    let start_y = sy as u64 * cth;
    let end_x = if start_x + ctw < mtw { start_x + ctw } else { mtw };
    let end_y = if start_y + cth < mth { start_y + cth } else { mth };
    let left = tx as u64 * mtw;
    let top = ty as u64 * mth;
    let x0 = (left + if start_x < mtw { start_x } else { mtw }) as u32;
    let y0 = (top + if start_y < mth { start_y } else { mth }) as u32;
    let x1 = (left + end_x) as u32;
    let y1 = (top + end_y) as u32;
    let count = ctw * cth;
    let ghost gx0 = tx * mtw + sx * ctw;
    let ghost gy0 = ty * mth + sy * cth;
    let red = region_sum(p, w, h, 0, x0, y0, x1, y1);
    let green = region_sum(p, w, h, 1, x0, y0, x1, y1);
    let blue = region_sum(p, w, h, 2, x0, y0, x1, y1);
    proof {
        lemma_colour_tile_sum(p@, w as int, 0, x0 as int, gx0, y0 as int, gy0, x1 as int, y1 as int, ctw as int, cth as int);
        lemma_colour_tile_sum(p@, w as int, 1, x0 as int, gx0, y0 as int, gy0, x1 as int, y1 as int, ctw as int, cth as int);
        lemma_colour_tile_sum(p@, w as int, 2, x0 as int, gx0, y0 as int, gy0, x1 as int, y1 as int, ctw as int, cth as int);
    }
    let r = mean_of(red, count);
    let gr = mean_of(green, count);
    let b = mean_of(blue, count);
    Color { r, g: gr, b }
}

/// The colours of mosaic tile `(tx, ty)`, colour tiles in row-major order.
fn tile_of(p: &Vec<u8>, w: u32, h: u32, g: TileGeometry, tx: u32, ty: u32, color_tiles_x: u32, color_tiles_y: u32) -> (t: ImageTile)
    requires
        p@.len() == 3 * w * h,
        g.mosaic_tile_width <= LARGEST_DIMENSION,
        g.mosaic_tile_height <= LARGEST_DIMENSION,
        (tx + 1) * g.mosaic_tile_width <= w,
        (ty + 1) * g.mosaic_tile_height <= h,
        g.color_tile_width <= LARGEST_DIMENSION,
        g.color_tile_height <= LARGEST_DIMENSION,
        color_tiles_x > 0,
    ensures
        t.colors@.len() == color_tiles_x * color_tiles_y,
        forall|s: int|
            0 <= s < color_tiles_x * color_tiles_y ==> #[trigger] t.colors@[s] == color_tile(
                p@,
                w as int,
                g,
                tx as int,
                ty as int,
                s % (color_tiles_x as int),
                s / (color_tiles_x as int),
            ),
{
    let mut colors: Vec<Color> = Vec::new();
    let mut sy: u32 = 0;
    while sy < color_tiles_y
        invariant
            p@.len() == 3 * w * h,
            g.mosaic_tile_width <= LARGEST_DIMENSION,
            g.mosaic_tile_height <= LARGEST_DIMENSION,
            (tx + 1) * g.mosaic_tile_width <= w,
            (ty + 1) * g.mosaic_tile_height <= h,
            g.color_tile_width <= LARGEST_DIMENSION,
            g.color_tile_height <= LARGEST_DIMENSION,
            color_tiles_x > 0,
            sy <= color_tiles_y,
            colors@.len() == sy * color_tiles_x,
            forall|s: int|
                0 <= s < colors@.len() ==> #[trigger] colors@[s] == color_tile(
                    p@,
                    w as int,
                    g,
                    tx as int,
                    ty as int,
                    s % (color_tiles_x as int),
                    s / (color_tiles_x as int),
                ),
        decreases color_tiles_y - sy,
    {
        let mut sx: u32 = 0;
        while sx < color_tiles_x
            invariant
                p@.len() == 3 * w * h,
                g.mosaic_tile_width <= LARGEST_DIMENSION,
                g.mosaic_tile_height <= LARGEST_DIMENSION,
                (tx + 1) * g.mosaic_tile_width <= w,
                (ty + 1) * g.mosaic_tile_height <= h,
                g.color_tile_width <= LARGEST_DIMENSION,
                g.color_tile_height <= LARGEST_DIMENSION,
                color_tiles_x > 0,
                sy < color_tiles_y,
                sx <= color_tiles_x,
                colors@.len() == sy * color_tiles_x + sx,
                forall|s: int|
                    0 <= s < colors@.len() ==> #[trigger] colors@[s] == color_tile(
                        p@,
                        w as int,
                        g,
                        tx as int,
                        ty as int,
                        s % (color_tiles_x as int),
                        s / (color_tiles_x as int),
                    ),
            decreases color_tiles_x - sx,
        {
            let c = color_of_tile(p, w, h, g, tx, ty, sx, sy);
            proof {
                vstd::arithmetic::div_mod::lemma_fundamental_div_mod_converse(
                    (sy * color_tiles_x + sx) as int,
                    color_tiles_x as int,
                    sy as int,
                    sx as int,
                );
            }
            colors.push(c);
            sx += 1;
        }
        proof {
            assert(sy * color_tiles_x + color_tiles_x == (sy + 1) * color_tiles_x) by (nonlinear_arith);
        }
        sy += 1;
    }
    ImageTile { colors }
}

/// The colours of every mosaic tile of the scaled image `p` (`w` x `h`, whole tiles), tiles in
/// row-major order.
pub fn tile_colors(
    p: &Vec<u8>,
    w: u32,
    h: u32,
    g: TileGeometry,
    tiles_x: u32,
    tiles_y: u32,
    color_tiles_x: u32,
    color_tiles_y: u32,
) -> (tiles: Vec<ImageTile>)
    requires
        p@.len() == 3 * w * h,
        w == g.mosaic_tile_width * tiles_x,
        h == g.mosaic_tile_height * tiles_y,
        g.mosaic_tile_width <= LARGEST_DIMENSION,
        g.mosaic_tile_height <= LARGEST_DIMENSION,
        g.color_tile_width <= LARGEST_DIMENSION,
        g.color_tile_height <= LARGEST_DIMENSION,
        tiles_x > 0,
        color_tiles_x > 0,
    ensures
        tiles_colored(tiles@, p@, w as int, g, tiles_x as int, tiles_y as int, color_tiles_x as int, color_tiles_y as int),
{
    let mut tiles: Vec<ImageTile> = Vec::new();
    let mut ty: u32 = 0;
    while ty < tiles_y
        invariant
            p@.len() == 3 * w * h,
            w == g.mosaic_tile_width * tiles_x,
            h == g.mosaic_tile_height * tiles_y,
            g.mosaic_tile_width <= LARGEST_DIMENSION,
            g.mosaic_tile_height <= LARGEST_DIMENSION,
            g.color_tile_width <= LARGEST_DIMENSION,
            g.color_tile_height <= LARGEST_DIMENSION,
            tiles_x > 0,
            color_tiles_x > 0,
            ty <= tiles_y,
            tiles@.len() == ty * tiles_x,
            forall|t: int|
                0 <= t < tiles@.len() ==> {
                    &&& (#[trigger] tiles@[t]).colors@.len() == color_tiles_x * color_tiles_y
                    &&& forall|s: int|
                        0 <= s < color_tiles_x * color_tiles_y ==> #[trigger] tiles@[t].colors@[s] == color_tile(
                            p@,
                            w as int,
                            g,
                            t % (tiles_x as int),
                            t / (tiles_x as int),
                            s % (color_tiles_x as int),
                            s / (color_tiles_x as int),
                        )
                },
        decreases tiles_y - ty,
    {
        let mut tx: u32 = 0;
        while tx < tiles_x
            invariant
                p@.len() == 3 * w * h,
                w == g.mosaic_tile_width * tiles_x,
                h == g.mosaic_tile_height * tiles_y,
                g.mosaic_tile_width <= LARGEST_DIMENSION,
                g.mosaic_tile_height <= LARGEST_DIMENSION,
                g.color_tile_width <= LARGEST_DIMENSION,
                g.color_tile_height <= LARGEST_DIMENSION,
                tiles_x > 0,
                color_tiles_x > 0,
                ty < tiles_y,
                tx <= tiles_x,
                tiles@.len() == ty * tiles_x + tx,
                forall|t: int|
                    0 <= t < tiles@.len() ==> {
                        &&& (#[trigger] tiles@[t]).colors@.len() == color_tiles_x * color_tiles_y
                        &&& forall|s: int|
                            0 <= s < color_tiles_x * color_tiles_y ==> #[trigger] tiles@[t].colors@[s] == color_tile(
                                p@,
                                w as int,
                                g,
                                t % (tiles_x as int),
                                t / (tiles_x as int),
                                s % (color_tiles_x as int),
                                s / (color_tiles_x as int),
                            )
                    },
            decreases tiles_x - tx,
        {
            proof {
                assert((tx + 1) * g.mosaic_tile_width <= g.mosaic_tile_width * tiles_x) by (nonlinear_arith)
                    requires tx < tiles_x;
                assert((ty + 1) * g.mosaic_tile_height <= g.mosaic_tile_height * tiles_y) by (nonlinear_arith)
                    requires ty < tiles_y;
            }
            let tile = tile_of(p, w, h, g, tx, ty, color_tiles_x, color_tiles_y);
            proof {
                vstd::arithmetic::div_mod::lemma_fundamental_div_mod_converse(
                    (ty * tiles_x + tx) as int,
                    tiles_x as int,
                    ty as int,
                    tx as int,
                );
            }
            tiles.push(tile);
            tx += 1;
        }
        proof {
            assert(ty * tiles_x + tiles_x == (ty + 1) * tiles_x) by (nonlinear_arith);
        }
        ty += 1;
    }
    proof {
        assert(tiles@.len() == tiles_x * tiles_y) by (nonlinear_arith)
            requires tiles@.len() == ty * tiles_x, ty == tiles_y;
    }
    tiles
}

/// The colour tile's sum, whether or not its start was clipped to the mosaic tile, and its
/// bound by a full colour tile.
proof fn lemma_colour_tile_sum(p: Seq<u8>, w: int, c: int, x0: int, gx0: int, y0: int, gy0: int, x1: int, y1: int, ctw: int, cth: int)
    requires
        x0 == gx0 || (x0 >= x1 && gx0 >= x1),
        y0 == gy0 || (y0 >= y1 && gy0 >= y1),
        x1 - gx0 <= ctw,
        y1 - gy0 <= cth,
        ctw >= 0,
        cth >= 0,
    ensures
        rect_sum(p, w, c, x0, y0, x1, y1) == rect_sum(p, w, c, gx0, gy0, x1, y1),
        rect_sum(p, w, c, gx0, gy0, x1, y1) <= 255 * (ctw * cth),
{
    if x1 <= gx0 || y1 <= gy0 {
        if x1 <= gx0 {
            crate::ffmpeg::pixels::lemma_rect_sum_empty_rows(p, w, c, gx0, gy0, x1, y1);
        }
        if x0 == gx0 && y0 == gy0 {
        } else if x0 >= x1 {
            crate::ffmpeg::pixels::lemma_rect_sum_empty_rows(p, w, c, x0, y0, x1, y1);
        }
        if y1 <= gy0 {
            assert(rect_sum(p, w, c, gx0, gy0, x1, y1) == 0);
            assert(rect_sum(p, w, c, x0, y0, x1, y1) == 0);
        }
        assert(0 <= ctw * cth) by (nonlinear_arith)
            requires ctw >= 0, cth >= 0;
    } else {
        lemma_rect_sum_bounds(p, w, c, gx0, gy0, x1, y1);
        assert((x1 - gx0) * (y1 - gy0) <= ctw * cth) by (nonlinear_arith)
            requires 0 < x1 - gx0 <= ctw, 0 < y1 - gy0 <= cth;
    }
}

/// The tile colours are those of an image of the scaled size `g` gives that the resize made
/// of `crop` (`crop_width` x `crop_height`): the crop itself when the scaled size is the
/// crop's own.
pub open spec fn colored_from_scaled_crop(tiles: Seq<ImageTile>, crop: Seq<u8>, crop_width: nat, crop_height: nat,
    g: TileGeometry, tiles_x: int, tiles_y: int, color_tiles_x: int, color_tiles_y: int) -> bool {
    exists|scaled: Seq<u8>| {
        &&& scaled.len() == 3 * g.resize_width * g.resize_height
        &&& (g.resize_width == crop_width && g.resize_height == crop_height ==> scaled == crop)
        &&& #[trigger] tiles_colored(tiles, scaled, g.resize_width as int, g, tiles_x, tiles_y, color_tiles_x, color_tiles_y)
    }
}

/// The colours of the mosaic tiles of `image` for a tiling option: the centred part of the
/// option's size, scaled (Catmull-Rom) to whole mosaic tiles, each split into
/// `color_tiles_x` x `color_tiles_y` colour tiles. The scaled pixels are not stated beyond
/// what `resize_rgb` states; the colours are those `tile_colors` takes from them.
pub fn image_tiles(image: &TileImage, option: &MosaicTilingOption, color_tiles_x: u32, color_tiles_y: u32) -> (r: Response)
    requires
        image.wf(),
        geometry_inputs_ok(
            image.width as nat,
            image.height as nat,
            option.cropped_width as nat,
            option.cropped_height as nat,
            option.num_tiles_x as nat,
            option.num_tiles_y as nat,
            color_tiles_x as nat,
            color_tiles_y as nat,
        ),
        4 * (option.cropped_width * (2 * LARGEST_DIMENSION)) <= usize::MAX,
    ensures
        r.num_tiles_x == option.num_tiles_x,
        r.num_tiles_y == option.num_tiles_y,
        ({
            let g = tile_geometry(
                image.width as nat,
                image.height as nat,
                option.cropped_width as nat,
                option.cropped_height as nat,
                option.num_tiles_x as nat,
                option.num_tiles_y as nat,
                color_tiles_x as nat,
                color_tiles_y as nat,
            );
            colored_from_scaled_crop(
                r.tiles@,
                sub_image(image.data@, image.width as int, g.crop_x as int, g.crop_y as int, option.cropped_width as int,
                    option.cropped_height as int),
                option.cropped_width as nat,
                option.cropped_height as nat,
                g,
                option.num_tiles_x as int,
                option.num_tiles_y as int,
                color_tiles_x as int,
                color_tiles_y as int,
            )
        }),
{
    let tiles_x = option.num_tiles_x as u32;
    let tiles_y = option.num_tiles_y as u32;
    let g = compute_tile_geometry(
        image.width,
        image.height,
        option.cropped_width,
        option.cropped_height,
        tiles_x,
        tiles_y,
        color_tiles_x,
        color_tiles_y,
    );
    let cropped = crop_image(image, g.crop_x, g.crop_y, option.cropped_width, option.cropped_height);
    proof {
        assert(4 * (cropped.width * g.resize_height) <= 4 * (option.cropped_width * (2 * LARGEST_DIMENSION))) by (nonlinear_arith)
            requires cropped.width == option.cropped_width, g.resize_height <= 20000;
        assert(3 * (g.resize_width * g.resize_height) <= 3 * (20000 * 20000)) by (nonlinear_arith)
            requires g.resize_width <= 20000, g.resize_height <= 20000;
    }
    let scaled = resize_rgb(&cropped.data, cropped.width, cropped.height, g.resize_width, g.resize_height, ResizeFilter::CatmullRom);
    let tiles = tile_colors(&scaled, g.resize_width, g.resize_height, g, tiles_x, tiles_y, color_tiles_x, color_tiles_y);
    proof {
        assert(g == tile_geometry(image.width as nat, image.height as nat, option.cropped_width as nat, option.cropped_height as nat,
            option.num_tiles_x as nat, option.num_tiles_y as nat, color_tiles_x as nat, color_tiles_y as nat));
        let sc = scaled@;
        assert(sc.len() == 3 * g.resize_width * g.resize_height);
        assert(tiles_colored(tiles@, sc, g.resize_width as int, g, option.num_tiles_x as int, option.num_tiles_y as int,
            color_tiles_x as int, color_tiles_y as int));
        assert(cropped.width == option.cropped_width && cropped.height == option.cropped_height);
        assert(colored_from_scaled_crop(tiles@, cropped.data@, option.cropped_width as nat, option.cropped_height as nat, g,
            option.num_tiles_x as int, option.num_tiles_y as int, color_tiles_x as int, color_tiles_y as int));
    }
    Response { num_tiles_x: option.num_tiles_x, num_tiles_y: option.num_tiles_y, tiles }
}

} // verus!
