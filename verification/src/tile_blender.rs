//! Softening the seams between neighbouring tiles of a mosaic.

use vstd::prelude::*;
use crate::ffmpeg::pixels::{rect_sum, row_sum, channel_at, lemma_rect_sum_bounds, lemma_grid_index_bound};
use crate::numeric::{round_div, lemma_round_div_bound};
use crate::raster::{TileImage, ResizeFilter, triangle_resized, resize_rgb};

verus! {

/// Channel `c` of pixel `(x, y)`.
pub open spec fn px(p: Seq<u8>, w: int, x: int, y: int, c: int) -> int {
    p[3 * (y * w + x) + c] as int
}

/// Mean (rounded down) of channel `c` over rows `[y1, y2)` of column `x`.
pub open spec fn column_mean(p: Seq<u8>, w: int, x: int, y1: int, y2: int, c: int) -> int {
    rect_sum(p, w, c, x, y1, x + 1, y2) / (y2 - y1)
}

/// Mean (rounded down) of channel `c` over columns `[x1, x2)` of row `y`.
pub open spec fn row_mean(p: Seq<u8>, w: int, y: int, x1: int, x2: int, c: int) -> int {
    rect_sum(p, w, c, x1, y, x2, y + 1) / (x2 - x1)
}

/// The smoothstep weight, scaled by `bw^3`, of the `n`-th pixel (counted from the far side,
/// 1 to `bw`) of a band `bw` pixels wide.
pub open spec fn smooth_weight(n: int, bw: int) -> int {
    n * n * (3 * bw - 2 * n)
}

/// A channel value moved toward `target` by the smoothstep weight of position `n`, rounded
/// to nearest with halves up.
pub open spec fn blended(a: int, target: int, n: int, bw: int) -> int {
    round_div(a * (bw * bw * bw - smooth_weight(n, bw)) + target * smooth_weight(n, bw), bw * bw * bw)
}

/// The four edges along which a tile meets a neighbour.
#[derive(Clone, Copy, PartialEq, Eq, Debug)]
pub enum Side {
    Top,
    Right,
    Bottom,
    Left,
}

/// Seams along the top and the bottom run along the columns; the others along the rows.
pub open spec fn runs_along_columns(side: Side) -> bool {
    side is Top || side is Bottom
}

/// Where the pixel `(x, y)` lies along the seam: its column or its row.
pub open spec fn along(side: Side, x: int, y: int) -> int {
    if runs_along_columns(side) { x } else { y }
}

/// The position of pixel `(x, y)` in the band along `side`: 1 at the far edge of the band
/// up to `bw` next to the seam, and 0 outside the band.
pub open spec fn band_position(side: Side, w: int, h: int, bw: int, x: int, y: int) -> int {
    match side {
        Side::Top => if 0 <= y < bw { bw - y } else { 0 },
        Side::Right => if w - bw <= x < w { x - (w - bw) + 1 } else { 0 },
        Side::Bottom => if h - bw <= y < h { y - (h - bw) + 1 } else { 0 },
        Side::Left => if 0 <= x < bw { bw - x } else { 0 },
    }
}

/// The colour (channel `c`) that the band is blended toward at place `i` along the seam: the
/// mean of the `sl` pixels next to the seam in this tile `p` and the same in the neighbour
/// `q`, each mean rounded down, and their mean rounded down.
pub open spec fn seam_colour(side: Side, p: Seq<u8>, q: Seq<u8>, w: int, h: int, sl: int, i: int, c: int) -> int {
    match side {
        Side::Top => (column_mean(q, w, i, h - sl, h, c) + column_mean(p, w, i, 0, sl, c)) / 2,
        Side::Right => (row_mean(p, w, i, w - sl, w, c) + row_mean(q, w, i, 0, sl, c)) / 2,
        Side::Bottom => (column_mean(q, w, i, 0, sl, c) + column_mean(p, w, i, h - sl, h, c)) / 2,
        Side::Left => (row_mean(q, w, i, w - sl, w, c) + row_mean(p, w, i, 0, sl, c)) / 2,
    }
}

/// The tile `p` with the band along `side` blended toward the seam colours shared with the
/// neighbour `q` (both `w` x `h`).
pub open spec fn seam_blend(side: Side, p: Seq<u8>, q: Seq<u8>, w: int, h: int, bw: int, sl: int) -> Seq<u8> {
    Seq::new(
        p.len(),
        |k: int|
            {
                let x = (k / 3) % w;
                let y = (k / 3) / w;
                let c = k % 3;
                let n = band_position(side, w, h, bw, x, y);
                if 1 <= n <= bw {
                    blended(p[k] as int, seam_colour(side, p, q, w, h, sl, along(side, x, y), c), n, bw) as u8
                } else {
                    p[k]
                }
            },
    )
}

/// A neighbour's pixels at the size of the centre tile: as they are when the sizes match,
/// resized otherwise.
pub open spec fn neighbour_at_size(n: TileImage, w: u32, h: u32) -> Seq<u8> {
    if n.width == w && n.height == h { n.data@ } else { triangle_resized(n.data@, n.width, n.height, w, h) }
}

/// The neighbour can be brought to the size of the centre tile.
pub open spec fn neighbour_usable(n: TileImage, w: u32, h: u32) -> bool {
    &&& n.wf()
    &&& (n.width == w && n.height == h || 4 * (n.width * h) <= usize::MAX)
}

/// The tile after the seam along `side` with the neighbour `n`, if there is one.
pub open spec fn seam_with(side: Side, p: Seq<u8>, n: Option<&TileImage>, w: u32, h: u32) -> Seq<u8> {
    match n {
        Some(n) => seam_blend(
            side,
            p,
            neighbour_at_size(*n, w, h),
            w as int,
            h as int,
            DEFAULT_BLEND_WIDTH as int,
            DEFAULT_SAMPLE_LENGTH as int,
        ),
        None => p,
    }
}

/// The centre tile after its seams with the neighbours that are given were blended, top,
/// right, bottom and left in turn.
pub open spec fn blended_tile(
    p: Seq<u8>,
    w: u32,
    h: u32,
    top: Option<&TileImage>,
    right: Option<&TileImage>,
    bottom: Option<&TileImage>,
    left: Option<&TileImage>,
) -> Seq<u8> {
    let p1 = seam_with(Side::Top, p, top, w, h);
    let p2 = seam_with(Side::Right, p1, right, w, h);
    let p3 = seam_with(Side::Bottom, p2, bottom, w, h);
    seam_with(Side::Left, p3, left, w, h)
}

/// The sides that need the tile to be at least one sample long across them.
pub open spec fn fits_seam(side: Side, n: Option<&TileImage>, w: u32, h: u32) -> bool {
    match n {
        Some(n) => {
            &&& neighbour_usable(*n, w, h)
            &&& (if runs_along_columns(side) { h >= DEFAULT_SAMPLE_LENGTH } else { w >= DEFAULT_SAMPLE_LENGTH })
        },
        None => true,
    }
}

/// Pixels from the seam that are blended toward the seam colour.
pub const DEFAULT_BLEND_WIDTH: u32 = 12;

/// Pixels from the edge that are averaged to find an edge's colour.
pub const DEFAULT_SAMPLE_LENGTH: u32 = 15;

/// Blends one tile of a `mosaic_tiles_x` x `mosaic_tiles_y` mosaic into its neighbours.
pub struct TileBlender {
    row: u32,
    col: u32,
    mosaic_tiles_x: u32,
    mosaic_tiles_y: u32,
    blend_width: u32,
    sample_width: u32,
    sample_height: u32,
}

impl TileBlender {
    pub closed spec fn row(&self) -> nat {
        self.row as nat
    }

    pub closed spec fn col(&self) -> nat {
        self.col as nat
    }

    pub closed spec fn mosaic_tiles_x(&self) -> nat {
        self.mosaic_tiles_x as nat
    }

    pub closed spec fn mosaic_tiles_y(&self) -> nat {
        self.mosaic_tiles_y as nat
    }

    pub closed spec fn blend_width(&self) -> nat {
        self.blend_width as nat
    }

    pub closed spec fn sample_width(&self) -> nat {
        self.sample_width as nat
    }

    pub closed spec fn sample_height(&self) -> nat {
        self.sample_height as nat
    }

    /// The blender for the tile at `row`, `col`, with the default blend and sample lengths.
    pub fn new(row: u32, col: u32, mosaic_tiles_x: u32, mosaic_tiles_y: u32) -> (t: TileBlender)
        ensures
            t.row() == row,
            t.col() == col,
            t.mosaic_tiles_x() == mosaic_tiles_x,
            t.mosaic_tiles_y() == mosaic_tiles_y,
            t.blend_width() == DEFAULT_BLEND_WIDTH,
            t.sample_width() == DEFAULT_SAMPLE_LENGTH,
            t.sample_height() == DEFAULT_SAMPLE_LENGTH,
    {
        TileBlender {
            row,
            col,
            mosaic_tiles_x,
            mosaic_tiles_y,
            blend_width: DEFAULT_BLEND_WIDTH,
            sample_width: DEFAULT_SAMPLE_LENGTH,
            sample_height: DEFAULT_SAMPLE_LENGTH,
        }
    }

    /// The tile above, unless this tile is in the top row.
    pub fn find_top(&self) -> (r: Option<(u32, u32)>)
        ensures
            r == (if self.row() == 0 { None } else { Some(((self.row() - 1) as u32, self.col() as u32)) }),
    {
        if self.row == 0 {
            return None;
        }
        Some((self.row - 1, self.col))
    }

    /// The tile to the right, unless this tile is in the last column.
    pub fn find_right(&self) -> (r: Option<(u32, u32)>)
        requires
            self.mosaic_tiles_x() > 0,
            self.col() == self.mosaic_tiles_x() - 1 || self.col() < u32::MAX,
        ensures
            r == (if self.col() == self.mosaic_tiles_x() - 1 { None } else { Some((self.row() as u32, (self.col() + 1) as u32)) }),
    {
        if self.col == (self.mosaic_tiles_x - 1) {
            return None;
        }
        Some((self.row, self.col + 1))
    }

    /// The tile below, unless this tile is in the bottom row.
    pub fn find_bottom(&self) -> (r: Option<(u32, u32)>)
        requires
            self.mosaic_tiles_y() > 0,
            self.row() == self.mosaic_tiles_y() - 1 || self.row() < u32::MAX,
        ensures
            r == (if self.row() == self.mosaic_tiles_y() - 1 { None } else { Some(((self.row() + 1) as u32, self.col() as u32)) }),
    {
        if self.row == (self.mosaic_tiles_y - 1) {
            return None;
        }
        Some((self.row + 1, self.col))
    }

    /// The tile to the left, unless this tile is in the first column.
    pub fn find_left(&self) -> (r: Option<(u32, u32)>)
        ensures
            r == (if self.col() == 0 { None } else { Some((self.row() as u32, (self.col() - 1) as u32)) }),
    {
        if self.col == 0 {
            return None;
        }
        Some((self.row, self.col - 1))
    }

    #[verifier::type_invariant]
    spec fn lengths_are_default(self) -> bool {
        &&& self.blend_width == DEFAULT_BLEND_WIDTH
        &&& self.sample_width == DEFAULT_SAMPLE_LENGTH
        &&& self.sample_height == DEFAULT_SAMPLE_LENGTH
    }

    /// Blends the seams of `center` with each neighbour that is given: top, right, bottom and
    /// left in turn. A neighbour of another size is first resized to the size of `center`.
    pub fn blend_image(
        &self,
        center: &mut TileImage,
        top: Option<&TileImage>,
        right: Option<&TileImage>,
        bottom: Option<&TileImage>,
        left: Option<&TileImage>,
    )
        requires
            old(center).wf(),
            fits_seam(Side::Top, top, old(center).width, old(center).height),
            fits_seam(Side::Right, right, old(center).width, old(center).height),
            fits_seam(Side::Bottom, bottom, old(center).width, old(center).height),
            fits_seam(Side::Left, left, old(center).width, old(center).height),
        ensures
            final(center).width == old(center).width,
            final(center).height == old(center).height,
            final(center).data@ == blended_tile(
                old(center).data@,
                old(center).width,
                old(center).height,
                top,
                right,
                bottom,
                left,
            ),
    {
        self.blend_side(Side::Top, center, top);
        self.blend_side(Side::Right, center, right);
        self.blend_side(Side::Bottom, center, bottom);
        self.blend_side(Side::Left, center, left);
    }

    fn blend_side(&self, side: Side, center: &mut TileImage, neighbour: Option<&TileImage>)
        requires
            old(center).wf(),
            fits_seam(side, neighbour, old(center).width, old(center).height),
        ensures
            final(center).wf(),
            final(center).width == old(center).width,
            final(center).height == old(center).height,
            final(center).data@ == seam_with(side, old(center).data@, neighbour, old(center).width, old(center).height),
    {
        if let Some(n) = neighbour {
            let w = center.width;
            let h = center.height;
            if w == 0 || h == 0 {
                proof {
                    assert(center.data@.len() == 0) by (nonlinear_arith)
                        requires center.data@.len() == 3 * w * h, w == 0 || h == 0;
                    assert(seam_with(side, center.data@, neighbour, w, h) =~= center.data@);
                }
            } else if n.width == w && n.height == h {
                self.blend_with(side, center, &n.data);
            } else {
                let len = center.data.len();
                proof {
                    assert(3 * w * h == 3 * (w * h)) by (nonlinear_arith);
                }
                let q = resize_rgb(&n.data, n.width, n.height, w, h, ResizeFilter::Triangle);
                self.blend_with(side, center, &q);
            }
        }
    }

    fn blend_with(&self, side: Side, center: &mut TileImage, q: &Vec<u8>)
        requires
            old(center).wf(),
            q@.len() == old(center).data@.len(),
            if runs_along_columns(side) {
                old(center).height >= DEFAULT_SAMPLE_LENGTH
            } else {
                old(center).width >= DEFAULT_SAMPLE_LENGTH
            },
        ensures
            final(center).wf(),
            final(center).width == old(center).width,
            final(center).height == old(center).height,
            final(center).data@ == seam_blend(
                side,
                old(center).data@,
                q@,
                old(center).width as int,
                old(center).height as int,
                DEFAULT_BLEND_WIDTH as int,
                DEFAULT_SAMPLE_LENGTH as int,
            ),
    {
        proof {
            use_type_invariant(self);
        }
        let sample_length = if runs_along_columns_exec(side) { self.sample_height } else { self.sample_width };
        let colours = seam_colours(side, &center.data, q, center.width, center.height, sample_length);
        let blended = blend_band(side, &center.data, &colours, center.width, center.height, self.blend_width, Ghost(q@));
        center.data = blended;
    }
}


fn runs_along_columns_exec(side: Side) -> (r: bool)
    ensures
        r == runs_along_columns(side),
{
    match side {
        Side::Top | Side::Bottom => true,
        _ => false,
    }
}

/// Mean (rounded down) of channel `c` over rows `[y1, y2)` of column `x`.
fn column_mean_of(p: &Vec<u8>, w: u32, h: u32, x: u32, y1: u32, y2: u32, c: usize) -> (m: u8)
    requires
        p@.len() == 3 * w * h,
        x < w,
        y1 < y2 <= h,
        y2 - y1 <= DEFAULT_SAMPLE_LENGTH,
        c < 3,
    ensures
        m == column_mean(p@, w as int, x as int, y1 as int, y2 as int, c as int),
{
    let mut sum: u32 = 0;
    let len = p.len();
    let mut y = y1;
    while y < y2
        invariant
            len == p@.len(),
            y1 <= y <= y2 <= h,
            y2 - y1 <= DEFAULT_SAMPLE_LENGTH,
            p@.len() == 3 * w * h,
            x < w,
            c < 3,
            sum == rect_sum(p@, w as int, c as int, x as int, y1 as int, x + 1, y as int),
            sum <= 255 * (y - y1),
        decreases y2 - y,
    {
        proof {
            lemma_grid_index_bound(w as int, h as int, x as int, y as int);
            assert(3 * w * h == 3 * (h * w)) by (nonlinear_arith);
            assert(row_sum(p@, w as int, c as int, y as int, x as int, x as int) == 0);
        }
        let k = 3 * (y as usize * w as usize + x as usize) + c;
        sum = sum + p[k] as u32;
        y = y + 1;
    }
    let n = y2 - y1;
    proof {
        assert(sum / n <= 255) by (nonlinear_arith)
            requires sum <= 255 * n, n > 0;
    }
    (sum / n) as u8
}

/// Mean (rounded down) of channel `c` over columns `[x1, x2)` of row `y`.
fn row_mean_of(p: &Vec<u8>, w: u32, h: u32, y: u32, x1: u32, x2: u32, c: usize) -> (m: u8)
    requires
        p@.len() == 3 * w * h,
        y < h,
        x1 < x2 <= w,
        x2 - x1 <= DEFAULT_SAMPLE_LENGTH,
        c < 3,
    ensures
        m == row_mean(p@, w as int, y as int, x1 as int, x2 as int, c as int),
{
    let mut sum: u32 = 0;
    let len = p.len();
    let mut x = x1;
    while x < x2
        invariant
            len == p@.len(),
            x1 <= x <= x2 <= w,
            x2 - x1 <= DEFAULT_SAMPLE_LENGTH,
            p@.len() == 3 * w * h,
            y < h,
            c < 3,
            sum == row_sum(p@, w as int, c as int, y as int, x1 as int, x as int),
            sum <= 255 * (x - x1),
        decreases x2 - x,
    {
        proof {
            lemma_grid_index_bound(w as int, h as int, x as int, y as int);
            assert(3 * w * h == 3 * (h * w)) by (nonlinear_arith);
            assert(y * w <= y * w + x) by (nonlinear_arith)
                requires x >= 0, y >= 0, w >= 0;
        }
        let k = 3 * (y as usize * w as usize + x as usize) + c;
        sum = sum + p[k] as u32;
        x = x + 1;
    }
    let n = x2 - x1;
    proof {
        assert(rect_sum(p@, w as int, c as int, x1 as int, y as int, x2 as int, y as int) == 0);
        assert(sum / n <= 255) by (nonlinear_arith)
            requires sum <= 255 * n, n > 0;
    }
    (sum / n) as u8
}

/// Channel `c` of the colour the band along `side` is blended toward at place `i`.
fn seam_channel(side: Side, p: &Vec<u8>, q: &Vec<u8>, w: u32, h: u32, sl: u32, i: u32, c: usize) -> (r: u8)
    requires
        p@.len() == 3 * w * h,
        q@.len() == 3 * w * h,
        sl == DEFAULT_SAMPLE_LENGTH,
        if runs_along_columns(side) { i < w && sl <= h } else { i < h && sl <= w },
        c < 3,
    ensures
        r == seam_colour(side, p@, q@, w as int, h as int, sl as int, i as int, c as int),
{
    let (a, b) = match side {
        Side::Top => (column_mean_of(q, w, h, i, h - sl, h, c), column_mean_of(p, w, h, i, 0, sl, c)),
        Side::Right => (row_mean_of(p, w, h, i, w - sl, w, c), row_mean_of(q, w, h, i, 0, sl, c)),
        Side::Bottom => (column_mean_of(q, w, h, i, 0, sl, c), column_mean_of(p, w, h, i, h - sl, h, c)),
        Side::Left => (row_mean_of(q, w, h, i, w - sl, w, c), row_mean_of(p, w, h, i, 0, sl, c)),
    };
    ((a as u16 + b as u16) / 2) as u8
}

/// The seam colours along `side`, three channels for each place along the seam.
fn seam_colours(side: Side, p: &Vec<u8>, q: &Vec<u8>, w: u32, h: u32, sl: u32) -> (colours: Vec<u8>)
    requires
        p@.len() == 3 * w * h,
        q@.len() == 3 * w * h,
        sl == DEFAULT_SAMPLE_LENGTH,
        if runs_along_columns(side) { sl <= h } else { sl <= w },
    ensures
        colours@.len() == 3 * (if runs_along_columns(side) { w } else { h }),
        forall|i: int, c: int|
            0 <= i < (if runs_along_columns(side) { w } else { h }) && 0 <= c < 3 ==> #[trigger] colours@[3 * i + c]
                == seam_colour(side, p@, q@, w as int, h as int, sl as int, i, c),
{
    let count = if runs_along_columns_exec(side) { w } else { h };
    let mut colours: Vec<u8> = Vec::new();
    let mut i: u32 = 0;
    while i < count
        invariant
            i <= count,
            count == (if runs_along_columns(side) { w } else { h }),
            p@.len() == 3 * w * h,
            q@.len() == 3 * w * h,
            sl == DEFAULT_SAMPLE_LENGTH,
            if runs_along_columns(side) { sl <= h } else { sl <= w },
            colours@.len() == 3 * i,
            forall|j: int, c: int|
                0 <= j < i && 0 <= c < 3 ==> #[trigger] colours@[3 * j + c]
                    == seam_colour(side, p@, q@, w as int, h as int, sl as int, j, c),
        decreases count - i,
    {
        let r = seam_channel(side, p, q, w, h, sl, i, 0);
        let g = seam_channel(side, p, q, w, h, sl, i, 1);
        let b = seam_channel(side, p, q, w, h, sl, i, 2);
        colours.push(r);
        colours.push(g);
        colours.push(b);
        proof {
            assert forall|j: int, c: int|
                0 <= j < i + 1 && 0 <= c < 3 implies #[trigger] colours@[3 * j + c]
                    == seam_colour(side, p@, q@, w as int, h as int, sl as int, j, c) by {
                if j == i {
                    assert(c == 0 || c == 1 || c == 2);
                }
            }
        }
        i = i + 1;
    }
    colours
}

/// The position of pixel `(x, y)` in the band along `side` (see `band_position`).
fn band_position_of(side: Side, w: u32, h: u32, bw: u32, x: usize, y: usize) -> (n: u32)
    requires
        bw == DEFAULT_BLEND_WIDTH,
        x < w,
        y < h,
        runs_along_columns(side) ==> bw <= h,
        !runs_along_columns(side) ==> bw <= w,
    ensures
        n == band_position(side, w as int, h as int, bw as int, x as int, y as int),
{
    match side {
        Side::Top => if y < bw as usize { bw - y as u32 } else { 0 },
        Side::Right => if x >= (w - bw) as usize { x as u32 - (w - bw) + 1 } else { 0 },
        Side::Bottom => if y >= (h - bw) as usize { y as u32 - (h - bw) + 1 } else { 0 },
        Side::Left => if x < bw as usize { bw - x as u32 } else { 0 },
    }
}

/// One channel value blended toward `target` at band position `n` (see `blended`).
fn blend_channel(a: u8, target: u8, n: u32) -> (r: u8)
    requires
        1 <= n <= DEFAULT_BLEND_WIDTH,
    ensures
        r == blended(a as int, target as int, n as int, DEFAULT_BLEND_WIDTH as int),
{
    proof {
        assert(n * n <= 144) by (nonlinear_arith)
            requires 1 <= n <= 12;
        assert(0 <= n * n * (36 - 2 * n) <= 1728) by (nonlinear_arith)
            requires 1 <= n <= 12;
    }
    let s: u32 = n * n * (36 - 2 * n);
    proof {
        assert(a * (1728 - s) + target * s <= 255 * 1728) by (nonlinear_arith)
            requires a <= 255, target <= 255, 0 <= s <= 1728;
        assert(a * (1728 - s) + target * s >= 0) by (nonlinear_arith)
            requires a >= 0, target >= 0, 0 <= s <= 1728;
    }
    let num: u32 = a as u32 * (1728 - s) + target as u32 * s;
    proof {
        lemma_round_div_bound(num as int, 1728, 255);
    }
    ((2 * num + 1728) / (2 * 1728)) as u8
}

/// The band along `side` of `p` blended toward `colours`, the seam colours with the
/// neighbour `q`.
fn blend_band(side: Side, p: &Vec<u8>, colours: &Vec<u8>, w: u32, h: u32, bw: u32, Ghost(q): Ghost<Seq<u8>>) -> (out: Vec<u8>)
    requires
        p@.len() == 3 * w * h,
        bw == DEFAULT_BLEND_WIDTH,
        if runs_along_columns(side) { DEFAULT_SAMPLE_LENGTH <= h } else { DEFAULT_SAMPLE_LENGTH <= w },
        colours@.len() == 3 * (if runs_along_columns(side) { w } else { h }),
        forall|i: int, c: int|
            0 <= i < (if runs_along_columns(side) { w } else { h }) && 0 <= c < 3 ==> #[trigger] colours@[3 * i + c]
                == seam_colour(side, p@, q, w as int, h as int, DEFAULT_SAMPLE_LENGTH as int, i, c),
    ensures
        out@ == seam_blend(side, p@, q, w as int, h as int, bw as int, DEFAULT_SAMPLE_LENGTH as int),
{
    let ghost target = seam_blend(side, p@, q, w as int, h as int, bw as int, DEFAULT_SAMPLE_LENGTH as int);
    let len = p.len();
    let colour_count = colours.len();
    let mut out: Vec<u8> = Vec::new();
    let mut k: usize = 0;
    while k < len
        invariant
            k <= len,
            colour_count == colours@.len(),
            len == p@.len(),
            p@.len() == 3 * w * h,
            bw == DEFAULT_BLEND_WIDTH,
            if runs_along_columns(side) { DEFAULT_SAMPLE_LENGTH <= h } else { DEFAULT_SAMPLE_LENGTH <= w },
            colours@.len() == 3 * (if runs_along_columns(side) { w } else { h }),
            forall|i: int, c: int|
                0 <= i < (if runs_along_columns(side) { w } else { h }) && 0 <= c < 3 ==> #[trigger] colours@[3 * i + c]
                    == seam_colour(side, p@, q, w as int, h as int, DEFAULT_SAMPLE_LENGTH as int, i, c),
            target == seam_blend(side, p@, q, w as int, h as int, bw as int, DEFAULT_SAMPLE_LENGTH as int),
            out@.len() == k,
            forall|j: int| 0 <= j < k ==> out@[j] == target[j],
        decreases len - k,
    {
        let pix = k / 3;
        proof {
            assert(w > 0 && pix < w * h) by (nonlinear_arith)
                requires k < 3 * w * h, pix == k / 3;
            assert((pix as int) / (w as int) < h) by (nonlinear_arith)
                requires pix < w * h, w > 0;
        }
        let x = pix % (w as usize);
        let y = pix / (w as usize);
        let c = k % 3;
        let n = band_position_of(side, w, h, bw, x, y);
        if 1 <= n && n <= bw {
            let i = if runs_along_columns_exec(side) { x } else { y };
            let t = colours[3 * i + c];
            out.push(blend_channel(p[k], t, n));
        } else {
            out.push(p[k]);
        }
        k = k + 1;
    }
    proof {
        assert(out@ =~= target);
    }
    out
}

/// Next to the seam a pixel takes the seam colour exactly, whatever it was.
pub proof fn lemma_seam_pixel_takes_seam_colour(a: int, target: int)
    ensures
        blended(a, target, DEFAULT_BLEND_WIDTH as int, DEFAULT_BLEND_WIDTH as int) == target,
{
    assert(12 * 12 * (3 * 12 - 2 * 12) == 1728int) by (nonlinear_arith);
    assert(a * (1728 - 1728) == 0);
    assert(round_div(target * 1728, 1728) == target) by (nonlinear_arith)
        requires round_div(target * 1728, 1728) == (2 * (target * 1728) + 1728int) / 3456int;
}

/// A band whose pixels already have the seam colour is left as it is.
pub proof fn lemma_blend_keeps_seam_colour(a: int, n: int)
    requires
        1 <= n <= DEFAULT_BLEND_WIDTH,
    ensures
        blended(a, a, n, DEFAULT_BLEND_WIDTH as int) == a,
{
    let s = smooth_weight(n, 12);
    assert(a * (1728 - s) + a * s == a * 1728) by (nonlinear_arith);
    assert(round_div(a * 1728, 1728) == a) by (nonlinear_arith)
        requires round_div(a * 1728, 1728) == (2 * (a * 1728) + 1728int) / 3456int;
}

/// Two neighbouring tiles blend toward the same colours along the seam they share: the right
/// seam of `p` beside `q` and the left seam of `q` beside `p`, and likewise the bottom seam of
/// `p` above `q` and the top seam of `q` below `p`.
pub proof fn lemma_neighbours_share_seam_colour(p: Seq<u8>, q: Seq<u8>, w: int, h: int, sl: int, i: int, c: int)
    ensures
        seam_colour(Side::Right, p, q, w, h, sl, i, c) == seam_colour(Side::Left, q, p, w, h, sl, i, c),
        seam_colour(Side::Bottom, p, q, w, h, sl, i, c) == seam_colour(Side::Top, q, p, w, h, sl, i, c),
{
}

/// Along every side, the pixel next to the seam (the bottom row, the top row, the right or the
/// left column) takes the seam colour exactly, whatever it was.
pub proof fn lemma_pixel_at_seam_takes_seam_colour(side: Side, p: Seq<u8>, q: Seq<u8>, w: int, h: int, sl: int, x: int,
    y: int, c: int)
    requires
        p.len() == 3 * w * h,
        0 <= x < w,
        0 <= y < h,
        0 <= c < 3,
        match side {
            Side::Top => y == 0,
            Side::Bottom => y == h - 1,
            Side::Right => x == w - 1,
            Side::Left => x == 0,
        },
    ensures
        seam_blend(side, p, q, w, h, DEFAULT_BLEND_WIDTH as int, sl)[3 * (y * w + x) + c]
            == seam_colour(side, p, q, w, h, sl, along(side, x, y), c) as u8,
{
    let k = 3 * (y * w + x) + c;
    lemma_pixel_index(w, h, x, y, c);
    assert(band_position(side, w, h, 12, x, y) == 12);
    lemma_seam_pixel_takes_seam_colour(p[k] as int, seam_colour(side, p, q, w, h, sl, along(side, x, y), c));
}

/// Along every side, the band's pixels move toward the seam colour the more the nearer they
/// are to the seam: the band position grows by one per pixel toward the seam, from 1 at the
/// band's far edge to the band width next to the seam, and pixels beyond the band keep their
/// colour.
pub proof fn lemma_band_grows_toward_seam(side: Side, p: Seq<u8>, q: Seq<u8>, w: int, h: int, sl: int, x: int, y: int, c: int)
    requires
        p.len() == 3 * w * h,
        DEFAULT_BLEND_WIDTH <= w,
        DEFAULT_BLEND_WIDTH <= h,
        0 <= x < w,
        0 <= y < h,
        0 <= c < 3,
    ensures
        side is Bottom && y < h - 1 ==> band_position(side, w, h, 12, x, y + 1) == (if band_position(side, w, h, 12, x, y) == 0 && y + 1 < h - 12 { 0 } else { band_position(side, w, h, 12, x, y) + 1 }),
        side is Top && y > 0 ==> band_position(side, w, h, 12, x, y - 1) == (if band_position(side, w, h, 12, x, y) == 0 && y - 1 >= 12 { 0 } else { band_position(side, w, h, 12, x, y) + 1 }),
        side is Right && x < w - 1 ==> band_position(side, w, h, 12, x + 1, y) == (if band_position(side, w, h, 12, x, y) == 0 && x + 1 < w - 12 { 0 } else { band_position(side, w, h, 12, x, y) + 1 }),
        side is Left && x > 0 ==> band_position(side, w, h, 12, x - 1, y) == (if band_position(side, w, h, 12, x, y) == 0 && x - 1 >= 12 { 0 } else { band_position(side, w, h, 12, x, y) + 1 }),
        side is Bottom && y == h - 12 ==> band_position(side, w, h, 12, x, y) == 1,
        side is Top && y == 11 ==> band_position(side, w, h, 12, x, y) == 1,
        side is Right && x == w - 12 ==> band_position(side, w, h, 12, x, y) == 1,
        side is Left && x == 11 ==> band_position(side, w, h, 12, x, y) == 1,
        band_position(side, w, h, 12, x, y) == 0 ==> seam_blend(side, p, q, w, h, 12, sl)[3 * (y * w + x) + c] == p[3 * (y * w + x) + c],
{
    lemma_pixel_index(w, h, x, y, c);
}

/// The smoothstep weights of a band: none at the band's outer edge, all of it next to the
/// seam, growing with each pixel toward the seam, and symmetric, so that the pixels `n` and
/// `bw - n` from the outer edge share the whole weight between them.
pub proof fn lemma_smoothstep_weights(n: int, bw: int)
    requires
        0 <= n < bw,
    ensures
        smooth_weight(0, bw) == 0,
        smooth_weight(bw, bw) == bw * bw * bw,
        smooth_weight(n, bw) < smooth_weight(n + 1, bw),
        smooth_weight(n, bw) + smooth_weight(bw - n, bw) == bw * bw * bw,
        0 <= smooth_weight(n, bw) < bw * bw * bw,
{
    assert(smooth_weight(0, bw) == 0) by (nonlinear_arith)
        requires smooth_weight(0, bw) == 0 * 0 * (3 * bw - 2 * 0);
    assert(smooth_weight(bw, bw) == bw * bw * bw) by (nonlinear_arith)
        requires smooth_weight(bw, bw) == bw * bw * (3 * bw - 2 * bw);
    assert(smooth_weight(n + 1, bw) - smooth_weight(n, bw) == 6 * n * (bw - n) + 3 * bw - 6 * n - 2) by (nonlinear_arith)
        requires smooth_weight(n + 1, bw) == (n + 1) * (n + 1) * (3 * bw - 2 * (n + 1)), smooth_weight(n, bw) == n * n * (3 * bw - 2 * n);
    assert(6 * n * (bw - n) + 3 * bw - 6 * n - 2 > 0) by (nonlinear_arith)
        requires 0 <= n < bw;
    assert(smooth_weight(n, bw) + smooth_weight(bw - n, bw) == bw * bw * bw) by (nonlinear_arith)
        requires smooth_weight(n, bw) == n * n * (3 * bw - 2 * n),
            smooth_weight(bw - n, bw) == (bw - n) * (bw - n) * (3 * bw - 2 * (bw - n));
    assert(smooth_weight(n, bw) >= 0) by (nonlinear_arith)
        requires smooth_weight(n, bw) == n * n * (3 * bw - 2 * n), 0 <= n < bw;
    assert(smooth_weight(bw - n, bw) > 0) by (nonlinear_arith)
        requires smooth_weight(bw - n, bw) == (bw - n) * (bw - n) * (3 * bw - 2 * (bw - n)), 0 <= n < bw;
}

/// The pixel `(x, y)`, channel `c`, of a `w` x `h` image sits at `3 * (y * w + x) + c`.
proof fn lemma_pixel_index(w: int, h: int, x: int, y: int, c: int)
    requires
        0 <= x < w,
        0 <= y < h,
        0 <= c < 3,
    ensures
        3 * (y * w + x) + c < 3 * w * h,
        (3 * (y * w + x) + c) % 3 == c,
        ((3 * (y * w + x) + c) / 3) % w == x,
        ((3 * (y * w + x) + c) / 3) / w == y,
{
    let k = 3 * (y * w + x) + c;
    assert(y * w + x < w * h) by (nonlinear_arith)
        requires 0 <= x < w, 0 <= y < h;
    assert(3 * w * h == 3 * (w * h)) by (nonlinear_arith);
    vstd::arithmetic::div_mod::lemma_fundamental_div_mod_converse(k, 3, y * w + x, c);
    assert(y * w + x >= 0) by (nonlinear_arith)
        requires 0 <= x, 0 <= y, w > 0;
    vstd::arithmetic::div_mod::lemma_fundamental_div_mod_converse(y * w + x, w, y, x);
}

} // verus!
