//! The preview of the chosen image, and the progress view that darkens each mosaic tile as
//! its match is found.

use vstd::prelude::*;
use vstd::arithmetic::div_mod::lemma_fundamental_div_mod_converse;
use crate::app::frame_data::{Color, channel_share};
use crate::numeric::{round_div, nearest_double, product_side, quotient_side, ratio_double, shift_up};

verus! {

/// Longest side of the preview.
pub const PREVIEW_IMAGE_MAX_SIZE: u32 = 320;

/// Longest side of the progress view.
pub const PROGRESS_IMAGE_MAX_SIZE: u32 = 640;

/// How much darker a tile with a match is drawn, in percent.
pub const PROGRESS_DARKEN_PERCENTAGE: u8 = 50;

/// An image of `width` x `height` pixels of packed RGBA, row by row.
pub struct RgbaImage {
    pub width: u32,
    pub height: u32,
    pub data: Vec<u8>,
}

impl RgbaImage {
    pub open spec fn wf(&self) -> bool {
        self.data@.len() == 4 * self.width * self.height
    }
}

/// `resize_dimensions`: the size of an image scaled so that its longer side (its height when
/// the sides are equal) is `max_length`. The other side is computed in doubles, as the
/// nearest double to `width / height` (`ratio`), then `max_length / ratio` or
/// `max_length * ratio` rounded to the nearest double, then to the nearest integer with
/// halves up. A ratio that is infinite or undefined gives a zero side.
pub open spec fn fitted_dimensions(width: nat, height: nat, max_length: nat) -> (nat, nat) {
    if width > height {
        if height == 0 {
            (max_length, 0)
        } else {
            let ratio = nearest_double(width, height);
            let q = nearest_double(max_length * ratio.1, ratio.0);
            (max_length, round_div(q.0 as int, q.1 as int) as nat)
        }
    } else if width == 0 {
        (0, max_length)
    } else {
        let ratio = nearest_double(width, height);
        let p = nearest_double(max_length * ratio.0, ratio.1);
        (round_div(p.0 as int, p.1 as int) as nat, max_length)
    }
}

/// The size of a `width` x `height` image scaled so that its longer side is
/// `max_dimension_length`; neither side is longer.
pub fn resize_dimensions(width: u32, height: u32, max_dimension_length: u32) -> (r: (u32, u32))
    ensures
        (r.0 as nat, r.1 as nat) == fitted_dimensions(width as nat, height as nat, max_dimension_length as nat),
        r.0 <= max_dimension_length,
        r.1 <= max_dimension_length,
{
    let m = max_dimension_length as u128;
    if width > height {
        if height == 0 {
            return (max_dimension_length, 0);
        }
        let (ratio_m, ratio_s) = ratio_double(width, height);
        if m == 0 {
            proof {
                assert((0 * ratio_s) as nat == 0);
                assert(nearest_double(0, ratio_m as nat) == (0nat, 1nat));
                assert(round_div(0, 1) == 0);
            }
            return (0, 0);
        }
        proof {
            assert(m * ratio_s <= m * ratio_m) by (nonlinear_arith)
                requires ratio_s <= ratio_m, m >= 0;
        }
        let h = quotient_side(m, ratio_m, ratio_s, m);
        (max_dimension_length, h as u32)
    } else if width == 0 {
        (0, max_dimension_length)
    } else {
        let (ratio_m, ratio_s) = ratio_double(width, height);
        if m == 0 {
            proof {
                assert((0 * ratio_m) as nat == 0);
                assert(nearest_double(0, ratio_s as nat) == (0nat, 1nat));
                assert(round_div(0, 1) == 0);
            }
            return (0, 0);
        }
        proof {
            assert(m * ratio_m <= m * ratio_s) by (nonlinear_arith)
                requires ratio_m <= ratio_s, m >= 0;
        }
        let w = product_side(m, ratio_m, ratio_s, Ghost(shift_up(width as nat, height as nat)), m);
        (w as u32, max_dimension_length)
    }
}

/// The size that `DynamicImage::resize` (image crate) gives a `width` x `height` image asked
/// to fit in `nwidth` x `nheight`: the same size when that is asked for; else, with the ratios
/// `nwidth / width` and `nheight / height` as the nearest doubles, the smaller of the two
/// scales each side, each product rounded to the nearest double, then to the nearest integer
/// with halves up, and at least one.
pub open spec fn scaled_to_fit(width: nat, height: nat, nwidth: nat, nheight: nat) -> (nat, nat) {
    if nwidth == width && nheight == height {
        (width, height)
    } else {
        let a = nearest_double(nwidth, width);
        let b = nearest_double(nheight, height);
        let ratio = if b.0 * a.1 < a.0 * b.1 { b } else { a };
        let x = nearest_double(width * ratio.0, ratio.1);
        let y = nearest_double(height * ratio.0, ratio.1);
        let w = round_div(x.0 as int, x.1 as int);
        let h = round_div(y.0 as int, y.1 as int);
        ((if w >= 1 { w } else { 1 }) as nat, (if h >= 1 { h } else { 1 }) as nat)
    }
}

/// `DynamicImage::resize` (image crate) with `FilterType::Lanczos3` on an RGBA image: the
/// image scaled, keeping its shape, to the largest size that fits in `nwidth` x `nheight`,
/// packed RGBA. Its size is computed in `image::math::utils::resize_dimensions` with plain
/// double arithmetic (`scaled_to_fit`, for an image with pixels); asked for its own size it
/// returns a copy. Other pixels are not stated: the Lanczos kernel calls `sin`, whose
/// precision the standard library leaves to the platform.
#[verifier::external_body]
fn resize_to_fit(image: &RgbaImage, nwidth: u32, nheight: u32) -> (r: RgbaImage)
    requires
        image.wf(),
        4 * (image.width * (nheight + 1)) <= usize::MAX,
        4 * ((nwidth + 1) * (nheight + 1)) <= usize::MAX,
        nwidth <= 0xffff,
        nheight <= 0xffff,
    ensures
        r.wf(),
        r.width <= nwidth || r.width == 1,
        r.height <= nheight || r.height == 1,
        image.width > 0 && image.height > 0 ==> (r.width as nat, r.height as nat) == scaled_to_fit(
            image.width as nat,
            image.height as nat,
            nwidth as nat,
            nheight as nat,
        ),
        nwidth == image.width && nheight == image.height ==> r.width == image.width && r.height == image.height
            && r.data@ == image.data@,
{
    let source = image::RgbaImage::from_raw(image.width, image.height, image.data.clone()).unwrap();
    let resized = image::DynamicImage::ImageRgba8(source).resize(nwidth, nheight, image::imageops::FilterType::Lanczos3);
    let resized = resized.into_rgba8();
    RgbaImage { width: resized.width(), height: resized.height(), data: resized.into_raw() }
}

/// The pixel rectangle `[left, right) x [top, bottom)` that tile `(tile_x, tile_y)` of a
/// `tiles_x` x `tiles_y` grid covers in a `width` x `height` image: each edge rounded to the
/// nearest pixel with halves up, and kept within the image.
pub open spec fn tile_bounds(width: nat, height: nat, tiles_x: nat, tiles_y: nat, tile_x: nat, tile_y: nat) -> (nat, nat, nat, nat) {
    let left = round_div((width * tile_x) as int, tiles_x as int);
    let right = round_div((width * (tile_x + 1)) as int, tiles_x as int);
    let top = round_div((height * tile_y) as int, tiles_y as int);
    let bottom = round_div((height * (tile_y + 1)) as int, tiles_y as int);
    (
        left as nat,
        if right <= width { right as nat } else { width },
        top as nat,
        if bottom <= height { bottom as nat } else { height },
    )
}

/// The RGBA image `p` (`w` pixels wide) with the colour channels of the pixels in
/// `[left, right) x [top, bottom)` darkened by `percentage` percent; alpha is kept.
pub open spec fn darkened_region(p: Seq<u8>, w: nat, left: nat, right: nat, top: nat, bottom: nat, percentage: u8) -> Seq<u8> {
    Seq::new(
        p.len(),
        |k: int|
            {
                let x = (k / 4) % (w as int);
                let y = (k / 4) / (w as int);
                if left <= x < right && top <= y < bottom && k % 4 < 3 {
                    (p[k] - channel_share(p[k], percentage)) as u8
                } else {
                    p[k]
                }
            },
    )
}

/// The preview of an image, and once the mosaic's grid is known, the progress view.
pub struct PreviewImage {
    image: RgbaImage,
    progress_image: Option<RgbaImage>,
    mosaic_tiles_x: u32,
    mosaic_tiles_y: u32,
}

impl PreviewImage {
    pub closed spec fn preview(&self) -> RgbaImage {
        self.image
    }

    pub closed spec fn progress(&self) -> Option<RgbaImage> {
        self.progress_image
    }

    pub closed spec fn grid(&self) -> (u32, u32) {
        (self.mosaic_tiles_x, self.mosaic_tiles_y)
    }

    #[verifier::type_invariant]
    closed spec fn wf(&self) -> bool {
        &&& self.image.wf()
        &&& self.image.width <= PREVIEW_IMAGE_MAX_SIZE
        &&& self.image.height <= PREVIEW_IMAGE_MAX_SIZE
        &&& (self.progress_image matches Some(p) ==> p.wf() && p.width <= PROGRESS_IMAGE_MAX_SIZE
            && p.height <= PROGRESS_IMAGE_MAX_SIZE)
    }

    /// The preview of `image`: scaled so that its longer side is 320 pixels.
    pub fn from_image(image: RgbaImage) -> (r: PreviewImage)
        requires
            image.wf(),
            4 * (image.width * (PREVIEW_IMAGE_MAX_SIZE + 1)) <= usize::MAX,
        ensures
            r.progress() is None,
            r.grid() == (0u32, 0u32),
            ({
                let (w, h) = fitted_dimensions(image.width as nat, image.height as nat, PREVIEW_IMAGE_MAX_SIZE as nat);
                &&& r.preview().width <= w || r.preview().width == 1
                &&& r.preview().height <= h || r.preview().height == 1
                &&& image.width > 0 && image.height > 0 ==> (r.preview().width as nat, r.preview().height as nat)
                    == scaled_to_fit(image.width as nat, image.height as nat, w, h)
                &&& w == image.width && h == image.height ==> r.preview().data@ == image.data@
            }),
    {
        let (resize_width, resize_height) = resize_dimensions(image.width, image.height, PREVIEW_IMAGE_MAX_SIZE);
        proof {
            assert(4 * (image.width * (resize_height + 1)) <= 4 * (image.width * (PREVIEW_IMAGE_MAX_SIZE + 1))) by (nonlinear_arith)
                requires resize_height <= PREVIEW_IMAGE_MAX_SIZE;
            assert(4 * ((resize_width + 1) * (resize_height + 1)) <= 4 * 321 * 321) by (nonlinear_arith)
                requires resize_height <= 320, resize_width <= 320;
        }
        let image = resize_to_fit(&image, resize_width, resize_height);
        PreviewImage { image, progress_image: None, mosaic_tiles_x: 0, mosaic_tiles_y: 0 }
    }

    /// Makes the progress view for a `mosaic_tiles_x` x `mosaic_tiles_y` mosaic: the preview
    /// scaled so that its longer side is 640 pixels.
    pub fn generate_progress_image(&mut self, mosaic_tiles_x: u32, mosaic_tiles_y: u32)
        ensures
            final(self).preview() == old(self).preview(),
            final(self).grid() == (mosaic_tiles_x, mosaic_tiles_y),
            ({
                let p = old(self).preview();
                let (w, h) = fitted_dimensions(p.width as nat, p.height as nat, PROGRESS_IMAGE_MAX_SIZE as nat);
                final(self).progress() matches Some(q) && (q.width <= w || q.width == 1) && (q.height <= h || q.height == 1)
                    && (p.width > 0 && p.height > 0 ==> (q.width as nat, q.height as nat) == scaled_to_fit(
                    p.width as nat,
                    p.height as nat,
                    w,
                    h,
                )) && (w == p.width && h == p.height ==> q.data@ == p.data@)
            }),
    {
        proof {
            use_type_invariant(&*self);
        }
        self.mosaic_tiles_x = mosaic_tiles_x;
        self.mosaic_tiles_y = mosaic_tiles_y;
        let (resize_width, resize_height) = resize_dimensions(self.image.width, self.image.height, PROGRESS_IMAGE_MAX_SIZE);
        proof {
            assert(4 * (self.image.width * (resize_height + 1)) <= 4 * 320 * 641) by (nonlinear_arith)
                requires resize_height <= 640, self.image.width <= 320;
            assert(4 * ((resize_width + 1) * (resize_height + 1)) <= 4 * 641 * 641) by (nonlinear_arith)
                requires resize_height <= 640, resize_width <= 640;
        }
        let progress_image = resize_to_fit(&self.image, resize_width, resize_height);
        self.progress_image = Some(progress_image);
    }

    /// Darkens tile `(tile_x, tile_y)` of the mosaic's grid in the progress view, if there is
    /// one and the grid has tiles.
    pub fn add_progress_tile(&mut self, tile_x: u32, tile_y: u32)
        ensures
            final(self).preview() == old(self).preview(),
            final(self).grid() == old(self).grid(),
            match old(self).progress() {
                None => final(self).progress() is None,
                Some(p) => final(self).progress() matches Some(q) && q.width == p.width && q.height == p.height && if old(
                    self,
                ).grid().0 == 0 || old(self).grid().1 == 0 {
                    q.data@ == p.data@
                } else {
                    let (l, r, t, b) = tile_bounds(
                        p.width as nat,
                        p.height as nat,
                        old(self).grid().0 as nat,
                        old(self).grid().1 as nat,
                        tile_x as nat,
                        tile_y as nat,
                    );
                    q.data@ == darkened_region(p.data@, p.width as nat, l, r, t, b, PROGRESS_DARKEN_PERCENTAGE)
                },
            },
    {
        proof {
            use_type_invariant(&*self);
        }
        let tiles_x = self.mosaic_tiles_x;
        let tiles_y = self.mosaic_tiles_y;
        if tiles_x == 0 || tiles_y == 0 {
            return;
        }
        let mut current: Option<RgbaImage> = None;
        std::mem::swap(&mut current, &mut self.progress_image);
        match current {
            None => {},
            Some(mut progress) => {
                darken_tile(&mut progress, tiles_x, tiles_y, tile_x, tile_y);
                self.progress_image = Some(progress);
            },
        }
    }

    /// The preview.
    pub fn image(&self) -> (r: &RgbaImage)
        ensures
            *r == self.preview(),
    {
        &self.image
    }

    /// The progress view, once it was made.
    pub fn progress_image(&self) -> (r: Option<&RgbaImage>)
        ensures
            match self.progress() {
                Some(p) => r matches Some(q) && *q == p,
                None => r is None,
            },
    {
        match &self.progress_image {
            Some(image) => Some(image),
            None => None,
        }
    }
}

fn rounded_edge(length: u64, index: u64, count: u64) -> (r: u64)
    requires
        0 < count <= u32::MAX,
        length <= PROGRESS_IMAGE_MAX_SIZE,
        index <= u32::MAX as u64 + 1,
    ensures
        r == round_div((length * index) as int, count as int),
{
    proof {
        assert(length * index <= 640 * 0x1_0000_0000) by (nonlinear_arith)
            requires length <= 640, index <= 0x1_0000_0000;
    }
    (2 * (length * index) + count) / (2 * count)
}

/// Darkens the colour channels of the pixels of one tile of a `tiles_x` x `tiles_y` grid.
fn darken_tile(image: &mut RgbaImage, tiles_x: u32, tiles_y: u32, tile_x: u32, tile_y: u32)
    requires
        old(image).wf(),
        old(image).width <= PROGRESS_IMAGE_MAX_SIZE,
        old(image).height <= PROGRESS_IMAGE_MAX_SIZE,
        tiles_x > 0,
        tiles_y > 0,
    ensures
        final(image).width == old(image).width,
        final(image).height == old(image).height,
        ({
            let (l, r, t, b) = tile_bounds(
                old(image).width as nat,
                old(image).height as nat,
                tiles_x as nat,
                tiles_y as nat,
                tile_x as nat,
                tile_y as nat,
            );
            final(image).data@ == darkened_region(old(image).data@, old(image).width as nat, l, r, t, b, PROGRESS_DARKEN_PERCENTAGE)
        }),
{
    let w = image.width as u64;
    let h = image.height as u64;
    let left = rounded_edge(w, tile_x as u64, tiles_x as u64);
    let right_edge = rounded_edge(w, tile_x as u64 + 1, tiles_x as u64);
    let right = if right_edge <= w { right_edge } else { w };
    let top = rounded_edge(h, tile_y as u64, tiles_y as u64);
    let bottom_edge = rounded_edge(h, tile_y as u64 + 1, tiles_y as u64);
    let bottom = if bottom_edge <= h { bottom_edge } else { h };
    let ghost orig = image.data@;
    let ghost target = darkened_region(orig, w as nat, left as nat, right as nat, top as nat, bottom as nat, PROGRESS_DARKEN_PERCENTAGE);
    let mut y = top;
    while y < bottom
        invariant
            image.width == w,
            image.height == h,
            w <= PROGRESS_IMAGE_MAX_SIZE,
            h <= PROGRESS_IMAGE_MAX_SIZE,
            right <= w,
            bottom <= h,
            top <= y,
            image.data@.len() == orig.len(),
            orig.len() == 4 * w * h,
            target == darkened_region(orig, w as nat, left as nat, right as nat, top as nat, bottom as nat, PROGRESS_DARKEN_PERCENTAGE),
            forall|k: int|
                0 <= k < orig.len() ==> #[trigger] image.data@[k] == (if (k / 4) / (w as int) < y { target[k] } else { orig[k] }),
        decreases bottom - y,
    {
        let mut x = left;
        while x < right
            invariant
                image.width == w,
                image.height == h,
                w <= PROGRESS_IMAGE_MAX_SIZE,
                h <= PROGRESS_IMAGE_MAX_SIZE,
                right <= w,
                bottom <= h,
                top <= y < bottom,
                left <= x,
                image.data@.len() == orig.len(),
                orig.len() == 4 * w * h,
                target == darkened_region(orig, w as nat, left as nat, right as nat, top as nat, bottom as nat, PROGRESS_DARKEN_PERCENTAGE),
                forall|k: int|
                    0 <= k < orig.len() ==> #[trigger] image.data@[k] == (if (k / 4) / (w as int) < y || ((k / 4) / (w as int) == y
                        && (k / 4) % (w as int) < x) { target[k] } else { orig[k] }),
            decreases right - x,
        {
            proof {
                assert(y * w + x < h * w) by (nonlinear_arith)
                    requires y < h, x < w;
                assert(h * w <= 640 * 640) by (nonlinear_arith)
                    requires h <= 640, w <= 640;
                assert(4 * w * h == 4 * (h * w)) by (nonlinear_arith);
                lemma_fundamental_div_mod_converse((y * w + x) as int, w as int, y as int, x as int);
            }
            let pixel = (y * w + x) as usize;
            let base = 4 * pixel;
            let c = Color { r: image.data[base], g: image.data[base + 1], b: image.data[base + 2] }.darken(PROGRESS_DARKEN_PERCENTAGE);
            let ghost before = image.data@;
            image.data.set(base, c.r);
            image.data.set(base + 1, c.g);
            image.data.set(base + 2, c.b);
            proof {
                assert forall|k: int| 0 <= k < orig.len() implies #[trigger] image.data@[k] == (if (k / 4) / (w as int) < y
                    || ((k / 4) / (w as int) == y && (k / 4) % (w as int) < x + 1) { target[k] } else { orig[k] }) by {
                    if base <= k < base + 4 {
                        lemma_fundamental_div_mod_converse(k, 4, pixel as int, k - base);
                        assert(before[k] == orig[k]);
                    } else {
                        assert(image.data@[k] == before[k]);
                        assert(k / 4 != pixel);
                        lemma_other_pixel(k / 4, w as int, x as int, y as int);
                    }
                }
            }
            x += 1;
        }
        proof {
            assert forall|k: int| 0 <= k < orig.len() implies #[trigger] image.data@[k] == (if (k / 4) / (w as int) < y + 1
                { target[k] } else { orig[k] }) by {
                if (k / 4) / (w as int) == y && (k / 4) % (w as int) >= x {
                    assert(target[k] == orig[k]);
                }
            }
        }
        y += 1;
    }
    proof {
        assert forall|k: int| 0 <= k < orig.len() implies #[trigger] image.data@[k] == target[k] by {
            if (k / 4) / (w as int) >= y {
                assert(!(top <= (k / 4) / (w as int) < bottom));
            }
        }
        assert(image.data@ =~= target);
    }
}


/// A pixel index other than `y * w + x` is not at column `x` of row `y`.
proof fn lemma_other_pixel(q: int, w: int, x: int, y: int)
    requires
        0 <= x < w,
        q >= 0,
        q != y * w + x,
    ensures
        !(q / w == y && q % w == x),
{
    vstd::arithmetic::div_mod::lemma_fundamental_div_mod(q, w);
    assert(w * (q / w) == (q / w) * w) by (nonlinear_arith);
}


} // verus!
