//! Packed RGB images and the image-crate operations applied to them.

use vstd::prelude::*;
use crate::numeric::min_int;

verus! {

/// An image of `width` x `height` pixels of packed RGB, row by row.
pub struct TileImage {
    pub width: u32,
    pub height: u32,
    pub data: Vec<u8>,
}

impl TileImage {
    pub open spec fn wf(&self) -> bool {
        self.data@.len() == 3 * self.width * self.height
    }
}

/// The resampling filters the mosaic uses.
#[derive(Clone, Copy, Debug, PartialEq, Eq, Structural)]
pub enum ResizeFilter {
    Triangle,
    CatmullRom,
    Lanczos3,
}

/// What `image::imageops::resize` with the triangle filter makes of a packed RGB image. That
/// filter's weights use no transcendental function, so its pixels depend on the arguments
/// alone.
pub uninterp spec fn triangle_resized(data: Seq<u8>, width: u32, height: u32, new_width: u32, new_height: u32) -> Seq<u8>;

/// `image::imageops::resize` (image crate) on an `RgbImage` built by `RgbImage::from_raw`:
/// a `new_width` x `new_height` RGB image. With the triangle filter its bytes depend on the
/// arguments alone (named, not stated here); the Catmull-Rom and Lanczos kernels call `powi`
/// and `sin`, whose precision the standard library leaves to the platform, so of those only
/// the size is stated, and that an image asked for its own size comes back as a copy.
#[verifier::external_body]
pub(crate) fn resize_rgb(data: &Vec<u8>, width: u32, height: u32, new_width: u32, new_height: u32, filter: ResizeFilter) -> (r: Vec<u8>)
    requires
        data@.len() == 3 * width * height,
        4 * (width * new_height) <= usize::MAX,
        3 * (new_width * new_height) <= usize::MAX,
    ensures
        filter == ResizeFilter::Triangle ==> r@ == triangle_resized(data@, width, height, new_width, new_height),
        r@.len() == 3 * new_width * new_height,
        new_width == width && new_height == height ==> r@ == data@,
{
    let filter = match filter {
        ResizeFilter::Triangle => image::imageops::FilterType::Triangle,
        ResizeFilter::CatmullRom => image::imageops::FilterType::CatmullRom,
        ResizeFilter::Lanczos3 => image::imageops::FilterType::Lanczos3,
    };
    let image = image::RgbImage::from_raw(width, height, data.clone()).unwrap();
    image::imageops::resize(&image, new_width, new_height, filter).into_raw()
}

/// The region that a crop at `(x, y)` of `width` x `height` keeps of a `w` x `h` image: its
/// corner moved into the image and its size cut at the image's edges.
pub open spec fn clamped_region(w: int, h: int, x: int, y: int, width: int, height: int) -> (int, int, int, int) {
    let x2 = min_int(x, w);
    let y2 = min_int(y, h);
    (x2, y2, min_int(width, w - x2), min_int(height, h - y2))
}

/// The `cw` x `ch` pixels of `p` (`w` pixels wide) whose top left corner is `(x, y)`.
pub open spec fn sub_image(p: Seq<u8>, w: int, x: int, y: int, cw: int, ch: int) -> Seq<u8> {
    Seq::new((3 * cw * ch) as nat, |k: int| p[3 * ((y + (k / 3) / cw) * w + x + (k / 3) % cw) + k % 3])
}

/// `image::imageops::crop_imm(..).to_image()` (image crate) on an RGB image: as its
/// documentation and source show, the corner and size are clamped to the image, and the
/// result holds the pixels of that region, row by row.
#[verifier::external_body]
pub(crate) fn crop_image(image: &TileImage, x: u32, y: u32, width: u32, height: u32) -> (r: TileImage)
    requires
        image.wf(),
    ensures
        r.wf(),
        r.width == clamped_region(image.width as int, image.height as int, x as int, y as int, width as int, height as int).2,
        r.height == clamped_region(image.width as int, image.height as int, x as int, y as int, width as int, height as int).3,
        r.data@ == sub_image(
            image.data@,
            image.width as int,
            clamped_region(image.width as int, image.height as int, x as int, y as int, width as int, height as int).0,
            clamped_region(image.width as int, image.height as int, x as int, y as int, width as int, height as int).1,
            r.width as int,
            r.height as int,
        ),
{
    let source = image::RgbImage::from_raw(image.width, image.height, image.data.clone()).unwrap();
    let cropped = image::imageops::crop_imm(&source, x, y, width, height).to_image();
    TileImage { width: cropped.width(), height: cropped.height(), data: cropped.into_raw() }
}

/// The image `p` (`w` x `h`) mirrored left to right.
pub open spec fn mirrored(p: Seq<u8>, w: int) -> Seq<u8> {
    Seq::new(p.len(), |k: int| p[3 * (((k / 3) / w) * w + (w - 1 - (k / 3) % w)) + k % 3])
}

/// `image::imageops::flip_horizontal_in_place` (image crate) on an RGB image: as its source
/// shows, pixel `(x, y)` takes the place of pixel `(w - 1 - x, y)`.
#[verifier::external_body]
pub(crate) fn flip_horizontal(image: &mut TileImage)
    requires
        old(image).wf(),
    ensures
        final(image).wf(),
        final(image).width == old(image).width,
        final(image).height == old(image).height,
        final(image).data@ == mirrored(old(image).data@, old(image).width as int),
{
    let mut buffer = image::RgbImage::from_raw(image.width, image.height, std::mem::take(&mut image.data)).unwrap();
    image::imageops::flip_horizontal_in_place(&mut buffer);
    image.data = buffer.into_raw();
}

/// The image `canvas` (`cw` pixels wide) with the `tw` x `th` image `tile` put over it, its
/// top left corner at `(x, y)`.
pub open spec fn placed(canvas: Seq<u8>, cw: int, tile: Seq<u8>, tw: int, th: int, x: int, y: int) -> Seq<u8> {
    Seq::new(
        canvas.len(),
        |k: int|
            {
                let px = (k / 3) % cw;
                let py = (k / 3) / cw;
                if x <= px < x + tw && y <= py < y + th {
                    tile[3 * ((py - y) * tw + (px - x)) + k % 3]
                } else {
                    canvas[k]
                }
            },
    )
}

/// `GenericImage::copy_from` (image crate) between RGB images: as its source shows, when the
/// tile fits, pixel `(i, j)` of the tile is written to `(x + i, y + j)` and the rest of the
/// canvas is kept.
#[verifier::external_body]
pub(crate) fn copy_into(canvas: &mut TileImage, tile: &TileImage, x: u32, y: u32)
    requires
        old(canvas).wf(),
        tile.wf(),
        x + tile.width <= old(canvas).width,
        y + tile.height <= old(canvas).height,
    ensures
        final(canvas).wf(),
        final(canvas).width == old(canvas).width,
        final(canvas).height == old(canvas).height,
        final(canvas).data@ == placed(
            old(canvas).data@,
            old(canvas).width as int,
            tile.data@,
            tile.width as int,
            tile.height as int,
            x as int,
            y as int,
        ),
{
    let mut target = image::RgbImage::from_raw(canvas.width, canvas.height, std::mem::take(&mut canvas.data)).unwrap();
    let source = image::RgbImage::from_raw(tile.width, tile.height, tile.data.clone()).unwrap();
    image::GenericImage::copy_from(&mut target, &source, x, y).unwrap();
    canvas.data = target.into_raw();
}

} // verus!
