//! An image that can be turned into a mosaic, with the tile grids offered for it.

use vstd::prelude::*;
use std::sync::Arc;
use crate::app::mosaic_tiling_option::{accepted_grids, is_option_for, same_layout, MosaicTilingOption};
use crate::app::tile_shape::{TileShape, aspect_of};
use crate::color_matcher::{FrameMatch, ImageTile};

use crate::images::PreviewImage;

verus! {

/// Image formats that can be turned into mosaics.
#[derive(PartialEq, Eq, Structural, Clone, Copy, Debug)]
pub enum ImageType {
    BMP,
    JPEG,
    PNG,
    WEBP,
    TIFF,
}

/// At most this many grids are offered per tile shape when there are many.
pub const MAX_CANDIDATES: usize = 20;

/// Cropping allowed for an offered grid: 0.9% (in thousandths of a percent).
pub const MAX_OFFERED_CROP_THOUSANDTHS: u32 = 900;

pub struct ImageFile {
    pub file_name: String,
    pub full_path: String,
    pub width: u32,
    pub height: u32,
    pub format: ImageType,
    pub preview: Option<PreviewImage>,
    pub is_chosen: bool,
    pub image_tiles: Option<Arc<Vec<ImageTile>>>,
    pub matched_tiles: Option<Vec<FrameMatch>>,
    pub tiling_options: Vec<(TileShape, Vec<MosaicTilingOption>)>,
    pub selected_tiling_option_index: usize,
}

/// The image has exactly the proportions of the tile shape.
pub open spec fn has_shape_proportions(w: int, h: int, shape: TileShape) -> bool {
    h > 0 && w * aspect_of(shape).1 == h * aspect_of(shape).0
}

/// Indices `0..n`.
pub open spec fn all_indices(n: int) -> Seq<int> {
    Seq::new(n as nat, |i: int| i)
}

/// Indices among the first `i` of the grids that are 1 or a multiple of 5 tiles across.
pub open spec fn round_grid_indices(c: Seq<MosaicTilingOption>, i: int) -> Seq<int>
    decreases i,
{
    if i <= 0 {
        Seq::empty()
    } else {
        let prev = round_grid_indices(c, i - 1);
        if c[i - 1].num_tiles_x == 1 || c[i - 1].num_tiles_x % 5 == 0 { prev.push(i - 1) } else { prev }
    }
}

/// Indices among the first `i` that are multiples of `skip`.
pub open spec fn every_nth_index(skip: int, i: int) -> Seq<int>
    decreases i,
{
    if i <= 0 {
        Seq::empty()
    } else {
        let prev = every_nth_index(skip, i - 1);
        if (i - 1) % skip == 0 { prev.push(i - 1) } else { prev }
    }
}

/// Of the grids at `j - 1`, `j` and (when there is one) `j + 1`, the first with the least cropping.
pub open spec fn least_cropped_near(c: Seq<MosaicTilingOption>, j: int) -> int {
    let best = if c[j].crop_key() < c[j - 1].crop_key() { j } else { j - 1 };
    if j + 1 < c.len() && c[j + 1].crop_key() < c[best].crop_key() { j + 1 } else { best }
}

/// Some index in `picked` names a grid with the same tile counts as grid `m`.
pub open spec fn has_grid(c: Seq<MosaicTilingOption>, picked: Seq<int>, m: int) -> bool {
    exists|k: int| 0 <= k < picked.len() && c[#[trigger] picked[k]].num_tiles_x == c[m].num_tiles_x
        && c[picked[k]].num_tiles_y == c[m].num_tiles_y
}

/// Indices among the first `i` picked when grids are cropped: the first grid, then at every
/// `skip`-th grid the least cropped of it and its neighbours, or the grid itself when that one
/// was already picked.
pub open spec fn least_cropped_indices(c: Seq<MosaicTilingOption>, skip: int, i: int) -> Seq<int>
    decreases i,
{
    if i <= 0 {
        Seq::empty()
    } else {
        let prev = least_cropped_indices(c, skip, i - 1);
        let j = i - 1;
        if j == 0 {
            prev.push(0)
        } else if j % skip == 0 {
            let m = least_cropped_near(c, j);
            if has_grid(c, prev, m) { prev.push(j) } else { prev.push(m) }
        } else {
            prev
        }
    }
}

/// Which of the candidate grids are offered for a `w` x `h` image, by index: all of them when
/// there are fewer than 20; when the image has the tile shape's proportions or there are
/// exactly 80 candidates (the square grids of such an image), those 1 or a multiple of 5
/// tiles across; otherwise about 20 spread evenly over the list.
pub open spec fn offered_indices(c: Seq<MosaicTilingOption>, w: int, h: int, shape: TileShape) -> Seq<int> {
    let n = c.len() as int;
    if n < 20 {
        all_indices(n)
    } else if has_shape_proportions(w, h, shape) || n == 80 {
        round_grid_indices(c, n)
    } else {
        let skip = (n + 10) / 20;
        if forall|k: int| 0 <= k < n ==> (#[trigger] c[k]).cropped_pixels == 0 {
            every_nth_index(skip, n)
        } else {
            least_cropped_indices(c, skip, n)
        }
    }
}

/// `v` holds fresh copies of the candidates at `idx`, in order.
pub open spec fn copies_of(v: Seq<MosaicTilingOption>, c: Seq<MosaicTilingOption>, idx: Seq<int>) -> bool {
    &&& v.len() == idx.len()
    &&& forall|k: int| 0 <= k < idx.len() ==> 0 <= #[trigger] idx[k] < c.len()
    &&& forall|k: int| 0 <= k < v.len() ==> same_layout(#[trigger] v[k], c[idx[k]])
}

fn crop_key_of(o: &MosaicTilingOption) -> (k: u128)
    ensures
        k == o.crop_key(),
{
    if o.image_pixels == 0 {
        0
    } else {
        ((o.cropped_pixels as u128) * 100000 + (o.image_pixels as u128) / 2) / (o.image_pixels as u128)
    }
}

fn picked_has_grid(c: &Vec<MosaicTilingOption>, picked: &Vec<usize>, m: usize) -> (b: bool)
    requires
        m < c@.len(),
        forall|k: int| 0 <= k < picked@.len() ==> #[trigger] picked@[k] < c@.len(),
    ensures
        b == has_grid(c@, picked@.map_values(|p: usize| p as int), m as int),
{
    let ghost pi = picked@.map_values(|p: usize| p as int);
    let mut k: usize = 0;
    while k < picked.len()
        invariant
            k <= picked@.len(),
            m < c@.len(),
            pi == picked@.map_values(|p: usize| p as int),
            forall|q: int| 0 <= q < picked@.len() ==> #[trigger] picked@[q] < c@.len(),
            forall|q: int| 0 <= q < k ==> !(c@[#[trigger] pi[q]].num_tiles_x == c@[m as int].num_tiles_x
                && c@[pi[q]].num_tiles_y == c@[m as int].num_tiles_y),
        decreases picked@.len() - k,
    {
        let p = picked[k];
        if c[p].num_tiles_x == c[m].num_tiles_x && c[p].num_tiles_y == c[m].num_tiles_y {
            assert(c@[pi[k as int]].num_tiles_x == c@[m as int].num_tiles_x);
            return true;
        }
        k += 1;
    }
    false
}

impl ImageFile {
    /// An image not chosen yet, offered the grids of each tile shape that crop it by at most 0.9%.
    pub fn new(file_name: String, full_path: String, width: u32, height: u32, format: ImageType) -> (f: ImageFile)
        ensures
            f.file_name@ == file_name@,
            f.full_path@ == full_path@,
            f.width == width,
            f.height == height,
            f.format == format,
            f.preview is None,
            !f.is_chosen,
            f.image_tiles is None,
            f.matched_tiles is None,
            f.selected_tiling_option_index == 0,
            f.tiling_options@.len() == 3,
            f.tiling_options@[0].0 == TileShape::Landscape16x9,
            f.tiling_options@[1].0 == TileShape::Square,
            f.tiling_options@[2].0 == TileShape::Portrait9x16,
            forall|s: int| 0 <= s < 3 ==> #[trigger] offers_grids(f.tiling_options@[s].1@, width as int, height as int, f.tiling_options@[s].0),
    {
        let shapes = [TileShape::Landscape16x9, TileShape::Square, TileShape::Portrait9x16];
        let mut tiling_options: Vec<(TileShape, Vec<MosaicTilingOption>)> = Vec::new();
        let mut s: usize = 0;
        while s < 3
            invariant
                s <= 3,
                shapes@ == seq![TileShape::Landscape16x9, TileShape::Square, TileShape::Portrait9x16],
                tiling_options@.len() == s,
                forall|t: int| 0 <= t < s ==> (#[trigger] tiling_options@[t]).0 == shapes@[t],
                forall|t: int| 0 <= t < s ==> #[trigger] offers_grids(tiling_options@[t].1@, width as int, height as int, tiling_options@[t].0),
            decreases 3 - s,
        {
            let tile_shape = shapes[s];
            let candidates = MosaicTilingOption::tiling_candidates(width, height, MAX_OFFERED_CROP_THOUSANDTHS, &tile_shape);
            let narrowed = Self::narrow_down_candidates(&candidates, width, height, &tile_shape);
            tiling_options.push((tile_shape, narrowed));
            s += 1;
        }
        ImageFile {
            file_name,
            full_path,
            width,
            height,
            format,
            preview: None,
            is_chosen: false,
            image_tiles: None,
            matched_tiles: None,
            tiling_options,
            selected_tiling_option_index: 0,
        }
    }

    pub fn is_landscape(&self) -> (b: bool)
        ensures
            b == (self.width > self.height),
    {
        self.width > self.height
    }

    /// The grids offered for the tile shape.
    pub fn tiling_options_for(&self, shape: TileShape) -> (r: Option<&Vec<MosaicTilingOption>>)
        ensures
            r matches Some(v) ==> exists|s: int| 0 <= s < self.tiling_options@.len() && self.tiling_options@[s].0 == shape
                && self.tiling_options@[s].1 == *v,
            r is None ==> forall|s: int| 0 <= s < self.tiling_options@.len() ==> self.tiling_options@[s].0 != shape,
    {
        let mut s: usize = 0;
        while s < self.tiling_options.len()
            invariant
                s <= self.tiling_options@.len(),
                forall|t: int| 0 <= t < s ==> self.tiling_options@[t].0 != shape,
            decreases self.tiling_options@.len() - s,
        {
            if self.tiling_options[s].0 == shape {
                return Some(&self.tiling_options[s].1);
            }
            s += 1;
        }
        None
    }

    /// The candidates offered to the user: see [`offered_indices`].
    pub fn narrow_down_candidates(candidates: &Vec<MosaicTilingOption>, image_width: u32, image_height: u32, tile_shape: &TileShape) -> (v: Vec<MosaicTilingOption>)
        ensures
            copies_of(v@, candidates@, offered_indices(candidates@, image_width as int, image_height as int, *tile_shape)),
    {
        let ghost c = candidates@;
        let ghost w = image_width as int;
        let ghost h = image_height as int;
        let ghost idx = offered_indices(c, w, h, *tile_shape);
        let total_candidates = candidates.len();
        let mut narrowed: Vec<MosaicTilingOption> = Vec::new();

        if total_candidates < MAX_CANDIDATES {
            let mut i: usize = 0;
            while i < total_candidates
                invariant
                    total_candidates == c.len(),
                    c == candidates@,
                    i <= total_candidates,
                    copies_of(narrowed@, c, all_indices(i as int)),
                decreases total_candidates - i,
            {
                narrowed.push(candidates[i].fresh_copy());
                assert(all_indices(i + 1) == all_indices(i as int).push(i as int));
                i += 1;
            }
            return narrowed;
        }

        let (dx, dy) = tile_shape.aspect_dimensions();
        proof {
            assert((image_width as u64) * (dy as u64) <= 4294967295 * 255 && (image_height as u64) * (dx as u64) <= 4294967295 * 255)
                by (nonlinear_arith) requires image_width <= 4294967295, image_height <= 4294967295, dx <= 255, dy <= 255;
        }
        let same_shape = image_height > 0 && (image_width as u64) * (dy as u64) == (image_height as u64) * (dx as u64);
        let all_tiles_active = total_candidates == 80;

        if same_shape || all_tiles_active {
            let mut i: usize = 0;
            while i < total_candidates
                invariant
                    total_candidates == c.len(),
                    c == candidates@,
                    i <= total_candidates,
                    copies_of(narrowed@, c, round_grid_indices(c, i as int)),
                    forall|k: int| 0 <= k < round_grid_indices(c, i as int).len() ==> #[trigger] round_grid_indices(c, i as int)[k] < i,
                decreases total_candidates - i,
            {
                let x = candidates[i].num_tiles_x;
                if x == 1 || x % 5 == 0 {
                    narrowed.push(candidates[i].fresh_copy());
                }
                i += 1;
            }
            return narrowed;
        }

        let skip_count = (total_candidates - 10) / 20 + 1;

        let mut all_uncropped = true;
        let mut i: usize = 0;
        while i < total_candidates
            invariant
                total_candidates == c.len(),
                c == candidates@,
                i <= total_candidates,
                all_uncropped == forall|k: int| 0 <= k < i ==> (#[trigger] c[k]).cropped_pixels == 0,
            decreases total_candidates - i,
        {
            if candidates[i].cropped_pixels != 0 {
                all_uncropped = false;
            }
            i += 1;
        }

        if all_uncropped {
            let mut i: usize = 0;
            while i < total_candidates
                invariant
                    total_candidates == c.len(),
                    c == candidates@,
                    skip_count >= 1,
                    i <= total_candidates,
                    copies_of(narrowed@, c, every_nth_index(skip_count as int, i as int)),
                    forall|k: int| 0 <= k < every_nth_index(skip_count as int, i as int).len() ==> #[trigger] every_nth_index(skip_count as int, i as int)[k] < i,
                decreases total_candidates - i,
            {
                if i % skip_count == 0 {
                    narrowed.push(candidates[i].fresh_copy());
                }
                i += 1;
            }
            return narrowed;
        }

        let mut picked: Vec<usize> = Vec::new();
        let mut i: usize = 0;
        while i < total_candidates
            invariant
                total_candidates == c.len(),
                total_candidates >= 20,
                c == candidates@,
                skip_count >= 1,
                i <= total_candidates,
                picked@.map_values(|p: usize| p as int) == least_cropped_indices(c, skip_count as int, i as int),
                forall|k: int| 0 <= k < picked@.len() ==> #[trigger] picked@[k] < c.len(),
                copies_of(narrowed@, c, least_cropped_indices(c, skip_count as int, i as int)),
            decreases total_candidates - i,
        {
            let ghost prev = least_cropped_indices(c, skip_count as int, i as int);
            if i == 0 {
                narrowed.push(candidates[0].fresh_copy());
                picked.push(0);
            } else if i % skip_count == 0 {
                let key_prev = crop_key_of(&candidates[i - 1]);
                let key_here = crop_key_of(&candidates[i]);
                let mut best = if key_here < key_prev { i } else { i - 1 };
                if i + 1 < total_candidates {
                    let key_best = crop_key_of(&candidates[best]);
                    let key_next = crop_key_of(&candidates[i + 1]);
                    if key_next < key_best {
                        best = i + 1;
                    }
                }
                assert(best == least_cropped_near(c, i as int));
                if !picked_has_grid(candidates, &picked, best) {
                    narrowed.push(candidates[best].fresh_copy());
                    picked.push(best);
                } else {
                    narrowed.push(candidates[i].fresh_copy());
                    picked.push(i);
                }
            }
            proof {
                assert(picked@.map_values(|p: usize| p as int) == least_cropped_indices(c, skip_count as int, i + 1));
            }
            i += 1;
        }
        narrowed
    }
}

/// The grids offered for a tile shape over a `w` x `h` image: the candidates cropping it by at
/// most 0.9%, narrowed down.
pub open spec fn offers_grids(v: Seq<MosaicTilingOption>, w: int, h: int, shape: TileShape) -> bool {
    exists|c: Seq<MosaicTilingOption>| {
        &&& (w == 0 || h == 0 ==> c.len() == 0)
        &&& (w > 0 && h > 0 ==> {
            let grids = accepted_grids(w, h, shape, 900, 6400);
            &&& c.len() == grids.len()
            &&& forall|i: int| 0 <= i < c.len() ==> #[trigger] is_option_for(c[i], w, h, shape, grids[i].0, grids[i].1)
        })
        &&& copies_of(v, c, offered_indices(c, w, h, shape))
    }
}

} // verus!
