//! Placing matched tiles in the mosaic.

use vstd::prelude::*;

verus! {

/// A tile of the mosaic that has been extracted, with its place in the grid.
#[derive(Clone, Copy, PartialEq, Eq, Structural, Debug)]
pub struct MosaicGenerationReport {
    pub tile_index: u32,
    pub row: u32,
    pub col: u32,
}

impl MosaicGenerationReport {
    /// The report for tile `tile_index` of a mosaic `mosaic_tiles_x` tiles wide, which are
    /// numbered row by row.
    pub fn for_tile(tile_index: u32, mosaic_tiles_x: u32) -> (r: MosaicGenerationReport)
        requires
            mosaic_tiles_x > 0,
        ensures
            r.tile_index == tile_index,
            r.row == tile_index / mosaic_tiles_x,
            r.col == tile_index % mosaic_tiles_x,
            r.row * mosaic_tiles_x + r.col == tile_index,
    {
        let row = tile_index / mosaic_tiles_x;
        let col = tile_index % mosaic_tiles_x;
        assert(row * mosaic_tiles_x + col == tile_index) by (nonlinear_arith)
            requires mosaic_tiles_x > 0, row == tile_index / mosaic_tiles_x, col == tile_index % mosaic_tiles_x;
        MosaicGenerationReport { tile_index, row, col }
    }
}

} // verus!

use crate::app::image_file::ImageFile;
use crate::color_matcher::FrameMatch;
use crate::ffmpeg::frame_extractor::VideoFrameMatch;
use crate::numeric::round_div;
use crate::ffmpeg::crops::{cropped_height, cropped_height_exec};
use crate::raster::{TileImage, ResizeFilter, resize_rgb, triangle_resized, copy_into, placed};
use crate::text::{digits, push_digits, chars_of, string_from_chars, text_equal};
use crate::tile_blender::{TileBlender, Side, blended_tile, fits_seam};

verus! {

/// Width of the picture whose shape the mosaic takes.
pub const MOSAIC_IMAGE_WIDTH: u32 = 7680;

/// Height of the picture whose shape the mosaic takes.
pub const MOSAIC_IMAGE_HEIGHT: u32 = 4320;

/// Width of the print version of the mosaic, before it is split into tiles.
pub const MOSAIC_TARGET_WIDTH: u32 = 10000;

/// Size the extracted tiles are stored at.
pub const TILE_IMAGE_WIDTH: u32 = 960;
pub const TILE_IMAGE_HEIGHT: u32 = 540;

/// Size of the smaller copy of the mosaic.
pub const JPEG_WIDTH: u32 = 7680;
pub const JPEG_HEIGHT: u32 = 4320;

/// Quality of the smaller copy.
pub const JPEG_QUALITY: u8 = 99;

/// Why no mosaic can be made.
#[derive(Clone, Copy, Debug, PartialEq, Eq, Structural)]
pub enum MosaicError {
    NoChosenImage,
    NoMatchedTiles,
}

/// The image the mosaic is made of: the first chosen one, which must have its matches.
pub fn mosaic_image(images: &Vec<ImageFile>) -> (r: Result<usize, MosaicError>)
    ensures
        match r {
            Ok(i) => i < images@.len() && images@[i as int].is_chosen && images@[i as int].matched_tiles is Some && forall|j: int|
                0 <= j < i ==> !(#[trigger] images@[j]).is_chosen,
            Err(e) => match e {
                MosaicError::NoChosenImage => forall|j: int| 0 <= j < images@.len() ==> !(#[trigger] images@[j]).is_chosen,
                MosaicError::NoMatchedTiles => exists|i: int| 0 <= i < images@.len() && (#[trigger] images@[i]).is_chosen
                    && images@[i].matched_tiles is None && forall|j: int| 0 <= j < i ==> !(#[trigger] images@[j]).is_chosen,
            },
        },
{
    let mut i: usize = 0;
    while i < images.len()
        invariant
            i <= images@.len(),
            forall|j: int| 0 <= j < i ==> !(#[trigger] images@[j]).is_chosen,
        decreases images@.len() - i,
    {
        if images[i].is_chosen {
            if images[i].matched_tiles.is_some() {
                return Ok(i);
            }
            return Err(MosaicError::NoMatchedTiles);
        }
        i += 1;
    }
    Err(MosaicError::NoChosenImage)
}

/// An extracted tile brought to the size tiles are stored at, 960 x 540 (triangle filter).
pub fn stored_tile(tile: &TileImage) -> (r: TileImage)
    requires
        tile.wf(),
        4 * (tile.width * TILE_IMAGE_HEIGHT) <= usize::MAX,
    ensures
        r.wf(),
        r.width == TILE_IMAGE_WIDTH,
        r.height == TILE_IMAGE_HEIGHT,
        r.data@ == triangle_resized(tile.data@, tile.width, tile.height, TILE_IMAGE_WIDTH, TILE_IMAGE_HEIGHT),
{
    let data = resize_rgb(&tile.data, tile.width, tile.height, TILE_IMAGE_WIDTH, TILE_IMAGE_HEIGHT, ResizeFilter::Triangle);
    TileImage { width: TILE_IMAGE_WIDTH, height: TILE_IMAGE_HEIGHT, data }
}

/// The smaller copy of the mosaic, 7680 x 4320 (Lanczos filter, whose pixels are not stated).
pub fn smaller_copy(canvas: &TileImage) -> (r: TileImage)
    requires
        canvas.wf(),
        4 * (canvas.width * JPEG_HEIGHT) <= usize::MAX,
    ensures
        r.wf(),
        r.width == JPEG_WIDTH,
        r.height == JPEG_HEIGHT,
{
    let data = resize_rgb(&canvas.data, canvas.width, canvas.height, JPEG_WIDTH, JPEG_HEIGHT, ResizeFilter::Lanczos3);
    TileImage { width: JPEG_WIDTH, height: JPEG_HEIGHT, data }
}

/// The sizes of the mosaic's tiles and of the whole mosaic.
#[derive(Clone, Copy, Debug, PartialEq, Eq, Structural)]
pub struct MosaicLayout {
    pub tile_width: u32,
    pub tile_height: u32,
    pub width: u32,
    pub height: u32,
}

/// The tile sizes of a `tiles_x` x `tiles_y` mosaic 10000 pixels wide in the shape of a
/// 7680 x 4320 picture, each rounded to nearest with halves up.
pub open spec fn tile_width_for(tiles_x: nat) -> nat {
    round_div(MOSAIC_TARGET_WIDTH as int, tiles_x as int) as nat
}

/// The tile height: the tile width over the picture's ratio `7680 / 4320`, that is `16 / 9`,
/// as doubles give it (see `cropped_height`).
pub open spec fn tile_height_for(tiles_x: nat) -> nat {
    cropped_height(tile_width_for(tiles_x) as int) as nat
}

/// The layout of a `tiles_x` x `tiles_y` mosaic.
pub fn mosaic_layout(tiles_x: u32, tiles_y: u32) -> (l: MosaicLayout)
    requires
        tiles_x > 0,
        tile_height_for(tiles_x as nat) * tiles_y <= u32::MAX,
    ensures
        l.tile_width == tile_width_for(tiles_x as nat),
        l.tile_height == tile_height_for(tiles_x as nat),
        l.width == l.tile_width * tiles_x,
        l.height == l.tile_height * tiles_y,
{
    let tx = tiles_x as u64;
    let tile_width = (2 * (MOSAIC_TARGET_WIDTH as u64) + tx) / (2 * tx);
    proof {
        assert(tile_width <= 10000) by (nonlinear_arith)
            requires tile_width == (2 * 10000 + tx) / (2 * tx), tx >= 1;
        assert(tile_width * tx <= 10000 + tx) by (nonlinear_arith)
            requires tile_width == (2 * 10000 + tx) / (2 * tx), tx >= 1;
        if tile_width >= 1 {
            assert(tx <= 20000) by (nonlinear_arith)
                requires tile_width == (2 * 10000 + tx) / (2 * tx), tx >= 1, tile_width >= 1;
        }
        assert(tile_width * tx <= 30000) by (nonlinear_arith)
            requires tile_width * tx <= 10000 + tx, tile_width >= 1 ==> tx <= 20000, tile_width >= 0;
    }
    let tile_height = cropped_height_exec(tile_width);
    MosaicLayout {
        tile_width: tile_width as u32,
        tile_height: tile_height as u32,
        width: (tile_width * tx) as u32,
        height: (tile_height * tiles_y as u64) as u32,
    }
}

/// `{row}x{col}.png`, the file an extracted tile is stored in.
pub open spec fn tile_name(row: nat, col: nat) -> Seq<char> {
    digits(row) + seq!['x'] + digits(col) + seq!['.', 'p', 'n', 'g']
}

/// The file an extracted tile is stored in (see `tile_name`).
pub fn tile_file_name(row: u32, col: u32) -> (s: String)
    ensures
        s@ == tile_name(row as nat, col as nat),
{
    let mut out: Vec<char> = Vec::new();
    push_digits(&mut out, row as u64);
    out.push('x');
    push_digits(&mut out, col as u64);
    out.push('.');
    out.push('p');
    out.push('n');
    out.push('g');
    assert(out@ == tile_name(row as nat, col as nat));
    string_from_chars(&out)
}

/// `{image}_{x}x{y}.{extension}`, the file a mosaic is written to.
pub open spec fn mosaic_name(image_file_name: Seq<char>, tiles_x: nat, tiles_y: nat, extension: Seq<char>) -> Seq<char> {
    image_file_name + seq!['_'] + digits(tiles_x) + seq!['x'] + digits(tiles_y) + seq!['.'] + extension
}

/// The file a mosaic is written to (see `mosaic_name`).
pub fn mosaic_file_name(image_file_name: &str, tiles_x: u32, tiles_y: u32, extension: &str) -> (s: String)
    ensures
        s@ == mosaic_name(image_file_name@, tiles_x as nat, tiles_y as nat, extension@),
{
    let mut out = chars_of(image_file_name);
    out.push('_');
    push_digits(&mut out, tiles_x as u64);
    out.push('x');
    push_digits(&mut out, tiles_y as u64);
    out.push('.');
    let ext = chars_of(extension);
    let ghost before = out@;
    let mut i: usize = 0;
    while i < ext.len()
        invariant
            i <= ext@.len(),
            out@ == before + ext@.subrange(0, i as int),
        decreases ext@.len() - i,
    {
        out.push(ext[i]);
        i += 1;
    }
    assert(ext@.subrange(0, i as int) == ext@);
    assert(out@ == mosaic_name(image_file_name@, tiles_x as nat, tiles_y as nat, extension@));
    string_from_chars(&out)
}

/// `{image}_temp`, the directory the extracted tiles are kept in while the mosaic is made.
pub fn temporary_dir_name(image_file_name: &str) -> (s: String)
    ensures
        s@ == image_file_name@ + seq!['_', 't', 'e', 'm', 'p'],
{
    let mut out = chars_of(image_file_name);
    out.push('_');
    out.push('t');
    out.push('e');
    out.push('m');
    out.push('p');
    string_from_chars(&out)
}

/// The matches of one video.
pub struct VideoMatches {
    pub video_filename: String,
    pub matches: Vec<VideoFrameMatch>,
}

/// What a frame extractor needs of a match.
pub open spec fn as_video_match(m: FrameMatch) -> VideoFrameMatch {
    VideoFrameMatch {
        tile_index: m.tile_index,
        frame_index: m.frame_index,
        crop_resize: m.crop_resize,
        crop_pos_x: m.crop_pos_x,
        crop_pos_y: m.crop_pos_y,
        is_flipped: m.is_flipped,
    }
}

/// The matches of the video named `name`, in order.
pub open spec fn matches_of_video(matches: Seq<FrameMatch>, name: Seq<char>) -> Seq<VideoFrameMatch>
    decreases matches.len(),
{
    if matches.len() == 0 {
        Seq::empty()
    } else {
        let prev = matches_of_video(matches.drop_last(), name);
        if matches.last().video_filename@ == name { prev.push(as_video_match(matches.last())) } else { prev }
    }
}

/// `groups` holds, once for each video that `matches` names, that video's matches in order.
pub open spec fn grouped_by_video(groups: Seq<VideoMatches>, matches: Seq<FrameMatch>) -> bool {
    &&& forall|g: int, h: int| 0 <= g < h < groups.len() ==> (#[trigger] groups[g]).video_filename@ != (#[trigger] groups[h]).video_filename@
    &&& forall|g: int| 0 <= g < groups.len() ==> (#[trigger] groups[g]).matches@ == matches_of_video(matches, groups[g].video_filename@)
    &&& forall|g: int| #![trigger groups[g]] 0 <= g < groups.len() ==> exists|m: int| 0 <= m < matches.len() && (#[trigger] matches[m]).video_filename@ == groups[g].video_filename@
    &&& forall|m: int| #![trigger matches[m]] 0 <= m < matches.len() ==> exists|g: int| 0 <= g < groups.len() && (#[trigger] groups[g]).video_filename@ == matches[m].video_filename@
}

fn video_match_of(m: &FrameMatch) -> (v: VideoFrameMatch)
    ensures
        v == as_video_match(*m),
{
    VideoFrameMatch {
        tile_index: m.tile_index,
        frame_index: m.frame_index,
        crop_resize: m.crop_resize,
        crop_pos_x: m.crop_pos_x,
        crop_pos_y: m.crop_pos_y,
        is_flipped: m.is_flipped,
    }
}

/// A video that no match names has no matches.
proof fn lemma_no_matches_of_video(matches: Seq<FrameMatch>, name: Seq<char>)
    requires
        forall|m: int| 0 <= m < matches.len() ==> (#[trigger] matches[m]).video_filename@ != name,
    ensures
        matches_of_video(matches, name) == Seq::<VideoFrameMatch>::empty(),
    decreases matches.len(),
{
    if matches.len() > 0 {
        lemma_no_matches_of_video(matches.drop_last(), name);
    }
}

/// Adds a match to the group of its video, or as a new group when its video has none.
fn add_to_groups(groups: &mut Vec<VideoMatches>, m: &FrameMatch, Ghost(prefix): Ghost<Seq<FrameMatch>>)
    requires
        grouped_by_video(old(groups)@, prefix),
    ensures
        grouped_by_video(final(groups)@, prefix.push(*m)),
{
    let mut g: usize = 0;
    while g < groups.len()
        invariant
            g <= groups@.len(),
            groups@ == old(groups)@,
            grouped_by_video(old(groups)@, prefix),
            forall|h: int| 0 <= h < g ==> (#[trigger] groups@[h]).video_filename@ != m.video_filename@,
        decreases groups@.len() - g,
    {
        if text_equal(groups[g].video_filename.as_str(), m.video_filename.as_str()) {
            let ghost before = groups@;
            let vm = video_match_of(m);
            groups[g].matches.push(vm);
            proof {
                lemma_grouped_extend_existing(before, groups@, g as int, prefix, *m);
            }
            return;
        }
        g += 1;
    }
    let ghost before = groups@;
    let vm = video_match_of(m);
    let mut first: Vec<VideoFrameMatch> = Vec::new();
    first.push(vm);
    let name = m.video_filename.as_str().to_owned();
    groups.push(VideoMatches { video_filename: name, matches: first });
    proof {
        lemma_grouped_extend_new(before, groups@, prefix, *m);
    }
}

#[verifier::rlimit(40)]
proof fn lemma_grouped_extend_existing(before: Seq<VideoMatches>, after: Seq<VideoMatches>, g: int, prefix: Seq<FrameMatch>, m: FrameMatch)
    requires
        grouped_by_video(before, prefix),
        0 <= g < before.len(),
        before[g].video_filename@ == m.video_filename@,
        after.len() == before.len(),
        forall|h: int| 0 <= h < after.len() ==> (#[trigger] after[h]).video_filename@ == before[h].video_filename@,
        forall|h: int| 0 <= h < after.len() && h != g ==> (#[trigger] after[h]).matches@ == before[h].matches@,
        after[g].matches@ == before[g].matches@.push(as_video_match(m)),
    ensures
        grouped_by_video(after, prefix.push(m)),
{
    lemma_extend_existing_matches(before, after, g, prefix, m);
    lemma_extend_existing_names(before, after, g, prefix, m);
    let next = prefix.push(m);
    assert forall|a: int, b: int| 0 <= a < b < after.len() implies (#[trigger] after[a]).video_filename@
        != (#[trigger] after[b]).video_filename@ by {
        assert(before[a].video_filename@ != before[b].video_filename@);
    }
}

proof fn lemma_extend_existing_matches(before: Seq<VideoMatches>, after: Seq<VideoMatches>, g: int, prefix: Seq<FrameMatch>, m: FrameMatch)
    requires
        grouped_by_video(before, prefix),
        0 <= g < before.len(),
        before[g].video_filename@ == m.video_filename@,
        after.len() == before.len(),
        forall|h: int| 0 <= h < after.len() ==> (#[trigger] after[h]).video_filename@ == before[h].video_filename@,
        forall|h: int| 0 <= h < after.len() && h != g ==> (#[trigger] after[h]).matches@ == before[h].matches@,
        after[g].matches@ == before[g].matches@.push(as_video_match(m)),
    ensures
        forall|h: int| 0 <= h < after.len() ==> (#[trigger] after[h]).matches@ == matches_of_video(prefix.push(m), after[h].video_filename@),
{
    let next = prefix.push(m);
    assert(next.drop_last() == prefix);
    assert forall|h: int| 0 <= h < after.len() implies (#[trigger] after[h]).matches@ == matches_of_video(next, after[h].video_filename@) by {
        if h != g {
            if h < g {
                assert(before[h].video_filename@ != before[g].video_filename@);
            } else {
                assert(before[g].video_filename@ != before[h].video_filename@);
            }
        }
    }
}

proof fn lemma_extend_existing_names(before: Seq<VideoMatches>, after: Seq<VideoMatches>, g: int, prefix: Seq<FrameMatch>, m: FrameMatch)
    requires
        grouped_by_video(before, prefix),
        0 <= g < before.len(),
        before[g].video_filename@ == m.video_filename@,
        after.len() == before.len(),
        forall|h: int| 0 <= h < after.len() ==> (#[trigger] after[h]).video_filename@ == before[h].video_filename@,
        forall|h: int| 0 <= h < after.len() && h != g ==> (#[trigger] after[h]).matches@ == before[h].matches@,
        after[g].matches@ == before[g].matches@.push(as_video_match(m)),
    ensures
        forall|h: int| #![trigger after[h]] 0 <= h < after.len() ==> exists|j: int| 0 <= j < prefix.push(m).len()
            && (#[trigger] prefix.push(m)[j]).video_filename@ == after[h].video_filename@,
        forall|j: int| #![trigger prefix.push(m)[j]] 0 <= j < prefix.push(m).len() ==> exists|h: int| 0 <= h < after.len()
            && (#[trigger] after[h]).video_filename@ == prefix.push(m)[j].video_filename@,
{
    let next = prefix.push(m);
    assert forall|h: int| #![trigger after[h]] 0 <= h < after.len() implies exists|j: int| 0 <= j < next.len()
        && (#[trigger] next[j]).video_filename@ == after[h].video_filename@ by {
        let j = choose|j: int| 0 <= j < prefix.len() && (#[trigger] prefix[j]).video_filename@ == before[h].video_filename@;
        assert(next[j] == prefix[j]);
    }
    assert forall|j: int| #![trigger next[j]] 0 <= j < next.len() implies exists|h: int| 0 <= h < after.len()
        && (#[trigger] after[h]).video_filename@ == next[j].video_filename@ by {
        if j < prefix.len() {
            assert(next[j] == prefix[j]);
            let h = choose|h: int| 0 <= h < before.len() && (#[trigger] before[h]).video_filename@ == prefix[j].video_filename@;
            assert(after[h].video_filename@ == before[h].video_filename@);
        } else {
            assert(after[g].video_filename@ == next[j].video_filename@);
        }
    }
}

proof fn lemma_grouped_extend_new(before: Seq<VideoMatches>, after: Seq<VideoMatches>, prefix: Seq<FrameMatch>, m: FrameMatch)
    requires
        grouped_by_video(before, prefix),
        forall|h: int| 0 <= h < before.len() ==> (#[trigger] before[h]).video_filename@ != m.video_filename@,
        after.len() == before.len() + 1,
        forall|h: int| 0 <= h < before.len() ==> #[trigger] after[h] == before[h],
        after.last().video_filename@ == m.video_filename@,
        after.last().matches@ == seq![as_video_match(m)],
    ensures
        grouped_by_video(after, prefix.push(m)),
{
    let next = prefix.push(m);
    assert(next.drop_last() == prefix);
    assert forall|j: int| 0 <= j < prefix.len() implies (#[trigger] prefix[j]).video_filename@ != m.video_filename@ by {
        let h = choose|h: int| 0 <= h < before.len() && (#[trigger] before[h]).video_filename@ == prefix[j].video_filename@;
    }
    lemma_no_matches_of_video(prefix, m.video_filename@);
    assert(after.last().matches@ =~= matches_of_video(next, m.video_filename@));
    assert forall|h: int| 0 <= h < after.len() implies (#[trigger] after[h]).matches@ == matches_of_video(next, after[h].video_filename@) by {
        if h < before.len() {
            assert(after[h] == before[h]);
        }
    }
    assert forall|h: int| #![trigger after[h]] 0 <= h < after.len() implies exists|j: int| 0 <= j < next.len()
        && (#[trigger] next[j]).video_filename@ == after[h].video_filename@ by {
        if h < before.len() {
            let j = choose|j: int| 0 <= j < prefix.len() && (#[trigger] prefix[j]).video_filename@ == before[h].video_filename@;
            assert(next[j] == prefix[j]);
            assert(after[h] == before[h]);
        } else {
            assert(next[prefix.len() as int].video_filename@ == after[h].video_filename@);
        }
    }
    assert forall|j: int| #![trigger next[j]] 0 <= j < next.len() implies exists|h: int| 0 <= h < after.len()
        && (#[trigger] after[h]).video_filename@ == next[j].video_filename@ by {
        if j < prefix.len() {
            assert(next[j] == prefix[j]);
            let h = choose|h: int| 0 <= h < before.len() && (#[trigger] before[h]).video_filename@ == prefix[j].video_filename@;
            assert(after[h] == before[h]);
        } else {
            assert(after[before.len() as int].video_filename@ == next[j].video_filename@);
        }
    }
    assert forall|a: int, b: int| 0 <= a < b < after.len() implies (#[trigger] after[a]).video_filename@
        != (#[trigger] after[b]).video_filename@ by {
        if b == before.len() {
            assert(after[a] == before[a]);
        } else {
            assert(after[a] == before[a] && after[b] == before[b]);
        }
    }
}

/// The matches grouped by video, the videos in the order they are first named.
pub fn group_matches_by_video(matches: &Vec<FrameMatch>) -> (groups: Vec<VideoMatches>)
    ensures
        grouped_by_video(groups@, matches@),
{
    let mut groups: Vec<VideoMatches> = Vec::new();
    let mut k: usize = 0;
    while k < matches.len()
        invariant
            k <= matches@.len(),
            grouped_by_video(groups@, matches@.subrange(0, k as int)),
        decreases matches@.len() - k,
    {
        assert(matches@.subrange(0, k + 1) == matches@.subrange(0, k as int).push(matches@[k as int]));
        add_to_groups(&mut groups, &matches[k], Ghost(matches@.subrange(0, k as int)));
        k += 1;
    }
    assert(matches@.subrange(0, k as int) == matches@);
    groups
}

/// The mosaic with tile `tile_index` placed: the tile blended into the neighbours given,
/// scaled (triangle filter) to the layout's tile size, and put at its row and column.
pub open spec fn with_tile_placed(
    canvas: Seq<u8>,
    layout: MosaicLayout,
    tiles_x: nat,
    tile_index: nat,
    center: Seq<u8>,
    w: u32,
    h: u32,
    top: Option<&TileImage>,
    right: Option<&TileImage>,
    bottom: Option<&TileImage>,
    left: Option<&TileImage>,
) -> Seq<u8> {
    let blended = blended_tile(center, w, h, top, right, bottom, left);
    let scaled = triangle_resized(blended, w, h, layout.tile_width, layout.tile_height);
    let row = tile_index / tiles_x;
    let col = tile_index % tiles_x;
    placed(
        canvas,
        layout.width as int,
        scaled,
        layout.tile_width as int,
        layout.tile_height as int,
        (col * layout.tile_width) as int,
        (row * layout.tile_height) as int,
    )
}

/// Blends tile `tile_index` into the neighbours given, scales it to the layout's tile size
/// and places it in the mosaic at its row and column.
pub fn compose_tile(
    canvas: &mut TileImage,
    layout: MosaicLayout,
    tiles_x: u32,
    tiles_y: u32,
    tile_index: u32,
    center: TileImage,
    top: Option<&TileImage>,
    right: Option<&TileImage>,
    bottom: Option<&TileImage>,
    left: Option<&TileImage>,
)
    requires
        old(canvas).wf(),
        old(canvas).width == layout.width,
        old(canvas).height == layout.height,
        layout.width == layout.tile_width * tiles_x,
        layout.height == layout.tile_height * tiles_y,
        tiles_x > 0,
        tile_index / tiles_x < tiles_y,
        center.wf(),
        fits_seam(Side::Top, top, center.width, center.height),
        fits_seam(Side::Right, right, center.width, center.height),
        fits_seam(Side::Bottom, bottom, center.width, center.height),
        fits_seam(Side::Left, left, center.width, center.height),
        4 * (center.width * layout.tile_height) <= usize::MAX,
    ensures
        final(canvas).wf(),
        final(canvas).width == old(canvas).width,
        final(canvas).height == old(canvas).height,
        final(canvas).data@ == with_tile_placed(
            old(canvas).data@,
            layout,
            tiles_x as nat,
            tile_index as nat,
            center.data@,
            center.width,
            center.height,
            top,
            right,
            bottom,
            left,
        ),
{
    let row = tile_index / tiles_x;
    let col = tile_index % tiles_x;
    let blender = TileBlender::new(row, col, tiles_x, tiles_y);
    let mut image = center;
    let ghost original = image.data@;
    blender.blend_image(&mut image, top, right, bottom, left);
    let canvas_len = canvas.data.len();
    proof {
        assert(3 * (layout.tile_width * layout.tile_height) <= 3 * (layout.width * layout.height)) by (nonlinear_arith)
            requires layout.width == layout.tile_width * tiles_x, layout.height == layout.tile_height * tiles_y, tiles_x > 0,
                tile_index / tiles_x < tiles_y;
        assert(3 * layout.width * layout.height == 3 * (layout.width * layout.height)) by (nonlinear_arith);
        assert(col * layout.tile_width + layout.tile_width <= layout.width) by (nonlinear_arith)
            requires layout.width == layout.tile_width * tiles_x, col < tiles_x;
        assert(row * layout.tile_height + layout.tile_height <= layout.height) by (nonlinear_arith)
            requires layout.height == layout.tile_height * tiles_y, row < tiles_y;
        assert(3 * image.width * image.height == 3 * (image.width * image.height)) by (nonlinear_arith);
    }
    let scaled = resize_rgb(&image.data, image.width, image.height, layout.tile_width, layout.tile_height, ResizeFilter::Triangle);
    let tile = TileImage { width: layout.tile_width, height: layout.tile_height, data: scaled };
    proof {
        assert(tile.data@.len() == 3 * tile.width * tile.height);
    }
    copy_into(canvas, &tile, col * layout.tile_width, row * layout.tile_height);
}

} // verus!
