//! Taking the matched frames out of a video: which frames to decode, and the crop of each
//! decoded frame that becomes a mosaic tile.

use vstd::prelude::*;
use crate::ffmpeg::crops::{percent_share, percent_share_exec};
use crate::ffmpeg::video_metadata::VideoMetadata;
use crate::numeric::{round_div, min_int, max_int};
use crate::raster::{TileImage, crop_image, flip_horizontal, clamped_region, sub_image, mirrored};

verus! {

/// Frames are scaled to this width when the video is at least as wide.
pub const DEFAULT_RESIZE_WIDTH: u32 = 1920;

/// Frames are never scaled narrower than this, unless the video is.
pub const SMALLEST_RESIZED_WIDTH: u32 = 640;

/// A frame chosen for a mosaic tile, and the crop of it that fills the tile. Size and
/// position are in thousandths of a percent of the frame.
#[derive(Clone, Copy, Debug, PartialEq, Eq, Structural)]
pub struct VideoFrameMatch {
    pub tile_index: u32,
    pub frame_index: u32,
    pub crop_resize: u32,
    pub crop_pos_x: u32,
    pub crop_pos_y: u32,
    pub is_flipped: bool,
}

/// The pixels for one mosaic tile.
pub struct ImageTileData {
    pub tile_index: u32,
    pub data: TileImage,
}

/// Decodes a video's matched frames at a chosen width.
pub struct FrameExtractor {
    pub instance_id: u32,
    video: VideoMetadata,
    resize_width: u32,
}

/// The decoding width asked for, kept at least 640 and at most the video's width.
pub open spec fn clamped_resize_width(width: nat, video_width: nat) -> nat {
    min_int(max_int(width as int, SMALLEST_RESIZED_WIDTH as int), video_width as int) as nat
}

pub open spec fn strictly_increasing(s: Seq<u32>) -> bool {
    forall|i: int, j: int| 0 <= i < j < s.len() ==> s[i] < s[j]
}

/// `frames` is strictly increasing and holds exactly the frame indices of `matches`.
pub open spec fn distinct_frames_of(frames: Seq<u32>, matches: Seq<VideoFrameMatch>) -> bool {
    &&& strictly_increasing(frames)
    &&& forall|f: u32| #[trigger] frames.contains(f) <==> exists|k: int| 0 <= k < matches.len() && matches[k].frame_index == f
}

/// `value` thousandths of a percent of `length`, computed in doubles (see `percent_share`).
pub open spec fn share_of_length(length: nat, value: nat) -> nat {
    percent_share(length as int, value as int) as nat
}

/// The region `(x, y, width, height)` of a `frame_width` x `frame_height` frame that a match
/// asks for, before it is clamped to the frame.
pub open spec fn match_region(frame_width: nat, frame_height: nat, m: VideoFrameMatch) -> (nat, nat, nat, nat) {
    (
        share_of_length(frame_width, m.crop_pos_x as nat),
        share_of_length(frame_height, m.crop_pos_y as nat),
        share_of_length(frame_width, m.crop_resize as nat),
        share_of_length(frame_height, m.crop_resize as nat),
    )
}

/// The pixels a match takes from a decoded frame: its region, clamped to the frame, and
/// mirrored when the match is flipped.
pub open spec fn match_pixels(frame: TileImage, m: VideoFrameMatch) -> Seq<u8> {
    let (x, y, w, h) = match_region(frame.width as nat, frame.height as nat, m);
    let (x2, y2, cw, ch) = clamped_region(frame.width as int, frame.height as int, x as int, y as int, w as int, h as int);
    let cropped = sub_image(frame.data@, frame.width as int, x2, y2, cw, ch);
    if m.is_flipped { mirrored(cropped, cw) } else { cropped }
}

fn share_of(length: u32, value: u32) -> (r: u32)
    requires
        value <= 100_000,
    ensures
        r == share_of_length(length as nat, value as nat),
{
    percent_share_exec(length, value) as u32
}

/// Adds `f` to a strictly increasing sequence, where it belongs, unless it is there already.
fn insert_sorted(frames: &mut Vec<u32>, f: u32)
    requires
        strictly_increasing(old(frames)@),
    ensures
        strictly_increasing(final(frames)@),
        forall|x: u32| #[trigger] final(frames)@.contains(x) <==> (old(frames)@.contains(x) || x == f),
{
    let mut at: usize = 0;
    while at < frames.len() && frames[at] < f
        invariant
            at <= frames@.len(),
            forall|i: int| 0 <= i < at ==> frames@[i] < f,
        decreases frames@.len() - at,
    {
        at += 1;
    }
    if at < frames.len() && frames[at] == f {
        assert(frames@.contains(f) && frames@[at as int] == f);
        return;
    }
    let ghost before = frames@;
    frames.insert(at, f);
    proof {
        assert(frames@ =~= before.subrange(0, at as int).push(f) + before.subrange(at as int, before.len() as int));
        assert forall|i: int, j: int| 0 <= i < j < frames@.len() implies frames@[i] < frames@[j] by {
            if j < at {
            } else if j == at {
            } else if i < at {
                assert(before[at as int] >= f || at == before.len());
                assert(before[at as int] <= before[j - 1]);
            } else if i == at {
                assert(before[at as int] > f);
                assert(before[at as int] <= before[j - 1]);
            } else {
            }
        }
        assert forall|x: u32| #[trigger] frames@.contains(x) <==> (before.contains(x) || x == f) by {
            if frames@.contains(x) {
                let i = choose|i: int| 0 <= i < frames@.len() && frames@[i] == x;
                if i < at {
                    assert(before[i] == x);
                } else if i > at {
                    assert(before[i - 1] == x);
                }
            }
            if before.contains(x) {
                let i = choose|i: int| 0 <= i < before.len() && before[i] == x;
                if i < at {
                    assert(frames@[i] == x);
                } else {
                    assert(frames@[i + 1] == x);
                }
            }
            if x == f {
                assert(frames@[at as int] == f);
            }
        }
    }
}

/// The frame index of every match, each once, in increasing order.
pub fn distinct_frame_indices(matches: &[VideoFrameMatch]) -> (frames: Vec<u32>)
    ensures
        distinct_frames_of(frames@, matches@),
{
    let mut frames: Vec<u32> = Vec::new();
    let mut m: usize = 0;
    while m < matches.len()
        invariant
            m <= matches@.len(),
            strictly_increasing(frames@),
            forall|f: u32| #[trigger] frames@.contains(f) <==> exists|k: int| 0 <= k < m && matches@[k].frame_index == f,
        decreases matches@.len() - m,
    {
        let ghost before = frames@;
        insert_sorted(&mut frames, matches[m].frame_index);
        proof {
            assert forall|f: u32| #[trigger] frames@.contains(f) <==> exists|k: int| 0 <= k < m + 1 && matches@[k].frame_index == f by {
                if exists|k: int| 0 <= k < m + 1 && matches@[k].frame_index == f {
                    let k = choose|k: int| 0 <= k < m + 1 && matches@[k].frame_index == f;
                    if k < m {
                        assert(before.contains(f));
                    }
                }
                if before.contains(f) {
                    assert(exists|k: int| 0 <= k < m && matches@[k].frame_index == f);
                }
            }
        }
        m += 1;
    }
    frames
}

/// The matches that use frame `frame_index`, in order.
pub fn matches_of_frame(matches: &[VideoFrameMatch], frame_index: u32) -> (r: Vec<VideoFrameMatch>)
    ensures
        r@ == matches@.filter(|m: VideoFrameMatch| m.frame_index == frame_index),
{
    let mut r: Vec<VideoFrameMatch> = Vec::new();
    let mut k: usize = 0;
    while k < matches.len()
        invariant
            k <= matches@.len(),
            r@ == matches@.subrange(0, k as int).filter(|m: VideoFrameMatch| m.frame_index == frame_index),
        decreases matches@.len() - k,
    {
        proof {
            reveal(Seq::filter);
            assert(matches@.subrange(0, k + 1).drop_last() =~= matches@.subrange(0, k as int));
        }
        if matches[k].frame_index == frame_index {
            r.push(matches[k]);
        }
        k += 1;
    }
    assert(matches@.subrange(0, k as int) =~= matches@);
    r
}

/// The tile pixels a match takes from a decoded frame.
pub fn tile_from_frame(frame: &TileImage, m: &VideoFrameMatch) -> (t: ImageTileData)
    requires
        frame.wf(),
        m.crop_pos_x <= 100_000,
        m.crop_pos_y <= 100_000,
        m.crop_resize <= 100_000,
    ensures
        t.tile_index == m.tile_index,
        t.data.wf(),
        t.data.data@ == match_pixels(*frame, *m),
{
    let x = share_of(frame.width, m.crop_pos_x);
    let y = share_of(frame.height, m.crop_pos_y);
    let w = share_of(frame.width, m.crop_resize);
    let h = share_of(frame.height, m.crop_resize);
    let mut tile = crop_image(frame, x, y, w, h);
    if m.is_flipped {
        flip_horizontal(&mut tile);
    }
    ImageTileData { tile_index: m.tile_index, data: tile }
}

impl FrameExtractor {
    pub closed spec fn id(&self) -> u32 {
        self.instance_id
    }

    pub closed spec fn video(&self) -> VideoMetadata {
        self.video
    }

    pub closed spec fn resize_width(&self) -> nat {
        self.resize_width as nat
    }

    /// An extractor for `video`, decoding at 1920 pixels wide or the video's width when that
    /// is less.
    pub fn new(instance_id: u32, video: VideoMetadata) -> (e: Self)
        ensures
            e.id() == instance_id,
            e.video() == video,
            e.resize_width() == min_int(DEFAULT_RESIZE_WIDTH as int, video.width as int),
    {
        let resize_width = if DEFAULT_RESIZE_WIDTH < video.width { DEFAULT_RESIZE_WIDTH } else { video.width };
        FrameExtractor { instance_id, video, resize_width }
    }

    /// Decodes at `width`, kept at least 640 and at most the video's width.
    pub fn set_resize_width(&mut self, width: u32)
        ensures
            final(self).id() == old(self).id(),
            final(self).video() == old(self).video(),
            final(self).resize_width() == clamped_resize_width(width as nat, old(self).video().width as nat),
    {
        let width = if width > SMALLEST_RESIZED_WIDTH { width } else { SMALLEST_RESIZED_WIDTH };
        self.resize_width = if width < self.video.width { width } else { self.video.width };
    }

    /// The width frames are decoded at.
    pub fn frame_width(&self) -> (w: u32)
        ensures
            w == self.resize_width(),
    {
        self.resize_width
    }

    /// The height frames are decoded at: the width over the video's shape.
    pub fn frame_height(&self) -> (h: u32)
        ensures
            h == self.video().aspect_ratio.height_for(self.resize_width()),
    {
        self.video.aspect_ratio.frame_height(self.resize_width)
    }
}

} // verus!
