pub mod aspect_ratio;
pub mod color_extractor;
pub mod crops;
pub mod frame_extractor;
pub mod pixels;
pub mod summed_table;
pub mod video_codec;
pub mod video_metadata;

pub use aspect_ratio::AspectRatio;
pub use video_codec::VideoCodec;
pub use video_metadata::VideoMetadata;

use vstd::prelude::*;
use crate::ffmpeg::video_metadata::{ProblemKind, frame_rate_property, duration_seconds};
use crate::text::{chars_of, chars_equal, first_index, parse_unsigned, parsed_unsigned, split_at_char, split_on, views};

verus! {

/// The facts about a video that a plain ffprobe listing gives.
#[derive(Clone, Copy, Debug, PartialEq, Eq, Structural)]
pub struct VideoMetaData {
    pub width: u32,
    pub height: u32,
    /// Frames per second, in hundredths; `u64::MAX` where the rate is a fraction over zero.
    pub frame_rate_hundredths: u64,
    pub is_variable_frame_rate: bool,
    pub total_frames: u64,
    pub duration_secs: u64,
}

/// The listing has the five lines read: width, height, frame rate, average frame rate and
/// frame count, the frame rate with a `/`.
pub open spec fn listing_readable(stdout: Seq<char>) -> bool {
    let lines = split_on(stdout, '\n');
    lines.len() >= 5 && first_index(lines[2], '/') >= 0
}

/// What the listing reads as: the values of its first five lines, or the problem met first.
pub open spec fn listing_read_as(r: Result<VideoMetaData, ProblemKind>, stdout: Seq<char>) -> bool {
    let lines = split_on(stdout, '\n');
    let width = parsed_unsigned(lines[0], u32::MAX as nat);
    let height = parsed_unsigned(lines[1], u32::MAX as nat);
    let rate = frame_rate_property(lines[2]);
    let frames = parsed_unsigned(lines[4], u64::MAX as nat);
    if width is None || height is None {
        r == Err::<VideoMetaData, ProblemKind>(ProblemKind::Invalid)
    } else if rate is Err {
        r == Err::<VideoMetaData, ProblemKind>(rate->Err_0)
    } else if frames is None {
        r == Err::<VideoMetaData, ProblemKind>(ProblemKind::Invalid)
    } else {
        r == Ok::<VideoMetaData, ProblemKind>(VideoMetaData {
            width: width->0 as u32,
            height: height->0 as u32,
            frame_rate_hundredths: rate->Ok_0 as u64,
            is_variable_frame_rate: lines[2] != lines[3],
            total_frames: frames->0 as u64,
            duration_secs: duration_seconds(frames->0, rate->Ok_0) as u64,
        })
    }
}

/// Reads a plain ffprobe listing of width, height, frame rate, average frame rate and frame
/// count, one per line.
pub fn meta_data_from_listing(stdout: &str) -> (r: Result<VideoMetaData, ProblemKind>)
    requires
        listing_readable(stdout@),
    ensures
        listing_read_as(r, stdout@),
{
    let chars = chars_of(stdout);
    let lines = split_at_char(&chars, '\n');
    assert(views(lines@) == split_on(stdout@, '\n'));
    assert(views(lines@)[0] == lines@[0]@ && views(lines@)[1] == lines@[1]@ && views(lines@)[2] == lines@[2]@);
    assert(views(lines@)[3] == lines@[3]@ && views(lines@)[4] == lines@[4]@);
    let width = parse_unsigned(&lines[0], u32::MAX as u64);
    let height = parse_unsigned(&lines[1], u32::MAX as u64);
    let (width, height) = match (width, height) {
        (Some(w), Some(h)) => (w as u32, h as u32),
        _ => return Err(ProblemKind::Invalid),
    };
    let frame_rate = match VideoMetadata::get_frame_rate(&lines[2]) {
        Ok(v) => v,
        Err(k) => return Err(k),
    };
    let is_variable_frame_rate = !chars_equal(&lines[2], &lines[3]);
    let total_frames = match parse_unsigned(&lines[4], u64::MAX) {
        Some(n) => n,
        None => return Err(ProblemKind::Invalid),
    };
    let duration_secs = VideoMetadata::duration_of(total_frames, frame_rate);
    Ok(VideoMetaData { width, height, frame_rate_hundredths: frame_rate, is_variable_frame_rate, total_frames, duration_secs })
}

} // verus!
