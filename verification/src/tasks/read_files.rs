//! Which files of the working directory are videos and images, by their extensions.

use vstd::prelude::*;
use crate::app::image_file::ImageFile;
use crate::app::video_file::VideoFile;
use crate::ffmpeg::video_codec::{lowercase_text, to_lowercase};
use crate::tasks::name_order::{stable_order, stable_sort_by_keys};
use crate::text::{chars_of, views};

verus! {

/// A character with ASCII capitals made small.
pub open spec fn ascii_lower(c: char) -> char {
    if 'A' <= c && c <= 'Z' { ((c as u32) + 32) as char } else { c }
}

/// The texts are equal when ASCII capitals are made small.
pub open spec fn equal_ignoring_ascii_case(a: Seq<char>, b: Seq<char>) -> bool {
    a.len() == b.len() && forall|i: int| 0 <= i < a.len() ==> ascii_lower(#[trigger] a[i]) == ascii_lower(b[i])
}

fn lower(c: char) -> (r: char)
    ensures
        r == ascii_lower(c),
{
    if 'A' <= c && c <= 'Z' {
        let code = c as u32 + 32;
        proof {
            assert(0x61 <= code <= 0x7a);
        }
        char_from_ascii(code)
    } else {
        c
    }
}

fn char_from_ascii(code: u32) -> (c: char)
    requires
        0x61 <= code <= 0x7a,
    ensures
        c == code as char,
{
    (code as u8) as char
}

/// `str::eq_ignore_ascii_case`.
pub fn eq_ignore_ascii_case(a: &str, b: &str) -> (r: bool)
    ensures
        r == equal_ignoring_ascii_case(a@, b@),
{
    let x = chars_of(a);
    let y = chars_of(b);
    if x.len() != y.len() {
        return false;
    }
    let mut i: usize = 0;
    while i < x.len()
        invariant
            i <= x@.len(),
            x@ == a@,
            y@ == b@,
            x@.len() == y@.len(),
            forall|j: int| 0 <= j < i ==> ascii_lower(#[trigger] x@[j]) == ascii_lower(y@[j]),
        decreases x@.len() - i,
    {
        if lower(x[i]) != lower(y[i]) {
            return false;
        }
        i += 1;
    }
    true
}

/// The extensions of the video files the application reads.
pub open spec fn is_video_extension(ext: Seq<char>) -> bool {
    ||| equal_ignoring_ascii_case(ext, "mp4"@)
    ||| equal_ignoring_ascii_case(ext, "mkv"@)
    ||| equal_ignoring_ascii_case(ext, "mov"@)
    ||| equal_ignoring_ascii_case(ext, "avi"@)
    ||| equal_ignoring_ascii_case(ext, "webm"@)
    ||| equal_ignoring_ascii_case(ext, "m4v"@)
    ||| equal_ignoring_ascii_case(ext, "wmv"@)
    ||| equal_ignoring_ascii_case(ext, "flv"@)
}

/// The extensions of the image files the application reads.
pub open spec fn is_image_extension(ext: Seq<char>) -> bool {
    ||| equal_ignoring_ascii_case(ext, "jpg"@)
    ||| equal_ignoring_ascii_case(ext, "jpeg"@)
    ||| equal_ignoring_ascii_case(ext, "png"@)
    ||| equal_ignoring_ascii_case(ext, "webp"@)
    ||| equal_ignoring_ascii_case(ext, "bmp"@)
    ||| equal_ignoring_ascii_case(ext, "tiff"@)
}

/// Whether a file with extension `ext` is a video the application reads (any case).
pub fn has_video_extension(ext: &str) -> (r: bool)
    ensures
        r == is_video_extension(ext@),
{
    eq_ignore_ascii_case(ext, "mp4") || eq_ignore_ascii_case(ext, "mkv") || eq_ignore_ascii_case(ext, "mov")
        || eq_ignore_ascii_case(ext, "avi") || eq_ignore_ascii_case(ext, "webm") || eq_ignore_ascii_case(ext, "m4v")
        || eq_ignore_ascii_case(ext, "wmv") || eq_ignore_ascii_case(ext, "flv")
}

/// Whether a file with extension `ext` is an image the application reads (any case).
pub fn has_image_extension(ext: &str) -> (r: bool)
    ensures
        r == is_image_extension(ext@),
{
    eq_ignore_ascii_case(ext, "jpg") || eq_ignore_ascii_case(ext, "jpeg") || eq_ignore_ascii_case(ext, "png")
        || eq_ignore_ascii_case(ext, "webp") || eq_ignore_ascii_case(ext, "bmp") || eq_ignore_ascii_case(ext, "tiff")
}

/// The file names of the videos in lower case, by which the video list is ordered.
pub open spec fn video_name_keys(videos: Seq<VideoFile>) -> Seq<Seq<char>> {
    Seq::new(videos.len(), |j: int| lowercase_text(videos[j].metadata.file_name@))
}

/// The file names of the images in lower case, by which the image list is ordered.
pub open spec fn image_name_keys(images: Seq<ImageFile>) -> Seq<Seq<char>> {
    Seq::new(images.len(), |j: int| lowercase_text(images[j].file_name@))
}

/// The videos ordered by their file names in lower case, videos whose names are then equal
/// kept in the order they came in.
pub fn sort_videos_by_name(videos: Vec<VideoFile>) -> (r: Vec<VideoFile>)
    ensures
        exists|order: Seq<int>| #[trigger] stable_order(video_name_keys(videos@), order) && r@.len() == videos@.len()
            && forall|j: int| 0 <= j < r@.len() ==> r@[j] == videos@[order[j]],
{
    let mut keys: Vec<Vec<char>> = Vec::new();
    let mut j: usize = 0;
    while j < videos.len()
        invariant
            j <= videos@.len(),
            keys@.len() == j,
            forall|q: int| 0 <= q < j ==> #[trigger] keys@[q]@ == lowercase_text(videos@[q].metadata.file_name@),
        decreases videos@.len() - j,
    {
        let lower = to_lowercase(videos[j].metadata.file_name.as_str());
        keys.push(chars_of(lower.as_str()));
        j += 1;
    }
    assert(views(keys@) =~= video_name_keys(videos@));
    stable_sort_by_keys(videos, keys)
}

/// The images ordered by their file names in lower case, images whose names are then equal
/// kept in the order they came in.
pub fn sort_images_by_name(images: Vec<ImageFile>) -> (r: Vec<ImageFile>)
    ensures
        exists|order: Seq<int>| #[trigger] stable_order(image_name_keys(images@), order) && r@.len() == images@.len()
            && forall|j: int| 0 <= j < r@.len() ==> r@[j] == images@[order[j]],
{
    let mut keys: Vec<Vec<char>> = Vec::new();
    let mut j: usize = 0;
    while j < images.len()
        invariant
            j <= images@.len(),
            keys@.len() == j,
            forall|q: int| 0 <= q < j ==> #[trigger] keys@[q]@ == lowercase_text(images@[q].file_name@),
        decreases images@.len() - j,
    {
        let lower = to_lowercase(images[j].file_name.as_str());
        keys.push(chars_of(lower.as_str()));
        j += 1;
    }
    assert(views(keys@) =~= image_name_keys(images@));
    stable_sort_by_keys(images, keys)
}

} // verus!
