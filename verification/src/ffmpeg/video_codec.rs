//! Video codecs as ffprobe names them.

use vstd::prelude::*;
use crate::text::{chars_of, chars_equal};

verus! {

#[derive(PartialEq, Eq, Clone, Debug)]
pub enum VideoCodec {
    H264,
    HEVC,
    AV1,
    VP9,
    ProRes,
    MPEG2,
    Other(String),
}

/// What `str::to_lowercase` returns for a string with characters `s`.
pub uninterp spec fn lowercase_text(s: Seq<char>) -> Seq<char>;

/// `str::to_lowercase` (std): the string with each character replaced by its Unicode
/// lowercase mapping. Its result depends on its argument alone; what that mapping is, is
/// not stated here.
#[verifier::external_body]
pub(crate) fn to_lowercase(s: &str) -> (r: String)
    ensures
        r@ == lowercase_text(s@),
{
    s.to_lowercase()
}

/// The codec that a lowercase ffprobe codec name stands for, when it is one of the known ones.
pub open spec fn known_codec(name: Seq<char>) -> Option<VideoCodec> {
    if name == seq!['h', '2', '6', '4'] {
        Some(VideoCodec::H264)
    } else if name == seq!['h', 'e', 'v', 'c'] {
        Some(VideoCodec::HEVC)
    } else if name == seq!['a', 'v', '1'] {
        Some(VideoCodec::AV1)
    } else if name == seq!['v', 'p', '9'] {
        Some(VideoCodec::VP9)
    } else if name == seq!['p', 'r', 'o', 'r', 'e', 's'] {
        Some(VideoCodec::ProRes)
    } else if name == seq!['m', 'p', 'e', 'g', '2', 'v', 'i', 'd', 'e', 'o'] {
        Some(VideoCodec::MPEG2)
    } else {
        None
    }
}

/// The codec for a lowercase name: a known codec, or `Other` holding the name.
pub open spec fn is_codec_for(c: VideoCodec, name: Seq<char>) -> bool {
    match known_codec(name) {
        Some(k) => c == k,
        None => c matches VideoCodec::Other(s) && s@ == name,
    }
}


impl VideoCodec {
    /// The codec for a name that ffprobe reports, compared without regard to case.
    pub fn from_ffmpeg_meta_data(codec: &str) -> (c: Self)
        ensures
            is_codec_for(c, lowercase_text(codec@)),
    {
        let lower = to_lowercase(codec);
        Self::from_lowercase_name(lower)
    }

    /// The codec for an already lowercase name.
    pub fn from_lowercase_name(name: String) -> (c: Self)
        ensures
            is_codec_for(c, name@),
    {
        let chars = chars_of(name.as_str());
        if chars_equal(&chars, &['h', '2', '6', '4']) {
            Self::H264
        } else if chars_equal(&chars, &['h', 'e', 'v', 'c']) {
            Self::HEVC
        } else if chars_equal(&chars, &['a', 'v', '1']) {
            Self::AV1
        } else if chars_equal(&chars, &['v', 'p', '9']) {
            Self::VP9
        } else if chars_equal(&chars, &['p', 'r', 'o', 'r', 'e', 's']) {
            Self::ProRes
        } else if chars_equal(&chars, &['m', 'p', 'e', 'g', '2', 'v', 'i', 'd', 'e', 'o']) {
            Self::MPEG2
        } else {
            Self::Other(name)
        }
    }
}

/// Codec names are read without regard to case: two names whose lowercase forms agree read
/// as the same codec, a known one or `Other` with the same name.
pub proof fn lemma_codec_ignores_case(a: VideoCodec, b: VideoCodec, x: Seq<char>, y: Seq<char>)
    requires
        lowercase_text(x) == lowercase_text(y),
        is_codec_for(a, lowercase_text(x)),
        is_codec_for(b, lowercase_text(y)),
    ensures
        a == b || (a matches VideoCodec::Other(s) && b matches VideoCodec::Other(t) && s@ == t@),
        known_codec(lowercase_text(x)) is Some ==> a == known_codec(lowercase_text(x))->0,
{
}

} // verus!
