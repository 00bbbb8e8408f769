//! What ffprobe reports of a video, read from its `key=value` output.

use vstd::prelude::*;
use crate::ffmpeg::aspect_ratio::{AspectRatio, hundredths_of, ratio_hundredths, shape_of};
use crate::numeric::{nearest_double, nearest_double_below_floor, quotient_side, significand_floor};
use crate::ffmpeg::video_codec::{VideoCodec, is_codec_for, lowercase_text};
use crate::numeric::round_div;
use crate::text::{
    chars_of, chars_equal, find_char, first_index, lemma_first_index_range, parse_unsigned, parsed_unsigned, split_at_char,
    split_on, string_from_chars, views, lemma_split_len,
};

verus! {

/// The facts about a video that the mosaic needs.
#[derive(Clone, Debug)]
pub struct VideoMetadata {
    pub file_name: String,
    pub full_path: String,
    pub width: u32,
    pub height: u32,
    pub aspect_ratio: AspectRatio,
    pub pixels_per_frame: u32,
    /// Frames per second, in hundredths (2997 is 29.97); `u64::MAX` where the rate is a
    /// fraction over zero.
    pub frame_rate_hundredths: u64,
    pub is_variable_frame_rate: bool,
    pub total_frames: u64,
    pub duration_secs: u64,
    pub total_bytes: u64,
    pub bit_rate: u64,
    pub codec: VideoCodec,
}

/// What kept the probe output from reading as a video's metadata.
#[derive(PartialEq, Eq, Structural, Clone, Copy, Debug)]
pub enum ProblemKind {
    /// The path names no file.
    NoFileName,
    /// The property is not in the output.
    Missing,
    /// The property's value does not read as the number it should be.
    Invalid,
}

/// A problem with the property it concerns (empty where it concerns none).
pub struct MetadataError {
    pub kind: ProblemKind,
    pub property: String,
}

/// The line `key=value` split at its first `=`.
pub open spec fn entry_of(line: Seq<char>) -> Option<(Seq<char>, Seq<char>)> {
    let i = first_index(line, '=');
    if i < 0 {
        None
    } else {
        Some((line.subrange(0, i), line.subrange(i + 1, line.len() as int)))
    }
}

/// The value that the last of `lines` naming `key` gives it.
pub open spec fn value_in(lines: Seq<Seq<char>>, key: Seq<char>) -> Option<Seq<char>>
    decreases lines.len(),
{
    if lines.len() == 0 {
        None
    } else {
        match entry_of(lines.last()) {
            Some(e) => if e.0 == key { Some(e.1) } else { value_in(lines.drop_last(), key) },
            None => value_in(lines.drop_last(), key),
        }
    }
}

/// The value that the probe output gives `key`: its lines are split at `'\n'`, and a later
/// line wins over an earlier one.
pub open spec fn probe_value(stdout: Seq<char>, key: Seq<char>) -> Option<Seq<char>> {
    value_in(split_on(stdout, '\n'), key)
}

/// A numeric property of at most `max`: its value, or why there is none.
pub open spec fn number_property(stdout: Seq<char>, key: Seq<char>, max: nat) -> Result<nat, ProblemKind> {
    match probe_value(stdout, key) {
        None => Err(ProblemKind::Missing),
        Some(v) => match parsed_unsigned(v, max) {
            Some(n) => Ok(n),
            None => Err(ProblemKind::Invalid),
        },
    }
}

/// The numerator and denominator texts of a frame rate `num/den` (parts after a second `/`
/// are ignored).
pub open spec fn rate_parts(v: Seq<char>) -> (Seq<char>, Seq<char>) {
    (split_on(v, '/')[0], split_on(v, '/')[1])
}

/// The frame rate `num/den` in hundredths as doubles give it: the nearest double to the rate,
/// times a hundred, rounded to the nearest double and then to the nearest integer with halves
/// up (see `ratio_hundredths`).
#[verifier::opaque]
pub open spec fn rate_hundredths(num: nat, den: nat) -> nat {
    ratio_hundredths(num, den)
}

/// The rate that stands for a fraction over zero: no number of frames takes any time at it.
pub open spec fn unbounded_rate() -> nat {
    u64::MAX as nat
}

/// Seconds that `frames` frames last at `rate` hundredths of a frame per second, as doubles
/// give it: the frame count over the nearest double to the rate, rounded to the nearest double
/// and then to the nearest integer with halves up. At rate zero `u64::MAX`, or zero when there
/// are no frames; zero at the unbounded rate and at rates of at least `2^52` frames a second,
/// which leave less than a millionth of a second. Counts of more than `u32::MAX` frames are
/// divided exactly, rounded to nearest with halves up, at most `u64::MAX`.
#[verifier::opaque]
pub open spec fn duration_seconds(frames: nat, rate: nat) -> nat {
    if rate == unbounded_rate() {
        0
    } else if rate == 0 {
        if frames == 0 { 0 } else { u64::MAX as nat }
    } else if frames <= u32::MAX {
        double_duration(frames, rate)
    } else if round_div((100 * frames) as int, rate as int) > u64::MAX {
        u64::MAX as nat
    } else {
        round_div((100 * frames) as int, rate as int) as nat
    }
}

/// `frames` over the nearest double to `rate / 100`, rounded to the nearest double and then
/// to the nearest integer with halves up; zero at rates of at least `2^52` a second.
pub open spec fn double_duration(frames: nat, rate: nat) -> nat {
    if rate >= significand_floor() * 100 {
        0
    } else {
        let r = nearest_double(rate, 100);
        let q = nearest_double(frames * r.1, r.0);
        round_div(q.0 as int, q.1 as int) as nat
    }
}

/// Seconds that `frames` last at `rate` hundredths of a frame per second, in doubles (see
/// `double_duration`).
fn duration_in_doubles(frames: u64, rate: u64) -> (r: u64)
    requires
        frames <= u32::MAX,
        1 <= rate,
    ensures
        r == double_duration(frames as nat, rate as nat),
{
    if rate as u128 >= 4_503_599_627_370_496 * 100 {
        return 0;
    }
    if frames == 0 {
        proof {
            let r = nearest_double(rate as nat, 100);
            assert(0 * r.1 == 0);
            assert(nearest_double(0, r.0) == (0nat, 1nat));
            assert(round_div(0, 1) == 0) by (nonlinear_arith);
        }
        return 0;
    }
    let (rm, rs) = nearest_double_below_floor(rate as u128, 100);
    proof {
        let (f, k) = (frames as int, rate as int);
        assert(k * rs < 2 * significand_floor() * 100);
        assert(rs * k < 2 * significand_floor() * 100) by (nonlinear_arith)
            requires k * rs < 2 * significand_floor() * 100;
        assert(f * rs * k <= f * (200 * significand_floor())) by (nonlinear_arith)
            requires rs * k < 2 * significand_floor() * 100, f >= 0;
        assert(f * 200 * significand_floor() <= 0xff_ffff_ffff * rm) by (nonlinear_arith)
            requires f <= 0xffff_ffff, rm >= significand_floor(), significand_floor() >= 0;
        assert(f * rs * k <= 0xff_ffff_ffff * rm * k) by (nonlinear_arith)
            requires f * rs * k <= f * (200 * significand_floor()), f * 200 * significand_floor() <= 0xff_ffff_ffff * rm, k >= 1;
        assert(f * rs <= 0xff_ffff_ffff * rm) by (nonlinear_arith)
            requires f * rs * k <= 0xff_ffff_ffff * rm * k, k >= 1;
    }
    quotient_side(frames as u128, rm, rs, 0xff_ffff_ffff) as u64
}

/// The bit rate estimated from the file size when ffprobe gives none: bits per second,
/// rounded to nearest with halves up; `u64::MAX` when the duration is zero and the file is
/// not empty.
pub open spec fn estimated_bit_rate(total_bytes: nat, duration: nat) -> nat {
    if duration == 0 {
        if total_bytes == 0 { 0 } else { u64::MAX as nat }
    } else if round_div((8 * total_bytes) as int, duration as int) > u64::MAX {
        u64::MAX as nat
    } else {
        round_div((8 * total_bytes) as int, duration as int) as nat
    }
}

/// The frame rate in hundredths, or why there is none; a fraction over zero gives the
/// unbounded rate. The text must hold a `/`.
pub open spec fn frame_rate_property(v: Seq<char>) -> Result<nat, ProblemKind> {
    let (n, d) = rate_parts(v);
    match (parsed_unsigned(n, u32::MAX as nat), parsed_unsigned(d, u32::MAX as nat)) {
        (Some(num), Some(den)) => if den == 0 { Ok(unbounded_rate()) } else { Ok(rate_hundredths(num, den)) },
        _ => Err(ProblemKind::Invalid),
    }
}

/// The first problem met in reading the output, in the order width, height, frame rates,
/// frame count, size, codec, and the property it concerns; `None` when it reads.
pub open spec fn probe_problem(stdout: Seq<char>) -> Option<(ProblemKind, Seq<char>)> {
    let width = number_property(stdout, "width"@, u32::MAX as nat);
    let height = number_property(stdout, "height"@, u32::MAX as nat);
    let rate = probe_value(stdout, "r_frame_rate"@);
    let frames = number_property(stdout, "nb_frames"@, u64::MAX as nat);
    let size = number_property(stdout, "size"@, u64::MAX as nat);
    if width is Err {
        Some((width->Err_0, "width"@))
    } else if height is Err {
        Some((height->Err_0, "height"@))
    } else if rate is None {
        Some((ProblemKind::Missing, "r_frame_rate"@))
    } else if probe_value(stdout, "avg_frame_rate"@) is None {
        Some((ProblemKind::Missing, "avg_frame_rate"@))
    } else if frame_rate_property(rate->0) is Err {
        Some((frame_rate_property(rate->0)->Err_0, "r_frame_rate"@))
    } else if frames is Err {
        Some((frames->Err_0, "nb_frames"@))
    } else if size is Err {
        Some((size->Err_0, "size"@))
    } else if probe_value(stdout, "codec_name"@) is None {
        Some((ProblemKind::Missing, "codec_name"@))
    } else {
        None
    }
}

/// Outputs that the reading cannot take: a frame rate without `/`, or frames of more than
/// `u32::MAX` pixels.
pub open spec fn probe_unreadable(stdout: Seq<char>) -> bool {
    let width = number_property(stdout, "width"@, u32::MAX as nat);
    let height = number_property(stdout, "height"@, u32::MAX as nat);
    let rate = probe_value(stdout, "r_frame_rate"@);
    ||| (width is Ok && height is Ok && rate is Some && probe_value(stdout, "avg_frame_rate"@) is Some
        && first_index(rate->0, '/') < 0)
    ||| (probe_problem(stdout) is None && width->Ok_0 * height->Ok_0 > u32::MAX)
}

/// `r` is what reading `stdout` for the file `file_name` at `path` gives.
pub open spec fn read_as(r: Result<VideoMetadata, MetadataError>, file_name: Seq<char>, path: Seq<char>, stdout: Seq<char>) -> bool {
    match probe_problem(stdout) {
        Some(p) => r matches Err(e) && e.kind == p.0 && e.property@ == p.1,
        None => {
            let w = number_property(stdout, "width"@, u32::MAX as nat)->Ok_0;
            let h = number_property(stdout, "height"@, u32::MAX as nat)->Ok_0;
            let rate_text = probe_value(stdout, "r_frame_rate"@)->0;
            let rate = frame_rate_property(rate_text)->Ok_0;
            let frames = number_property(stdout, "nb_frames"@, u64::MAX as nat)->Ok_0;
            let size = number_property(stdout, "size"@, u64::MAX as nat)->Ok_0;
            let duration = duration_seconds(frames, rate);
            let bit_rate = match number_property(stdout, "bit_rate"@, u64::MAX as nat) {
                Ok(b) => b,
                Err(_) => estimated_bit_rate(size, duration),
            };
            r matches Ok(m) && {
                &&& m.file_name@ == file_name
                &&& m.full_path@ == path
                &&& m.width == w
                &&& m.height == h
                &&& m.aspect_ratio == shape_of(w, h)
                &&& m.pixels_per_frame == w * h
                &&& m.frame_rate_hundredths == rate
                &&& m.is_variable_frame_rate == (rate_text != probe_value(stdout, "avg_frame_rate"@)->0)
                &&& m.total_frames == frames
                &&& m.duration_secs == duration
                &&& m.total_bytes == size
                &&& m.bit_rate == bit_rate
                &&& is_codec_for(m.codec, lowercase_text(probe_value(stdout, "codec_name"@)->0))
            }
        },
    }
}

/// The name of the file that `path` names.
pub uninterp spec fn file_name_of(path: Seq<char>) -> Option<Seq<char>>;

/// `Path::file_name` (std) of the path, as text (`to_string_lossy`): the last component of
/// the path, `None` when it ends in `..` or names a root or nothing. It depends on the path
/// alone; which component it is, is not stated here.
#[verifier::external_body]
fn path_file_name(path: &str) -> (r: Option<String>)
    ensures
        r matches Some(n) ==> file_name_of(path@) == Some(n@),
        r is None ==> file_name_of(path@) is None,
{
    std::path::Path::new(path).file_name().map(|n| n.to_string_lossy().into_owned())
}

fn problem(kind: ProblemKind, property: &str) -> (e: MetadataError)
    ensures
        e.kind == kind,
        e.property@ == property@,
{
    MetadataError { kind, property: property.to_owned() }
}


fn copy_part(s: &[char], from: usize, to: usize) -> (v: Vec<char>)
    requires
        from <= to <= s@.len(),
    ensures
        v@ == s@.subrange(from as int, to as int),
{
    let mut v: Vec<char> = Vec::new();
    let mut k = from;
    while k < to
        invariant
            from <= k <= to <= s@.len(),
            v@ == s@.subrange(from as int, k as int),
        decreases to - k,
    {
        v.push(s[k]);
        k += 1;
    }
    v
}

/// The value the last line naming `key` gives it.
fn lookup(lines: &Vec<Vec<char>>, key: &str) -> (r: Option<Vec<char>>)
    ensures
        r matches Some(v) ==> value_in(views(lines@), key@) == Some(v@),
        r is None ==> value_in(views(lines@), key@) is None,
{
    let key_chars = chars_of(key);
    let mut i = lines.len();
    assert(views(lines@).subrange(0, i as int) =~= views(lines@));
    while i > 0
        invariant
            i <= lines@.len(),
            key_chars@ == key@,
            value_in(views(lines@), key@) == value_in(views(lines@).subrange(0, i as int), key@),
        decreases i,
    {
        let ghost pre = views(lines@).subrange(0, i as int);
        assert(pre.drop_last() == views(lines@).subrange(0, i - 1));
        assert(pre.last() == lines@[i - 1]@);
        let line = &lines[i - 1];
        let at = find_char(line, '=');
        proof {
            lemma_first_index_range(line@, '=');
        }
        if at < line.len() {
            let name = copy_part(line, 0, at);
            if chars_equal(&name, &key_chars) {
                return Some(copy_part(line, at + 1, line.len()));
            }
        }
        i -= 1;
    }
    assert(views(lines@).subrange(0, 0) == Seq::<Seq<char>>::empty());
    None
}

/// A numeric property of at most `max`.
fn number(lines: &Vec<Vec<char>>, key: &str, max: u64) -> (r: Result<u64, MetadataError>)
    ensures
        match number_property_in(views(lines@), key@, max as nat) {
            Ok(n) => r == Ok::<u64, MetadataError>(n as u64),
            Err(k) => r matches Err(e) && e.kind == k && e.property@ == key@,
        },
{
    match lookup(lines, key) {
        None => Err(problem(ProblemKind::Missing, key)),
        Some(v) => match parse_unsigned(&v, max) {
            Some(n) => Ok(n),
            None => Err(problem(ProblemKind::Invalid, key)),
        },
    }
}

/// `number_property` over lines already split.
pub open spec fn number_property_in(lines: Seq<Seq<char>>, key: Seq<char>, max: nat) -> Result<nat, ProblemKind> {
    match value_in(lines, key) {
        None => Err(ProblemKind::Missing),
        Some(v) => match parsed_unsigned(v, max) {
            Some(n) => Ok(n),
            None => Err(ProblemKind::Invalid),
        },
    }
}

/// `n / d` rounded to nearest with halves up, at most `u64::MAX`.
fn saturating_round_div(n: u128, d: u128) -> (r: u64)
    requires
        0 < d <= u64::MAX,
        n <= 800 * (u64::MAX as u128),
    ensures
        r == (if round_div(n as int, d as int) > u64::MAX { u64::MAX as int } else { round_div(n as int, d as int) }),
{
    let q = (2 * n + d) / (2 * d);
    if q > u64::MAX as u128 {
        u64::MAX
    } else {
        q as u64
    }
}

impl VideoMetadata {
    /// Whether the probe output can be read at all: its frame rate holds a `/`, and its
    /// frames have at most `u32::MAX` pixels (see `probe_unreadable`).
    pub fn probe_readable(stdout: &str) -> (b: bool)
        ensures
            b == !probe_unreadable(stdout@),
    {
        let chars = chars_of(stdout);
        let lines = split_at_char(&chars, '\n');
        assert(views(lines@) == split_on(stdout@, '\n'));
        let width = number(&lines, "width", u32::MAX as u64);
        let height = number(&lines, "height", u32::MAX as u64);
        let rate = lookup(&lines, "r_frame_rate");
        let average_rate = lookup(&lines, "avg_frame_rate");
        match (width, height, rate, average_rate) {
            (Ok(w), Ok(h), Some(r), Some(_)) => {
                proof {
                    lemma_first_index_range(r@, '/');
                }
                if find_char(&r, '/') >= r.len() {
                    return false;
                }
                let rate_reads = Self::get_frame_rate(&r).is_ok();
                let frames_read = number(&lines, "nb_frames", u64::MAX).is_ok();
                let size_reads = number(&lines, "size", u64::MAX).is_ok();
                let codec_named = lookup(&lines, "codec_name").is_some();
                let all_read = rate_reads && frames_read && size_reads && codec_named;
                assert(w * h <= u32::MAX * u32::MAX) by (nonlinear_arith)
                    requires w <= u32::MAX, h <= u32::MAX;
                !(all_read && w * h > u32::MAX as u64)
            },
            _ => true,
        }
    }

    /// Reads the probe output of the video at `video_path`.
    pub fn from_stdout(video_path: &str, stdout: &str) -> (r: Result<VideoMetadata, MetadataError>)
        requires
            !probe_unreadable(stdout@),
        ensures
            match file_name_of(video_path@) {
                None => r matches Err(e) && e.kind == ProblemKind::NoFileName && e.property@.len() == 0,
                Some(n) => read_as(r, n, video_path@, stdout@),
            },
    {
        match path_file_name(video_path) {
            None => {
                let e = MetadataError { kind: ProblemKind::NoFileName, property: String::new() };
                Err(e)
            },
            Some(name) => Self::from_named_stdout(name, video_path, stdout),
        }
    }

    /// Reads the probe output of the video at `video_path`, whose file is `file_name`.
    pub fn from_named_stdout(file_name: String, video_path: &str, stdout: &str) -> (r: Result<VideoMetadata, MetadataError>)
        requires
            !probe_unreadable(stdout@),
        ensures
            read_as(r, file_name@, video_path@, stdout@),
    {
        let chars = chars_of(stdout);
        let lines = split_at_char(&chars, '\n');
        assert(views(lines@) == split_on(stdout@, '\n'));
        let width = match number(&lines, "width", u32::MAX as u64) {
            Ok(v) => v as u32,
            Err(e) => return Err(e),
        };
        let height = match number(&lines, "height", u32::MAX as u64) {
            Ok(v) => v as u32,
            Err(e) => return Err(e),
        };
        let rate_text = match lookup(&lines, "r_frame_rate") {
            Some(v) => v,
            None => return Err(problem(ProblemKind::Missing, "r_frame_rate")),
        };
        let average_rate_text = match lookup(&lines, "avg_frame_rate") {
            Some(v) => v,
            None => return Err(problem(ProblemKind::Missing, "avg_frame_rate")),
        };
        let is_variable_frame_rate = !chars_equal(&rate_text, &average_rate_text);
        let frame_rate = match Self::get_frame_rate(&rate_text) {
            Ok(v) => v,
            Err(kind) => return Err(problem(kind, "r_frame_rate")),
        };
        let total_frames = match number(&lines, "nb_frames", u64::MAX) {
            Ok(v) => v,
            Err(e) => return Err(e),
        };
        let total_bytes = match number(&lines, "size", u64::MAX) {
            Ok(v) => v,
            Err(e) => return Err(e),
        };
        let duration_secs = Self::duration_of(total_frames, frame_rate);
        let bit_rate = match number(&lines, "bit_rate", u64::MAX) {
            Ok(v) => v,
            Err(_) => Self::estimate_bit_rate(total_bytes, duration_secs),
        };
        let codec_text = match lookup(&lines, "codec_name") {
            Some(v) => v,
            None => return Err(problem(ProblemKind::Missing, "codec_name")),
        };
        let codec_name = string_from_chars(&codec_text);
        let codec = VideoCodec::from_ffmpeg_meta_data(codec_name.as_str());
        let aspect_ratio = AspectRatio::new(width, height);
        let pixels_per_frame = width * height;
        Ok(VideoMetadata {
            file_name,
            full_path: video_path.to_owned(),
            width,
            height,
            aspect_ratio,
            pixels_per_frame,
            frame_rate_hundredths: frame_rate,
            is_variable_frame_rate,
            total_frames,
            duration_secs,
            total_bytes,
            bit_rate,
            codec,
        })
    }

    /// The frame rate `num/den` in hundredths of a frame per second; `u64::MAX` for a
    /// fraction over zero.
    pub fn get_frame_rate(input: &[char]) -> (r: Result<u64, ProblemKind>)
        requires
            first_index(input@, '/') >= 0,
        ensures
            match frame_rate_property(input@) {
                Ok(v) => v <= u64::MAX && r == Ok::<u64, ProblemKind>(v as u64),
                Err(k) => r == Err::<u64, ProblemKind>(k),
            },
    {
        reveal(rate_hundredths);
        let parts = split_at_char(input, '/');
        proof {
            lemma_rate_has_two_parts(input@);
        }
        assert(views(parts@)[0] == parts@[0]@ && views(parts@)[1] == parts@[1]@);
        let num = parse_unsigned(&parts[0], u32::MAX as u64);
        let den = parse_unsigned(&parts[1], u32::MAX as u64);
        match (num, den) {
            (Some(n), Some(d)) => {
                if d == 0 {
                    Ok(u64::MAX)
                } else {
                    Ok(hundredths_of(n as u32, d as u32))
                }
            },
            _ => Err(ProblemKind::Invalid),
        }
    }

    /// Seconds that `total_frames` last at `frame_rate` hundredths of a frame per second.
    pub fn duration_of(total_frames: u64, frame_rate: u64) -> (r: u64)
        ensures
            r == duration_seconds(total_frames as nat, frame_rate as nat),
    {
        reveal(duration_seconds);
        if frame_rate == u64::MAX {
            0
        } else if frame_rate == 0 {
            if total_frames == 0 { 0 } else { u64::MAX }
        } else if total_frames <= u32::MAX as u64 {
            duration_in_doubles(total_frames, frame_rate)
        } else {
            saturating_round_div(100 * (total_frames as u128), frame_rate as u128)
        }
    }

    /// Bits per second of a file of `total_bytes` that plays for `duration_secs`.
    pub fn estimate_bit_rate(total_bytes: u64, duration_secs: u64) -> (r: u64)
        ensures
            r == estimated_bit_rate(total_bytes as nat, duration_secs as nat),
    {
        if duration_secs == 0 {
            if total_bytes == 0 { 0 } else { u64::MAX }
        } else {
            saturating_round_div(8 * (total_bytes as u128), duration_secs as u128)
        }
    }
}

/// A frame rate text with a `/` splits into at least two parts.
proof fn lemma_rate_has_two_parts(v: Seq<char>)
    requires
        first_index(v, '/') >= 0,
    ensures
        split_on(v, '/').len() >= 2,
    decreases v.len(),
{
    let d = v.drop_last();
    lemma_split_len(d, '/');
    if first_index(d, '/') >= 0 {
        lemma_rate_has_two_parts(d);
    }
}

} // verus!
