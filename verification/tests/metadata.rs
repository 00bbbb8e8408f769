use phomogen::ffmpeg::aspect_ratio::AspectRatio;
use phomogen::ffmpeg::video_metadata::{ProblemKind, VideoMetadata};
use phomogen::ffmpeg::{meta_data_from_listing, VideoCodec};

const DIR: &str = "my_dir/sub_dir/";
const FILE_NAME: &str = "my_video.mp4";

fn frame_rate(m: &VideoMetadata) -> f64 {
    m.frame_rate_hundredths as f64 / 100.0
}

#[test]
fn cfr_h264() {
    let ffprobe_output = [
        "codec_name=h264",
        "width=1920",
        "height=1080",
        "r_frame_rate=30/1",
        "avg_frame_rate=30/1",
        "bit_rate=20006151",
        "nb_frames=245911",
        "size=20633398382",
        "",
    ]
    .join("\n");

    let path = format!("{DIR}{FILE_NAME}");

    let metadata = match VideoMetadata::from_stdout(&path, &ffprobe_output) {
        Ok(m) => m,
        Err(_) => panic!("should not throw error"),
    };

    assert_eq!(metadata.file_name, FILE_NAME);
    assert_eq!(metadata.width, 1920);
    assert_eq!(metadata.height, 1080);
    assert_eq!(frame_rate(&metadata), 30.0);
    assert_eq!(metadata.is_variable_frame_rate, false);
    assert_eq!(metadata.bit_rate, 20006151);
    assert_eq!(metadata.total_frames, 245911);
    assert_eq!(metadata.total_bytes, 20633398382);
    assert_eq!(metadata.aspect_ratio, AspectRatio::Landscape16x9);
    assert_eq!(metadata.codec, VideoCodec::H264);

    let duration_secs = f64::round(metadata.total_frames as f64 / frame_rate(&metadata)) as u64;
    assert_eq!(metadata.duration_secs, duration_secs);
}

#[test]
fn vrf_hevc() {
    let ffprobe_output = [
        "codec_name=hevc",
        "width=3840",
        "height=2880",
        "r_frame_rate=30000/1001",
        "avg_frame_rate=54675/1823",
        "bit_rate=23101830",
        "nb_frames=7290",
        "size=709694454",
        "",
    ]
    .join("\n");

    let path = format!("{DIR}{FILE_NAME}");

    let metadata = match VideoMetadata::from_stdout(&path, &ffprobe_output) {
        Ok(m) => m,
        Err(_) => panic!("should not throw error"),
    };

    assert_eq!(metadata.file_name, FILE_NAME);
    assert_eq!(metadata.width, 3840);
    assert_eq!(metadata.height, 2880);
    assert_eq!(frame_rate(&metadata), 29.97);
    assert_eq!(metadata.is_variable_frame_rate, true);
    assert_eq!(metadata.bit_rate, 23101830);
    assert_eq!(metadata.total_frames, 7290);
    assert_eq!(metadata.total_bytes, 709694454);
    assert_eq!(metadata.aspect_ratio, AspectRatio::Landscape4x3);
    assert_eq!(metadata.codec, VideoCodec::HEVC);

    let duration_secs = f64::round(metadata.total_frames as f64 / frame_rate(&metadata)) as u64;
    assert_eq!(metadata.duration_secs, duration_secs);
}

fn listing(lines: &[&str]) -> String {
    lines.join("\n")
}

#[test]
fn later_lines_win_and_bit_rate_is_estimated() {
    let out = listing(&[
        "width=100",
        "width=640",
        "height=480",
        "r_frame_rate=25/1",
        "avg_frame_rate=25/1",
        "bit_rate=N/A",
        "nb_frames=250",
        "size=1000",
        "codec_name=VP9",
    ]);
    let m = VideoMetadata::from_named_stdout("v.webm".to_string(), "v.webm", &out).ok().unwrap();
    assert_eq!(m.width, 640);
    assert_eq!(m.pixels_per_frame, 640 * 480);
    assert_eq!(m.frame_rate_hundredths, 2500);
    assert_eq!(m.duration_secs, 10);
    assert_eq!(m.bit_rate, 800);
    assert_eq!(m.codec, VideoCodec::VP9);
    assert_eq!(m.full_path, "v.webm");
}

#[test]
fn missing_and_invalid_properties_are_reported() {
    let out = listing(&["height=480", "r_frame_rate=25/1", "avg_frame_rate=25/1", "nb_frames=1", "size=1", "codec_name=h264"]);
    let e = VideoMetadata::from_named_stdout("v".to_string(), "v", &out).err().unwrap();
    assert_eq!(e.kind, ProblemKind::Missing);
    assert_eq!(e.property, "width");

    let out = listing(&["width=6x", "height=480"]);
    let e = VideoMetadata::from_named_stdout("v".to_string(), "v", &out).err().unwrap();
    assert_eq!(e.kind, ProblemKind::Invalid);
    assert_eq!(e.property, "width");

    let out = listing(&["width=640", "height=480", "r_frame_rate=25/1", "avg_frame_rate=25/1", "nb_frames=1", "size=1"]);
    let e = VideoMetadata::from_named_stdout("v".to_string(), "v", &out).err().unwrap();
    assert_eq!(e.kind, ProblemKind::Missing);
    assert_eq!(e.property, "codec_name");
}

#[test]
fn path_without_file_name_is_refused() {
    let out = listing(&["width=640"]);
    let e = VideoMetadata::from_stdout("/", &out).err().unwrap();
    assert_eq!(e.kind, ProblemKind::NoFileName);
}

#[test]
fn frame_rates_and_durations() {
    let chars: Vec<char> = "30000/1001".chars().collect();
    assert_eq!(VideoMetadata::get_frame_rate(&chars), Ok(2997));
    let chars: Vec<char> = "x/1".chars().collect();
    assert_eq!(VideoMetadata::get_frame_rate(&chars), Err(ProblemKind::Invalid));
    assert_eq!(VideoMetadata::duration_of(7290, 2997), 243);
    assert_eq!(VideoMetadata::duration_of(0, 0), 0);
    assert_eq!(VideoMetadata::duration_of(5, 0), u64::MAX);
    assert_eq!(VideoMetadata::estimate_bit_rate(100, 0), u64::MAX);
    assert_eq!(VideoMetadata::estimate_bit_rate(0, 0), 0);
    assert_eq!(VideoMetadata::estimate_bit_rate(1000, 10), 800);
}

#[test]
fn plain_listing_is_read_by_position() {
    let m = meta_data_from_listing("1920\n1080\n30/1\n30/1\n300\n").unwrap();
    assert_eq!((m.width, m.height, m.frame_rate_hundredths, m.is_variable_frame_rate, m.total_frames, m.duration_secs), (1920, 1080, 3000, false, 300, 10));
    assert!(meta_data_from_listing("1920\nx\n30/1\n30/1\n300\n").is_err());
}

fn probe_output(rate: &str, width: &str, height: &str) -> String {
    [
        "codec_name=h264".to_string(),
        format!("width={width}"),
        format!("height={height}"),
        format!("r_frame_rate={rate}"),
        format!("avg_frame_rate={rate}"),
        "nb_frames=100".to_string(),
        "size=1000".to_string(),
        String::new(),
    ]
    .join("\n")
}

#[test]
fn probe_output_is_readable_unless_the_rate_has_no_slash_or_frames_are_too_large() {
    assert!(VideoMetadata::probe_readable(&probe_output("30/1", "1920", "1080")));
    assert!(!VideoMetadata::probe_readable(&probe_output("30", "1920", "1080")));
    assert!(!VideoMetadata::probe_readable(&probe_output("30/1", "70000", "70000")));
    // A property that is missing is reported by the reading itself.
    assert!(VideoMetadata::probe_readable(&probe_output("30", "wide", "1080")));
    assert!(VideoMetadata::probe_readable(&probe_output("30/1", "70000", "0")));
}

#[test]
fn a_frame_rate_over_zero_takes_no_time() {
    let out = listing(&["width=640", "height=480", "r_frame_rate=25/0", "avg_frame_rate=25/1", "nb_frames=100", "size=1", "codec_name=h264"]);
    let m = VideoMetadata::from_named_stdout("v".to_string(), "v", &out).ok().unwrap();
    assert_eq!(m.frame_rate_hundredths, u64::MAX);
    assert_eq!(m.duration_secs, 0);
    assert_eq!(m.bit_rate, u64::MAX);
    assert!(m.is_variable_frame_rate);

    let out = listing(&["width=640", "height=480", "r_frame_rate=0/0", "avg_frame_rate=0/0", "nb_frames=100", "size=0", "codec_name=h264"]);
    let m = VideoMetadata::from_named_stdout("v".to_string(), "v", &out).ok().unwrap();
    assert_eq!(m.duration_secs, 0);
    assert_eq!(m.bit_rate, 0);
}

#[test]
fn frames_without_height_have_an_unbounded_shape() {
    let out = listing(&["width=640", "height=0", "r_frame_rate=25/1", "avg_frame_rate=25/1", "nb_frames=50", "size=1", "codec_name=h264"]);
    let m = VideoMetadata::from_named_stdout("v".to_string(), "v", &out).ok().unwrap();
    assert_eq!(m.aspect_ratio, AspectRatio::Unbounded);
    assert_eq!(m.aspect_ratio.label(), "inf:1");
    assert!(!m.aspect_ratio.is_vertical());
    assert_eq!(m.pixels_per_frame, 0);
    assert_eq!(m.duration_secs, 2);

    let out = listing(&["width=0", "height=0", "r_frame_rate=25/1", "avg_frame_rate=25/1", "nb_frames=50", "size=1", "codec_name=h264"]);
    let m = VideoMetadata::from_named_stdout("v".to_string(), "v", &out).ok().unwrap();
    assert_eq!(m.aspect_ratio, AspectRatio::Undetermined);
    assert_eq!(m.aspect_ratio.label(), "NaN:1");
}

#[test]
fn frame_rates_and_durations_round_as_double_precision_does() {
    let out = listing(&["width=640", "height=480", "r_frame_rate=23/40", "avg_frame_rate=23/40", "nb_frames=1000", "size=1", "codec_name=h264"]);
    let m = VideoMetadata::from_named_stdout("v".to_string(), "v", &out).ok().unwrap();
    assert_eq!(m.frame_rate_hundredths, 57);
    for (num, den) in [(30000u32, 1001u32), (24000, 1001), (23, 40), (1, 3), (60, 1), (7, 8)] {
        for frames in [0u64, 1, 999, 123_457, 4_000_000_000] {
            let fps = num as f64 / den as f64;
            let rate = (fps * 100.0).round() / 100.0;
            let expected_duration = (frames as f64 / rate).round() as u64;
            let text = listing(&[
                "width=640",
                "height=480",
                &format!("r_frame_rate={num}/{den}"),
                "avg_frame_rate=1/1",
                &format!("nb_frames={frames}"),
                "size=1",
                "codec_name=h264",
            ]);
            let m = VideoMetadata::from_named_stdout("v".to_string(), "v", &text).ok().unwrap();
            assert_eq!(m.frame_rate_hundredths, (fps * 100.0).round() as u64, "{num}/{den}");
            assert_eq!(m.duration_secs, expected_duration, "{num}/{den}, {frames} frames");
        }
    }
}
