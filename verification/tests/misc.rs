use phomogen::app::{ImageFile, ImageType, VideoFile};
use phomogen::ffmpeg::video_metadata::VideoMetadata;
use phomogen::tasks::name_order::text_less;
use phomogen::tasks::read_files::{sort_images_by_name, sort_videos_by_name};
use phomogen::app::video_indexing_report::{VideoIndexCore, VideoIndexStatus};
use phomogen::app::VideoIndexingReport;
use phomogen::ffmpeg::color_extractor::{FrameCounter, FrameProgress};
use phomogen::tasks::generate_database::{core_temp_file_name, initial_report, worker_frame_ranges};
use phomogen::tasks::read_files::{eq_ignore_ascii_case, has_image_extension, has_video_extension};
use phomogen::ui::{finding_matches, video_selection};

#[test]
fn durations_are_written_two_ways() {
    assert_eq!(finding_matches::format_duration(3725), "1h 2m 5s");
    assert_eq!(video_selection::format_duration(3725), "1:02:05");
    assert_eq!(video_selection::format_duration(59), "0:00:59");
    assert_eq!(finding_matches::format_duration(0), "0h 0m 0s");
}

#[test]
fn extensions_are_matched_without_regard_to_case() {
    assert!(has_video_extension("MP4"));
    assert!(has_video_extension("webm"));
    assert!(!has_video_extension("mp3"));
    assert!(has_image_extension("JpEg"));
    assert!(!has_image_extension("gif"));
    assert!(eq_ignore_ascii_case("Abc", "aBC"));
    assert!(!eq_ignore_ascii_case("Abc", "Ab"));
}

#[test]
fn indexing_reports_follow_the_workers() {
    let ranges = worker_frame_ranges(10, 3);
    assert_eq!(ranges, vec![(0, 3), (3, 6), (6, 10)]);
    let mut report = initial_report("v.mp4", 10, &ranges);
    assert_eq!(report.status, VideoIndexStatus::Initialising);
    assert_eq!(report.cores.iter().map(|c| c.total_frames).collect::<Vec<_>>(), vec![3, 3, 4]);
    report.apply_progress(1, 3, 2500, 7);
    assert_eq!(report.status, VideoIndexStatus::Running);
    assert_eq!(report.cores[1].status, VideoIndexStatus::Finished);
    assert_eq!(report.frames_processed(), 3);
    report.apply_progress(0, 3, 100, 1);
    report.apply_progress(2, 4, 100, 1);
    assert_eq!(report.status, VideoIndexStatus::Finished);
    assert_eq!(report.total_memory_usage(), 9);
    assert_eq!(report.average_fps_hundredths(), 2700);
    assert_eq!(core_temp_file_name("v.mp4", 2), "v.mp4_core-2_temp.pmgd");
}

#[test]
fn worker_percentages() {
    let mut core = VideoIndexCore::new(0, 3);
    assert_eq!(core.percentage_complete_thousandths(), 0);
    core.status = VideoIndexStatus::Running;
    core.frames_processed = 1;
    assert_eq!(core.percentage_complete_thousandths(), 33333);
    core.status = VideoIndexStatus::Finished;
    assert_eq!(core.percentage_complete_thousandths(), 100000);
    let report = VideoIndexingReport::new("x", 0);
    assert_eq!(report.frames_processed(), 0);
}

#[test]
fn frame_counter_reports_and_finishes() {
    let mut counter = FrameCounter::new(120, 250);
    assert_eq!(counter.total_frames(), 130);
    assert_eq!(counter.frame_written(), FrameProgress::Quiet);
    assert_eq!(counter.frame_written(), FrameProgress::Quiet);
    assert_eq!(counter.frame_written(), FrameProgress::Report(3));
    while counter.current_frame() < 249 {
        counter.frame_written();
    }
    assert_eq!(counter.frame_written(), FrameProgress::Finished(130));
}

fn video_named(name: &str) -> VideoFile {
    let out = "width=1920\nheight=1080\nr_frame_rate=25/1\navg_frame_rate=25/1\nnb_frames=10\nsize=1000\ncodec_name=h264\n";
    VideoFile::new(VideoMetadata::from_named_stdout(name.to_string(), name, out).ok().unwrap())
}

#[test]
fn videos_are_listed_by_name_without_regard_to_case_keeping_ties_in_order() {
    let videos = vec![video_named("b.mp4"), video_named("A.mp4"), video_named("Zed.mkv"), video_named("a.mp4")];
    let sorted = sort_videos_by_name(videos);
    let names: Vec<&str> = sorted.iter().map(|v| v.metadata.file_name.as_str()).collect();
    assert_eq!(names, vec!["A.mp4", "a.mp4", "b.mp4", "Zed.mkv"]);
}

#[test]
fn images_are_listed_by_name_without_regard_to_case() {
    let image = |name: &str| ImageFile::new(name.to_string(), format!("dir/{name}"), 64, 36, ImageType::PNG);
    let sorted = sort_images_by_name(vec![image("Sunset.png"), image("beach.JPG"), image("sunrise.png")]);
    let names: Vec<&str> = sorted.iter().map(|i| i.file_name.as_str()).collect();
    assert_eq!(names, vec!["beach.JPG", "sunrise.png", "Sunset.png"]);
}

#[test]
fn text_order_is_by_character_code_then_length() {
    let chars = |s: &str| s.chars().collect::<Vec<char>>();
    assert!(text_less(&chars("abc"), &chars("abd")));
    assert!(text_less(&chars("ab"), &chars("abc")));
    assert!(!text_less(&chars("abc"), &chars("abc")));
    assert!(text_less(&chars("Z"), &chars("a")));
    assert!(!text_less(&chars("b"), &chars("abc")));
}
