use phomogen::ffmpeg::crops::CropLevel;
use phomogen::app::frame_data::{Color, VideoColorIndexDatabase};
use phomogen::app::system_info::CoreLimits;
use phomogen::app::{database_file_name, App, AppStage, KeyOutcome, KeyPress, VideoFile, VideoIndexingReport, VideoIndexStatus};
use phomogen::ffmpeg::video_metadata::VideoMetadata;
use phomogen::tasks::load_databases::LoadDatabaseProgressReport;

fn metadata(name: &str, frames: u64, seconds: u64) -> VideoMetadata {
    let out = format!(
        "width=1920\nheight=1080\nr_frame_rate=25/1\navg_frame_rate=25/1\nnb_frames={frames}\nsize=1000\ncodec_name=h264\n"
    );
    let mut m = VideoMetadata::from_named_stdout(name.to_string(), name, &out).ok().unwrap();
    m.duration_secs = seconds;
    m
}

fn app_with_videos(names: &[&str]) -> App {
    let mut app = App::new("work", CoreLimits::new(Some(4)), vec![1, 2, 3], None);
    let videos = names.iter().map(|n| VideoFile::new(metadata(n, 100, 60))).collect();
    app.receive_videos(videos);
    app
}

#[test]
fn a_new_app_starts_with_defaults() {
    let app = App::new("work", CoreLimits::new(None), vec![7], Some((true, Color { r: 1, g: 2, b: 3 }, Color { r: 4, g: 5, b: 6 })));
    assert_eq!(app.stage, AppStage::Initial);
    assert_eq!((app.color_tiles_x, app.mosaic_tiles_x), (4, 40));
    assert!(app.database_dir.ends_with("pmg_data"));
    assert!(app.mosaics_dir.ends_with("pmg_mosaics"));
    assert_eq!(app.get_srgb_profile(), vec![7]);
    assert_eq!(app.terminal_palette.foreground_color, Color { r: 1, g: 2, b: 3 });
}

#[test]
fn the_video_list_wraps_and_chooses() {
    let mut app = app_with_videos(&["a.mp4", "b.mp4", "c.mp4"]);
    assert_eq!(app.stage, AppStage::VideoSelect);
    assert!(app.videos[0].is_chosen);
    assert_eq!(app.handle_key(KeyPress::Up), KeyOutcome::Redraw);
    assert_eq!(app.current_video_index, 2);
    app.handle_key(KeyPress::Down);
    assert_eq!(app.current_video_index, 0);
    app.handle_key(KeyPress::Toggle);
    assert!(!app.videos[0].is_chosen);
    assert_eq!(app.handle_key(KeyPress::Confirm), KeyOutcome::Nothing);
    app.handle_key(KeyPress::ChooseAll);
    assert!(app.videos.iter().all(|v| v.is_chosen));
    assert_eq!(app.total_selected_video_duration(), 180);
    assert_eq!(app.total_selected_video_frames(), 300);
}

#[test]
fn confirming_videos_starts_indexing_then_loading() {
    let mut app = app_with_videos(&["a.mp4", "b.mp4"]);
    app.handle_key(KeyPress::Confirm);
    assert_eq!(app.stage, AppStage::GenerateMosaicDatabase);
    let report = app.videos[0].indexing_report.as_ref().unwrap();
    assert_eq!((report.file_name.as_str(), report.total_frames, report.status), ("a.mp4", 100, VideoIndexStatus::NotStarted));
    assert!(app.videos[1].indexing_report.is_none());
    assert_eq!(app.start_next_indexing(), Some(0));

    let mut finished = VideoIndexingReport::new("a.mp4", 100);
    finished.status = VideoIndexStatus::Finished;
    assert!(app.record_indexing_report(finished));
    let path = app.videos[0].database_path.clone().unwrap();
    assert!(path.ends_with(&database_file_name("a.mp4", 4, 4)));
    assert_eq!(database_file_name("a.mp4", 4, 4), "a.mp4-4x4.pmgd");
    assert_eq!(app.start_next_indexing(), None);
    assert_eq!(app.stage, AppStage::LoadMosaicDatabase);

    assert!(app.start_loading());
    let report = LoadDatabaseProgressReport {
        video_file_name: "a.mp4".to_string(),
        total_frames_processed: 100,
        dropped_frames: 0,
        database: Some(VideoColorIndexDatabase::new(4, 4, vec![])),
    };
    assert!(app.record_load_report(report));
    assert_eq!(app.stage, AppStage::ImageSelect);
    assert!(app.videos[0].database.is_some());
    assert!(!app.videos[0].is_loading_database);
}

#[test]
fn quitting_from_any_stage() {
    let mut app = app_with_videos(&["a.mp4"]);
    assert_eq!(app.handle_key(KeyPress::Quit), KeyOutcome::Quit);
    assert_eq!(app.stage, AppStage::Quitting);
}

#[test]
fn unknown_reports_change_nothing() {
    let mut app = app_with_videos(&["a.mp4"]);
    assert!(!app.record_indexing_report(VideoIndexingReport::new("other.mp4", 1)));
    assert!(app.videos[0].indexing_report.is_none());
    assert_eq!(app.video_indexing_totals(), (0, 0));
}

#[test]
fn crop_levels_can_be_disallowed_except_the_essential_ones() {
    let mut app = App::new("work", CoreLimits::new(Some(4)), vec![], None);
    assert_eq!(app.allowed_crops(), &[CropLevel::Essential, CropLevel::Moderate, CropLevel::Aggressive][..]);
    app.disallow_crop_level(CropLevel::Aggressive);
    assert_eq!(app.allowed_crops(), &[CropLevel::Essential, CropLevel::Moderate][..]);
    app.disallow_crop_level(CropLevel::Essential);
    app.disallow_crop_level(CropLevel::Aggressive);
    assert_eq!(app.allowed_crops(), &[CropLevel::Essential, CropLevel::Moderate][..]);
    app.allow_crop_level(CropLevel::Aggressive);
    app.allow_crop_level(CropLevel::Moderate);
    assert_eq!(app.allowed_crops(), &[CropLevel::Essential, CropLevel::Moderate, CropLevel::Aggressive][..]);
}
