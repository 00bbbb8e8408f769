use phomogen::ffmpeg::crops::CropLevel;
use phomogen::app::frame_data::{Color, FrameCrop, FrameData, VideoColorIndexDatabase};
use phomogen::app::image_file::ImageFile;
use phomogen::app::{ImageType, TileShape};
use phomogen::color_matcher::{ColorMatcher, ImageTile};

fn c(r: u8, g: u8, b: u8) -> Color {
    Color { r, g, b }
}

fn crop(resize: u32, pos_x: u32, pos_y: u32, colors: Vec<Color>) -> FrameCrop {
    let mut crop = FrameCrop::init(2, resize, pos_x, pos_y, CropLevel::Essential);
    crop.colors = colors;
    crop
}

fn frame(frame_index: u32, crops: Vec<FrameCrop>) -> FrameData {
    let mut frame = FrameData::new(frame_index);
    frame.crops = crops;
    frame
}

fn tile() -> ImageTile {
    ImageTile { colors: vec![c(10, 10, 10), c(200, 200, 200)] }
}

#[test]
fn the_exact_crop_is_found_and_an_equal_one_later_does_not_replace_it() {
    let exact = crop(50_000, 25_000, 0, vec![c(10, 10, 10), c(200, 200, 200)]);
    let mirrored = crop(66_666, 0, 16_666, vec![c(200, 200, 200), c(10, 10, 10)]);
    let db = VideoColorIndexDatabase::new(2, 1, vec![frame(7, vec![exact]), frame(9, vec![mirrored])]);
    let mut matcher = ColorMatcher::new(1, 1);
    matcher.add_database("holiday.mp4", &db);

    let m = matcher.find_nearest_color(&tile(), 3);
    assert_eq!(m.tile_index, 3);
    assert_eq!(m.video_filename, "holiday.mp4");
    assert_eq!(m.frame_index, 7);
    assert_eq!((m.crop_resize, m.crop_pos_x, m.crop_pos_y), (50_000, 25_000, 0));
    assert!(!m.is_flipped);
}

#[test]
fn a_mirrored_crop_can_be_the_nearest() {
    let far = crop(100_000, 0, 0, vec![c(90, 90, 90), c(90, 90, 90)]);
    let mirrored = crop(66_666, 0, 16_666, vec![c(200, 200, 200), c(10, 10, 10)]);
    let db = VideoColorIndexDatabase::new(2, 1, vec![frame(0, vec![far]), frame(4, vec![mirrored])]);
    let mut matcher = ColorMatcher::new(1, 1);
    matcher.add_database("a.mp4", &db);

    let m = matcher.find_nearest_color(&tile(), 0);
    assert_eq!(m.frame_index, 4);
    assert_eq!((m.crop_resize, m.crop_pos_x, m.crop_pos_y), (66_666, 0, 16_666));
    assert!(m.is_flipped);
}

#[test]
fn the_video_of_the_nearest_crop_is_named() {
    // distance 3 * 2^2 = 12 in the first video, 6 * 1^2 = 6 in the second
    let first = VideoColorIndexDatabase::new(2, 1, vec![frame(1, vec![crop(100_000, 0, 0, vec![c(12, 10, 10), c(200, 200, 200)])])]);
    let second = VideoColorIndexDatabase::new(2, 1, vec![frame(2, vec![crop(50_000, 0, 0, vec![c(10, 11, 10), c(200, 200, 200)])])]);
    let mut matcher = ColorMatcher::new(1, 1);
    matcher.add_database("first.mp4", &first);
    matcher.add_database("second.mp4", &second);

    let m = matcher.find_nearest_color(&tile(), 0);
    assert_eq!(m.video_filename, "second.mp4");
    assert_eq!(m.frame_index, 2);
    assert_eq!(m.crop_resize, 50_000);
}

#[test]
fn without_databases_the_default_match_comes_back() {
    let matcher = ColorMatcher::new(1, 1);
    let m = matcher.find_nearest_color(&tile(), 5);
    assert_eq!(m.tile_index, 5);
    assert_eq!(m.video_filename, "");
    assert_eq!(m.frame_index, 0);
    assert_eq!((m.crop_resize, m.crop_pos_x, m.crop_pos_y), (100_000, 0, 0));
    assert!(!m.is_flipped);
}

#[test]
fn a_crop_with_too_few_colours_is_never_chosen() {
    let short = crop(100_000, 0, 0, vec![c(10, 10, 10)]);
    let db = VideoColorIndexDatabase::new(2, 1, vec![frame(3, vec![short])]);
    let mut matcher = ColorMatcher::new(1, 1);
    matcher.add_database("short.mp4", &db);
    let m = matcher.find_nearest_color(&tile(), 0);
    assert_eq!(m.video_filename, "");
    assert_eq!(m.frame_index, 0);
}

#[test]
fn adding_a_database_again_under_its_name_replaces_it() {
    let old = VideoColorIndexDatabase::new(2, 1, vec![frame(1, vec![crop(100_000, 0, 0, vec![c(10, 10, 10), c(200, 200, 200)])])]);
    let new = VideoColorIndexDatabase::new(2, 1, vec![frame(8, vec![crop(100_000, 0, 0, vec![c(0, 0, 0), c(0, 0, 0)])])]);
    let mut matcher = ColorMatcher::new(1, 1);
    matcher.add_database("clip.mp4", &old);
    matcher.add_database("clip.mp4", &new);
    let m = matcher.find_nearest_color(&tile(), 0);
    assert_eq!(m.frame_index, 8);
}

#[test]
fn workers_share_the_tiles_and_each_tile_gets_its_match() {
    let db = VideoColorIndexDatabase::new(2, 1, vec![frame(6, vec![crop(100_000, 0, 0, vec![c(10, 10, 10), c(200, 200, 200)])])]);
    let mut matcher = ColorMatcher::new(2, 2);
    assert_eq!(matcher.thread_count(), 1);
    matcher.set_thread_count(0);
    assert_eq!(matcher.thread_count(), 1);
    matcher.set_thread_count(3);
    assert_eq!(matcher.thread_count(), 3);
    assert_eq!(matcher.worker_ranges(), vec![(0, 1), (1, 2), (2, 4)]);

    matcher.add_database("v.mp4", &db);
    let tiles = vec![tile(), tile(), tile(), tile()];
    let matches = matcher.match_tile_range(&tiles, 2, 4);
    assert_eq!(matches.len(), 2);
    assert_eq!(matches[0].tile_index, 2);
    assert_eq!(matches[1].tile_index, 3);
    assert!(matches.iter().all(|m| m.frame_index == 6 && m.video_filename == "v.mp4"));
}

#[test]
fn an_image_keeps_its_layouts_per_tile_shape() {
    let image = ImageFile::new("p.png".to_string(), "dir/p.png".to_string(), 1920, 1080, ImageType::PNG);
    let landscape = image.tiling_options_for(TileShape::Landscape16x9).expect("landscape layouts");
    assert!(landscape.iter().any(|o| o.num_tiles_x == 40 && o.num_tiles_y == 40));
    assert!(image.tiling_options_for(TileShape::Square).is_some());
    assert!(image.tiling_options_for(TileShape::Portrait9x16).is_some());
}
