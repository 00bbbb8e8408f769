use phomogen::tasks::generate_mosaic::stored_tile;
use phomogen::color_matcher::FrameMatch;
use phomogen::raster::TileImage;
use phomogen::tasks::generate_mosaic::{
    compose_tile, group_matches_by_video, mosaic_file_name, mosaic_layout, temporary_dir_name, tile_file_name, MosaicLayout,
};
use phomogen::tasks::work_split::split_work;

fn fm(tile_index: u32, video: &str) -> FrameMatch {
    FrameMatch {
        tile_index,
        video_filename: video.to_string(),
        frame_index: tile_index * 10,
        crop_resize: 100_000,
        crop_pos_x: 0,
        crop_pos_y: 0,
        is_flipped: false,
    }
}

#[test]
fn layout_of_a_forty_by_forty_mosaic() {
    let l = mosaic_layout(40, 40);
    assert_eq!(l, MosaicLayout { tile_width: 250, tile_height: 141, width: 10000, height: 5640 });
}

#[test]
fn file_names() {
    assert_eq!(tile_file_name(3, 12), "3x12.png");
    assert_eq!(mosaic_file_name("holiday.jpg", 40, 30, "png"), "holiday.jpg_40x30.png");
    assert_eq!(mosaic_file_name("holiday.jpg", 40, 30, "jpeg"), "holiday.jpg_40x30.jpeg");
    assert_eq!(temporary_dir_name("holiday.jpg"), "holiday.jpg_temp");
}

#[test]
fn matches_are_grouped_by_video_in_order() {
    let matches = vec![fm(0, "b.mp4"), fm(1, "a.mp4"), fm(2, "b.mp4"), fm(3, "c.mp4"), fm(4, "a.mp4")];
    let groups = group_matches_by_video(&matches);
    let names: Vec<&str> = groups.iter().map(|g| g.video_filename.as_str()).collect();
    assert_eq!(names, vec!["b.mp4", "a.mp4", "c.mp4"]);
    let tiles: Vec<Vec<u32>> = groups.iter().map(|g| g.matches.iter().map(|m| m.tile_index).collect()).collect();
    assert_eq!(tiles, vec![vec![0, 2], vec![1, 4], vec![3]]);
    assert_eq!(groups[1].matches[1].frame_index, 40);
}

#[test]
fn workers_share_the_matches() {
    assert_eq!(split_work(10, 3), vec![(0, 3), (3, 6), (6, 10)]);
    assert_eq!(split_work(2, 4), vec![(0, 0), (0, 0), (0, 0), (0, 2)]);
}

#[test]
fn a_composed_tile_lands_at_its_row_and_column() {
    let layout = MosaicLayout { tile_width: 2, tile_height: 1, width: 4, height: 2 };
    let mut canvas = TileImage { width: 4, height: 2, data: vec![0; 24] };
    let tile = TileImage { width: 2, height: 1, data: vec![9, 8, 7, 6, 5, 4] };
    compose_tile(&mut canvas, layout, 2, 2, 3, tile, None, None, None, None);
    let mut expected = vec![0u8; 24];
    expected[18..24].copy_from_slice(&[9, 8, 7, 6, 5, 4]);
    assert_eq!(canvas.data, expected);
}

#[test]
fn extracted_tiles_are_stored_at_a_fixed_size() {
    let tile = TileImage { width: 64, height: 36, data: [30u8, 60, 90].repeat(64 * 36) };
    let stored = stored_tile(&tile);
    assert_eq!((stored.width, stored.height), (960, 540));
    assert_eq!(stored.data.len(), 3 * 960 * 540);
    assert_eq!(&stored.data[..3], &[30, 60, 90]);
}

#[test]
fn mosaic_tile_heights_round_as_double_precision_does() {
    let ratio = 7680u32 as f64 / 4320u32 as f64;
    for tiles_x in 1..=200u32 {
        let layout = phomogen::tasks::generate_mosaic::mosaic_layout(tiles_x, 3);
        let tile_width = (10000u32 as f64 / tiles_x as f64).round() as u32;
        let tile_height = (tile_width as f64 / ratio).round() as u32;
        assert_eq!((layout.tile_width, layout.tile_height), (tile_width, tile_height), "{tiles_x}");
    }
}
