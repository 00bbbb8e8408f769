use phomogen::ffmpeg::crops::CropSetting;

fn double_precision_tiles(resize: f64, pos_x: f64, pos_y: f64, frame_width: u32, frame_height: u32, tiles_x: u32, tiles_y: u32) -> Vec<(u32, u32, u32, u32, u32)> {
    let ratio_16_9: f64 = 16.0 / 9.0;
    let cropped_width = f64::round((frame_width as f64 / 100.0) * resize) as u32;
    let cropped_height = f64::round(cropped_width as f64 / ratio_16_9) as u32;
    let crop_start_x = f64::round((frame_width as f64 / 100.0) * pos_x) as u32;
    let crop_start_y = f64::round((frame_height as f64 / 100.0) * pos_y) as u32;
    let grid_width = f64::round(cropped_width as f64 / tiles_x as f64) as u32;
    let grid_height = f64::round(cropped_height as f64 / tiles_y as f64) as u32;
    let mut tiles = Vec::new();
    for grid_y in 0..tiles_y {
        for grid_x in 0..tiles_x {
            let start_x = crop_start_x + grid_width * grid_x;
            let end_x = std::cmp::min(start_x + grid_width, frame_width);
            let start_y = crop_start_y + grid_height * grid_y;
            let end_y = std::cmp::min(start_y + grid_height, frame_height);
            tiles.push((start_x, end_x, start_y, end_y, (end_x - start_x) * (end_y - start_y)));
        }
    }
    tiles
}

#[test]
fn crop_tiles_round_as_double_precision_does() {
    let table: [(f64, f64, f64); 23] = [
        (100.0, 0.0, 0.0),
        (50.0, 0.0, 0.0),
        (50.0, 25.0, 0.0),
        (50.0, 50.0, 0.0),
        (50.0, 0.0, 25.0),
        (50.0, 25.0, 25.0),
        (50.0, 50.0, 25.0),
        (50.0, 0.0, 50.0),
        (50.0, 25.0, 50.0),
        (50.0, 50.0, 50.0),
        (50.0, 12.5, 12.5),
        (50.0, 37.5, 12.5),
        (50.0, 12.5, 37.5),
        (50.0, 37.5, 37.5),
        (66.666, 0.0, 0.0),
        (66.666, 16.666, 0.0),
        (66.666, 33.333, 0.0),
        (66.666, 0.0, 16.666),
        (66.666, 16.666, 16.666),
        (66.666, 33.333, 16.666),
        (66.666, 0.0, 33.333),
        (66.666, 16.666, 33.333),
        (66.666, 33.333, 33.333),
    ];
    let mut checked = 0;
    for frame_width in 16..1000u32 {
        let frame_height = (frame_width as f64 / (16.0 / 9.0)).round() as u32;
        for (tiles_x, tiles_y) in [(1u32, 1u32), (2, 2), (3, 2), (5, 3)] {
            let Ok(crops) = CropSetting::all_crops(frame_width, frame_height, tiles_x, tiles_y) else {
                continue;
            };
            for (crop, (resize, pos_x, pos_y)) in crops.iter().zip(table.iter()) {
                let tiles: Vec<(u32, u32, u32, u32, u32)> = crop
                    .tiles
                    .iter()
                    .map(|t| (t.start_x, t.end_x, t.start_y, t.end_y, t.total_pixels))
                    .collect();
                assert_eq!(
                    tiles,
                    double_precision_tiles(*resize, *pos_x, *pos_y, frame_width, frame_height, tiles_x, tiles_y),
                    "{frame_width}x{frame_height}, {tiles_x}x{tiles_y}, {resize} {pos_x} {pos_y}"
                );
                checked += 1;
            }
        }
    }
    assert!(checked > 1000);
}
