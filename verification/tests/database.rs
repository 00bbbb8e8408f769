use phomogen::app::frame_data::Color;
use phomogen::ffmpeg::color_extractor::{FrameColorExtractionAlgorithm, PixelArray, SummedAreaTable};
use phomogen::ffmpeg::crops::{CropLevel, CropSetting};
use phomogen::tasks::load_databases::{parse_database_line, DatabaseLoader};

fn frame(width: u32, height: u32) -> Vec<u8> {
    let mut pixels = Vec::with_capacity((width * height * 3) as usize);
    for y in 0..height {
        for x in 0..width {
            pixels.push((x % 256) as u8);
            pixels.push((y % 256) as u8);
            pixels.push(((x + y) % 256) as u8);
        }
    }
    pixels
}

#[test]
fn written_lines_read_back_as_their_crops() {
    let (width, height, tiles) = (640, 360, 3);
    let pixels = frame(width, height);
    let crops = CropSetting::all_crops(width, height, tiles, tiles).unwrap();
    let mut extractor = PixelArray::new(width, CropSetting::all_crops(width, height, tiles, tiles).unwrap());
    let text = extractor.process_frame(42, &pixels);

    let mut loader = DatabaseLoader::new(tiles, tiles, 100);
    let mut new_frames = 0;
    for line in text.split_inclusive('\n') {
        if loader.add_line(line) {
            new_frames += 1;
        }
    }
    assert_eq!(new_frames, 1);
    assert_eq!(loader.dropped_frames(), 0);
    assert_eq!(loader.total_frames_added(), 1);
    let database = loader.finish();
    let frames = database.frames();
    assert_eq!(frames.len(), 1);
    assert_eq!(frames[0].frame_index, 42);
    assert_eq!(frames[0].crops.len(), crops.len());
    for (crop, read) in crops.iter().zip(frames[0].crops.iter()) {
        assert_eq!(read.resize_thousandths, crop.resize_thousandths);
        assert_eq!(read.pos_x_thousandths, crop.pos_x_thousandths);
        assert_eq!(read.pos_y_thousandths, crop.pos_y_thousandths);
        assert_eq!(read.crop_level, None);
        assert_eq!(read.colors.len(), crop.tiles.len());
        for (tile, color) in crop.tiles.iter().zip(read.colors.iter()) {
            let mut sums = [0u64; 3];
            for y in tile.start_y..tile.end_y {
                for x in tile.start_x..tile.end_x {
                    let i = ((y * width + x) * 3) as usize;
                    for c in 0..3 {
                        sums[c] += pixels[i + c] as u64;
                    }
                }
            }
            let n = tile.total_pixels as u64;
            let mean = |s: u64| ((s + n / 2) / n) as u8;
            assert_eq!(*color, Color { r: mean(sums[0]), g: mean(sums[1]), b: mean(sums[2]) });
        }
    }
}

#[test]
fn both_extractors_write_the_same_lines() {
    let (width, height, tiles) = (320, 180, 2);
    let pixels = frame(width, height);
    let mut a = PixelArray::new(width, CropSetting::all_crops(width, height, tiles, tiles).unwrap());
    let mut b = SummedAreaTable::new(width, height, CropSetting::all_crops(width, height, tiles, tiles).unwrap());
    assert_eq!(a.process_frame(7, &pixels), b.process_frame(7, &pixels));
}

#[test]
fn lines_that_do_not_read_are_dropped() {
    let mut loader = DatabaseLoader::new(1, 1, 10);
    assert!(!loader.add_line("10 100 0 0 0 1,2,3\n"));
    assert!(!loader.add_line("1 0.5 0 0 0 1,2,3\n"));
    assert!(!loader.add_line("1 100 100.001 0 0 1,2,3\n"));
    assert!(!loader.add_line("1 100 0 0 0 1,2,3 4,5,6\n"));
    assert!(!loader.add_line("1 100 0 0 1,2,3 4,5,6\n"));
    assert!(!loader.add_line("x 100 0 0 0 1,2,3\n"));
    assert!(!loader.add_line("1 100 0\n"));
    assert!(!loader.add_line("1 100 0 0 3 1,2,3\n"));
    assert!(!loader.add_line("1 100 0 0 x 1,2,3\n"));
    assert!(!loader.add_line("1 100 0 0 256 1,2,3\n"));
    assert_eq!(loader.dropped_frames(), 10);
    assert!(loader.add_line("1 100 0 0 0 1,2,3\n"));
    assert!(!loader.add_line("1 66.666 33.333 0 1 9,8,7\n"));
    assert!(!loader.add_line("1 50 25 25 4,5,6\n"));
    assert!(loader.add_line("+2 12.5 .5 7. +2 256,1,1 0,0,0\n"));
    assert!(!loader.add_line("2 1e2 5E-1 66.6660 0 7,7,7\n"));
    assert!(!loader.add_line("2 12.3456 0 0 0 7,7,7\n"));
    assert_eq!(loader.dropped_frames(), 11);
    let database = loader.finish();
    let frames = database.frames();
    assert_eq!(frames.len(), 2);
    assert_eq!(frames[0].crops.len(), 3);
    assert_eq!(frames[0].crops[0].crop_level, Some(CropLevel::Essential));
    assert_eq!(frames[0].crops[1].resize_thousandths, 66666);
    assert_eq!(frames[0].crops[1].pos_x_thousandths, 33333);
    assert_eq!(frames[0].crops[1].crop_level, Some(CropLevel::Moderate));
    assert_eq!(frames[0].crops[2].crop_level, None);
    assert_eq!(frames[0].crops[2].colors, vec![Color { r: 4, g: 5, b: 6 }]);
    assert_eq!(frames[1].frame_index, 2);
    assert_eq!(frames[1].crops[0].resize_thousandths, 12500);
    assert_eq!(frames[1].crops[0].pos_x_thousandths, 500);
    assert_eq!(frames[1].crops[0].pos_y_thousandths, 7000);
    assert_eq!(frames[1].crops[0].crop_level, Some(CropLevel::Aggressive));
    assert_eq!(frames[1].crops[0].colors, vec![Color { r: 0, g: 0, b: 0 }]);
    assert_eq!(frames[1].crops.len(), 2);
    assert_eq!(frames[1].crops[1].resize_thousandths, 100_000);
    assert_eq!(frames[1].crops[1].pos_x_thousandths, 500);
    assert_eq!(frames[1].crops[1].pos_y_thousandths, 66_666);
}

#[test]
fn a_database_line_reads_as_a_crop() {
    let (frame, crop) = parse_database_line("5 100 0 0 2 1,2,3 4,5,6", 10, 2, 2).unwrap();
    assert_eq!(frame, 5);
    assert_eq!(crop.resize_thousandths, 100000);
    assert_eq!(crop.crop_level, Some(CropLevel::Aggressive));
    assert_eq!(crop.colors, vec![Color { r: 1, g: 2, b: 3 }, Color { r: 4, g: 5, b: 6 }]);
    assert!(parse_database_line("5 100 0 0 2 1,2,3", 10, 2, 2).is_none());
    assert!(parse_database_line("5 100 0 0 2 1,2,3 4,5,6", 5, 2, 2).is_none());
    let (frame, crop) = parse_database_line("5 100 0 0 1,2,3 4,5,6", 10, 2, 2).unwrap();
    assert_eq!(frame, 5);
    assert_eq!(crop.crop_level, None);
    assert_eq!(crop.colors, vec![Color { r: 1, g: 2, b: 3 }, Color { r: 4, g: 5, b: 6 }]);
}
