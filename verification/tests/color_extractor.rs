use image::{Rgb, RgbImage};

use phomogen::ffmpeg::color_extractor::{FrameColorExtractionAlgorithm, PixelArray, SummedAreaTable};
use phomogen::ffmpeg::crops::CropSetting;

fn percentage_text(thousandths: u32) -> String {
    format!("{}", thousandths as f64 / 1000.0)
}

fn assert_correct_color_averages<A>(create_algorithm: impl FnOnce(u32, u32, Vec<CropSetting>) -> A)
where
    A: FrameColorExtractionAlgorithm,
{
    const FRAME_WIDTH: u32 = 1_920;
    const FRAME_HEIGHT: u32 = 1_080;
    const GRID_SIZE: u32 = 4;

    let colors = [
        Rgb([255, 0, 0]),
        Rgb([0, 255, 0]),
        Rgb([0, 0, 255]),
        Rgb([255, 255, 0]),
        Rgb([255, 0, 255]),
        Rgb([0, 255, 255]),
        Rgb([255, 128, 0]),
        Rgb([128, 0, 255]),
        Rgb([0, 128, 255]),
        Rgb([128, 255, 0]),
        Rgb([255, 0, 128]),
        Rgb([0, 255, 128]),
        Rgb([64, 64, 64]),
        Rgb([128, 128, 128]),
        Rgb([192, 192, 192]),
        Rgb([255, 255, 255]),
    ];
    let frame_index: u64 = 123;

    let cell_width = FRAME_WIDTH / GRID_SIZE;
    let cell_height = FRAME_HEIGHT / GRID_SIZE;

    let image = RgbImage::from_fn(FRAME_WIDTH, FRAME_HEIGHT, |x, y| {
        let color_index = (y / cell_height * GRID_SIZE + x / cell_width) as usize;
        colors[color_index]
    });
    let pixels: &[u8] = image.as_raw();

    let frame_crops = CropSetting::all_crops(FRAME_WIDTH, FRAME_HEIGHT, GRID_SIZE, GRID_SIZE).unwrap();
    let total_frame_crops = frame_crops.len();

    let mut color_extractor = create_algorithm(FRAME_WIDTH, FRAME_HEIGHT, frame_crops);
    let output = color_extractor.process_frame(frame_index, pixels);

    let lines = output.lines().map(String::from).collect::<Vec<String>>();

    // check number of lines match number of crops
    assert_eq!(lines.len(), total_frame_crops, "number of lines should match number of crops");

    let frame_crops = CropSetting::all_crops(FRAME_WIDTH, FRAME_HEIGHT, GRID_SIZE, GRID_SIZE).unwrap();

    // [Frame Index] [Crop Size] [PosX] [PosY] [R,G,B] [R,G,B] [R,G,B] [R,G,B]
    for (i, crop) in frame_crops.iter().enumerate() {
        let mut expected_line = format!(
            "{frame_index} {} {} {}",
            percentage_text(crop.resize_thousandths),
            percentage_text(crop.pos_x_thousandths),
            percentage_text(crop.pos_y_thousandths)
        );
        let line = &lines[i];

        // check full frame which should exactly match RGB array above
        if i == 0 {
            for color in &colors {
                let [r, g, b] = color.0;
                expected_line.push_str(&format!(" {r},{g},{b}"));
            }

            assert_eq!(*line, expected_line, "full frame colors do not match");
        } else {
            assert!(line.starts_with(&expected_line), "line {i} does not start with `{expected_line}`. Full line: `{line}`");
        }
    }
}

#[test]
fn pixel_array_returns_correct_color_averages() {
    assert_correct_color_averages(|width, _height, crops| PixelArray::new(width, crops));
}

#[test]
fn summed_area_table_returns_correct_color_averages() {
    assert_correct_color_averages(|width, height, crops| SummedAreaTable::new(width, height, crops));
}

#[test]
fn pixel_array_correct_color_averages() {
    assert_correct_color_averages(|width, _height, crops| PixelArray::new(width, crops));
}

#[test]
fn summed_table_correct_color_averages() {
    assert_correct_color_averages(|width, height, crops| SummedAreaTable::new(width, height, crops));
}

#[test]
fn both_algorithms_write_the_same_lines() {
    let width: u32 = 32;
    let height: u32 = 18;
    let pixels: Vec<u8> = (0..(width * height * 3)).map(|i| ((i * 37 + i / 7) % 256) as u8).collect();
    let crops_a = CropSetting::all_crops(width, height, 3, 2).unwrap();
    let crops_b = CropSetting::all_crops(width, height, 3, 2).unwrap();
    let mut a = PixelArray::new(width, crops_a);
    let mut b = SummedAreaTable::new(width, height, crops_b);
    assert!(b.accepts(&pixels));
    assert!(a.accepts(&pixels));
    assert_eq!(a.process_frame(7, &pixels), b.process_frame(7, &pixels));
}

#[test]
fn frames_that_do_not_fit_are_refused() {
    let width: u32 = 32;
    let height: u32 = 18;
    let pixels: Vec<u8> = vec![200; (width * height * 3) as usize];
    let short = &pixels[..pixels.len() - 1];
    let a = PixelArray::new(width, CropSetting::all_crops(width, height, 3, 2).unwrap());
    let b = SummedAreaTable::new(width, height, CropSetting::all_crops(width, height, 3, 2).unwrap());
    assert!(a.accepts(&pixels));
    assert!(b.accepts(&pixels));
    assert!(!a.accepts(short));
    assert!(!b.accepts(short));
    let narrow = PixelArray::new(width - 1, CropSetting::all_crops(width, height, 3, 2).unwrap());
    assert!(!narrow.accepts(&pixels));
}

#[test]
fn non_16x9_frames_have_no_crops() {
    assert!(CropSetting::all_crops(640, 480, 4, 4).is_err());
    assert!(CropSetting::all_crops(640, 0, 4, 4).is_err());
}

#[test]
fn crop_geometry_of_a_full_hd_frame() {
    let crops = CropSetting::all_crops(1920, 1080, 4, 4).unwrap();
    assert_eq!(crops.len(), 23);
    let full = &crops[0];
    assert_eq!(full.resize_thousandths, 100000);
    assert_eq!(full.tiles.len(), 16);
    assert_eq!((full.tiles[5].start_x, full.tiles[5].end_x, full.tiles[5].start_y, full.tiles[5].end_y), (480, 960, 270, 540));
    assert_eq!(full.tiles[5].total_pixels, 480 * 270);
    let two_thirds = &crops[22];
    assert_eq!((two_thirds.resize_thousandths, two_thirds.pos_x_thousandths, two_thirds.pos_y_thousandths), (66666, 33333, 33333));
    // 1920 * 0.66666 = 1279.99 -> 1280 wide, 720 high, starting at (640, 360)
    assert_eq!((two_thirds.tiles[0].start_x, two_thirds.tiles[0].start_y), (640, 360));
    assert_eq!((two_thirds.tiles[0].end_x, two_thirds.tiles[0].end_y), (960, 540));
}
