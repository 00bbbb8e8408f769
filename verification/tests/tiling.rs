use phomogen::ffmpeg::crops::crops_fit_16x9;
use phomogen::app::mosaic_tiling_option::MosaicTilingOption;
use phomogen::app::TileShape;

fn check_exact_grids(width: u32, height: u32, shape: TileShape) {
    let expected: Vec<(u8, u8)> = (1..=80).map(|x| (x, x)).collect();
    let candidates = MosaicTilingOption::tiling_candidates(width, height, 0, &shape);
    assert_eq!(candidates.len(), expected.len());
    for (i, candidate) in candidates.iter().enumerate() {
        let (expected_tiles_x, expected_tiles_y) = expected[i];
        assert_eq!(expected_tiles_x, candidate.num_tiles_x);
        assert_eq!(expected_tiles_y, candidate.num_tiles_y);
        assert_eq!(0, candidate.cropped_pixels);
        assert_eq!(width, candidate.cropped_width);
        assert_eq!(height, candidate.cropped_height);
    }
}

#[test]
fn tiling_candidates_16x9() {
    check_exact_grids(1920, 1080, TileShape::Landscape16x9);
}

#[test]
fn tiling_candidates_9x16() {
    check_exact_grids(1080, 1920, TileShape::Portrait9x16);
}

#[test]
fn tiling_candidates_1x1() {
    check_exact_grids(1920, 1920, TileShape::Square);
}

#[test]
fn tiling_candidates_with_crop_allow_more_grids() {
    let exact = MosaicTilingOption::tiling_candidates(1920, 1080, 0, &TileShape::Landscape16x9);
    let cropped = MosaicTilingOption::tiling_candidates(1920, 1080, 20_000, &TileShape::Landscape16x9);
    assert!(cropped.len() > exact.len());
    for c in cropped.iter() {
        assert!(c.cropped_width <= 1920 && c.cropped_height <= 1080);
        assert!(c.cropped_pixels * 100_000 <= 20_000 * c.image_pixels);
    }
}

#[test]
fn tiling_candidates_of_empty_image() {
    assert!(MosaicTilingOption::tiling_candidates(0, 1080, 900, &TileShape::Square).is_empty());
}

#[test]
fn crops_fit_ordinary_frames_and_not_oversized_grids() {
    assert!(crops_fit_16x9(1920, 1080, 4, 4));
    assert!(crops_fit_16x9(1920, 1080, 8, 8));
    assert!(crops_fit_16x9(1920, 1080, 0, 7));
    assert!(!crops_fit_16x9(16, 9, 100_000, 100_000));
}

fn double_precision_grids(image_width: u32, image_height: u32, max: f64, shape: (u32, u32)) -> Vec<(u8, u8)> {
    let max = max.min(100.0);
    let image_area = image_width * image_height;
    let mut grids = Vec::new();
    for x in 1..=80u32 {
        for y in 1..=80u32 {
            let grid_width = shape.0 * x;
            let grid_height = shape.1 * y;
            let grid_cross = grid_width * image_height;
            let image_cross = grid_height * image_width;
            let (cw, ch) = if grid_cross > image_cross {
                (image_width, ((image_width * grid_height + grid_width / 2) / grid_width).min(image_height))
            } else if grid_cross < image_cross {
                (((image_height * grid_width + grid_height / 2) / grid_height).min(image_width), image_height)
            } else {
                (image_width, image_height)
            };
            let crop_percentage = image_area.abs_diff(cw * ch) as f64 / image_area as f64 * 100.0;
            if crop_percentage <= max {
                grids.push((x as u8, y as u8));
            }
        }
    }
    grids
}

#[test]
fn crop_limits_compare_as_double_precision_does() {
    let shapes = [(TileShape::Landscape16x9, (16, 9)), (TileShape::Square, (1, 1)), (TileShape::Portrait9x16, (9, 16))];
    for (shape, dims) in shapes {
        for (w, h) in [(1000u32, 9u32), (1000, 1000), (1920, 1080), (1001, 563), (333, 500), (100, 7), (4000, 3000)] {
            for (thousandths, max) in [(900u32, 0.9f64), (7000, 7.0), (0, 0.0), (100000, 100.0), (250000, 250.0)] {
                let grids: Vec<(u8, u8)> = MosaicTilingOption::tiling_candidates(w, h, thousandths, &shape)
                    .iter()
                    .map(|o| (o.num_tiles_x, o.num_tiles_y))
                    .collect();
                assert_eq!(grids, double_precision_grids(w, h, max, dims), "{w}x{h} at {max}");
            }
        }
    }
}
