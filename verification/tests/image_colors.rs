use phomogen::app::mosaic_tiling_option::MosaicTilingOption;
use phomogen::app::frame_data::Color;
use phomogen::raster::TileImage;
use phomogen::tasks::calculate_image_colors::{compute_tile_geometry, image_tiles};

#[test]
fn geometry_of_a_landscape_image() {
    let g = compute_tile_geometry(2000, 1200, 1920, 1080, 40, 40, 4, 4);
    assert_eq!((g.crop_x, g.crop_y), (40, 60));
    assert_eq!((g.mosaic_tile_width, g.mosaic_tile_height), (250, 141));
    assert_eq!((g.resize_width, g.resize_height), (10000, 5640));
    assert_eq!((g.color_tile_width, g.color_tile_height), (63, 35));
}

#[test]
fn geometry_of_a_portrait_image() {
    let g = compute_tile_geometry(1080, 1920, 1080, 1920, 10, 20, 2, 3);
    assert_eq!((g.crop_x, g.crop_y), (0, 0));
    assert_eq!((g.mosaic_tile_width, g.mosaic_tile_height), (563, 500));
    assert_eq!((g.resize_width, g.resize_height), (5630, 10000));
    assert_eq!((g.color_tile_width, g.color_tile_height), (282, 167));
}

#[test]
fn tiles_of_a_two_colour_image() {
    let mut data = Vec::new();
    for _y in 0..100 {
        for x in 0..200 {
            if x < 100 { data.extend_from_slice(&[255, 0, 0]); } else { data.extend_from_slice(&[0, 0, 255]); }
        }
    }
    let image = TileImage { width: 200, height: 100, data };
    let option = MosaicTilingOption::new(2, 1, 0, 20000, 200, 100);
    let response = image_tiles(&image, &option, 1, 1);
    assert_eq!((response.num_tiles_x, response.num_tiles_y), (2, 1));
    assert_eq!(response.tiles.len(), 2);
    assert_eq!(response.tiles[0].colors.len(), 1);
    let left = response.tiles[0].colors[0];
    let right = response.tiles[1].colors[0];
    assert!(left.r > 200 && left.b < 50, "{left:?}");
    assert!(right.b > 200 && right.r < 50, "{right:?}");
    assert_ne!(left, Color { r: 0, g: 0, b: 0 });
}

#[test]
fn target_sizes_round_as_double_precision_does() {
    for (w, h) in [(1280u32, 91u32), (91, 1280), (128, 91), (3000, 2001), (2001, 3000), (777, 777), (4000, 3)] {
        let g = phomogen::tasks::calculate_image_colors::compute_tile_geometry(w, h, w, h, 1, 1, 1, 1);
        let ratio = w as f64 / h as f64;
        let expected = if w > h {
            (10000, (10000u32 as f64 / ratio).round() as u32)
        } else {
            ((10000u32 as f64 * ratio).round() as u32, 10000)
        };
        assert_eq!((g.resize_width, g.resize_height), expected, "{w}x{h}");
    }
}
