use phomogen::raster::TileImage;
use phomogen::tile_blender::TileBlender;

fn solid(width: u32, height: u32, rgb: [u8; 3]) -> TileImage {
    TileImage { width, height, data: rgb.repeat((width * height) as usize) }
}

fn at(image: &TileImage, x: u32, y: u32) -> [u8; 3] {
    let i = 3 * (y * image.width + x) as usize;
    [image.data[i], image.data[i + 1], image.data[i + 2]]
}

#[test]
fn blending_with_the_same_colour_changes_nothing() {
    let blender = TileBlender::new(1, 1, 3, 3);
    let mut center = solid(40, 30, [90, 120, 200]);
    let n = solid(40, 30, [90, 120, 200]);
    blender.blend_image(&mut center, Some(&n), Some(&n), Some(&n), Some(&n));
    assert_eq!(center.data, solid(40, 30, [90, 120, 200]).data);
}

#[test]
fn the_seam_meets_halfway_and_fades_inward() {
    let blender = TileBlender::new(1, 0, 2, 2);
    let mut center = solid(40, 30, [0, 0, 0]);
    let top = solid(40, 30, [200, 100, 50]);
    blender.blend_image(&mut center, Some(&top), None, None, None);
    // the seam colour is the mean of the two edges: (200 + 0) / 2 = 100, (100 + 0) / 2 = 50, (50 + 0) / 2 = 25
    assert_eq!(at(&center, 5, 0), [100, 50, 25]);
    // twelve rows fade: the weight of row y is n^2 (36 - 2n) / 1728 with n = 12 - y
    let expected_row_6 = ((100u32 * 6 * 6 * (36 - 12)) * 2 + 1728) / (2 * 1728);
    assert_eq!(at(&center, 5, 6)[0] as u32, expected_row_6);
    assert_eq!(at(&center, 5, 11)[0], 2);
    assert_eq!(at(&center, 5, 12), [0, 0, 0]);
    assert_eq!(at(&center, 5, 29), [0, 0, 0]);
}

#[test]
fn neighbours_of_another_size_are_resized() {
    let blender = TileBlender::new(0, 0, 2, 2);
    let mut center = solid(40, 30, [10, 10, 10]);
    let right = solid(80, 60, [210, 210, 210]);
    blender.blend_image(&mut center, None, Some(&right), None, None);
    assert_eq!(at(&center, 39, 10), [110, 110, 110]);
    assert_eq!(at(&center, 0, 10), [10, 10, 10]);
}

#[test]
fn neighbours_meet_in_the_same_colour_at_their_seam() {
    let a = solid(40, 30, [100, 40, 0]);
    let b = solid(40, 30, [200, 90, 255]);

    let mut left_tile = solid(40, 30, [100, 40, 0]);
    TileBlender::new(0, 0, 2, 1).blend_image(&mut left_tile, None, Some(&b), None, None);
    let mut right_tile = solid(40, 30, [200, 90, 255]);
    TileBlender::new(0, 1, 2, 1).blend_image(&mut right_tile, None, None, None, Some(&a));

    // (100 + 200) / 2, (40 + 90) / 2, (0 + 255) / 2, rounded down
    for y in [0, 11, 29] {
        assert_eq!(at(&left_tile, 39, y), [150, 65, 127]);
        assert_eq!(at(&right_tile, 0, y), [150, 65, 127]);
    }
}
