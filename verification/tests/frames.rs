use phomogen::ffmpeg::frame_extractor::{distinct_frame_indices, matches_of_frame, tile_from_frame, VideoFrameMatch};
use phomogen::raster::TileImage;

fn m(tile_index: u32, frame_index: u32) -> VideoFrameMatch {
    VideoFrameMatch { tile_index, frame_index, crop_resize: 50_000, crop_pos_x: 25_000, crop_pos_y: 0, is_flipped: false }
}

#[test]
fn each_matched_frame_is_decoded_once_in_order() {
    let matches = vec![m(0, 30), m(1, 5), m(2, 30), m(3, 17), m(4, 5)];
    assert_eq!(distinct_frame_indices(&matches), vec![5, 17, 30]);
    assert_eq!(distinct_frame_indices(&[]), Vec::<u32>::new());
    let of_30 = matches_of_frame(&matches, 30);
    assert_eq!(of_30.iter().map(|x| x.tile_index).collect::<Vec<_>>(), vec![0, 2]);
}

#[test]
fn a_match_takes_its_crop_of_the_frame() {
    let (w, h) = (8u32, 4u32);
    let mut data = Vec::new();
    for y in 0..h {
        for x in 0..w {
            data.extend_from_slice(&[x as u8, y as u8, 0]);
        }
    }
    let frame = TileImage { width: w, height: h, data };
    let tile = tile_from_frame(&frame, &m(9, 1));
    assert_eq!(tile.tile_index, 9);
    assert_eq!((tile.data.width, tile.data.height), (4, 2));
    assert_eq!(&tile.data.data[0..3], &[2, 0, 0]);
    assert_eq!(&tile.data.data[9..12], &[5, 0, 0]);
    let mut flipped = m(9, 1);
    flipped.is_flipped = true;
    let tile = tile_from_frame(&frame, &flipped);
    assert_eq!(&tile.data.data[0..3], &[5, 0, 0]);
    assert_eq!(&tile.data.data[9..12], &[2, 0, 0]);
    let mut outside = m(9, 1);
    outside.crop_pos_x = 90_000;
    let tile = tile_from_frame(&frame, &outside);
    assert_eq!((tile.data.width, tile.data.height), (1, 2));
}
