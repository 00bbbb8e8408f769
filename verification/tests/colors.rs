use phomogen::ffmpeg::crops::CropLevel;
use phomogen::app::frame_data::{Color, FrameCrop};
use phomogen::app::{TerminalTheme, TerminalThemeMode, TileShape};
use phomogen::ffmpeg::VideoCodec;
use phomogen::tasks::generate_mosaic::MosaicGenerationReport;
use phomogen::tile_blender::TileBlender;

#[test]
fn darken_and_lighten_by_percentage() {
    let c = Color { r: 200, g: 101, b: 1 };
    assert_eq!(c.darken(50), Color { r: 100, g: 50, b: 0 });
    assert_eq!(c.darken(250), Color { r: 0, g: 0, b: 0 });
    assert_eq!(c.darken(0), c);
    let d = Color { r: 100, g: 50, b: 3 };
    assert_eq!(d.lighten(50), Color { r: 150, g: 75, b: 5 });
}

#[test]
fn blend_toward_moves_part_way() {
    let black = Color { r: 0, g: 0, b: 0 };
    let white = Color { r: 255, g: 255, b: 255 };
    assert_eq!(black.blend_toward(&white, 50), Color { r: 128, g: 128, b: 128 });
    assert_eq!(black.blend_toward(&white, 0), black);
    assert_eq!(black.blend_toward(&white, 200), white);
}

#[test]
fn tile_shapes() {
    assert_eq!(TileShape::Landscape16x9.aspect_dimensions(), (16, 9));
    assert_eq!(TileShape::Portrait9x16.aspect_dimensions(), (9, 16));
    assert!(TileShape::Landscape16x9.matches_proportions(1920, 1080));
    assert!(!TileShape::Square.matches_proportions(1920, 1080));
    assert_eq!(TileShape::Square.name(), "Square");
}

#[test]
fn codecs_compare_without_case() {
    assert_eq!(VideoCodec::from_ffmpeg_meta_data("H264"), VideoCodec::H264);
    assert_eq!(VideoCodec::from_ffmpeg_meta_data("hevc"), VideoCodec::HEVC);
    assert_eq!(VideoCodec::from_ffmpeg_meta_data("MPEG2Video"), VideoCodec::MPEG2);
    assert_eq!(VideoCodec::from_ffmpeg_meta_data("VP8"), VideoCodec::Other(String::from("vp8")));
}

#[test]
fn terminal_themes() {
    let t = TerminalTheme::assumed_dark();
    assert_eq!(t.mode, TerminalThemeMode::Dark);
    assert_eq!(t.foreground_color, Color { r: 255, g: 255, b: 255 });
    let l = TerminalTheme::from_palette(true, Color { r: 1, g: 2, b: 3 }, Color { r: 4, g: 5, b: 6 });
    assert_eq!(l.mode, TerminalThemeMode::Light);
    assert_eq!(l.background_color, Color { r: 4, g: 5, b: 6 });
}

#[test]
fn neighbouring_tiles() {
    let corner = TileBlender::new(0, 0, 3, 2);
    assert_eq!(corner.find_top(), None);
    assert_eq!(corner.find_left(), None);
    assert_eq!(corner.find_right(), Some((0, 1)));
    assert_eq!(corner.find_bottom(), Some((1, 0)));
    let last = TileBlender::new(1, 2, 3, 2);
    assert_eq!(last.find_right(), None);
    assert_eq!(last.find_bottom(), None);
    assert_eq!(last.find_top(), Some((0, 2)));
    assert_eq!(last.find_left(), Some((1, 1)));
}

#[test]
fn tile_reports_place_tiles_row_by_row() {
    let r = MosaicGenerationReport::for_tile(83, 40);
    assert_eq!((r.row, r.col), (2, 3));
}

#[test]
fn mirroring_a_crop_twice_gives_its_colours_back() {
    let c = |v: u8| Color { r: v, g: v, b: v };
    let mut crop = FrameCrop::init(2, 100_000, 0, 0, CropLevel::Essential);
    crop.colors = vec![c(1), c(2), c(3), c(4)];
    let once = crop.colors_flipped();
    assert_eq!(once, vec![c(2), c(1), c(4), c(3)]);
    let mut mirrored = FrameCrop::init(2, 100_000, 0, 0, CropLevel::Essential);
    mirrored.colors = once;
    assert_eq!(mirrored.colors_flipped(), crop.colors);
}

fn single_precision_share(channel: u8, percentage: u8) -> u8 {
    ((channel as f32 / 100.0) * percentage.min(100) as f32).round() as u8
}

#[test]
fn darkening_and_lightening_round_as_single_precision_does() {
    for channel in 0..=255u8 {
        for percentage in 0..=255u8 {
            let share = single_precision_share(channel, percentage);
            let color = Color { r: channel, g: channel, b: channel };
            assert_eq!(color.darken(percentage).r, channel - share, "darken {channel} by {percentage}");
            if channel as u32 + share as u32 <= 255 {
                assert_eq!(color.lighten(percentage).g, channel + share, "lighten {channel} by {percentage}");
            }
        }
    }
    assert_eq!(Color { r: 53, g: 53, b: 53 }.darken(50).r, 27);
    assert_eq!(Color { r: 53, g: 53, b: 53 }.lighten(50).r, 79);
}

#[test]
fn codec_names_that_lowercase_alike_read_alike() {
    for (a, b) in [("HEVC", "hevc"), ("ProRes", "PRORES"), ("Vp8", "vP8"), ("AV1", "av1")] {
        assert_eq!(VideoCodec::from_ffmpeg_meta_data(a), VideoCodec::from_ffmpeg_meta_data(b));
    }
}
