use std::collections::HashMap;

use phomogen::images::{resize_dimensions, PreviewImage, RgbaImage};

#[test]
fn test_resize_dimensions() {
    let tests_960: HashMap<(u32, u32), (u32, u32)> = HashMap::from([
        ((3840, 2160), (960, 540)),
        ((1920, 1080), (960, 540)),
        ((2160, 3840), (540, 960)),
        ((1080, 1920), (540, 960)),
    ]);

    let tests_320: HashMap<(u32, u32), (u32, u32)> = HashMap::from([
        ((3840, 2160), (320, 180)),
        ((1920, 1080), (320, 180)),
        ((2160, 3840), (180, 320)),
        ((1080, 1920), (180, 320)),
    ]);

    for ((width, height), (expected_width, expected_height)) in tests_960 {
        let (actual_width, actual_height) = resize_dimensions(width, height, 960);
        assert_eq!(expected_width, actual_width, "wrong width on 960px resize");
        assert_eq!(expected_height, actual_height, "wrong height on 960px resize");
    }

    for ((width, height), (expected_width, expected_height)) in tests_320 {
        let (actual_width, actual_height) = resize_dimensions(width, height, 320);
        assert_eq!(expected_width, actual_width, "wrong width on 320px resize");
        assert_eq!(expected_height, actual_height, "wrong height on 320px resize");
    }
}

fn pixel(image: &RgbaImage, x: u32, y: u32) -> [u8; 4] {
    let i = 4 * (y as usize * image.width as usize + x as usize);
    [image.data[i], image.data[i + 1], image.data[i + 2], image.data[i + 3]]
}

#[test]
fn test_progress_image() {
    let white_pixel = [255u8, 255, 255, 255];
    let canvas = RgbaImage { width: 320, height: 180, data: white_pixel.repeat(320 * 180) };

    // check progress image is generated
    let mut preview_image = PreviewImage::from_image(canvas);
    preview_image.generate_progress_image(2, 2);
    assert!(preview_image.progress_image().is_some(), "progress image was not generated");

    // check pixels NOT changes
    let progress_image = preview_image.progress_image().unwrap();
    let (width, height) = (progress_image.width, progress_image.height);

    for y in 0..(height / 2) {
        for x in 0..(width / 2) {
            assert_eq!(pixel(progress_image, x, y), white_pixel, "pixels in top left corner should NOT have changed");
        }
    }

    // check pixels changed
    preview_image.add_progress_tile(0, 0);

    let progress_image = preview_image.progress_image().unwrap();
    let (width, height) = (progress_image.width, progress_image.height);

    for y in 0..(height / 2) {
        for x in 0..(width / 2) {
            assert_ne!(pixel(progress_image, x, y), white_pixel, "pixels in top left corner should have changed");
        }
    }

    // check pixels elsewhere in image have NOT changed
    for y in ((height / 2) + 1)..height {
        for x in ((width / 2) + 1)..width {
            assert_eq!(pixel(progress_image, x, y), white_pixel, "pixels in bottom right corner should NOT have changed");
        }
    }
}

#[test]
fn preview_is_fitted_and_progress_darkens_by_half() {
    let image = RgbaImage { width: 640, height: 360, data: [200u8, 100, 50, 255].repeat(640 * 360) };
    let mut preview = PreviewImage::from_image(image);
    assert_eq!((preview.image().width, preview.image().height), (320, 180));
    assert!(preview.progress_image().is_none());
    preview.add_progress_tile(0, 0);
    assert!(preview.progress_image().is_none());
    preview.generate_progress_image(4, 4);
    let p = preview.progress_image().unwrap();
    assert_eq!((p.width, p.height), (640, 360));
    let before = pixel(p, 0, 0);
    preview.add_progress_tile(3, 3);
    let p = preview.progress_image().unwrap();
    assert_eq!(pixel(p, 0, 0), before);
    let after = pixel(p, 639, 359);
    assert_eq!(after[3], before[3]);
    assert_eq!(after[0], before[0] - (before[0] + 1) / 2);
}

fn double_precision_dimensions(width: u32, height: u32, max_length: u32) -> (u32, u32) {
    let ratio = width as f64 / height as f64;
    if width > height {
        (max_length, (max_length as f64 / ratio).round() as u32)
    } else {
        ((max_length as f64 * ratio).round() as u32, max_length)
    }
}

#[test]
fn resized_sides_round_as_double_precision_does() {
    assert_eq!(resize_dimensions(128, 91, 320), (320, 227));
    assert_eq!(resize_dimensions(640, 0, 320), (320, 0));
    assert_eq!(resize_dimensions(0, 0, 320), (0, 320));
    assert_eq!(resize_dimensions(0, 7, 320), (0, 320));
    assert_eq!(resize_dimensions(u32::MAX, 1, u32::MAX), (u32::MAX, 1));
    for width in 0..300u32 {
        for height in 0..300u32 {
            for max_length in [0u32, 1, 320, 640, 960] {
                assert_eq!(
                    resize_dimensions(width, height, max_length),
                    double_precision_dimensions(width, height, max_length),
                    "{width}x{height} at {max_length}"
                );
            }
        }
    }
    let samples = [(1u32, u32::MAX), (u32::MAX, u32::MAX - 1), (4_000_000_000, 3), (3, 4_000_000_000), (65_537, 65_535)];
    for (width, height) in samples {
        for max_length in [1u32, 320, 1_000_003, u32::MAX] {
            assert_eq!(resize_dimensions(width, height, max_length), double_precision_dimensions(width, height, max_length));
        }
    }
}

fn fitted_size(width: u32, height: u32, nwidth: u32, nheight: u32) -> (u32, u32) {
    if (nwidth, nheight) == (width, height) {
        return (width, height);
    }
    let wratio = f64::from(nwidth) / f64::from(width);
    let hratio = f64::from(nheight) / f64::from(height);
    let ratio = f64::min(wratio, hratio);
    let nw = ((f64::from(width) * ratio).round() as u64).max(1);
    let nh = ((f64::from(height) * ratio).round() as u64).max(1);
    (nw as u32, nh as u32)
}

#[test]
fn previews_take_the_size_the_image_crate_fits_them_to() {
    for (width, height) in [(1000u32, 700u32), (700, 1000), (333, 777), (4000, 3), (3, 4000), (640, 360), (319, 181), (1, 1)] {
        let data = vec![7u8; (4 * width * height) as usize];
        let mut preview = PreviewImage::from_image(RgbaImage { width, height, data });
        let (rw, rh) = resize_dimensions(width, height, 320);
        let expected = fitted_size(width, height, rw, rh);
        assert_eq!((preview.image().width, preview.image().height), expected, "{width}x{height}");
        let (pw, ph) = (preview.image().width, preview.image().height);
        preview.generate_progress_image(2, 2);
        let (qw, qh) = resize_dimensions(pw, ph, 640);
        let progress = preview.progress_image().unwrap();
        assert_eq!((progress.width, progress.height), fitted_size(pw, ph, qw, qh));
    }
}

#[test]
fn an_image_of_the_preview_size_is_kept_as_it_is() {
    let data: Vec<u8> = (0..(4 * 320 * 180)).map(|i| (i % 251) as u8).collect();
    let preview = PreviewImage::from_image(RgbaImage { width: 320, height: 180, data: data.clone() });
    assert_eq!(preview.image().data, data);
}
