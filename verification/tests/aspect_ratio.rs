use phomogen::ffmpeg::AspectRatio;

#[test]
fn check_4x3() {
    let dimensions: Vec<(u32, u32)> = vec![
        (640, 480),
        (800, 600),
        (1024, 768),
        (1280, 960),
        (1440, 1080),
        (1600, 1200),
        (2048, 1536),
        (3840, 2880),
    ];

    let expected = AspectRatio::Landscape4x3;

    for (width, height) in dimensions {
        let actual = AspectRatio::new(width, height);
        assert_eq!(actual, expected, "{width}x{height} wrong ratio");
        assert!(!actual.is_vertical(), "{width}x{height} is NOT vertical");
    }
}

#[test]
fn check_16x9() {
    let dimensions: Vec<(u32, u32)> = vec![
        (1280, 720),
        (1366, 768),
        (1600, 900),
        (1920, 1080),
        (2560, 1440),
        (3840, 2160),
        (5120, 2880),
        (7680, 4320),
    ];

    let expected = AspectRatio::Landscape16x9;

    for (width, height) in dimensions {
        let actual = AspectRatio::new(width, height);
        assert_eq!(actual, expected, "{width}x{height}");
        assert!(!actual.is_vertical(), "{width}x{height} is NOT vertical");
    }
}

#[test]
fn check_21x9() {
    let dimensions: Vec<(u32, u32)> = vec![(2560, 1080), (3440, 1440), (3840, 1600), (5120, 2160)];

    let expected = AspectRatio::Landscape21x9;

    for (width, height) in dimensions {
        let actual = AspectRatio::new(width, height);
        assert_eq!(actual, expected, "{width}x{height}");
        assert!(!actual.is_vertical(), "{width}x{height} is NOT vertical");
    }
}

#[test]
fn check_9x16() {
    let dimensions: Vec<(u32, u32)> = vec![
        (720, 1280),
        (768, 1366),
        (900, 1600),
        (1080, 1920),
        (1440, 2560),
        (2160, 3840),
        (2880, 5120),
        (4320, 7680),
    ];

    let expected = AspectRatio::Portrait9x16;

    for (width, height) in dimensions {
        let actual = AspectRatio::new(width, height);
        assert_eq!(actual, expected, "{width}x{height}");
        assert!(actual.is_vertical(), "{width}x{height} should be vertical");
    }
}

#[test]
fn custom_ratios_keep_two_decimals() {
    assert_eq!(AspectRatio::new(3, 2), AspectRatio::Custom(150));
    assert_eq!(AspectRatio::new(3, 2).label(), "1.5:1");
    assert_eq!(AspectRatio::new(1, 3), AspectRatio::Custom(33));
    assert!(AspectRatio::new(1, 3).is_vertical());
    assert_eq!(AspectRatio::new(1000, 1000), AspectRatio::Square1x1);
    assert_eq!(AspectRatio::Landscape16x9.label(), "16:9");
    assert_eq!(AspectRatio::new(207, 100).label(), "2.07:1");
}

#[test]
fn frames_without_height_have_no_finite_ratio() {
    assert_eq!(AspectRatio::new(640, 0), AspectRatio::Unbounded);
    assert_eq!(AspectRatio::new(0, 0), AspectRatio::Undetermined);
    assert_eq!(AspectRatio::new(0, 0).label(), "NaN:1");
    assert!(!AspectRatio::new(0, 0).is_vertical());
    assert_eq!(AspectRatio::Unbounded.frame_height(400), 0);
    assert_eq!(AspectRatio::Undetermined.frame_height(400), 0);
    assert_eq!(AspectRatio::Unbounded.ratio_parts(), None);
    assert_eq!(AspectRatio::Landscape16x9.frame_height(400), 225);
}

fn double_precision_hundredths(width: u32, height: u32) -> u64 {
    ((width as f64 / height as f64) * 100.0).round() as u64
}

fn double_precision_ratio(ratio: AspectRatio) -> f64 {
    match ratio {
        AspectRatio::Square1x1 => 1.0,
        AspectRatio::Landscape4x3 => 1.3333333333,
        AspectRatio::Landscape16x9 => 1.7777777778,
        AspectRatio::Landscape21x9 => 2.3333333333,
        AspectRatio::Portrait9x16 => 0.5625,
        AspectRatio::Custom(hundredths) => hundredths as f64 / 100.0,
        AspectRatio::Unbounded => f64::INFINITY,
        AspectRatio::Undetermined => f64::NAN,
    }
}

#[test]
fn ratios_round_as_double_precision_does() {
    assert_eq!(AspectRatio::new(23, 40), AspectRatio::Custom(57));
    assert_eq!(AspectRatio::new(29, 200), AspectRatio::Custom(14));
    for width in 1..400u32 {
        for height in 1..400u32 {
            let hundredths = double_precision_hundredths(width, height);
            match AspectRatio::new(width, height) {
                AspectRatio::Square1x1 => assert_eq!(hundredths, 100),
                AspectRatio::Landscape4x3 => assert_eq!(hundredths, 133),
                AspectRatio::Landscape16x9 => assert_eq!(hundredths, 178),
                AspectRatio::Landscape21x9 => assert!((230..=240).contains(&hundredths)),
                AspectRatio::Portrait9x16 => assert_eq!(hundredths, 56),
                AspectRatio::Custom(k) => assert_eq!(k, hundredths, "{width}x{height}"),
                other => panic!("{width}x{height} read as {other:?}"),
            }
        }
    }
}

#[test]
fn frame_heights_round_as_double_precision_does() {
    let ratios = [
        AspectRatio::Square1x1,
        AspectRatio::Landscape4x3,
        AspectRatio::Landscape16x9,
        AspectRatio::Landscape21x9,
        AspectRatio::Portrait9x16,
        AspectRatio::Custom(1),
        AspectRatio::Custom(57),
        AspectRatio::Custom(150),
        AspectRatio::Custom(0),
        AspectRatio::Custom(u64::MAX),
        AspectRatio::Unbounded,
        AspectRatio::Undetermined,
    ];
    for ratio in ratios {
        for width in (0..5000u32).chain([u32::MAX - 1, u32::MAX]) {
            let expected = (width as f64 / double_precision_ratio(ratio)).round() as u32;
            assert_eq!(ratio.frame_height(width), expected, "{ratio:?} at {width}");
        }
    }
}
