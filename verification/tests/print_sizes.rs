use phomogen::app::PrintSize;

#[test]
fn measurements_for_contained_image() {
    // landscape dimensions only
    let tests: Vec<(PrintSize, u32, u32, u32, u32)> = vec![
        (PrintSize::A0, 1920, 1080, 1189, 669),
        (PrintSize::A0, 2500, 2268, 927, 841),
    ];

    for (print_size, width, height, expected_mm_width, expected_mm_height) in tests {
        let name = print_size.name();
        let (mm_width, mm_height) = print_size.measurements_for_contained_image(width, height);
        assert_eq!(expected_mm_width, mm_width, "width not correct with {name}");
        assert_eq!(expected_mm_height, mm_height, "height not correct for {name}");

        // try portrait
        let (width, height) = (height, width);
        let (expected_mm_width, expected_mm_height) = (expected_mm_height, expected_mm_width);

        let (mm_width, mm_height) = print_size.measurements_for_contained_image(width, height);
        assert_eq!(expected_mm_width, mm_width, "width not correct with {name} (portrait)");
        assert_eq!(expected_mm_height, mm_height, "height not correct for {name} (portrait)");
    }
}

#[test]
fn paper_follows_the_longer_side() {
    assert_eq!(PrintSize::from_mosaic_tile_layout(1, 1), PrintSize::PostageStamp);
    assert_eq!(PrintSize::from_mosaic_tile_layout(2, 1), PrintSize::A6);
    assert_eq!(PrintSize::from_mosaic_tile_layout(3, 14), PrintSize::A5);
    assert_eq!(PrintSize::from_mosaic_tile_layout(24, 15), PrintSize::A4);
    assert_eq!(PrintSize::from_mosaic_tile_layout(41, 25), PrintSize::A3);
    assert_eq!(PrintSize::from_mosaic_tile_layout(42, 0), PrintSize::A2);
    assert_eq!(PrintSize::from_mosaic_tile_layout(59, 50), PrintSize::A1);
    assert_eq!(PrintSize::from_mosaic_tile_layout(80, 60), PrintSize::A0);
    assert_eq!(PrintSize::A4.measurements_portrait(), (210, 297));
    assert_eq!(PrintSize::A4.measurements_landscape(), (297, 210));
    assert_eq!(PrintSize::PostageStamp.name(), "Postage Stamp");
}

#[test]
fn degenerate_images_print_as_lines() {
    assert_eq!(PrintSize::A4.measurements_for_contained_image(100, 0), (297, 0));
    assert_eq!(PrintSize::A4.measurements_for_contained_image(0, 100), (0, 297));
    assert_eq!(PrintSize::A4.measurements_for_contained_image(0, 0), (210, 0));
}

fn double_precision_measurements(size: PrintSize, width: u32, height: u32) -> (u32, u32) {
    let ratio = width as f64 / height as f64;
    let (mut mm_width, mut mm_height) =
        if width > height { size.measurements_landscape() } else { size.measurements_portrait() };
    let print_ratio = mm_width as f64 / mm_height as f64;
    if print_ratio > ratio {
        mm_width = (mm_height as f64 * ratio).round() as u32;
    } else {
        mm_height = (mm_width as f64 / ratio).round() as u32;
    }
    (mm_width, mm_height)
}

#[test]
fn measurements_round_as_double_precision_does() {
    let sizes = [
        PrintSize::A0,
        PrintSize::A1,
        PrintSize::A2,
        PrintSize::A3,
        PrintSize::A4,
        PrintSize::A5,
        PrintSize::A6,
        PrintSize::PostageStamp,
    ];
    for size in sizes {
        for width in 0..200u32 {
            for height in 0..200u32 {
                assert_eq!(
                    size.measurements_for_contained_image(width, height),
                    double_precision_measurements(size, width, height),
                    "{width}x{height}"
                );
            }
        }
        for (width, height) in [(u32::MAX, 1), (1, u32::MAX), (u32::MAX, u32::MAX - 1), (3_000_000_000, 7)] {
            assert_eq!(size.measurements_for_contained_image(width, height), double_precision_measurements(size, width, height));
        }
    }
    assert_eq!(PrintSize::A0.measurements_for_contained_image(17, 58), (348, 1189));
    assert_eq!(PrintSize::A0.measurements_for_contained_image(58, 17), (1189, 349));
}
