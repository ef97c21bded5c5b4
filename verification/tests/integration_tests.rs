use citycam::error::Error;
use citycam::raster::{GrayImage, Rgb, RgbImage};
use citycam::sky_detection::{
    apply_sky_color_with_gradient, detect_sky_region_growing, detect_sky_with_color,
    smooth_sky_boundary, SkyMask,
};

#[test]
fn test_sky_detection_simple_gradient() {
    // Create a simple gradient image (lighter at top, darker at bottom)
    let mut gray_img = GrayImage::new(10, 10);
    for y in 0..10 {
        let value = 200 - (y * 20) as u8; // 200 at top, 20 at bottom
        for x in 0..10 {
            gray_img.put_pixel(x, y, value);
        }
    }

    let sky_mask = detect_sky_region_growing(&gray_img).unwrap();

    // The top row seeds the growth and is sky
    assert!(sky_mask.get(5, 0), "Top row should be detected as sky");
    // The second row differs from the top row by 20, at least the growth
    // threshold of 15, so growth stops at the top row
    assert!(
        !sky_mask.get(5, 1),
        "Second row differs too sharply to join the sky region"
    );
    // Bottom rows should not be sky
    assert!(!sky_mask.get(5, 9), "Bottom row should not be detected as sky");
}

#[test]
fn test_sky_color_application() {
    // Create a test image
    let mut img = RgbImage::new(10, 10);
    for x in 0..10 {
        for y in 0..10 {
            img.put_pixel(x, y, Rgb { r: 100, g: 100, b: 100 });
        }
    }

    // Create a sky mask where top half is sky
    let mut sky_mask = SkyMask::new(10, 10);
    for y in 0..5 {
        for x in 0..10 {
            sky_mask.set(x, y, true);
        }
    }

    let sky_color = Rgb { r: 200, g: 150, b: 100 };
    let result = apply_sky_color_with_gradient(&img, &sky_mask, sky_color);

    // Check top pixels have sky color
    let top_pixel = result.get_pixel(5, 0);
    assert_eq!(top_pixel.r, 200, "Red channel should match sky color");
    assert_eq!(top_pixel.g, 150, "Green channel should match sky color");
    assert_eq!(top_pixel.b, 100, "Blue channel should match sky color");

    // Check bottom pixels are unchanged
    let bottom_pixel = result.get_pixel(5, 9);
    assert_eq!(
        (bottom_pixel.r, bottom_pixel.g, bottom_pixel.b),
        (100, 100, 100),
        "Bottom pixels should be unchanged"
    );
}

#[test]
fn test_sky_detection_rejects_empty_image() {
    let empty = GrayImage::new(0, 0);
    assert_eq!(
        detect_sky_region_growing(&empty).unwrap_err(),
        Error::InvalidDimensions
    );
    let no_rows = GrayImage::new(4, 0);
    assert_eq!(
        detect_sky_region_growing(&no_rows).unwrap_err(),
        Error::InvalidDimensions
    );
}

#[test]
fn test_sky_detection_dark_top_row_yields_empty_mask() {
    let mut gray_img = GrayImage::new(6, 6);
    for y in 0..6 {
        for x in 0..6 {
            gray_img.put_pixel(x, y, 80);
        }
    }
    let sky_mask = detect_sky_region_growing(&gray_img).unwrap();
    for y in 0..6 {
        for x in 0..6 {
            assert!(!sky_mask.get(x, y), "no seed may mean no sky at all");
        }
    }
}

#[test]
fn test_sky_detection_grows_down_through_similar_rows() {
    // Rows step down by 10, well under the threshold of 15, until a sharp
    // drop to 40 at row 4.
    let mut gray_img = GrayImage::new(5, 8);
    let row_values = [200, 190, 180, 170, 40, 40, 40, 40];
    for y in 0..8 {
        for x in 0..5 {
            gray_img.put_pixel(x, y, row_values[y]);
        }
    }
    let sky_mask = detect_sky_region_growing(&gray_img).unwrap();
    for y in 0..4 {
        assert!(sky_mask.get(2, y), "similar rows join the sky cap");
    }
    for y in 4..8 {
        assert!(!sky_mask.get(2, y), "the sharp drop ends the sky cap");
    }
}

#[test]
fn test_smoothing_removes_a_boundary_spike() {
    // Column bottoms 2,2,2,9,2,2,2: the median filter flattens the spike.
    let mut mask = SkyMask::new(7, 10);
    for x in 0..7 {
        let bottom = if x == 3 { 9 } else { 2 };
        for y in 0..=bottom {
            mask.set(x, y, true);
        }
    }
    smooth_sky_boundary(&mut mask);
    for x in 0..7 {
        for y in 0..10 {
            assert_eq!(mask.get(x, y), y <= 2, "spike must be filtered out");
        }
    }
}

#[test]
fn test_smoothing_twice_fixed_boundary_is_stable() {
    // A flat boundary is a fixed point of the median filter: smoothing an
    // already-smoothed mask changes nothing.
    let mut mask = SkyMask::new(9, 6);
    for x in 0..9 {
        for y in 0..=3 {
            mask.set(x, y, true);
        }
    }
    smooth_sky_boundary(&mut mask);
    let mut snapshot: Vec<bool> = Vec::new();
    for y in 0..6 {
        for x in 0..9 {
            snapshot.push(mask.get(x, y));
        }
    }
    smooth_sky_boundary(&mut mask);
    let mut k = 0;
    for y in 0..6 {
        for x in 0..9 {
            assert_eq!(mask.get(x, y), snapshot[k], "second pass must change nothing");
            k += 1;
        }
    }
}

#[test]
fn test_composite_transition_fades_linearly() {
    // Uniform 100-gray image, sky cap of rows 0..=1, target (200, 150, 100):
    // the five rows below the cap fade by fifths, rounded to nearest.
    let mut img = RgbImage::new(3, 10);
    for y in 0..10 {
        for x in 0..3 {
            img.put_pixel(x, y, Rgb { r: 100, g: 100, b: 100 });
        }
    }
    let mut sky_mask = SkyMask::new(3, 10);
    for y in 0..2 {
        for x in 0..3 {
            sky_mask.set(x, y, true);
        }
    }
    let sky_color = Rgb { r: 200, g: 150, b: 100 };
    let result = apply_sky_color_with_gradient(&img, &sky_mask, sky_color);
    // row 2: factor 4/5 -> r = (200*4 + 100*1 + 2) / 5 = 180 (rounded)
    assert_eq!(result.get_pixel(1, 2), Rgb { r: 180, g: 140, b: 100 });
    // row 3: factor 3/5
    assert_eq!(result.get_pixel(1, 3), Rgb { r: 160, g: 130, b: 100 });
    // row 6: factor 0, unchanged
    assert_eq!(result.get_pixel(1, 6), Rgb { r: 100, g: 100, b: 100 });
}

#[test]
fn test_hysteresis_detection_floods_weak_pixels_from_strong_rows() {
    // A uniform moderately blue frame: the vertical bias makes only the top
    // rows clear the high threshold, but every pixel clears the low one, so
    // growth floods the whole frame.
    let mut img = RgbImage::new(4, 10);
    for y in 0..10 {
        for x in 0..4 {
            img.put_pixel(x, y, Rgb { r: 100, g: 100, b: 140 });
        }
    }
    let mask = detect_sky_with_color(&img);
    for y in 0..10 {
        for x in 0..4 {
            assert!(mask.get(x, y), "weak pixels connected to strong rows join");
        }
    }
}

#[test]
fn test_hysteresis_detection_marks_nothing_on_a_dark_frame() {
    let mut img = RgbImage::new(5, 5);
    for y in 0..5 {
        for x in 0..5 {
            img.put_pixel(x, y, Rgb { r: 0, g: 0, b: 0 });
        }
    }
    let mask = detect_sky_with_color(&img);
    for y in 0..5 {
        for x in 0..5 {
            assert!(!mask.get(x, y), "a black frame scores below both thresholds");
        }
    }
}
