use citycam::image_processing::{
    add_gaussian_noise_to_rgb, apply_tint_to_rgb, add_poisson_noise_to_rgb, add_salt_and_pepper_noise_to_rgb,
    convert_grayscale_to_rgb, grayscale, hex_to_rgb, poisson_rates,
};
use citycam::error::Error;
use citycam::raster::{GrayImage, Rgb, RgbImage};
use rand::rngs::StdRng;
use rand::SeedableRng;
use rand_distr::Distribution;

fn uniform_rgb(width: usize, height: usize, value: u8) -> RgbImage {
    let mut img = RgbImage::new(width, height);
    for y in 0..height {
        for x in 0..width {
            img.put_pixel(x, y, Rgb { r: value, g: value, b: value });
        }
    }
    img
}

#[test]
fn test_convert_grayscale_to_rgb() {
    let mut gray_img = GrayImage::new(3, 3);
    for x in 0..3 {
        for y in 0..3 {
            gray_img.put_pixel(x, y, 100);
        }
    }

    let rgb_img = convert_grayscale_to_rgb(&gray_img);

    for x in 0..3 {
        for y in 0..3 {
            let pixel = rgb_img.get_pixel(x, y);
            assert_eq!((pixel.r, pixel.g, pixel.b), (100, 100, 100));
        }
    }
}

#[test]
fn test_gaussian_noise_changes_image() {
    let rgb_img = uniform_rgb(10, 10, 128);

    let mut rng = StdRng::seed_from_u64(7);
    let normal = rand_distr::Normal::new(0.0, 50.0).unwrap();
    let mut offsets: Vec<i64> = Vec::new();
    for _ in 0..(3 * 10 * 10) {
        let sample: f64 = normal.sample(&mut rng);
        offsets.push(sample as i64);
    }

    let noisy_img = add_gaussian_noise_to_rgb(&rgb_img, 50, &offsets).unwrap();

    // Check that pixels have changed
    let mut all_same = true;
    for x in 0..10 {
        for y in 0..10 {
            let original = rgb_img.get_pixel(x, y);
            let noisy = noisy_img.get_pixel(x, y);
            if original != noisy {
                all_same = false;
                break;
            }
        }
    }

    assert!(!all_same, "Gaussian noise should change pixel values");
}

#[test]
fn test_salt_and_pepper_noise() {
    let rgb_img = uniform_rgb(20, 20, 128);

    let mut rng = StdRng::seed_from_u64(11);
    let noisy_img = add_salt_and_pepper_noise_to_rgb(&rgb_img, 1, 2, &mut rng).unwrap();

    // Count salt (255) and pepper (0) pixels
    let mut salt_count = 0;
    let mut pepper_count = 0;

    for x in 0..20 {
        for y in 0..20 {
            let pixel = noisy_img.get_pixel(x, y);
            if pixel == (Rgb { r: 255, g: 255, b: 255 }) {
                salt_count += 1;
            } else if pixel == (Rgb { r: 0, g: 0, b: 0 }) {
                pepper_count += 1;
            }
        }
    }

    // With density 0.5, roughly 25% should be salt and 25% pepper
    assert!(salt_count > 0, "Should have some salt pixels");
    assert!(pepper_count > 0, "Should have some pepper pixels");
    assert!(salt_count + pepper_count > 0, "Should have noise applied");
}

#[test]
fn test_salt_and_pepper_density_one_replaces_every_pixel() {
    let rgb_img = uniform_rgb(8, 8, 128);
    let mut rng = StdRng::seed_from_u64(3);
    let noisy = add_salt_and_pepper_noise_to_rgb(&rgb_img, 1, 1, &mut rng).unwrap();
    for y in 0..8 {
        for x in 0..8 {
            let p = noisy.get_pixel(x, y);
            let white = Rgb { r: 255, g: 255, b: 255 };
            let black = Rgb { r: 0, g: 0, b: 0 };
            assert!(p == white || p == black, "density 1 must replace every pixel");
        }
    }
}

#[test]
fn test_salt_and_pepper_density_zero_changes_nothing() {
    let rgb_img = uniform_rgb(6, 5, 90);
    let mut rng = StdRng::seed_from_u64(5);
    let noisy = add_salt_and_pepper_noise_to_rgb(&rgb_img, 0, 4, &mut rng).unwrap();
    for y in 0..5 {
        for x in 0..6 {
            assert_eq!(noisy.get_pixel(x, y), rgb_img.get_pixel(x, y));
        }
    }
}

#[test]
fn test_salt_and_pepper_invalid_density() {
    let rgb_img = uniform_rgb(2, 2, 10);
    let mut rng = StdRng::seed_from_u64(1);
    assert_eq!(
        add_salt_and_pepper_noise_to_rgb(&rgb_img, 3, 2, &mut rng).unwrap_err(),
        Error::InvalidNoiseParameter
    );
    assert_eq!(
        add_salt_and_pepper_noise_to_rgb(&rgb_img, 1, 0, &mut rng).unwrap_err(),
        Error::InvalidNoiseParameter
    );
}

#[test]
fn test_gaussian_zero_stddev_is_error() {
    let rgb_img = uniform_rgb(2, 2, 10);
    let offsets = vec![0i64; 12];
    assert_eq!(
        add_gaussian_noise_to_rgb(&rgb_img, 0, &offsets).unwrap_err(),
        Error::InvalidNoiseParameter
    );
}

#[test]
fn test_gaussian_offsets_applied_and_clamped() {
    let rgb_img = uniform_rgb(1, 2, 100);
    // pixel (0,0): +20, -30, +200 ; pixel (0,1): -200, 0, +1
    let offsets = vec![20, -30, 200, -200, 0, 1];
    let noisy = add_gaussian_noise_to_rgb(&rgb_img, 5, &offsets).unwrap();
    assert_eq!(noisy.get_pixel(0, 0), Rgb { r: 120, g: 70, b: 255 });
    assert_eq!(noisy.get_pixel(0, 1), Rgb { r: 0, g: 100, b: 101 });
}

#[test]
fn test_poisson_rates_floor_black_at_one() {
    let mut img = RgbImage::new(2, 1);
    img.put_pixel(0, 0, Rgb { r: 0, g: 7, b: 255 });
    img.put_pixel(1, 0, Rgb { r: 1, g: 0, b: 0 });
    let rates = poisson_rates(&img);
    assert_eq!(rates, vec![1, 7, 255, 1, 1, 1]);
}

#[test]
fn test_poisson_noise_applies_and_clamps_samples() {
    let img = uniform_rgb(2, 2, 10);
    let mut samples: Vec<u64> = Vec::new();
    for k in 0..12 {
        samples.push(if k % 2 == 0 { 300 } else { 9 });
    }
    let noisy = add_poisson_noise_to_rgb(&img, &samples);
    assert_eq!(noisy.get_pixel(0, 0), Rgb { r: 255, g: 9, b: 255 });
    assert_eq!(noisy.get_pixel(1, 0), Rgb { r: 9, g: 255, b: 9 });
}

#[test]
fn test_poisson_noise_with_real_draws_stays_in_range() {
    let img = uniform_rgb(4, 4, 200);
    let rates = poisson_rates(&img);
    let mut rng = StdRng::seed_from_u64(21);
    let mut samples: Vec<u64> = Vec::new();
    for rate in &rates {
        let poisson = rand_distr::Poisson::new(*rate as f64).unwrap();
        let s: f64 = poisson.sample(&mut rng);
        samples.push(s as u64);
    }
    let noisy = add_poisson_noise_to_rgb(&img, &samples);
    assert_eq!(noisy.width(), 4);
    assert_eq!(noisy.height(), 4);
}

#[test]
fn test_grayscale_uses_luma_weights() {
    let mut img = RgbImage::new(1, 1);
    img.put_pixel(0, 0, Rgb { r: 255, g: 0, b: 0 });
    let gray = grayscale(&img);
    // 2126 * 255 / 10000 = 54.213 rounded down
    assert_eq!(gray.get_pixel(0, 0), 54);
}

#[test]
fn test_hex_to_rgb_parses_and_rejects() {
    assert_eq!(hex_to_rgb("#FF5500").unwrap(), Rgb { r: 255, g: 85, b: 0 });
    assert_eq!(hex_to_rgb("00ff00").unwrap(), Rgb { r: 0, g: 255, b: 0 });
    assert_eq!(hex_to_rgb("#F50").unwrap_err(), Error::InvalidColorEncoding);
    assert_eq!(hex_to_rgb("#GGGGGG").unwrap_err(), Error::InvalidColorEncoding);
    assert_eq!(hex_to_rgb("").unwrap_err(), Error::InvalidColorEncoding);
}

#[test]
fn test_apply_tint_exact_blend() {
    let img = uniform_rgb(2, 2, 100);
    let tinted = apply_tint_to_rgb(&img, "#FF5500", 1, 2).unwrap();
    // channel = (orig * (den - num) + tint * num) / den, rounded down
    assert_eq!(tinted.get_pixel(0, 0), Rgb { r: 177, g: 92, b: 50 });
    assert_eq!(
        apply_tint_to_rgb(&img, "#FF5500", 3, 2).unwrap_err(),
        Error::InvalidNoiseParameter
    );
    assert_eq!(
        apply_tint_to_rgb(&img, "nonsense", 1, 2).unwrap_err(),
        Error::InvalidColorEncoding
    );
}
