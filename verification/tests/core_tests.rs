use citycam::cli::NoiseType;
use citycam::camera::{contains_sub, find_camera, list_cameras, parse_selector, Camera};
use citycam::error::{CameraError, Error, StreamError};
use citycam::gui::Language;
use citycam::image_processor::{clone_image, process_base, NoiseSpec};
use citycam::raster::{Rgb, RgbImage};
use citycam::sky_detection::get_sky_color_for_time;
use citycam::stream::{base_url_of, select_segment, select_variant};

#[test]
fn test_sky_color_night_and_determinism() {
    // The same hour always yields the same colour; both ends of the day are
    // the fixed night colour.
    assert_eq!(get_sky_color_for_time(0), get_sky_color_for_time(0));
    assert_eq!(get_sky_color_for_time(0), Rgb { r: 40, g: 45, b: 70 });
    assert_eq!(get_sky_color_for_time(23), Rgb { r: 40, g: 45, b: 70 });
    assert_eq!(get_sky_color_for_time(3), Rgb { r: 40, g: 45, b: 70 });
}

#[test]
fn test_sky_color_bands() {
    // Dawn at hour 5 starts at the muted base, hour 6 is half-way to amber.
    assert_eq!(get_sky_color_for_time(5), Rgb { r: 70, g: 80, b: 120 });
    assert_eq!(get_sky_color_for_time(6), Rgb { r: 137, g: 110, b: 115 });
    // Dusk interpolates back down: hour 18 is full amber, hour 19 is 3/4.
    assert_eq!(get_sky_color_for_time(18), Rgb { r: 205, g: 140, b: 110 });
    assert_eq!(get_sky_color_for_time(19), Rgb { r: 171, g: 125, b: 112 });
    assert_eq!(get_sky_color_for_time(21), Rgb { r: 103, g: 95, b: 117 });
    // Morning and midday are fixed hues; an out-of-range hour falls back to
    // midday.
    assert_eq!(get_sky_color_for_time(8), Rgb { r: 170, g: 190, b: 215 });
    assert_eq!(get_sky_color_for_time(13), Rgb { r: 180, g: 200, b: 220 });
    assert_eq!(get_sky_color_for_time(99), Rgb { r: 180, g: 200, b: 220 });
}

fn sample_cameras() -> Vec<Camera> {
    vec![
        Camera { name: String::from("Berlin Alexanderplatz"), url: String::from("http://a/1.m3u8") },
        Camera { name: String::from("Tokyo Crossing"), url: String::from("http://a/2.m3u8") },
        Camera { name: String::from("Oslo Harbour"), url: String::from("http://a/3.m3u8") },
    ]
}

#[test]
fn test_find_camera_by_index() {
    let cams = sample_cameras();
    let c = find_camera(&cams, "2").unwrap();
    assert_eq!(c.name, "Tokyo Crossing");
    assert_eq!(c.url, "http://a/2.m3u8");
    let c1 = find_camera(&cams, "+1").unwrap();
    assert_eq!(c1.name, "Berlin Alexanderplatz");
}

#[test]
fn test_find_camera_index_out_of_range() {
    let cams = sample_cameras();
    assert_eq!(find_camera(&cams, "0").unwrap_err(), CameraError::IndexOutOfRange(0));
    assert_eq!(find_camera(&cams, "4").unwrap_err(), CameraError::IndexOutOfRange(4));
}

#[test]
fn test_find_camera_by_name_case_insensitive() {
    // The match goes through lowercasing on both sides: an upper-case
    // selector must still find the lower-case name.
    let cams = sample_cameras();
    let c = find_camera(&cams, "TOKYO").unwrap();
    assert_eq!(c.name, "Tokyo Crossing");
    let c2 = find_camera(&cams, "harbour").unwrap();
    assert_eq!(c2.name, "Oslo Harbour");
}

#[test]
fn test_find_camera_empty_selector_takes_first() {
    let cams = sample_cameras();
    let c = find_camera(&cams, "").unwrap();
    assert_eq!(c.name, "Berlin Alexanderplatz");
}

#[test]
fn test_find_camera_not_found() {
    let cams = sample_cameras();
    assert_eq!(find_camera(&cams, "mars").unwrap_err(), CameraError::NotFound);
    let empty: Vec<Camera> = Vec::new();
    assert_eq!(find_camera(&empty, "").unwrap_err(), CameraError::NotFound);
}

#[test]
fn test_parse_selector() {
    assert_eq!(parse_selector("12"), Some(12));
    assert_eq!(parse_selector("+7"), Some(7));
    assert_eq!(parse_selector("0"), Some(0));
    assert_eq!(parse_selector(""), None);
    assert_eq!(parse_selector("+"), None);
    assert_eq!(parse_selector("9x"), None);
    assert_eq!(parse_selector("x9"), None);
    assert_eq!(parse_selector("99999999999999999999999999999999"), None);
}

#[test]
fn test_contains_sub() {
    assert!(contains_sub("tokyo crossing", "kyo"));
    assert!(contains_sub("tokyo", ""));
    assert!(!contains_sub("tokyo", "kyoto"));
    assert!(!contains_sub("", "a"));
}

#[test]
fn test_list_cameras_renders_numbered_lines() {
    let cams = vec![
        Camera { name: String::from("Alpha"), url: String::from("u1") },
        Camera { name: String::from("Beta"), url: String::from("u2") },
    ];
    let listing = list_cameras(&cams);
    assert_eq!(listing, "Available cameras:\n  1. Alpha\n  2. Beta\n");
}

#[test]
fn test_list_cameras_empty() {
    let cams: Vec<Camera> = Vec::new();
    assert_eq!(list_cameras(&cams), "Available cameras:\n");
}

#[test]
fn test_language_greetings() {
    assert_eq!(Language::English.hello(), "Hello!");
    assert_eq!(Language::Spanish.hello(), "¡Hola!");
    assert_eq!(Language::Other.hello(), "... hello?");
    assert_eq!(Language::German.language_name(), "German");
    assert_eq!(Language::Other.language_name(), "Some other language");
    assert_eq!(Language::default(), Language::English);
}

#[test]
fn test_noise_type_is_a_plain_choice() {
    assert_eq!(NoiseType::Gaussian, NoiseType::Gaussian);
    assert_ne!(NoiseType::Gaussian, NoiseType::Poisson);
    let spec = NoiseSpec::Gaussian { mean: 0, stddev: 25 };
    assert_eq!(spec, NoiseSpec::Gaussian { mean: 0, stddev: 25 });
}

#[test]
fn test_base_url_of() {
    assert_eq!(base_url_of("https://h/a/b/list.m3u8"), "https://h/a/b/");
    assert_eq!(base_url_of("nothing-here"), "");
    assert_eq!(base_url_of("tail/"), "tail/");
}

#[test]
fn test_select_variant_and_segment() {
    let uris = vec![String::from("chunks.m3u8"), String::from("alt.m3u8")];
    assert_eq!(select_variant(&uris, "https://h/p/").unwrap(), "https://h/p/chunks.m3u8");
    let none: Vec<String> = Vec::new();
    assert_eq!(select_variant(&none, "https://h/p/").unwrap_err(), StreamError::NoVariants);
    assert_eq!(select_segment(&uris, "base/").unwrap(), "base/chunks.m3u8");
    assert_eq!(select_segment(&none, "base/").unwrap_err(), StreamError::NoSegments);
}

#[test]
fn test_process_base_passthrough_and_grayscale() {
    let mut img = RgbImage::new(2, 2);
    img.put_pixel(0, 0, Rgb { r: 255, g: 0, b: 0 });
    img.put_pixel(1, 0, Rgb { r: 10, g: 20, b: 30 });
    img.put_pixel(0, 1, Rgb { r: 0, g: 0, b: 0 });
    img.put_pixel(1, 1, Rgb { r: 200, g: 200, b: 200 });

    let same = process_base(&img, false, false, 12).unwrap();
    for y in 0..2 {
        for x in 0..2 {
            assert_eq!(same.get_pixel(x, y), img.get_pixel(x, y));
        }
    }

    let gray = process_base(&img, true, false, 12).unwrap();
    let p = gray.get_pixel(0, 0);
    assert_eq!((p.r, p.g, p.b), (54, 54, 54));
    let q = gray.get_pixel(1, 1);
    assert_eq!((q.r, q.g, q.b), (200, 200, 200));
}

#[test]
fn test_process_base_rejects_empty_frame_for_sky() {
    let img = RgbImage::new(0, 0);
    assert_eq!(process_base(&img, false, true, 12).unwrap_err(), Error::InvalidDimensions);
    assert!(process_base(&img, false, false, 12).is_ok());
}

#[test]
fn test_process_base_colors_bright_sky() {
    // A frame whose top half is bright becomes night-blue sky at hour 0.
    let mut img = RgbImage::new(6, 6);
    for y in 0..6 {
        for x in 0..6 {
            let v = if y < 3 { 220 } else { 30 };
            img.put_pixel(x, y, Rgb { r: v, g: v, b: v });
        }
    }
    let out = process_base(&img, false, true, 0).unwrap();
    assert_eq!(out.get_pixel(2, 0), Rgb { r: 40, g: 45, b: 70 });
    assert_eq!(out.width(), 6);
    assert_eq!(out.height(), 6);
}

#[test]
fn test_clone_image_is_exact() {
    let mut img = RgbImage::new(2, 1);
    img.put_pixel(0, 0, Rgb { r: 1, g: 2, b: 3 });
    img.put_pixel(1, 0, Rgb { r: 4, g: 5, b: 6 });
    let copy = clone_image(&img);
    assert_eq!(copy.get_pixel(0, 0), Rgb { r: 1, g: 2, b: 3 });
    assert_eq!(copy.get_pixel(1, 0), Rgb { r: 4, g: 5, b: 6 });
}
