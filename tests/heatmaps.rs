use image_pipeline::analysis::{create_image_with_color, find_most_used_color};
use image_pipeline::heatmap::{diff_heatmap, max_dist_sq, HeatmapError};
use image_pipeline::pixel::{Rgb, MAX_DIST_SQ};
use image_pipeline::raster::RgbImage;

fn rgb_image(width: u32, height: u32, pixels: &[(u8, u8, u8)]) -> RgbImage {
    let mut data = Vec::new();
    for p in pixels {
        data.extend_from_slice(&[p.0, p.1, p.2]);
    }
    RgbImage::from_raw(width, height, data).unwrap()
}

/// Encodes the normalised level in the output so tests can read it back.
fn level_colour(n: u32, d: u32) -> Rgb {
    Rgb { r: (n as u64 * 255 / d as u64) as u8, g: (n % 256) as u8, b: (d % 256) as u8 }
}

#[test]
fn two_pixel_pair_maps_to_gradient_ends() {
    let a = rgb_image(2, 1, &[(0, 0, 0), (10, 0, 0)]);
    let b = rgb_image(2, 1, &[(0, 0, 0), (0, 0, 0)]);
    assert_eq!(max_dist_sq(&a, &b), 100);
    let mut calls = std::cell::RefCell::new(Vec::new());
    let h = diff_heatmap(&a, &b, |n, d| {
        calls.borrow_mut().push((n, d));
        level_colour(n, d)
    })
    .unwrap();
    assert_eq!(calls.get_mut().clone(), vec![(0, 100), (100, 100)]);
    assert_eq!(h.data, vec![0, 0, 100, 255, 100, 100]);
}

#[test]
fn identical_images_give_uniform_zero_heatmap() {
    let x = rgb_image(2, 2, &[(1, 2, 3), (200, 100, 0), (7, 7, 7), (255, 0, 255)]);
    let h = diff_heatmap(&x, &x, level_colour).unwrap();
    assert_eq!(h.data, vec![0, 0, 1].repeat(4));
}

#[test]
fn black_against_white_gives_gradient_end_everywhere() {
    let a = rgb_image(3, 1, &[(0, 0, 0); 3]);
    let b = rgb_image(3, 1, &[(255, 255, 255); 3]);
    let mut seen = Vec::new();
    let h = diff_heatmap(&a, &b, |n, d| {
        assert_eq!((n, d), (MAX_DIST_SQ, MAX_DIST_SQ));
        level_colour(n, d)
    })
    .unwrap();
    for c in h.data.chunks(3) {
        seen.push(c[0]);
    }
    assert_eq!(seen, vec![255, 255, 255]);
}

#[test]
fn mismatched_dimensions_are_rejected() {
    let a = rgb_image(2, 1, &[(0, 0, 0); 2]);
    let b = rgb_image(1, 2, &[(0, 0, 0); 2]);
    assert_eq!(diff_heatmap(&a, &b, level_colour).unwrap_err(), HeatmapError::DimensionMismatch);
    let c = rgb_image(3, 1, &[(0, 0, 0); 3]);
    assert!(matches!(diff_heatmap(&a, &c, level_colour), Err(HeatmapError::DimensionMismatch)));
}

#[test]
fn empty_images_compare_to_empty_heatmap() {
    let a = rgb_image(0, 0, &[]);
    let h = diff_heatmap(&a, &a, level_colour).unwrap();
    assert!(h.data.is_empty());
}

#[test]
fn most_used_color_is_found() {
    let img = rgb_image(2, 2, &[(1, 1, 1), (9, 9, 9), (9, 9, 9), (1, 1, 2)]);
    assert_eq!(find_most_used_color(&img), Some(Rgb { r: 9, g: 9, b: 9 }));
}

#[test]
fn most_used_color_of_empty_image_is_none() {
    let img = rgb_image(0, 3, &[]);
    assert_eq!(find_most_used_color(&img), None);
}

#[test]
fn filled_rgb_image_has_one_colour() {
    let img = create_image_with_color(3, 2, Rgb { r: 4, g: 5, b: 6 });
    assert_eq!((img.width, img.height), (3, 2));
    assert_eq!(img.data, vec![4, 5, 6].repeat(6));
}
