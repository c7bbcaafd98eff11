use image_pipeline::blend::{apply_tint, composite, over, placed_offset};
use image_pipeline::pixel::{dist_sq, tint_pixel, Rgb, Rgba};
use image_pipeline::raster::RgbaImage;

fn rgba(r: u8, g: u8, b: u8, a: u8) -> Rgba {
    Rgba { r, g, b, a }
}

fn image_of(width: u32, height: u32, pixels: &[Rgba]) -> RgbaImage {
    let mut data = Vec::new();
    for p in pixels {
        data.extend_from_slice(&[p.r, p.g, p.b, p.a]);
    }
    RgbaImage::from_raw(width, height, data).unwrap()
}

fn pixels_of(img: &RgbaImage) -> Vec<Rgba> {
    img.data.chunks(4).map(|c| rgba(c[0], c[1], c[2], c[3])).collect()
}

#[test]
fn tint_with_zero_alpha_is_a_no_op() {
    let p = rgba(12, 34, 56, 78);
    assert_eq!(tint_pixel(p, rgba(200, 100, 50, 0)), p);
}

#[test]
fn tint_with_full_alpha_replaces_colour() {
    let p = rgba(12, 34, 56, 78);
    assert_eq!(tint_pixel(p, rgba(200, 100, 50, 255)), rgba(200, 100, 50, 78));
}

#[test]
fn tint_rounds_to_nearest() {
    // 100 * 127 / 255 + 200 * 128 / 255 = 150.196...
    let p = tint_pixel(rgba(100, 100, 100, 9), rgba(200, 0, 255, 128));
    assert_eq!(p, rgba(150, 50, 178, 9));
}

#[test]
fn apply_tint_changes_every_pixel_and_keeps_alpha() {
    let mut img = image_of(2, 1, &[rgba(0, 0, 0, 10), rgba(255, 255, 255, 20)]);
    apply_tint(&mut img, rgba(0, 0, 0, 255));
    assert_eq!(pixels_of(&img), vec![rgba(0, 0, 0, 10), rgba(0, 0, 0, 20)]);
}

#[test]
fn over_transparent_source_keeps_destination() {
    let d = rgba(10, 20, 30, 40);
    assert_eq!(over(rgba(255, 255, 255, 0), d), d);
}

#[test]
fn over_opaque_source_wins() {
    assert_eq!(over(rgba(1, 2, 3, 255), rgba(10, 20, 30, 40)), rgba(1, 2, 3, 255));
}

#[test]
fn over_both_transparent_is_zero() {
    assert_eq!(over(rgba(9, 9, 9, 0), rgba(7, 7, 7, 0)), rgba(0, 0, 0, 0));
}

#[test]
fn over_half_alpha_on_opaque() {
    // coverage 255*128 + 255*127 = 65025; red 255*255*128/65025 = 128
    assert_eq!(over(rgba(255, 0, 0, 128), rgba(0, 0, 255, 255)), rgba(128, 0, 127, 255));
}

#[test]
fn composite_transparent_source_leaves_dest_unchanged() {
    let pixels = [rgba(1, 2, 3, 4), rgba(50, 60, 70, 255), rgba(0, 0, 0, 0), rgba(9, 8, 7, 100)];
    let mut dest = image_of(2, 2, &pixels);
    let src = RgbaImage::filled(3, 3, rgba(200, 200, 200, 0));
    composite(&mut dest, &src, 0, 0);
    assert_eq!(pixels_of(&dest), pixels.to_vec());
}

#[test]
fn composite_opaque_source_on_empty_dest_copies_source() {
    let pixels = [rgba(1, 2, 3, 255), rgba(4, 5, 6, 255), rgba(7, 8, 9, 255), rgba(10, 11, 12, 255)];
    let src = image_of(2, 2, &pixels);
    let mut dest = RgbaImage::filled(2, 2, rgba(0, 0, 0, 0));
    composite(&mut dest, &src, 0, 0);
    assert_eq!(pixels_of(&dest), pixels.to_vec());
}

#[test]
fn composite_clips_at_the_destination_edge() {
    let mut dest = RgbaImage::filled(2, 2, rgba(0, 0, 0, 255));
    let src = RgbaImage::filled(2, 2, rgba(255, 255, 255, 255));
    composite(&mut dest, &src, 1, 1);
    let black = rgba(0, 0, 0, 255);
    assert_eq!(pixels_of(&dest), vec![black, black, black, rgba(255, 255, 255, 255)]);
}

#[test]
fn composite_far_outside_changes_nothing() {
    let mut dest = RgbaImage::filled(2, 2, rgba(5, 5, 5, 255));
    let src = RgbaImage::filled(2, 2, rgba(255, 255, 255, 255));
    composite(&mut dest, &src, 7, 0);
    assert_eq!(pixels_of(&dest), vec![rgba(5, 5, 5, 255); 4]);
}

#[test]
fn offset_kept_for_smaller_object() {
    assert_eq!(placed_offset(10, 100, 42), 42);
}

#[test]
fn offset_forced_to_zero_for_larger_or_equal_object() {
    assert_eq!(placed_offset(100, 100, 42), 0);
    assert_eq!(placed_offset(150, 100, 99), 0);
}

#[test]
fn squared_distance_of_black_and_white() {
    assert_eq!(dist_sq(Rgb { r: 0, g: 0, b: 0 }, Rgb { r: 255, g: 255, b: 255 }), 195075);
    assert_eq!(dist_sq(Rgb { r: 10, g: 3, b: 0 }, Rgb { r: 0, g: 0, b: 4 }), 125);
}

#[test]
fn from_raw_rejects_wrong_length() {
    assert!(RgbaImage::from_raw(2, 2, vec![0; 15]).is_none());
    assert!(RgbaImage::from_raw(2, 2, vec![0; 16]).is_some());
}
