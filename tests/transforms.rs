use image_pipeline::geometry::{resample, rotate};
use image_pipeline::pixel::Rgba;
use image_pipeline::raster::RgbaImage;
use image_pipeline::scene::{compose_scene, draw_params, tint_and_rotate, TransformParams};

fn px(v: u8) -> [u8; 4] {
    [v, v, v, 255]
}

fn image_of(width: u32, height: u32, values: &[u8]) -> RgbaImage {
    let data: Vec<u8> = values.iter().flat_map(|v| px(*v)).collect();
    RgbaImage::from_raw(width, height, data).unwrap()
}

fn values_of(img: &RgbaImage) -> Vec<u8> {
    img.data.chunks(4).map(|c| c[0]).collect()
}

#[test]
fn rotate_90_turns_clockwise() {
    // 2 x 1: [a b] becomes a column with a on top
    let r = rotate(image_of(2, 1, &[1, 2]), 90);
    assert_eq!((r.width, r.height), (1, 2));
    assert_eq!(values_of(&r), vec![1, 2]);
    // 2 x 2: [1 2 / 3 4] becomes [3 1 / 4 2]
    let r = rotate(image_of(2, 2, &[1, 2, 3, 4]), 90);
    assert_eq!(values_of(&r), vec![3, 1, 4, 2]);
}

#[test]
fn rotate_180_reverses() {
    let r = rotate(image_of(2, 2, &[1, 2, 3, 4]), 180);
    assert_eq!((r.width, r.height), (2, 2));
    assert_eq!(values_of(&r), vec![4, 3, 2, 1]);
}

#[test]
fn rotate_270_turns_counterclockwise() {
    let r = rotate(image_of(2, 2, &[1, 2, 3, 4]), 270);
    assert_eq!(values_of(&r), vec![2, 4, 1, 3]);
    let r = rotate(image_of(2, 1, &[1, 2]), 270);
    assert_eq!((r.width, r.height), (1, 2));
    assert_eq!(values_of(&r), vec![2, 1]);
}

#[test]
fn other_angles_leave_the_image() {
    for angle in [0, 45, 91, 359, -90] {
        let r = rotate(image_of(2, 1, &[1, 2]), angle);
        assert_eq!((r.width, r.height), (2, 1));
        assert_eq!(values_of(&r), vec![1, 2]);
    }
}

#[test]
fn resample_gives_requested_size() {
    let img = image_of(4, 2, &[10; 8]);
    let r = resample(&img, 2, 3);
    assert_eq!((r.width, r.height), (2, 3));
    assert_eq!(r.data.len(), 2 * 3 * 4);
}

#[test]
fn resample_to_same_size_copies() {
    let img = image_of(2, 2, &[1, 2, 3, 4]);
    let r = resample(&img, 2, 2);
    assert_eq!(r.data, img.data);
}

#[test]
fn drawn_params_are_in_range() {
    for _ in 0..50 {
        let p = draw_params(7, 3);
        assert!((0..360).contains(&p.rotation));
        assert!(p.offset_x < 7);
        assert!(p.offset_y < 3);
    }
}

#[test]
fn compose_places_object_at_offset() {
    let mut base = RgbaImage::filled(2, 2, Rgba { r: 0, g: 0, b: 0, a: 255 });
    let object = RgbaImage::filled(1, 1, Rgba { r: 255, g: 0, b: 0, a: 255 });
    let params = TransformParams { rotation: 0, offset_x: 1, offset_y: 1, tint: Rgba { r: 0, g: 0, b: 255, a: 0 } };
    let staged = compose_scene(&mut base, &object, 1, 1, params).unwrap();
    assert_eq!(staged.data, vec![255, 0, 0, 255]);
    assert_eq!(&base.data[12..16], &[255, 0, 0, 255]);
    assert_eq!(&base.data[0..12], &[0, 0, 0, 255].repeat(3)[..]);
}

#[test]
fn compose_forces_offset_zero_for_large_object() {
    let mut base = RgbaImage::filled(2, 2, Rgba { r: 0, g: 0, b: 0, a: 255 });
    let object = RgbaImage::filled(2, 1, Rgba { r: 9, g: 9, b: 9, a: 255 });
    // tint fully replaces the colour; the object is as wide as the base, so x is 0
    let params = TransformParams { rotation: 0, offset_x: 1, offset_y: 1, tint: Rgba { r: 50, g: 60, b: 70, a: 255 } };
    assert!(compose_scene(&mut base, &object, 2, 1, params).is_some());
    assert_eq!(base.data[0..8], [0, 0, 0, 255, 0, 0, 0, 255]);
    assert_eq!(base.data[8..16], [50, 60, 70, 255, 50, 60, 70, 255]);
}

#[test]
fn png_round_trip_is_lossless() {
    let img = image_of(3, 2, &[0, 17, 128, 200, 254, 255]);
    let buf = image::RgbaImage::from_raw(img.width, img.height, img.data.clone()).unwrap();
    let mut bytes = std::io::Cursor::new(Vec::new());
    buf.write_to(&mut bytes, image::ImageOutputFormat::Png).unwrap();
    let back = image::load_from_memory(bytes.get_ref()).unwrap().to_rgba8();
    assert_eq!(back.into_raw(), img.data);
}

#[test]
fn compose_with_empty_target_size_places_nothing() {
    let mut base = RgbaImage::filled(2, 2, Rgba { r: 1, g: 2, b: 3, a: 255 });
    let object = RgbaImage::filled(2, 2, Rgba { r: 9, g: 9, b: 9, a: 255 });
    let params = TransformParams { rotation: 90, offset_x: 0, offset_y: 0, tint: Rgba { r: 0, g: 0, b: 0, a: 0 } };
    assert!(compose_scene(&mut base, &object, 0, 3, params).is_none());
    assert_eq!(base.data, [1, 2, 3, 255].repeat(4));
}

#[test]
fn tint_and_rotate_tints_then_turns() {
    // [0 255] as a row; full-strength tint to (10, 20, 30), then a quarter turn
    let img = image_of(2, 1, &[0, 255]);
    let s = tint_and_rotate(img, Rgba { r: 10, g: 20, b: 30, a: 255 }, 90);
    assert_eq!((s.width, s.height), (1, 2));
    assert_eq!(s.data, [10, 20, 30, 255].repeat(2));
    let img = image_of(2, 1, &[100, 200]);
    let s = tint_and_rotate(img, Rgba { r: 0, g: 0, b: 0, a: 0 }, 180);
    assert_eq!(values_of(&s), vec![200, 100]);
}
