use vstd::prelude::*;
use crate::raster::{RgbaImage, rgba_at};

verus! {

/// `r` is the image of `w` by `h` pixels held in `src`, turned clockwise by `angle`
/// degrees. Only 90, 180 and 270 turn it; any other angle leaves it as it is.
pub open spec fn rotated_from(r: RgbaImage, w: int, h: int, src: Seq<u8>, angle: i32) -> bool {
    if angle == 90 {
        &&& r.width == h
        &&& r.height == w
        &&& forall|x: int, y: int|
            0 <= x < w && 0 <= y < h ==> #[trigger] r.at(h - 1 - y, x) == rgba_at(src, y * w + x)
    } else if angle == 180 {
        &&& r.width == w
        &&& r.height == h
        &&& forall|x: int, y: int|
            0 <= x < w && 0 <= y < h ==> #[trigger] r.at(w - 1 - x, h - 1 - y) == rgba_at(
                src,
                y * w + x,
            )
    } else if angle == 270 {
        &&& r.width == h
        &&& r.height == w
        &&& forall|x: int, y: int|
            0 <= x < w && 0 <= y < h ==> #[trigger] r.at(y, w - 1 - x) == rgba_at(src, y * w + x)
    } else {
        &&& r.width == w
        &&& r.height == h
        &&& r.data@ == src
    }
}

/// Relies on image::imageops::rotate90: a new image of swapped size in which source
/// pixel (x, y) lands at (height - 1 - y, x).
#[verifier::external_body]
fn rotate90(img: &RgbaImage) -> (r: RgbaImage)
    requires
        img.wf(),
    ensures
        r.wf(),
        rotated_from(r, img.width as int, img.height as int, img.data@, 90),
{
    let buf = image::RgbaImage::from_raw(img.width, img.height, img.data.clone()).unwrap();
    let out = image::imageops::rotate90(&buf);
    RgbaImage { width: out.width(), height: out.height(), data: out.into_raw() }
}

/// Relies on image::imageops::rotate180: a new image of the same size in which source
/// pixel (x, y) lands at (width - 1 - x, height - 1 - y).
#[verifier::external_body]
fn rotate180(img: &RgbaImage) -> (r: RgbaImage)
    requires
        img.wf(),
    ensures
        r.wf(),
        rotated_from(r, img.width as int, img.height as int, img.data@, 180),
{
    let buf = image::RgbaImage::from_raw(img.width, img.height, img.data.clone()).unwrap();
    let out = image::imageops::rotate180(&buf);
    RgbaImage { width: out.width(), height: out.height(), data: out.into_raw() }
}

/// Relies on image::imageops::rotate270: a new image of swapped size in which source
/// pixel (x, y) lands at (y, width - 1 - x).
#[verifier::external_body]
fn rotate270(img: &RgbaImage) -> (r: RgbaImage)
    requires
        img.wf(),
    ensures
        r.wf(),
        rotated_from(r, img.width as int, img.height as int, img.data@, 270),
{
    let buf = image::RgbaImage::from_raw(img.width, img.height, img.data.clone()).unwrap();
    let out = image::imageops::rotate270(&buf);
    RgbaImage { width: out.width(), height: out.height(), data: out.into_raw() }
}

/// Relies on image::imageops::resize with FilterType::Lanczos3: an image of exactly
/// `new_width` by `new_height` pixels. Its bytes are left open: the filter kernel goes
/// through floating-point `sin`, whose precision std does not fix.
/// The sizes are bounded so that the sampler's buffers (four `f32` channels in the
/// intermediate image) fit in memory indices.
#[verifier::external_body]
fn resize_lanczos3(img: &RgbaImage, new_width: u32, new_height: u32) -> (r: RgbaImage)
    requires
        img.wf(),
        img.width > 0,
        img.height > 0,
        new_width > 0,
        new_height > 0,
        16 * (img.width * new_height) <= usize::MAX,
        4 * (new_width * new_height) <= usize::MAX,
    ensures
        r.wf(),
        r.width == new_width,
        r.height == new_height,
{
    let buf = image::RgbaImage::from_raw(img.width, img.height, img.data.clone()).unwrap();
    let out = image::imageops::resize(&buf, new_width, new_height, image::imageops::FilterType::Lanczos3);
    RgbaImage { width: out.width(), height: out.height(), data: out.into_raw() }
}

/// Scales `img` to `new_width` by `new_height` pixels with a Lanczos-3 filter. Only the
/// size is promised; the sampled bytes come from floating-point arithmetic.
pub fn resample(img: &RgbaImage, new_width: u32, new_height: u32) -> (r: RgbaImage)
    requires
        img.wf(),
        img.width > 0,
        img.height > 0,
        new_width > 0,
        new_height > 0,
        16 * (img.width * new_height) <= usize::MAX,
        4 * (new_width * new_height) <= usize::MAX,
    ensures
        r.wf(),
        r.width == new_width,
        r.height == new_height,
{
    resize_lanczos3(img, new_width, new_height)
}

/// Turns `img` clockwise by `angle` degrees: 90, 180 and 270 rotate it (the size swaps
/// for 90 and 270); every other angle returns it unchanged.
pub fn rotate(img: RgbaImage, angle: i32) -> (r: RgbaImage)
    requires
        img.wf(),
    ensures
        r.wf(),
        rotated_from(r, img.width as int, img.height as int, img.data@, angle),
{
    if angle == 90 {
        rotate90(&img)
    } else if angle == 180 {
        rotate180(&img)
    } else if angle == 270 {
        rotate270(&img)
    } else {
        img
    }
}

} // verus!
