use vstd::prelude::*;
use crate::pixel::{Rgba, tint_pixel_spec};
use crate::raster::{RgbaImage, rgba_at, lemma_area_bound};
use crate::blend::{apply_tint, composite, composite_px, placed_offset, placed_offset_spec};
use crate::geometry::{resample, rotate, rotated_from};

verus! {

/// The random choices of one compositing run, apart from the scale factor.
#[derive(Clone, Copy, Debug, PartialEq, Eq, Structural)]
pub struct TransformParams {
    /// Clockwise rotation in degrees, in `0..360`.
    pub rotation: i32,
    /// Drawn horizontal offset of the object on the base.
    pub offset_x: u32,
    /// Drawn vertical offset of the object on the base.
    pub offset_y: u32,
    /// Colour blended into the object, with strength `tint.a / 255`.
    pub tint: Rgba,
}

/// `t` holds the pixels of `src`, `n` of them, each with `tint` blended in.
pub open spec fn tinted_from(t: Seq<u8>, src: Seq<u8>, n: int, tint: Rgba) -> bool {
    &&& t.len() == src.len()
    &&& forall|i: int| 0 <= i < n ==> #[trigger] rgba_at(t, i) == tint_pixel_spec(rgba_at(src, i), tint)
}

/// `s` is `resized` with `tint` blended into every pixel, then turned by `angle` degrees.
pub open spec fn tinted_and_rotated(s: RgbaImage, resized: RgbaImage, tint: Rgba, angle: i32) -> bool {
    exists|t: Seq<u8>|
        tinted_from(t, resized.data@, resized.area() as int, tint) && #[trigger] rotated_from(
            s,
            resized.width as int,
            resized.height as int,
            t,
            angle,
        )
}

/// `s` is some well-formed image of `new_width` by `new_height` pixels (what resampling
/// gave), tinted with `tint` and turned by `angle` degrees.
pub open spec fn staged_from(s: RgbaImage, new_width: u32, new_height: u32, tint: Rgba, angle: i32) -> bool {
    exists|r: RgbaImage|
        r.wf() && r.width == new_width && r.height == new_height && #[trigger] tinted_and_rotated(
            s,
            r,
            tint,
            angle,
        )
}

/// The object or target sizes that a resampling run accepts: nothing empty, and
/// buffers whose byte counts fit in memory indices.
pub open spec fn stageable(object: RgbaImage, new_width: u32, new_height: u32) -> bool {
    &&& object.width > 0
    &&& object.height > 0
    &&& new_width > 0
    &&& new_height > 0
    &&& 16 * (object.width * new_height) <= usize::MAX
    &&& 4 * (new_width * new_height) <= usize::MAX
}

/// Relies on rand::Rng::gen_range on rand::thread_rng: a value drawn from `0..bound`.
#[verifier::external_body]
fn random_below(bound: u32) -> (r: u32)
    requires
        bound > 0,
    ensures
        r < bound,
{
    rand::Rng::gen_range(&mut rand::thread_rng(), 0..bound)
}

/// Relies on rand::random: a byte drawn from the thread-local generator.
#[verifier::external_body]
fn random_byte() -> (r: u8) {
    rand::random::<u8>()
}

/// Draws the rotation, offsets and tint for placing an object on a base of
/// `base_width` by `base_height` pixels.
pub fn draw_params(base_width: u32, base_height: u32) -> (p: TransformParams)
    requires
        base_width > 0,
        base_height > 0,
    ensures
        0 <= p.rotation < 360,
        p.offset_x < base_width,
        p.offset_y < base_height,
{
    let rotation = random_below(360) as i32;
    let offset_x = random_below(base_width);
    let offset_y = random_below(base_height);
    let r = random_byte();
    let g = random_byte();
    let b = random_byte();
    let a = random_byte();
    TransformParams { rotation, offset_x, offset_y, tint: Rgba { r, g, b, a } }
}

/// Blends `tint` into every pixel of `resized` and turns the result by `angle` degrees.
pub fn tint_and_rotate(resized: RgbaImage, tint: Rgba, angle: i32) -> (s: RgbaImage)
    requires
        resized.wf(),
    ensures
        s.wf(),
        tinted_and_rotated(s, resized, tint, angle),
{
    let ghost before = resized;
    let mut img = resized;
    apply_tint(&mut img, tint);
    let ghost tinted = img;
    let ghost t = img.data@;
    let s = rotate(img, angle);
    assert forall|i: int| 0 <= i < before.area() implies #[trigger] rgba_at(t, i) == tint_pixel_spec(rgba_at(before.data@, i), tint) by {
        assert(tinted.px(i) == tint_pixel_spec(before.px(i), tint));
    }
    assert(tinted_from(t, before.data@, before.area() as int, tint));
    assert(rotated_from(s, before.width as int, before.height as int, t, angle));
    s
}

/// Resamples `object` to `new_width` by `new_height`, then blends in `tint` and turns
/// the result by `angle` degrees (see `tint_and_rotate`).
pub fn stage_object(object: &RgbaImage, new_width: u32, new_height: u32, tint: Rgba, angle: i32) -> (s: RgbaImage)
    requires
        object.wf(),
        stageable(*object, new_width, new_height),
    ensures
        s.wf(),
        staged_from(s, new_width, new_height, tint, angle),
{
    let resized = resample(object, new_width, new_height);
    let ghost r = resized;
    let s = tint_and_rotate(resized, tint, angle);
    assert(tinted_and_rotated(s, r, tint, angle));
    s
}

/// Composites `object` onto `base` at the drawn offsets, except that on an axis where
/// the object is at least as large as the base the offset is 0.
pub fn place_object(base: &mut RgbaImage, object: &RgbaImage, drawn_x: u32, drawn_y: u32)
    requires
        old(base).wf(),
        object.wf(),
    ensures
        final(base).wf(),
        final(base).width == old(base).width,
        final(base).height == old(base).height,
        forall|i: int|
            0 <= i < old(base).area() ==> #[trigger] final(base).px(i) == composite_px(
                *old(base),
                *object,
                placed_offset_spec(object.width, old(base).width, drawn_x),
                placed_offset_spec(object.height, old(base).height, drawn_y),
                i,
            ),
{
    let ox = placed_offset(object.width, base.width, drawn_x);
    let oy = placed_offset(object.height, base.height, drawn_y);
    composite(base, object, ox, oy);
}

/// Whether `object` can be resampled to `new_width` by `new_height` (see `stageable`).
pub fn is_stageable(object: &RgbaImage, new_width: u32, new_height: u32) -> (b: bool)
    ensures
        b == stageable(*object, new_width, new_height),
{
    proof {
        lemma_area_bound(object.width, new_height);
        lemma_area_bound(new_width, new_height);
    }
    let a: u128 = object.width as u128 * new_height as u128;
    let c: u128 = new_width as u128 * new_height as u128;
    object.width > 0 && object.height > 0 && new_width > 0 && new_height > 0
        && 16 * a <= usize::MAX as u128 && 4 * c <= usize::MAX as u128
}

/// Places an object on `base`: resampled to `new_width` by `new_height`, tinted and
/// turned as `params` say, then composited at the drawn offsets (see `place_object`).
/// Returns the object as it was placed; where the object or the target size is empty,
/// or too large to resample (see `stageable`), nothing is placed and `None` is returned.
pub fn compose_scene(
    base: &mut RgbaImage,
    object: &RgbaImage,
    new_width: u32,
    new_height: u32,
    params: TransformParams,
) -> (r: Option<RgbaImage>)
    requires
        old(base).wf(),
        object.wf(),
    ensures
        r is Some <==> stageable(*object, new_width, new_height),
        final(base).wf(),
        final(base).width == old(base).width,
        final(base).height == old(base).height,
        r is None ==> final(base).data@ == old(base).data@,
        r matches Some(s) ==> {
            &&& s.wf()
            &&& staged_from(s, new_width, new_height, params.tint, params.rotation)
            &&& forall|i: int|
                0 <= i < old(base).area() ==> #[trigger] final(base).px(i) == composite_px(
                    *old(base),
                    s,
                    placed_offset_spec(s.width, old(base).width, params.offset_x),
                    placed_offset_spec(s.height, old(base).height, params.offset_y),
                    i,
                )
        },
{
    if !is_stageable(object, new_width, new_height) {
        return None;
    }
    let s = stage_object(object, new_width, new_height, params.tint, params.rotation);
    place_object(base, &s, params.offset_x, params.offset_y);
    Some(s)
}

} // verus!
