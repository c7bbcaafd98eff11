use vstd::prelude::*;
use crate::pixel::{Rgba, tint_pixel, tint_pixel_spec, round_div255};
use crate::raster::{RgbaImage, rgba_at, read_rgba};

verus! {

/// The joint coverage of `src` over `dst`, scaled by 255 * 255:
/// `255 * srcA + dstA * (255 - srcA)`. Zero exactly when both are transparent.
pub open spec fn over_coverage(src: Rgba, dst: Rgba) -> int {
    255 * src.a + dst.a * (255 - src.a)
}

/// One colour channel of `src` over `dst`: the alpha-weighted mean, rounded down,
/// and 0 where both pixels are fully transparent.
pub open spec fn over_channel(sc: u8, dc: u8, src: Rgba, dst: Rgba) -> int {
    let den = over_coverage(src, dst);
    if den == 0 {
        0
    } else {
        (255 * sc * src.a + dc * dst.a * (255 - src.a)) / den
    }
}

/// The Porter-Duff "source over" of two pixels.
pub open spec fn over_spec(src: Rgba, dst: Rgba) -> Rgba {
    Rgba {
        r: over_channel(src.r, dst.r, src, dst) as u8,
        g: over_channel(src.g, dst.g, src, dst) as u8,
        b: over_channel(src.b, dst.b, src, dst) as u8,
        a: round_div255(over_coverage(src, dst)) as u8,
    }
}

/// The pixel that a composite of `src` at (`ox`, `oy`) leaves at index `i` of `dest`:
/// where the source covers that place, `src` over the old pixel; elsewhere the old pixel.
pub open spec fn composite_px(dest: RgbaImage, src: RgbaImage, ox: u32, oy: u32, i: int) -> Rgba {
    let x = i % (dest.width as int);
    let y = i / (dest.width as int);
    if ox <= x < ox + src.width && oy <= y < oy + src.height {
        over_spec(src.at(x - ox, y - oy), dest.px(i))
    } else {
        dest.px(i)
    }
}

/// The offset used on one axis: the drawn one where the object is smaller than the
/// base on that axis, else 0.
pub open spec fn placed_offset_spec(object_len: u32, base_len: u32, drawn: u32) -> u32 {
    if object_len < base_len { drawn } else { 0 }
}

proof fn lemma_over_bounds(src: Rgba, dst: Rgba, sc: u8, dc: u8)
    ensures
        0 <= over_coverage(src, dst) <= 255 * 255,
        0 <= over_channel(sc, dc, src, dst) <= 255,
        0 <= round_div255(over_coverage(src, dst)) <= 255,
{
    let sa = src.a as int;
    let da = dst.a as int;
    let den = over_coverage(src, dst);
    assert(0 <= da * (255 - sa) <= 255 * (255 - sa)) by (nonlinear_arith)
        requires 0 <= da <= 255, 0 <= sa <= 255;
    if den != 0 {
        let num = 255 * sc * sa + dc * da * (255 - sa);
        assert(0 <= num <= 255 * den) by (nonlinear_arith)
            requires
                num == 255 * sc * sa + dc * da * (255 - sa),
                den == 255 * sa + da * (255 - sa),
                0 <= sc <= 255, 0 <= dc <= 255, 0 <= sa <= 255, 0 <= da <= 255;
        assert(0 <= num / den <= 255) by (nonlinear_arith)
            requires 0 <= num <= 255 * den, den > 0;
    }
}

/// `src` over `dst` with exact integer arithmetic.
pub fn over(src: Rgba, dst: Rgba) -> (r: Rgba)
    ensures
        r == over_spec(src, dst),
{
    proof {
        lemma_over_bounds(src, dst, src.r, dst.r);
        lemma_over_bounds(src, dst, src.g, dst.g);
        lemma_over_bounds(src, dst, src.b, dst.b);
    }
    let sa: u32 = src.a as u32;
    let da: u32 = dst.a as u32;
    let den: u32 = 255 * sa + da * (255 - sa);
    Rgba {
        r: over_channel_exec(src.r, dst.r, sa, da, den),
        g: over_channel_exec(src.g, dst.g, sa, da, den),
        b: over_channel_exec(src.b, dst.b, sa, da, den),
        a: ((2 * den + 255) / 510) as u8,
    }
}

fn over_channel_exec(sc: u8, dc: u8, sa: u32, da: u32, den: u32) -> (r: u8)
    requires
        sa <= 255,
        da <= 255,
        den == 255 * sa + da * (255 - sa),
    ensures
        r == over_channel(sc, dc, Rgba { r: 0, g: 0, b: 0, a: sa as u8 },
            Rgba { r: 0, g: 0, b: 0, a: da as u8 }),
{
    let ghost s = Rgba { r: 0, g: 0, b: 0, a: sa as u8 };
    let ghost d = Rgba { r: 0, g: 0, b: 0, a: da as u8 };
    proof {
        lemma_over_bounds(s, d, sc, dc);
    }
    if den == 0 {
        0
    } else {
        proof {
            assert(255 * sc * sa <= 255 * 255 * 255) by (nonlinear_arith)
                requires sc <= 255, sa <= 255;
            assert(dc * da <= 255 * 255) by (nonlinear_arith)
                requires dc <= 255, da <= 255;
            assert(dc * da * (255 - sa) <= 255 * 255 * 255) by (nonlinear_arith)
                requires dc <= 255, da <= 255, sa <= 255;
        }
        let num: u32 = 255 * sc as u32 * sa + dc as u32 * da * (255 - sa);
        (num / den) as u8
    }
}

/// The offset on one axis at which an object of `object_len` is placed on a base of
/// `base_len`: the drawn offset where the object is smaller than the base, 0 otherwise,
/// so an object at least as large as the base is never pushed out of frame.
pub fn placed_offset(object_len: u32, base_len: u32, drawn: u32) -> (r: u32)
    ensures
        r == placed_offset_spec(object_len, base_len, drawn),
        object_len >= base_len ==> r == 0,
        drawn < base_len ==> r < base_len,
{
    if object_len < base_len { drawn } else { 0 }
}

proof fn lemma_index_in_grid(a: int, b: int, w: int, h: int)
    requires
        0 <= a < h,
        0 <= b < w,
    ensures
        0 <= a * w + b < w * h,
{
    assert(0 <= a * w + b < w * h) by (nonlinear_arith)
        requires 0 <= a < h, 0 <= b < w;
}

/// Appends a pixel to an RGBA byte buffer.
fn push_rgba(data: &mut Vec<u8>, p: Rgba)
    requires
        old(data)@.len() % 4 == 0,
    ensures
        final(data)@.len() == old(data)@.len() + 4,
        forall|k: int| 0 <= k < old(data)@.len() ==> #[trigger] final(data)@[k] == old(data)@[k],
        rgba_at(final(data)@, old(data)@.len() as int / 4) == p,
{
    data.push(p.r);
    data.push(p.g);
    data.push(p.b);
    data.push(p.a);
}

/// Composites `src` onto `dest` with its top-left corner at (`ox`, `oy`), using the
/// "source over" operator; source pixels that fall outside `dest` are dropped.
pub fn composite(dest: &mut RgbaImage, src: &RgbaImage, ox: u32, oy: u32)
    requires
        old(dest).wf(),
        src.wf(),
    ensures
        final(dest).wf(),
        final(dest).width == old(dest).width,
        final(dest).height == old(dest).height,
        forall|i: int|
            0 <= i < old(dest).area() ==> #[trigger] final(dest).px(i) == composite_px(
                *old(dest),
                *src,
                ox,
                oy,
                i,
            ),
{
    let ghost d0 = *dest;
    let n: usize = dest.data.len() / 4;
    let w: usize = dest.width as usize;
    let sw: usize = src.width as usize;
    let sh: usize = src.height as usize;
    let src_len: usize = src.data.len();
    let mut out: Vec<u8> = Vec::with_capacity(dest.data.len());
    let mut i: usize = 0;
    while i < n
        invariant
            d0 == *dest,
            d0.wf(),
            src.wf(),
            n == d0.area(),
            w == d0.width,
            sw == src.width,
            sh == src.height,
            src_len == src.data@.len(),
            i <= n,
            out@.len() == 4 * i,
            forall|j: int| 0 <= j < i ==> #[trigger] rgba_at(out@, j) == composite_px(d0, *src, ox, oy, j),
        decreases n - i,
    {
        proof {
            if w == 0 {
                assert(d0.width * d0.height == 0) by (nonlinear_arith)
                    requires d0.width == 0;
            }
        }
        let x: usize = i % w;
        let y: usize = i / w;
        let old_px = read_rgba(&dest.data, i);
        let mut p = old_px;
        if x >= ox as usize && x - (ox as usize) < sw && y >= oy as usize && y - (oy as usize) < sh {
            let sx: usize = x - ox as usize;
            let sy: usize = y - oy as usize;
            proof {
                lemma_index_in_grid(sy as int, sx as int, sw as int, sh as int);
            }
            let s = read_rgba(&src.data, sy * sw + sx);
            p = over(s, old_px);
        }
        let ghost before = out@;
        push_rgba(&mut out, p);
        proof {
            assert forall|j: int| 0 <= j <= i implies #[trigger] rgba_at(out@, j) == composite_px(d0, *src, ox, oy, j) by {
                if j < i {
                    assert(rgba_at(before, j) == composite_px(d0, *src, ox, oy, j));
                    assert(rgba_at(out@, j) == rgba_at(before, j));
                }
            }
        }
        i = i + 1;
    }
    dest.data = out;
}

/// Blends `tint`'s colour into every pixel of `image` with strength `tint.a / 255`,
/// rounding each channel; every pixel keeps its own alpha.
pub fn apply_tint(image: &mut RgbaImage, tint: Rgba)
    requires
        old(image).wf(),
    ensures
        final(image).wf(),
        final(image).width == old(image).width,
        final(image).height == old(image).height,
        forall|i: int|
            0 <= i < old(image).area() ==> #[trigger] final(image).px(i) == tint_pixel_spec(
                old(image).px(i),
                tint,
            ),
{
    let ghost d0 = *image;
    let n: usize = image.data.len() / 4;
    let mut out: Vec<u8> = Vec::with_capacity(image.data.len());
    let mut i: usize = 0;
    while i < n
        invariant
            d0 == *image,
            d0.wf(),
            n == d0.area(),
            i <= n,
            out@.len() == 4 * i,
            forall|j: int| 0 <= j < i ==> #[trigger] rgba_at(out@, j) == tint_pixel_spec(d0.px(j), tint),
        decreases n - i,
    {
        let p = tint_pixel(read_rgba(&image.data, i), tint);
        let ghost before = out@;
        push_rgba(&mut out, p);
        proof {
            assert forall|j: int| 0 <= j <= i implies #[trigger] rgba_at(out@, j) == tint_pixel_spec(d0.px(j), tint) by {
                if j < i {
                    assert(rgba_at(before, j) == tint_pixel_spec(d0.px(j), tint));
                    assert(rgba_at(out@, j) == rgba_at(before, j));
                }
            }
        }
        i = i + 1;
    }
    image.data = out;
}

proof fn lemma_cancel(c: int, k: int)
    requires
        k > 0,
    ensures
        (c * k) / k == c,
{
    assert((c * k) / k == c) by (nonlinear_arith)
        requires k > 0;
}

proof fn lemma_over_transparent(s: Rgba, d: Rgba)
    requires
        s.a == 0,
        d.a == 0 ==> d.r == 0 && d.g == 0 && d.b == 0,
    ensures
        over_spec(s, d) == d,
{
    let da = d.a as int;
    assert(over_coverage(s, d) == da * 255);
    if da != 0 {
        assert(d.r * da * (255 - s.a) == d.r * (da * 255)) by (nonlinear_arith)
            requires s.a == 0;
        assert(d.g * da * (255 - s.a) == d.g * (da * 255)) by (nonlinear_arith)
            requires s.a == 0;
        assert(d.b * da * (255 - s.a) == d.b * (da * 255)) by (nonlinear_arith)
            requires s.a == 0;
        lemma_cancel(d.r as int, da * 255);
        lemma_cancel(d.g as int, da * 255);
        lemma_cancel(d.b as int, da * 255);
    }
}

proof fn lemma_over_opaque(s: Rgba, d: Rgba)
    requires
        s.a == 255,
    ensures
        over_spec(s, d) == s,
{
    assert(over_coverage(s, d) == 255 * 255);
    assert(255 * s.r * s.a + d.r * d.a * (255 - s.a) == s.r * (255 * 255)) by (nonlinear_arith)
        requires s.a == 255;
    assert(255 * s.g * s.a + d.g * d.a * (255 - s.a) == s.g * (255 * 255)) by (nonlinear_arith)
        requires s.a == 255;
    assert(255 * s.b * s.a + d.b * d.a * (255 - s.a) == s.b * (255 * 255)) by (nonlinear_arith)
        requires s.a == 255;
    lemma_cancel(s.r as int, 65025int);
    lemma_cancel(s.g as int, 65025int);
    lemma_cancel(s.b as int, 65025int);
}

/// Compositing a fully transparent source leaves the destination unchanged, pixel for
/// pixel, wherever it is placed. Destination pixels that are fully transparent must be
/// black: the operator defines the colour of a transparent-over-transparent pixel as 0.
pub proof fn lemma_transparent_source_keeps_dest(dest: RgbaImage, src: RgbaImage, ox: u32, oy: u32)
    requires
        dest.wf(),
        src.wf(),
        forall|i: int| 0 <= i < src.area() ==> (#[trigger] src.px(i)).a == 0,
        forall|i: int|
            0 <= i < dest.area() && (#[trigger] dest.px(i)).a == 0 ==> dest.px(i).r == 0
                && dest.px(i).g == 0 && dest.px(i).b == 0,
    ensures
        forall|i: int| 0 <= i < dest.area() ==> #[trigger] composite_px(dest, src, ox, oy, i) == dest.px(i),
{
    assert forall|i: int| 0 <= i < dest.area() implies #[trigger] composite_px(dest, src, ox, oy, i) == dest.px(i) by {
        let x = i % (dest.width as int);
        let y = i / (dest.width as int);
        if ox <= x < ox + src.width && oy <= y < oy + src.height {
            lemma_index_in_grid(y - oy, x - ox, src.width as int, src.height as int);
            let k = (y - oy) * src.width + (x - ox);
            assert(src.px(k).a == 0);
            assert(dest.px(i).a == 0 ==> dest.px(i).r == 0);
            lemma_over_transparent(src.at(x - ox, y - oy), dest.px(i));
        }
    }
}

/// Compositing a fully opaque source of the destination's size at offset (0, 0) yields
/// the source exactly: its colour channels, with alpha 255.
pub proof fn lemma_opaque_source_replaces_dest(dest: RgbaImage, src: RgbaImage)
    requires
        dest.wf(),
        src.wf(),
        src.width == dest.width,
        src.height == dest.height,
        forall|i: int| 0 <= i < src.area() ==> (#[trigger] src.px(i)).a == 255,
    ensures
        forall|i: int| 0 <= i < dest.area() ==> #[trigger] composite_px(dest, src, 0, 0, i) == src.px(i),
{
    assert forall|i: int| 0 <= i < dest.area() implies #[trigger] composite_px(dest, src, 0, 0, i) == src.px(i) by {
        let w = dest.width as int;
        let h = dest.height as int;
        assert(w > 0) by (nonlinear_arith)
            requires 0 <= i < w * h, h >= 0;
        let x = i % w;
        let y = i / w;
        vstd::arithmetic::div_mod::lemma_fundamental_div_mod(i, w);
        assert(0 <= x < w);
        assert(0 <= y < h) by (nonlinear_arith)
            requires i == w * y + x, 0 <= x < w, 0 <= i < w * h, w > 0;
        assert(y * w + x == i) by (nonlinear_arith)
            requires i == w * y + x;
        assert(src.px(i).a == 255);
        lemma_over_opaque(src.at(x, y), dest.px(i));
    }
}

} // verus!
