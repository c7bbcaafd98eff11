use vstd::prelude::*;

verus! {

/// A colour with opacity: red, green, blue and alpha, each 0 to 255.
/// Alpha 0 is fully transparent, 255 fully opaque.
#[derive(Clone, Copy, Debug, PartialEq, Eq, Structural)]
pub struct Rgba {
    pub r: u8,
    pub g: u8,
    pub b: u8,
    pub a: u8,
}

/// A colour without alpha.
#[derive(Clone, Copy, Debug, PartialEq, Eq, Structural)]
pub struct Rgb {
    pub r: u8,
    pub g: u8,
    pub b: u8,
}

/// `x / 255` rounded to the nearest integer (no ties occur, 255 being odd).
pub open spec fn round_div255(x: int) -> int {
    (2 * x + 255) / 510
}

/// One channel blended towards `tint` with strength `a / 255`, rounded.
pub open spec fn tint_channel_spec(orig: u8, tint: u8, a: u8) -> int {
    round_div255(orig * (255 - a) + tint * a)
}

/// Squared Euclidean distance of two colours in 8-bit RGB space.
pub open spec fn dist_sq_spec(p: Rgb, q: Rgb) -> int {
    (p.r - q.r) * (p.r - q.r) + (p.g - q.g) * (p.g - q.g) + (p.b - q.b) * (p.b - q.b)
}

/// The largest squared distance two colours can have: black against white.
pub const MAX_DIST_SQ: u32 = 195075;

/// A pixel after blending in `tint`: colour channels moved towards the tint, alpha kept.
pub open spec fn tint_pixel_spec(orig: Rgba, tint: Rgba) -> Rgba {
    Rgba {
        r: tint_channel_spec(orig.r, tint.r, tint.a) as u8,
        g: tint_channel_spec(orig.g, tint.g, tint.a) as u8,
        b: tint_channel_spec(orig.b, tint.b, tint.a) as u8,
        a: orig.a,
    }
}

proof fn lemma_round_div255_bounds(x: int)
    requires
        0 <= x <= 255 * 255,
    ensures
        0 <= round_div255(x) <= 255,
{
}

/// Blends `tint`'s colour into `orig` with strength `tint.a / 255`; keeps `orig`'s alpha.
pub fn tint_pixel(orig: Rgba, tint: Rgba) -> (r: Rgba)
    ensures
        r.r == tint_channel_spec(orig.r, tint.r, tint.a),
        r.g == tint_channel_spec(orig.g, tint.g, tint.a),
        r.b == tint_channel_spec(orig.b, tint.b, tint.a),
        r.a == orig.a,
        r == tint_pixel_spec(orig, tint),
{
    Rgba {
        r: tint_channel(orig.r, tint.r, tint.a),
        g: tint_channel(orig.g, tint.g, tint.a),
        b: tint_channel(orig.b, tint.b, tint.a),
        a: orig.a,
    }
}

fn tint_channel(orig: u8, tint: u8, a: u8) -> (r: u8)
    ensures
        r == tint_channel_spec(orig, tint, a),
{
    let inv: u32 = 255 - a as u32;
    proof {
        assert(orig * inv <= 255 * inv) by (nonlinear_arith)
            requires orig <= 255;
        assert(tint * a <= 255 * a) by (nonlinear_arith)
            requires tint <= 255;
    }
    let x: u32 = orig as u32 * inv + tint as u32 * a as u32;
    proof {
        lemma_round_div255_bounds(x as int);
    }
    ((2 * x + 255) / 510) as u8
}

/// Squared Euclidean distance between two colours.
pub fn dist_sq(p: Rgb, q: Rgb) -> (d: u32)
    ensures
        d == dist_sq_spec(p, q),
        d <= MAX_DIST_SQ,
{
    let dr: u32 = if p.r >= q.r { (p.r - q.r) as u32 } else { (q.r - p.r) as u32 };
    let dg: u32 = if p.g >= q.g { (p.g - q.g) as u32 } else { (q.g - p.g) as u32 };
    let db: u32 = if p.b >= q.b { (p.b - q.b) as u32 } else { (q.b - p.b) as u32 };
    proof {
        assert(dr * dr <= 255 * 255) by (nonlinear_arith)
            requires dr <= 255;
        assert(dg * dg <= 255 * 255) by (nonlinear_arith)
            requires dg <= 255;
        assert(db * db <= 255 * 255) by (nonlinear_arith)
            requires db <= 255;
        assert((p.r - q.r) * (p.r - q.r) == dr * dr) by (nonlinear_arith)
            requires dr == p.r - q.r || dr == q.r - p.r;
        assert((p.g - q.g) * (p.g - q.g) == dg * dg) by (nonlinear_arith)
            requires dg == p.g - q.g || dg == q.g - p.g;
        assert((p.b - q.b) * (p.b - q.b) == db * db) by (nonlinear_arith)
            requires db == p.b - q.b || db == q.b - p.b;
    }
    dr * dr + dg * dg + db * db
}

} // verus!
