use vstd::prelude::*;
use crate::pixel::{Rgb, dist_sq, dist_sq_spec, MAX_DIST_SQ};
use crate::raster::{RgbImage, rgb_at, read_rgb};

verus! {

/// Why two images could not be compared.
#[derive(Clone, Copy, Debug, PartialEq, Eq, Structural)]
pub enum HeatmapError {
    /// The two images differ in width or height.
    DimensionMismatch,
}

/// The squared RGB distance between the pixels at index `i` of `a` and `b`.
pub open spec fn pixel_dist_sq(a: RgbImage, b: RgbImage, i: int) -> int {
    dist_sq_spec(a.px(i), b.px(i))
}

/// The largest squared distance among the first `n` pixel pairs (0 when `n` is 0).
pub open spec fn max_dist_sq_upto(a: RgbImage, b: RgbImage, n: int) -> int
    decreases n,
{
    if n <= 0 {
        0
    } else {
        let m = max_dist_sq_upto(a, b, n - 1);
        let d = pixel_dist_sq(a, b, n - 1);
        if d > m { d } else { m }
    }
}

/// The largest squared distance over the whole image pair.
pub open spec fn max_dist_sq_spec(a: RgbImage, b: RgbImage) -> int {
    max_dist_sq_upto(a, b, a.area() as int)
}

/// The normalised difference at pixel `i`, as the pair `(n, d)` whose quotient `n / d`
/// is the square of `distance / maxDistance`: `(0, 1)` when the images are identical,
/// so that every pixel then maps to the gradient's start.
pub open spec fn level(a: RgbImage, b: RgbImage, i: int) -> (u32, u32) {
    let m = max_dist_sq_spec(a, b);
    if m == 0 {
        (0u32, 1u32)
    } else {
        (pixel_dist_sq(a, b, i) as u32, m as u32)
    }
}

proof fn lemma_max_dist_sq_bounds(a: RgbImage, b: RgbImage, n: int)
    requires
        a.wf(),
        b.wf(),
        a.area() == b.area(),
        0 <= n <= a.area(),
    ensures
        0 <= max_dist_sq_upto(a, b, n) <= MAX_DIST_SQ,
        forall|i: int| 0 <= i < n ==> pixel_dist_sq(a, b, i) <= #[trigger] max_dist_sq_upto(a, b, n),
    decreases n,
{
    if n > 0 {
        lemma_max_dist_sq_bounds(a, b, n - 1);
        lemma_dist_sq_bounds(a.px(n - 1), b.px(n - 1));
    }
}

proof fn lemma_dist_sq_bounds(p: Rgb, q: Rgb)
    ensures
        0 <= dist_sq_spec(p, q) <= MAX_DIST_SQ,
{
    assert(0 <= (p.r - q.r) * (p.r - q.r) <= 255 * 255) by (nonlinear_arith)
        requires 0 <= p.r <= 255, 0 <= q.r <= 255;
    assert(0 <= (p.g - q.g) * (p.g - q.g) <= 255 * 255) by (nonlinear_arith)
        requires 0 <= p.g <= 255, 0 <= q.g <= 255;
    assert(0 <= (p.b - q.b) * (p.b - q.b) <= 255 * 255) by (nonlinear_arith)
        requires 0 <= p.b <= 255, 0 <= q.b <= 255;
}

/// The largest squared RGB distance between corresponding pixels of two images of
/// equal size (0 for empty images).
pub fn max_dist_sq(a: &RgbImage, b: &RgbImage) -> (m: u32)
    requires
        a.wf(),
        b.wf(),
        a.width == b.width,
        a.height == b.height,
    ensures
        m == max_dist_sq_spec(*a, *b),
        m <= MAX_DIST_SQ,
{
    let n: usize = a.data.len() / 3;
    let mut m: u32 = 0;
    let mut i: usize = 0;
    while i < n
        invariant
            a.wf(),
            b.wf(),
            a.width == b.width,
            a.height == b.height,
            n == a.area(),
            i <= n,
            m == max_dist_sq_upto(*a, *b, i as int),
        decreases n - i,
    {
        proof {
            lemma_max_dist_sq_bounds(*a, *b, i as int);
        }
        let d = dist_sq(read_rgb(&a.data, i), read_rgb(&b.data, i));
        if d > m {
            m = d;
        }
        i = i + 1;
    }
    proof {
        lemma_max_dist_sq_bounds(*a, *b, n as int);
    }
    m
}

/// Renders the difference of two images of equal size as a heatmap. A first pass finds
/// the largest squared distance; a second pass colours each pixel with
/// `gradient(n, d)`, where `(n, d)` is its normalised difference (see `level`).
/// The gradient is called with `0 < d` and `n <= d` only.
pub fn diff_heatmap<F: Fn(u32, u32) -> Rgb>(a: &RgbImage, b: &RgbImage, gradient: F) -> (r: Result<RgbImage, HeatmapError>)
    requires
        a.wf(),
        b.wf(),
        forall|n: u32, d: u32| 0 < d && n <= d ==> #[trigger] gradient.requires((n, d)),
    ensures
        r is Err <==> (a.width != b.width || a.height != b.height),
        r matches Err(e) ==> e == HeatmapError::DimensionMismatch,
        r matches Ok(h) ==> {
            &&& h.wf()
            &&& h.width == a.width
            &&& h.height == a.height
            &&& forall|i: int| 0 <= i < a.area() ==> gradient.ensures(level(*a, *b, i), #[trigger] h.px(i))
        },
{
    if a.width != b.width || a.height != b.height {
        return Err(HeatmapError::DimensionMismatch);
    }
    let m = max_dist_sq(a, b);
    let n: usize = a.data.len() / 3;
    let mut out: Vec<u8> = Vec::with_capacity(a.data.len());
    let mut i: usize = 0;
    while i < n
        invariant
            a.wf(),
            b.wf(),
            a.width == b.width,
            a.height == b.height,
            n == a.area(),
            m == max_dist_sq_spec(*a, *b),
            i <= n,
            out@.len() == 3 * i,
            forall|n: u32, d: u32| 0 < d && n <= d ==> #[trigger] gradient.requires((n, d)),
            forall|j: int| 0 <= j < i ==> gradient.ensures(level(*a, *b, j), #[trigger] rgb_at(out@, j)),
        decreases n - i,
    {
        proof {
            lemma_max_dist_sq_bounds(*a, *b, n as int);
        }
        let c = if m == 0 {
            gradient(0, 1)
        } else {
            let d = dist_sq(read_rgb(&a.data, i), read_rgb(&b.data, i));
            assert(pixel_dist_sq(*a, *b, i as int) <= max_dist_sq_upto(*a, *b, n as int));
            gradient(d, m)
        };
        let ghost before = out@;
        out.push(c.r);
        out.push(c.g);
        out.push(c.b);
        proof {
            assert(rgb_at(out@, i as int) == c);
            assert forall|j: int| 0 <= j <= i implies gradient.ensures(level(*a, *b, j), #[trigger] rgb_at(out@, j)) by {
                if j < i {
                    assert(rgb_at(before, j) == rgb_at(out@, j));
                }
            }
        }
        i = i + 1;
    }
    Ok(RgbImage { width: a.width, height: a.height, data: out })
}

proof fn lemma_max_of_identical(x: RgbImage, n: int)
    requires
        0 <= n,
    ensures
        max_dist_sq_upto(x, x, n) == 0,
    decreases n,
{
    if n > 0 {
        lemma_max_of_identical(x, n - 1);
    }
}

/// An image compared with itself has zero difference everywhere: every pixel gets the
/// normalised difference `(0, 1)`, that is the gradient's start.
pub proof fn lemma_identical_images_level_zero(x: RgbImage)
    requires
        x.wf(),
    ensures
        forall|i: int| 0 <= i < x.area() ==> #[trigger] level(x, x, i) == (0u32, 1u32),
{
    lemma_max_of_identical(x, x.area() as int);
}

proof fn lemma_black_white_dist()
    ensures
        dist_sq_spec(Rgb { r: 0, g: 0, b: 0 }, Rgb { r: 255, g: 255, b: 255 }) == MAX_DIST_SQ,
{
    let k: int = 0 - 255;
    assert(k * k == 65025) by (nonlinear_arith)
        requires k == -255;
}

proof fn lemma_max_of_black_white(a: RgbImage, b: RgbImage, n: int)
    requires
        1 <= n <= a.area(),
        forall|i: int| 0 <= i < a.area() ==> #[trigger] a.px(i) == (Rgb { r: 0, g: 0, b: 0 }),
        forall|i: int| 0 <= i < a.area() ==> #[trigger] b.px(i) == (Rgb { r: 255, g: 255, b: 255 }),
    ensures
        max_dist_sq_upto(a, b, n) == MAX_DIST_SQ,
    decreases n,
{
    assert(max_dist_sq_upto(a, b, 0) == 0);
    assert(max_dist_sq_upto(a, b, n) == {
        let m = max_dist_sq_upto(a, b, n - 1);
        let d = pixel_dist_sq(a, b, n - 1);
        if d > m { d } else { m }
    });
    assert(a.px(n - 1) == Rgb { r: 0, g: 0, b: 0 });
    assert(b.px(n - 1) == Rgb { r: 255, g: 255, b: 255 });
    lemma_black_white_dist();
    assert(pixel_dist_sq(a, b, n - 1) == MAX_DIST_SQ);
    if n > 1 {
        lemma_max_of_black_white(a, b, n - 1);
    }
}

/// An all-black image against an all-white one of the same size differs maximally at
/// every pixel: every pixel gets the normalised difference `(d, d)`, the gradient's end.
pub proof fn lemma_black_white_level_one(a: RgbImage, b: RgbImage)
    requires
        a.wf(),
        b.wf(),
        a.width == b.width,
        a.height == b.height,
        forall|i: int| 0 <= i < a.area() ==> #[trigger] a.px(i) == (Rgb { r: 0, g: 0, b: 0 }),
        forall|i: int| 0 <= i < b.area() ==> #[trigger] b.px(i) == (Rgb { r: 255, g: 255, b: 255 }),
    ensures
        forall|i: int| 0 <= i < a.area() ==> #[trigger] level(a, b, i) == (MAX_DIST_SQ, MAX_DIST_SQ),
{
    if a.area() > 0 {
        lemma_max_of_black_white(a, b, a.area() as int);
        assert forall|i: int| 0 <= i < a.area() implies #[trigger] level(a, b, i) == (MAX_DIST_SQ, MAX_DIST_SQ) by {
            assert(a.px(i) == Rgb { r: 0, g: 0, b: 0 });
            assert(b.px(i) == Rgb { r: 255, g: 255, b: 255 });
            lemma_black_white_dist();
            assert(pixel_dist_sq(a, b, i) == MAX_DIST_SQ);
        }
    }
}

} // verus!
