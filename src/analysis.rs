use vstd::prelude::*;
use vstd::hash_map::HashMapWithView;
use crate::pixel::Rgb;
use crate::raster::{RgbImage, rgb_at, read_rgb, lemma_area_bound};

verus! {

/// A colour as one 24-bit key.
pub open spec fn color_key(c: Rgb) -> u32 {
    (c.r * 65536 + c.g * 256 + c.b) as u32
}

/// How many of the first `n` pixels of `img` have colour `c`.
pub open spec fn count_upto(img: RgbImage, c: Rgb, n: int) -> nat
    decreases n,
{
    if n <= 0 {
        0
    } else {
        count_upto(img, c, n - 1) + if img.px(n - 1) == c { 1nat } else { 0nat }
    }
}

/// How many pixels of `img` have colour `c`.
pub open spec fn color_count(img: RgbImage, c: Rgb) -> nat {
    count_upto(img, c, img.area() as int)
}

proof fn lemma_count_upto_bound(img: RgbImage, c: Rgb, n: int)
    requires
        0 <= n,
    ensures
        count_upto(img, c, n) <= n,
    decreases n,
{
    if n > 0 {
        lemma_count_upto_bound(img, c, n - 1);
    }
}

proof fn lemma_color_key_injective(c: Rgb, d: Rgb)
    ensures
        color_key(c) == color_key(d) ==> c == d,
{
}

fn key_of(c: Rgb) -> (k: u32)
    ensures
        k == color_key(c),
{
    c.r as u32 * 65536 + c.g as u32 * 256 + c.b as u32
}

/// The colour that occurs most often in `img`; `None` for an image without pixels.
/// Among colours that tie, the one that first reaches the highest count is returned.
pub fn find_most_used_color(img: &RgbImage) -> (r: Option<Rgb>)
    requires
        img.wf(),
    ensures
        r is None <==> img.area() == 0,
        r matches Some(c) ==> color_count(*img, c) > 0 && forall|d: Rgb|
            color_count(*img, d) <= #[trigger] color_count(*img, c),
{
    broadcast use vstd::std_specs::hash::group_hash_axioms;

    let n: usize = img.data.len() / 3;
    if n == 0 {
        return None;
    }
    let mut counts: HashMapWithView<u32, usize> = HashMapWithView::new();
    let mut best: Rgb = Rgb { r: 0, g: 0, b: 0 };
    let mut best_count: usize = 0;
    let mut i: usize = 0;
    while i < n
        invariant
            img.wf(),
            n == img.area(),
            n > 0,
            i <= n,
            forall|c: Rgb|
                #![trigger count_upto(*img, c, i as int)]
                (counts@.contains_key(color_key(c)) ==> counts@[color_key(c)] == count_upto(*img, c, i as int))
                    && (!counts@.contains_key(color_key(c)) ==> count_upto(*img, c, i as int) == 0),
            best_count == count_upto(*img, best, i as int),
            i > 0 ==> best_count > 0,
            forall|c: Rgb| #[trigger] count_upto(*img, c, i as int) <= best_count,
        decreases n - i,
    {
        let p = read_rgb(&img.data, i);
        let k = key_of(p);
        proof {
            lemma_count_upto_bound(*img, p, i as int);
        }
        let cur: usize = match counts.get(&k) {
            Some(v) => *v,
            None => 0,
        };
        assert(cur == count_upto(*img, p, i as int));
        let next: usize = cur + 1;
        counts.insert(k, next);
        proof {
            assert forall|c: Rgb| #[trigger] count_upto(*img, c, i + 1) == count_upto(*img, c, i as int) + if c == p { 1nat } else { 0nat } by {
            }
            assert forall|c: Rgb| c != p implies color_key(c) != k by {
                lemma_color_key_injective(c, p);
            }
        }
        if next > best_count {
            best = p;
            best_count = next;
        }
        i = i + 1;
    }
    Some(best)
}

/// An RGB image of the given size whose every pixel is `color`.
pub fn create_image_with_color(width: u32, height: u32, color: Rgb) -> (r: RgbImage)
    requires
        3 * (width * height) <= usize::MAX,
    ensures
        r.wf(),
        r.width == width,
        r.height == height,
        forall|i: int| 0 <= i < r.area() ==> #[trigger] r.px(i) == color,
{
    proof {
        lemma_area_bound(width, height);
    }
    let n: usize = (width as u64 * height as u64) as usize;
    let mut data: Vec<u8> = Vec::with_capacity(3 * n);
    let mut i: usize = 0;
    while i < n
        invariant
            n == width * height,
            3 * n <= usize::MAX,
            i <= n,
            data@.len() == 3 * i,
            forall|j: int| 0 <= j < i ==> #[trigger] rgb_at(data@, j) == color,
        decreases n - i,
    {
        let ghost before = data@;
        data.push(color.r);
        data.push(color.g);
        data.push(color.b);
        proof {
            assert forall|j: int| 0 <= j <= i implies #[trigger] rgb_at(data@, j) == color by {
                if j < i {
                    assert(rgb_at(before, j) == color);
                }
            }
        }
        i = i + 1;
    }
    RgbImage { width, height, data }
}

} // verus!
