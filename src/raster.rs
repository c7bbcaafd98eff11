use vstd::prelude::*;
use crate::pixel::{Rgb, Rgba};

verus! {

/// An RGBA raster, row-major, four bytes per pixel in the order r, g, b, a.
#[derive(Clone, Debug)]
pub struct RgbaImage {
    pub width: u32,
    pub height: u32,
    pub data: Vec<u8>,
}

/// An RGB raster, row-major, three bytes per pixel in the order r, g, b.
#[derive(Clone, Debug)]
pub struct RgbImage {
    pub width: u32,
    pub height: u32,
    pub data: Vec<u8>,
}

/// The pixel with row-major index `i` of an RGBA byte sequence.
pub open spec fn rgba_at(data: Seq<u8>, i: int) -> Rgba {
    Rgba { r: data[4 * i], g: data[4 * i + 1], b: data[4 * i + 2], a: data[4 * i + 3] }
}

/// The pixel with row-major index `i` of an RGB byte sequence.
pub open spec fn rgb_at(data: Seq<u8>, i: int) -> Rgb {
    Rgb { r: data[3 * i], g: data[3 * i + 1], b: data[3 * i + 2] }
}

/// The pixel count of a `u32` by `u32` raster fits in 64 bits.
pub proof fn lemma_area_bound(width: u32, height: u32)
    ensures
        0 <= width * height <= 0xffff_fffe_0000_0001,
{
    assert(0 <= width * height <= 0xffff_ffff * 0xffff_ffff) by (nonlinear_arith)
        requires width <= 0xffff_ffff, height <= 0xffff_ffff;
}

/// Reads the pixel at index `i` of an RGBA byte buffer.
pub fn read_rgba(data: &Vec<u8>, i: usize) -> (p: Rgba)
    requires
        4 * i + 3 < data@.len(),
    ensures
        p == rgba_at(data@, i as int),
{
    let _len: usize = data.len();
    Rgba { r: data[4 * i], g: data[4 * i + 1], b: data[4 * i + 2], a: data[4 * i + 3] }
}

/// Reads the pixel at index `i` of an RGB byte buffer.
pub fn read_rgb(data: &Vec<u8>, i: usize) -> (p: Rgb)
    requires
        3 * i + 2 < data@.len(),
    ensures
        p == rgb_at(data@, i as int),
{
    let _len: usize = data.len();
    Rgb { r: data[3 * i], g: data[3 * i + 1], b: data[3 * i + 2] }
}

impl RgbaImage {
    /// The number of pixels.
    pub open spec fn area(&self) -> nat {
        (self.width * self.height) as nat
    }

    /// The byte buffer holds exactly four bytes for each pixel.
    pub open spec fn wf(&self) -> bool {
        self.data@.len() == 4 * self.area()
    }

    /// The pixel at row-major index `i`.
    pub open spec fn px(&self, i: int) -> Rgba {
        rgba_at(self.data@, i)
    }

    /// The pixel at column `x`, row `y`.
    pub open spec fn at(&self, x: int, y: int) -> Rgba {
        self.px(y * self.width + x)
    }

    /// Wraps a byte buffer; `None` unless it holds exactly `4 * (width * height)` bytes.
    pub fn from_raw(width: u32, height: u32, data: Vec<u8>) -> (r: Option<RgbaImage>)
        ensures
            r is Some <==> data@.len() == 4 * (width * height),
            r matches Some(img) ==> img.wf() && img.width == width && img.height == height
                && img.data@ == data@,
    {
        proof {
            lemma_area_bound(width, height);
        }
        let n: u128 = width as u128 * height as u128;
        if data.len() as u128 == 4 * n {
            Some(RgbaImage { width, height, data })
        } else {
            None
        }
    }

    /// An image of the given size whose every pixel is `color`.
    pub fn filled(width: u32, height: u32, color: Rgba) -> (r: RgbaImage)
        requires
            4 * (width * height) <= usize::MAX,
        ensures
            r.wf(),
            r.width == width,
            r.height == height,
            forall|i: int| 0 <= i < r.area() ==> #[trigger] r.px(i) == color,
    {
        proof {
            lemma_area_bound(width, height);
        }
        let n: usize = (width as u64 * height as u64) as usize;
        let mut data: Vec<u8> = Vec::with_capacity(4 * n);
        let mut i: usize = 0;
        while i < n
            invariant
                n == width * height,
                4 * n <= usize::MAX,
                i <= n,
                data@.len() == 4 * i,
                forall|j: int| 0 <= j < i ==> #[trigger] rgba_at(data@, j) == color,
            decreases n - i,
        {
            let ghost before = data@;
            data.push(color.r);
            data.push(color.g);
            data.push(color.b);
            data.push(color.a);
            proof {
                assert forall|j: int| 0 <= j <= i implies #[trigger] rgba_at(data@, j) == color by {
                    if j < i {
                        assert(rgba_at(before, j) == color);
                    }
                }
            }
            i = i + 1;
        }
        RgbaImage { width, height, data }
    }
}

impl RgbImage {
    /// The number of pixels.
    pub open spec fn area(&self) -> nat {
        (self.width * self.height) as nat
    }

    /// The byte buffer holds exactly three bytes for each pixel.
    pub open spec fn wf(&self) -> bool {
        self.data@.len() == 3 * self.area()
    }

    /// The pixel at row-major index `i`.
    pub open spec fn px(&self, i: int) -> Rgb {
        rgb_at(self.data@, i)
    }

    /// Wraps a byte buffer; `None` unless it holds exactly `3 * (width * height)` bytes.
    pub fn from_raw(width: u32, height: u32, data: Vec<u8>) -> (r: Option<RgbImage>)
        ensures
            r is Some <==> data@.len() == 3 * (width * height),
            r matches Some(img) ==> img.wf() && img.width == width && img.height == height
                && img.data@ == data@,
    {
        proof {
            lemma_area_bound(width, height);
        }
        let n: u128 = width as u128 * height as u128;
        if data.len() as u128 == 3 * n {
            Some(RgbImage { width, height, data })
        } else {
            None
        }
    }
}

} // verus!
