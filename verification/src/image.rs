//! A plain pixel buffer: the target surface that frames are composited onto,
//! and the storage for rasterized glyph atlases.

use vstd::prelude::*;

verus! {

use vstd::arithmetic::mul::{lemma_mul_inequality, lemma_mul_nonnegative};
use crate::color::Color;

/// Largest image dimension the renderer handles; keeps `width * height`
/// within an `i32` and a `usize`.
pub const MAX_DIM: i32 = 0x8000;

/// An owned buffer of `width * height` pixels, stored row by row.
#[derive(Debug)]
pub struct Image {
    pub width: i32,
    pub height: i32,
    pub pixels: Vec<Color>,
}

impl Image {
    /// Dimensions are positive and bounded and the buffer holds exactly one
    /// pixel per coordinate.
    pub open spec fn wf(self) -> bool {
        &&& 1 <= self.width <= MAX_DIM
        &&& 1 <= self.height <= MAX_DIM
        &&& self.pixels@.len() == self.width * self.height
    }

    /// The buffer position of the pixel at `(px, py)`.
    pub open spec fn pixel_idx(self, px: int, py: int) -> int {
        py * self.width + px
    }

    /// The pixel at `(px, py)`.
    pub open spec fn pixel(self, px: int, py: int) -> Color {
        self.pixels@[self.pixel_idx(px, py)]
    }

    /// `(px, py)` lies inside the image.
    pub open spec fn in_bounds(self, px: int, py: int) -> bool {
        0 <= px < self.width && 0 <= py < self.height
    }

    /// Creates an image of the given size with every pixel transparent black.
    pub fn new(width: i32, height: i32) -> (img: Image)
        requires
            1 <= width <= MAX_DIM,
            1 <= height <= MAX_DIM,
        ensures
            img.wf(),
            img.width == width,
            img.height == height,
            forall|px: int, py: int|
                img.in_bounds(px, py) ==> img.pixel(px, py) == (Color { b: 0, g: 0, r: 0, a: 0 }),
    {
        proof {
            lemma_mul_inequality(width as int, MAX_DIM as int, height as int);
            lemma_mul_inequality(height as int, MAX_DIM as int, MAX_DIM as int);
            lemma_mul_nonnegative(width as int, height as int);
        }
        let n: usize = (width as usize) * (height as usize);
        let mut pixels: Vec<Color> = Vec::new();
        let mut i: usize = 0;
        while i < n
            invariant
                i <= n,
                n == width * height,
                pixels@.len() == i,
                forall|k: int|
                    0 <= k < i ==> pixels@[k] == (Color { b: 0, g: 0, r: 0, a: 0 }),
            decreases n - i,
        {
            pixels.push(Color { b: 0, g: 0, r: 0, a: 0 });
            i = i + 1;
        }
        let img = Image { width, height, pixels };
        proof {
            assert forall|px: int, py: int| img.in_bounds(px, py) implies img.pixel(px, py)
                == (Color { b: 0, g: 0, r: 0, a: 0 }) by {
                lemma_pixel_idx_bounds(img, px, py);
            }
        }
        img
    }
}

/// A coordinate inside the image maps to a buffer position inside the buffer.
pub proof fn lemma_pixel_idx_bounds(img: Image, px: int, py: int)
    requires
        img.width >= 1,
        img.height >= 1,
        img.in_bounds(px, py),
    ensures
        0 <= img.pixel_idx(px, py) < img.width * img.height,
{
    lemma_mul_nonnegative(py, img.width as int);
    lemma_mul_inequality(py, img.height - 1, img.width as int);
    assert((img.height - 1) * img.width + img.width == img.height * img.width)
        by (nonlinear_arith);
    assert(img.height * img.width == img.width * img.height) by (nonlinear_arith);
}

/// Row-major decomposition: the buffer position `py * w + px` recovers its
/// coordinates by division and remainder.
pub proof fn lemma_row_major(w: int, px: int, py: int)
    requires
        0 <= px < w,
        0 <= py,
    ensures
        (py * w + px) % w == px,
        (py * w + px) / w == py,
{
    vstd::arithmetic::div_mod::lemma_fundamental_div_mod_converse(py * w + px, w, py, px);
}

} // verus!
