//! The in-memory raster image: RGBA pixels with 8 bits per channel, stored
//! row-major. The well-formedness invariant ties the pixel vector's length
//! to the stated dimensions.

use vstd::prelude::*;

verus! {

/// One pixel: red, green, blue and alpha channels, 8 bits each.
#[derive(Clone, Copy, PartialEq, Eq, Structural, Debug)]
pub struct Rgba {
    pub r: u8,
    pub g: u8,
    pub b: u8,
    pub a: u8,
}

/// An owned raster image. Pixels are stored row-major: the pixel at
/// column `x`, row `y` sits at index `y * width + x`.
#[derive(Debug)]
pub struct Image {
    pub width: u32,
    pub height: u32,
    pub pixels: Vec<Rgba>,
}

impl View for Image {
    type V = Seq<Rgba>;

    /// The pixel contents, row-major.
    open spec fn view(&self) -> Seq<Rgba> {
        self.pixels@
    }
}

impl Clone for Image {
    fn clone(&self) -> (r: Self)
        ensures
            r.width == self.width,
            r.height == self.height,
            r@ == self@,
    {
        let pixels = self.pixels.clone();
        assert(pixels@ =~= self.pixels@);
        Image { width: self.width, height: self.height, pixels }
    }
}

impl Image {
    /// The image's dimensions and pixels agree.
    pub open spec fn wf(self) -> bool {
        self.pixels@.len() == self.width * self.height
    }

    /// Row-major index of the pixel at column `x`, row `y`.
    pub open spec fn idx(self, x: int, y: int) -> int {
        y * self.width + x
    }

    pub fn new(width: u32, height: u32, pixels: Vec<Rgba>) -> (r: Self)
        requires
            pixels@.len() == width * height,
        ensures
            r.wf(),
            r.width == width,
            r.height == height,
            r@ == pixels@,
    {
        Image { width, height, pixels }
    }

    /// Read the pixel at column `x`, row `y`.
    pub fn get(&self, x: u32, y: u32) -> (r: Rgba)
        requires
            self.wf(),
            x < self.width,
            y < self.height,
        ensures
            r == self@[self.idx(x as int, y as int)],
    {
        let n = self.pixels.len();
        proof {
            lemma_row_major_in_range(x as int, y as int, self.width as int, self.height as int);
            assert(y * self.width + x < n);
        }
        let i: usize = y as usize * self.width as usize + x as usize;
        self.pixels[i]
    }
}

/// A row-major index lies inside the pixel buffer.
pub proof fn lemma_row_major_in_range(x: int, y: int, w: int, h: int)
    requires
        0 <= x < w,
        0 <= y < h,
    ensures
        0 <= y * w + x < w * h,
{
    assert(0 <= y * w + x < w * h) by (nonlinear_arith)
        requires
            0 <= x < w,
            0 <= y < h,
    ;
}

} // verus!
