//! 3x3 convolutions (sharpen, box blur) and nearest-neighbor resizing.
//!
//! Convolution weights are integers over a common divisor, so a kernel
//! entry of `-strength` over divisor 100 stands for `-strength/100`.
//! Borders are handled by clamping coordinates to the edge, and the alpha
//! channel is carried over from the center pixel untouched.

use vstd::prelude::*;
use crate::raster::{Image, Rgba, lemma_row_major_in_range};
use vstd::arithmetic::div_mod::{lemma_mod_bound, lemma_multiply_divide_lt};

verus! {

/// Clamp a coordinate into `0..n` (clamp-to-edge border policy).
pub open spec fn clamp_coord(i: int, n: int) -> int {
    if i < 0 {
        0
    } else if i >= n {
        n - 1
    } else {
        i
    }
}

/// The pixel at (`x`, `y`) with clamp-to-edge reads outside the image.
pub open spec fn px_at(s: Seq<Rgba>, w: int, h: int, x: int, y: int) -> Rgba {
    s[clamp_coord(y, h) * w + clamp_coord(x, w)]
}

/// Channel `ci` of a pixel: 0 is red, 1 is green, anything else blue.
pub open spec fn chan(px: Rgba, ci: int) -> int {
    if ci == 0 {
        px.r as int
    } else if ci == 1 {
        px.g as int
    } else {
        px.b as int
    }
}

/// The weighted sum of channel `ci` over the 3x3 neighborhood of
/// (`x`, `y`); `k` holds the nine weights row by row.
pub open spec fn conv_sum(s: Seq<Rgba>, w: int, h: int, x: int, y: int, k: Seq<i64>, ci: int) -> int {
    k[0] * chan(px_at(s, w, h, x - 1, y - 1), ci) + k[1] * chan(px_at(s, w, h, x, y - 1), ci)
        + k[2] * chan(px_at(s, w, h, x + 1, y - 1), ci) + k[3] * chan(px_at(s, w, h, x - 1, y), ci)
        + k[4] * chan(px_at(s, w, h, x, y), ci) + k[5] * chan(px_at(s, w, h, x + 1, y), ci) + k[6]
        * chan(px_at(s, w, h, x - 1, y + 1), ci) + k[7] * chan(px_at(s, w, h, x, y + 1), ci) + k[8]
        * chan(px_at(s, w, h, x + 1, y + 1), ci)
}

/// Divide a weighted sum by the kernel divisor (truncating) and clamp the
/// result into `0..=255`.
pub open spec fn conv_clamp(sum: int, div: int) -> u8 {
    if sum <= 0 {
        0u8
    } else {
        let q = sum / div;
        if q > 255 {
            255u8
        } else {
            q as u8
        }
    }
}

/// The convolved pixel at (`x`, `y`): each color channel convolved and
/// clamped, alpha taken from the center pixel.
pub open spec fn conv_px(s: Seq<Rgba>, w: int, h: int, x: int, y: int, k: Seq<i64>, div: int) -> Rgba {
    Rgba {
        r: conv_clamp(conv_sum(s, w, h, x, y, k, 0), div),
        g: conv_clamp(conv_sum(s, w, h, x, y, k, 1), div),
        b: conv_clamp(conv_sum(s, w, h, x, y, k, 2), div),
        a: px_at(s, w, h, x, y).a,
    }
}

/// The whole image convolved with the 3x3 kernel `k` over divisor `div`.
pub open spec fn conv_seq(s: Seq<Rgba>, w: int, h: int, k: Seq<i64>, div: int) -> Seq<Rgba> {
    Seq::new(s.len(), |i: int| conv_px(s, w, h, i % w, i / w, k, div))
}

/// All nine weights lie within `-1000..=1000`.
pub open spec fn kernel_bounded(k: Seq<i64>) -> bool {
    &&& k.len() == 9
    &&& forall|j: int| 0 <= j < 9 ==> -1000 <= #[trigger] k[j] <= 1000
}

/// One weighted term of a convolution sum.
fn conv_term(kj: i64, cv: u8) -> (r: i64)
    requires
        -1000 <= kj <= 1000,
    ensures
        r == kj * cv,
        -255000 <= r <= 255000,
{
    proof {
        assert(-255000 <= kj * cv <= 255000) by (nonlinear_arith)
            requires
                -1000 <= kj <= 1000,
                0 <= cv <= 255,
        ;
    }
    kj * cv as i64
}

/// Divide and clamp one channel's sum.
fn conv_clamp_exec(sum: i64, div: u64) -> (r: u8)
    requires
        1 <= div,
        -2295000 <= sum <= 2295000,
    ensures
        r == conv_clamp(sum as int, div as int),
{
    if sum <= 0 {
        0
    } else {
        let q: u64 = (sum as u64) / div;
        if q > 255 {
            255
        } else {
            q as u8
        }
    }
}

/// The convolved pixel at (`x`, `y`).
fn conv_pixel(img: &Image, x: u32, y: u32, k: &[i64; 9], div: u64) -> (r: Rgba)
    requires
        img.wf(),
        x < img.width,
        y < img.height,
        kernel_bounded(k@),
        1 <= div,
    ensures
        r == conv_px(img@, img.width as int, img.height as int, x as int, y as int, k@, div as int),
{
    let w = img.width;
    let h = img.height;
    let xm = if x == 0 { 0 } else { x - 1 };
    let xp = if x + 1 < w { x + 1 } else { w - 1 };
    let ym = if y == 0 { 0 } else { y - 1 };
    let yp = if y + 1 < h { y + 1 } else { h - 1 };
    proof {
        assert(xm == clamp_coord(x - 1, w as int));
        assert(xp == clamp_coord(x + 1, w as int));
        assert(ym == clamp_coord(y - 1, h as int));
        assert(yp == clamp_coord(y + 1, h as int));
        assert(x == clamp_coord(x as int, w as int));
        assert(y == clamp_coord(y as int, h as int));
    }
    let p00 = img.get(xm, ym);
    let p01 = img.get(x, ym);
    let p02 = img.get(xp, ym);
    let p10 = img.get(xm, y);
    let p11 = img.get(x, y);
    let p12 = img.get(xp, y);
    let p20 = img.get(xm, yp);
    let p21 = img.get(x, yp);
    let p22 = img.get(xp, yp);
    let sr = conv_term(k[0], p00.r) + conv_term(k[1], p01.r) + conv_term(k[2], p02.r) + conv_term(
        k[3],
        p10.r,
    ) + conv_term(k[4], p11.r) + conv_term(k[5], p12.r) + conv_term(k[6], p20.r) + conv_term(
        k[7],
        p21.r,
    ) + conv_term(k[8], p22.r);
    let sg = conv_term(k[0], p00.g) + conv_term(k[1], p01.g) + conv_term(k[2], p02.g) + conv_term(
        k[3],
        p10.g,
    ) + conv_term(k[4], p11.g) + conv_term(k[5], p12.g) + conv_term(k[6], p20.g) + conv_term(
        k[7],
        p21.g,
    ) + conv_term(k[8], p22.g);
    let sb = conv_term(k[0], p00.b) + conv_term(k[1], p01.b) + conv_term(k[2], p02.b) + conv_term(
        k[3],
        p10.b,
    ) + conv_term(k[4], p11.b) + conv_term(k[5], p12.b) + conv_term(k[6], p20.b) + conv_term(
        k[7],
        p21.b,
    ) + conv_term(k[8], p22.b);
    Rgba {
        r: conv_clamp_exec(sr, div),
        g: conv_clamp_exec(sg, div),
        b: conv_clamp_exec(sb, div),
        a: p11.a,
    }
}

/// Convolve the whole image with a 3x3 kernel, clamp-to-edge at borders.
pub fn convolve3x3(img: &Image, k: &[i64; 9], div: u64) -> (r: Image)
    requires
        img.wf(),
        kernel_bounded(k@),
        1 <= div,
    ensures
        r.wf(),
        r.width == img.width,
        r.height == img.height,
        r@ == conv_seq(img@, img.width as int, img.height as int, k@, div as int),
{
    let n = img.pixels.len();
    let mut out: Vec<Rgba> = Vec::new();
    if n == 0 {
        assert(out@ =~= conv_seq(img@, img.width as int, img.height as int, k@, div as int));
        return Image::new(img.width, img.height, out);
    }
    let w = img.width as usize;
    proof {
        assert(img.width * img.height > 0);
        assert(img.width > 0 && img.height > 0) by (nonlinear_arith)
            requires
                img.width * img.height > 0,
        ;
    }
    let mut i: usize = 0;
    while i < n
        invariant
            img.wf(),
            kernel_bounded(k@),
            1 <= div,
            n == img@.len(),
            w == img.width,
            1 <= img.width,
            1 <= img.height,
            i <= n,
            out@.len() == i,
            forall|j: int| 0 <= j < i ==> out@[j] == conv_px(
                img@,
                img.width as int,
                img.height as int,
                j % (img.width as int),
                j / (img.width as int),
                k@,
                div as int,
            ),
        decreases n - i,
    {
        proof {
            lemma_mod_bound(i as int, w as int);
            lemma_multiply_divide_lt(i as int, img.width as int, img.height as int);
        }
        let x = (i % w) as u32;
        let y = (i / w) as u32;
        let px = conv_pixel(img, x, y, k, div);
        out.push(px);
        i += 1;
    }
    assert(out@ =~= conv_seq(img@, img.width as int, img.height as int, k@, div as int));
    Image::new(img.width, img.height, out)
}

/// The sharpening kernel: a cross of `-strength` around a center of
/// `4 * strength + 100`, over divisor 100.
pub open spec fn sharpen_kernel(st: u8) -> Seq<i64> {
    seq![
        0i64,
        (-(st as int)) as i64,
        0i64,
        (-(st as int)) as i64,
        (4 * (st as int) + 100) as i64,
        (-(st as int)) as i64,
        0i64,
        (-(st as int)) as i64,
        0i64,
    ]
}

/// Apply the 3x3 sharpening kernel `[0,-k,0,-k,4k+1,-k,0,-k,0]` with
/// `k = strength/100`, carried out over integer weights with divisor 100.
pub fn sharpen(img: &Image, strength: u8) -> (r: Image)
    requires
        img.wf(),
        strength <= 200,
    ensures
        r.wf(),
        r.width == img.width,
        r.height == img.height,
        r@ == conv_seq(img@, img.width as int, img.height as int, sharpen_kernel(strength), 100),
{
    let s = strength as i64;
    let k: [i64; 9] = [0, -s, 0, -s, 4 * s + 100, -s, 0, -s, 0];
    assert(k@ =~= sharpen_kernel(strength));
    convolve3x3(img, &k, 100)
}

/// The box-blur kernel: all nine weights one, over divisor 9.
pub open spec fn box_kernel() -> Seq<i64> {
    seq![1i64, 1i64, 1i64, 1i64, 1i64, 1i64, 1i64, 1i64, 1i64]
}

/// Apply the 3x3 mean filter (all nine weights `1/9`).
pub fn box_blur(img: &Image) -> (r: Image)
    requires
        img.wf(),
    ensures
        r.wf(),
        r.width == img.width,
        r.height == img.height,
        r@ == conv_seq(img@, img.width as int, img.height as int, box_kernel(), 9),
{
    let k: [i64; 9] = [1, 1, 1, 1, 1, 1, 1, 1, 1];
    assert(k@ =~= box_kernel());
    convolve3x3(img, &k, 9)
}

} // verus!
