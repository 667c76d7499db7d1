//! Separable Gaussian blur in fixed-point arithmetic.
//!
//! The standard deviation is given in hundredths. Weights are kept in
//! 16.16 fixed point: the weight at offset `d` is an integer approximation
//! of `65536 * exp(-d*d / (2*sigma*sigma))`, built from a truncated Taylor
//! series for the fractional part and repeated multiplication by
//! `e^-1` in fixed point for the integer part. The kernel reaches three
//! standard deviations (rounded up) to each side, borders clamp to the
//! edge, and the alpha channel is carried over untouched. A zero standard
//! deviation leaves the image unchanged.

use vstd::prelude::*;
use crate::convolve::{chan, clamp_coord, px_at};
use crate::raster::{Image, Rgba};
use vstd::arithmetic::div_mod::{lemma_div_is_ordered, lemma_mod_bound, lemma_multiply_divide_lt};

verus! {

/// `65536 * e^(-f/65536)` for a fractional argument `0 <= f < 65536`,
/// via four Taylor terms, clamped into `0..=65536`.
pub open spec fn expq_frac(f: int) -> int {
    let f2 = (f * f) / 131072;
    let f3 = ((f * f) / 65536) * f / 393216;
    let f4 = (((f * f) / 65536) * ((f * f) / 65536)) / 65536 / 24;
    let t0 = 65536 - f + f2;
    let t1 = if f3 > t0 {
        0
    } else {
        t0 - f3
    };
    let t2 = t1 + f4;
    if t2 > 65536 {
        65536
    } else {
        t2
    }
}

/// `t` multiplied `n` times by `e^-1` in 16.16 fixed point
/// (`e^-1 * 65536` rounds to 24109).
pub open spec fn scale_e1(t: int, n: int) -> int
    decreases n,
{
    if n <= 0 {
        t
    } else {
        (scale_e1(t, n - 1) * 24109) / 65536
    }
}

/// `65536 * e^(-x/65536)`, approximately; zero once the argument exceeds
/// 32 whole units, where the true value is below one.
pub open spec fn expq(x: int) -> int {
    let n = x / 65536;
    if n >= 32 {
        0
    } else {
        scale_e1(expq_frac(x % 65536), n)
    }
}

proof fn lemma_scale_e1_bounds(t: int, n: int)
    requires
        0 <= t <= 65536,
        0 <= n,
    ensures
        0 <= scale_e1(t, n) <= 65536,
    decreases n,
{
    if n > 0 {
        lemma_scale_e1_bounds(t, n - 1);
        let prev = scale_e1(t, n - 1);
        lemma_div_is_ordered(0, prev * 24109, 65536);
        lemma_div_is_ordered(prev * 24109, 65536int * 24109, 65536);
    }
}

proof fn lemma_expq_bounds(x: int)
    requires
        0 <= x,
    ensures
        0 <= expq(x) <= 65536,
{
    let n = x / 65536;
    lemma_div_is_ordered(0, x, 65536);
    if n < 32 {
        let f = x % 65536;
        lemma_mod_bound(x, 65536);
        lemma_scale_e1_bounds(expq_frac(f), n);
    }
}

/// Fixed-point `e^(-x/65536)`.
fn expq_exec(x: u64) -> (r: u64)
    requires
        x <= 0x7fff_ffff_ffff,
    ensures
        r == expq(x as int),
        r <= 65536,
{
    proof {
        lemma_expq_bounds(x as int);
    }
    let n: u64 = x / 65536;
    if n >= 32 {
        return 0;
    }
    let f: u64 = x % 65536;
    proof {
        lemma_mod_bound(x as int, 65536);
    }
    proof {
        assert(f * f <= 0xffff_ffffu64) by (nonlinear_arith)
            requires
                f <= 65535,
        ;
    }
    let ff: u64 = f * f;
    let q: u64 = ff / 65536;
    proof {
        lemma_div_is_ordered(ff as int, 0xffff_ffff, 65536);
        assert(q * f <= 0xffff_ffff_ffffu64 && q * q <= 0xffff_ffff_ffffu64) by (nonlinear_arith)
            requires
                q <= 65535,
                f <= 65535,
        ;
    }
    let f2: u64 = ff / 131072;
    let f3: u64 = q * f / 393216;
    let f4: u64 = (q * q) / 65536 / 24;
    proof {
        lemma_div_is_ordered((q * f) as int, 0xffff_ffff_ffff, 393216);
        assert(f3 == ((f as int * f as int) / 65536) * f as int / 393216);
        assert(f4 == (((f as int * f as int) / 65536) * ((f as int * f as int) / 65536)) / 65536
            / 24);
    }
    let t0: u64 = 65536 - f + f2;
    let t1: u64 = if f3 > t0 {
        0
    } else {
        t0 - f3
    };
    let t2: u64 = t1 + f4;
    let mut t: u64 = if t2 > 65536 {
        65536
    } else {
        t2
    };
    let mut i: u64 = 0;
    while i < n
        invariant
            i <= n < 32,
            t == scale_e1(expq_frac(f as int), i as int),
            0 <= t <= 65536,
        decreases n - i,
    {
        proof {
            lemma_scale_e1_bounds(expq_frac(f as int), i as int + 1);
        }
        t = t * 24109 / 65536;
        i += 1;
    }
    t
}

/// The kernel radius: three standard deviations, rounded up.
pub open spec fn gr(sc: int) -> int {
    (3 * sc + 99) / 100
}

/// The fixed-point argument `d*d / (2*sigma*sigma)` for offset `d`.
pub open spec fn gx(d: int, sc: int) -> int {
    (5000 * d * d * 65536) / (sc * sc)
}

/// The one-sided Gaussian kernel: weights for offsets `0..=gr(sc)`.
pub open spec fn gkernel(sc: int) -> Seq<int> {
    Seq::new((gr(sc) + 1) as nat, |d: int| expq(gx(d, sc)))
}

/// The weight of tap `t` in the full, symmetric kernel of radius `r`.
pub open spec fn tap_w(k: Seq<int>, r: int, t: int) -> int {
    if t >= r {
        k[t - r]
    } else {
        k[r - t]
    }
}

/// The sum of the first `m` tap weights.
pub open spec fn wsum(k: Seq<int>, r: int, m: int) -> int
    decreases m,
{
    if m <= 0 {
        0
    } else {
        wsum(k, r, m - 1) + tap_w(k, r, m - 1)
    }
}

/// The weighted sum of channel `ci` over the first `m` taps around
/// (`x`, `y`); taps step horizontally unless `vert`.
pub open spec fn gsum(
    s: Seq<Rgba>,
    w: int,
    h: int,
    x: int,
    y: int,
    k: Seq<int>,
    r: int,
    m: int,
    ci: int,
    vert: bool,
) -> int
    decreases m,
{
    if m <= 0 {
        0
    } else {
        let d = m - 1 - r;
        let px = if vert {
            px_at(s, w, h, x, y + d)
        } else {
            px_at(s, w, h, x + d, y)
        };
        gsum(s, w, h, x, y, k, r, m - 1, ci, vert) + tap_w(k, r, m - 1) * chan(px, ci)
    }
}

/// One blurred pixel of a pass: each color channel's weighted sum divided
/// by the weight total, alpha from the source pixel.
pub open spec fn gpx(
    s: Seq<Rgba>,
    w: int,
    h: int,
    x: int,
    y: int,
    k: Seq<int>,
    r: int,
    den: int,
    vert: bool,
) -> Rgba {
    Rgba {
        r: (gsum(s, w, h, x, y, k, r, 2 * r + 1, 0, vert) / den) as u8,
        g: (gsum(s, w, h, x, y, k, r, 2 * r + 1, 1, vert) / den) as u8,
        b: (gsum(s, w, h, x, y, k, r, 2 * r + 1, 2, vert) / den) as u8,
        a: px_at(s, w, h, x, y).a,
    }
}

/// One full pass over the image, horizontal or vertical.
pub open spec fn gpass(s: Seq<Rgba>, w: int, h: int, k: Seq<int>, r: int, den: int, vert: bool) -> Seq<
    Rgba,
> {
    Seq::new(s.len(), |i: int| gpx(s, w, h, i % w, i / w, k, r, den, vert))
}

pub open spec fn to_ints(k: Seq<u64>) -> Seq<int> {
    k.map_values(|v: u64| v as int)
}

/// The blurred image: a horizontal pass followed by a vertical pass with
/// the same kernel.
pub open spec fn gauss_out(s: Seq<Rgba>, w: int, h: int, sc: int) -> Seq<Rgba> {
    let r = gr(sc);
    let k = gkernel(sc);
    let den = wsum(k, r, 2 * r + 1);
    gpass(gpass(s, w, h, k, r, den, false), w, h, k, r, den, true)
}

/// Build the one-sided kernel for `sc` hundredths of standard deviation.
fn build_kernel(sc: u32) -> (kv: Vec<u64>)
    requires
        1 <= sc <= 500,
    ensures
        to_ints(kv@) =~= gkernel(sc as int),
        kv@.len() == gr(sc as int) + 1,
        forall|d: int| 0 <= d < kv@.len() ==> #[trigger] kv@[d] <= 65536,
        kv@[0] == 65536,
{
    let r: u64 = ((3 * sc + 99) / 100) as u64;
    assert(r == gr(sc as int));
    assert(r <= 15);
    proof {
        assert(1 <= sc * sc <= 250000) by (nonlinear_arith)
            requires
                1 <= sc <= 500,
        ;
    }
    let s2: u64 = sc as u64 * sc as u64;
    let mut kv: Vec<u64> = Vec::new();
    let mut d: u64 = 0;
    while d <= r
        invariant
            r <= 15,
            r == gr(sc as int),
            1 <= s2 == sc * sc <= 250000,
            d <= r + 1,
            kv@.len() == d,
            forall|j: int| 0 <= j < d ==> kv@[j] as int == #[trigger] gkernel(sc as int)[j],
            forall|j: int| 0 <= j < d ==> #[trigger] kv@[j] <= 65536,
        decreases r + 1 - d,
    {
        proof {
            assert(d * d <= 225) by (nonlinear_arith)
                requires
                    d <= 15,
            ;
        }
        let num: u64 = 5000 * (d * d) * 65536;
        let x: u64 = num / s2;
        proof {
            lemma_div_is_ordered(x as int, num as int, s2 as int);
            lemma_div_is_ordered(0, x as int, s2 as int);
            assert(5000 * (d * d) * 65536 == 5000 * (d as int) * (d as int) * 65536)
                by (nonlinear_arith);
        }
        let wgt = expq_exec(x);
        kv.push(wgt);
        d += 1;
    }
    proof {
        assert(kv@[0] as int == gkernel(sc as int)[0]);
        assert(gx(0, sc as int) == 0) by {
            assert(5000 * 0 * 0 * 65536 == 0) by (nonlinear_arith);
        }
        assert(expq(0) == 65536) by {
            assert(0int / 65536 == 0 && 0int % 65536 == 0);
            assert(expq_frac(0) == 65536);
            assert(scale_e1(65536, 0) == 65536);
        };
    }
    kv
}

/// The total weight of the full symmetric kernel.
fn weight_total(kv: &Vec<u64>, r: usize) -> (den: u64)
    requires
        kv@.len() == r + 1,
        r <= 15,
        forall|d: int| 0 <= d < kv@.len() ==> #[trigger] kv@[d] <= 65536,
        kv@[0] == 65536,
    ensures
        den == wsum(to_ints(kv@), r as int, 2 * r + 1),
        65536 <= den <= 0x7fff_ffff,
{
    let ghost k = to_ints(kv@);
    let mut den: u64 = 0;
    let mut t: usize = 0;
    while t < 2 * r + 1
        invariant
            kv@.len() == r + 1,
            r <= 15,
            forall|d: int| 0 <= d < kv@.len() ==> #[trigger] kv@[d] <= 65536,
            kv@[0] == 65536,
            k == to_ints(kv@),
            t <= 2 * r + 1,
            den == wsum(k, r as int, t as int),
            den <= t * 65536,
            t > r ==> den >= 65536,
        decreases 2 * r + 1 - t,
    {
        let idx = if t >= r {
            t - r
        } else {
            r - t
        };
        den = den + kv[idx];
        t += 1;
    }
    den
}

/// One blurred pixel at (`x`, `y`).
fn gauss_pixel(img: &Image, x: u32, y: u32, kv: &Vec<u64>, r: usize, den: u64, vertical: bool) -> (res:
    Rgba)
    requires
        img.wf(),
        x < img.width,
        y < img.height,
        r <= 15,
        kv@.len() == r + 1,
        forall|d: int| 0 <= d < kv@.len() ==> #[trigger] kv@[d] <= 65536,
        1 <= den,
    ensures
        res == gpx(
            img@,
            img.width as int,
            img.height as int,
            x as int,
            y as int,
            to_ints(kv@),
            r as int,
            den as int,
            vertical,
        ),
{
    let ghost k = to_ints(kv@);
    let w = img.width;
    let h = img.height;
    let mut ar: u64 = 0;
    let mut ag: u64 = 0;
    let mut ab: u64 = 0;
    let mut t: usize = 0;
    while t < 2 * r + 1
        invariant
            img.wf(),
            x < w == img.width,
            y < h == img.height,
            r <= 15,
            kv@.len() == r + 1,
            forall|d: int| 0 <= d < kv@.len() ==> #[trigger] kv@[d] <= 65536,
            k == to_ints(kv@),
            t <= 2 * r + 1,
            ar == gsum(img@, w as int, h as int, x as int, y as int, k, r as int, t as int, 0, vertical),
            ag == gsum(img@, w as int, h as int, x as int, y as int, k, r as int, t as int, 1, vertical),
            ab == gsum(img@, w as int, h as int, x as int, y as int, k, r as int, t as int, 2, vertical),
            ar <= t * 0xff0000,
            ag <= t * 0xff0000,
            ab <= t * 0xff0000,
        decreases 2 * r + 1 - t,
    {
        let idx = if t >= r {
            t - r
        } else {
            r - t
        };
        let wgt: u64 = kv[idx];
        let cx: u32;
        let cy: u32;
        if vertical {
            cx = x;
            cy = clamp_offset(y, t, r, h);
        } else {
            cx = clamp_offset(x, t, r, w);
            cy = y;
        }
        let px = img.get(cx, cy);
        proof {
            let d = t - r;
            if vertical {
                assert(cy == clamp_coord(y + d, h as int));
                assert(px == px_at(img@, w as int, h as int, x as int, y + d));
            } else {
                assert(cx == clamp_coord(x + d, w as int));
                assert(px == px_at(img@, w as int, h as int, x + d, y as int));
            }
            assert(wgt * px.r <= 65536 * 255 && wgt * px.g <= 65536 * 255 && wgt * px.b <= 65536
                * 255) by (nonlinear_arith)
                requires
                    wgt <= 65536,
                    px.r <= 255,
                    px.g <= 255,
                    px.b <= 255,
            ;
        }
        ar = ar + wgt * (px.r as u64);
        ag = ag + wgt * (px.g as u64);
        ab = ab + wgt * (px.b as u64);
        t += 1;
    }
    proof {
        assert(x == clamp_coord(x as int, w as int) && y == clamp_coord(y as int, h as int));
    }
    let center = img.get(x, y);
    Rgba {
        r: (ar / den) as u8,
        g: (ag / den) as u8,
        b: (ab / den) as u8,
        a: center.a,
    }
}

/// Clamp `base + t - r` into `0..n`.
fn clamp_offset(base: u32, t: usize, r: usize, n: u32) -> (res: u32)
    requires
        base < n,
        t <= 2 * r + 1,
        r <= 15,
    ensures
        res == clamp_coord(base + t - r, n as int),
{
    let b = base as i64 + t as i64 - r as i64;
    if b < 0 {
        0
    } else if b >= n as i64 {
        n - 1
    } else {
        b as u32
    }
}

/// One full pass.
fn gauss_pass(img: &Image, kv: &Vec<u64>, r: usize, den: u64, vertical: bool) -> (res: Image)
    requires
        img.wf(),
        r <= 15,
        kv@.len() == r + 1,
        forall|d: int| 0 <= d < kv@.len() ==> #[trigger] kv@[d] <= 65536,
        1 <= den,
    ensures
        res.wf(),
        res.width == img.width,
        res.height == img.height,
        res@ == gpass(
            img@,
            img.width as int,
            img.height as int,
            to_ints(kv@),
            r as int,
            den as int,
            vertical,
        ),
{
    let n = img.pixels.len();
    let ghost k = to_ints(kv@);
    let mut out: Vec<Rgba> = Vec::new();
    if n == 0 {
        assert(out@ =~= gpass(img@, img.width as int, img.height as int, k, r as int, den as int, vertical));
        return Image::new(img.width, img.height, out);
    }
    let w = img.width as usize;
    proof {
        assert(img.width > 0 && img.height > 0) by (nonlinear_arith)
            requires
                img.width * img.height > 0,
        ;
    }
    let mut i: usize = 0;
    while i < n
        invariant
            img.wf(),
            r <= 15,
            kv@.len() == r + 1,
            forall|d: int| 0 <= d < kv@.len() ==> #[trigger] kv@[d] <= 65536,
            1 <= den,
            k == to_ints(kv@),
            n == img@.len(),
            w == img.width,
            1 <= img.width,
            1 <= img.height,
            i <= n,
            out@.len() == i,
            forall|j: int| 0 <= j < i ==> out@[j] == gpx(
                img@,
                img.width as int,
                img.height as int,
                j % (img.width as int),
                j / (img.width as int),
                k,
                r as int,
                den as int,
                vertical,
            ),
        decreases n - i,
    {
        proof {
            lemma_mod_bound(i as int, w as int);
            lemma_multiply_divide_lt(i as int, img.width as int, img.height as int);
        }
        let x = (i % w) as u32;
        let y = (i / w) as u32;
        let px = gauss_pixel(img, x, y, kv, r, den, vertical);
        out.push(px);
        i += 1;
    }
    assert(out@ =~= gpass(img@, img.width as int, img.height as int, k, r as int, den as int, vertical));
    Image::new(img.width, img.height, out)
}

/// Separable Gaussian blur with standard deviation `sigma_centi`/100;
/// zero leaves the image unchanged.
pub fn gaussian_blur(img: &Image, sigma_centi: u32) -> (res: Image)
    requires
        img.wf(),
        sigma_centi <= 500,
    ensures
        res.wf(),
        res.width == img.width,
        res.height == img.height,
        sigma_centi == 0 ==> res@ == img@,
        1 <= sigma_centi ==> res@ == gauss_out(
            img@,
            img.width as int,
            img.height as int,
            sigma_centi as int,
        ),
{
    if sigma_centi == 0 {
        let copy = img.clone();
        return copy;
    }
    let kv = build_kernel(sigma_centi);
    let r: usize = (kv.len() - 1) as usize;
    assert(r == gr(sigma_centi as int));
    assert(r <= 15) by {
        assert(gr(sigma_centi as int) <= 15);
    }
    let den = weight_total(&kv, r);
    let mid = gauss_pass(img, &kv, r, den, false);
    let res = gauss_pass(&mid, &kv, r, den, true);
    res
}

} // verus!
