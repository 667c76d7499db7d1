//! Nearest-neighbor resizing. The source pixel for output column `x` is
//! column `x * src_width / new_width` (truncating), and likewise for rows.
//! Resizing an empty image, or to a pixel count no buffer can hold, yields
//! the empty image.

use vstd::prelude::*;
use crate::raster::{Image, Rgba, lemma_row_major_in_range};
use vstd::arithmetic::div_mod::{lemma_mod_bound, lemma_multiply_divide_lt};

verus! {

/// The source pixel sampled for output index `i`: output column `i % nw`
/// reads source column `(i % nw) * w / nw`, and likewise for rows.
pub open spec fn resize_at(s: Seq<Rgba>, w: int, h: int, nw: int, nh: int, i: int) -> Rgba {
    s[((i / nw) * h / nh) * w + ((i % nw) * w / nw)]
}

/// The resized pixel contents when both the source and the target have
/// pixels: output index `i` samples the nearest source pixel.
pub open spec fn resize_seq(s: Seq<Rgba>, w: int, h: int, nw: int, nh: int) -> Seq<Rgba> {
    Seq::new((nw * nh) as nat, |i: int| resize_at(s, w, h, nw, nh, i))
}

/// The output dimensions: the requested ones, except that an empty source
/// or an unrepresentable pixel count collapses to the empty image.
pub open spec fn resize_dims(w: u32, h: u32, nw: u32, nh: u32) -> (u32, u32) {
    if nw == 0 || nh == 0 {
        (nw, nh)
    } else if w == 0 || h == 0 {
        (0u32, 0u32)
    } else if nw * nh > usize::MAX {
        (0u32, 0u32)
    } else {
        (nw, nh)
    }
}

/// The output pixels for every case.
pub open spec fn resize_out(s: Seq<Rgba>, w: u32, h: u32, nw: u32, nh: u32) -> Seq<Rgba> {
    if nw == 0 || nh == 0 || w == 0 || h == 0 || nw * nh > usize::MAX {
        Seq::<Rgba>::empty()
    } else {
        resize_seq(s, w as int, h as int, nw as int, nh as int)
    }
}

/// Resize to exactly `nw` by `nh` pixels with nearest-neighbor sampling.
pub fn resize_nearest(img: &Image, nw: u32, nh: u32) -> (r: Image)
    requires
        img.wf(),
    ensures
        r.wf(),
        (r.width, r.height) == resize_dims(img.width, img.height, nw, nh),
        r@ == resize_out(img@, img.width, img.height, nw, nh),
{
    if nw == 0 || nh == 0 {
        proof {
            assert(nw * nh == 0) by (nonlinear_arith)
                requires
                    nw == 0 || nh == 0,
            ;
        }
        return Image::new(nw, nh, Vec::new());
    }
    if img.width == 0 || img.height == 0 {
        return Image::new(0, 0, Vec::new());
    }
    let count = match (nw as usize).checked_mul(nh as usize) {
        Some(c) => c,
        None => {
            return Image::new(0, 0, Vec::new());
        },
    };
    let w = img.width;
    let h = img.height;
    let nwu = nw as usize;
    let mut out: Vec<Rgba> = Vec::new();
    let mut i: usize = 0;
    while i < count
        invariant
            img.wf(),
            1 <= w == img.width,
            1 <= h == img.height,
            1 <= nw,
            1 <= nh,
            nwu == nw,
            count == nw * nh,
            i <= count,
            out@.len() == i,
            forall|j: int| 0 <= j < i ==> out@[j] == resize_at(
                img@,
                w as int,
                h as int,
                nw as int,
                nh as int,
                j,
            ),
        decreases count - i,
    {
        proof {
            lemma_mod_bound(i as int, nw as int);
            lemma_multiply_divide_lt(i as int, nw as int, nh as int);
        }
        let x = (i % nwu) as u64;
        let y = (i / nwu) as u64;
        proof {
            assert(x * w < nw * w && x * w <= 0xffff_ffff_ffff_ffff) by (nonlinear_arith)
                requires
                    x < nw,
                    1 <= w <= 0xffff_ffffu64,
                    nw <= 0xffff_ffffu64,
            ;
            lemma_multiply_divide_lt(x as int * w as int, nw as int, w as int);
            assert(y * h < nh * h && y * h <= 0xffff_ffff_ffff_ffff) by (nonlinear_arith)
                requires
                    y < nh,
                    1 <= h <= 0xffff_ffffu64,
                    nh <= 0xffff_ffffu64,
            ;
            lemma_multiply_divide_lt(y as int * h as int, nh as int, h as int);
        }
        let sx = (x * w as u64 / nw as u64) as u32;
        let sy = (y * h as u64 / nh as u64) as u32;
        let px = img.get(sx, sy);
        out.push(px);
        i += 1;
    }
    assert(out@ =~= resize_out(img@, img.width, img.height, nw, nh));
    Image::new(nw, nh, out)
}

/// A dimension scaled by `f`/100 (truncating), saturating at the largest
/// representable dimension.
pub open spec fn scaled_dim(d: u32, f: u32) -> u32 {
    let v = (d * f) / 100;
    if v > u32::MAX {
        u32::MAX
    } else {
        v as u32
    }
}

/// Compute `d * f / 100` saturating at `u32::MAX`.
pub fn scale_dim(d: u32, f: u32) -> (r: u32)
    ensures
        r == scaled_dim(d, f),
{
    proof {
        assert(d * f <= 0xffff_ffff * 0xffff_ffffu64) by (nonlinear_arith)
            requires
                d <= 0xffff_ffffu64,
                f <= 0xffff_ffffu64,
        ;
    }
    let v: u64 = d as u64 * f as u64 / 100;
    if v > 0xffff_ffff {
        u32::MAX
    } else {
        v as u32
    }
}

} // verus!
