//! Per-pixel filters: brightness, inversion, and saturation. Each maps the
//! pixel sequence pointwise and leaves alpha untouched.

use vstd::prelude::*;
use crate::raster::{Image, Rgba};
use vstd::arithmetic::div_mod::{lemma_div_is_ordered, lemma_div_multiples_vanish};
use vstd::arithmetic::mul::lemma_mul_inequality;

verus! {

/// One channel scaled by `p`/100, clamped to 255.
pub open spec fn bright_chan(c: u8, p: u8) -> u8 {
    let v = (c * p) / 100;
    if v > 255 {
        255u8
    } else {
        v as u8
    }
}

/// One pixel scaled by `p`/100 on the color channels; alpha untouched.
pub open spec fn bright_px(px: Rgba, p: u8) -> Rgba {
    Rgba {
        r: bright_chan(px.r, p),
        g: bright_chan(px.g, p),
        b: bright_chan(px.b, p),
        a: px.a,
    }
}

pub open spec fn bright_seq(s: Seq<Rgba>, p: u8) -> Seq<Rgba> {
    s.map_values(|px: Rgba| bright_px(px, p))
}

/// Multiply each color channel by `percentage`/100 (truncating), clamped to
/// 255; alpha untouched. At `percentage == 100` this is the identity.
pub fn brightness(img: &Image, percentage: u8) -> (r: Image)
    requires
        img.wf(),
        percentage <= 200,
    ensures
        r.wf(),
        r.width == img.width,
        r.height == img.height,
        r@ == bright_seq(img@, percentage),
{
    let n = img.pixels.len();
    let mut out: Vec<Rgba> = Vec::new();
    let mut i: usize = 0;
    while i < n
        invariant
            n == img@.len(),
            i <= n,
            percentage <= 200,
            out@.len() == i,
            forall|j: int| 0 <= j < i ==> out@[j] == bright_px(img@[j], percentage),
        decreases n - i,
    {
        let px = img.pixels[i];
        let r = bright_chan_exec(px.r, percentage);
        let g = bright_chan_exec(px.g, percentage);
        let b = bright_chan_exec(px.b, percentage);
        out.push(Rgba { r, g, b, a: px.a });
        i += 1;
    }
    assert(out@ =~= bright_seq(img@, percentage));
    Image::new(img.width, img.height, out)
}

fn bright_chan_exec(c: u8, p: u8) -> (r: u8)
    requires
        p <= 200,
    ensures
        r == bright_chan(c, p),
{
    proof {
        assert(c * p <= 51000) by (nonlinear_arith)
            requires
                c <= 255,
                p <= 200,
        ;
    }
    let v: u32 = c as u32 * p as u32 / 100;
    if v > 255 {
        255
    } else {
        v as u8
    }
}

/// Every color channel replaced by `255 - value`; alpha untouched.
pub open spec fn invert_px(px: Rgba) -> Rgba {
    Rgba { r: (255 - px.r) as u8, g: (255 - px.g) as u8, b: (255 - px.b) as u8, a: px.a }
}

pub open spec fn invert_seq(s: Seq<Rgba>) -> Seq<Rgba> {
    s.map_values(|px: Rgba| invert_px(px))
}

pub fn invert(img: &Image) -> (r: Image)
    requires
        img.wf(),
    ensures
        r.wf(),
        r.width == img.width,
        r.height == img.height,
        r@ == invert_seq(img@),
{
    let n = img.pixels.len();
    let mut out: Vec<Rgba> = Vec::new();
    let mut i: usize = 0;
    while i < n
        invariant
            n == img@.len(),
            i <= n,
            out@.len() == i,
            forall|j: int| 0 <= j < i ==> out@[j] == invert_px(img@[j]),
        decreases n - i,
    {
        let px = img.pixels[i];
        out.push(Rgba { r: 255 - px.r, g: 255 - px.g, b: 255 - px.b, a: px.a });
        i += 1;
    }
    assert(out@ =~= invert_seq(img@));
    Image::new(img.width, img.height, out)
}

/// Inverting twice restores every pixel: `invert` is an involution, and it
/// preserves alpha throughout.
pub proof fn lemma_invert_involutive(s: Seq<Rgba>)
    ensures
        invert_seq(invert_seq(s)) == s,
        forall|i: int| 0 <= i < s.len() ==> (#[trigger] invert_seq(s)[i]).a == s[i].a,
{
    assert(invert_seq(invert_seq(s)) =~= s);
}

/// Scaling brightness by 100 percent changes nothing.
pub proof fn lemma_brightness_identity(s: Seq<Rgba>)
    ensures
        bright_seq(s, 100) == s,
{
    assert(bright_seq(s, 100) =~= s);
}

pub open spec fn max3(a: u8, b: u8, c: u8) -> u8 {
    if a >= b && a >= c {
        a
    } else if b >= c {
        b
    } else {
        c
    }
}

pub open spec fn min3(a: u8, b: u8, c: u8) -> u8 {
    if a <= b && a <= c {
        a
    } else if b <= c {
        b
    } else {
        c
    }
}

/// One channel after the pixel's chroma is rescaled from `c` to `c2` while
/// the hue and the value `v` are kept.
pub open spec fn sat_chan(x: u8, v: u8, c: int, c2: int) -> u8 {
    (v - ((v - x) * c2) / c) as u8
}

/// Saturation scaling in HSV terms, carried out on the RGB channels: the
/// value `v` (the maximum channel) is kept, and the chroma `v - min` is
/// scaled by `p`/100, clamped so saturation never exceeds 1.
pub open spec fn sat_px(px: Rgba, p: u16) -> Rgba {
    let v = max3(px.r, px.g, px.b);
    let mn = min3(px.r, px.g, px.b);
    let c = v - mn;
    if c == 0 {
        px
    } else {
        let cs = (c * p) / 100;
        let c2: int = if cs > v { v as int } else { cs };
        Rgba {
            r: sat_chan(px.r, v, c, c2),
            g: sat_chan(px.g, v, c, c2),
            b: sat_chan(px.b, v, c, c2),
            a: px.a,
        }
    }
}

pub open spec fn sat_seq(s: Seq<Rgba>, p: u16) -> Seq<Rgba> {
    s.map_values(|px: Rgba| sat_px(px, p))
}

/// The rescaled channel stays within `0..=v`.
proof fn lemma_sat_chan_bounds(x: u8, v: u8, c: int, c2: int)
    requires
        x <= v,
        v - x <= c,
        0 < c,
        0 <= c2 <= v,
    ensures
        0 <= ((v - x) * c2) / c <= c2,
{
    lemma_mul_inequality(v - x, c, c2);
    lemma_div_is_ordered((v - x) * c2, c * c2, c);
    lemma_div_multiples_vanish(c2, c);
    assert(c * c2 / c == c2);
    assert((v - x) * c2 >= 0) by (nonlinear_arith)
        requires
            v - x >= 0,
            c2 >= 0,
    ;
    lemma_div_is_ordered(0, (v - x) * c2, c);
}

fn sat_pixel(px: Rgba, p: u16) -> (r: Rgba)
    requires
        p <= 400,
    ensures
        r == sat_px(px, p),
{
    let v = max3_exec(px.r, px.g, px.b);
    let mn = min3_exec(px.r, px.g, px.b);
    proof {
        assert(mn <= px.r && mn <= px.g && mn <= px.b);
        assert(px.r <= v && px.g <= v && px.b <= v);
    }
    if v == mn {
        return px;
    }
    let c: u32 = (v - mn) as u32;
    proof {
        assert(c * p <= 102000) by (nonlinear_arith)
            requires
                c <= 255,
                p <= 400,
        ;
    }
    let cs: u32 = c * p as u32 / 100;
    let c2: u32 = if cs > v as u32 {
        v as u32
    } else {
        cs
    };
    let r = sat_chan_exec(px.r, v, c, c2);
    let g = sat_chan_exec(px.g, v, c, c2);
    let b = sat_chan_exec(px.b, v, c, c2);
    Rgba { r, g, b, a: px.a }
}

fn sat_chan_exec(x: u8, v: u8, c: u32, c2: u32) -> (r: u8)
    requires
        x <= v,
        v - x <= c,
        0 < c <= 255,
        c2 <= v,
    ensures
        r == sat_chan(x, v, c as int, c2 as int),
{
    proof {
        lemma_sat_chan_bounds(x, v, c as int, c2 as int);
        assert((v - x) * c2 <= 65025) by (nonlinear_arith)
            requires
                0 <= v - x <= 255,
                c2 <= 255,
        ;
    }
    let q: u32 = (v - x) as u32 * c2 / c;
    v - q as u8
}

fn max3_exec(a: u8, b: u8, c: u8) -> (r: u8)
    ensures
        r == max3(a, b, c),
{
    if a >= b && a >= c {
        a
    } else if b >= c {
        b
    } else {
        c
    }
}

fn min3_exec(a: u8, b: u8, c: u8) -> (r: u8)
    ensures
        r == min3(a, b, c),
{
    if a <= b && a <= c {
        a
    } else if b <= c {
        b
    } else {
        c
    }
}

/// Convert each pixel RGB to HSV, scale the saturation by `percentage`/100
/// clamped to full saturation, and convert back; alpha untouched.
pub fn saturate(img: &Image, percentage: u16) -> (r: Image)
    requires
        img.wf(),
        percentage <= 400,
    ensures
        r.wf(),
        r.width == img.width,
        r.height == img.height,
        r@ == sat_seq(img@, percentage),
{
    let n = img.pixels.len();
    let mut out: Vec<Rgba> = Vec::new();
    let mut i: usize = 0;
    while i < n
        invariant
            n == img@.len(),
            i <= n,
            percentage <= 400,
            out@.len() == i,
            forall|j: int| 0 <= j < i ==> out@[j] == sat_px(img@[j], percentage),
        decreases n - i,
    {
        let px = sat_pixel(img.pixels[i], percentage);
        out.push(px);
        i += 1;
    }
    assert(out@ =~= sat_seq(img@, percentage));
    Image::new(img.width, img.height, out)
}

} // verus!
