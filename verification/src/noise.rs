//! The noise filter: darken each pixel by a pseudo-random factor drawn
//! from a seeded deterministic generator. The keystream is an outside
//! call; everything done with it is verified here.
//!
//! Each pixel consumes one 32-bit word. The word is reduced to a value
//! `rn` in `0..=10000` standing for a fraction of one, the factor is
//! `1 - rn * strength / 100` in ten-thousandths, and each color channel
//! is scaled by it (truncating); alpha is untouched.

use vstd::prelude::*;
use rand::{Rng, SeedableRng};
use crate::raster::{Image, Rgba};
use vstd::arithmetic::div_mod::{lemma_div_is_ordered, lemma_mod_bound};

verus! {

/// The first `n` words of the ChaCha20 keystream for `seed`: a function
/// of the seed and the count alone, identical on every run and machine.
pub uninterp spec fn chacha_words_of(seed: u64, n: int) -> Seq<u32>;

/// Relies on rand_chacha's `ChaCha20Rng::seed_from_u64` and `next_u32`:
/// both are documented as value-stable, deterministic functions of the
/// seed and the draw position, so the collected words depend on `seed`
/// and `n` alone.
#[verifier::external_body]
fn chacha_words(seed: u64, n: usize) -> (r: Vec<u32>)
    ensures
        r@ == chacha_words_of(seed, n as int),
        r@.len() == n,
{
    let mut rng = rand_chacha::ChaCha20Rng::seed_from_u64(seed);
    let mut v: Vec<u32> = Vec::with_capacity(n);
    for _ in 0..n {
        v.push(rng.next_u32());
    }
    v
}

/// Relies on rand's `random`: a fresh pseudo-random seed. Nothing is
/// promised of the value.
#[verifier::external_body]
pub(crate) fn fresh_seed() -> u64 {
    rand::random()
}

/// One channel scaled by `f` ten-thousandths.
pub open spec fn noise_chan(c: u8, f: int) -> u8 {
    ((c * f) / 10000) as u8
}

/// One pixel darkened by the factor drawn from the word `wrd`.
pub open spec fn noise_px(px: Rgba, wrd: u32, strength: u8) -> Rgba {
    let rn = wrd % 10001;
    let f = 10000 - (rn * strength) / 100;
    Rgba { r: noise_chan(px.r, f), g: noise_chan(px.g, f), b: noise_chan(px.b, f), a: px.a }
}

/// The whole image darkened pixel by pixel from a word sequence.
pub open spec fn noise_seq(s: Seq<Rgba>, words: Seq<u32>, strength: u8) -> Seq<Rgba> {
    Seq::new(s.len(), |i: int| noise_px(s[i], words[i], strength))
}

/// The noise filter's output for a fixed seed.
pub open spec fn noise_out(s: Seq<Rgba>, strength: u8, seed: u64) -> Seq<Rgba> {
    noise_seq(s, chacha_words_of(seed, s.len() as int), strength)
}

/// One darkened pixel.
fn noise_pixel(px: Rgba, wrd: u32, strength: u8) -> (r: Rgba)
    requires
        strength <= 100,
    ensures
        r == noise_px(px, wrd, strength),
{
    let rn: u32 = wrd % 10001;
    proof {
        lemma_mod_bound(wrd as int, 10001);
        assert(rn * strength <= 1000000) by (nonlinear_arith)
            requires
                rn <= 10000,
                strength <= 100,
        ;
        lemma_div_is_ordered((rn * strength) as int, 1000000, 100);
    }
    let f: u32 = 10000 - rn * strength as u32 / 100;
    let r = noise_chan_exec(px.r, f);
    let g = noise_chan_exec(px.g, f);
    let b = noise_chan_exec(px.b, f);
    Rgba { r, g, b, a: px.a }
}

fn noise_chan_exec(c: u8, f: u32) -> (r: u8)
    requires
        f <= 10000,
    ensures
        r == noise_chan(c, f as int),
{
    proof {
        assert(c * f <= 2550000) by (nonlinear_arith)
            requires
                c <= 255,
                f <= 10000,
        ;
        lemma_div_is_ordered((c * f) as int, 2550000, 10000);
    }
    (c as u32 * f / 10000) as u8
}

/// Darken each pixel by a factor drawn from the seeded keystream: word
/// `i` of the stream for `seed` darkens pixel `i`. Deterministic: the
/// same image, strength and seed give byte-identical output.
pub fn noise(img: &Image, strength: u8, seed: u64) -> (r: Image)
    requires
        img.wf(),
        strength <= 100,
    ensures
        r.wf(),
        r.width == img.width,
        r.height == img.height,
        r@ == noise_out(img@, strength, seed),
{
    let n = img.pixels.len();
    let words = chacha_words(seed, n);
    let mut out: Vec<Rgba> = Vec::new();
    let mut i: usize = 0;
    while i < n
        invariant
            img.wf(),
            strength <= 100,
            n == img@.len(),
            words@ == chacha_words_of(seed, n as int),
            words@.len() == n,
            i <= n,
            out@.len() == i,
            forall|j: int| 0 <= j < i ==> out@[j] == noise_px(img@[j], words@[j], strength),
        decreases n - i,
    {
        let px = noise_pixel(img.pixels[i], words[i], strength);
        out.push(px);
        i += 1;
    }
    assert(out@ =~= noise_out(img@, strength, seed));
    Image::new(img.width, img.height, out)
}

} // verus!
