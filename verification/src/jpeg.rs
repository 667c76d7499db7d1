//! The JPEG compression filter: encode the image's RGB bytes through the
//! JPEG codec at a chosen quality and decode the result back, keeping the
//! codec's artifacts. The round trip itself is an outside call; what the
//! bytes mean on either side of it is verified here. Alpha is not part of
//! the codec's color model: the output image is fully opaque.

use vstd::prelude::*;
use crate::error::ErrorKind;
use crate::raster::{Image, Rgba};
use vstd::arithmetic::div_mod::{
    lemma_div_multiples_vanish,
    lemma_fundamental_div_mod_converse,
};

verus! {

/// The interleaved RGB bytes of a pixel sequence, three per pixel.
pub open spec fn rgb_bytes_of(s: Seq<Rgba>) -> Seq<u8> {
    Seq::new(3 * s.len(), |j: int| rgb_byte_at(s, j))
}

/// Byte `j` of the interleaved RGB form.
pub open spec fn rgb_byte_at(s: Seq<Rgba>, j: int) -> u8 {
    let px = s[j / 3];
    if j % 3 == 0 {
        px.r
    } else if j % 3 == 1 {
        px.g
    } else {
        px.b
    }
}

/// The pixels read back from interleaved RGB bytes, fully opaque.
pub open spec fn rgba_of_rgb(b: Seq<u8>) -> Seq<Rgba> {
    Seq::new(b.len() / 3, |i: int| Rgba { r: b[3 * i], g: b[3 * i + 1], b: b[3 * i + 2], a: 255u8 })
}

/// Whether the JPEG round trip succeeds on these RGB bytes and
/// dimensions; the codec decides this from its inputs alone.
pub uninterp spec fn jpeg_rt_ok(rgb: Seq<u8>, w: int, h: int, quality: u8) -> bool;

/// The RGB bytes that come back from the JPEG round trip; a function of
/// the inputs alone.
pub uninterp spec fn jpeg_rt(rgb: Seq<u8>, w: int, h: int, quality: u8) -> Seq<u8>;

/// Relies on image's `JpegEncoder::new_with_quality`/`encode` and
/// `JpegDecoder::new`/`DynamicImage::from_decoder`: both run entirely in
/// memory, so success and the decoded bytes depend on the arguments
/// alone; a decoded JPEG has the encoded dimensions, so the byte count is
/// preserved. Encoding rejects dimensions outside `1..=65535`.
#[verifier::external_body]
fn jpeg_roundtrip_rgb(rgb: &Vec<u8>, width: u32, height: u32, quality: u8) -> (r: Option<Vec<u8>>)
    requires
        rgb@.len() == 3 * width * height,
        1 <= quality <= 100,
    ensures
        r is Some <==> jpeg_rt_ok(rgb@, width as int, height as int, quality),
        r matches Some(v) ==> v@ == jpeg_rt(rgb@, width as int, height as int, quality)
            && v@.len() == rgb@.len(),
        width == 0 || height == 0 || width > 65535 || height > 65535 ==> r is None,
{
    let mut buf: Vec<u8> = Vec::new();
    let mut enc = image::codecs::jpeg::JpegEncoder::new_with_quality(&mut buf, quality);
    if enc.encode(rgb.as_slice(), width, height, image::ExtendedColorType::Rgb8).is_err() {
        return None;
    }
    let dec = image::codecs::jpeg::JpegDecoder::new(std::io::Cursor::new(buf)).ok()?;
    let img = image::DynamicImage::from_decoder(dec).ok()?;
    Some(img.into_rgb8().into_raw())
}

/// Flatten the pixels into interleaved RGB bytes.
pub fn to_rgb_bytes(img: &Image) -> (r: Vec<u8>)
    requires
        img.wf(),
    ensures
        r@ == rgb_bytes_of(img@),
{
    let n = img.pixels.len();
    let mut out: Vec<u8> = Vec::new();
    let mut i: usize = 0;
    while i < n
        invariant
            img.wf(),
            n == img@.len(),
            i <= n,
            out@.len() == 3 * i,
            forall|j: int| 0 <= j < 3 * i ==> out@[j] == rgb_byte_at(img@, j),
        decreases n - i,
    {
        let px = img.pixels[i];
        out.push(px.r);
        out.push(px.g);
        out.push(px.b);
        proof {
            lemma_fundamental_div_mod_converse(3 * i, 3, i as int, 0);
            lemma_fundamental_div_mod_converse(3 * i + 1, 3, i as int, 1);
            lemma_fundamental_div_mod_converse(3 * i + 2, 3, i as int, 2);
        }
        i += 1;
    }
    assert(out@ =~= rgb_bytes_of(img@));
    out
}

/// Rebuild an image from interleaved RGB bytes, fully opaque.
pub fn from_rgb_bytes(bytes: &Vec<u8>, width: u32, height: u32) -> (r: Image)
    requires
        bytes@.len() == 3 * width * height,
    ensures
        r.wf(),
        r.width == width,
        r.height == height,
        r@ == rgba_of_rgb(bytes@),
{
    let count = bytes.len() / 3;
    proof {
        assert(3 * (width as int * height as int) == 3 * width as int * height as int)
            by (nonlinear_arith);
        lemma_div_multiples_vanish(width as int * height as int, 3);
        assert(count == width * height);
    }
    let blen = bytes.len();
    let mut out: Vec<Rgba> = Vec::new();
    let mut i: usize = 0;
    while i < count
        invariant
            bytes@.len() == 3 * count,
            bytes@.len() == blen,
            count <= usize::MAX,
            i <= count,
            out@.len() == i,
            forall|j: int| 0 <= j < i ==> out@[j] == (Rgba {
                r: bytes@[3 * j],
                g: bytes@[3 * j + 1],
                b: bytes@[3 * j + 2],
                a: 255u8,
            }),
        decreases count - i,
    {
        let px = Rgba { r: bytes[3 * i], g: bytes[3 * i + 1], b: bytes[3 * i + 2], a: 255 };
        out.push(px);
        i += 1;
    }
    assert(out@ =~= rgba_of_rgb(bytes@));
    Image::new(width, height, out)
}

/// The whole filter's output pixels, named through the codec round trip.
pub open spec fn jpeg_out(s: Seq<Rgba>, w: int, h: int, quality: u8) -> Seq<Rgba> {
    rgba_of_rgb(jpeg_rt(rgb_bytes_of(s), w, h, quality))
}

/// Re-encode the image through the JPEG codec at `quality` and decode the
/// result back. Fails with `FilterError` exactly when the codec round
/// trip fails (for instance on dimensions JPEG cannot carry).
pub fn jpeg_compress(img: &Image, quality: u8) -> (r: Result<Image, ErrorKind>)
    requires
        img.wf(),
        1 <= quality <= 100,
    ensures
        match r {
            Ok(o) => {
                &&& jpeg_rt_ok(rgb_bytes_of(img@), img.width as int, img.height as int, quality)
                &&& o.wf()
                &&& o.width == img.width
                &&& o.height == img.height
                &&& o@ == jpeg_out(img@, img.width as int, img.height as int, quality)
            },
            Err(e) => {
                &&& e == ErrorKind::FilterError
                &&& !jpeg_rt_ok(rgb_bytes_of(img@), img.width as int, img.height as int, quality)
            },
        },
{
    let rgb = to_rgb_bytes(img);
    proof {
        assert(3 * (img.width as int * img.height as int) == 3 * img.width as int
            * img.height as int) by (nonlinear_arith);
    }
    match jpeg_roundtrip_rgb(&rgb, img.width, img.height, quality) {
        Some(back) => Ok(from_rgb_bytes(&back, img.width, img.height)),
        None => Err(ErrorKind::FilterError),
    }
}

} // verus!
