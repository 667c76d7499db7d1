//! The closed set of image filters, their parameter ranges, and the fixed
//! registry of filter kinds with human-readable names and default
//! parameters.
//!
//! All filter arithmetic is integer arithmetic. Fractional parameters are
//! carried in hundredths (`sigma_centi`, `Percentage(fx, fy)` factors), and
//! every division truncates.

use vstd::prelude::*;
use crate::convolve::{box_kernel, conv_seq, sharpen_kernel};
use crate::error::ErrorKind;
use crate::gauss::gauss_out;
use crate::jpeg::{jpeg_out, jpeg_rt_ok, rgb_bytes_of};
use crate::noise::{fresh_seed, noise_out};
use crate::pixel_ops::{bright_seq, invert_seq, sat_seq};
use crate::raster::Image;
use crate::resize::{resize_dims, resize_out, scaled_dim};

verus! {

/// How a resize target is given: exact pixels, or per-axis scale factors
/// in hundredths (so `Percentage(100, 100)` keeps the size).
#[derive(Clone, Copy, PartialEq, Eq, Structural, Debug)]
pub enum ResizeOption {
    Pixels(u32, u32),
    Percentage(u32, u32),
}

/// One image transformation with its parameters.
#[derive(Clone, Copy, PartialEq, Eq, Structural, Debug)]
pub enum ImageFilter {
    /// Re-encode through the JPEG codec at `quality` (1..=100) and decode
    /// back, deliberately picking up the codec's artifacts.
    JpegCompression { quality: u8 },
    /// Scale each color channel by `percentage`/100, clamped to 255.
    Brightness { percentage: u8 },
    /// Cross-shaped 3x3 sharpening kernel of strength `strength`/100.
    Sharpen { strength: u8 },
    /// 3x3 mean filter.
    BoxBlur,
    /// Separable Gaussian blur; the standard deviation is
    /// `sigma_centi`/100.
    GaussianBlur { sigma_centi: u32 },
    /// Scale HSV saturation by `percentage`/100, clamped to full
    /// saturation.
    Saturate { percentage: u16 },
    /// Darken each pixel by a pseudo-random factor drawn from a seeded
    /// deterministic generator; `None` draws a fresh seed per application.
    Noise { strength: u8, seed: Option<u64> },
    /// Nearest-neighbor resize.
    Resize { size: ResizeOption },
    /// Per-channel `255 - value`; alpha untouched.
    Invert,
}

impl ResizeOption {
    /// Parameter ranges: scale factors stay within 10x per axis.
    pub open spec fn valid(self) -> bool {
        match self {
            ResizeOption::Pixels(_w, _h) => true,
            ResizeOption::Percentage(fx, fy) => fx <= 1000 && fy <= 1000,
        }
    }
}

impl ImageFilter {
    /// The parameter ranges each filter admits.
    pub open spec fn valid(self) -> bool {
        match self {
            ImageFilter::JpegCompression { quality } => 1 <= quality <= 100,
            ImageFilter::Brightness { percentage } => percentage <= 200,
            ImageFilter::Sharpen { strength } => strength <= 200,
            ImageFilter::BoxBlur => true,
            ImageFilter::GaussianBlur { sigma_centi } => sigma_centi <= 500,
            ImageFilter::Saturate { percentage } => percentage <= 400,
            ImageFilter::Noise { strength, seed: _ } => strength <= 100,
            ImageFilter::Resize { size } => size.valid(),
            ImageFilter::Invert => true,
        }
    }

    /// The human-readable name of each filter kind.
    pub open spec fn spec_name(self) -> Seq<char> {
        match self {
            ImageFilter::JpegCompression { .. } => "JPEG Compression"@,
            ImageFilter::Brightness { .. } => "Brightness"@,
            ImageFilter::Sharpen { .. } => "Sharpen"@,
            ImageFilter::BoxBlur => "Box Blur"@,
            ImageFilter::GaussianBlur { .. } => "Gaussian Blur"@,
            ImageFilter::Saturate { .. } => "Saturate"@,
            ImageFilter::Noise { .. } => "Noise"@,
            ImageFilter::Resize { .. } => "Resize"@,
            ImageFilter::Invert => "Invert"@,
        }
    }

    pub fn name(&self) -> (r: &'static str)
        ensures
            r@ == self.spec_name(),
    {
        match self {
            ImageFilter::JpegCompression { .. } => "JPEG Compression",
            ImageFilter::Brightness { .. } => "Brightness",
            ImageFilter::Sharpen { .. } => "Sharpen",
            ImageFilter::BoxBlur => "Box Blur",
            ImageFilter::GaussianBlur { .. } => "Gaussian Blur",
            ImageFilter::Saturate { .. } => "Saturate",
            ImageFilter::Noise { .. } => "Noise",
            ImageFilter::Resize { .. } => "Resize",
            ImageFilter::Invert => "Invert",
        }
    }

    /// The fixed, ordered registry of filter kinds with their default
    /// parameters; the presentation layer builds its selector from this.
    pub open spec fn spec_defaults() -> Seq<ImageFilter> {
        seq![
            ImageFilter::JpegCompression { quality: 80 },
            ImageFilter::Brightness { percentage: 100 },
            ImageFilter::Sharpen { strength: 50 },
            ImageFilter::BoxBlur,
            ImageFilter::GaussianBlur { sigma_centi: 200 },
            ImageFilter::Saturate { percentage: 100 },
            ImageFilter::Noise { strength: 10, seed: None },
            ImageFilter::Resize { size: ResizeOption::Percentage(100, 100) },
            ImageFilter::Invert,
        ]
    }

    pub fn defaults() -> (r: Vec<ImageFilter>)
        ensures
            r@ == Self::spec_defaults(),
            forall|i: int| 0 <= i < r@.len() ==> (#[trigger] r@[i]).valid(),
    {
        let mut v: Vec<ImageFilter> = Vec::new();
        v.push(ImageFilter::JpegCompression { quality: 80 });
        v.push(ImageFilter::Brightness { percentage: 100 });
        v.push(ImageFilter::Sharpen { strength: 50 });
        v.push(ImageFilter::BoxBlur);
        v.push(ImageFilter::GaussianBlur { sigma_centi: 200 });
        v.push(ImageFilter::Saturate { percentage: 100 });
        v.push(ImageFilter::Noise { strength: 10, seed: None });
        v.push(ImageFilter::Resize { size: ResizeOption::Percentage(100, 100) });
        v.push(ImageFilter::Invert);
        assert(v@ =~= Self::spec_defaults());
        v
    }

    /// The output dimensions of one application: resizing changes them,
    /// every other filter keeps them.
    pub open spec fn out_dims(self, w: u32, h: u32) -> (u32, u32) {
        match self {
            ImageFilter::Resize { size } => match size {
                ResizeOption::Pixels(nw, nh) => resize_dims(w, h, nw, nh),
                ResizeOption::Percentage(fx, fy) => resize_dims(
                    w,
                    h,
                    scaled_dim(w, fx),
                    scaled_dim(h, fy),
                ),
            },
            _ => (w, h),
        }
    }

    /// What a successful application returns: `o` is exactly the filter's
    /// output for `img`. Only the noise filter without a fixed seed keeps
    /// a choice (its freshly drawn seed); everything else is pinned.
    pub open spec fn apply_ok(self, img: Image, o: Image) -> bool {
        &&& o.wf()
        &&& (o.width, o.height) == self.out_dims(img.width, img.height)
        &&& match self {
            ImageFilter::JpegCompression { quality } => jpeg_rt_ok(
                rgb_bytes_of(img@),
                img.width as int,
                img.height as int,
                quality,
            ) && o@ == jpeg_out(img@, img.width as int, img.height as int, quality),
            ImageFilter::Brightness { percentage } => o@ == bright_seq(img@, percentage),
            ImageFilter::Sharpen { strength } => o@ == conv_seq(
                img@,
                img.width as int,
                img.height as int,
                sharpen_kernel(strength),
                100,
            ),
            ImageFilter::BoxBlur => o@ == conv_seq(
                img@,
                img.width as int,
                img.height as int,
                box_kernel(),
                9,
            ),
            ImageFilter::GaussianBlur { sigma_centi } => if sigma_centi == 0 {
                o@ == img@
            } else {
                o@ == gauss_out(img@, img.width as int, img.height as int, sigma_centi as int)
            },
            ImageFilter::Saturate { percentage } => o@ == sat_seq(img@, percentage),
            ImageFilter::Noise { strength, seed } => match seed {
                Some(s) => o@ == noise_out(img@, strength, s),
                None => exists|s: u64| o@ == noise_out(img@, strength, s),
            },
            ImageFilter::Resize { size } => match size {
                ResizeOption::Pixels(nw, nh) => o@ == resize_out(img@, img.width, img.height, nw, nh),
                ResizeOption::Percentage(fx, fy) => o@ == resize_out(
                    img@,
                    img.width,
                    img.height,
                    scaled_dim(img.width, fx),
                    scaled_dim(img.height, fy),
                ),
            },
            ImageFilter::Invert => o@ == invert_seq(img@),
        }
    }

    /// When an application fails: only the JPEG filter can, exactly when
    /// its codec round trip does.
    pub open spec fn apply_fails(self, img: Image) -> bool {
        self matches ImageFilter::JpegCompression { quality } && !jpeg_rt_ok(
            rgb_bytes_of(img@),
            img.width as int,
            img.height as int,
            quality,
        )
    }

    /// Apply this filter to an image. Fails with `FilterError` exactly
    /// when the JPEG round trip fails; every other filter always
    /// succeeds.
    pub fn apply(&self, img: Image) -> (r: Result<Image, ErrorKind>)
        requires
            self.valid(),
            img.wf(),
        ensures
            match r {
                Ok(o) => self.apply_ok(img, o),
                Err(e) => e == ErrorKind::FilterError && self.apply_fails(img),
            },
    {
        match self {
            ImageFilter::JpegCompression { quality } => crate::jpeg::jpeg_compress(&img, *quality),
            ImageFilter::Brightness { percentage } => Ok(
                crate::pixel_ops::brightness(&img, *percentage),
            ),
            ImageFilter::Sharpen { strength } => Ok(crate::convolve::sharpen(&img, *strength)),
            ImageFilter::BoxBlur => Ok(crate::convolve::box_blur(&img)),
            ImageFilter::GaussianBlur { sigma_centi } => Ok(
                crate::gauss::gaussian_blur(&img, *sigma_centi),
            ),
            ImageFilter::Saturate { percentage } => Ok(crate::pixel_ops::saturate(&img, *percentage)),
            ImageFilter::Noise { strength, seed } => {
                let s: u64 = match seed {
                    Some(s) => *s,
                    None => fresh_seed(),
                };
                let o = crate::noise::noise(&img, *strength, s);
                proof {
                    assert(o@ == noise_out(img@, self->Noise_strength, s));
                }
                Ok(o)
            },
            ImageFilter::Resize { size } => {
                let (nw, nh) = match size {
                    ResizeOption::Pixels(w2, h2) => (*w2, *h2),
                    ResizeOption::Percentage(fx, fy) => (
                        crate::resize::scale_dim(img.width, *fx),
                        crate::resize::scale_dim(img.height, *fy),
                    ),
                };
                Ok(crate::resize::resize_nearest(&img, nw, nh))
            },
            ImageFilter::Invert => Ok(crate::pixel_ops::invert(&img)),
        }
    }
}

/// Every filter except an unseeded noise filter is pinned by `apply_ok`:
/// two successful applications to the same image agree pixel for pixel.
/// In particular JPEG compression at a fixed quality and noise with a
/// fixed seed are deterministic.
pub proof fn lemma_apply_deterministic(f: ImageFilter, img: Image, o1: Image, o2: Image)
    requires
        !(f matches ImageFilter::Noise { seed: None, .. }),
        f.apply_ok(img, o1),
        f.apply_ok(img, o2),
    ensures
        o1@ == o2@,
        o1.width == o2.width,
        o1.height == o2.height,
{
}

} // verus!
