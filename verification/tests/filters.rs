use ruin_me_image::error::ErrorKind;
use ruin_me_image::filter::{ImageFilter, ResizeOption};
use ruin_me_image::raster::{Image, Rgba};

fn px(r: u8, g: u8, b: u8, a: u8) -> Rgba {
    Rgba { r, g, b, a }
}

fn uniform(w: u32, h: u32, p: Rgba) -> Image {
    Image::new(w, h, vec![p; (w * h) as usize])
}

#[test]
fn brightness_at_100_percent_is_identity() {
    let img = Image::new(
        2,
        2,
        vec![
            px(0, 1, 2, 3),
            px(255, 254, 253, 252),
            px(10, 200, 30, 77),
            px(128, 128, 128, 0),
        ],
    );
    let out = ImageFilter::Brightness { percentage: 100 }
        .apply(img.clone())
        .unwrap();
    assert_eq!(out.pixels, img.pixels);
    assert_eq!((out.width, out.height), (2, 2));
}

#[test]
fn brightness_scales_and_clamps() {
    let img = Image::new(1, 1, vec![px(128, 100, 10, 9)]);
    let out = ImageFilter::Brightness { percentage: 200 }
        .apply(img)
        .unwrap();
    // 128 * 2 = 256 clamps to 255; alpha untouched
    assert_eq!(out.pixels[0], px(255, 200, 20, 9));
}

#[test]
fn brightness_truncates() {
    let img = Image::new(1, 1, vec![px(3, 7, 99, 255)]);
    let out = ImageFilter::Brightness { percentage: 150 }
        .apply(img)
        .unwrap();
    // 3*150/100 = 4 (truncated from 4.5), 7*150/100 = 10, 99*150/100 = 148
    assert_eq!(out.pixels[0], px(4, 10, 148, 255));
}

#[test]
fn invert_twice_is_identity() {
    let img = Image::new(
        2,
        1,
        vec![px(0, 255, 17, 42), px(200, 100, 50, 0)],
    );
    let once = ImageFilter::Invert.apply(img.clone()).unwrap();
    assert_eq!(once.pixels[0], px(255, 0, 238, 42));
    let twice = ImageFilter::Invert.apply(once).unwrap();
    assert_eq!(twice.pixels, img.pixels);
}

#[test]
fn saturate_at_100_percent_is_identity() {
    let img = Image::new(
        2,
        1,
        vec![px(200, 150, 100, 5), px(0, 0, 0, 255)],
    );
    let out = ImageFilter::Saturate { percentage: 100 }
        .apply(img.clone())
        .unwrap();
    assert_eq!(out.pixels, img.pixels);
}

#[test]
fn saturate_scales_chroma_toward_value() {
    let img = Image::new(1, 1, vec![px(200, 100, 0, 11)]);
    let out = ImageFilter::Saturate { percentage: 50 }
        .apply(img)
        .unwrap();
    // v = 200, chroma 200 -> 100: g = 200 - (100 * 100)/200 = 150, b = 200 - 200*100/200 = 100
    assert_eq!(out.pixels[0], px(200, 150, 100, 11));
}

#[test]
fn saturate_at_zero_drops_all_chroma() {
    let img = Image::new(1, 1, vec![px(10, 90, 170, 3)]);
    let out = ImageFilter::Saturate { percentage: 0 }.apply(img).unwrap();
    assert_eq!(out.pixels[0], px(170, 170, 170, 3));
}

#[test]
fn box_blur_keeps_uniform_images() {
    let img = uniform(3, 3, px(90, 14, 200, 255));
    let out = ImageFilter::BoxBlur.apply(img.clone()).unwrap();
    assert_eq!(out.pixels, img.pixels);
}

#[test]
fn box_blur_averages_with_clamped_border() {
    // 2x2 image; at (0,0) the clamped 3x3 window holds a four times,
    // b and c twice each, d once.
    let img = Image::new(
        2,
        2,
        vec![px(9, 0, 0, 1), px(18, 0, 0, 2), px(27, 0, 0, 3), px(36, 0, 0, 4)],
    );
    let out = ImageFilter::BoxBlur.apply(img).unwrap();
    // (4*9 + 2*18 + 2*27 + 36) / 9 = 162 / 9 = 18
    assert_eq!(out.pixels[0].r, 18);
    // alpha comes from the center pixel
    assert_eq!(out.pixels[0].a, 1);
}

#[test]
fn sharpen_at_zero_strength_is_identity() {
    let img = Image::new(
        2,
        2,
        vec![px(1, 2, 3, 4), px(5, 6, 7, 8), px(9, 10, 11, 12), px(13, 14, 15, 16)],
    );
    let out = ImageFilter::Sharpen { strength: 0 }.apply(img.clone()).unwrap();
    assert_eq!(out.pixels, img.pixels);
}

#[test]
fn sharpen_keeps_uniform_images() {
    let img = uniform(3, 2, px(77, 130, 9, 250));
    let out = ImageFilter::Sharpen { strength: 200 }
        .apply(img.clone())
        .unwrap();
    assert_eq!(out.pixels, img.pixels);
}

#[test]
fn gaussian_blur_with_zero_sigma_is_identity() {
    let img = Image::new(2, 1, vec![px(1, 2, 3, 4), px(100, 200, 50, 60)]);
    let out = ImageFilter::GaussianBlur { sigma_centi: 0 }
        .apply(img.clone())
        .unwrap();
    assert_eq!(out.pixels, img.pixels);
}

#[test]
fn gaussian_blur_keeps_uniform_images() {
    let img = uniform(4, 4, px(100, 50, 25, 255));
    let out = ImageFilter::GaussianBlur { sigma_centi: 200 }
        .apply(img.clone())
        .unwrap();
    assert_eq!(out.pixels, img.pixels);
}

#[test]
fn gaussian_blur_spreads_mass() {
    let mut pixels = vec![px(0, 0, 0, 255); 9];
    pixels[4] = px(255, 255, 255, 255);
    let img = Image::new(3, 3, pixels);
    let out = ImageFilter::GaussianBlur { sigma_centi: 150 }
        .apply(img)
        .unwrap();
    // the center keeps the most, corners the least, nothing stays at 255
    assert!(out.pixels[4].r < 255);
    assert!(out.pixels[4].r > out.pixels[0].r);
    assert!(out.pixels[0].r > 0);
}

#[test]
fn resize_to_pixels_nearest_neighbor() {
    let img = Image::new(
        2,
        2,
        vec![px(1, 0, 0, 9), px(2, 0, 0, 9), px(3, 0, 0, 9), px(4, 0, 0, 9)],
    );
    let out = ImageFilter::Resize {
        size: ResizeOption::Pixels(4, 4),
    }
    .apply(img)
    .unwrap();
    assert_eq!((out.width, out.height), (4, 4));
    // source column for output x is x*2/4 = x/2
    let want_rows = [
        [1, 1, 2, 2],
        [1, 1, 2, 2],
        [3, 3, 4, 4],
        [3, 3, 4, 4],
    ];
    for y in 0..4usize {
        for x in 0..4usize {
            assert_eq!(out.pixels[y * 4 + x].r, want_rows[y][x]);
        }
    }
}

#[test]
fn resize_by_percentage_truncates_dimensions() {
    let img = Image::new(
        3,
        2,
        vec![
            px(1, 0, 0, 0),
            px(2, 0, 0, 0),
            px(3, 0, 0, 0),
            px(4, 0, 0, 0),
            px(5, 0, 0, 0),
            px(6, 0, 0, 0),
        ],
    );
    // 3 * 50 / 100 = 1 (truncated), 2 * 100 / 100 = 2
    let out = ImageFilter::Resize {
        size: ResizeOption::Percentage(50, 100),
    }
    .apply(img)
    .unwrap();
    assert_eq!((out.width, out.height), (1, 2));
    assert_eq!(out.pixels[0].r, 1);
    assert_eq!(out.pixels[1].r, 4);
}

#[test]
fn resize_to_zero_gives_empty_image() {
    let img = uniform(2, 2, px(5, 5, 5, 5));
    let out = ImageFilter::Resize {
        size: ResizeOption::Pixels(0, 7),
    }
    .apply(img)
    .unwrap();
    assert_eq!(out.pixels.len(), 0);
}

#[test]
fn jpeg_compression_is_deterministic() {
    // a detailed pattern so the codec actually has work to do
    let mut pixels = Vec::new();
    for i in 0..64u32 {
        let v = if (i / 8 + i % 8) % 2 == 0 { 255 } else { 0 };
        pixels.push(px(v, 0, 255 - v, 255));
    }
    let img = Image::new(8, 8, pixels);
    let f = ImageFilter::JpegCompression { quality: 5 };
    let a = f.apply(img.clone()).unwrap();
    let b = f.apply(img.clone()).unwrap();
    assert_eq!(a.pixels, b.pixels);
    assert_eq!((a.width, a.height), (8, 8));
    // lossy at low quality: the round trip alters the pattern
    assert_ne!(a.pixels, img.pixels);
    // the codec's color model has no alpha: the result is opaque
    assert!(a.pixels.iter().all(|p| p.a == 255));
}

#[test]
fn jpeg_compression_of_empty_image_is_a_filter_error() {
    let img = Image::new(0, 0, Vec::new());
    let r = ImageFilter::JpegCompression { quality: 80 }.apply(img);
    assert_eq!(r.unwrap_err(), ErrorKind::FilterError);
}

#[test]
fn noise_with_fixed_seed_is_reproducible() {
    let img = uniform(4, 4, px(200, 180, 160, 140));
    let f = ImageFilter::Noise {
        strength: 60,
        seed: Some(12345),
    };
    let a = f.apply(img.clone()).unwrap();
    let b = f.apply(img.clone()).unwrap();
    assert_eq!(a.pixels, b.pixels);
    // darkening only, alpha untouched
    for (o, i) in a.pixels.iter().zip(img.pixels.iter()) {
        assert!(o.r <= i.r && o.g <= i.g && o.b <= i.b);
        assert_eq!(o.a, i.a);
    }
    // at this strength the keystream all but surely darkens something
    assert_ne!(a.pixels, img.pixels);
}

#[test]
fn noise_with_zero_strength_is_identity() {
    let img = uniform(2, 2, px(10, 20, 30, 40));
    let out = ImageFilter::Noise {
        strength: 0,
        seed: Some(1),
    }
    .apply(img.clone())
    .unwrap();
    assert_eq!(out.pixels, img.pixels);
}

#[test]
fn noise_without_seed_draws_a_fresh_one() {
    let img = uniform(16, 16, px(255, 255, 255, 255));
    let f = ImageFilter::Noise {
        strength: 100,
        seed: None,
    };
    let a = f.apply(img.clone()).unwrap();
    let b = f.apply(img.clone()).unwrap();
    // two fresh seeds give different keystreams, almost certainly
    assert_ne!(a.pixels, b.pixels);
}

#[test]
fn different_seeds_give_different_noise() {
    let img = uniform(8, 8, px(250, 250, 250, 255));
    let a = ImageFilter::Noise {
        strength: 80,
        seed: Some(1),
    }
    .apply(img.clone())
    .unwrap();
    let b = ImageFilter::Noise {
        strength: 80,
        seed: Some(2),
    }
    .apply(img.clone())
    .unwrap();
    assert_ne!(a.pixels, b.pixels);
}

#[test]
fn single_pixel_convolutions_clamp_to_edge() {
    // with clamp-to-edge borders, every tap of the window reads the one
    // pixel, so blurring and sharpening leave it unchanged
    let img = Image::new(1, 1, vec![px(123, 45, 67, 89)]);
    let blurred = ImageFilter::BoxBlur.apply(img.clone()).unwrap();
    assert_eq!(blurred.pixels, img.pixels);
    let sharpened = ImageFilter::Sharpen { strength: 175 }
        .apply(img.clone())
        .unwrap();
    assert_eq!(sharpened.pixels, img.pixels);
    let gaussian = ImageFilter::GaussianBlur { sigma_centi: 500 }
        .apply(img.clone())
        .unwrap();
    assert_eq!(gaussian.pixels, img.pixels);
}

#[test]
fn empty_images_pass_through_pointwise_filters() {
    let img = Image::new(0, 0, Vec::new());
    for f in [
        ImageFilter::Brightness { percentage: 150 },
        ImageFilter::Invert,
        ImageFilter::BoxBlur,
        ImageFilter::GaussianBlur { sigma_centi: 100 },
        ImageFilter::Saturate { percentage: 200 },
        ImageFilter::Noise {
            strength: 50,
            seed: Some(3),
        },
    ] {
        let out = f.apply(img.clone()).unwrap();
        assert_eq!(out.pixels.len(), 0);
    }
}

#[test]
fn resize_up_from_single_pixel_repeats_it() {
    let img = Image::new(1, 1, vec![px(7, 8, 9, 10)]);
    let out = ImageFilter::Resize {
        size: ResizeOption::Pixels(3, 2),
    }
    .apply(img)
    .unwrap();
    assert_eq!((out.width, out.height), (3, 2));
    assert!(out.pixels.iter().all(|p| *p == px(7, 8, 9, 10)));
}
