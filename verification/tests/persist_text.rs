use ruin_me_image::error::ErrorKind;
use ruin_me_image::filter::{ImageFilter, ResizeOption};
use ruin_me_image::queue::CommandQueue;

#[test]
fn serialize_is_the_documented_text_form() {
    let mut q = CommandQueue::new();
    q.add(ImageFilter::Brightness { percentage: 200 });
    q.add(ImageFilter::Invert);
    assert!(q.toggle(1, false).is_ok());
    assert_eq!(q.serialize(), "+brightness 200;-invert;");
}

#[test]
fn round_trip_all_filter_kinds() {
    let mut q = CommandQueue::new();
    q.add(ImageFilter::JpegCompression { quality: 80 });
    q.add(ImageFilter::Brightness { percentage: 0 });
    q.add(ImageFilter::Sharpen { strength: 200 });
    q.add(ImageFilter::BoxBlur);
    q.add(ImageFilter::GaussianBlur { sigma_centi: 250 });
    q.add(ImageFilter::Saturate { percentage: 400 });
    q.add(ImageFilter::Noise {
        strength: 10,
        seed: None,
    });
    q.add(ImageFilter::Noise {
        strength: 100,
        seed: Some(u64::MAX),
    });
    q.add(ImageFilter::Resize {
        size: ResizeOption::Pixels(128, 96),
    });
    q.add(ImageFilter::Resize {
        size: ResizeOption::Percentage(50, 1000),
    });
    q.add(ImageFilter::Invert);
    assert!(q.toggle(2, false).is_ok());
    assert!(q.toggle(7, false).is_ok());

    let text = q.serialize();
    let mut back = CommandQueue::new();
    assert!(back.deserialize(&text).is_ok());
    assert_eq!(back.len(), q.len());
    for i in 0..q.len() {
        let a = q.get(i).unwrap();
        let b = back.get(i).unwrap();
        assert_eq!(a.enabled, b.enabled);
        assert_eq!(a.filter, b.filter);
    }
}

#[test]
fn round_trip_after_reordering() {
    let mut q = CommandQueue::new();
    q.add(ImageFilter::Invert);
    q.add(ImageFilter::BoxBlur);
    q.add(ImageFilter::Brightness { percentage: 137 });
    assert!(q.swap(0, 2).is_ok());
    assert!(q.remove(1).is_ok());
    assert!(q.toggle(0, false).is_ok());
    let text = q.serialize();
    assert_eq!(text, "-brightness 137;+invert;");
    let mut back = CommandQueue::new();
    assert!(back.deserialize(&text).is_ok());
    assert_eq!(back.serialize(), text);
}

#[test]
fn empty_queue_serializes_to_empty_text() {
    let q = CommandQueue::new();
    assert_eq!(q.serialize(), "");
    let mut back = CommandQueue::new();
    assert!(back.deserialize("").is_ok());
    assert!(back.is_empty());
}

fn expect_format_error(text: &str) {
    let mut q = CommandQueue::new();
    q.add(ImageFilter::BoxBlur);
    let r = q.deserialize(text);
    assert_eq!(r, Err(ErrorKind::FormatError));
    // replace-on-success: the old content is untouched
    assert_eq!(q.len(), 1);
    assert_eq!(q.get(0).unwrap().filter, ImageFilter::BoxBlur);
}

#[test]
fn unknown_kind_fails() {
    expect_format_error("+sepia 10;");
}

#[test]
fn out_of_range_parameter_fails() {
    expect_format_error("+brightness 201;");
    expect_format_error("+jpeg 0;");
    expect_format_error("+jpeg 101;");
    expect_format_error("+sharpen 201;");
    expect_format_error("+gaussianblur 501;");
    expect_format_error("+saturate 401;");
    expect_format_error("+noise 101;");
    expect_format_error("+resize percent 1001 10;");
}

#[test]
fn malformed_payload_fails() {
    expect_format_error("junk");
    expect_format_error("+brightness 200");
    expect_format_error("brightness 200;");
    expect_format_error("+brightness;");
    expect_format_error("+brightness 007;");
    expect_format_error("+brightness  7;");
    expect_format_error("+noise 10 x;");
    expect_format_error("+invert; ");
    expect_format_error("+resize pixels 4;");
    expect_format_error("+jpeg 18446744073709551616;");
}

#[test]
fn deserialize_replaces_previous_content() {
    let mut q = CommandQueue::new();
    q.add(ImageFilter::BoxBlur);
    assert!(q.deserialize("+invert;+noise 5 77;").is_ok());
    assert_eq!(q.len(), 2);
    assert_eq!(q.get(0).unwrap().filter, ImageFilter::Invert);
    assert_eq!(
        q.get(1).unwrap().filter,
        ImageFilter::Noise {
            strength: 5,
            seed: Some(77),
        }
    );
}
