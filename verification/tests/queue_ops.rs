use ruin_me_image::error::ErrorKind;
use ruin_me_image::filter::ImageFilter;
use ruin_me_image::queue::{CommandQueue, FilterCommand};

fn sample_queue() -> CommandQueue {
    let mut q = CommandQueue::new();
    q.add(ImageFilter::Brightness { percentage: 120 });
    q.add(ImageFilter::Invert);
    q.add(ImageFilter::BoxBlur);
    q
}

#[test]
fn add_appends_enabled() {
    let mut q = CommandQueue::new();
    assert!(q.is_empty());
    q.add(ImageFilter::Invert);
    assert_eq!(q.len(), 1);
    let c = q.get(0).unwrap();
    assert!(c.enabled);
    assert_eq!(c.filter, ImageFilter::Invert);
}

#[test]
fn remove_shifts_down() {
    let mut q = sample_queue();
    assert!(q.remove(1).is_ok());
    assert_eq!(q.len(), 2);
    assert_eq!(
        q.get(0).unwrap().filter,
        ImageFilter::Brightness { percentage: 120 }
    );
    assert_eq!(q.get(1).unwrap().filter, ImageFilter::BoxBlur);
}

#[test]
fn remove_out_of_range_leaves_queue_unchanged() {
    let mut q = sample_queue();
    let r = q.remove(3);
    assert_eq!(r, Err(ErrorKind::IndexError));
    assert_eq!(q.len(), 3);
    assert_eq!(q.get(1).unwrap().filter, ImageFilter::Invert);
}

#[test]
fn swap_exchanges_positions() {
    let mut q = sample_queue();
    assert!(q.swap(0, 2).is_ok());
    assert_eq!(q.get(0).unwrap().filter, ImageFilter::BoxBlur);
    assert_eq!(
        q.get(2).unwrap().filter,
        ImageFilter::Brightness { percentage: 120 }
    );
}

#[test]
fn swap_twice_restores_order() {
    let mut q = sample_queue();
    assert!(q.swap(0, 2).is_ok());
    assert!(q.swap(0, 2).is_ok());
    assert_eq!(
        q.get(0).unwrap().filter,
        ImageFilter::Brightness { percentage: 120 }
    );
    assert_eq!(q.get(1).unwrap().filter, ImageFilter::Invert);
    assert_eq!(q.get(2).unwrap().filter, ImageFilter::BoxBlur);
}

#[test]
fn swap_same_index_is_noop() {
    let mut q = sample_queue();
    assert!(q.swap(1, 1).is_ok());
    assert_eq!(q.get(1).unwrap().filter, ImageFilter::Invert);
}

#[test]
fn swap_out_of_range_leaves_queue_unchanged() {
    let mut q = sample_queue();
    let r = q.swap(0, 3);
    assert_eq!(r, Err(ErrorKind::IndexError));
    let r2 = q.swap(5, 0);
    assert_eq!(r2, Err(ErrorKind::IndexError));
    assert_eq!(q.len(), 3);
    assert_eq!(
        q.get(0).unwrap().filter,
        ImageFilter::Brightness { percentage: 120 }
    );
}

#[test]
fn toggle_flips_flag_and_keeps_order() {
    let mut q = sample_queue();
    assert!(q.toggle(1, false).is_ok());
    let c = q.get(1).unwrap();
    assert!(!c.enabled);
    assert_eq!(c.filter, ImageFilter::Invert);
    assert!(q.toggle(1, true).is_ok());
    assert!(q.get(1).unwrap().enabled);
}

#[test]
fn toggle_out_of_range_fails() {
    let mut q = sample_queue();
    assert_eq!(q.toggle(9, false), Err(ErrorKind::IndexError));
    assert!(q.get(0).unwrap().enabled);
}

#[test]
fn into_iter_yields_in_order() {
    let q = sample_queue();
    let filters: Vec<ImageFilter> = q.into_iter().map(|c: FilterCommand| c.filter).collect();
    assert_eq!(
        filters,
        vec![
            ImageFilter::Brightness { percentage: 120 },
            ImageFilter::Invert,
            ImageFilter::BoxBlur,
        ]
    );
}

#[test]
fn filter_registry_has_nine_kinds_with_names() {
    let defaults = ImageFilter::defaults();
    assert_eq!(defaults.len(), 9);
    let names: Vec<&str> = defaults.iter().map(|f| f.name()).collect();
    assert_eq!(
        names,
        vec![
            "JPEG Compression",
            "Brightness",
            "Sharpen",
            "Box Blur",
            "Gaussian Blur",
            "Saturate",
            "Noise",
            "Resize",
            "Invert",
        ]
    );
}
