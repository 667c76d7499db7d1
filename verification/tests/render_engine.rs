use ruin_me_image::error::ErrorKind;
use ruin_me_image::filter::ImageFilter;
use ruin_me_image::queue::CommandQueue;
use ruin_me_image::raster::{Image, Rgba};
use ruin_me_image::worker::{RenderJob, WorkerResult, run_render};

fn px(r: u8, g: u8, b: u8, a: u8) -> Rgba {
    Rgba { r, g, b, a }
}

fn mid_gray_2x2() -> Image {
    Image::new(2, 2, vec![px(128, 128, 128, 255); 4])
}

#[test]
fn execute_skips_disabled_commands() {
    let mut q = CommandQueue::new();
    q.add(ImageFilter::Brightness { percentage: 200 });
    q.add(ImageFilter::Invert);
    q.add(ImageFilter::BoxBlur);
    for i in 0..3 {
        assert!(q.toggle(i, false).is_ok());
    }
    let img = mid_gray_2x2();
    let out = q.execute(img.clone()).unwrap();
    assert_eq!(out.pixels, img.pixels);
    // render is non-destructive: the queue is intact and reusable
    assert_eq!(q.len(), 3);
    let out2 = q.execute(img.clone()).unwrap();
    assert_eq!(out2.pixels, img.pixels);
}

#[test]
fn execute_applies_enabled_commands_in_order() {
    // brightness 200 pushes mid-gray to 255; the disabled invert is
    // skipped; blurring a uniform image keeps it.
    let mut q = CommandQueue::new();
    q.add(ImageFilter::Brightness { percentage: 200 });
    q.add(ImageFilter::Invert);
    q.add(ImageFilter::BoxBlur);
    assert!(q.toggle(1, false).is_ok());
    let out = q.execute(mid_gray_2x2()).unwrap();
    assert_eq!(out.pixels, vec![px(255, 255, 255, 255); 4]);
}

#[test]
fn execute_order_matters() {
    let mut a = CommandQueue::new();
    a.add(ImageFilter::Brightness { percentage: 150 });
    a.add(ImageFilter::Invert);
    let mut b = CommandQueue::new();
    b.add(ImageFilter::Invert);
    b.add(ImageFilter::Brightness { percentage: 150 });
    let img = Image::new(1, 1, vec![px(100, 100, 100, 255)]);
    let oa = a.execute(img.clone()).unwrap();
    let ob = b.execute(img).unwrap();
    // a: 100*1.5 = 150, inverted 105; b: inverted 155, *1.5 = 232
    assert_eq!(oa.pixels[0].r, 105);
    assert_eq!(ob.pixels[0].r, 232);
}

#[test]
fn run_render_emits_one_progress_per_command_then_finished() {
    let mut q = CommandQueue::new();
    q.add(ImageFilter::Brightness { percentage: 200 });
    q.add(ImageFilter::Invert);
    q.add(ImageFilter::BoxBlur);
    assert!(q.toggle(1, false).is_ok());
    let msgs = run_render(&q, mid_gray_2x2());
    assert_eq!(msgs.len(), 4);
    for (i, m) in msgs.iter().take(3).enumerate() {
        match m {
            WorkerResult::Progress(n) => assert_eq!(*n, i + 1),
            _ => panic!("expected progress message"),
        }
    }
    match &msgs[3] {
        WorkerResult::Finished(img) => {
            assert_eq!(img.pixels, vec![px(255, 255, 255, 255); 4]);
        }
        _ => panic!("expected a finished message"),
    }
}

#[test]
fn run_render_of_empty_queue_returns_the_image() {
    let q = CommandQueue::new();
    let msgs = run_render(&q, mid_gray_2x2());
    assert_eq!(msgs.len(), 1);
    match &msgs[0] {
        WorkerResult::Finished(img) => assert_eq!(img.pixels, mid_gray_2x2().pixels),
        _ => panic!("expected a finished message"),
    }
}

#[test]
fn run_render_reports_a_filter_failure_and_stops() {
    let mut q = CommandQueue::new();
    q.add(ImageFilter::Invert);
    q.add(ImageFilter::JpegCompression { quality: 50 });
    q.add(ImageFilter::BoxBlur);
    // the codec rejects an empty image, so the render fails at step two
    let img = Image::new(0, 0, Vec::new());
    let msgs = run_render(&q, img);
    assert_eq!(msgs.len(), 2);
    match msgs[0] {
        WorkerResult::Progress(n) => assert_eq!(n, 1),
        _ => panic!("expected progress message"),
    }
    match msgs[1] {
        WorkerResult::Error(e) => assert_eq!(e, ErrorKind::FilterError),
        _ => panic!("expected an error message"),
    }
}

#[test]
fn render_job_steps_through_and_ends() {
    let mut q = CommandQueue::new();
    q.add(ImageFilter::Invert);
    q.add(ImageFilter::Brightness { percentage: 100 });
    let mut job = RenderJob::new(&q, mid_gray_2x2());
    match job.step() {
        Some(WorkerResult::Progress(1)) => {}
        _ => panic!("expected first progress"),
    }
    match job.step() {
        Some(WorkerResult::Progress(2)) => {}
        _ => panic!("expected second progress"),
    }
    match job.step() {
        Some(WorkerResult::Finished(img)) => {
            assert_eq!(img.pixels, vec![px(127, 127, 127, 255); 4]);
        }
        _ => panic!("expected finished"),
    }
    assert!(job.step().is_none());
    assert!(job.step().is_none());
}

#[test]
fn render_job_snapshot_ignores_later_queue_edits() {
    let mut q = CommandQueue::new();
    q.add(ImageFilter::Invert);
    let mut job = RenderJob::new(&q, mid_gray_2x2());
    // mutate the source queue after submission
    q.add(ImageFilter::Brightness { percentage: 0 });
    assert!(q.remove(0).is_ok());
    let mut terminal = None;
    while let Some(m) = job.step() {
        terminal = Some(m);
    }
    match terminal {
        Some(WorkerResult::Finished(img)) => {
            assert_eq!(img.pixels, vec![px(127, 127, 127, 255); 4]);
        }
        _ => panic!("expected finished"),
    }
}
