use denoiser::denoiser_app::{DenoiserApp, WINDOW_HEIGHT, WINDOW_WIDTH};
use denoiser::denoiser_params::DenoiserParams;
use denoiser::error::DenoiseError;
use denoiser::ocr_wrapper::{join_lines, OcrFailure, OcrWorker};
use denoiser::utils::ColorImage;
use image::{DynamicImage, GenericImageView, ImageFormat, Rgb, RgbImage};
use std::io::Cursor;

fn mask(level: u8) -> ColorImage {
    ColorImage { size: [1, 1], pixels: vec![[level, level, level, 255]] }
}

fn picture(width: u32, height: u32) -> Vec<u8> {
    let mut file = Cursor::new(Vec::new());
    DynamicImage::ImageRgb8(RgbImage::from_pixel(width, height, Rgb([90, 0, 0])))
        .write_to(&mut file, ImageFormat::Png)
        .unwrap();
    file.into_inner()
}

#[test]
fn settings_at_the_start() {
    let params = DenoiserParams::default();
    assert_eq!(params.path, "");
    assert_eq!((params.block, params.delta), (8, 10));
    assert_eq!((params.erase_k, params.dilate_k, params.threshold), (3, 1, 1));
    assert_eq!((params.line_threshold, params.aperture, params.l2_gradient), (30, 3, true));
    assert_eq!((params.hl_thickness, params.hl_step), (1, 10));
    assert_eq!((params.vl_thickness, params.vl_step), (1, 10));
}

#[test]
fn settings_are_copied() {
    let mut app = DenoiserApp::new("captcha.png".to_string());
    app.params.block = 17;
    let task = app.denoise();
    app.params.block = 4;
    assert_eq!(task.params.path, "captcha.png");
    assert_eq!(task.params.block, 17);
    assert_eq!(task.params.delta, 10);
}

#[test]
fn nothing_to_show_at_the_start() {
    let mut app = DenoiserApp::default();
    let frame = app.poll();
    assert!(frame.orig.is_none() && frame.denoised.is_none());
    assert!(frame.density.is_none() && frame.lines.is_none());
    app.ocr();
    assert!(app.ocr_worker.jobs.is_empty());
}

#[test]
fn frames_show_in_order() {
    let mut app = DenoiserApp::default();
    app.show_original(vec![1]);
    app.show_original(vec![2]);
    app.deliver(mask(1), vec![10], vec![20]);
    app.deliver(mask(2), vec![11], vec![21]);
    let first = app.poll();
    assert_eq!(first.orig, Some(vec![1]));
    assert_eq!(first.denoised, Some(vec![10]));
    assert_eq!(first.density, Some(vec![20]));
    assert_eq!(first.lines.unwrap().pixels[0][0], 1);
    let second = app.poll();
    assert_eq!(second.orig, Some(vec![2]));
    assert_eq!(second.denoised, Some(vec![11]));
    assert_eq!(second.density, Some(vec![21]));
    assert_eq!(second.lines.unwrap().pixels[0][0], 2);
    assert!(app.poll().orig.is_none());
    assert_eq!(app.result_holder, Some(vec![11]));
}

#[test]
fn the_latest_result_is_read() {
    let mut app = DenoiserApp::default();
    app.deliver(mask(1), vec![10], vec![20]);
    app.deliver(mask(2), vec![11], vec![21]);
    app.ocr();
    app.ocr();
    assert_eq!(app.ocr_worker.jobs.len(), 2);
    assert_eq!(app.ocr_worker.next_job().unwrap().bytes, vec![11]);
    assert_eq!(app.result_holder, Some(vec![11]));
}

#[test]
fn texts_come_in_the_order_of_the_jobs() {
    let mut worker = OcrWorker::new();
    worker.submit(vec![1]);
    worker.submit(vec![2]);
    worker.submit(vec![3]);
    while let Some(job) = worker.next_job() {
        worker.finish(format!("text {}", job.bytes[0]));
    }
    assert_eq!(worker.text, Some("text 3".to_string()));
    assert_eq!(worker.try_recv(), Some("text 1".to_string()));
    assert_eq!(worker.try_recv(), Some("text 2".to_string()));
    assert_eq!(worker.try_recv(), Some("text 3".to_string()));
    assert_eq!(worker.try_recv(), None);
    assert_eq!(worker.text, Some("text 3".to_string()));
}

#[test]
fn a_stopped_worker_takes_nothing() {
    let mut worker = OcrWorker::new();
    worker.submit(vec![1]);
    worker.finish("seen".to_string());
    worker.stop();
    worker.submit(vec![2]);
    assert!(worker.next_job().is_none());
    assert_eq!(worker.try_recv(), Some("seen".to_string()));
}

#[test]
fn lines_are_joined() {
    let join = |lines: &[&str]| join_lines(&lines.iter().map(|l| l.to_string()).collect());
    assert_eq!(join(&[]), "");
    assert_eq!(join(&["one"]), "one");
    assert_eq!(join(&["one", "", "zwölf"]), "one\n\nzwölf");
}

#[test]
fn a_run_up_to_the_search() {
    let mut app = DenoiserApp::new("captcha.png".to_string());
    app.params.aperture = 4;
    app.params.hl_step = 5;
    let task = app.denoise();
    let resized = task.scale(&picture(800, 800)).unwrap();
    let scaled = image::load_from_memory(&resized).unwrap();
    assert_eq!(scaled.dimensions(), (WINDOW_HEIGHT, WINDOW_HEIGHT));
    assert_eq!(WINDOW_WIDTH, 400);
    let request = task.prepare(&resized).ok().unwrap();
    assert_eq!(request.aperture, 5);
    assert_eq!(request.line_threshold, 30);
    assert!(request.l2_gradient);
    let searched = image::load_from_memory(&request.png).unwrap().to_rgba8();
    assert_eq!(searched.dimensions(), (200, 200));
    for (x, y, pixel) in searched.enumerate_pixels() {
        let white = y % 5 < 1 || x % 10 < 1;
        assert_eq!(pixel.0, if white { [255; 4] } else { [90, 0, 0, 255] });
    }
}

#[test]
fn a_run_without_a_picture() {
    let task = DenoiserApp::default().denoise();
    assert_eq!(task.scale(b"text"), Err(DenoiseError::Undecodable));
    assert!(matches!(task.prepare(&vec![]), Err(DenoiseError::Undecodable)));
    let mut app = DenoiserApp::default();
    app.params.vl_thickness = 0;
    assert!(matches!(app.denoise().prepare(&picture(4, 4)), Err(DenoiseError::Geometry)));
}

#[test]
fn a_bad_job_ends_the_worker() {
    let mut worker = OcrWorker::new();
    worker.submit(vec![1]);
    worker.submit(vec![2]);
    worker.submit(vec![0]);
    while let Some(job) = worker.next_job() {
        let outcome = match job.bytes[0] {
            0 => Err(OcrFailure::Undecodable),
            n => Ok(format!("text {n}")),
        };
        worker.settle(outcome);
        worker.submit(vec![7]);
    }
    assert!(!worker.running);
    assert_eq!(worker.text, Some("text 2".to_string()));
    assert_eq!(worker.try_recv(), Some("text 1".to_string()));
    assert_eq!(worker.try_recv(), Some("text 2".to_string()));
    assert_eq!(worker.try_recv(), None);
}

#[test]
fn fetching_between_jobs_keeps_the_order() {
    let mut worker = OcrWorker::new();
    worker.submit(vec![1]);
    let first = worker.next_job().unwrap();
    worker.submit(vec![2]);
    assert_eq!(worker.try_recv(), None);
    worker.settle(Ok(format!("text {}", first.bytes[0])));
    let second = worker.next_job().unwrap();
    assert_eq!(worker.try_recv(), Some("text 1".to_string()));
    worker.settle(Ok(format!("text {}", second.bytes[0])));
    worker.submit(vec![3]);
    assert_eq!(worker.try_recv(), Some("text 2".to_string()));
    assert_eq!(worker.try_recv(), None);
    assert_eq!(worker.next_job().unwrap().bytes, vec![3]);
}

#[test]
fn the_only_run_delivers_in_order() {
    let mut app = DenoiserApp::default();
    app.show_original(vec![1]);
    let during = app.poll();
    assert_eq!(during.orig, Some(vec![1]));
    assert!(during.lines.is_none() && during.denoised.is_none() && during.density.is_none());
    assert_eq!(app.result_holder, None);
    app.deliver(mask(9), vec![10], vec![20]);
    let ended = app.poll();
    assert!(ended.orig.is_none() && ended.lines.is_some());
    assert_eq!((ended.denoised, ended.density), (Some(vec![10]), Some(vec![20])));
    assert_eq!(app.result_holder, Some(vec![10]));
}

#[test]
fn cleaning_settings_do_not_matter_to_a_run() {
    let plain = DenoiserApp::default();
    let mut other = DenoiserApp::default();
    other.params.block = 0;
    other.params.delta = -4;
    other.params.erase_k = 77;
    other.params.dilate_k = 78;
    other.params.threshold = 79;
    let file = picture(90, 70);
    let (a, b) = (plain.denoise(), other.denoise());
    let (scaled_a, scaled_b) = (a.scale(&file).unwrap(), b.scale(&file).unwrap());
    assert_eq!(scaled_a, scaled_b);
    let (a, b) = (a.prepare(&scaled_a).ok().unwrap(), b.prepare(&scaled_b).ok().unwrap());
    assert_eq!((a.png, a.aperture, a.line_threshold), (b.png, b.aperture, b.line_threshold));
    assert_eq!(a.l2_gradient, b.l2_gradient);
}

#[test]
fn an_empty_picture_is_not_searched() {
    let empty = [b"farbfeld".as_slice(), &[0; 8]].concat();
    let outcome = DenoiserApp::default().denoise().prepare(&empty);
    assert!(matches!(outcome, Err(DenoiseError::Unencodable)));
}
