use rfdetr_ort::config::{Device, EngineConfig, Precision};
use rfdetr_ort::engine::{only_image, BatchStart, Engine, InputSource, Request};
use rfdetr_ort::error::Error;
use rfdetr_ort::float_bits::F32;
use rfdetr_ort::model::ModelInfo;
use rfdetr_ort::postprocess::Detection;
use rfdetr_ort::preprocess::preprocess_into_slice;
use rfdetr_ort::source_image::{Pixels, SourceImage};

fn tag(c: usize, v: u8) -> u32 {
    1000 * c as u32 + v as u32
}

fn same(v: F32) -> F32 {
    v
}

fn edges(center: F32, extent: F32, side: u32) -> (i32, i32) {
    (center.bits as i32, (center.bits + extent.bits + side) as i32)
}

fn info(w: usize, h: usize) -> ModelInfo {
    ModelInfo {
        input_width: w,
        input_height: h,
        input_channels: 3,
        num_queries: 2,
        num_classes: 1,
        max_batch: 4,
        input_name: "images".to_owned(),
        output_names: vec!["boxes".to_owned(), "logits".to_owned()],
    }
}

fn engine(w: usize, h: usize, pinned: bool) -> Engine<u32> {
    let config = EngineConfig { max_batch_size: 2, ..EngineConfig::default() };
    Engine::new(config, Device::Cuda, info(w, h), pinned)
}

fn rgb(width: u32, height: u32, first: u8) -> SourceImage {
    let raw = (0..3 * width * height).map(|i| first.wrapping_add(i as u8)).collect();
    SourceImage { width, height, pixels: Pixels::Rgb8(raw) }
}

fn run(start: BatchStart) -> Request {
    match start {
        BatchStart::Run(request) => request,
        BatchStart::Empty => panic!("nothing to run"),
    }
}

fn f(bits: u32) -> F32 {
    F32 { bits }
}

#[test]
fn a_new_engine_knows_its_device() {
    let e = engine(4, 2, true);
    assert_eq!(e.input_len, 24);
    assert_eq!(*e.active_device(), Device::Cuda);
    assert_eq!(e.active_precision(), Precision::Fp16);
    assert_eq!(e.model_info().input_name, "images");
    assert_eq!(e.config().max_batch_size, 2);
    let cpu: Engine<u32> = Engine::new(EngineConfig::default(), Device::Cpu, info(1, 1), false);
    assert_eq!(cpu.active_precision(), Precision::Fp32);
}

#[test]
fn an_empty_batch_has_nothing_to_run() {
    let mut e = engine(2, 1, false);
    let start = e.begin_batch(&vec![], &tag, &mut []).unwrap();
    assert!(matches!(start, BatchStart::Empty));
}

#[test]
fn a_batch_that_is_too_large_is_refused() {
    let mut e = engine(2, 1, false);
    e.preprocess_buf = vec![5];
    let images = vec![rgb(2, 1, 0), rgb(2, 1, 0), rgb(2, 1, 0)];
    let err = match e.begin_batch(&images, &tag, &mut []) {
        Err(err) => err,
        Ok(_) => panic!("accepted"),
    };
    assert!(matches!(err, Error::BatchTooLarge { requested: 3, max: 2 }));
    assert_eq!(e.preprocess_buf, vec![5]);
}

#[test]
fn a_single_image_goes_to_the_pinned_buffer() {
    let mut e = engine(2, 1, true);
    let mut pinned = vec![0u32; 6];
    let request = run(e.begin_batch(&vec![rgb(2, 1, 1)], &tag, &mut pinned).unwrap());
    assert_eq!(request.source, InputSource::Pinned);
    assert_eq!(request.shape, [1, 3, 1, 2]);
    assert_eq!(request.orig_sizes, vec![(2, 1)]);
    assert_eq!(pinned, vec![1, 4, 1002, 1005, 2003, 2006]);
    assert!(e.preprocess_buf.is_empty());
}

#[test]
fn a_batch_goes_to_the_buffer_image_by_image() {
    let mut e = engine(2, 1, true);
    let mut pinned = vec![7u32; 6];
    let small = SourceImage { width: 2, height: 1, pixels: Pixels::Luma8(vec![50, 60]) };
    let request = run(e.begin_batch(&vec![rgb(2, 1, 1), small], &tag, &mut pinned).unwrap());
    assert_eq!(request.source, InputSource::Buffer);
    assert_eq!(request.shape, [2, 3, 1, 2]);
    assert_eq!(request.orig_sizes, vec![(2, 1), (2, 1)]);
    assert_eq!(
        e.preprocess_buf,
        vec![1, 4, 1002, 1005, 2003, 2006, 50, 60, 1050, 1060, 2050, 2060]
    );
    assert_eq!(e.scratch_rgb, vec![50, 50, 50, 60, 60, 60]);
    assert_eq!(pinned, vec![7; 6]);
}

#[test]
fn the_outputs_of_a_batch_belong_to_their_images() {
    let mut e = engine(2, 1, false);
    let request = run(e.begin_batch(&vec![rgb(2, 1, 0), rgb(4, 8, 9)], &tag, &mut []).unwrap());
    let boxes: Vec<F32> = (0..16).map(f).collect();
    let logits = vec![f(10), f(20), f(30), f(40)];
    let out = e.finish_batch(&request, &boxes, &logits, f(20), &same, &edges);
    assert_eq!(out.len(), 2);
    let second = Detection { x: 4, y: 5, width: 8, height: 8, class_id: 0, confidence: f(20) };
    assert_eq!(out[0], vec![second]);
    let ids: Vec<(i32, i32, F32)> = out[1].iter().map(|d| (d.x, d.height, d.confidence)).collect();
    assert_eq!(ids, vec![(8, 19, f(30)), (12, 23, f(40))]);
    assert_eq!(e.boxes_out, boxes);
    assert_eq!(e.logits_out, logits);
    assert_eq!(only_image::<Error>(Ok(out)).unwrap().len(), 2);
    assert!(only_image::<Error>(Ok(vec![])).unwrap().is_empty());
}

#[test]
fn outputs_of_the_pinned_path_are_not_kept() {
    let mut e = engine(2, 1, true);
    let request =
        run(e.begin_batch(&vec![rgb(2, 1, 0)], &tag, &mut vec![0u32; 6]).unwrap());
    let boxes: Vec<F32> = (0..8).map(f).collect();
    let out = e.finish_batch(&request, &boxes, &[f(1), f(2)], f(0), &same, &edges);
    assert_eq!(out[0].len(), 2);
    assert!(e.boxes_out.is_empty());
}

#[test]
fn a_frame_of_the_models_size_is_swapped_to_rgb() {
    let bgr = vec![3u8, 2, 1, 6, 5, 4];
    let mut pinned = vec![0u32; 6];
    let mut e = engine(2, 1, true);
    let request = e.begin_frame(&bgr, 2, 1, &tag, &mut pinned);
    assert_eq!(request.source, InputSource::Pinned);
    assert_eq!(pinned, vec![1, 4, 1002, 1005, 2003, 2006]);
    let mut e = engine(2, 1, false);
    let request = e.begin_frame(&bgr, 2, 1, &tag, &mut []);
    assert_eq!(request.source, InputSource::Buffer);
    assert_eq!(request.shape, [1, 3, 1, 2]);
    assert_eq!(e.preprocess_buf, pinned);
    assert!(e.scratch_rgb.is_empty());
}

#[test]
fn a_frame_of_another_size_matches_the_rgb_image() {
    let image = rgb(9, 7, 3);
    let bgr: Vec<u8> = match &image.pixels {
        Pixels::Rgb8(raw) => raw.chunks_exact(3).flat_map(|p| [p[2], p[1], p[0]]).collect(),
        _ => panic!("not RGB"),
    };
    let mut by_frame = engine(4, 3, false);
    let request = by_frame.begin_frame(&bgr, 9, 7, &tag, &mut []);
    assert_eq!(request.orig_sizes, vec![(9, 7)]);
    let mut by_image = engine(4, 3, false);
    run(by_image.begin_batch(&vec![image], &tag, &mut []).unwrap());
    assert_eq!(by_frame.preprocess_buf, by_image.preprocess_buf);
    assert_ne!(by_frame.scratch_rgb, by_image.scratch_rgb);
}

#[test]
fn planes_are_copied_only_to_a_pinned_buffer_of_their_length() {
    let e = engine(2, 1, true);
    let mut pinned = vec![0u32; 6];
    let request = e.begin_from_nchw(&[1, 2, 3, 4, 5, 6], 640, 480, &mut pinned);
    assert_eq!(request.source, InputSource::Pinned);
    assert_eq!(request.orig_sizes, vec![(640, 480)]);
    assert_eq!(request.shape, [1, 3, 1, 2]);
    assert_eq!(pinned, vec![1, 2, 3, 4, 5, 6]);
    let request = e.begin_from_nchw(&[9, 9], 640, 480, &mut pinned);
    assert_eq!(request.source, InputSource::Caller);
    assert_eq!(pinned, vec![1, 2, 3, 4, 5, 6]);
    let plain = engine(2, 1, false);
    let request = plain.begin_from_nchw(&[1, 2, 3, 4, 5, 6], 1, 1, &mut []);
    assert_eq!(request.source, InputSource::Caller);
}

#[test]
fn a_single_frame_is_finished_with_its_own_size() {
    let e = engine(2, 1, false);
    let request = e.begin_from_nchw(&[0; 6], 100, 50, &mut []);
    let boxes: Vec<F32> = (0..8).map(f).collect();
    let dets = e.finish_single(&request, &boxes, &[f(5), f(1)], f(4), &same, &edges);
    let only = Detection { x: 0, y: 1, width: 102, height: 53, class_id: 0, confidence: f(5) };
    assert_eq!(dets, vec![only]);
}

#[test]
fn an_image_in_a_batch_is_prepared_as_on_its_own() {
    let (first, second) = (rgb(9, 7, 3), rgb(5, 6, 200));
    let mut e = engine(4, 3, true);
    let mut pinned = vec![0u32; 36];
    run(e.begin_batch(&vec![rgb(5, 6, 200)], &tag, &mut pinned).unwrap());
    run(e.begin_batch(&vec![first, second], &tag, &mut pinned.clone()).unwrap());
    assert_eq!(e.preprocess_buf.len(), 72);
    assert_eq!(e.preprocess_buf[36..], pinned[..]);
}

#[test]
fn one_image_gives_the_same_input_wherever_it_lies() {
    let mut pinned = vec![0u32; 36];
    run(engine(4, 3, true).begin_batch(&vec![rgb(9, 7, 3)], &tag, &mut pinned).unwrap());
    let mut plain = engine(4, 3, false);
    run(plain.begin_batch(&vec![rgb(9, 7, 3)], &tag, &mut []).unwrap());
    assert_eq!(plain.preprocess_buf, pinned);
}

#[test]
fn a_refused_batch_is_not_looked_at() {
    let broken = || SourceImage { width: 9, height: 9, pixels: Pixels::Rgb8(vec![]) };
    let mut e = engine(usize::MAX / 8, 1, false);
    let images = vec![broken(), broken(), broken()];
    let refused = e.begin_batch(&images, &tag, &mut []);
    assert!(matches!(refused, Err(Error::BatchTooLarge { requested: 3, max: 2 })));
    assert!(matches!(e.begin_batch(&vec![], &tag, &mut []), Ok(BatchStart::Empty)));
}

/// A stand-in for a model that treats the images of a batch one by one.
fn model(planes: &[u32]) -> (Vec<F32>, Vec<F32>) {
    let sum = planes.iter().sum::<u32>();
    let boxes = (0..8).map(|i| f(sum % 97 + i)).collect();
    (boxes, vec![f(sum % 50), f(sum % 70)])
}

#[test]
fn a_batch_equals_single_calls() {
    let pictures = || vec![rgb(9, 7, 3), rgb(5, 6, 200)];
    let mut e = engine(4, 3, false);
    let request = run(e.begin_batch(&pictures(), &tag, &mut []).unwrap());
    let (mut boxes, mut logits) = (Vec::new(), Vec::new());
    for planes in e.preprocess_buf.chunks(36) {
        let (b, l) = model(planes);
        boxes.extend(b);
        logits.extend(l);
    }
    let batch = e.finish_batch(&request, &boxes, &logits, f(10), &same, &edges);
    for (image, expected) in pictures().into_iter().zip(batch) {
        let request = run(e.begin_batch(&vec![image], &tag, &mut []).unwrap());
        let (boxes, logits) = model(&e.preprocess_buf);
        let single = e.finish_batch(&request, &boxes, &logits, f(10), &same, &edges);
        assert_eq!(only_image::<Error>(Ok(single)).unwrap(), expected);
    }
}

#[test]
fn prepared_planes_equal_the_image() {
    for pinned in [true, false] {
        let mut e = engine(4, 3, pinned);
        let mut lent = vec![0u32; if pinned { 36 } else { 0 }];
        let (mut nchw, mut scratch) = (vec![0u32; 36], vec![8u8; 5]);
        preprocess_into_slice(&rgb(9, 7, 3), 4, 3, &tag, &mut nchw, &mut scratch);
        let request = e.begin_from_nchw(&nchw, 9, 7, &mut lent);
        if pinned {
            assert_eq!(lent, nchw);
        }
        let (boxes, logits) = model(&nchw);
        let prepared = e.finish_single(&request, &boxes, &logits, f(10), &same, &edges);

        let request = run(e.begin_batch(&vec![rgb(9, 7, 3)], &tag, &mut lent).unwrap());
        let tensor = if pinned { &lent } else { &e.preprocess_buf };
        assert_eq!(*tensor, nchw);
        let (boxes, logits) = model(tensor);
        let own = e.finish_batch(&request, &boxes, &logits, f(10), &same, &edges);
        assert_eq!(only_image::<Error>(Ok(own)).unwrap(), prepared);
    }
}

/// Both steps of a batch around a session that gives `outputs`.
fn infer_batch(
    e: &mut Engine<u32>,
    images: Vec<SourceImage>,
    outputs: Result<(Vec<F32>, Vec<F32>), Error>,
) -> Result<Vec<Vec<Detection>>, Error> {
    let request = match e.begin_batch(&images, &tag, &mut [])? {
        BatchStart::Empty => return Ok(vec![]),
        BatchStart::Run(request) => request,
    };
    let (boxes, logits) = outputs?;
    Ok(e.finish_batch(&request, &boxes, &logits, f(10), &same, &edges))
}

#[test]
fn one_image_is_a_batch_of_one() {
    let outputs = || ((0..8).map(f).collect::<Vec<F32>>(), vec![f(20), f(30)]);
    let batch = infer_batch(&mut engine(4, 3, false), vec![rgb(9, 7, 3)], Ok(outputs())).unwrap();
    let single =
        only_image(infer_batch(&mut engine(4, 3, false), vec![rgb(9, 7, 3)], Ok(outputs())));
    assert_eq!(batch.len(), 1);
    assert_eq!(single.unwrap(), batch[0]);

    let lost = || Err(Error::Ort("lost".to_owned()));
    let single = only_image(infer_batch(&mut engine(4, 3, false), vec![rgb(9, 7, 3)], lost()));
    assert!(matches!(single, Err(Error::Ort(why)) if why == "lost"));

    let mut none = engine(4, 3, false);
    none.config.max_batch_size = 0;
    let refused = only_image(infer_batch(&mut none, vec![rgb(9, 7, 3)], Ok(outputs())));
    assert!(matches!(refused, Err(Error::BatchTooLarge { requested: 1, max: 0 })));
}
