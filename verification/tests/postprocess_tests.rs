use rfdetr_ort::float_bits::{F32, F64};
use rfdetr_ort::postprocess::{best_class, postprocess, Detection};

fn bits(values: &[f32]) -> Vec<F32> {
    values.iter().map(|v| F32 { bits: v.to_bits() }).collect()
}

fn value(v: F32) -> f32 {
    f32::from_bits(v.bits)
}

fn sigmoid(x: F32) -> F32 {
    let x = value(x).clamp(-88.0, 88.0);
    F32 { bits: (1.0 / (1.0 + (-x).exp())).to_bits() }
}

fn edges(center: F32, extent: F32, side: u32) -> (i32, i32) {
    let (c, e, s) = (value(center), value(extent), side as f32);
    (((c - 0.5 * e).clamp(0.0, 1.0) * s) as i32, ((c + 0.5 * e).clamp(0.0, 1.0) * s) as i32)
}

fn run(boxes: &[f32], logits: &[f32], nq: usize, nc: usize, conf: f32) -> Vec<Detection> {
    let threshold = F32 { bits: (conf / (1.0 - conf)).ln().to_bits() };
    postprocess(&bits(boxes), &bits(logits), nq, nc, 200, 100, threshold, &sigmoid, &edges)
}

#[test]
fn a_query_above_the_threshold_becomes_a_box() {
    let dets = run(&[0.5, 0.5, 0.5, 0.2], &[-3.0, 2.0, 1.0], 1, 3, 0.5);
    assert_eq!(dets.len(), 1);
    let d = dets[0];
    assert_eq!((d.x, d.y, d.width, d.height, d.class_id), (50, 40, 100, 20, 1));
    assert!((value(d.confidence) - 0.880797).abs() < 1e-6);
}

#[test]
fn queries_below_the_threshold_are_left_out() {
    let boxes = [0.1, 0.1, 0.1, 0.1, 0.2, 0.2, 0.1, 0.1, 0.3, 0.3, 0.1, 0.1];
    let logits = [-1.0, -2.0, 0.5, 3.0, 0.0, -0.1];
    let dets = run(&boxes, &logits, 3, 2, 0.5);
    let kept: Vec<(i32, usize)> = dets.iter().map(|d| (d.y, d.class_id)).collect();
    assert_eq!(kept, vec![(15, 1), (25, 0)]);
    assert_eq!(run(&boxes, &logits, 3, 2, 0.2).len(), 3);
    assert_eq!(run(&boxes, &logits, 3, 2, 0.99).len(), 0);
}

#[test]
fn a_box_is_cut_off_at_the_image() {
    let dets = run(&[0.0, 1.0, 1.0, 4.0], &[9.0], 1, 1, 0.5);
    assert_eq!((dets[0].x, dets[0].width), (0, 100));
    assert_eq!((dets[0].y, dets[0].height), (0, 100));
}

#[test]
fn a_box_with_crossed_edges_has_no_extent() {
    let dets = run(&[0.5, 0.5, -0.5, 0.1], &[9.0], 1, 1, 0.5);
    assert_eq!((dets[0].x, dets[0].width), (150, 0));
}

#[test]
fn the_first_of_equal_logits_wins() {
    let best = best_class(&bits(&[1.0, 2.0, 2.0, -0.0]), 0, 4);
    assert_eq!((best.class_id, value(best.logit)), (1, 2.0));
    let zero = best_class(&bits(&[-0.0, 0.0]), 0, 2);
    assert_eq!((zero.class_id, zero.logit.bits), (0, 0x8000_0000));
}

#[test]
fn nan_never_wins() {
    let best = best_class(&bits(&[f32::NAN, -5.0, f32::NAN]), 0, 3);
    assert_eq!((best.class_id, value(best.logit)), (1, -5.0));
    let none = best_class(&bits(&[f32::NAN, f32::NEG_INFINITY]), 0, 2);
    assert_eq!((none.class_id, value(none.logit)), (0, f32::NEG_INFINITY));
    let empty = best_class(&[], 0, 0);
    assert_eq!((empty.class_id, value(empty.logit)), (0, f32::NEG_INFINITY));
}

#[test]
fn a_threshold_that_is_no_number_keeps_everything() {
    let nan = F32 { bits: f32::NAN.to_bits() };
    let dets =
        postprocess(&bits(&[0.5; 8]), &bits(&[-9.0, -8.0]), 2, 1, 10, 10, nan, &sigmoid, &edges);
    assert_eq!(dets.len(), 2);
}

#[test]
fn the_order_of_bit_patterns_is_the_order_of_numbers() {
    let samples = [
        f32::NEG_INFINITY,
        -1.5e30,
        -1.0,
        -1e-40,
        -0.0,
        0.0,
        1e-45,
        1.0,
        3.5,
        f32::MAX,
        f32::INFINITY,
        f32::NAN,
    ];
    for a in samples {
        for b in samples {
            let (fa, fb) = (F32 { bits: a.to_bits() }, F32 { bits: b.to_bits() });
            assert_eq!(fa.lt(&fb), a < b, "{} < {}", a, b);
            assert_eq!(fa.is_nan(), a.is_nan());
            let (da, db) = (a as f64, b as f64);
            let (ga, gb) = (F64 { bits: da.to_bits() }, F64 { bits: db.to_bits() });
            assert_eq!(ga.is_nan(), da.is_nan());
            if !da.is_nan() && !db.is_nan() {
                assert_eq!(ga.gt(&gb), da > db);
            }
        }
    }
}

#[test]
fn scoring_the_winner_is_enough() {
    let logits = bits(&[-2.0, 90.0, 1.5, 120.0, -0.5]);
    let best = best_class(&logits, 0, 5);
    assert_eq!(best.class_id, 3);
    assert!(logits.iter().all(|l| value(sigmoid(*l)) <= value(sigmoid(best.logit))));
}

#[test]
fn queries_put_together_keep_their_detections() {
    let (b1, l1) = ([0.1, 0.2, 0.1, 0.1, 0.5, 0.5, 0.4, 0.2], [1.0, -1.0, -3.0, -4.0]);
    let (b2, l2) = ([0.7, 0.8, 0.2, 0.3], [-2.0, 5.0]);
    let boxes: Vec<f32> = b1.iter().chain(&b2).copied().collect();
    let logits: Vec<f32> = l1.iter().chain(&l2).copied().collect();
    let mut expected = run(&b1, &l1, 2, 2, 0.5);
    assert_eq!(expected.len(), 1);
    expected.extend(run(&b2, &l2, 1, 2, 0.5));
    assert_eq!(run(&boxes, &logits, 3, 2, 0.5), expected);
}

#[test]
fn a_higher_threshold_only_removes_detections() {
    let boxes: Vec<f32> = (0..20).map(|i| i as f32 / 20.0).collect();
    let logits = [0.3, -1.0, 2.0, 0.1, 4.0];
    let many = run(&boxes, &logits, 5, 1, 0.3);
    let few = run(&boxes, &logits, 5, 1, 0.55);
    assert_eq!((many.len(), few.len()), (4, 3));
    let kept: Vec<Detection> = many.iter().filter(|d| few.contains(d)).copied().collect();
    assert_eq!(kept, few);
}
