use rfdetr_ort::float_bits::F64;
use rfdetr_ort::stats::{order_stats, percentile_index, sort_samples};

fn bits(values: &[f64]) -> Vec<F64> {
    values.iter().map(|v| F64 { bits: v.to_bits() }).collect()
}

fn sorted(values: &[f64]) -> Vec<u64> {
    let mut v = bits(values);
    sort_samples(&mut v);
    v.iter().map(|v| v.bits).collect()
}

#[test]
fn samples_are_sorted_stably() {
    let values = [3.5, -1.0, 0.0, 2.25, -0.0, f64::INFINITY, 1e-310, -7.0, 0.0, 3.5];
    let mut expected = values.to_vec();
    expected.sort_by(|a, b| a.partial_cmp(b).unwrap());
    let expected: Vec<u64> = expected.iter().map(|v| v.to_bits()).collect();
    assert_eq!(sorted(&values), expected);
    assert!(sorted(&[]).is_empty());
    assert_eq!(sorted(&[f64::NAN]), vec![f64::NAN.to_bits()]);
}

#[test]
fn many_samples_are_sorted() {
    let values: Vec<f64> = (0..1000).map(|i| ((i * 7919) % 1009) as f64 / 8.0 - 40.0).collect();
    let mut expected = values.clone();
    expected.sort_by(|a, b| a.partial_cmp(b).unwrap());
    let expected: Vec<u64> = expected.iter().map(|v| v.to_bits()).collect();
    assert_eq!(sorted(&values), expected);
}

#[test]
fn percentile_positions_round_half_up() {
    for n in 1..5000usize {
        for pct in [50u8, 90, 99] {
            let idx = ((pct as f64 / 100.0) * (n - 1) as f64).round() as usize;
            assert_eq!(percentile_index(pct, n), idx.min(n - 1));
        }
    }
    assert_eq!(percentile_index(90, 200), 179);
    assert_eq!(percentile_index(50, 2), 1);
}

#[test]
fn order_statistics_ascend() {
    let mut v = bits(&[5.0, 1.0, 4.0, 2.0, 3.0]);
    sort_samples(&mut v);
    let s = order_stats(&v);
    let f = |v: F64| f64::from_bits(v.bits);
    assert_eq!((f(s.min), f(s.p50), f(s.p90), f(s.p99), f(s.max)), (1.0, 3.0, 5.0, 5.0, 5.0));
}
