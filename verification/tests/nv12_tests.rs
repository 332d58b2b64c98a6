use rfdetr_ort::nv12::{convert_nv12_chunk, preprocess_nv12_into_slice, rows_per_chunk};

type Yuv = (u8, u8, u8);

fn spread(y: u8, u: u8, v: u8) -> (Yuv, Yuv, Yuv) {
    ((y, 0, v), (y, u, v), (y, u, 0))
}

fn frame(w: usize, h: usize) -> Vec<u8> {
    (0..w * h * 3 / 2).map(|i| ((i * 53 + 17) % 256) as u8).collect()
}

#[test]
fn a_block_shares_its_chroma_pair() {
    let nv12 = vec![1, 2, 3, 4, 5, 6, 7, 8, 100, 101, 110, 111];
    let mut dst = vec![(0u8, 0u8, 0u8); 24];
    preprocess_nv12_into_slice(&nv12, 4, 2, &spread, &mut dst);
    let green: Vec<Yuv> = vec![
        (1, 100, 101),
        (2, 100, 101),
        (3, 110, 111),
        (4, 110, 111),
        (5, 100, 101),
        (6, 100, 101),
        (7, 110, 111),
        (8, 110, 111),
    ];
    assert_eq!(dst[8..16], green[..]);
    assert_eq!(dst[0], (1, 0, 101));
    assert_eq!(dst[23], (8, 110, 0));
}

#[test]
fn chunks_make_the_frame_for_any_number_of_workers() {
    let (w, h) = (6usize, 10usize);
    let nv12 = frame(w, h);
    let area = w * h;
    let mut whole = vec![(0u8, 0u8, 0u8); 3 * area];
    preprocess_nv12_into_slice(&nv12, w as u32, h as u32, &spread, &mut whole);
    for workers in 0..9 {
        let rows = rows_per_chunk(h, workers);
        let n = 2 * w * rows;
        let mut out = vec![(0u8, 0u8, 0u8); 3 * area];
        let (r, rest) = out.split_at_mut(area);
        let (g, b) = rest.split_at_mut(area);
        let mut count = 0;
        for (ci, ((r, g), b)) in r.chunks_mut(n).zip(g.chunks_mut(n)).zip(b.chunks_mut(n)).enumerate()
        {
            convert_nv12_chunk(&nv12, w, h, rows, ci, &spread, r, g, b);
            count += 1;
        }
        assert!(count <= workers.max(1));
        assert_eq!(out, whole);
    }
}

#[test]
fn row_pairs_are_shared_out_rounded_up() {
    assert_eq!(rows_per_chunk(384, 8), 24);
    assert_eq!(rows_per_chunk(10, 2), 3);
    assert_eq!(rows_per_chunk(10, 4), 2);
    assert_eq!(rows_per_chunk(10, 100), 1);
    assert_eq!(rows_per_chunk(10, 0), 5);
    assert_eq!(rows_per_chunk(2, usize::MAX), 1);
}

#[test]
fn full_range_conversion_of_gray_is_gray() {
    let convert = |y: u8, u: u8, v: u8| {
        let (y, u, v) = (y as f32, u as f32 - 128.0, v as f32 - 128.0);
        (y + 1.402 * v, y - 0.344136 * u - 0.714136 * v, y + 1.772 * u)
    };
    let mut dst = vec![0f32; 12];
    preprocess_nv12_into_slice(&[10, 20, 30, 40, 128, 128], 2, 2, &convert, &mut dst);
    assert_eq!(dst, vec![10.0, 20.0, 30.0, 40.0, 10.0, 20.0, 30.0, 40.0, 10.0, 20.0, 30.0, 40.0]);
}
