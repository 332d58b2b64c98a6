use fast_image_resize::images::Image;
use fast_image_resize::{PixelType, Resizer};
use rfdetr_ort::preprocess::{
    append_planes, preprocess_bgr_into_slice, preprocess_into, preprocess_into_slice, scatter,
    PixelOrder,
};
use rfdetr_ort::resize::can_resize;
use rfdetr_ort::source_image::{Pixels, SourceImage};

fn tag(c: usize, v: u8) -> u32 {
    1000 * c as u32 + v as u32
}

fn ramp(n: usize) -> Vec<u8> {
    (0..n).map(|i| ((i * 37 + i / 7 * 11) % 256) as u8).collect()
}

fn rgb_image(width: u32, height: u32) -> SourceImage {
    SourceImage { width, height, pixels: Pixels::Rgb8(ramp((3 * width * height) as usize)) }
}

fn raw_resize(src: &[u8], sw: u32, sh: u32, dw: u32, dh: u32) -> Vec<u8> {
    let src = Image::from_vec_u8(sw, sh, src.to_vec(), PixelType::U8x3).unwrap();
    let mut dst = Image::new(dw, dh, PixelType::U8x3);
    Resizer::new().resize(&src, &mut dst, None).unwrap();
    dst.into_vec()
}

fn planes_of(rgb: &[u8]) -> Vec<u32> {
    let mut out = Vec::new();
    for c in 0..3 {
        for px in rgb.chunks_exact(3) {
            out.push(tag(c, px[c]));
        }
    }
    out
}

fn swapped(pixels: &[u8]) -> Vec<u8> {
    pixels.chunks_exact(3).flat_map(|p| [p[2], p[1], p[0]]).collect()
}

#[test]
fn bgr_planes_are_red_green_blue() {
    let bgr = vec![1u8, 2, 3, 4, 5, 6];
    let mut dst = vec![0u32; 6];
    preprocess_bgr_into_slice(&bgr, 2, 1, &tag, &mut dst);
    assert_eq!(dst, vec![3, 6, 1002, 1005, 2001, 2004]);
}

#[test]
fn rgb_at_model_size_is_scattered_without_scratch() {
    let image = SourceImage { width: 2, height: 1, pixels: Pixels::Rgb8(vec![1, 2, 3, 4, 5, 6]) };
    let mut dst = vec![0u32; 6];
    let mut scratch = vec![42u8];
    preprocess_into_slice(&image, 2, 1, &tag, &mut dst, &mut scratch);
    assert_eq!(dst, vec![1, 4, 1002, 1005, 2003, 2006]);
    assert_eq!(scratch, vec![42]);
}

#[test]
fn rgba_at_model_size_drops_alpha() {
    let image =
        SourceImage { width: 2, height: 1, pixels: Pixels::Rgba8(vec![1, 2, 3, 99, 4, 5, 6, 98]) };
    let mut dst = vec![0u32; 6];
    let mut scratch = Vec::new();
    preprocess_into_slice(&image, 2, 1, &tag, &mut dst, &mut scratch);
    assert_eq!(dst, vec![1, 4, 1002, 1005, 2003, 2006]);
    assert!(scratch.is_empty());
}

#[test]
fn gray_at_model_size_goes_through_scratch_unchanged() {
    let image = SourceImage { width: 2, height: 1, pixels: Pixels::Luma8(vec![7, 200]) };
    let mut dst = vec![0u32; 6];
    let mut scratch = vec![1u8; 20];
    preprocess_into_slice(&image, 2, 1, &tag, &mut dst, &mut scratch);
    assert_eq!(scratch, vec![7, 7, 7, 200, 200, 200]);
    assert_eq!(dst, vec![7, 200, 1007, 1200, 2007, 2200]);
}

#[test]
fn an_image_of_another_size_is_resized() {
    let image = rgb_image(12, 9);
    let expected = raw_resize(&ramp(12 * 9 * 3), 12, 9, 5, 4);
    let mut dst = vec![0u32; 60];
    let mut scratch = Vec::new();
    preprocess_into_slice(&image, 5, 4, &tag, &mut dst, &mut scratch);
    assert_eq!(scratch, expected);
    assert_eq!(dst, planes_of(&expected));
    assert_ne!(scratch, ramp(60));
}

#[test]
fn scratch_content_does_not_matter_to_an_image_with_pixels() {
    let image = rgb_image(6, 7);
    let (mut one, mut two) = (vec![0u32; 27], vec![0u32; 27]);
    let (mut clean, mut dirty) = (Vec::new(), vec![200u8; 500]);
    preprocess_into_slice(&image, 3, 3, &tag, &mut one, &mut clean);
    preprocess_into_slice(&image, 3, 3, &tag, &mut two, &mut dirty);
    assert_eq!(one, two);
    assert_eq!(clean, dirty);
}

#[test]
fn an_image_without_pixels_leaves_what_scratch_held() {
    let image = SourceImage { width: 0, height: 5, pixels: Pixels::Rgb8(Vec::new()) };
    let mut dst = vec![0u32; 6];
    let mut scratch = vec![9u8, 8, 7];
    preprocess_into_slice(&image, 2, 1, &tag, &mut dst, &mut scratch);
    assert_eq!(scratch, vec![9, 8, 7, 0, 0, 0]);
    assert_eq!(dst, vec![9, 0, 1008, 1000, 2007, 2000]);
}

#[test]
fn resizing_keeps_the_channel_order() {
    let rgb = ramp(11 * 8 * 3);
    let straight = raw_resize(&rgb, 11, 8, 20, 3);
    let crossed = raw_resize(&swapped(&rgb), 11, 8, 20, 3);
    assert_eq!(swapped(&crossed), straight);
}

#[test]
fn appending_keeps_what_was_there() {
    let image = SourceImage { width: 1, height: 2, pixels: Pixels::Rgb8(vec![1, 2, 3, 4, 5, 6]) };
    let mut dst = vec![77u32];
    let mut scratch = Vec::new();
    preprocess_into(&image, 1, 2, &tag, &mut dst, &mut scratch);
    assert_eq!(dst, vec![77, 1, 4, 1002, 1005, 2003, 2006]);
    preprocess_into(&rgb_image(4, 4), 1, 2, &tag, &mut dst, &mut scratch);
    assert_eq!(dst.len(), 13);
    assert_eq!(dst[7..], planes_of(&raw_resize(&ramp(48), 4, 4, 1, 2))[..]);
}

#[test]
fn scatter_and_append_agree_on_every_order() {
    let bytes = ramp(40);
    for order in [PixelOrder::Rgb, PixelOrder::Rgba, PixelOrder::Bgr] {
        let mut slice = vec![0u32; 27];
        let mut list = Vec::new();
        scatter(&bytes, order, 9, &tag, &mut slice);
        append_planes(&bytes, order, 9, &tag, &mut list);
        assert_eq!(slice, list);
    }
}

#[test]
fn imagenet_normalisation_of_a_pixel() {
    let (mean, std) = ([0.485f32, 0.456, 0.406], [0.229f32, 0.224, 0.225]);
    let normalize = |c: usize, v: u8| v as f32 * (1.0 / (255.0 * std[c])) - mean[c] / std[c];
    let mut dst = vec![0f32; 3];
    preprocess_bgr_into_slice(&[0, 128, 255], 1, 1, &normalize, &mut dst);
    assert!((dst[0] - (1.0 - 0.485) / 0.229).abs() < 1e-5);
    assert!((dst[1] - (128.0 / 255.0 - 0.456) / 0.224).abs() < 1e-5);
    assert!((dst[2] - (0.0 - 0.406) / 0.225).abs() < 1e-5);
}

#[test]
fn ordinary_sizes_can_be_resized() {
    assert!(can_resize(1920, 1080, 384, 384));
    assert!(can_resize(0, 0, 384, 384));
    assert!(!can_resize(u32::MAX, 1, 1, u32::MAX));
}

#[test]
fn a_channel_is_resized_by_itself() {
    for (dw, dh) in [(20, 3), (5, 5), (11, 4), (33, 8)] {
        let first = ramp(11 * 8 * 3);
        let whole = raw_resize(&first, 11, 8, dw, dh);
        for c in 0..3 {
            let other: Vec<u8> =
                first.iter().enumerate().map(|(k, v)| if k % 3 == c { *v } else { !v }).collect();
            let out = raw_resize(&other, 11, 8, dw, dh);
            assert!((0..whole.len()).all(|k| k % 3 != c || out[k] == whole[k]));
            assert_ne!(out, whole);
        }
    }
}

#[test]
fn appending_gives_what_filling_a_slice_gives() {
    for (w, h) in [(4, 4), (3, 5)] {
        let mut slice = vec![0u32; 3 * w as usize * h as usize];
        preprocess_into_slice(&rgb_image(4, 4), w, h, &tag, &mut slice, &mut vec![1u8; 9]);
        let mut list = vec![5u32, 6];
        preprocess_into(&rgb_image(4, 4), w, h, &tag, &mut list, &mut Vec::new());
        assert_eq!(list, [vec![5, 6], slice].concat());
    }
}

#[test]
fn a_bgr_buffer_gives_the_planes_of_its_rgb_image() {
    let (mut from_bgr, mut from_image) = (vec![0u32; 48], vec![0u32; 48]);
    preprocess_bgr_into_slice(&swapped(&ramp(48)), 4, 4, &tag, &mut from_bgr);
    preprocess_into_slice(&rgb_image(4, 4), 4, 4, &tag, &mut from_image, &mut Vec::new());
    assert_eq!(from_bgr, from_image);
}

#[test]
fn a_wide_image_without_rows_has_no_bytes() {
    let image = SourceImage { width: u32::MAX, height: 0, pixels: Pixels::Luma8(vec![]) };
    assert!(image.to_rgb8().is_empty());
}
