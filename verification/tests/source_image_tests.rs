use rfdetr_ort::source_image::{Pixels, SourceImage};

fn rgb(width: u32, height: u32, pixels: Pixels) -> Vec<u8> {
    SourceImage { width, height, pixels }.to_rgb8()
}

fn narrowed(v: u16) -> u8 {
    ((v as u32 + 128) / 257) as u8
}

#[test]
fn gray_is_repeated() {
    let all: Vec<u8> = (0..=255).collect();
    let expected: Vec<u8> = all.iter().flat_map(|v| [*v, *v, *v]).collect();
    assert_eq!(rgb(16, 16, Pixels::Luma8(all)), expected);
}

#[test]
fn gray_with_alpha_loses_alpha() {
    assert_eq!(rgb(2, 1, Pixels::LumaA8(vec![5, 0, 250, 128])), vec![5, 5, 5, 250, 250, 250]);
}

#[test]
fn colour_is_kept_and_alpha_dropped() {
    assert_eq!(rgb(1, 1, Pixels::Rgb8(vec![1, 2, 3])), vec![1, 2, 3]);
    assert_eq!(rgb(1, 1, Pixels::Rgba8(vec![1, 2, 3, 4])), vec![1, 2, 3]);
    assert_eq!(rgb(1, 1, Pixels::Float(vec![7, 8, 9])), vec![7, 8, 9]);
}

#[test]
fn a_longer_buffer_keeps_its_pixels_in_front() {
    let out = rgb(1, 1, Pixels::Rgb8(vec![1, 2, 3, 4, 5]));
    assert_eq!(out[..3], [1, 2, 3]);
    assert_eq!(rgb(1, 1, Pixels::Rgba8(vec![1, 2, 3, 4, 5])), vec![1, 2, 3]);
}

#[test]
fn every_sixteen_bit_gray_is_rounded() {
    let all: Vec<u16> = (0..=65535).collect();
    let expected: Vec<u8> = all.iter().flat_map(|v| [narrowed(*v); 3]).collect();
    assert_eq!(rgb(256, 256, Pixels::Luma16(all.clone())), expected);
    let with_alpha: Vec<u16> = all.iter().flat_map(|v| [*v, 65535 - *v]).collect();
    assert_eq!(rgb(256, 256, Pixels::LumaA16(with_alpha)), expected);
}

#[test]
fn every_sixteen_bit_colour_is_rounded() {
    let all: Vec<u16> = (0..=65535).collect();
    let colour: Vec<u16> = all.iter().flat_map(|v| [*v, 65535 - *v, *v / 2]).collect();
    let expected: Vec<u8> = colour.iter().map(|v| narrowed(*v)).collect();
    assert_eq!(rgb(256, 256, Pixels::Rgb16(colour.clone())), expected);
    let with_alpha: Vec<u16> =
        colour.chunks_exact(3).flat_map(|p| [p[0], p[1], p[2], 12345]).collect();
    assert_eq!(rgb(256, 256, Pixels::Rgba16(with_alpha)), expected);
}

#[test]
fn an_image_without_pixels_has_no_bytes() {
    assert!(rgb(0, 3, Pixels::Luma8(Vec::new())).is_empty());
    assert!(rgb(3, 0, Pixels::Rgba16(Vec::new())).is_empty());
}
