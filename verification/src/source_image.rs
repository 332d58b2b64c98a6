//! The images that inference starts from.

use image::{DynamicImage, ImageBuffer};
use vstd::prelude::*;

verus! {

/// The samples of an image, row by row and packed, by pixel format.
pub enum Pixels {
    Luma8(Vec<u8>),
    LumaA8(Vec<u8>),
    Rgb8(Vec<u8>),
    Rgba8(Vec<u8>),
    Luma16(Vec<u16>),
    LumaA16(Vec<u16>),
    Rgb16(Vec<u16>),
    Rgba16(Vec<u16>),
    /// A floating-point image, as the packed RGB bytes that it converts to.
    Float(Vec<u8>),
}

/// An image of any size and format.
pub struct SourceImage {
    pub width: u32,
    pub height: u32,
    pub pixels: Pixels,
}

/// How samples are laid out within a pixel.
#[derive(Clone, Copy, Debug, PartialEq, Eq, Structural)]
pub enum Layout {
    Luma,
    LumaA,
    Rgb,
    Rgba,
}

impl Layout {
    /// Samples per pixel.
    pub open spec fn channels(self) -> int {
        match self {
            Layout::Luma => 1,
            Layout::LumaA => 2,
            Layout::Rgb => 3,
            Layout::Rgba => 4,
        }
    }

    /// Where the samples of a pixel hold its colour channel `c` (0 is red, 1 green,
    /// 2 blue): a gray pixel has one sample for all three.
    pub open spec fn offset(self, c: int) -> int {
        match self {
            Layout::Luma => 0,
            Layout::LumaA => 0,
            Layout::Rgb => c,
            Layout::Rgba => c,
        }
    }
}

/// The 16-bit sample `v` on the scale of 8 bits, rounded to the nearest.
pub open spec fn narrowed(v: u16) -> u8 {
    ((v + 128) / 257) as u8
}

/// The packed RGB bytes of the first `n` pixels of 8-bit samples.
pub open spec fn rgb8_of_u8(layout: Layout, n: int, raw: Seq<u8>) -> Seq<u8> {
    Seq::new(
        (3 * n) as nat,
        |k: int| raw[layout.channels() * (k / 3) + layout.offset(k % 3)],
    )
}

/// The packed RGB bytes of the first `n` pixels of 16-bit samples.
pub open spec fn rgb8_of_u16(layout: Layout, n: int, raw: Seq<u16>) -> Seq<u8> {
    Seq::new(
        (3 * n) as nat,
        |k: int| narrowed(raw[layout.channels() * (k / 3) + layout.offset(k % 3)]),
    )
}

impl SourceImage {
    /// Number of pixels.
    pub open spec fn area(self) -> int {
        self.width * self.height
    }

    /// The buffer holds all samples of the stated dimensions, and the bytes of a row and
    /// of the whole image can be counted.
    pub open spec fn wf(self) -> bool {
        &&& 3 * self.area() <= isize::MAX
        &&& 4 * self.width <= usize::MAX
        &&& match self.pixels {
            Pixels::Luma8(raw) => raw@.len() >= self.area(),
            Pixels::LumaA8(raw) => raw@.len() >= 2 * self.area(),
            Pixels::Rgb8(raw) => raw@.len() >= 3 * self.area(),
            Pixels::Rgba8(raw) => raw@.len() >= 4 * self.area(),
            Pixels::Luma16(raw) => raw@.len() >= self.area(),
            Pixels::LumaA16(raw) => raw@.len() >= 2 * self.area(),
            Pixels::Rgb16(raw) => raw@.len() >= 3 * self.area(),
            Pixels::Rgba16(raw) => raw@.len() >= 4 * self.area(),
            Pixels::Float(rgb) => rgb@.len() >= 3 * self.area(),
        }
    }

    /// The image as packed RGB bytes: gray is repeated, alpha dropped, and a
    /// 16-bit sample rounded to 8 bits.
    pub open spec fn rgb8(self) -> Seq<u8> {
        let n = self.area();
        match self.pixels {
            Pixels::Luma8(raw) => rgb8_of_u8(Layout::Luma, n, raw@),
            Pixels::LumaA8(raw) => rgb8_of_u8(Layout::LumaA, n, raw@),
            Pixels::Rgb8(raw) => rgb8_of_u8(Layout::Rgb, n, raw@),
            Pixels::Rgba8(raw) => rgb8_of_u8(Layout::Rgba, n, raw@),
            Pixels::Luma16(raw) => rgb8_of_u16(Layout::Luma, n, raw@),
            Pixels::LumaA16(raw) => rgb8_of_u16(Layout::LumaA, n, raw@),
            Pixels::Rgb16(raw) => rgb8_of_u16(Layout::Rgb, n, raw@),
            Pixels::Rgba16(raw) => rgb8_of_u16(Layout::Rgba, n, raw@),
            Pixels::Float(rgb) => rgb8_of_u8(Layout::Rgb, n, rgb@),
        }
    }

    /// Converts the image to packed RGB bytes.  A buffer that is longer than
    /// its dimensions ask for may leave bytes behind the pixels.
    pub fn to_rgb8(&self) -> (res: Vec<u8>)
        requires
            self.wf(),
        ensures
            res@.len() >= 3 * self.area(),
            res@.subrange(0, 3 * self.area()) == self.rgb8(),
    {
        let (w, h) = (self.width, self.height);
        match &self.pixels {
            Pixels::Luma8(raw) => convert_u8(Layout::Luma, w, h, raw),
            Pixels::LumaA8(raw) => convert_u8(Layout::LumaA, w, h, raw),
            Pixels::Rgb8(raw) => convert_u8(Layout::Rgb, w, h, raw),
            Pixels::Rgba8(raw) => convert_u8(Layout::Rgba, w, h, raw),
            Pixels::Luma16(raw) => convert_u16(Layout::Luma, w, h, raw),
            Pixels::LumaA16(raw) => convert_u16(Layout::LumaA, w, h, raw),
            Pixels::Rgb16(raw) => convert_u16(Layout::Rgb, w, h, raw),
            Pixels::Rgba16(raw) => convert_u16(Layout::Rgba, w, h, raw),
            Pixels::Float(rgb) => convert_u8(Layout::Rgb, w, h, rgb),
        }
    }
}

/// Converts 8-bit samples to packed RGB.
///
/// Calls `image::DynamicImage::to_rgb8` on the variant for the layout.  Trusted
/// of it: gray samples are repeated, alpha is dropped, and every sample is kept;
/// an RGB image is returned with its whole buffer.
#[verifier::external_body]
fn convert_u8(layout: Layout, w: u32, h: u32, raw: &Vec<u8>) -> (res: Vec<u8>)
    requires
        layout.channels() * (w * h) <= raw@.len(),
        3 * (w * h) <= isize::MAX,
        4 * w <= usize::MAX,
    ensures
        res@.len() >= 3 * (w * h),
        res@.subrange(0, 3 * (w * h)) == rgb8_of_u8(layout, w * h, raw@),
{
    let raw = raw.clone();
    let image = match layout {
        Layout::Luma => DynamicImage::ImageLuma8(ImageBuffer::from_raw(w, h, raw).unwrap()),
        Layout::LumaA => DynamicImage::ImageLumaA8(ImageBuffer::from_raw(w, h, raw).unwrap()),
        Layout::Rgb => DynamicImage::ImageRgb8(ImageBuffer::from_raw(w, h, raw).unwrap()),
        Layout::Rgba => DynamicImage::ImageRgba8(ImageBuffer::from_raw(w, h, raw).unwrap()),
    };
    image.to_rgb8().into_raw()
}

/// Converts 16-bit samples to packed RGB.
///
/// Calls `image::DynamicImage::to_rgb8` on the variant for the layout.  Trusted
/// of it: gray samples are repeated, alpha is dropped, and every sample is
/// rounded to 8 bits, `(v + 128) / 257`.
#[verifier::external_body]
fn convert_u16(layout: Layout, w: u32, h: u32, raw: &Vec<u16>) -> (res: Vec<u8>)
    requires
        layout.channels() * (w * h) <= raw@.len(),
        3 * (w * h) <= isize::MAX,
        4 * w <= usize::MAX,
    ensures
        res@.len() >= 3 * (w * h),
        res@.subrange(0, 3 * (w * h)) == rgb8_of_u16(layout, w * h, raw@),
{
    let raw = raw.clone();
    let image = match layout {
        Layout::Luma => DynamicImage::ImageLuma16(ImageBuffer::from_raw(w, h, raw).unwrap()),
        Layout::LumaA => DynamicImage::ImageLumaA16(ImageBuffer::from_raw(w, h, raw).unwrap()),
        Layout::Rgb => DynamicImage::ImageRgb16(ImageBuffer::from_raw(w, h, raw).unwrap()),
        Layout::Rgba => DynamicImage::ImageRgba16(ImageBuffer::from_raw(w, h, raw).unwrap()),
    };
    image.to_rgb8().into_raw()
}

} // verus!
