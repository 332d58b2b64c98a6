//! What images and packed buffers become.

use crate::preprocess::{
    append_planes, appended, fitted, model_rgb, planar, planar_from, preprocess_bgr_into_slice,
    preprocess_into, preprocess_into_slice, scatter, PixelOrder,
};
use crate::resize::{can_resize, lanczos3_may_give, rescaled, resizable, swap_rb};
use crate::source_image::{Pixels, SourceImage};
use vstd::prelude::*;

verus! {

/// The 8-bit sample nearest to a 16-bit one: 257 to 1.
pub open spec fn nearest(wide: u16, narrow: u8) -> bool {
    -128 <= 257 * narrow - wide <= 128
}

/// `v` is channel `c` (0 is red, 1 green, 2 blue) of pixel `i` of an image: its own sample
/// where it has colours, its one sample where it is gray; a 16-bit sample is narrowed.
pub open spec fn shows(image: SourceImage, i: int, c: int, v: u8) -> bool {
    match image.pixels {
        Pixels::Luma8(raw) => v == raw@[i],
        Pixels::LumaA8(raw) => v == raw@[2 * i],
        Pixels::Rgb8(raw) => v == raw@[3 * i + c],
        Pixels::Rgba8(raw) => v == raw@[4 * i + c],
        Pixels::Luma16(raw) => nearest(raw@[i], v),
        Pixels::LumaA16(raw) => nearest(raw@[2 * i], v),
        Pixels::Rgb16(raw) => nearest(raw@[3 * i + c], v),
        Pixels::Rgba16(raw) => nearest(raw@[4 * i + c], v),
        Pixels::Float(rgb) => v == rgb@[3 * i + c],
    }
}

/// Law: the RGB bytes of an image are three for each pixel, red, green and blue.
pub proof fn law_rgb8_bytes(image: SourceImage, i: int, c: int)
    requires
        0 <= i < image.width * image.height,
        0 <= c < 3,
    ensures
        image.rgb8().len() == 3 * (image.width * image.height),
        shows(image, i, c, image.rgb8()[3 * i + c]),
{
    let k = 3 * i + c;
    assert(k / 3 == i && k % 3 == c);
}

/// Law: [`SourceImage::to_rgb8`] gives the three bytes of each pixel in turn.
pub proof fn law_to_rgb8(image: SourceImage, res: Vec<u8>, i: int, c: int)
    requires
        call_ensures(SourceImage::to_rgb8, (&image,), res),
        0 <= i < image.width * image.height,
        0 <= c < 3,
    ensures
        res@.len() >= 3 * (image.width * image.height),
        res@[3 * i + c] == image.rgb8()[3 * i + c],
        shows(image, i, c, res@[3 * i + c]),
{
    law_rgb8_bytes(image, i, c);
    let n = 3 * image.area();
    assert(res@.subrange(0, n)[3 * i + c] == res@[3 * i + c]);
}

/// The samples of an image of these dimensions.
pub open spec fn samples(image: SourceImage) -> (int, int) {
    match image.pixels {
        Pixels::Luma8(raw) => (raw@.len() as int, 1),
        Pixels::LumaA8(raw) => (raw@.len() as int, 2),
        Pixels::Rgb8(raw) => (raw@.len() as int, 3),
        Pixels::Rgba8(raw) => (raw@.len() as int, 4),
        Pixels::Luma16(raw) => (raw@.len() as int, 1),
        Pixels::LumaA16(raw) => (raw@.len() as int, 2),
        Pixels::Rgb16(raw) => (raw@.len() as int, 3),
        Pixels::Rgba16(raw) => (raw@.len() as int, 4),
        Pixels::Float(rgb) => (rgb@.len() as int, 3),
    }
}

/// The image has all samples of its dimensions, and its bytes can be counted.
pub open spec fn complete(image: SourceImage) -> bool {
    &&& samples(image).0 >= samples(image).1 * (image.width * image.height)
    &&& 3 * (image.width * image.height) <= isize::MAX
    &&& 4 * image.width <= usize::MAX
}

/// Law: an image of any format that has all its samples can be converted.
pub proof fn law_every_format_is_converted(image: SourceImage)
    requires
        complete(image),
    ensures
        image.wf(),
        call_requires(SourceImage::to_rgb8, (&image,)),
{
}

/// `out` holds, from element `base` on, the planes of `area` pixels: red, then green,
/// then blue, each element the normalised byte of that channel of that pixel of `rgb`.
pub open spec fn laid_out<T, F: Fn(usize, u8) -> T>(
    normalize: F,
    rgb: Seq<u8>,
    area: int,
    out: Seq<T>,
    base: int,
) -> bool {
    &&& rgb.len() >= 3 * area
    &&& out.len() >= base + 3 * area
    &&& forall|i: int|
        #![trigger rgb[3 * i]]
        0 <= i < area ==> {
            &&& call_ensures(normalize, (0usize, rgb[3 * i]), out[base + i])
            &&& call_ensures(normalize, (1usize, rgb[3 * i + 1]), out[base + area + i])
            &&& call_ensures(normalize, (2usize, rgb[3 * i + 2]), out[base + 2 * area + i])
        }
}

/// Planes that a contract states are laid out.
pub(crate) proof fn lemma_laid_out<T, F: Fn(usize, u8) -> T>(
    normalize: F,
    rgb: Seq<u8>,
    area: int,
    part: Seq<T>,
    out: Seq<T>,
    base: int,
)
    requires
        0 <= area,
        0 <= base,
        rgb.len() >= 3 * area,
        out.len() >= base + 3 * area,
        part == out.subrange(base, base + 3 * area),
        planar(normalize, rgb, area, part),
    ensures
        laid_out(normalize, rgb, area, out, base),
{
    assert forall|i: int|
        #![trigger rgb[3 * i]]
        0 <= i < area implies {
        &&& call_ensures(normalize, (0usize, rgb[3 * i]), out[base + i])
        &&& call_ensures(normalize, (1usize, rgb[3 * i + 1]), out[base + area + i])
        &&& call_ensures(normalize, (2usize, rgb[3 * i + 2]), out[base + 2 * area + i])
    } by {
        assert(part[i] == out[base + i]);
        assert(part[area + i] == out[base + area + i]);
        assert(part[2 * area + i] == out[base + 2 * area + i]);
    }
}

/// Law: [`scatter`] puts the bytes of each pixel in the plane of their channel, whatever
/// the order they come in.
pub proof fn law_scatter<T, F: Fn(usize, u8) -> T>(
    pixels: &[u8],
    order: PixelOrder,
    area: usize,
    normalize: &F,
    dst: &mut [T],
    i: int,
)
    requires
        call_ensures(scatter::<T, F>, (pixels, order, area, normalize, dst), ()),
        0 <= i < area,
    ensures
        final(dst)@.len() == 3 * area,
        ({
            let (r, g, b) = match order {
                PixelOrder::Rgb => (pixels@[3 * i], pixels@[3 * i + 1], pixels@[3 * i + 2]),
                PixelOrder::Rgba => (pixels@[4 * i], pixels@[4 * i + 1], pixels@[4 * i + 2]),
                PixelOrder::Bgr => (pixels@[3 * i + 2], pixels@[3 * i + 1], pixels@[3 * i]),
            };
            &&& call_ensures(*normalize, (0usize, r), final(dst)@[i])
            &&& call_ensures(*normalize, (1usize, g), final(dst)@[area + i])
            &&& call_ensures(*normalize, (2usize, b), final(dst)@[2 * area + i])
        }),
{
    let out = final(dst)@;
    assert(planar_from(*normalize, order, pixels@, area as int, out));
    assert(call_ensures(*normalize, (0usize, pixels@[order.index(i, 0)]), out[i]));
}

/// Law: [`append_planes`] keeps what was there and appends what [`scatter`] fills.
pub proof fn law_append_planes<T, F: Fn(usize, u8) -> T>(
    pixels: &[u8],
    order: PixelOrder,
    area: usize,
    normalize: &F,
    dst: &mut Vec<T>,
    i: int,
)
    requires
        call_ensures(append_planes::<T, F>, (pixels, order, area, normalize, dst), ()),
        0 <= i < area,
    ensures
        final(dst)@.len() == old(dst)@.len() + 3 * area,
        forall|k: int| 0 <= k < old(dst)@.len() ==> final(dst)@[k] == #[trigger] old(dst)@[k],
        ({
            let n = old(dst)@.len();
            let (r, g, b) = match order {
                PixelOrder::Rgb => (pixels@[3 * i], pixels@[3 * i + 1], pixels@[3 * i + 2]),
                PixelOrder::Rgba => (pixels@[4 * i], pixels@[4 * i + 1], pixels@[4 * i + 2]),
                PixelOrder::Bgr => (pixels@[3 * i + 2], pixels@[3 * i + 1], pixels@[3 * i]),
            };
            &&& call_ensures(*normalize, (0usize, r), final(dst)@[n + i])
            &&& call_ensures(*normalize, (1usize, g), final(dst)@[n + area + i])
            &&& call_ensures(*normalize, (2usize, b), final(dst)@[n + 2 * area + i])
        }),
{
    let (before, after) = (old(dst)@, final(dst)@);
    let n = before.len() as int;
    lemma_kept(before, after, 3 * area);
    let out = after.skip(n);
    assert(out[i] == after[n + i]);
    assert(out[area + i] == after[n + area + i]);
    assert(out[2 * area + i] == after[n + 2 * area + i]);
    assert(call_ensures(*normalize, (0usize, pixels@[order.index(i, 0)]), out[i]));
}

proof fn lemma_kept<T>(before: Seq<T>, after: Seq<T>, n: int)
    requires
        0 <= n,
        appended(before, after, n),
    ensures
        after.len() == before.len() + n,
        forall|k: int| 0 <= k < before.len() ==> after[k] == #[trigger] before[k],
{
    assert forall|k: int| 0 <= k < before.len() implies after[k] == #[trigger] before[k] by {
        assert(after.take(before.len() as int)[k] == after[k]);
    }
}

/// `rgb` is what an image with RGB bytes `bytes` may be brought to: the bytes themselves
/// where it has the model's dimensions, and otherwise a resize of them; an image without
/// pixels takes up what the scratch buffer held, and zeros behind that.
pub open spec fn brought_to(
    bytes: Seq<u8>,
    src_w: u32,
    src_h: u32,
    dst_w: u32,
    dst_h: u32,
    scratch: Seq<u8>,
    rgb: Seq<u8>,
) -> bool {
    &&& rgb.len() == 3 * (dst_w * dst_h)
    &&& src_w == dst_w && src_h == dst_h ==> rgb == bytes
    &&& (src_w != dst_w || src_h != dst_h) && src_w > 0 && src_h > 0 && dst_w > 0 && dst_h > 0
        ==> lanczos3_may_give(bytes, src_w, src_h, dst_w, dst_h, rgb)
    &&& src_w == 0 || src_h == 0 ==> forall|k: int|
        0 <= k < rgb.len() ==> #[trigger] rgb[k] == if k < scratch.len() {
            scratch[k]
        } else {
            0
        }
}

/// An image of the model's dimensions with packed 8-bit colour needs no scratch buffer.
pub open spec fn at_once(image: SourceImage, dst_w: u32, dst_h: u32) -> bool {
    &&& image.width == dst_w && image.height == dst_h
    &&& match image.pixels {
        Pixels::Rgb8(_) => true,
        Pixels::Rgba8(_) => true,
        _ => false,
    }
}

/// The pixels that reach the model, by the contract, are what the image is brought to.
pub(crate) proof fn lemma_brought_to(
    image: SourceImage,
    dst_w: u32,
    dst_h: u32,
    before: Seq<u8>,
    after: Seq<u8>,
)
    requires
        fitted(image, dst_w, dst_h, before, after),
    ensures
        brought_to(
            image.rgb8(),
            image.width,
            image.height,
            dst_w,
            dst_h,
            before,
            model_rgb(image, dst_w, dst_h, after),
        ),
        at_once(image, dst_w, dst_h) ==> after == before,
        !at_once(image, dst_w, dst_h) ==> after == model_rgb(image, dst_w, dst_h, after),
{
    let n = 3 * (dst_w * dst_h);
    assert(0 <= n) by (nonlinear_arith)
        requires
            n == 3 * (dst_w * dst_h),
    ;
    let rgb = model_rgb(image, dst_w, dst_h, after);
    let bytes = image.rgb8();
    assert(bytes.len() == 3 * (image.width * image.height)) by {
        assert(0 <= image.width * image.height) by (nonlinear_arith);
    }
    if image.width == 0 || image.height == 0 {
        assert(image.width * image.height == 0) by (nonlinear_arith)
            requires
                image.width == 0 || image.height == 0,
        ;
    }
    if image.width == dst_w && image.height == dst_h {
        if image.width == 0 || image.height == 0 {
            assert(rgb =~= bytes);
        }
    }
}

/// Law: whatever its format, an image reaches the model as the planes of its RGB bytes,
/// resized where the dimensions differ: channel `c` of every pixel is the normalised
/// channel `c` of the picture.  The scratch buffer holds those pixels, or what it held
/// where it was not needed.
pub proof fn law_preprocess_into_slice<T, F: Fn(usize, u8) -> T>(
    image: &SourceImage,
    dst_w: u32,
    dst_h: u32,
    normalize: &F,
    dst: &mut [T],
    scratch: &mut Vec<u8>,
)
    requires
        call_ensures(
            preprocess_into_slice::<T, F>,
            (image, dst_w, dst_h, normalize, dst, scratch),
            (),
        ),
    ensures
        final(dst)@.len() == 3 * (dst_w * dst_h),
        exists|rgb: Seq<u8>|
            {
                &&& #[trigger] brought_to(
                    image.rgb8(),
                    image.width,
                    image.height,
                    dst_w,
                    dst_h,
                    old(scratch)@,
                    rgb,
                )
                &&& laid_out(*normalize, rgb, dst_w * dst_h, final(dst)@, 0)
                &&& final(scratch)@ == if at_once(*image, dst_w, dst_h) {
                    old(scratch)@
                } else {
                    rgb
                }
            },
{
    let area = dst_w * dst_h;
    assert(0 <= area) by (nonlinear_arith)
        requires
            area == dst_w * dst_h,
    ;
    let rgb = model_rgb(*image, dst_w, dst_h, final(scratch)@);
    lemma_brought_to(*image, dst_w, dst_h, old(scratch)@, final(scratch)@);
    let out = final(dst)@;
    assert(out.subrange(0, 3 * area) =~= out);
    lemma_laid_out(*normalize, rgb, area, out, out, 0);
}

/// Law: appending an image keeps what was there, and what is appended is what filling a
/// slice gives: the planes of the image's RGB bytes, resized where the dimensions differ.
pub proof fn law_preprocess_into<T, F: Fn(usize, u8) -> T>(
    image: &SourceImage,
    dst_w: u32,
    dst_h: u32,
    normalize: &F,
    dst: &mut Vec<T>,
    scratch: &mut Vec<u8>,
)
    requires
        call_ensures(preprocess_into::<T, F>, (image, dst_w, dst_h, normalize, dst, scratch), ()),
    ensures
        final(dst)@.len() == old(dst)@.len() + 3 * (dst_w * dst_h),
        forall|k: int| 0 <= k < old(dst)@.len() ==> final(dst)@[k] == #[trigger] old(dst)@[k],
        exists|rgb: Seq<u8>|
            {
                &&& #[trigger] brought_to(
                    image.rgb8(),
                    image.width,
                    image.height,
                    dst_w,
                    dst_h,
                    old(scratch)@,
                    rgb,
                )
                &&& laid_out(
                    *normalize,
                    rgb,
                    dst_w * dst_h,
                    final(dst)@,
                    old(dst)@.len() as int,
                )
                &&& final(scratch)@ == if at_once(*image, dst_w, dst_h) {
                    old(scratch)@
                } else {
                    rgb
                }
            },
{
    let area = dst_w * dst_h;
    assert(0 <= area) by (nonlinear_arith)
        requires
            area == dst_w * dst_h,
    ;
    let n = old(dst)@.len() as int;
    lemma_kept(old(dst)@, final(dst)@, 3 * area);
    let rgb = model_rgb(*image, dst_w, dst_h, final(scratch)@);
    lemma_brought_to(*image, dst_w, dst_h, old(scratch)@, final(scratch)@);
    let out = final(dst)@;
    assert(out.skip(n) =~= out.subrange(n, n + 3 * area));
    lemma_laid_out(*normalize, rgb, area, out.skip(n), out, n);
}

/// Law: a BGR buffer fills the planes in the order red, green, blue.
pub proof fn law_preprocess_bgr_into_slice<T, F: Fn(usize, u8) -> T>(
    bgr: &[u8],
    dst_w: u32,
    dst_h: u32,
    normalize: &F,
    dst: &mut [T],
    i: int,
)
    requires
        bgr@.len() == 3 * (dst_w * dst_h),
        call_ensures(preprocess_bgr_into_slice::<T, F>, (bgr, dst_w, dst_h, normalize, dst), ()),
        0 <= i < dst_w * dst_h,
    ensures
        final(dst)@.len() == 3 * (dst_w * dst_h),
        call_ensures(*normalize, (0usize, bgr@[3 * i + 2]), final(dst)@[i]),
        call_ensures(*normalize, (1usize, bgr@[3 * i + 1]), final(dst)@[dst_w * dst_h + i]),
        call_ensures(*normalize, (2usize, bgr@[3 * i]), final(dst)@[2 * (dst_w * dst_h) + i]),
{
    let (out, area) = (final(dst)@, dst_w * dst_h);
    lemma_swapped(bgr@, i);
    assert(planar(*normalize, swap_rb(bgr@), area, out));
    assert(call_ensures(
        *normalize,
        (0usize, swap_rb(bgr@)[PixelOrder::Rgb.index(i, 0)]),
        out[i],
    ));
}

/// The bytes of a pixel with red and blue exchanged.
pub(crate) proof fn lemma_swapped(pixels: Seq<u8>, i: int)
    requires
        0 <= i,
        3 * i + 2 < pixels.len(),
    ensures
        swap_rb(pixels).len() == pixels.len(),
        swap_rb(pixels)[3 * i] == pixels[3 * i + 2],
        swap_rb(pixels)[3 * i + 1] == pixels[3 * i + 1],
        swap_rb(pixels)[3 * i + 2] == pixels[3 * i],
{
    assert((3 * i) / 3 == i && (3 * i + 1) / 3 == i && (3 * i + 2) / 3 == i);
    assert((3 * i) % 3 == 0 && (3 * i + 1) % 3 == 1 && (3 * i + 2) % 3 == 2);
}

/// A resize that a contract states copies, does nothing, or is the filter's.
pub(crate) proof fn lemma_rescaled(
    src: Seq<u8>,
    src_w: u32,
    src_h: u32,
    before: Seq<u8>,
    dst_w: u32,
    dst_h: u32,
    after: Seq<u8>,
)
    requires
        rescaled(src, src_w, src_h, before, dst_w, dst_h, after),
    ensures
        after.len() == before.len(),
        src_w == 0 || src_h == 0 || dst_w == 0 || dst_h == 0 ==> after == before,
        src_w > 0 && src_h > 0 && dst_w > 0 && dst_h > 0 && (src_w != dst_w || src_h != dst_h)
            ==> lanczos3_may_give(src, src_w, src_h, dst_w, dst_h, after),
{
}

/// `normalize` gives one element for a byte of a channel.
pub open spec fn is_function<T, F: Fn(usize, u8) -> T>(normalize: F) -> bool {
    forall|c: usize, v: u8, a: T, b: T|
        #![trigger call_ensures(normalize, (c, v), a), call_ensures(normalize, (c, v), b)]
        call_ensures(normalize, (c, v), a) && call_ensures(normalize, (c, v), b) ==> a == b
}

/// The filter gives one output for these pixels.
pub open spec fn filters_once(
    bytes: Seq<u8>,
    src_w: u32,
    src_h: u32,
    dst_w: u32,
    dst_h: u32,
) -> bool {
    forall|a: Seq<u8>, b: Seq<u8>|
        #![trigger
            lanczos3_may_give(bytes, src_w, src_h, dst_w, dst_h, a),
            lanczos3_may_give(bytes, src_w, src_h, dst_w, dst_h, b)]
        lanczos3_may_give(bytes, src_w, src_h, dst_w, dst_h, a) && lanczos3_may_give(
            bytes,
            src_w,
            src_h,
            dst_w,
            dst_h,
            b,
        ) ==> a == b
}

/// Laid-out planes of the same pixels are equal.
proof fn lemma_same_layout<T, F: Fn(usize, u8) -> T>(
    normalize: F,
    rgb: Seq<u8>,
    area: int,
    a: Seq<T>,
    b: Seq<T>,
)
    requires
        is_function(normalize),
        a.len() == 3 * area,
        b.len() == 3 * area,
        laid_out(normalize, rgb, area, a, 0),
        laid_out(normalize, rgb, area, b, 0),
    ensures
        a == b,
{
    assert forall|k: int| 0 <= k < a.len() implies a[k] == b[k] by {
        let i = if k < area {
            k
        } else if k < 2 * area {
            k - area
        } else {
            k - 2 * area
        };
        let v = rgb[3 * i];
        assert(a[0 + i] == b[0 + i]);
        assert(call_ensures(normalize, (1usize, rgb[3 * i + 1]), a[0 + area + i]));
        assert(call_ensures(normalize, (1usize, rgb[3 * i + 1]), b[0 + area + i]));
        assert(call_ensures(normalize, (2usize, rgb[3 * i + 2]), a[0 + 2 * area + i]));
        assert(call_ensures(normalize, (2usize, rgb[3 * i + 2]), b[0 + 2 * area + i]));
    }
    assert(a =~= b);
}

/// Law: the pixel format does not matter.  Two images of the same dimensions and with
/// the same RGB bytes give the model the same planes, where normalisation and filter are
/// functions and there are pixels.
pub proof fn law_format_does_not_matter<T, F: Fn(usize, u8) -> T>(
    a: &SourceImage,
    b: &SourceImage,
    dst_w: u32,
    dst_h: u32,
    normalize: &F,
    dst_a: &mut [T],
    scratch_a: &mut Vec<u8>,
    dst_b: &mut [T],
    scratch_b: &mut Vec<u8>,
)
    requires
        is_function(*normalize),
        a.width == b.width,
        a.height == b.height,
        a.width > 0 && a.height > 0,
        a.rgb8() == b.rgb8(),
        filters_once(a.rgb8(), a.width, a.height, dst_w, dst_h),
        call_ensures(
            preprocess_into_slice::<T, F>,
            (a, dst_w, dst_h, normalize, dst_a, scratch_a),
            (),
        ),
        call_ensures(
            preprocess_into_slice::<T, F>,
            (b, dst_w, dst_h, normalize, dst_b, scratch_b),
            (),
        ),
    ensures
        final(dst_a)@ == final(dst_b)@,
{
    law_preprocess_into_slice(a, dst_w, dst_h, normalize, dst_a, scratch_a);
    law_preprocess_into_slice(b, dst_w, dst_h, normalize, dst_b, scratch_b);
    let (bytes, w, h) = (a.rgb8(), a.width, a.height);
    let rgb_a = choose|rgb: Seq<u8>|
        {
            &&& #[trigger] brought_to(bytes, w, h, dst_w, dst_h, old(scratch_a)@, rgb)
            &&& laid_out(*normalize, rgb, dst_w * dst_h, final(dst_a)@, 0)
        };
    let rgb_b = choose|rgb: Seq<u8>|
        {
            &&& #[trigger] brought_to(bytes, w, h, dst_w, dst_h, old(scratch_b)@, rgb)
            &&& laid_out(*normalize, rgb, dst_w * dst_h, final(dst_b)@, 0)
        };
    if dst_w == 0 || dst_h == 0 {
        assert(dst_w * dst_h == 0) by (nonlinear_arith)
            requires
                dst_w == 0 || dst_h == 0,
        ;
        assert(final(dst_a)@ =~= final(dst_b)@);
    } else {
        assert(rgb_a == rgb_b);
        lemma_same_layout(*normalize, rgb_a, dst_w * dst_h, final(dst_a)@, final(dst_b)@);
    }
}

/// Law: an image of any format that has all its samples can be prepared for a model of
/// ordinary dimensions.
pub proof fn law_every_image_is_prepared<T, F: Fn(usize, u8) -> T>(
    image: &SourceImage,
    dst_w: u32,
    dst_h: u32,
    normalize: &F,
    dst: &mut [T],
    list: &mut Vec<T>,
    scratch: &mut Vec<u8>,
)
    requires
        complete(*image),
        image.width <= 16384 && image.height <= 16384,
        dst_w <= 16384 && dst_h <= 16384,
        old(dst)@.len() == 3 * (dst_w * dst_h),
        forall|c: usize, v: u8| c < 3 ==> call_requires(*normalize, (c, v)),
    ensures
        call_requires(
            preprocess_into_slice::<T, F>,
            (image, dst_w, dst_h, normalize, dst, scratch),
        ),
        call_requires(preprocess_into::<T, F>, (image, dst_w, dst_h, normalize, list, scratch)),
{
    lemma_ordinary(image.width, image.height, dst_w, dst_h);
    lemma_ordinary(dst_w, dst_h, dst_w, dst_h);
}

pub(crate) proof fn lemma_ordinary(src_w: u32, src_h: u32, dst_w: u32, dst_h: u32)
    requires
        src_w <= 16384 && src_h <= 16384 && dst_w <= 16384 && dst_h <= 16384,
    ensures
        resizable(src_w, src_h, dst_w, dst_h),
        0 <= 3 * (src_w * src_h) <= 0x3000_0000,
{
    assert(0 <= src_w * dst_h <= 16384 * 16384) by (nonlinear_arith)
        requires
            src_w <= 16384,
            dst_h <= 16384,
    ;
    assert(0 <= src_w * src_h <= 16384 * 16384) by (nonlinear_arith)
        requires
            src_w <= 16384,
            src_h <= 16384,
    ;
}

/// Law: ordinary dimensions can be resized to each other, and what can be resized stays
/// so where no dimension grows.
pub proof fn law_can_resize(
    src_w: u32,
    src_h: u32,
    dst_w: u32,
    dst_h: u32,
    res: bool,
    w1: u32,
    h1: u32,
    w2: u32,
    h2: u32,
    smaller: bool,
)
    requires
        call_ensures(can_resize, (src_w, src_h, dst_w, dst_h), res),
        call_ensures(can_resize, (w1, h1, w2, h2), smaller),
        w1 <= src_w && h1 <= src_h && w2 <= dst_w && h2 <= dst_h,
    ensures
        src_w <= 16384 && src_h <= 16384 && dst_w <= 16384 && dst_h <= 16384 ==> res,
        res ==> smaller,
{
    if src_w <= 16384 && src_h <= 16384 && dst_w <= 16384 && dst_h <= 16384 {
        lemma_ordinary(src_w, src_h, dst_w, dst_h);
    }
    assert(w1 * h2 <= src_w * dst_h) by (nonlinear_arith)
        requires
            w1 <= src_w,
            h2 <= dst_h,
    ;
}

} // verus!
