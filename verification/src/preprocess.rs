//! From packed bytes to the planes that the model reads.
//!
//! The model takes three planes, red, green and blue, one after the other.
//! Each byte becomes one element of a plane through a caller's `normalize`
//! function, which is told the channel (0 is red, 1 green, 2 blue) and the
//! byte; the element type is the caller's.

use crate::resize::{no_pixels, rescaled, resizable, resize_u8x3, settled, swap_rb};
use crate::source_image::{Pixels, SourceImage};
use vstd::prelude::*;

verus! {

/// How a packed buffer orders the bytes of a pixel.
#[derive(Clone, Copy, Debug, PartialEq, Eq, Structural)]
pub enum PixelOrder {
    Rgb,
    Rgba,
    Bgr,
}

impl PixelOrder {
    /// Bytes per pixel.
    pub open spec fn stride(self) -> int {
        match self {
            PixelOrder::Rgb => 3,
            PixelOrder::Rgba => 4,
            PixelOrder::Bgr => 3,
        }
    }

    /// Where channel `c` of pixel `i` stands in the buffer.
    pub open spec fn index(self, i: int, c: int) -> int {
        match self {
            PixelOrder::Rgb => 3 * i + c,
            PixelOrder::Rgba => 4 * i + c,
            PixelOrder::Bgr => 3 * i + 2 - c,
        }
    }

    fn at(self, i: usize, c: usize) -> (res: usize)
        requires
            c < 3,
            self.stride() * (i + 1) <= usize::MAX,
        ensures
            res == self.index(i as int, c as int),
            res < self.stride() * (i + 1),
    {
        match self {
            PixelOrder::Rgb => 3 * i + c,
            PixelOrder::Rgba => 4 * i + c,
            PixelOrder::Bgr => 3 * i + 2 - c,
        }
    }
}

/// `normalize` accepts every byte of every colour channel.
pub open spec fn total<T, F: Fn(usize, u8) -> T>(normalize: F) -> bool {
    forall|c: usize, v: u8| c < 3 ==> call_requires(normalize, (c, v))
}

/// `out` holds the three planes of the `area` pixels in `pixels`: element `i` of
/// the plane of a channel is the normalised byte of that channel of pixel `i`.
pub open spec fn planar_from<T, F: Fn(usize, u8) -> T>(
    normalize: F,
    order: PixelOrder,
    pixels: Seq<u8>,
    area: int,
    out: Seq<T>,
) -> bool {
    &&& out.len() == 3 * area
    &&& forall|i: int|
        #![trigger out[i]]
        #![trigger out[area + i]]
        #![trigger out[2 * area + i]]
        0 <= i < area ==> {
            &&& call_ensures(normalize, (0usize, pixels[order.index(i, 0)]), out[i])
            &&& call_ensures(normalize, (1usize, pixels[order.index(i, 1)]), out[area + i])
            &&& call_ensures(normalize, (2usize, pixels[order.index(i, 2)]), out[2 * area + i])
        }
}

/// `out` holds the three planes of the packed RGB pixels `rgb`.
pub open spec fn planar<T, F: Fn(usize, u8) -> T>(
    normalize: F,
    rgb: Seq<u8>,
    area: int,
    out: Seq<T>,
) -> bool {
    planar_from(normalize, PixelOrder::Rgb, rgb, area, out)
}

/// Normalises `area` packed pixels into the three planes of `dst`.
pub fn scatter<T, F: Fn(usize, u8) -> T>(
    pixels: &[u8],
    order: PixelOrder,
    area: usize,
    normalize: &F,
    dst: &mut [T],
)
    requires
        old(dst)@.len() == 3 * area,
        pixels@.len() >= order.stride() * area,
        total(*normalize),
    ensures
        planar_from(*normalize, order, pixels@, area as int, final(dst)@),
{
    let (r, rest) = dst.split_at_mut(area);
    let (g, b) = rest.split_at_mut(area);
    let mut i: usize = 0;
    while i < area
        invariant
            i <= area,
            r@.len() == area,
            g@.len() == area,
            b@.len() == area,
            pixels.len() >= order.stride() * area,
            total(*normalize),
            forall|j: int|
                #![trigger r@[j]]
                0 <= j < i ==> call_ensures(
                    *normalize,
                    (0usize, pixels@[order.index(j, 0)]),
                    r@[j],
                ),
            forall|j: int|
                #![trigger g@[j]]
                0 <= j < i ==> call_ensures(
                    *normalize,
                    (1usize, pixels@[order.index(j, 1)]),
                    g@[j],
                ),
            forall|j: int|
                #![trigger b@[j]]
                0 <= j < i ==> call_ensures(
                    *normalize,
                    (2usize, pixels@[order.index(j, 2)]),
                    b@[j],
                ),
        decreases area - i,
    {
        proof {
            assert(order.stride() * (i + 1) <= order.stride() * area);
        }
        r[i] = normalize(0, pixels[order.at(i, 0)]);
        g[i] = normalize(1, pixels[order.at(i, 1)]);
        b[i] = normalize(2, pixels[order.at(i, 2)]);
        i = i + 1;
    }
}

/// Normalises `area` packed pixels and appends the three planes to `dst`.
pub fn append_planes<T, F: Fn(usize, u8) -> T>(
    pixels: &[u8],
    order: PixelOrder,
    area: usize,
    normalize: &F,
    dst: &mut Vec<T>,
)
    requires
        pixels@.len() >= order.stride() * area,
        total(*normalize),
    ensures
        appended(old(dst)@, final(dst)@, 3 * area),
        planar_from(
            *normalize,
            order,
            pixels@,
            area as int,
            final(dst)@.skip(old(dst)@.len() as int),
        ),
{
    let ghost before = dst@;
    append_plane(pixels, order, 0, area, normalize, dst);
    let ghost one = dst@;
    append_plane(pixels, order, 1, area, normalize, dst);
    let ghost two = dst@;
    append_plane(pixels, order, 2, area, normalize, dst);
    proof {
        let n = before.len() as int;
        let out = dst@.skip(n);
        assert(dst@.take(n) =~= before) by {
            assert(dst@.take(n) =~= dst@.take(two.len() as int).take(n));
            assert(two.take(n) =~= two.take(one.len() as int).take(n));
        }
        assert forall|i: int|
            #![trigger out[i]]
            #![trigger out[area + i]]
            #![trigger out[2 * area + i]]
            0 <= i < area implies {
            &&& call_ensures(*normalize, (0usize, pixels@[order.index(i, 0)]), out[i])
            &&& call_ensures(*normalize, (1usize, pixels@[order.index(i, 1)]), out[area + i])
            &&& call_ensures(*normalize, (2usize, pixels@[order.index(i, 2)]), out[2 * area + i])
        } by {
            assert(dst@.take(two.len() as int)[n + i] == dst@[n + i]);
            assert(dst@.take(two.len() as int)[n + area + i] == dst@[n + area + i]);
            assert(two.take(one.len() as int)[n + i] == two[n + i]);
            assert(one[n + i] == out[i]);
            assert(two[n + area + i] == out[area + i]);
            assert(dst@[n + 2 * area + i] == out[2 * area + i]);
        }
    }
}

/// `after` is `before` with `n` elements more at its end.
pub open spec fn appended<T>(before: Seq<T>, after: Seq<T>, n: int) -> bool {
    &&& after.len() == before.len() + n
    &&& after.take(before.len() as int) == before
}

/// Appends the plane of channel `c`.
fn append_plane<T, F: Fn(usize, u8) -> T>(
    pixels: &[u8],
    order: PixelOrder,
    c: usize,
    area: usize,
    normalize: &F,
    dst: &mut Vec<T>,
)
    requires
        c < 3,
        pixels@.len() >= order.stride() * area,
        total(*normalize),
    ensures
        appended(old(dst)@, final(dst)@, area as int),
        forall|i: int|
            #![trigger final(dst)@[old(dst)@.len() + i]]
            0 <= i < area ==> call_ensures(
                *normalize,
                (c, pixels@[order.index(i, c as int)]),
                final(dst)@[old(dst)@.len() + i],
            ),
{
    let ghost before = dst@;
    let mut i: usize = 0;
    assert(before.take(before.len() as int) =~= before);
    while i < area
        invariant
            i <= area,
            c < 3,
            pixels.len() >= order.stride() * area,
            total(*normalize),
            appended(before, dst@, i as int),
            forall|j: int|
                #![trigger dst@[before.len() + j]]
                0 <= j < i ==> call_ensures(
                    *normalize,
                    (c, pixels@[order.index(j, c as int)]),
                    dst@[before.len() + j],
                ),
        decreases area - i,
    {
        let ghost prior = dst@;
        assert(order.stride() * (i + 1) <= order.stride() * area);
        let value = normalize(c, pixels[order.at(i, c)]);
        dst.push(value);
        proof {
            assert(dst@.take(before.len() as int) =~= prior.take(before.len() as int));
            assert forall|j: int| 0 <= j < i + 1 implies call_ensures(
                *normalize,
                (c, pixels@[order.index(j, c as int)]),
                #[trigger] dst@[before.len() + j],
            ) by {
                if j < i {
                    assert(dst@[before.len() + j] == prior[before.len() + j]);
                }
            }
        }
        i = i + 1;
    }
}

/// Whether the image goes to the model as it stands: it has the model's
/// dimensions and packed 8-bit colour.
pub open spec fn direct(image: SourceImage, dst_w: u32, dst_h: u32) -> bool {
    &&& image.width == dst_w
    &&& image.height == dst_h
    &&& image.pixels is Rgb8 || image.pixels is Rgba8
}

/// Whether the image can be brought to the model's dimensions.
pub open spec fn fits(image: SourceImage, dst_w: u32, dst_h: u32) -> bool {
    direct(image, dst_w, dst_h) || resizable(image.width, image.height, dst_w, dst_h)
}

/// `bytes` cut or padded with zeros to `n` bytes.
pub open spec fn zero_padded(bytes: Seq<u8>, n: int) -> Seq<u8> {
    Seq::new(
        n as nat,
        |k: int|
            if k < bytes.len() {
                bytes[k]
            } else {
                0
            },
    )
}

/// What fitting an image to the model leaves in the scratch buffer: nothing new
/// for an image that goes as it stands, else the resized RGB pixels.
pub open spec fn fitted(
    image: SourceImage,
    dst_w: u32,
    dst_h: u32,
    before: Seq<u8>,
    after: Seq<u8>,
) -> bool {
    if direct(image, dst_w, dst_h) {
        after == before
    } else {
        rescaled(
            image.rgb8(),
            image.width,
            image.height,
            zero_padded(before, 3 * (dst_w * dst_h)),
            dst_w,
            dst_h,
            after,
        )
    }
}

/// The packed RGB pixels that reach the model, given the scratch buffer as
/// [`fitted`] left it.
pub open spec fn model_rgb(
    image: SourceImage,
    dst_w: u32,
    dst_h: u32,
    scratch: Seq<u8>,
) -> Seq<u8> {
    if direct(image, dst_w, dst_h) {
        image.rgb8()
    } else {
        scratch
    }
}

/// Dimensions whose pixel count fits the types it is computed in.
pub open spec fn dims_fit(w: u32, h: u32) -> bool {
    w * h <= u32::MAX && 3 * (w * h) <= usize::MAX
}

/// Planes of a buffer are planes of the RGB pixels that it stands for.
proof fn lemma_planar_of<T, F: Fn(usize, u8) -> T>(
    normalize: F,
    order: PixelOrder,
    pixels: Seq<u8>,
    rgb: Seq<u8>,
    area: int,
    out: Seq<T>,
)
    requires
        planar_from(normalize, order, pixels, area, out),
        forall|i: int, c: int|
            0 <= i < area && 0 <= c < 3 ==> #[trigger] pixels[order.index(i, c)] == rgb[3 * i + c],
    ensures
        planar(normalize, rgb, area, out),
{
    assert forall|i: int|
        #![trigger out[i]]
        #![trigger out[area + i]]
        #![trigger out[2 * area + i]]
        0 <= i < area implies {
        &&& call_ensures(normalize, (0usize, rgb[PixelOrder::Rgb.index(i, 0)]), out[i])
        &&& call_ensures(normalize, (1usize, rgb[PixelOrder::Rgb.index(i, 1)]), out[area + i])
        &&& call_ensures(normalize, (2usize, rgb[PixelOrder::Rgb.index(i, 2)]), out[2 * area + i])
    } by {
        assert(pixels[order.index(i, 0)] == rgb[3 * i + 0]);
        assert(pixels[order.index(i, 1)] == rgb[3 * i + 1]);
        assert(pixels[order.index(i, 2)] == rgb[3 * i + 2]);
        assert(out[i] == out[i]);
    }
}

/// Planes of a BGR buffer are planes of the RGB pixels that it stands for.
pub proof fn lemma_bgr_planes<T, F: Fn(usize, u8) -> T>(
    normalize: F,
    bgr: Seq<u8>,
    area: int,
    out: Seq<T>,
)
    requires
        bgr.len() == 3 * area,
        planar_from(normalize, PixelOrder::Bgr, bgr, area, out),
    ensures
        planar(normalize, swap_rb(bgr), area, out),
{
    lemma_planar_of(normalize, PixelOrder::Bgr, bgr, swap_rb(bgr), area, out);
}

/// Resizes the image into `scratch` where it cannot go to the model as it
/// stands; tells whether it can.
fn fit(image: &SourceImage, dst_w: u32, dst_h: u32, area: usize, scratch: &mut Vec<u8>) -> (res:
    bool)
    requires
        image.wf(),
        dims_fit(dst_w, dst_h),
        fits(*image, dst_w, dst_h),
        area == dst_w * dst_h,
    ensures
        res == direct(*image, dst_w, dst_h),
        fitted(*image, dst_w, dst_h, old(scratch)@, final(scratch)@),
{
    if image.width == dst_w && image.height == dst_h {
        match &image.pixels {
            Pixels::Rgb8(_) => {
                return true;
            },
            Pixels::Rgba8(_) => {
                return true;
            },
            _ => {},
        }
    }
    let ghost before = scratch@;
    scratch.resize(3 * area, 0);
    assert(scratch@ =~= zero_padded(before, 3 * (dst_w * dst_h)));
    let rgb = image.to_rgb8();
    resize_u8x3(rgb.as_slice(), image.width, image.height, scratch.as_mut_slice(), dst_w, dst_h);
    false
}

/// Fits `image` to `dst_w` by `dst_h` and normalises it into the planes of
/// `dst`.  `scratch` is a reusable buffer for the resized pixels.
pub fn preprocess_into_slice<T, F: Fn(usize, u8) -> T>(
    image: &SourceImage,
    dst_w: u32,
    dst_h: u32,
    normalize: &F,
    dst: &mut [T],
    scratch: &mut Vec<u8>,
)
    requires
        image.wf(),
        dims_fit(dst_w, dst_h),
        fits(*image, dst_w, dst_h),
        old(dst)@.len() == 3 * (dst_w * dst_h),
        total(*normalize),
    ensures
        fitted(*image, dst_w, dst_h, old(scratch)@, final(scratch)@),
        planar(
            *normalize,
            model_rgb(*image, dst_w, dst_h, final(scratch)@),
            dst_w * dst_h,
            final(dst)@,
        ),
{
    let area: usize = (dst_w * dst_h) as usize;
    if fit(image, dst_w, dst_h, area, scratch) {
        match &image.pixels {
            Pixels::Rgb8(raw) => {
                scatter(raw.as_slice(), PixelOrder::Rgb, area, normalize, dst);
                proof {
                    lemma_planar_of(*normalize, PixelOrder::Rgb, raw@, image.rgb8(), area as int, dst@);
                }
            },
            Pixels::Rgba8(raw) => {
                scatter(raw.as_slice(), PixelOrder::Rgba, area, normalize, dst);
                proof {
                    lemma_planar_of(*normalize, PixelOrder::Rgba, raw@, image.rgb8(), area as int, dst@);
                }
            },
            _ => {},
        }
    } else {
        scatter(scratch.as_slice(), PixelOrder::Rgb, area, normalize, dst);
    }
}

/// Fits `image` to `dst_w` by `dst_h`, normalises it and appends the three
/// planes to `dst`.
pub fn preprocess_into<T, F: Fn(usize, u8) -> T>(
    image: &SourceImage,
    dst_w: u32,
    dst_h: u32,
    normalize: &F,
    dst: &mut Vec<T>,
    scratch: &mut Vec<u8>,
)
    requires
        image.wf(),
        dims_fit(dst_w, dst_h),
        fits(*image, dst_w, dst_h),
        total(*normalize),
    ensures
        fitted(*image, dst_w, dst_h, old(scratch)@, final(scratch)@),
        appended(old(dst)@, final(dst)@, 3 * (dst_w * dst_h)),
        planar(
            *normalize,
            model_rgb(*image, dst_w, dst_h, final(scratch)@),
            dst_w * dst_h,
            final(dst)@.skip(old(dst)@.len() as int),
        ),
{
    let area: usize = (dst_w * dst_h) as usize;
    let ghost n = dst@.len() as int;
    if fit(image, dst_w, dst_h, area, scratch) {
        match &image.pixels {
            Pixels::Rgb8(raw) => {
                append_planes(raw.as_slice(), PixelOrder::Rgb, area, normalize, dst);
                proof {
                    lemma_planar_of(*normalize, PixelOrder::Rgb, raw@, image.rgb8(), area as int, dst@.skip(n));
                }
            },
            Pixels::Rgba8(raw) => {
                append_planes(raw.as_slice(), PixelOrder::Rgba, area, normalize, dst);
                proof {
                    lemma_planar_of(*normalize, PixelOrder::Rgba, raw@, image.rgb8(), area as int, dst@.skip(n));
                }
            },
            _ => {},
        }
    } else {
        append_planes(scratch.as_slice(), PixelOrder::Rgb, area, normalize, dst);
    }
}

/// Normalises a packed BGR buffer of exactly `dst_w` by `dst_h` pixels into the
/// planes of `dst`, which are in the order red, green, blue.
pub fn preprocess_bgr_into_slice<T, F: Fn(usize, u8) -> T>(
    bgr: &[u8],
    dst_w: u32,
    dst_h: u32,
    normalize: &F,
    dst: &mut [T],
)
    requires
        dims_fit(dst_w, dst_h),
        bgr@.len() == 3 * (dst_w * dst_h),
        old(dst)@.len() == 3 * (dst_w * dst_h),
        total(*normalize),
    ensures
        planar(*normalize, swap_rb(bgr@), dst_w * dst_h, final(dst)@),
{
    let area: usize = (dst_w * dst_h) as usize;
    scatter(bgr, PixelOrder::Bgr, area, normalize, dst);
    proof {
        lemma_bgr_planes(*normalize, bgr@, area as int, dst@);
    }
}

/// Law: an image that has the model's dimensions reaches the model as it is,
/// whatever its format and whichever way it takes there.
pub proof fn law_image_at_model_size_is_kept(
    image: SourceImage,
    dst_w: u32,
    dst_h: u32,
    before: Seq<u8>,
    after: Seq<u8>,
)
    requires
        image.width == dst_w,
        image.height == dst_h,
        fitted(image, dst_w, dst_h, before, after),
    ensures
        model_rgb(image, dst_w, dst_h, after) == image.rgb8(),
{
    if !direct(image, dst_w, dst_h) && no_pixels(dst_w, dst_h, dst_w, dst_h) {
        assert(dst_w * dst_h == 0) by (nonlinear_arith)
            requires
                dst_w == 0 || dst_h == 0,
        ;
        assert(after =~= image.rgb8());
    }
}

/// Whether the scratch buffer plays no part in what an image becomes: it goes to the
/// model as it stands, or it has pixels to resize, or the model takes none.
pub open spec fn scratch_free(image: SourceImage, dst_w: u32, dst_h: u32) -> bool {
    ||| direct(image, dst_w, dst_h)
    ||| image.width > 0 && image.height > 0
    ||| dst_w == 0 || dst_h == 0
}

/// Law: the scratch buffer is only scratch.  The pixels that an image gives to the
/// model do not depend on what earlier images left there; only an image without
/// pixels that has to be resized takes that up.
pub proof fn law_scratch_is_only_scratch(
    image: SourceImage,
    dst_w: u32,
    dst_h: u32,
    before: Seq<u8>,
    other: Seq<u8>,
    after: Seq<u8>,
)
    requires
        scratch_free(image, dst_w, dst_h),
        fitted(image, dst_w, dst_h, before, after),
    ensures
        exists|other_after: Seq<u8>|
            {
                &&& #[trigger] fitted(image, dst_w, dst_h, other, other_after)
                &&& model_rgb(image, dst_w, dst_h, other_after) == model_rgb(
                    image,
                    dst_w,
                    dst_h,
                    after,
                )
            },
{
    if direct(image, dst_w, dst_h) {
        assert(fitted(image, dst_w, dst_h, other, other));
    } else {
        let n = 3 * (dst_w * dst_h);
        assert(0 <= n) by (nonlinear_arith)
            requires
                n == 3 * (dst_w * dst_h),
        ;
        if dst_w == 0 || dst_h == 0 {
            assert(dst_w * dst_h == 0) by (nonlinear_arith)
                requires
                    dst_w == 0 || dst_h == 0,
            ;
            assert(zero_padded(before, n) =~= zero_padded(other, n));
        }
        assert(fitted(image, dst_w, dst_h, other, after));
    }
}

/// `normalize` gives one element for a byte of a channel.
pub open spec fn normalizes_once<T, F: Fn(usize, u8) -> T>(normalize: F) -> bool {
    forall|c: usize, v: u8, a: T, b: T|
        #![trigger call_ensures(normalize, (c, v), a), call_ensures(normalize, (c, v), b)]
        call_ensures(normalize, (c, v), a) && call_ensures(normalize, (c, v), b) ==> a == b
}

/// Law: where normalisation is a function, the pixels determine the planes.
pub proof fn law_pixels_determine_planes<T, F: Fn(usize, u8) -> T>(
    normalize: F,
    rgb: Seq<u8>,
    area: int,
    a: Seq<T>,
    b: Seq<T>,
)
    requires
        normalizes_once(normalize),
        planar(normalize, rgb, area, a),
        planar(normalize, rgb, area, b),
    ensures
        a == b,
{
    assert forall|k: int| 0 <= k < a.len() implies a[k] == b[k] by {
        let order = PixelOrder::Rgb;
        if k < area {
            let v = rgb[order.index(k, 0)];
            assert(call_ensures(normalize, (0usize, v), a[k]));
            assert(call_ensures(normalize, (0usize, v), b[k]));
        } else if k < 2 * area {
            let i = k - area;
            let v = rgb[order.index(i, 1)];
            assert(call_ensures(normalize, (1usize, v), a[area + i]));
            assert(call_ensures(normalize, (1usize, v), b[area + i]));
        } else {
            let i = k - 2 * area;
            let v = rgb[order.index(i, 2)];
            assert(call_ensures(normalize, (2usize, v), a[2 * area + i]));
            assert(call_ensures(normalize, (2usize, v), b[2 * area + i]));
        }
    }
    assert(a =~= b);
}

/// The resizer gives a single output for the image, or is not asked.
pub open spec fn fits_once(image: SourceImage, dst_w: u32, dst_h: u32) -> bool {
    direct(image, dst_w, dst_h) || settled(
        image.rgb8(),
        image.width,
        image.height,
        dst_w,
        dst_h,
    )
}

/// Law: where the resizer is a function, an image determines the pixels that reach the
/// model, whatever the scratch buffer held; one without pixels that has to be resized
/// does so where the scratch buffer held the same.
pub proof fn law_image_determines_pixels(
    image: SourceImage,
    dst_w: u32,
    dst_h: u32,
    before1: Seq<u8>,
    after1: Seq<u8>,
    before2: Seq<u8>,
    after2: Seq<u8>,
)
    requires
        fits_once(image, dst_w, dst_h),
        fitted(image, dst_w, dst_h, before1, after1),
        fitted(image, dst_w, dst_h, before2, after2),
        scratch_free(image, dst_w, dst_h) || before1 == before2,
    ensures
        model_rgb(image, dst_w, dst_h, after1) == model_rgb(image, dst_w, dst_h, after2),
{
    if !direct(image, dst_w, dst_h) && (dst_w == 0 || dst_h == 0) {
        assert(dst_w * dst_h == 0) by (nonlinear_arith)
            requires
                dst_w == 0 || dst_h == 0,
        ;
        assert(after1 =~= after2);
    }
}

/// Law: appending gives what filling a slice gives.  What [`preprocess_into`] leaves is
/// what was there, followed by the slice that [`preprocess_into_slice`] fills for the
/// same image.
pub proof fn law_appended_equals_slice<T, F: Fn(usize, u8) -> T>(
    normalize: F,
    image: SourceImage,
    dst_w: u32,
    dst_h: u32,
    before1: Seq<u8>,
    after1: Seq<u8>,
    old_dst: Seq<T>,
    dst: Seq<T>,
    before2: Seq<u8>,
    after2: Seq<u8>,
    slice: Seq<T>,
)
    requires
        normalizes_once(normalize),
        fits_once(image, dst_w, dst_h),
        scratch_free(image, dst_w, dst_h) || before1 == before2,
        fitted(image, dst_w, dst_h, before1, after1),
        appended(old_dst, dst, 3 * (dst_w * dst_h)),
        planar(
            normalize,
            model_rgb(image, dst_w, dst_h, after1),
            dst_w * dst_h,
            dst.skip(old_dst.len() as int),
        ),
        fitted(image, dst_w, dst_h, before2, after2),
        planar(normalize, model_rgb(image, dst_w, dst_h, after2), dst_w * dst_h, slice),
    ensures
        dst == old_dst + slice,
{
    let n = old_dst.len() as int;
    law_image_determines_pixels(image, dst_w, dst_h, before1, after1, before2, after2);
    law_pixels_determine_planes(
        normalize,
        model_rgb(image, dst_w, dst_h, after1),
        dst_w * dst_h,
        dst.skip(n),
        slice,
    );
    assert(dst =~= dst.take(n) + dst.skip(n));
}

/// Law: a BGR buffer at the model's dimensions gives the planes of the RGB image of the
/// same picture.  What [`preprocess_bgr_into_slice`] fills for the buffer is what
/// [`preprocess_into_slice`] fills for the image.
pub proof fn law_bgr_equals_rgb<T, F: Fn(usize, u8) -> T>(
    normalize: F,
    bgr: Seq<u8>,
    image: SourceImage,
    before: Seq<u8>,
    after: Seq<u8>,
    from_bgr: Seq<T>,
    from_image: Seq<T>,
)
    requires
        normalizes_once(normalize),
        image.pixels is Rgb8,
        image.rgb8() == swap_rb(bgr),
        planar(normalize, swap_rb(bgr), image.area(), from_bgr),
        fitted(image, image.width, image.height, before, after),
        planar(
            normalize,
            model_rgb(image, image.width, image.height, after),
            image.area(),
            from_image,
        ),
    ensures
        from_bgr == from_image,
{
    law_pixels_determine_planes(normalize, image.rgb8(), image.area(), from_bgr, from_image);
}

} // verus!
