//! Spatial resizing of packed three-byte pixels.

use fast_image_resize::images::Image;
use fast_image_resize::{PixelType, Resizer};
use vstd::prelude::*;

verus! {

/// The same pixels with the first and the third byte of each one exchanged:
/// RGB becomes BGR and BGR becomes RGB.
pub open spec fn swap_rb(pixels: Seq<u8>) -> Seq<u8> {
    Seq::new(pixels.len(), |k: int| pixels[3 * (k / 3) + 2 - k % 3])
}

/// Whether `out` is an output that the Lanczos3 convolution of
/// `fast_image_resize::Resizer` may give for the packed pixels `src` of
/// `src_w` by `src_h`, taken to `dst_w` by `dst_h`.
///
/// This is a relation and not a function: the filter weights come from the
/// platform's sine, and the code path from the CPU that runs it.
pub uninterp spec fn lanczos3_may_give(
    src: Seq<u8>,
    src_w: u32,
    src_h: u32,
    dst_w: u32,
    dst_h: u32,
    out: Seq<u8>,
) -> bool;

/// Two buffers hold the same bytes in channel `c` of every pixel.
pub open spec fn same_channel(a: Seq<u8>, b: Seq<u8>, c: int) -> bool {
    &&& a.len() == b.len()
    &&& forall|k: int| 0 <= k < a.len() && k % 3 == c ==> #[trigger] a[k] == b[k]
}

/// Each channel of `out` rests on that channel of `src` alone: for every source that
/// agrees with `src` in a channel, the convolution may give an output that agrees with
/// `out` in that channel, and may give it with red and blue exchanged on both sides.
pub open spec fn channels_apart(
    src: Seq<u8>,
    src_w: u32,
    src_h: u32,
    dst_w: u32,
    dst_h: u32,
    out: Seq<u8>,
) -> bool {
    forall|other: Seq<u8>, c: int|
        0 <= c < 3 && #[trigger] same_channel(src, other, c) ==> exists|other_out: Seq<u8>|
            {
                &&& #[trigger] lanczos3_may_give(other, src_w, src_h, dst_w, dst_h, other_out)
                &&& lanczos3_may_give(
                    swap_rb(other),
                    src_w,
                    src_h,
                    dst_w,
                    dst_h,
                    swap_rb(other_out),
                )
                &&& same_channel(out, other_out, c)
            }
}

/// A resize of these pixels has a single result: it copies or does nothing, or the
/// convolution gives one output for them, as it does on one machine.
pub open spec fn settled(
    src: Seq<u8>,
    src_w: u32,
    src_h: u32,
    dst_w: u32,
    dst_h: u32,
) -> bool {
    no_pixels(src_w, src_h, dst_w, dst_h) || (src_w == dst_w && src_h == dst_h) || forall|
        a: Seq<u8>,
        b: Seq<u8>,
    |
        #![trigger
            lanczos3_may_give(src, src_w, src_h, dst_w, dst_h, a),
            lanczos3_may_give(src, src_w, src_h, dst_w, dst_h, b)]
        lanczos3_may_give(src, src_w, src_h, dst_w, dst_h, a) && lanczos3_may_give(
            src,
            src_w,
            src_h,
            dst_w,
            dst_h,
            b,
        ) ==> a == b
}

/// Whether the source or the destination of a resize has no pixels.
pub open spec fn no_pixels(src_w: u32, src_h: u32, dst_w: u32, dst_h: u32) -> bool {
    src_w == 0 || src_h == 0 || dst_w == 0 || dst_h == 0
}

/// Whether the resizer's own buffers can be addressed: one of the source's width by
/// the destination's height, with a pixel to spare, and the filter weights of each
/// side, at most nine numbers of eight bytes for each pixel of the longer one.
pub open spec fn resizable(src_w: u32, src_h: u32, dst_w: u32, dst_h: u32) -> bool {
    &&& 3 * (src_w * dst_h) + 3 <= isize::MAX
    &&& 72 * src_w <= isize::MAX
    &&& 72 * src_h <= isize::MAX
    &&& 72 * dst_w <= isize::MAX
    &&& 72 * dst_h <= isize::MAX
}

/// Whether the resizer's own buffers can be addressed.
pub fn can_resize(src_w: u32, src_h: u32, dst_w: u32, dst_h: u32) -> (res: bool)
    ensures
        res == resizable(src_w, src_h, dst_w, dst_h),
{
    proof {
        assert(0 <= src_w * dst_h <= u32::MAX * u32::MAX) by (nonlinear_arith);
    }
    let limit: u128 = isize::MAX as u128;
    3 * (src_w as u128 * dst_h as u128) + 3 <= limit && 72 * src_w as u128 <= limit && 72
        * src_h as u128 <= limit && 72 * dst_w as u128 <= limit && 72 * dst_h as u128 <= limit
}

/// What a resize of `src` leaves in a destination that held `before`.
///
/// An image without pixels leaves the destination as it was, equal dimensions
/// copy, and anything else goes through the filter.  The filter treats the
/// three bytes of a pixel alike, so exchanging two of them before the resize
/// or after it comes to the same, and apart, so each rests on its own channel.
pub open spec fn rescaled(
    src: Seq<u8>,
    src_w: u32,
    src_h: u32,
    before: Seq<u8>,
    dst_w: u32,
    dst_h: u32,
    after: Seq<u8>,
) -> bool {
    &&& after.len() == before.len()
    &&& if no_pixels(src_w, src_h, dst_w, dst_h) {
        after == before
    } else if src_w == dst_w && src_h == dst_h {
        after == src
    } else {
        &&& lanczos3_may_give(src, src_w, src_h, dst_w, dst_h, after)
        &&& lanczos3_may_give(swap_rb(src), src_w, src_h, dst_w, dst_h, swap_rb(after))
        &&& channels_apart(src, src_w, src_h, dst_w, dst_h, after)
    }
}

/// Resizes the `src_w` by `src_h` packed pixels at the start of `src` to fill
/// `dst`, `dst_w` by `dst_h` of them.  The order of the channels is kept.
///
/// Calls `fast_image_resize::Resizer::resize` with its default options on two
/// `U8x3` images.  Trusted of it: buffers of at least the stated size are
/// accepted; an empty source or destination leaves `dst` alone; equal
/// dimensions copy the pixels; otherwise `dst` holds an output of the Lanczos3
/// convolution, which works on each channel by itself and in the same way: exchanging
/// red and blue of the source exchanges them in an output, and a source that agrees in
/// one channel has an output that agrees in it.  Which bytes that convolution computes is left unsaid.
#[verifier::external_body]
pub(crate) fn resize_u8x3(
    src: &[u8],
    src_w: u32,
    src_h: u32,
    dst: &mut [u8],
    dst_w: u32,
    dst_h: u32,
)
    requires
        3 * (src_w * src_h) <= src@.len(),
        3 * (dst_w * dst_h) == old(dst)@.len(),
        resizable(src_w, src_h, dst_w, dst_h),
    ensures
        final(dst)@.len() == old(dst)@.len(),
        no_pixels(src_w, src_h, dst_w, dst_h) ==> final(dst)@ == old(dst)@,
        !no_pixels(src_w, src_h, dst_w, dst_h) && src_w == dst_w && src_h == dst_h ==> final(dst)@
            == src@.subrange(0, 3 * (src_w * src_h)),
        !no_pixels(src_w, src_h, dst_w, dst_h) && (src_w != dst_w || src_h != dst_h)
            ==> lanczos3_may_give(
            src@.subrange(0, 3 * (src_w * src_h)),
            src_w,
            src_h,
            dst_w,
            dst_h,
            final(dst)@,
        ),
        !no_pixels(src_w, src_h, dst_w, dst_h) && (src_w != dst_w || src_h != dst_h)
            ==> lanczos3_may_give(
            swap_rb(src@.subrange(0, 3 * (src_w * src_h))),
            src_w,
            src_h,
            dst_w,
            dst_h,
            swap_rb(final(dst)@),
        ),
        !no_pixels(src_w, src_h, dst_w, dst_h) && (src_w != dst_w || src_h != dst_h)
            ==> channels_apart(
            src@.subrange(0, 3 * (src_w * src_h)),
            src_w,
            src_h,
            dst_w,
            dst_h,
            final(dst)@,
        ),
{
    let src_img = Image::from_vec_u8(src_w, src_h, src.to_vec(), PixelType::U8x3).expect(
        "resize_u8x3: source dimensions mismatch",
    );
    let mut dst_img = Image::from_slice_u8(dst_w, dst_h, dst, PixelType::U8x3).expect(
        "resize_u8x3: destination dimensions mismatch",
    );
    Resizer::new().resize(&src_img, &mut dst_img, None).expect("resize_u8x3: resize failed");
}

/// Law: a resize keeps the order of the channels.  Exchanging red and blue before
/// a resize comes to the same as exchanging them after it.
pub proof fn law_resize_keeps_channel_order(
    src: Seq<u8>,
    src_w: u32,
    src_h: u32,
    before: Seq<u8>,
    dst_w: u32,
    dst_h: u32,
    after: Seq<u8>,
)
    requires
        src.len() == 3 * (src_w * src_h),
        before.len() == 3 * (dst_w * dst_h),
        rescaled(src, src_w, src_h, before, dst_w, dst_h, after),
    ensures
        rescaled(swap_rb(src), src_w, src_h, swap_rb(before), dst_w, dst_h, swap_rb(after)),
        swap_rb(swap_rb(after)) == after,
{
    assert(swap_rb(swap_rb(src)) =~= src);
    assert(swap_rb(swap_rb(after)) =~= after);
    if !no_pixels(src_w, src_h, dst_w, dst_h) && (src_w != dst_w || src_h != dst_h) {
        let (src2, after2) = (swap_rb(src), swap_rb(after));
        assert forall|other: Seq<u8>, c: int|
            0 <= c < 3 && #[trigger] same_channel(src2, other, c) implies exists|out: Seq<u8>|
            {
                &&& #[trigger] lanczos3_may_give(other, src_w, src_h, dst_w, dst_h, out)
                &&& lanczos3_may_give(swap_rb(other), src_w, src_h, dst_w, dst_h, swap_rb(out))
                &&& same_channel(after2, out, c)
            } by {
            lemma_swap_channel(src2, other, c);
            assert(same_channel(src, swap_rb(other), 2 - c));
            let mirrored = choose|out: Seq<u8>|
                {
                    &&& #[trigger] lanczos3_may_give(
                        swap_rb(other),
                        src_w,
                        src_h,
                        dst_w,
                        dst_h,
                        out,
                    )
                    &&& lanczos3_may_give(
                        swap_rb(swap_rb(other)),
                        src_w,
                        src_h,
                        dst_w,
                        dst_h,
                        swap_rb(out),
                    )
                    &&& same_channel(after, out, 2 - c)
                };
            assert(swap_rb(swap_rb(other)) =~= other);
            assert(swap_rb(swap_rb(mirrored)) =~= mirrored);
            lemma_swap_channel(after, mirrored, 2 - c);
        }
    }
}

/// Exchanging red and blue carries agreement in a channel to the mirrored one.
proof fn lemma_swap_channel(a: Seq<u8>, b: Seq<u8>, c: int)
    requires
        0 <= c < 3,
        a.len() % 3 == 0,
        same_channel(a, b, c),
    ensures
        same_channel(swap_rb(a), swap_rb(b), 2 - c),
{
    assert forall|k: int| 0 <= k < a.len() && k % 3 == 2 - c implies #[trigger] swap_rb(a)[k]
        == swap_rb(b)[k] by {
        let j = 3 * (k / 3) + 2 - k % 3;
        assert(j % 3 == c && 0 <= j < a.len());
        assert(a[j] == b[j]);
    }
}

/// Law: a resize of the exchanged pixels leaves the exchanged result.  Where the resize
/// is settled, resizing pixels with red and blue exchanged leaves what resizing the
/// pixels themselves leaves, with red and blue exchanged.  Without pixels to resize
/// this holds of what the destinations held.
pub proof fn law_resize_of_swapped_is_swapped(
    src: Seq<u8>,
    src_w: u32,
    src_h: u32,
    dst_w: u32,
    dst_h: u32,
    before: Seq<u8>,
    after: Seq<u8>,
    swapped_before: Seq<u8>,
    swapped_after: Seq<u8>,
)
    requires
        src.len() == 3 * (src_w * src_h),
        before.len() == 3 * (dst_w * dst_h),
        swapped_before.len() == before.len(),
        no_pixels(src_w, src_h, dst_w, dst_h) ==> swapped_before == swap_rb(before),
        settled(swap_rb(src), src_w, src_h, dst_w, dst_h),
        rescaled(src, src_w, src_h, before, dst_w, dst_h, after),
        rescaled(swap_rb(src), src_w, src_h, swapped_before, dst_w, dst_h, swapped_after),
    ensures
        swapped_after == swap_rb(after),
{
}

/// Law: a channel of the result of a resize depends on that channel of the source
/// alone.  Where the resize is settled for one of two sources that agree in a channel,
/// what they leave agrees in that channel.  Without pixels to resize this holds of what
/// the destinations held.
pub proof fn law_channels_are_resized_apart(
    src: Seq<u8>,
    other: Seq<u8>,
    c: int,
    src_w: u32,
    src_h: u32,
    dst_w: u32,
    dst_h: u32,
    before: Seq<u8>,
    after: Seq<u8>,
    other_before: Seq<u8>,
    other_after: Seq<u8>,
)
    requires
        0 <= c < 3,
        same_channel(src, other, c),
        no_pixels(src_w, src_h, dst_w, dst_h) ==> same_channel(before, other_before, c),
        settled(other, src_w, src_h, dst_w, dst_h),
        rescaled(src, src_w, src_h, before, dst_w, dst_h, after),
        rescaled(other, src_w, src_h, other_before, dst_w, dst_h, other_after),
    ensures
        same_channel(after, other_after, c),
{
}

} // verus!
