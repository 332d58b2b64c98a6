//! What the steps of an engine hand to the model and read from its outputs.

use crate::config::{Device, EngineConfig, Precision};
use crate::engine::{
    batch_planes, image_part, only_image, sizes_of, BatchStart, Engine, InputSource, Request,
};
use crate::error::Error;
use crate::float_bits::F32;
use crate::laws::detections::{decoded, lemma_decoded};
use crate::laws::images::{
    at_once, brought_to, complete, laid_out, lemma_brought_to, lemma_laid_out, lemma_ordinary,
    lemma_rescaled, lemma_swapped,
};
use crate::model::ModelInfo;
use crate::postprocess::Detection;
use crate::preprocess::{model_rgb, planar, PixelOrder};
use crate::resize::{lanczos3_may_give, swap_rb};
use crate::source_image::SourceImage;
use vstd::prelude::*;

verus! {

/// The dimensions of a model's input fit the types that pixels are counted in.
pub open spec fn countable(info: ModelInfo) -> bool {
    &&& info.input_width * info.input_height <= u32::MAX
    &&& info.input_width <= u32::MAX
    &&& info.input_height <= u32::MAX
}

/// `shape` is batch, channels, height, width.
pub open spec fn shaped(shape: Seq<i64>, batch: int, info: ModelInfo) -> bool {
    &&& shape.len() == 4
    &&& batch <= i64::MAX ==> shape[0] == batch
    &&& info.input_channels <= i64::MAX ==> shape[1] == info.input_channels
    &&& info.input_height <= i64::MAX ==> shape[2] == info.input_height
    &&& info.input_width <= i64::MAX ==> shape[3] == info.input_width
}

/// Law: a new engine has what it was given, the length of its model's input, single
/// precision on a CPU and the requested precision on a GPU.
pub proof fn law_new_engine<T>(
    config: EngineConfig,
    device: Device,
    info: ModelInfo,
    pinned: bool,
    res: Engine<T>,
)
    requires
        call_ensures(Engine::<T>::new, (config, device, info, pinned), res),
    ensures
        res.model_info == info,
        res.active_device == device,
        res.config == config,
        res.pinned == pinned,
        res.input_len == info.input_channels * (info.input_width * info.input_height),
        device == Device::TensorRt || device == Device::Cuda ==> res.active_precision
            == config.precision,
        device == Device::Cpu || device == Device::Auto ==> res.active_precision
            == Precision::Fp32,
        res.preprocess_buf@.len() == 0 && res.scratch_rgb@.len() == 0,
{
}

/// `rgbs` are what the images of a batch are brought to, each with the scratch buffer
/// that the one before it left, and `tensor` holds their planes one after the other.  An
/// image leaves its pixels in the scratch buffer, unless it needs none.
pub open spec fn batch_laid_out<T, F: Fn(usize, u8) -> T>(
    normalize: F,
    images: Seq<SourceImage>,
    w: u32,
    h: u32,
    tensor: Seq<T>,
    scratch: Seq<Seq<u8>>,
    rgbs: Seq<Seq<u8>>,
) -> bool {
    &&& rgbs.len() == images.len()
    &&& scratch.len() == images.len() + 1
    &&& tensor.len() == images.len() * (3 * (w * h))
    &&& forall|b: int|
        #![trigger rgbs[b]]
        0 <= b < images.len() ==> {
            &&& brought_to(
                images[b].rgb8(),
                images[b].width,
                images[b].height,
                w,
                h,
                scratch[b],
                rgbs[b],
            )
            &&& laid_out(normalize, rgbs[b], w * h, tensor, b * (3 * (w * h)))
            &&& scratch[b + 1] == if at_once(images[b], w, h) {
                scratch[b]
            } else {
                rgbs[b]
            }
        }
}

/// A batch that a contract states is laid out.
proof fn lemma_batch_laid_out<T, F: Fn(usize, u8) -> T>(
    normalize: F,
    images: Seq<SourceImage>,
    w: u32,
    h: u32,
    scratch: Seq<Seq<u8>>,
    tensor: Seq<T>,
) -> (rgbs: Seq<Seq<u8>>)
    requires
        batch_planes(normalize, images, w, h, scratch, tensor),
    ensures
        batch_laid_out(normalize, images, w, h, tensor, scratch, rgbs),
{
    let n = 3 * (w * h);
    assert(0 <= w * h) by (nonlinear_arith);
    let rgbs = Seq::new(
        images.len(),
        |b: int| model_rgb(images[b], w, h, scratch[b + 1]),
    );
    assert forall|b: int| #![trigger rgbs[b]] 0 <= b < images.len() implies {
        &&& brought_to(
            images[b].rgb8(),
            images[b].width,
            images[b].height,
            w,
            h,
            scratch[b],
            rgbs[b],
        )
        &&& laid_out(normalize, rgbs[b], w * h, tensor, b * n)
        &&& scratch[b + 1] == if at_once(images[b], w, h) {
            scratch[b]
        } else {
            rgbs[b]
        }
    } by {
        let image = images[b];
        lemma_brought_to(image, w, h, scratch[b], scratch[b + 1]);
        assert(0 <= b * n && (b + 1) * n == b * n + n && (b + 1) * n <= images.len() * n)
            by (nonlinear_arith)
            requires
                0 <= b < images.len(),
                0 <= n,
        ;
        lemma_laid_out(
            normalize,
            rgbs[b],
            w * h,
            tensor.subrange(b * n, (b + 1) * n),
            tensor,
            b * n,
        );
    }
    rgbs
}

/// Law: a batch without images has nothing to run and changes nothing; one with more
/// images than the engine takes is refused with both numbers and changes nothing.
pub proof fn law_begin_batch_refuses<T, F: Fn(usize, u8) -> T>(
    engine: &mut Engine<T>,
    images: &Vec<SourceImage>,
    normalize: &F,
    pinned: &mut [T],
    res: Result<BatchStart, Error>,
)
    requires
        call_ensures(Engine::<T>::begin_batch::<F>, (engine, images, normalize, pinned), res),
        images@.len() == 0 || images@.len() > old(engine).config.max_batch_size,
    ensures
        images@.len() == 0 ==> res == Ok::<BatchStart, Error>(BatchStart::Empty),
        images@.len() > 0 ==> (res matches Err(Error::BatchTooLarge { requested, max })
            && requested == images@.len() && max == old(engine).config.max_batch_size),
        *final(engine) == *old(engine),
        final(pinned)@ == old(pinned)@,
{
}

/// Law: a batch that the engine takes is a tensor of the model's shape that holds the
/// planes of every image in turn, each from that image's own RGB bytes, with the
/// dimensions of each image beside it.  One image on an engine with a page-locked buffer
/// goes there, anything else to the engine's own buffer.
pub proof fn law_begin_batch<T, F: Fn(usize, u8) -> T>(
    engine: &mut Engine<T>,
    images: &Vec<SourceImage>,
    normalize: &F,
    pinned: &mut [T],
    res: Result<BatchStart, Error>,
)
    requires
        call_ensures(Engine::<T>::begin_batch::<F>, (engine, images, normalize, pinned), res),
        0 < images@.len() <= old(engine).config.max_batch_size,
        countable(old(engine).model_info),
    ensures
        ({
            let (before, after) = (*old(engine), *final(engine));
            let info = before.model_info;
            let (w, h) = (info.input_width as u32, info.input_height as u32);
            let lent = images@.len() == 1 && before.pinned;
            &&& res matches Ok(BatchStart::Run(request))
            &&& shaped(request.shape@, images@.len() as int, info)
            &&& request.orig_sizes@.len() == images@.len()
            &&& forall|b: int|
                0 <= b < images@.len() ==> #[trigger] request.orig_sizes@[b] == (
                    images@[b].width,
                    images@[b].height,
                )
            &&& request.source == if lent {
                InputSource::Pinned
            } else {
                InputSource::Buffer
            }
            &&& exists|tensor: Seq<T>, scratch: Seq<Seq<u8>>, rgbs: Seq<Seq<u8>>|
                {
                    &&& #[trigger] batch_laid_out(
                        *normalize,
                        images@,
                        w,
                        h,
                        tensor,
                        scratch,
                        rgbs,
                    )
                    &&& scratch[0] == before.scratch_rgb@
                    &&& scratch.last() == after.scratch_rgb@
                    &&& tensor == if lent {
                        final(pinned)@
                    } else {
                        after.preprocess_buf@
                    }
                }
            &&& lent ==> after.preprocess_buf == before.preprocess_buf
            &&& !lent ==> final(pinned)@ == old(pinned)@
            &&& after == (Engine {
                scratch_rgb: after.scratch_rgb,
                preprocess_buf: after.preprocess_buf,
                ..before
            })
        }),
{
    let (before, after) = (*old(engine), *final(engine));
    let (w, h) = (before.w(), before.h());
    let lent = images@.len() == 1 && before.pinned;
    let request = res->Ok_0->Run_0;
    assert forall|b: int| 0 <= b < images@.len() implies #[trigger] request.orig_sizes@[b] == (
        images@[b].width,
        images@[b].height,
    ) by {
        assert(sizes_of(images@)[b] == request.orig_sizes@[b]);
    }
    if lent {
        let scratch = seq![before.scratch_rgb@, after.scratch_rgb@];
        crate::engine::law_batch_of_one_is_its_image(
            *normalize,
            images@[0],
            w,
            h,
            scratch,
            final(pinned)@,
        );
        assert(seq![images@[0]] =~= images@);
        let rgbs = lemma_batch_laid_out(*normalize, images@, w, h, scratch, final(pinned)@);
        assert(scratch[0] == before.scratch_rgb@);
    } else {
        let scratch = choose|scratch: Seq<Seq<u8>>|
            {
                &&& #[trigger] batch_planes(
                    *normalize,
                    images@,
                    w,
                    h,
                    scratch,
                    after.preprocess_buf@,
                )
                &&& scratch[0] == before.scratch_rgb@
                &&& scratch.last() == after.scratch_rgb@
            };
        let rgbs = lemma_batch_laid_out(
            *normalize,
            images@,
            w,
            h,
            scratch,
            after.preprocess_buf@,
        );
    }
}

/// Law: any batch of images that have all their samples can begin on an engine for a
/// model of ordinary dimensions, and a batch that is refused whatever it holds.
pub proof fn law_every_batch_can_begin<T, F: Fn(usize, u8) -> T>(
    engine: &mut Engine<T>,
    images: &Vec<SourceImage>,
    normalize: &F,
    pinned: &mut [T],
)
    requires
        ({
            let info = old(engine).model_info;
            old(engine).input_len == info.input_channels * (info.input_width * info.input_height)
        }),
        0 < images@.len() <= old(engine).config.max_batch_size ==> {
            let info = old(engine).model_info;
            &&& info.input_width <= 16384 && info.input_height <= 16384
            &&& old(engine).pinned ==> info.input_channels == 3 && old(pinned)@.len() == 3 * (
            info.input_width * info.input_height)
            &&& forall|c: usize, v: u8| c < 3 ==> call_requires(*normalize, (c, v))
            &&& forall|b: int|
                0 <= b < images@.len() ==> complete(#[trigger] images@[b]) && images@[b].width
                    <= 16384 && images@[b].height <= 16384
        },
    ensures
        call_requires(Engine::<T>::begin_batch::<F>, (engine, images, normalize, pinned)),
{
    let info = old(engine).model_info;
    if 0 < images@.len() <= old(engine).config.max_batch_size {
        let (w, h) = (info.input_width as u32, info.input_height as u32);
        lemma_ordinary(w, h, w, h);
        assert forall|b: int| 0 <= b < images@.len() implies (#[trigger] images@[b]).wf()
            && crate::preprocess::fits(images@[b], w, h) by {
            lemma_ordinary(images@[b].width, images@[b].height, w, h);
        }
    }
}

/// The part of raw outputs that belongs to image `b`, where each image has `n` of them:
/// element `j` of the part is element `b * n + j` of the whole.
pub open spec fn share(raw: Seq<F32>, b: int, n: int) -> Seq<F32> {
    Seq::new(n as nat, |j: int| raw[b * n + j])
}

proof fn lemma_share(raw: Seq<F32>, b: int, count: int, n: int)
    requires
        0 <= b < count,
        0 <= n,
        raw.len() >= count * n,
    ensures
        image_part(raw, b, n) == share(raw, b, n),
{
    assert(0 <= b * n && (b + 1) * n == b * n + n && (b + 1) * n <= count * n) by (nonlinear_arith)
        requires
            0 <= b < count,
            0 <= n,
    ;
    assert(image_part(raw, b, n) =~= share(raw, b, n));
}

/// Law: the outputs of a batch are shared out among its images in order.  The detections
/// of image `b` are what its own share of the outputs decodes to, in an image of its own
/// dimensions; and there is one list for each image.
pub proof fn law_finish_batch<T, S: Fn(F32) -> F32, E: Fn(F32, F32, u32) -> (i32, i32)>(
    engine: &mut Engine<T>,
    request: &Request,
    boxes: &[F32],
    logits: &[F32],
    threshold: F32,
    score: &S,
    edges: &E,
    res: Vec<Vec<Detection>>,
    b: int,
)
    requires
        call_ensures(
            Engine::<T>::finish_batch::<S, E>,
            (engine, request, boxes, logits, threshold, score, edges),
            res,
        ),
        ({
            let info = old(engine).model_info;
            let count = request.orig_sizes@.len();
            &&& boxes@.len() >= count * (info.num_queries * 4)
            &&& logits@.len() >= count * (info.num_queries * info.num_classes)
        }),
        0 <= b < request.orig_sizes@.len(),
    ensures
        res@.len() == request.orig_sizes@.len(),
        ({
            let info = old(engine).model_info;
            let (nq, nc) = (info.num_queries as int, info.num_classes as int);
            decoded(
                *score,
                *edges,
                share(boxes@, b, nq * 4),
                share(logits@, b, nq * nc),
                nq,
                nc,
                request.orig_sizes@[b].0,
                request.orig_sizes@[b].1,
                threshold,
                res@[b]@,
            )
        }),
        *final(engine) == (Engine {
            boxes_out: final(engine).boxes_out,
            logits_out: final(engine).logits_out,
            ..*old(engine)
        }),
        request.source == InputSource::Buffer ==> final(engine).boxes_out@ == boxes@
            && final(engine).logits_out@ == logits@,
{
    let info = old(engine).model_info;
    let (nq, nc) = (info.num_queries as int, info.num_classes as int);
    let count = request.orig_sizes@.len() as int;
    assert(0 <= nq * nc) by (nonlinear_arith)
        requires
            0 <= nq,
            0 <= nc,
    ;
    lemma_share(boxes@, b, count, nq * 4);
    lemma_share(logits@, b, count, nq * nc);
    lemma_decoded(
        *score,
        *edges,
        image_part(boxes@, b, nq * 4),
        image_part(logits@, b, nq * nc),
        nq,
        nc,
        request.orig_sizes@[b].0,
        request.orig_sizes@[b].1,
        threshold,
        res@[b]@,
    );
}

/// The outputs of all images, one after the other.
pub open spec fn joined(parts: Seq<Seq<F32>>) -> Seq<F32>
    decreases parts.len(),
{
    if parts.len() == 0 {
        Seq::empty()
    } else {
        joined(parts.drop_last()) + parts.last()
    }
}

proof fn lemma_joined_share(parts: Seq<Seq<F32>>, n: int, b: int)
    requires
        0 <= n,
        forall|i: int| 0 <= i < parts.len() ==> (#[trigger] parts[i]).len() == n,
        0 <= b < parts.len(),
    ensures
        joined(parts).len() == parts.len() * n,
        share(joined(parts), b, n) == parts[b],
    decreases parts.len(),
{
    let rest = parts.drop_last();
    let k = rest.len() as int;
    assert forall|i: int| 0 <= i < rest.len() implies (#[trigger] rest[i]).len() == n by {
        assert(rest[i] == parts[i]);
    }
    assert((k + 1) * n == k * n + n) by (nonlinear_arith);
    if k == 0 {
        assert(joined(rest).len() == 0);
        assert(0 * n == 0);
    } else {
        lemma_joined_share(rest, n, if b < k { b } else { 0 });
    }
    assert(parts[k] == parts.last());
    assert(joined(rest).len() == k * n);
    if b < k {
        assert(0 <= b * n && b * n + n <= k * n) by (nonlinear_arith)
            requires
                0 <= b < k,
                0 <= n,
        ;
        assert(share(joined(parts), b, n) =~= share(joined(rest), b, n));
    } else {
        assert(share(joined(parts), b, n) =~= parts[b]);
    }
}

/// Law: a batch keeps the outputs of its images apart.  Where the raw outputs are those
/// of each image put together, the detections of image `b` are what the outputs of image
/// `b` alone decode to.
pub proof fn law_images_keep_their_outputs<
    T,
    S: Fn(F32) -> F32,
    E: Fn(F32, F32, u32) -> (i32, i32),
>(
    engine: &mut Engine<T>,
    request: &Request,
    boxes: &[F32],
    logits: &[F32],
    threshold: F32,
    score: &S,
    edges: &E,
    res: Vec<Vec<Detection>>,
    box_parts: Seq<Seq<F32>>,
    logit_parts: Seq<Seq<F32>>,
    b: int,
)
    requires
        call_ensures(
            Engine::<T>::finish_batch::<S, E>,
            (engine, request, boxes, logits, threshold, score, edges),
            res,
        ),
        ({
            let info = old(engine).model_info;
            &&& forall|i: int|
                0 <= i < box_parts.len() ==> (#[trigger] box_parts[i]).len() == info.num_queries
                    * 4
            &&& forall|i: int|
                0 <= i < logit_parts.len() ==> (#[trigger] logit_parts[i]).len()
                    == info.num_queries * info.num_classes
        }),
        box_parts.len() == request.orig_sizes@.len(),
        logit_parts.len() == request.orig_sizes@.len(),
        boxes@ == joined(box_parts),
        logits@ == joined(logit_parts),
        0 <= b < request.orig_sizes@.len(),
    ensures
        decoded(
            *score,
            *edges,
            box_parts[b],
            logit_parts[b],
            old(engine).model_info.num_queries as int,
            old(engine).model_info.num_classes as int,
            request.orig_sizes@[b].0,
            request.orig_sizes@[b].1,
            threshold,
            res@[b]@,
        ),
{
    let info = old(engine).model_info;
    let (nq, nc) = (info.num_queries as int, info.num_classes as int);
    assert(0 <= nq * nc) by (nonlinear_arith)
        requires
            0 <= nq,
            0 <= nc,
    ;
    lemma_joined_share(box_parts, nq * 4, b);
    lemma_joined_share(logit_parts, nq * nc, b);
    law_finish_batch(engine, request, boxes, logits, threshold, score, edges, res, b);
}

/// Law: a single frame has the detections that the outputs decode to, in a frame of its
/// own dimensions.
pub proof fn law_finish_single<T, S: Fn(F32) -> F32, E: Fn(F32, F32, u32) -> (i32, i32)>(
    engine: &Engine<T>,
    request: &Request,
    boxes: &[F32],
    logits: &[F32],
    threshold: F32,
    score: &S,
    edges: &E,
    res: Vec<Detection>,
)
    requires
        logits@.len() == engine.model_info.num_queries * engine.model_info.num_classes,
        call_ensures(
            Engine::<T>::finish_single::<S, E>,
            (engine, request, boxes, logits, threshold, score, edges),
            res,
        ),
    ensures
        decoded(
            *score,
            *edges,
            boxes@,
            logits@,
            engine.model_info.num_queries as int,
            engine.model_info.num_classes as int,
            request.orig_sizes@[0].0,
            request.orig_sizes@[0].1,
            threshold,
            res@,
        ),
{
    lemma_decoded(
        *score,
        *edges,
        boxes@,
        logits@,
        engine.model_info.num_queries as int,
        engine.model_info.num_classes as int,
        request.orig_sizes@[0].0,
        request.orig_sizes@[0].1,
        threshold,
        res@,
    );
}

/// Law: a BGR frame reaches the model as the planes of its pixels in the order red,
/// green, blue: its own bytes where it has the model's dimensions, and otherwise those of
/// a resize of them.
pub proof fn law_begin_frame<T, F: Fn(usize, u8) -> T>(
    engine: &mut Engine<T>,
    bgr: &[u8],
    src_w: u32,
    src_h: u32,
    normalize: &F,
    pinned: &mut [T],
    res: Request,
    i: int,
)
    requires
        call_ensures(
            Engine::<T>::begin_frame::<F>,
            (engine, bgr, src_w, src_h, normalize, pinned),
            res,
        ),
        bgr@.len() == 3 * (src_w * src_h),
        countable(old(engine).model_info),
        0 < src_w && 0 < src_h,
        0 <= i < old(engine).model_info.input_width * old(engine).model_info.input_height,
    ensures
        shaped(res.shape@, 1, old(engine).model_info),
        res.orig_sizes@ == seq![(src_w, src_h)],
        res.source == if old(engine).pinned {
            InputSource::Pinned
        } else {
            InputSource::Buffer
        },
        old(engine).pinned ==> final(engine).preprocess_buf@ == old(engine).preprocess_buf@,
        !old(engine).pinned ==> final(pinned)@ == old(pinned)@,
        ({
            let info = old(engine).model_info;
            let (w, h) = (info.input_width as u32, info.input_height as u32);
            let area = info.input_width * info.input_height;
            let same = src_w == info.input_width && src_h == info.input_height;
            let pixels = if same {
                bgr@
            } else {
                final(engine).scratch_rgb@
            };
            let tensor = if old(engine).pinned {
                final(pinned)@
            } else {
                final(engine).preprocess_buf@
            };
            &&& !same ==> lanczos3_may_give(bgr@, src_w, src_h, w, h, pixels)
            &&& same ==> final(engine).scratch_rgb@ == old(engine).scratch_rgb@
            &&& pixels.len() == 3 * area
            &&& tensor.len() == 3 * area
            &&& call_ensures(*normalize, (0usize, pixels[3 * i + 2]), tensor[i])
            &&& call_ensures(*normalize, (1usize, pixels[3 * i + 1]), tensor[area + i])
            &&& call_ensures(*normalize, (2usize, pixels[3 * i]), tensor[2 * area + i])
        }),
{
    let info = old(engine).model_info;
    let (w, h) = (old(engine).w(), old(engine).h());
    let area = info.input_width * info.input_height;
    let pixels = old(engine).frame_pixels(bgr@, src_w, src_h, final(engine).scratch_rgb@);
    let tensor = if old(engine).pinned {
        final(pinned)@
    } else {
        final(engine).preprocess_buf@
    };
    if !(src_w == w && src_h == h) {
        lemma_rescaled(
            bgr@,
            src_w,
            src_h,
            crate::preprocess::zero_padded(old(engine).scratch_rgb@, 3 * (w * h)),
            w,
            h,
            pixels,
        );
        if w == 0 || h == 0 {
            assert(w * h == 0) by (nonlinear_arith)
                requires
                    w == 0 || h == 0,
            ;
        }
    }
    lemma_swapped(pixels, i);
    let rgb = swap_rb(pixels);
    assert(planar(*normalize, rgb, area, tensor));
    assert(call_ensures(*normalize, (0usize, rgb[PixelOrder::Rgb.index(i, 0)]), tensor[i]));
}

/// Law: planes that were prepared elsewhere are the tensor: a page-locked buffer of the
/// same length takes a copy of them, otherwise they stay with the caller and the buffer
/// as it was.
pub proof fn law_begin_from_nchw<T: Copy>(
    engine: &Engine<T>,
    nchw: &[T],
    orig_w: u32,
    orig_h: u32,
    pinned: &mut [T],
    res: Request,
)
    requires
        call_ensures(
            Engine::<T>::begin_from_nchw,
            (engine, nchw, orig_w, orig_h, pinned),
            res,
        ),
    ensures
        shaped(res.shape@, 1, engine.model_info),
        res.orig_sizes@ == seq![(orig_w, orig_h)],
        engine.pinned && nchw@.len() == engine.input_len ==> res.source == InputSource::Pinned
            && final(pinned)@ == nchw@,
        !engine.pinned || nchw@.len() != engine.input_len ==> res.source == InputSource::Caller
            && final(pinned)@ == old(pinned)@,
{
}

/// Law: inference on one image gives the only list of its batch, or its error.
pub proof fn law_only_image<X>(
    batch: Result<Vec<Vec<Detection>>, X>,
    res: Result<Vec<Detection>, X>,
)
    requires
        call_ensures(only_image::<X>, (batch,), res),
    ensures
        batch is Err ==> res == Err::<Vec<Detection>, X>(batch->Err_0),
        batch is Ok && batch->Ok_0@.len() > 0 ==> res is Ok && res->Ok_0@
            == batch->Ok_0@[batch->Ok_0@.len() - 1]@,
        batch is Ok && batch->Ok_0@.len() == 0 ==> res is Ok && res->Ok_0@.len() == 0,
{
}

/// Law: an engine tells what it was built with.
pub proof fn law_accessors<T>(
    engine: &Engine<T>,
    info: &ModelInfo,
    device: &Device,
    precision: Precision,
    config: &EngineConfig,
)
    requires
        call_ensures(Engine::<T>::model_info, (engine,), info),
        call_ensures(Engine::<T>::active_device, (engine,), device),
        call_ensures(Engine::<T>::active_precision, (engine,), precision),
        call_ensures(Engine::<T>::config, (engine,), config),
    ensures
        *info == engine.model_info,
        *device == engine.active_device,
        precision == engine.active_precision,
        *config == engine.config,
{
}

/// Law: the outputs of a run can be read, whatever they hold, where they have the lengths
/// that the model states for each image.
pub proof fn law_outputs_can_be_read<T, S: Fn(F32) -> F32, E: Fn(F32, F32, u32) -> (i32, i32)>(
    engine: &mut Engine<T>,
    request: &Request,
    boxes: &[F32],
    logits: &[F32],
    threshold: F32,
    score: &S,
    edges: &E,
)
    requires
        ({
            let info = old(engine).model_info;
            let count = request.orig_sizes@.len();
            &&& boxes@.len() == count * (info.num_queries * 4)
            &&& logits@.len() == count * (info.num_queries * info.num_classes)
            &&& count == 1 || request.source == InputSource::Buffer
        }),
        forall|logit: F32| call_requires(*score, (logit,)),
        forall|center: F32, extent: F32, side: u32|
            call_requires(*edges, (center, extent, side)),
        forall|center: F32, extent: F32, side: u32, out: (i32, i32)|
            call_ensures(*edges, (center, extent, side), out) ==> 0 <= out.0 && 0 <= out.1,
    ensures
        call_requires(
            Engine::<T>::finish_batch::<S, E>,
            (engine, request, boxes, logits, threshold, score, edges),
        ),
        request.orig_sizes@.len() == 1 ==> call_requires(
            Engine::<T>::finish_single::<S, E>,
            (old(engine), request, boxes, logits, threshold, score, edges),
        ),
{
}

/// Law: a frame of ordinary dimensions can begin on an engine for a model of ordinary
/// dimensions, and so can planes of any length.
pub proof fn law_every_frame_can_begin<T: Copy, F: Fn(usize, u8) -> T>(
    engine: &mut Engine<T>,
    bgr: &[u8],
    src_w: u32,
    src_h: u32,
    normalize: &F,
    pinned: &mut [T],
    nchw: &[T],
)
    requires
        src_w <= 16384 && src_h <= 16384,
        bgr@.len() == 3 * (src_w * src_h),
        ({
            let info = old(engine).model_info;
            let area = info.input_width * info.input_height;
            &&& info.input_width <= 16384 && info.input_height <= 16384
            &&& old(engine).input_len == info.input_channels * area
            &&& old(engine).pinned ==> info.input_channels == 3 && old(pinned)@.len() == 3 * area
        }),
        forall|c: usize, v: u8| c < 3 ==> call_requires(*normalize, (c, v)),
    ensures
        call_requires(
            Engine::<T>::begin_frame::<F>,
            (engine, bgr, src_w, src_h, normalize, pinned),
        ),
        call_requires(
            Engine::<T>::begin_from_nchw,
            (old(engine), nchw, src_w, src_h, pinned),
        ),
{
    let info = old(engine).model_info;
    let (w, h) = (info.input_width as u32, info.input_height as u32);
    lemma_ordinary(w, h, w, h);
    lemma_ordinary(src_w, src_h, w, h);
}

} // verus!
