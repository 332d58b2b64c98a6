//! The engine: what to hand to the model, and what its outputs mean.
//!
//! The caller owns the session.  Each kind of inference is a pair of steps: the
//! first prepares the input tensor and says where it lies and what shape it has,
//! then the caller runs the session, and the second step reads the raw outputs.
//! An engine on a GPU may come with a page-locked input buffer, which the caller
//! lends to the first step; an engine without one is lent an empty buffer.

use crate::config::{Device, EngineConfig, Precision};
use crate::error::Error;
use crate::float_bits::F32;
use crate::model::ModelInfo;
use crate::postprocess::{
    detections_of, edges_ok, edges_once, law_outputs_determine_detections, postprocess, score_ok,
    scores_once, Detection,
};
use crate::preprocess::{
    append_planes, dims_fit, fits, fits_once, fitted, law_image_determines_pixels,
    law_pixels_determine_planes, law_scratch_is_only_scratch, lemma_bgr_planes, model_rgb,
    normalizes_once, planar, preprocess_bgr_into_slice, preprocess_into, preprocess_into_slice,
    scratch_free, total, zero_padded, PixelOrder,
};
use crate::provider::{active_precision, precision_on};
use crate::resize::{
    law_resize_keeps_channel_order, rescaled, resizable, resize_u8x3, swap_rb,
};
use crate::source_image::SourceImage;
use vstd::prelude::*;
use vstd::slice::slice_subrange;

verus! {

/// Where the input tensor lies.
#[derive(Clone, Copy, Debug, PartialEq, Eq, Structural)]
pub enum InputSource {
    /// In the page-locked buffer.
    Pinned,
    /// In the engine's own buffer.
    Buffer,
    /// Where the caller has it.
    Caller,
}

/// An input tensor that is ready to run.
pub struct Request {
    pub source: InputSource,
    /// Batch, channels, height, width.
    pub shape: [i64; 4],
    /// Width and height of the original images.
    pub orig_sizes: Vec<(u32, u32)>,
}

/// The input tensor of a request, out of the places where it may lie.
pub open spec fn tensor_of<T>(
    source: InputSource,
    pinned: Seq<T>,
    buffer: Seq<T>,
    caller: Seq<T>,
) -> Seq<T> {
    match source {
        InputSource::Pinned => pinned,
        InputSource::Buffer => buffer,
        InputSource::Caller => caller,
    }
}

/// The first step of a batch.
pub enum BatchStart {
    /// There are no images, so there is nothing to run.
    Empty,
    Run(Request),
}

/// An inference engine for elements of type `T`.
pub struct Engine<T> {
    pub model_info: ModelInfo,
    pub active_device: Device,
    pub active_precision: Precision,
    pub config: EngineConfig,
    /// Whether there is a page-locked input buffer.
    pub pinned: bool,
    /// Elements of one input image.
    pub input_len: usize,
    /// Input tensor where it is not page-locked.
    pub preprocess_buf: Vec<T>,
    /// Resized pixels.
    pub scratch_rgb: Vec<u8>,
    /// Outputs of a batch.
    pub boxes_out: Vec<F32>,
    pub logits_out: Vec<F32>,
}

/// The shape of an input of `batch` images.
pub open spec fn input_shape(batch: int, info: ModelInfo) -> Seq<i64> {
    seq![
        batch as i64,
        info.input_channels as i64,
        info.input_height as i64,
        info.input_width as i64,
    ]
}

impl<T> Engine<T> {
    /// Width of the model's input.
    pub open spec fn w(self) -> u32 {
        self.model_info.input_width as u32
    }

    /// Height of the model's input.
    pub open spec fn h(self) -> u32 {
        self.model_info.input_height as u32
    }

    /// Pixels of the model's input.
    pub open spec fn area(self) -> int {
        self.w() * self.h()
    }

    /// The input length is that of the model's input.
    pub open spec fn wf(self) -> bool {
        self.input_len == self.model_info.input_channels * (self.model_info.input_width
            * self.model_info.input_height)
    }

    /// The model's dimensions fit the types that pixels are counted in.
    pub open spec fn dims_ok(self) -> bool {
        &&& self.model_info.input_width <= u32::MAX
        &&& self.model_info.input_height <= u32::MAX
        &&& dims_fit(self.w(), self.h())
    }

    /// `buf` is what the engine has to be lent: its page-locked buffer, which takes
    /// three channels, or nothing.
    pub open spec fn lent(self, buf: Seq<T>) -> bool {
        self.pinned ==> self.model_info.input_channels == 3 && buf.len() == self.input_len
    }

    /// An engine for a session that was built on `active_device`.
    pub fn new(config: EngineConfig, active_device: Device, model_info: ModelInfo, pinned: bool) -> (
    res: Engine<T>)
        requires
            model_info.input_channels * model_info.input_height <= usize::MAX,
            model_info.input_channels * model_info.input_height * model_info.input_width
                <= usize::MAX,
        ensures
            res.wf(),
            res.model_info == model_info,
            res.active_device == active_device,
            res.active_precision == precision_on(active_device, config.precision),
            res.config == config,
            res.pinned == pinned,
            res.preprocess_buf@.len() == 0,
            res.scratch_rgb@.len() == 0,
            res.boxes_out@.len() == 0,
            res.logits_out@.len() == 0,
    {
        let input_len: usize = model_info.input_channels * model_info.input_height
            * model_info.input_width;
        proof {
            let (c, w, h) = (
                model_info.input_channels as int,
                model_info.input_width as int,
                model_info.input_height as int,
            );
            assert(c * h * w == c * (w * h)) by (nonlinear_arith);
        }
        Engine {
            active_precision: active_precision(active_device, config.precision),
            model_info,
            active_device,
            config,
            pinned,
            input_len,
            preprocess_buf: Vec::new(),
            scratch_rgb: Vec::new(),
            boxes_out: Vec::new(),
            logits_out: Vec::new(),
        }
    }

    fn request(&self, source: InputSource, orig_sizes: Vec<(u32, u32)>) -> (res: Request)
        ensures
            res.source == source,
            res.shape@ == input_shape(orig_sizes@.len() as int, self.model_info),
            res.orig_sizes == orig_sizes,
    {
        let shape: [i64; 4] = [
            orig_sizes.len() as i64,
            self.model_info.input_channels as i64,
            self.model_info.input_height as i64,
            self.model_info.input_width as i64,
        ];
        assert(shape@ =~= input_shape(orig_sizes@.len() as int, self.model_info));
        Request { source, shape, orig_sizes }
    }
}

/// `buf` holds the planes of each image in turn, where `scratch[b]` is what the
/// scratch buffer held before image `b`.
pub open spec fn batch_planes<T, F: Fn(usize, u8) -> T>(
    normalize: F,
    images: Seq<SourceImage>,
    w: u32,
    h: u32,
    scratch: Seq<Seq<u8>>,
    buf: Seq<T>,
) -> bool {
    let n = 3 * (w * h);
    &&& scratch.len() == images.len() + 1
    &&& buf.len() == images.len() * n
    &&& forall|b: int|
        #![trigger images[b]]
        0 <= b < images.len() ==> {
            &&& fitted(images[b], w, h, scratch[b], scratch[b + 1])
            &&& planar(
                normalize,
                model_rgb(images[b], w, h, scratch[b + 1]),
                w * h,
                buf.subrange(b * n, (b + 1) * n),
            )
        }
}

/// The dimensions of the images.
pub open spec fn sizes_of(images: Seq<SourceImage>) -> Seq<(u32, u32)> {
    images.map_values(|image: SourceImage| (image.width, image.height))
}

impl<T> Engine<T> {
    /// First step for a batch of images: refuses a batch that is too large, and
    /// prepares the planes of all images otherwise.
    pub fn begin_batch<F: Fn(usize, u8) -> T>(
        &mut self,
        images: &Vec<SourceImage>,
        normalize: &F,
        pinned: &mut [T],
    ) -> (res: Result<BatchStart, Error>)
        requires
            old(self).wf(),
            0 < images@.len() <= old(self).config.max_batch_size ==> {
                &&& old(self).dims_ok()
                &&& old(self).lent(old(pinned)@)
                &&& forall|b: int|
                    0 <= b < images@.len() ==> (#[trigger] images@[b]).wf() && fits(
                        images@[b],
                        old(self).w(),
                        old(self).h(),
                    )
                &&& total(*normalize)
            },
        ensures
            final(self).wf(),
            images@.len() == 0 ==> {
                &&& res == Ok::<BatchStart, Error>(BatchStart::Empty)
                &&& *final(self) == *old(self)
                &&& final(pinned)@ == old(pinned)@
            },
            images@.len() > 0 && images@.len() > old(self).config.max_batch_size ==> {
                &&& res == Err::<BatchStart, Error>(
                    Error::BatchTooLarge {
                        requested: images.len(),
                        max: old(self).config.max_batch_size,
                    },
                )
                &&& *final(self) == *old(self)
                &&& final(pinned)@ == old(pinned)@
            },
            0 < images@.len() <= old(self).config.max_batch_size ==> {
                &&& res matches Ok(BatchStart::Run(request))
                &&& request.shape@ == input_shape(images@.len() as int, old(self).model_info)
                &&& request.orig_sizes@ == sizes_of(images@)
                &&& request.source == (if images@.len() == 1 && old(self).pinned {
                    InputSource::Pinned
                } else {
                    InputSource::Buffer
                })
            },
            0 < images@.len() <= old(self).config.max_batch_size && images@.len() == 1 && old(
                self,
            ).pinned ==> {
                let image = images@[0];
                let (w, h) = (old(self).w(), old(self).h());
                &&& fitted(image, w, h, old(self).scratch_rgb@, final(self).scratch_rgb@)
                &&& planar(
                    *normalize,
                    model_rgb(image, w, h, final(self).scratch_rgb@),
                    w * h,
                    final(pinned)@,
                )
                &&& *final(self) == (Engine { scratch_rgb: final(self).scratch_rgb, ..*old(self) })
            },
            0 < images@.len() <= old(self).config.max_batch_size && !(images@.len() == 1 && old(
                self,
            ).pinned) ==> {
                &&& exists|scratch: Seq<Seq<u8>>|
                    {
                        &&& #[trigger] batch_planes(
                            *normalize,
                            images@,
                            old(self).w(),
                            old(self).h(),
                            scratch,
                            final(self).preprocess_buf@,
                        )
                        &&& scratch[0] == old(self).scratch_rgb@
                        &&& scratch.last() == final(self).scratch_rgb@
                    }
                &&& *final(self) == (Engine {
                    scratch_rgb: final(self).scratch_rgb,
                    preprocess_buf: final(self).preprocess_buf,
                    ..*old(self)
                })
                &&& final(pinned)@ == old(pinned)@
            },
    {
        if images.len() == 0 {
            return Ok(BatchStart::Empty);
        }
        if images.len() > self.config.max_batch_size {
            return Err(
                Error::BatchTooLarge { requested: images.len(), max: self.config.max_batch_size },
            );
        }
        let (w, h) = (self.model_info.input_width as u32, self.model_info.input_height as u32);
        let mut orig_sizes: Vec<(u32, u32)> = Vec::new();
        if images.len() == 1 && self.pinned {
            let image = &images[0];
            orig_sizes.push((image.width, image.height));
            preprocess_into_slice(image, w, h, normalize, pinned, &mut self.scratch_rgb);
            assert(orig_sizes@ =~= sizes_of(images@));
            return Ok(BatchStart::Run(self.request(InputSource::Pinned, orig_sizes)));
        }
        self.preprocess_buf.clear();
        let ghost mut scratch: Seq<Seq<u8>> = seq![self.scratch_rgb@];
        let ghost n = 3 * (w * h);
        let mut b: usize = 0;
        while b < images.len()
            invariant
                b <= images@.len(),
                w == old(self).w(),
                h == old(self).h(),
                n == 3 * (w * h),
                dims_fit(w, h),
                total(*normalize),
                forall|i: int|
                    0 <= i < images@.len() ==> (#[trigger] images@[i]).wf() && fits(images@[i], w, h),
                orig_sizes@ == sizes_of(images@.take(b as int)),
                batch_planes(*normalize, images@.take(b as int), w, h, scratch, self.preprocess_buf@),
                scratch[0] == old(self).scratch_rgb@,
                scratch.last() == self.scratch_rgb@,
                *self == (Engine {
                    scratch_rgb: self.scratch_rgb,
                    preprocess_buf: self.preprocess_buf,
                    ..*old(self)
                }),
            decreases images@.len() - b,
        {
            let image = &images[b];
            let ghost (buf1, scratch1) = (self.preprocess_buf@, scratch);
            orig_sizes.push((image.width, image.height));
            preprocess_into(
                image,
                w,
                h,
                normalize,
                &mut self.preprocess_buf,
                &mut self.scratch_rgb,
            );
            proof {
                scratch = scratch1.push(self.scratch_rgb@);
                assert(scratch.drop_last() =~= scratch1);
                lemma_batch_grows(
                    *normalize,
                    images@,
                    w,
                    h,
                    b as int,
                    scratch1,
                    scratch,
                    buf1,
                    self.preprocess_buf@,
                );
                assert(orig_sizes@ =~= sizes_of(images@.take(b + 1)));
            }
            b = b + 1;
        }
        proof {
            assert(images@.take(images@.len() as int) =~= images@);
        }
        Ok(BatchStart::Run(self.request(InputSource::Buffer, orig_sizes)))
    }
}

/// One more image extends the planes of a batch.
proof fn lemma_batch_grows<T, F: Fn(usize, u8) -> T>(
    normalize: F,
    images: Seq<SourceImage>,
    w: u32,
    h: u32,
    b: int,
    scratch1: Seq<Seq<u8>>,
    scratch2: Seq<Seq<u8>>,
    buf1: Seq<T>,
    buf2: Seq<T>,
)
    requires
        0 <= b < images.len(),
        batch_planes(normalize, images.take(b), w, h, scratch1, buf1),
        scratch2.len() == scratch1.len() + 1,
        scratch2.drop_last() == scratch1,
        fitted(images[b], w, h, scratch1.last(), scratch2.last()),
        buf2.len() == buf1.len() + 3 * (w * h),
        buf2.take(buf1.len() as int) == buf1,
        planar(
            normalize,
            model_rgb(images[b], w, h, scratch2.last()),
            w * h,
            buf2.skip(buf1.len() as int),
        ),
    ensures
        batch_planes(normalize, images.take(b + 1), w, h, scratch2, buf2),
{
    let n = 3 * (w * h);
    let (old_images, new_images) = (images.take(b), images.take(b + 1));
    assert((b + 1) * n == b * n + n) by (nonlinear_arith);
    assert(0 <= b * n) by (nonlinear_arith)
        requires
            0 <= b,
            0 <= n,
    ;
    assert forall|i: int| #![trigger new_images[i]] 0 <= i < new_images.len() implies {
        &&& fitted(new_images[i], w, h, scratch2[i], scratch2[i + 1])
        &&& planar(
            normalize,
            model_rgb(new_images[i], w, h, scratch2[i + 1]),
            w * h,
            buf2.subrange(i * n, (i + 1) * n),
        )
    } by {
        assert(new_images[i] == images[i]);
        assert((i + 1) * n == i * n + n) by (nonlinear_arith);
        if i < b {
            assert(old_images[i] == images[i]);
            assert(scratch2[i] == scratch1[i] && scratch2[i + 1] == scratch1[i + 1]);
            assert(0 <= i * n && (i + 1) * n <= b * n) by (nonlinear_arith)
                requires
                    0 <= i,
                    i + 1 <= b,
                    0 <= n,
            ;
            assert(buf2.subrange(i * n, (i + 1) * n) =~= buf1.subrange(i * n, (i + 1) * n)) by {
                assert forall|k: int| 0 <= k < n implies #[trigger] buf2[i * n + k] == buf1[i * n + k] by {
                    assert(buf2.take(buf1.len() as int)[i * n + k] == buf2[i * n + k]);
                }
            }
        } else {
            assert(scratch2[b] == scratch1.last());
            assert(buf2.subrange(b * n, (b + 1) * n) =~= buf2.skip(buf1.len() as int));
        }
    }
}

/// The part of a batch's output that belongs to image `b`.
pub open spec fn image_part(raw: Seq<F32>, b: int, n: int) -> Seq<F32> {
    raw.subrange(b * n, (b + 1) * n)
}

/// Multiples of a length stay within the length of all.
proof fn lemma_part_bounds(b: int, count: int, n: int)
    requires
        0 <= b < count,
        0 <= n,
    ensures
        0 <= b * n <= (b + 1) * n <= count * n,
        (b + 1) * n == b * n + n,
{
    assert(0 <= b * n <= (b + 1) * n <= count * n && (b + 1) * n == b * n + n) by (nonlinear_arith)
        requires
            0 <= b < count,
            0 <= n,
    ;
}

impl<T> Engine<T> {
    /// Second step for a batch of images: the detections of each image, from the
    /// raw boxes and logits of the whole batch.
    pub fn finish_batch<S: Fn(F32) -> F32, E: Fn(F32, F32, u32) -> (i32, i32)>(
        &mut self,
        request: &Request,
        boxes: &[F32],
        logits: &[F32],
        logit_threshold: F32,
        score: &S,
        edges: &E,
    ) -> (res: Vec<Vec<Detection>>)
        requires
            score_ok(*score),
            edges_ok(*edges),
            request.source != InputSource::Buffer ==> {
                &&& request.orig_sizes@.len() == 1
                &&& boxes@.len() == old(self).model_info.num_queries * 4
                &&& logits@.len() == old(self).model_info.num_queries * old(
                    self,
                ).model_info.num_classes
            },
            request.source == InputSource::Buffer ==> {
                &&& boxes@.len() >= request.orig_sizes@.len() * (old(self).model_info.num_queries
                    * 4)
                &&& logits@.len() >= request.orig_sizes@.len() * (old(self).model_info.num_queries
                    * old(self).model_info.num_classes)
            },
        ensures
            res@.len() == request.orig_sizes@.len(),
            ({
                let (nq, nc) = (
                    old(self).model_info.num_queries as int,
                    old(self).model_info.num_classes as int,
                );
                forall|b: int|
                    #![trigger res@[b]]
                    0 <= b < res@.len() ==> detections_of(
                        *score,
                        *edges,
                        image_part(boxes@, b, nq * 4),
                        image_part(logits@, b, nq * nc),
                        nq,
                        nc,
                        request.orig_sizes@[b].0,
                        request.orig_sizes@[b].1,
                        logit_threshold,
                        res@[b]@,
                    )
            }),
            request.source == InputSource::Buffer ==> {
                &&& final(self).boxes_out@ == boxes@
                &&& final(self).logits_out@ == logits@
            },
            *final(self) == (Engine {
                boxes_out: final(self).boxes_out,
                logits_out: final(self).logits_out,
                ..*old(self)
            }),
            request.source != InputSource::Buffer ==> *final(self) == *old(self),
    {
        let (nq, nc) = (self.model_info.num_queries, self.model_info.num_classes);
        let mut result: Vec<Vec<Detection>> = Vec::new();
        if request.source != InputSource::Buffer {
            let (ow, oh) = request.orig_sizes[0];
            let dets = postprocess(boxes, logits, nq, nc, ow, oh, logit_threshold, score, edges);
            result.push(dets);
            proof {
                assert(image_part(boxes@, 0, nq * 4) =~= boxes@);
                assert(image_part(logits@, 0, nq * nc) =~= logits@);
            }
            return result;
        }
        self.boxes_out.clear();
        self.boxes_out.extend_from_slice(boxes);
        self.logits_out.clear();
        self.logits_out.extend_from_slice(logits);
        assert(self.boxes_out@ =~= boxes@);
        assert(self.logits_out@ =~= logits@);
        let count = request.orig_sizes.len();
        let mut b: usize = 0;
        while b < count
            invariant
                b <= count,
                count == request.orig_sizes@.len(),
                result@.len() == b,
                nq == self.model_info.num_queries,
                nc == self.model_info.num_classes,
                score_ok(*score),
                edges_ok(*edges),
                boxes.len() >= count * (nq * 4),
                logits.len() >= count * (nq * nc),
                self.boxes_out@ == boxes@,
                self.logits_out@ == logits@,
                *self == (Engine {
                    boxes_out: self.boxes_out,
                    logits_out: self.logits_out,
                    ..*old(self)
                }),
                forall|i: int|
                    #![trigger result@[i]]
                    0 <= i < b ==> detections_of(
                        *score,
                        *edges,
                        image_part(boxes@, i, nq * 4),
                        image_part(logits@, i, nq * nc),
                        nq as int,
                        nc as int,
                        request.orig_sizes@[i].0,
                        request.orig_sizes@[i].1,
                        logit_threshold,
                        result@[i]@,
                    ),
            decreases count - b,
        {
            let (ow, oh) = request.orig_sizes[b];
            proof {
                assert(0 <= nq * nc) by (nonlinear_arith);
                lemma_part_bounds(b as int, count as int, nq * 4);
                lemma_part_bounds(b as int, count as int, nq * nc);
                assert(nq * 4 <= (b + 1) * (nq * 4));
                assert(nq * nc <= (b + 1) * (nq * nc));
            }
            let (nb, nl): (usize, usize) = (nq * 4, nq * nc);
            let box_slice = slice_subrange(self.boxes_out.as_slice(), b * nb, (b + 1) * nb);
            let log_slice = slice_subrange(self.logits_out.as_slice(), b * nl, (b + 1) * nl);
            let dets = postprocess(
                box_slice,
                log_slice,
                nq,
                nc,
                ow,
                oh,
                logit_threshold,
                score,
                edges,
            );
            result.push(dets);
            b = b + 1;
        }
        result
    }

    /// Second step for a single frame: its detections, from the raw boxes and logits.
    pub fn finish_single<S: Fn(F32) -> F32, E: Fn(F32, F32, u32) -> (i32, i32)>(
        &self,
        request: &Request,
        boxes: &[F32],
        logits: &[F32],
        logit_threshold: F32,
        score: &S,
        edges: &E,
    ) -> (res: Vec<Detection>)
        requires
            request.orig_sizes@.len() == 1,
            boxes@.len() == self.model_info.num_queries * 4,
            logits@.len() == self.model_info.num_queries * self.model_info.num_classes,
            score_ok(*score),
            edges_ok(*edges),
        ensures
            detections_of(
                *score,
                *edges,
                boxes@,
                logits@,
                self.model_info.num_queries as int,
                self.model_info.num_classes as int,
                request.orig_sizes@[0].0,
                request.orig_sizes@[0].1,
                logit_threshold,
                res@,
            ),
    {
        let (ow, oh) = request.orig_sizes[0];
        postprocess(
            boxes,
            logits,
            self.model_info.num_queries,
            self.model_info.num_classes,
            ow,
            oh,
            logit_threshold,
            score,
            edges,
        )
    }

    /// The packed BGR pixels of a frame that reach the model, given the scratch
    /// buffer after the frame was prepared.
    pub open spec fn frame_pixels(
        self,
        bgr: Seq<u8>,
        src_w: u32,
        src_h: u32,
        scratch: Seq<u8>,
    ) -> Seq<u8> {
        if src_w == self.w() && src_h == self.h() {
            bgr
        } else {
            scratch
        }
    }

    /// First step for a packed BGR frame of any dimensions.
    pub fn begin_frame<F: Fn(usize, u8) -> T>(
        &mut self,
        bgr: &[u8],
        src_w: u32,
        src_h: u32,
        normalize: &F,
        pinned: &mut [T],
    ) -> (res: Request)
        requires
            old(self).wf(),
            old(self).dims_ok(),
            old(self).lent(old(pinned)@),
            bgr@.len() == 3 * (src_w * src_h),
            src_w == old(self).w() && src_h == old(self).h() || resizable(
                src_w,
                src_h,
                old(self).w(),
                old(self).h(),
            ),
            total(*normalize),
        ensures
            final(self).wf(),
            res.shape@ == input_shape(1, old(self).model_info),
            res.orig_sizes@ == seq![(src_w, src_h)],
            res.source == (if old(self).pinned {
                InputSource::Pinned
            } else {
                InputSource::Buffer
            }),
            ({
                let (w, h) = (old(self).w(), old(self).h());
                if src_w == w && src_h == h {
                    final(self).scratch_rgb@ == old(self).scratch_rgb@
                } else {
                    rescaled(
                        bgr@,
                        src_w,
                        src_h,
                        zero_padded(old(self).scratch_rgb@, 3 * (w * h)),
                        w,
                        h,
                        final(self).scratch_rgb@,
                    )
                }
            }),
            planar(
                *normalize,
                swap_rb(old(self).frame_pixels(bgr@, src_w, src_h, final(self).scratch_rgb@)),
                old(self).area(),
                if old(self).pinned {
                    final(pinned)@
                } else {
                    final(self).preprocess_buf@
                },
            ),
            old(self).pinned ==> final(self).preprocess_buf@ == old(self).preprocess_buf@,
            !old(self).pinned ==> final(pinned)@ == old(pinned)@,
            *final(self) == (Engine {
                scratch_rgb: final(self).scratch_rgb,
                preprocess_buf: final(self).preprocess_buf,
                ..*old(self)
            }),
    {
        let (w, h) = (self.model_info.input_width as u32, self.model_info.input_height as u32);
        let area: usize = (w * h) as usize;
        let same: bool = src_w == w && src_h == h;
        if !same {
            let ghost before = self.scratch_rgb@;
            self.scratch_rgb.resize(3 * area, 0);
            assert(self.scratch_rgb@ =~= zero_padded(before, 3 * (w * h)));
            resize_u8x3(bgr, src_w, src_h, self.scratch_rgb.as_mut_slice(), w, h);
            assert(bgr@.subrange(0, 3 * (src_w * src_h)) =~= bgr@);
        }
        let pixels: &[u8] = if same {
            bgr
        } else {
            self.scratch_rgb.as_slice()
        };
        let source = if self.pinned {
            preprocess_bgr_into_slice(pixels, w, h, normalize, pinned);
            InputSource::Pinned
        } else {
            let mut buf: Vec<T> = Vec::new();
            std::mem::swap(&mut buf, &mut self.preprocess_buf);
            buf.clear();
            append_planes(pixels, PixelOrder::Bgr, area, normalize, &mut buf);
            proof {
                assert(buf@.skip(0) =~= buf@);
                lemma_bgr_planes(*normalize, pixels@, area as int, buf@);
            }
            self.preprocess_buf = buf;
            InputSource::Buffer
        };
        let mut orig_sizes: Vec<(u32, u32)> = Vec::new();
        orig_sizes.push((src_w, src_h));
        assert(orig_sizes@ =~= seq![(src_w, src_h)]);
        self.request(source, orig_sizes)
    }

    /// The dimensions of the model and the names of its tensors.
    pub fn model_info(&self) -> (res: &ModelInfo)
        ensures
            *res == self.model_info,
    {
        &self.model_info
    }

    /// The device that the engine runs on.
    pub fn active_device(&self) -> (res: &Device)
        ensures
            *res == self.active_device,
    {
        &self.active_device
    }

    /// The precision that the engine runs at.
    pub fn active_precision(&self) -> (res: Precision)
        ensures
            res == self.active_precision,
    {
        self.active_precision
    }

    /// The configuration that the engine was built from.
    pub fn config(&self) -> (res: &EngineConfig)
        ensures
            *res == self.config,
    {
        &self.config
    }
}

impl<T: Copy> Engine<T> {
    /// First step for an input that is already in planes: a page-locked buffer of
    /// the same length takes a copy, otherwise the tensor stays where it is.
    pub fn begin_from_nchw(&self, nchw: &[T], orig_w: u32, orig_h: u32, pinned: &mut [T]) -> (res:
        Request)
        requires
            self.pinned ==> old(pinned)@.len() == self.input_len,
        ensures
            res.shape@ == input_shape(1, self.model_info),
            res.orig_sizes@ == seq![(orig_w, orig_h)],
            self.pinned && nchw@.len() == self.input_len ==> res.source == InputSource::Pinned
                && final(pinned)@ == nchw@,
            !(self.pinned && nchw@.len() == self.input_len) ==> res.source == InputSource::Caller
                && final(pinned)@ == old(pinned)@,
            tensor_of(res.source, final(pinned)@, self.preprocess_buf@, nchw@) == nchw@,
    {
        let source = if self.pinned && nchw.len() == self.input_len {
            let mut i: usize = 0;
            while i < nchw.len()
                invariant
                    i <= nchw@.len(),
                    pinned@.len() == nchw@.len(),
                    forall|j: int| 0 <= j < i ==> #[trigger] pinned@[j] == nchw@[j],
                decreases nchw@.len() - i,
            {
                pinned[i] = nchw[i];
                i = i + 1;
            }
            assert(pinned@ =~= nchw@);
            InputSource::Pinned
        } else {
            InputSource::Caller
        };
        let mut orig_sizes: Vec<(u32, u32)> = Vec::new();
        orig_sizes.push((orig_w, orig_h));
        assert(orig_sizes@ =~= seq![(orig_w, orig_h)]);
        self.request(source, orig_sizes)
    }
}

/// What inference on one image comes to, given what the batch that holds it alone came
/// to: its error, or the detections of its last image, none for an empty batch.
pub open spec fn single_of<X>(batch: Result<Seq<Seq<Detection>>, X>) -> Result<Seq<Detection>, X> {
    match batch {
        Ok(lists) => Ok(
            if lists.len() > 0 {
                lists.last()
            } else {
                Seq::empty()
            },
        ),
        Err(e) => Err(e),
    }
}

/// The lists of detections that a batch came to.
pub open spec fn lists_of<X>(batch: Result<Vec<Vec<Detection>>, X>) -> Result<
    Seq<Seq<Detection>>,
    X,
> {
    match batch {
        Ok(lists) => Ok(lists@.map_values(|list: Vec<Detection>| list@)),
        Err(e) => Err(e),
    }
}

/// The outcome of inference on one image, which went through a batch of its own.
pub fn only_image<X>(batch: Result<Vec<Vec<Detection>>, X>) -> (res: Result<Vec<Detection>, X>)
    ensures
        match single_of(lists_of(batch)) {
            Ok(list) => res matches Ok(dets) && dets@ == list,
            Err(e) => res == Err::<Vec<Detection>, X>(e),
        },
{
    match batch {
        Ok(lists) => {
            let mut lists = lists;
            match lists.pop() {
                Some(dets) => Ok(dets),
                None => Ok(Vec::new()),
            }
        },
        Err(e) => Err(e),
    }
}

/// Law: a BGR frame is treated as the RGB image of the same picture.  The pixels
/// that reach the model for the frame are pixels that the image may give.
pub proof fn law_frame_is_its_rgb_image(
    bgr: Seq<u8>,
    image: SourceImage,
    w: u32,
    h: u32,
    before: Seq<u8>,
    after: Seq<u8>,
)
    requires
        image.pixels is Rgb8,
        scratch_free(image, w, h),
        bgr.len() == 3 * image.area(),
        image.rgb8() == swap_rb(bgr),
        image.width != w || image.height != h ==> rescaled(
            bgr,
            image.width,
            image.height,
            zero_padded(before, 3 * (w * h)),
            w,
            h,
            after,
        ),
    ensures
        ({
            let same = image.width == w && image.height == h;
            let rgb = swap_rb(
                if same {
                    bgr
                } else {
                    after
                },
            );
            &&& fitted(image, w, h, before, if same { before } else { rgb })
            &&& model_rgb(image, w, h, if same { before } else { rgb }) == rgb
        }),
{
    let n = 3 * (w * h);
    assert(0 <= n) by (nonlinear_arith)
        requires
            n == 3 * (w * h),
    ;
    if image.width != w || image.height != h {
        let padded = zero_padded(before, n);
        law_resize_keeps_channel_order(bgr, image.width, image.height, padded, w, h, after);
        if w == 0 || h == 0 {
            assert(w * h == 0) by (nonlinear_arith)
                requires
                    w == 0 || h == 0,
            ;
            assert(swap_rb(after) =~= padded);
        }
    }
}

/// Law: an image in a batch is prepared as it is on its own.  Its part of the input
/// tensor holds planes that the image may give whatever the scratch buffer held,
/// and so does not depend on the images before it.
pub proof fn law_batch_prepares_each_image_alone<T, F: Fn(usize, u8) -> T>(
    normalize: F,
    images: Seq<SourceImage>,
    w: u32,
    h: u32,
    scratch: Seq<Seq<u8>>,
    buf: Seq<T>,
    b: int,
    other: Seq<u8>,
)
    requires
        batch_planes(normalize, images, w, h, scratch, buf),
        0 <= b < images.len(),
        scratch_free(images[b], w, h),
    ensures
        exists|after: Seq<u8>|
            {
                &&& #[trigger] fitted(images[b], w, h, other, after)
                &&& planar(
                    normalize,
                    model_rgb(images[b], w, h, after),
                    w * h,
                    buf.subrange(b * (3 * (w * h)), (b + 1) * (3 * (w * h))),
                )
            },
{
    law_scratch_is_only_scratch(images[b], w, h, scratch[b], other, scratch[b + 1]);
}

/// Law: where the input tensor lies makes no difference.  A batch of one image in the
/// engine's own buffer is held to the same as the image in the page-locked one.
pub proof fn law_batch_of_one_is_its_image<T, F: Fn(usize, u8) -> T>(
    normalize: F,
    image: SourceImage,
    w: u32,
    h: u32,
    scratch: Seq<Seq<u8>>,
    buf: Seq<T>,
)
    ensures
        batch_planes(normalize, seq![image], w, h, scratch, buf) <==> {
            &&& scratch.len() == 2
            &&& fitted(image, w, h, scratch[0], scratch[1])
            &&& planar(normalize, model_rgb(image, w, h, scratch[1]), w * h, buf)
        },
{
    let n = 3 * (w * h);
    assert(seq![image][0] == image);
    assert(1 * n == n && 0 * n == 0) by (nonlinear_arith);
    if buf.len() == n {
        assert(buf.subrange(0 * n, (0 + 1) * n) =~= buf);
    }
}

/// Law: an image determines its input tensor.  Where normalisation and resizer are
/// functions, preparing an image gives the same tensor each time, whatever was done
/// before; an image without pixels takes up what the scratch buffer held.
pub proof fn law_image_determines_tensor<T, F: Fn(usize, u8) -> T>(
    normalize: F,
    image: SourceImage,
    w: u32,
    h: u32,
    scratch1: Seq<Seq<u8>>,
    buf1: Seq<T>,
    scratch2: Seq<Seq<u8>>,
    buf2: Seq<T>,
)
    requires
        normalizes_once(normalize),
        fits_once(image, w, h),
        batch_planes(normalize, seq![image], w, h, scratch1, buf1),
        batch_planes(normalize, seq![image], w, h, scratch2, buf2),
        scratch_free(image, w, h) || scratch1[0] == scratch2[0],
    ensures
        buf1 == buf2,
{
    law_batch_of_one_is_its_image(normalize, image, w, h, scratch1, buf1);
    law_batch_of_one_is_its_image(normalize, image, w, h, scratch2, buf2);
    law_image_determines_pixels(
        image,
        w,
        h,
        scratch1[0],
        scratch1[1],
        scratch2[0],
        scratch2[1],
    );
    law_pixels_determine_planes(
        normalize,
        model_rgb(image, w, h, scratch1[1]),
        w * h,
        buf1,
        buf2,
    );
}

/// Law: a batch equals single calls.  Let `model` give raw boxes and logits for the
/// planes of each image of a batch by itself.  Then image `b` of a batch has the
/// detections of a call on that image alone, where normalisation, resizer, score and
/// edges are functions; for an image without pixels that has to be resized, where the
/// scratch buffers held the same.
pub proof fn law_batch_equals_single_calls<
    T,
    F: Fn(usize, u8) -> T,
    S: Fn(F32) -> F32,
    E: Fn(F32, F32, u32) -> (i32, i32),
>(
    normalize: F,
    score: S,
    edges: E,
    model: spec_fn(Seq<T>) -> (Seq<F32>, Seq<F32>),
    w: u32,
    h: u32,
    num_queries: int,
    num_classes: int,
    threshold: F32,
    images: Seq<SourceImage>,
    scratch: Seq<Seq<u8>>,
    buf: Seq<T>,
    boxes: Seq<F32>,
    logits: Seq<F32>,
    batch: Seq<Vec<Detection>>,
    b: int,
    one_scratch: Seq<Seq<u8>>,
    one_buf: Seq<T>,
    one_boxes: Seq<F32>,
    one_logits: Seq<F32>,
    single: Seq<Detection>,
)
    requires
        normalizes_once(normalize),
        scores_once(score),
        edges_once(edges),
        0 <= b < images.len(),
        scratch_free(images[b], w, h) || scratch[b] == one_scratch[0],
        fits_once(images[b], w, h),
        batch_planes(normalize, images, w, h, scratch, buf),
        ({
            let n = 3 * (w * h);
            (image_part(boxes, b, num_queries * 4), image_part(logits, b, num_queries * num_classes))
                == model(buf.subrange(b * n, (b + 1) * n))
        }),
        detections_of(
            score,
            edges,
            image_part(boxes, b, num_queries * 4),
            image_part(logits, b, num_queries * num_classes),
            num_queries,
            num_classes,
            images[b].width,
            images[b].height,
            threshold,
            batch[b]@,
        ),
        batch_planes(normalize, seq![images[b]], w, h, one_scratch, one_buf),
        (
            image_part(one_boxes, 0, num_queries * 4),
            image_part(one_logits, 0, num_queries * num_classes),
        ) == model(one_buf),
        detections_of(
            score,
            edges,
            image_part(one_boxes, 0, num_queries * 4),
            image_part(one_logits, 0, num_queries * num_classes),
            num_queries,
            num_classes,
            images[b].width,
            images[b].height,
            threshold,
            single,
        ),
    ensures
        batch[b]@ == single,
{
    let n = 3 * (w * h);
    let image = images[b];
    let part = buf.subrange(b * n, (b + 1) * n);
    let around = seq![scratch[b], scratch[b + 1]];
    law_batch_of_one_is_its_image(normalize, image, w, h, around, part);
    law_image_determines_tensor(normalize, image, w, h, around, part, one_scratch, one_buf);
    law_outputs_determine_detections(
        score,
        edges,
        image_part(boxes, b, num_queries * 4),
        image_part(logits, b, num_queries * num_classes),
        num_queries,
        num_classes,
        image.width,
        image.height,
        threshold,
        batch[b]@,
        single,
    );
}

/// `outcome` is what inference on a batch comes to on an engine in this state, where
/// `session` gives the raw outputs for an input tensor, or the error of the run: nothing
/// for no images, a refusal for too many, and otherwise the error of the run or the
/// detections of each image.
pub open spec fn inferred<
    T,
    F: Fn(usize, u8) -> T,
    S: Fn(F32) -> F32,
    E: Fn(F32, F32, u32) -> (i32, i32),
>(
    normalize: F,
    score: S,
    edges: E,
    session: spec_fn(Seq<T>) -> Result<(Seq<F32>, Seq<F32>), Error>,
    engine: Engine<T>,
    images: Seq<SourceImage>,
    threshold: F32,
    outcome: Result<Seq<Seq<Detection>>, Error>,
) -> bool {
    if images.len() == 0 {
        outcome == Ok::<Seq<Seq<Detection>>, Error>(Seq::empty())
    } else if images.len() > engine.config.max_batch_size {
        outcome == Err::<Seq<Seq<Detection>>, Error>(
            Error::BatchTooLarge {
                requested: images.len() as usize,
                max: engine.config.max_batch_size,
            },
        )
    } else {
        exists|scratch: Seq<Seq<u8>>, tensor: Seq<T>|
            {
                &&& #[trigger] batch_planes(
                    normalize,
                    images,
                    engine.w(),
                    engine.h(),
                    scratch,
                    tensor,
                )
                &&& scratch[0] == engine.scratch_rgb@
                &&& read_off(
                    score,
                    edges,
                    session(tensor),
                    engine.model_info,
                    images,
                    threshold,
                    outcome,
                )
            }
    }
}

/// `outcome` is what the raw outputs of a run, or its error, come to for these images.
pub open spec fn read_off<S: Fn(F32) -> F32, E: Fn(F32, F32, u32) -> (i32, i32)>(
    score: S,
    edges: E,
    outputs: Result<(Seq<F32>, Seq<F32>), Error>,
    info: ModelInfo,
    images: Seq<SourceImage>,
    threshold: F32,
    outcome: Result<Seq<Seq<Detection>>, Error>,
) -> bool {
    match outputs {
        Err(e) => outcome == Err::<Seq<Seq<Detection>>, Error>(e),
        Ok((boxes, logits)) => {
            let (nq, nc) = (info.num_queries as int, info.num_classes as int);
            &&& outcome matches Ok(lists)
            &&& lists.len() == images.len()
            &&& forall|b: int|
                #![trigger lists[b]]
                0 <= b < images.len() ==> detections_of(
                    score,
                    edges,
                    image_part(boxes, b, nq * 4),
                    image_part(logits, b, nq * nc),
                    nq,
                    nc,
                    images[b].width,
                    images[b].height,
                    threshold,
                    lists[b],
                )
        },
    }
}

/// Law: the two steps around a run make an inference.  The tensor that
/// [`Engine::begin_batch`] leaves in either place, and the lists that
/// [`Engine::finish_batch`] reads off the outputs of the run on it, are an outcome of
/// inference on the batch.
pub proof fn law_steps_make_an_inference<
    T,
    F: Fn(usize, u8) -> T,
    S: Fn(F32) -> F32,
    E: Fn(F32, F32, u32) -> (i32, i32),
>(
    normalize: F,
    score: S,
    edges: E,
    session: spec_fn(Seq<T>) -> Result<(Seq<F32>, Seq<F32>), Error>,
    engine: Engine<T>,
    images: Seq<SourceImage>,
    threshold: F32,
    scratch: Seq<Seq<u8>>,
    tensor: Seq<T>,
    boxes: Seq<F32>,
    logits: Seq<F32>,
    lists: Vec<Vec<Detection>>,
)
    requires
        0 < images.len() <= engine.config.max_batch_size,
        scratch.len() > 0,
        scratch[0] == engine.scratch_rgb@,
        if images.len() == 1 && engine.pinned {
            &&& scratch.len() == 2
            &&& fitted(images[0], engine.w(), engine.h(), scratch[0], scratch[1])
            &&& planar(
                normalize,
                model_rgb(images[0], engine.w(), engine.h(), scratch[1]),
                engine.w() * engine.h(),
                tensor,
            )
        } else {
            batch_planes(normalize, images, engine.w(), engine.h(), scratch, tensor)
        },
        session(tensor) == Ok::<(Seq<F32>, Seq<F32>), Error>((boxes, logits)),
        lists@.len() == images.len(),
        ({
            let (nq, nc) = (
                engine.model_info.num_queries as int,
                engine.model_info.num_classes as int,
            );
            forall|b: int|
                #![trigger lists@[b]]
                0 <= b < lists@.len() ==> detections_of(
                    score,
                    edges,
                    image_part(boxes, b, nq * 4),
                    image_part(logits, b, nq * nc),
                    nq,
                    nc,
                    sizes_of(images)[b].0,
                    sizes_of(images)[b].1,
                    threshold,
                    lists@[b]@,
                )
        }),
    ensures
        inferred(
            normalize,
            score,
            edges,
            session,
            engine,
            images,
            threshold,
            lists_of(Ok::<Vec<Vec<Detection>>, Error>(lists)),
        ),
{
    let (w, h) = (engine.w(), engine.h());
    if images.len() == 1 && engine.pinned {
        law_batch_of_one_is_its_image(normalize, images[0], w, h, scratch, tensor);
        assert(seq![images[0]] =~= images);
    }
    let outcome = lists_of(Ok::<Vec<Vec<Detection>>, Error>(lists));
    let seen = lists@.map_values(|list: Vec<Detection>| list@);
    assert forall|b: int| #![trigger seen[b]] 0 <= b < images.len() implies detections_of(
        score,
        edges,
        image_part(boxes, b, engine.model_info.num_queries * 4),
        image_part(logits, b, engine.model_info.num_queries * engine.model_info.num_classes),
        engine.model_info.num_queries as int,
        engine.model_info.num_classes as int,
        images[b].width,
        images[b].height,
        threshold,
        seen[b],
    ) by {
        assert(seen[b] == lists@[b]@);
    }
    assert(read_off(score, edges, session(tensor), engine.model_info, images, threshold, outcome));
    assert(batch_planes(normalize, images, w, h, scratch, tensor));
}

/// Law: inference on one image is inference on a batch that holds it alone.  On two
/// engines in the same state, where normalisation, resizer, score, edges and the session
/// are functions, the batch gives one list, which is what the image gives, or the error
/// that the image gives.  An engine that takes no images at all refuses both.
pub proof fn law_infer_is_a_batch_of_one<
    T,
    F: Fn(usize, u8) -> T,
    S: Fn(F32) -> F32,
    E: Fn(F32, F32, u32) -> (i32, i32),
>(
    normalize: F,
    score: S,
    edges: E,
    session: spec_fn(Seq<T>) -> Result<(Seq<F32>, Seq<F32>), Error>,
    engine: Engine<T>,
    image: SourceImage,
    threshold: F32,
    batch: Result<Seq<Seq<Detection>>, Error>,
    behind: Result<Seq<Seq<Detection>>, Error>,
    single: Result<Seq<Detection>, Error>,
)
    requires
        normalizes_once(normalize),
        scores_once(score),
        edges_once(edges),
        fits_once(image, engine.w(), engine.h()),
        inferred(normalize, score, edges, session, engine, seq![image], threshold, batch),
        inferred(normalize, score, edges, session, engine, seq![image], threshold, behind),
        single == single_of(behind),
    ensures
        batch matches Ok(lists) ==> lists.len() == 1 && single == Ok::<Seq<Detection>, Error>(
            lists[0],
        ),
        batch matches Err(e) ==> single == Err::<Seq<Detection>, Error>(e),
        engine.config.max_batch_size == 0 ==> batch == Err::<Seq<Seq<Detection>>, Error>(
            Error::BatchTooLarge { requested: 1, max: 0 },
        ),
{
    let images = seq![image];
    let (w, h) = (engine.w(), engine.h());
    let (nq, nc) = (engine.model_info.num_queries as int, engine.model_info.num_classes as int);
    if engine.config.max_batch_size >= 1 {
        let (scratch1, tensor1) = choose|scratch: Seq<Seq<u8>>, tensor: Seq<T>|
            {
                &&& #[trigger] batch_planes(normalize, images, w, h, scratch, tensor)
                &&& scratch[0] == engine.scratch_rgb@
                &&& read_off(
                    score,
                    edges,
                    session(tensor),
                    engine.model_info,
                    images,
                    threshold,
                    batch,
                )
            };
        let (scratch2, tensor2) = choose|scratch: Seq<Seq<u8>>, tensor: Seq<T>|
            {
                &&& #[trigger] batch_planes(normalize, images, w, h, scratch, tensor)
                &&& scratch[0] == engine.scratch_rgb@
                &&& read_off(
                    score,
                    edges,
                    session(tensor),
                    engine.model_info,
                    images,
                    threshold,
                    behind,
                )
            };
        law_image_determines_tensor(
            normalize,
            image,
            w,
            h,
            scratch1,
            tensor1,
            scratch2,
            tensor2,
        );
        if let Ok((boxes, logits)) = session(tensor1) {
            let (a, b) = (batch->Ok_0[0], behind->Ok_0[0]);
            assert(behind->Ok_0.last() == b);
            law_outputs_determine_detections(
                score,
                edges,
                image_part(boxes, 0, nq * 4),
                image_part(logits, 0, nq * nc),
                nq,
                nc,
                image.width,
                image.height,
                threshold,
                a,
                b,
            );
        }
    }
}

/// Law: a BGR frame equals the RGB image of the same picture.  Both give the model the
/// same tensor and have the same detections, whatever calls came before, where
/// normalisation, resizer, score, edges and the model are functions.
pub proof fn law_frame_equals_its_image<
    T,
    F: Fn(usize, u8) -> T,
    S: Fn(F32) -> F32,
    E: Fn(F32, F32, u32) -> (i32, i32),
>(
    normalize: F,
    score: S,
    edges: E,
    model: spec_fn(Seq<T>) -> (Seq<F32>, Seq<F32>),
    w: u32,
    h: u32,
    num_queries: int,
    num_classes: int,
    threshold: F32,
    bgr: Seq<u8>,
    before: Seq<u8>,
    after: Seq<u8>,
    frame_tensor: Seq<T>,
    frame_dets: Seq<Detection>,
    image: SourceImage,
    scratch: Seq<Seq<u8>>,
    image_tensor: Seq<T>,
    image_dets: Seq<Detection>,
)
    requires
        normalizes_once(normalize),
        scores_once(score),
        edges_once(edges),
        image.pixels is Rgb8,
        scratch_free(image, w, h),
        fits_once(image, w, h),
        bgr.len() == 3 * image.area(),
        image.rgb8() == swap_rb(bgr),
        image.width != w || image.height != h ==> rescaled(
            bgr,
            image.width,
            image.height,
            zero_padded(before, 3 * (w * h)),
            w,
            h,
            after,
        ),
        planar(
            normalize,
            swap_rb(
                if image.width == w && image.height == h {
                    bgr
                } else {
                    after
                },
            ),
            w * h,
            frame_tensor,
        ),
        detections_of(
            score,
            edges,
            model(frame_tensor).0,
            model(frame_tensor).1,
            num_queries,
            num_classes,
            image.width,
            image.height,
            threshold,
            frame_dets,
        ),
        batch_planes(normalize, seq![image], w, h, scratch, image_tensor),
        detections_of(
            score,
            edges,
            model(image_tensor).0,
            model(image_tensor).1,
            num_queries,
            num_classes,
            image.width,
            image.height,
            threshold,
            image_dets,
        ),
    ensures
        frame_tensor == image_tensor,
        frame_dets == image_dets,
{
    law_frame_is_its_rgb_image(bgr, image, w, h, before, after);
    let same = image.width == w && image.height == h;
    let left = if same {
        before
    } else {
        swap_rb(after)
    };
    let around = seq![before, left];
    law_batch_of_one_is_its_image(normalize, image, w, h, around, frame_tensor);
    law_image_determines_tensor(
        normalize,
        image,
        w,
        h,
        around,
        frame_tensor,
        scratch,
        image_tensor,
    );
    law_outputs_determine_detections(
        score,
        edges,
        model(image_tensor).0,
        model(image_tensor).1,
        num_queries,
        num_classes,
        image.width,
        image.height,
        threshold,
        frame_dets,
        image_dets,
    );
}

/// Law: planes that were prepared elsewhere are held to the same as those that the
/// engine prepares.  What [`preprocess_into_slice`] leaves for an image, handed to
/// [`Engine::begin_from_nchw`], is the tensor of a batch of that image.
pub proof fn law_prepared_planes_are_a_batch_of_one<T, F: Fn(usize, u8) -> T>(
    normalize: F,
    image: SourceImage,
    w: u32,
    h: u32,
    before: Seq<u8>,
    after: Seq<u8>,
    nchw: Seq<T>,
    source: InputSource,
    pinned: Seq<T>,
    buffer: Seq<T>,
)
    requires
        fitted(image, w, h, before, after),
        planar(normalize, model_rgb(image, w, h, after), w * h, nchw),
        tensor_of(source, pinned, buffer, nchw) == nchw,
    ensures
        batch_planes(
            normalize,
            seq![image],
            w,
            h,
            seq![before, after],
            tensor_of(source, pinned, buffer, nchw),
        ),
{
    law_batch_of_one_is_its_image(normalize, image, w, h, seq![before, after], nchw);
}

/// Law: inference on planes that were prepared elsewhere equals inference on the image.
/// Both give the model the same tensor and have the same detections, where
/// normalisation, resizer, score, edges and the model are functions; for an image
/// without pixels, where the scratch buffers held the same.
pub proof fn law_prepared_planes_equal_the_image<
    T,
    F: Fn(usize, u8) -> T,
    S: Fn(F32) -> F32,
    E: Fn(F32, F32, u32) -> (i32, i32),
>(
    normalize: F,
    score: S,
    edges: E,
    model: spec_fn(Seq<T>) -> (Seq<F32>, Seq<F32>),
    w: u32,
    h: u32,
    num_queries: int,
    num_classes: int,
    threshold: F32,
    image: SourceImage,
    before: Seq<u8>,
    after: Seq<u8>,
    nchw: Seq<T>,
    source: InputSource,
    pinned: Seq<T>,
    buffer: Seq<T>,
    nchw_dets: Seq<Detection>,
    scratch: Seq<Seq<u8>>,
    image_tensor: Seq<T>,
    image_dets: Seq<Detection>,
)
    requires
        normalizes_once(normalize),
        scores_once(score),
        edges_once(edges),
        fits_once(image, w, h),
        scratch_free(image, w, h) || before == scratch[0],
        fitted(image, w, h, before, after),
        planar(normalize, model_rgb(image, w, h, after), w * h, nchw),
        tensor_of(source, pinned, buffer, nchw) == nchw,
        detections_of(
            score,
            edges,
            model(tensor_of(source, pinned, buffer, nchw)).0,
            model(tensor_of(source, pinned, buffer, nchw)).1,
            num_queries,
            num_classes,
            image.width,
            image.height,
            threshold,
            nchw_dets,
        ),
        batch_planes(normalize, seq![image], w, h, scratch, image_tensor),
        detections_of(
            score,
            edges,
            model(image_tensor).0,
            model(image_tensor).1,
            num_queries,
            num_classes,
            image.width,
            image.height,
            threshold,
            image_dets,
        ),
    ensures
        tensor_of(source, pinned, buffer, nchw) == image_tensor,
        nchw_dets == image_dets,
{
    law_prepared_planes_are_a_batch_of_one(
        normalize,
        image,
        w,
        h,
        before,
        after,
        nchw,
        source,
        pinned,
        buffer,
    );
    law_image_determines_tensor(
        normalize,
        image,
        w,
        h,
        seq![before, after],
        nchw,
        scratch,
        image_tensor,
    );
    law_outputs_determine_detections(
        score,
        edges,
        model(image_tensor).0,
        model(image_tensor).1,
        num_queries,
        num_classes,
        image.width,
        image.height,
        threshold,
        nchw_dets,
        image_dets,
    );
}

} // verus!
