//! What the raw outputs of a model for one image are decoded to.

use crate::float_bits::F32;
use crate::laws::numbers::{law_f32_order, no_number32, number32};
use crate::postprocess::{
    best_class, best_of, detected, detection_of, detections_of, detects, law_best_is_first_greatest,
    law_detected_exactly, logit_row, postprocess, span, BestClass, Detection,
};
use vstd::prelude::*;

verus! {

/// The number of `a` is at least that of `b`.
pub open spec fn reaches(a: F32, b: F32) -> bool {
    !no_number32(a.bits) && !no_number32(b.bits) && number32(a.bits) >= number32(b.bits)
}

/// Negative infinity.
pub open spec fn lowest() -> F32 {
    F32 { bits: 0xff80_0000 }
}

/// Query `q` is kept: one of its logits reaches the threshold.  A threshold that is no
/// number, or negative infinity, keeps every query.
pub open spec fn kept(logits: Seq<F32>, nc: int, threshold: F32, q: int) -> bool {
    ||| no_number32(threshold.bits)
    ||| reaches(lowest(), threshold)
    ||| exists|c: int| 0 <= c < nc && reaches(#[trigger] logits[q * nc + c], threshold)
}

/// `class_id` and `logit` are the winner of the `nc` logits from `start` on: no logit is
/// greater, and none of those before it as great; where no logit is above negative
/// infinity the winner is class 0 at negative infinity.
pub open spec fn wins(logits: Seq<F32>, start: int, nc: int, class_id: int, logit: F32) -> bool {
    &&& forall|c: int|
        0 <= c < nc && !no_number32((#[trigger] logits[start + c]).bits) ==> reaches(
            logit,
            logits[start + c],
        )
    &&& if exists|c: int|
        0 <= c < nc && !no_number32((#[trigger] logits[start + c]).bits) && !reaches(
            lowest(),
            logits[start + c],
        ) {
        &&& 0 <= class_id < nc
        &&& logit == logits[start + class_id]
        &&& forall|c: int| 0 <= c < class_id ==> !reaches(#[trigger] logits[start + c], logit)
    } else {
        class_id == 0 && logit == lowest()
    }
}

/// `det` is what query `q` decodes to: the class that wins, the score of its logit, and
/// the box from the edges along each side, with no extent where the edges cross.
pub open spec fn decodes<S: Fn(F32) -> F32, E: Fn(F32, F32, u32) -> (i32, i32)>(
    score: S,
    edges: E,
    boxes: Seq<F32>,
    logits: Seq<F32>,
    nc: int,
    w: u32,
    h: u32,
    q: int,
    det: Detection,
) -> bool {
    &&& exists|logit: F32|
        {
            &&& #[trigger] wins(logits, q * nc, nc, det.class_id as int, logit)
            &&& call_ensures(score, (logit,), det.confidence)
        }
    &&& exists|x2: i32|
        {
            &&& #[trigger] call_ensures(edges, (boxes[4 * q], boxes[4 * q + 2], w), (det.x, x2))
            &&& det.width == (if x2 > det.x {
                x2 - det.x
            } else {
                0
            })
        }
    &&& exists|y2: i32|
        {
            &&& #[trigger] call_ensures(edges, (boxes[4 * q + 1], boxes[4 * q + 3], h), (det.y, y2))
            &&& det.height == (if y2 > det.y {
                y2 - det.y
            } else {
                0
            })
        }
}

/// Detection `k` is that of query `at[k]`: these ascend, and they are exactly the
/// queries that are kept.
pub open spec fn decoded_at<S: Fn(F32) -> F32, E: Fn(F32, F32, u32) -> (i32, i32)>(
    score: S,
    edges: E,
    boxes: Seq<F32>,
    logits: Seq<F32>,
    nq: int,
    nc: int,
    w: u32,
    h: u32,
    threshold: F32,
    dets: Seq<Detection>,
    at: Seq<int>,
) -> bool {
    &&& at.len() == dets.len()
    &&& forall|i: int, j: int| 0 <= i < j < at.len() ==> at[i] < at[j]
    &&& forall|k: int| 0 <= k < at.len() ==> 0 <= #[trigger] at[k] < nq
    &&& forall|q: int|
        0 <= q < nq ==> (#[trigger] at.contains(q) <==> kept(logits, nc, threshold, q))
    &&& forall|k: int|
        #![trigger at[k]]
        0 <= k < at.len() ==> decodes(score, edges, boxes, logits, nc, w, h, at[k], dets[k])
}

/// `dets` is what the raw outputs for one image of `w` by `h` pixels decode to: one
/// detection for each query that is kept, in their order.
pub open spec fn decoded<S: Fn(F32) -> F32, E: Fn(F32, F32, u32) -> (i32, i32)>(
    score: S,
    edges: E,
    boxes: Seq<F32>,
    logits: Seq<F32>,
    nq: int,
    nc: int,
    w: u32,
    h: u32,
    threshold: F32,
    dets: Seq<Detection>,
) -> bool {
    exists|at: Seq<int>| #[trigger]
        decoded_at(score, edges, boxes, logits, nq, nc, w, h, threshold, dets, at)
}

/// The winner of a row of logits.
pub(crate) proof fn lemma_best_wins(logits: Seq<F32>, start: int, nc: int)
    requires
        0 <= start <= start + nc <= logits.len(),
        nc <= usize::MAX,
    ensures
        ({
            let best = best_of(logits.subrange(start, start + nc));
            wins(logits, start, nc, best.class_id as int, best.logit)
        }),
{
    let row = logits.subrange(start, start + nc);
    let best = best_of(row);
    law_best_is_first_greatest(row);
    law_f32_order(lowest(), lowest());
    law_f32_order(best.logit, best.logit);
    assert forall|c: int| 0 <= c < nc implies {
        let v = #[trigger] logits[start + c];
        &&& v == row[c]
        &&& !no_number32(v.bits) ==> reaches(best.logit, v)
        &&& F32::neg_infinity().less(v) <==> !no_number32(v.bits) && !reaches(lowest(), v)
        &&& v.nan() || v.less(best.logit) ==> !reaches(v, best.logit)
    } by {
        let v = row[c];
        assert(!best.logit.less(v));
        law_f32_order(best.logit, v);
        law_f32_order(v, best.logit);
        law_f32_order(lowest(), v);
    }
    if exists|j: int| 0 <= j < row.len() && F32::neg_infinity().less(#[trigger] row[j]) {
        let j = choose|j: int| 0 <= j < row.len() && F32::neg_infinity().less(#[trigger] row[j]);
        assert(logits[start + j] == row[j]);
        assert forall|c: int| 0 <= c < best.class_id implies !reaches(
            #[trigger] logits[start + c],
            best.logit,
        ) by {
            assert(row[c].nan() || row[c].less(best.logit));
        }
    } else {
        assert forall|c: int| 0 <= c < nc implies no_number32((#[trigger] logits[start + c]).bits)
            || reaches(lowest(), logits[start + c]) by {
            assert(!F32::neg_infinity().less(row[c]));
        }
    }
}

/// A query is detected exactly where it is kept.
pub(crate) proof fn lemma_detects_is_kept(logits: Seq<F32>, nc: int, threshold: F32, q: int)
    requires
        0 <= nc <= usize::MAX,
        0 <= q * nc,
        q * nc + nc <= logits.len(),
    ensures
        detects(logits, nc, threshold, q) == kept(logits, nc, threshold, q),
{
    let start = q * nc;
    assert((q + 1) * nc == start + nc) by (nonlinear_arith)
        requires
            start == q * nc,
    ;
    let row = logit_row(logits, nc, q);
    let best = best_of(row);
    lemma_best_wins(logits, start, nc);
    law_f32_order(best.logit, threshold);
    law_f32_order(lowest(), threshold);
    law_f32_order(threshold, lowest());
    law_best_is_first_greatest(row);
    law_f32_order(best.logit, best.logit);
    if detects(logits, nc, threshold, q) && !no_number32(threshold.bits) && !reaches(
        lowest(),
        threshold,
    ) {
        assert(reaches(best.logit, threshold));
        assert(best.logit != lowest());
        assert(reaches(logits[start + best.class_id as int], threshold));
    }
    if exists|c: int| 0 <= c < nc && reaches(#[trigger] logits[start + c], threshold) {
        let c = choose|c: int| 0 <= c < nc && reaches(#[trigger] logits[start + c], threshold);
        assert(reaches(best.logit, logits[start + c]));
    }
    if reaches(lowest(), threshold) {
        assert(number32(best.logit.bits) >= number32(lowest().bits)) by {
            law_f32_order(best.logit, lowest());
            lemma_nothing_below_lowest(best.logit);
        }
    }
}

/// No number is below negative infinity.
proof fn lemma_nothing_below_lowest(a: F32)
    requires
        !no_number32(a.bits),
    ensures
        number32(a.bits) >= number32(lowest().bits),
{
    law_f32_order(a, lowest());
    assert(!a.less(lowest()));
}

/// Detections that a contract states are what the outputs decode to.
pub(crate) proof fn lemma_decoded<S: Fn(F32) -> F32, E: Fn(F32, F32, u32) -> (i32, i32)>(
    score: S,
    edges: E,
    boxes: Seq<F32>,
    logits: Seq<F32>,
    nq: int,
    nc: int,
    w: u32,
    h: u32,
    threshold: F32,
    dets: Seq<Detection>,
)
    requires
        0 <= nq,
        0 <= nc <= usize::MAX,
        logits.len() == nq * nc,
        detections_of(score, edges, boxes, logits, nq, nc, w, h, threshold, dets),
    ensures
        decoded(score, edges, boxes, logits, nq, nc, w, h, threshold, dets),
{
    let at = detected(logits, nc, threshold, nq);
    law_detected_exactly(logits, nc, threshold, nq);
    assert forall|q: int| 0 <= q < nq implies detects(logits, nc, threshold, q) == #[trigger] kept(
        logits,
        nc,
        threshold,
        q,
    ) && 0 <= q * nc && q * nc + nc <= logits.len() by {
        assert(0 <= q * nc && q * nc + nc <= nq * nc) by (nonlinear_arith)
            requires
                0 <= q < nq,
                0 <= nc,
        ;
        lemma_detects_is_kept(logits, nc, threshold, q);
    }
    assert forall|q: int| 0 <= q < nq implies (#[trigger] at.contains(q) <==> kept(
        logits,
        nc,
        threshold,
        q,
    )) by {
        if at.contains(q) {
            let k = choose|k: int| 0 <= k < at.len() && at[k] == q;
            assert(detects(logits, nc, threshold, at[k]));
        }
        assert(kept(logits, nc, threshold, q) == detects(logits, nc, threshold, q));
    }
    assert forall|k: int|
        #![trigger at[k]]
        0 <= k < at.len() implies decodes(score, edges, boxes, logits, nc, w, h, at[k], dets[k]) by {
        let (q, det) = (at[k], dets[k]);
        let row = logit_row(logits, nc, q);
        assert(detection_of(score, edges, boxes, row, q, w, h, det));
        assert(kept(logits, nc, threshold, q) == detects(logits, nc, threshold, q));
        assert((q + 1) * nc == q * nc + nc) by (nonlinear_arith);
        lemma_best_wins(logits, q * nc, nc);
        assert(wins(logits, q * nc, nc, det.class_id as int, best_of(row).logit));
        let x2 = choose|x2: i32|
            #![trigger span(det.x, x2)]
            call_ensures(edges, (boxes[4 * q], boxes[4 * q + 2], w), (det.x, x2)) && det.width
                == span(det.x, x2);
        assert(call_ensures(edges, (boxes[4 * q], boxes[4 * q + 2], w), (det.x, x2)));
        let y2 = choose|y2: i32|
            #![trigger span(det.y, y2)]
            call_ensures(edges, (boxes[4 * q + 1], boxes[4 * q + 3], h), (det.y, y2)) && det.height
                == span(det.y, y2);
        assert(call_ensures(edges, (boxes[4 * q + 1], boxes[4 * q + 3], h), (det.y, y2)));
    }
    assert(decoded_at(score, edges, boxes, logits, nq, nc, w, h, threshold, dets, at));
}

/// Law: the best class is the first of the greatest logits.
pub proof fn law_best_class(logits: &[F32], start: usize, end: usize, res: BestClass)
    requires
        start <= end <= logits@.len(),
        call_ensures(best_class, (logits, start, end), res),
    ensures
        wins(logits@, start as int, end - start, res.class_id as int, res.logit),
{
    lemma_best_wins(logits@, start as int, end - start);
}

/// Law: every query that has a logit as great as the threshold, whichever class it is
/// of, is among the detections, no other query is, and each detection has the class of
/// its query's greatest logit, the score of that logit and the box of that query.
pub proof fn law_postprocess<S: Fn(F32) -> F32, E: Fn(F32, F32, u32) -> (i32, i32)>(
    boxes: &[F32],
    logits: &[F32],
    num_queries: usize,
    num_classes: usize,
    orig_w: u32,
    orig_h: u32,
    threshold: F32,
    score: &S,
    edges: &E,
    res: Vec<Detection>,
)
    requires
        boxes@.len() == num_queries * 4,
        logits@.len() == num_queries * num_classes,
        call_ensures(
            postprocess::<S, E>,
            (boxes, logits, num_queries, num_classes, orig_w, orig_h, threshold, score, edges),
            res,
        ),
    ensures
        decoded(
            *score,
            *edges,
            boxes@,
            logits@,
            num_queries as int,
            num_classes as int,
            orig_w,
            orig_h,
            threshold,
            res@,
        ),
{
    lemma_decoded(
        *score,
        *edges,
        boxes@,
        logits@,
        num_queries as int,
        num_classes as int,
        orig_w,
        orig_h,
        threshold,
        res@,
    );
}

/// Law: [`postprocess`] takes outputs of the stated lengths, whatever they hold.
pub proof fn law_postprocess_takes_any_outputs<
    S: Fn(F32) -> F32,
    E: Fn(F32, F32, u32) -> (i32, i32),
>(
    boxes: &[F32],
    logits: &[F32],
    num_queries: usize,
    num_classes: usize,
    orig_w: u32,
    orig_h: u32,
    threshold: F32,
    score: &S,
    edges: &E,
)
    requires
        boxes@.len() == num_queries * 4,
        logits@.len() == num_queries * num_classes,
        forall|logit: F32| call_requires(*score, (logit,)),
        forall|center: F32, extent: F32, side: u32|
            call_requires(*edges, (center, extent, side)),
        forall|center: F32, extent: F32, side: u32, out: (i32, i32)|
            call_ensures(*edges, (center, extent, side), out) ==> 0 <= out.0 && 0 <= out.1,
    ensures
        call_requires(
            postprocess::<S, E>,
            (boxes, logits, num_queries, num_classes, orig_w, orig_h, threshold, score, edges),
        ),
{
}

} // verus!
