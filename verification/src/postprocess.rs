//! From the raw outputs of the model to detections in pixels.

use crate::float_bits::F32;
use vstd::prelude::*;

verus! {

/// One detected object: its box in pixels of the original image, its class, and
/// the confidence of the model.
#[derive(Clone, Copy, Debug, PartialEq, Eq, Structural)]
pub struct Detection {
    pub x: i32,
    pub y: i32,
    pub width: i32,
    pub height: i32,
    pub class_id: usize,
    pub confidence: F32,
}

/// The best class of a query and its logit.
#[derive(Clone, Copy, Debug, PartialEq, Eq, Structural)]
pub struct BestClass {
    pub class_id: usize,
    pub logit: F32,
}

/// The first greatest logit of a row; class 0 at negative infinity where no
/// logit exceeds that.
pub open spec fn best_of(row: Seq<F32>) -> BestClass
    decreases row.len(),
{
    if row.len() == 0 {
        BestClass { class_id: 0, logit: F32::neg_infinity() }
    } else {
        let best = best_of(row.drop_last());
        if best.logit.less(row.last()) {
            BestClass { class_id: (row.len() - 1) as usize, logit: row.last() }
        } else {
            best
        }
    }
}

/// The logits of query `q`.
pub open spec fn logit_row(logits: Seq<F32>, num_classes: int, q: int) -> Seq<F32> {
    logits.subrange(q * num_classes, (q + 1) * num_classes)
}

/// Whether query `q` is a detection: its best logit does not fall below the
/// threshold.
pub open spec fn detects(logits: Seq<F32>, num_classes: int, threshold: F32, q: int) -> bool {
    !best_of(logit_row(logits, num_classes, q)).logit.less(threshold)
}

/// The queries before `n` that are detections, in order.
pub open spec fn detected(logits: Seq<F32>, num_classes: int, threshold: F32, n: int) -> Seq<int>
    decreases n,
{
    if n <= 0 {
        Seq::empty()
    } else {
        let before = detected(logits, num_classes, threshold, n - 1);
        if detects(logits, num_classes, threshold, n - 1) {
            before.push(n - 1)
        } else {
            before
        }
    }
}

/// The distance from `lo` to `hi`, zero where `hi` comes first.
pub open spec fn span(lo: i32, hi: i32) -> int {
    if hi > lo {
        hi - lo
    } else {
        0
    }
}

/// `edges` accepts every centre, extent and image side, and gives edges that are
/// not negative.
pub open spec fn edges_ok<E: Fn(F32, F32, u32) -> (i32, i32)>(edges: E) -> bool {
    &&& forall|center: F32, extent: F32, side: u32| call_requires(edges, (center, extent, side))
    &&& forall|center: F32, extent: F32, side: u32, out: (i32, i32)|
        call_ensures(edges, (center, extent, side), out) ==> 0 <= out.0 && 0 <= out.1
}

/// `score` accepts every logit.
pub open spec fn score_ok<S: Fn(F32) -> F32>(score: S) -> bool {
    forall|logit: F32| call_requires(score, (logit,))
}

/// `det` is the detection of query `q`: the class of its best logit, the score of
/// that logit, and the box between the edges along each axis.
pub open spec fn detection_of<S: Fn(F32) -> F32, E: Fn(F32, F32, u32) -> (i32, i32)>(
    score: S,
    edges: E,
    boxes: Seq<F32>,
    row: Seq<F32>,
    q: int,
    orig_w: u32,
    orig_h: u32,
    det: Detection,
) -> bool {
    &&& det.class_id == best_of(row).class_id
    &&& call_ensures(score, (best_of(row).logit,), det.confidence)
    &&& exists|x2: i32|
        #![trigger span(det.x, x2)]
        call_ensures(edges, (boxes[4 * q], boxes[4 * q + 2], orig_w), (det.x, x2)) && det.width
            == span(det.x, x2)
    &&& exists|y2: i32|
        #![trigger span(det.y, y2)]
        call_ensures(edges, (boxes[4 * q + 1], boxes[4 * q + 3], orig_h), (det.y, y2))
            && det.height == span(det.y, y2)
}

/// `dets` are the detections of one image, in the order of their queries.
pub open spec fn detections_of<S: Fn(F32) -> F32, E: Fn(F32, F32, u32) -> (i32, i32)>(
    score: S,
    edges: E,
    boxes: Seq<F32>,
    logits: Seq<F32>,
    num_queries: int,
    num_classes: int,
    orig_w: u32,
    orig_h: u32,
    threshold: F32,
    dets: Seq<Detection>,
) -> bool {
    let queries = detected(logits, num_classes, threshold, num_queries);
    &&& dets.len() == queries.len()
    &&& forall|k: int|
        #![trigger dets[k]]
        0 <= k < dets.len() ==> detection_of(
            score,
            edges,
            boxes,
            logit_row(logits, num_classes, queries[k]),
            queries[k],
            orig_w,
            orig_h,
            dets[k],
        )
}

/// The best class among `logits[start..end]`.
pub fn best_class(logits: &[F32], start: usize, end: usize) -> (res: BestClass)
    requires
        start <= end <= logits@.len(),
    ensures
        res == best_of(logits@.subrange(start as int, end as int)),
{
    let mut best = BestClass { class_id: 0, logit: F32 { bits: 0xff80_0000 } };
    let mut i: usize = start;
    while i < end
        invariant
            start <= i <= end <= logits@.len(),
            best == best_of(logits@.subrange(start as int, i as int)),
        decreases end - i,
    {
        let ghost row = logits@.subrange(start as int, i + 1);
        assert(row.drop_last() =~= logits@.subrange(start as int, i as int));
        if best.logit.lt(&logits[i]) {
            best = BestClass { class_id: i - start, logit: logits[i] };
        }
        i = i + 1;
    }
    best
}

/// Converts the raw outputs of the model for one image to the detections whose
/// best logit reaches `logit_threshold`.
///
/// `boxes` holds centre x, centre y, width and height for each query, relative to
/// the image; `logits` holds the logits of the classes for each query.  `score`
/// turns a logit into a confidence, and `edges` a centre, an extent and the side
/// of the image in pixels into the two edges of the box along that side.
pub fn postprocess<S: Fn(F32) -> F32, E: Fn(F32, F32, u32) -> (i32, i32)>(
    boxes: &[F32],
    logits: &[F32],
    num_queries: usize,
    num_classes: usize,
    orig_w: u32,
    orig_h: u32,
    logit_threshold: F32,
    score: &S,
    edges: &E,
) -> (res: Vec<Detection>)
    requires
        boxes@.len() == num_queries * 4,
        logits@.len() == num_queries * num_classes,
        score_ok(*score),
        edges_ok(*edges),
    ensures
        detections_of(
            *score,
            *edges,
            boxes@,
            logits@,
            num_queries as int,
            num_classes as int,
            orig_w,
            orig_h,
            logit_threshold,
            res@,
        ),
{
    let mut detections: Vec<Detection> = Vec::new();
    let mut q: usize = 0;
    let mut start: usize = 0;
    while q < num_queries
        invariant
            q <= num_queries,
            start == q * num_classes,
            boxes.len() == num_queries * 4,
            logits.len() == num_queries * num_classes,
            score_ok(*score),
            edges_ok(*edges),
            detections_of(
                *score,
                *edges,
                boxes@,
                logits@,
                q as int,
                num_classes as int,
                orig_w,
                orig_h,
                logit_threshold,
                detections@,
            ),
        decreases num_queries - q,
    {
        proof {
            assert((q + 1) * num_classes == q * num_classes + num_classes) by (nonlinear_arith);
            assert((q + 1) * num_classes <= num_queries * num_classes) by (nonlinear_arith)
                requires
                    q + 1 <= num_queries,
                    num_classes >= 0,
            ;
        }
        let end: usize = start + num_classes;
        let best = best_class(logits, start, end);
        if !best.logit.lt(&logit_threshold) {
            let confidence = score(best.logit);
            let (x1, x2) = edges(boxes[q * 4], boxes[q * 4 + 2], orig_w);
            let (y1, y2) = edges(boxes[q * 4 + 1], boxes[q * 4 + 3], orig_h);
            let width: i32 = if x2 > x1 {
                x2 - x1
            } else {
                0
            };
            let height: i32 = if y2 > y1 {
                y2 - y1
            } else {
                0
            };
            let det = Detection { x: x1, y: y1, width, height, class_id: best.class_id, confidence };
            assert(det.width == span(det.x, x2) && det.height == span(det.y, y2));
            detections.push(det);
        }
        q = q + 1;
        start = end;
    }
    detections
}

/// Law: the best class of a row is the first of its greatest logits, NaNs left
/// aside; only a row in which nothing exceeds negative infinity falls back to
/// class 0.
pub proof fn law_best_is_first_greatest(row: Seq<F32>)
    requires
        row.len() <= usize::MAX,
    ensures
        ({
            let best = best_of(row);
            &&& !best.logit.nan()
            &&& forall|j: int| 0 <= j < row.len() ==> !best.logit.less(#[trigger] row[j])
            &&& if exists|j: int|
                0 <= j < row.len() && F32::neg_infinity().less(#[trigger] row[j]) {
                &&& best.class_id < row.len()
                &&& best.logit == row[best.class_id as int]
                &&& forall|j: int|
                    0 <= j < best.class_id ==> (#[trigger] row[j]).nan() || row[j].less(best.logit)
            } else {
                best.class_id == 0 && best.logit == F32::neg_infinity()
            }
        }),
    decreases row.len(),
{
    let best = best_of(row);
    if row.len() > 0 {
        let rest = row.drop_last();
        let prior = best_of(rest);
        law_best_is_first_greatest(rest);
        assert forall|j: int| 0 <= j < rest.len() implies !prior.logit.less(#[trigger] row[j]) by {
            assert(!prior.logit.less(rest[j]));
        }
        assert forall|j: int|
            0 <= j < rest.len() && F32::neg_infinity().less(#[trigger] row[j]) implies exists|i: int|
            0 <= i < rest.len() && F32::neg_infinity().less(#[trigger] rest[i]) by {
            assert(F32::neg_infinity().less(rest[j]));
        }
        assert forall|j: int|
            0 <= j < prior.class_id && j < rest.len() && (exists|i: int|
                0 <= i < rest.len() && F32::neg_infinity().less(#[trigger] rest[i])) implies (
        #[trigger] row[j]).nan() || row[j].less(prior.logit) by {
            assert(rest[j].nan() || rest[j].less(prior.logit));
        }
        if prior.logit.less(row.last()) {
            assert(F32::neg_infinity().less(row[row.len() - 1]));
        } else if exists|j: int| 0 <= j < row.len() && F32::neg_infinity().less(#[trigger] row[j]) {
            let j = choose|j: int| 0 <= j < row.len() && F32::neg_infinity().less(#[trigger] row[j]);
            if j < rest.len() {
                assert(F32::neg_infinity().less(rest[j]));
            } else {
                assert(!prior.logit.less(row[j]));
                assert(F32::neg_infinity().key() < row[j].key() <= prior.logit.key());
                assert(exists|i: int|
                    0 <= i < rest.len() && F32::neg_infinity().less(#[trigger] rest[i]));
            }
        } else {
            assert forall|j: int| 0 <= j < rest.len() implies !F32::neg_infinity().less(
                #[trigger] rest[j],
            ) by {
                assert(!F32::neg_infinity().less(row[j]));
            }
        }
    }
}

/// Law: the detections are exactly the queries that reach the threshold, each
/// once and in the order of the model's output.
pub proof fn law_detected_exactly(logits: Seq<F32>, num_classes: int, threshold: F32, n: int)
    requires
        0 <= n,
    ensures
        ({
            let queries = detected(logits, num_classes, threshold, n);
            &&& forall|k: int|
                0 <= k < queries.len() ==> 0 <= #[trigger] queries[k] < n && detects(
                    logits,
                    num_classes,
                    threshold,
                    queries[k],
                )
            &&& forall|q: int|
                0 <= q < n && detects(logits, num_classes, threshold, q) ==> #[trigger] queries.contains(q)
            &&& forall|i: int, j: int| 0 <= i < j < queries.len() ==> queries[i] < queries[j]
        }),
    decreases n,
{
    if n > 0 {
        law_detected_exactly(logits, num_classes, threshold, n - 1);
        let before = detected(logits, num_classes, threshold, n - 1);
        let queries = detected(logits, num_classes, threshold, n);
        assert forall|q: int|
            0 <= q < n && detects(logits, num_classes, threshold, q) implies #[trigger] queries.contains(
            q,
        ) by {
            if q < n - 1 {
                assert(before.contains(q));
                let k = choose|k: int| 0 <= k < before.len() && before[k] == q;
                assert(queries[k] == q);
            } else {
                assert(queries[queries.len() - 1] == q);
            }
        }
    }
}

/// Law: a query that reaches a threshold reaches every lower one.
pub proof fn law_lower_threshold_keeps_detections(
    logits: Seq<F32>,
    num_classes: int,
    low: F32,
    high: F32,
    q: int,
)
    requires
        !low.nan(),
        !high.nan(),
        low.key() <= high.key(),
        detects(logits, num_classes, high, q),
    ensures
        detects(logits, num_classes, low, q),
{
}

/// The elements of `part` stand in `whole`, in the same order.
pub open spec fn subsequence<A>(part: Seq<A>, whole: Seq<A>) -> bool {
    exists|at: Seq<int>| #[trigger] picks(part, whole, at)
}

/// Element `k` of `part` is element `at[k]` of `whole`, and these ascend.
pub open spec fn picks<A>(part: Seq<A>, whole: Seq<A>, at: Seq<int>) -> bool {
    &&& at.len() == part.len()
    &&& forall|k: int|
        #![trigger at[k]]
        0 <= k < part.len() ==> 0 <= at[k] < whole.len() && part[k] == whole[at[k]]
    &&& forall|i: int, j: int| 0 <= i < j < at.len() ==> at[i] < at[j]
}

/// Law: raising the threshold only removes queries.  Those that reach the higher
/// threshold are a subsequence of those that reach the lower one.
pub proof fn law_higher_threshold_only_removes(
    logits: Seq<F32>,
    num_classes: int,
    low: F32,
    high: F32,
    n: int,
)
    requires
        !low.nan(),
        !high.nan(),
        low.key() <= high.key(),
    ensures
        subsequence(
            detected(logits, num_classes, high, n),
            detected(logits, num_classes, low, n),
        ),
    decreases n,
{
    let few = detected(logits, num_classes, high, n);
    let many = detected(logits, num_classes, low, n);
    if n <= 0 {
        assert(picks(few, many, Seq::empty()));
    } else {
        law_higher_threshold_only_removes(logits, num_classes, low, high, n - 1);
        let few1 = detected(logits, num_classes, high, n - 1);
        let many1 = detected(logits, num_classes, low, n - 1);
        let at = choose|at: Seq<int>| #[trigger] picks(few1, many1, at);
        if detects(logits, num_classes, high, n - 1) {
            law_lower_threshold_keeps_detections(logits, num_classes, low, high, n - 1);
            assert(picks(few, many, at.push(many1.len() as int)));
        } else {
            assert(picks(few, many, at));
        }
    }
}

/// `score` gives one confidence for a logit.
pub open spec fn scores_once<S: Fn(F32) -> F32>(score: S) -> bool {
    forall|logit: F32, a: F32, b: F32|
        #![trigger call_ensures(score, (logit,), a), call_ensures(score, (logit,), b)]
        call_ensures(score, (logit,), a) && call_ensures(score, (logit,), b) ==> a == b
}

/// `edges` gives one pair of edges for a centre, an extent and a side.
pub open spec fn edges_once<E: Fn(F32, F32, u32) -> (i32, i32)>(edges: E) -> bool {
    forall|center: F32, extent: F32, side: u32, a: (i32, i32), b: (i32, i32)|
        #![trigger
            call_ensures(edges, (center, extent, side), a),
            call_ensures(edges, (center, extent, side), b)]
        call_ensures(edges, (center, extent, side), a) && call_ensures(
            edges,
            (center, extent, side),
            b,
        ) ==> a == b
}

/// A query has one detection.
proof fn lemma_one_detection<S: Fn(F32) -> F32, E: Fn(F32, F32, u32) -> (i32, i32)>(
    score: S,
    edges: E,
    boxes: Seq<F32>,
    row: Seq<F32>,
    q: int,
    orig_w: u32,
    orig_h: u32,
    a: Detection,
    b: Detection,
)
    requires
        scores_once(score),
        edges_once(edges),
        detection_of(score, edges, boxes, row, q, orig_w, orig_h, a),
        detection_of(score, edges, boxes, row, q, orig_w, orig_h, b),
    ensures
        a == b,
{
    let (cx, cy, bw, bh) = (boxes[4 * q], boxes[4 * q + 1], boxes[4 * q + 2], boxes[4 * q + 3]);
    let ax = choose|x2: i32|
        #![trigger span(a.x, x2)]
        call_ensures(edges, (cx, bw, orig_w), (a.x, x2)) && a.width == span(a.x, x2);
    let bx = choose|x2: i32|
        #![trigger span(b.x, x2)]
        call_ensures(edges, (cx, bw, orig_w), (b.x, x2)) && b.width == span(b.x, x2);
    assert((a.x, ax) == (b.x, bx));
    let ay = choose|y2: i32|
        #![trigger span(a.y, y2)]
        call_ensures(edges, (cy, bh, orig_h), (a.y, y2)) && a.height == span(a.y, y2);
    let by = choose|y2: i32|
        #![trigger span(b.y, y2)]
        call_ensures(edges, (cy, bh, orig_h), (b.y, y2)) && b.height == span(b.y, y2);
    assert((a.y, ay) == (b.y, by));
}

/// Law: where scores and edges are functions, the outputs of the model determine the
/// detections.
pub proof fn law_outputs_determine_detections<
    S: Fn(F32) -> F32,
    E: Fn(F32, F32, u32) -> (i32, i32),
>(
    score: S,
    edges: E,
    boxes: Seq<F32>,
    logits: Seq<F32>,
    num_queries: int,
    num_classes: int,
    orig_w: u32,
    orig_h: u32,
    threshold: F32,
    a: Seq<Detection>,
    b: Seq<Detection>,
)
    requires
        scores_once(score),
        edges_once(edges),
        detections_of(
            score,
            edges,
            boxes,
            logits,
            num_queries,
            num_classes,
            orig_w,
            orig_h,
            threshold,
            a,
        ),
        detections_of(
            score,
            edges,
            boxes,
            logits,
            num_queries,
            num_classes,
            orig_w,
            orig_h,
            threshold,
            b,
        ),
    ensures
        a == b,
{
    let queries = detected(logits, num_classes, threshold, num_queries);
    assert forall|k: int| 0 <= k < a.len() implies a[k] == b[k] by {
        lemma_one_detection(
            score,
            edges,
            boxes,
            logit_row(logits, num_classes, queries[k]),
            queries[k],
            orig_w,
            orig_h,
            a[k],
            b[k],
        );
    }
    assert(a =~= b);
}

/// Law: raising the threshold only removes detections and alters none.  The result for
/// the higher threshold is a subsequence of the result for the lower one.
pub proof fn law_higher_threshold_gives_a_subsequence<
    S: Fn(F32) -> F32,
    E: Fn(F32, F32, u32) -> (i32, i32),
>(
    score: S,
    edges: E,
    boxes: Seq<F32>,
    logits: Seq<F32>,
    num_queries: int,
    num_classes: int,
    orig_w: u32,
    orig_h: u32,
    low: F32,
    high: F32,
    many: Seq<Detection>,
    few: Seq<Detection>,
)
    requires
        scores_once(score),
        edges_once(edges),
        !low.nan(),
        !high.nan(),
        low.key() <= high.key(),
        detections_of(
            score,
            edges,
            boxes,
            logits,
            num_queries,
            num_classes,
            orig_w,
            orig_h,
            low,
            many,
        ),
        detections_of(
            score,
            edges,
            boxes,
            logits,
            num_queries,
            num_classes,
            orig_w,
            orig_h,
            high,
            few,
        ),
    ensures
        subsequence(few, many),
{
    law_higher_threshold_only_removes(logits, num_classes, low, high, num_queries);
    let few_queries = detected(logits, num_classes, high, num_queries);
    let many_queries = detected(logits, num_classes, low, num_queries);
    let at = choose|at: Seq<int>| #[trigger] picks(few_queries, many_queries, at);
    assert forall|k: int| #![trigger at[k]] 0 <= k < few.len() implies 0 <= at[k] < many.len()
        && few[k] == many[at[k]] by {
        let q = few_queries[k];
        assert(many_queries[at[k]] == q);
        lemma_one_detection(
            score,
            edges,
            boxes,
            logit_row(logits, num_classes, q),
            q,
            orig_w,
            orig_h,
            few[k],
            many[at[k]],
        );
    }
    assert(picks(few, many, at));
}

/// The row of a query in two sets of logits put together.
proof fn lemma_joined_row(l1: Seq<F32>, l2: Seq<F32>, n1: int, n2: int, num_classes: int, q: int)
    requires
        0 <= num_classes,
        0 <= n1,
        0 <= n2,
        l1.len() == n1 * num_classes,
        l2.len() == n2 * num_classes,
        0 <= q < n1 + n2,
    ensures
        logit_row(l1 + l2, num_classes, q) == if q < n1 {
            logit_row(l1, num_classes, q)
        } else {
            logit_row(l2, num_classes, q - n1)
        },
{
    let nc = num_classes;
    assert((q + 1) * nc == q * nc + nc) by (nonlinear_arith);
    if q < n1 {
        assert(0 <= q * nc && (q + 1) * nc <= n1 * nc) by (nonlinear_arith)
            requires
                0 <= q < n1,
                0 <= nc,
        ;
        assert(logit_row(l1 + l2, nc, q) =~= logit_row(l1, nc, q));
    } else {
        let r = q - n1;
        assert(q * nc == n1 * nc + r * nc && (r + 1) * nc == r * nc + nc) by (nonlinear_arith)
            requires
                q == n1 + r,
        ;
        assert(0 <= r * nc && (r + 1) * nc <= n2 * nc) by (nonlinear_arith)
            requires
                0 <= r < n2,
                0 <= nc,
        ;
        assert(logit_row(l1 + l2, nc, q) =~= logit_row(l2, nc, r));
    }
}

/// The detected queries of two sets put together, up to query `n`.
proof fn lemma_joined_queries(
    l1: Seq<F32>,
    l2: Seq<F32>,
    n1: int,
    n2: int,
    num_classes: int,
    threshold: F32,
    n: int,
)
    requires
        0 <= num_classes,
        0 <= n1,
        0 <= n2,
        l1.len() == n1 * num_classes,
        l2.len() == n2 * num_classes,
        0 <= n <= n1 + n2,
    ensures
        detected(l1 + l2, num_classes, threshold, n) == if n <= n1 {
            detected(l1, num_classes, threshold, n)
        } else {
            detected(l1, num_classes, threshold, n1) + detected(
                l2,
                num_classes,
                threshold,
                n - n1,
            ).map_values(|q: int| n1 + q)
        },
    decreases n,
{
    let shift = |q: int| n1 + q;
    if n > 0 {
        lemma_joined_queries(l1, l2, n1, n2, num_classes, threshold, n - 1);
        lemma_joined_row(l1, l2, n1, n2, num_classes, n - 1);
        if n > n1 {
            let first = detected(l1, num_classes, threshold, n1);
            let before = detected(l2, num_classes, threshold, n - 1 - n1);
            let after = detected(l2, num_classes, threshold, n - n1);
            assert(first + detected(l2, num_classes, threshold, 0).map_values(shift) =~= first);
            assert(detected(l1 + l2, num_classes, threshold, n - 1) == first + before.map_values(
                shift,
            ));
            if detects(l2, num_classes, threshold, n - 1 - n1) {
                assert(after.map_values(shift) =~= before.map_values(shift).push(n - 1));
                assert((first + before.map_values(shift)).push(n - 1) =~= first
                    + after.map_values(shift));
            }
        }
    }
}

/// Law: queries do not influence each other.  The detections of two sets of queries put
/// together are those of the first followed by those of the second.
pub proof fn law_queries_are_independent<
    S: Fn(F32) -> F32,
    E: Fn(F32, F32, u32) -> (i32, i32),
>(
    score: S,
    edges: E,
    b1: Seq<F32>,
    l1: Seq<F32>,
    n1: int,
    d1: Seq<Detection>,
    b2: Seq<F32>,
    l2: Seq<F32>,
    n2: int,
    d2: Seq<Detection>,
    num_classes: int,
    orig_w: u32,
    orig_h: u32,
    threshold: F32,
)
    requires
        0 <= num_classes,
        0 <= n1,
        0 <= n2,
        b1.len() == n1 * 4,
        l1.len() == n1 * num_classes,
        b2.len() == n2 * 4,
        l2.len() == n2 * num_classes,
        detections_of(score, edges, b1, l1, n1, num_classes, orig_w, orig_h, threshold, d1),
        detections_of(score, edges, b2, l2, n2, num_classes, orig_w, orig_h, threshold, d2),
    ensures
        detections_of(
            score,
            edges,
            b1 + b2,
            l1 + l2,
            n1 + n2,
            num_classes,
            orig_w,
            orig_h,
            threshold,
            d1 + d2,
        ),
        scores_once(score) && edges_once(edges) ==> forall|dets: Seq<Detection>|
            #[trigger] detections_of(
                score,
                edges,
                b1 + b2,
                l1 + l2,
                n1 + n2,
                num_classes,
                orig_w,
                orig_h,
                threshold,
                dets,
            ) ==> dets == d1 + d2,
{
    let q1 = detected(l1, num_classes, threshold, n1);
    let q2 = detected(l2, num_classes, threshold, n2);
    let queries = detected(l1 + l2, num_classes, threshold, n1 + n2);
    let dets = d1 + d2;
    lemma_joined_queries(l1, l2, n1, n2, num_classes, threshold, n1 + n2);
    law_detected_exactly(l1, num_classes, threshold, n1);
    law_detected_exactly(l2, num_classes, threshold, n2);
    assert(queries =~= q1 + q2.map_values(|q: int| n1 + q)) by {
        if n2 == 0 {
            assert(q1 + q2.map_values(|q: int| n1 + q) =~= q1);
        }
    }
    assert forall|k: int| #![trigger dets[k]] 0 <= k < dets.len() implies detection_of(
        score,
        edges,
        b1 + b2,
        logit_row(l1 + l2, num_classes, queries[k]),
        queries[k],
        orig_w,
        orig_h,
        dets[k],
    ) by {
        let q = queries[k];
        if k < d1.len() {
            assert(q == q1[k] && dets[k] == d1[k]);
            lemma_joined_row(l1, l2, n1, n2, num_classes, q);
            assert((b1 + b2)[4 * q] == b1[4 * q]);
        } else {
            let r = q2[k - d1.len()];
            assert(q == n1 + r && dets[k] == d2[k - d1.len()]);
            lemma_joined_row(l1, l2, n1, n2, num_classes, q);
            assert((b1 + b2)[4 * q] == b2[4 * r]);
            assert((b1 + b2)[4 * q + 1] == b2[4 * r + 1]);
            assert((b1 + b2)[4 * q + 2] == b2[4 * r + 2]);
            assert((b1 + b2)[4 * q + 3] == b2[4 * r + 3]);
        }
    }
    if scores_once(score) && edges_once(edges) {
        let (boxes, logits, n) = (b1 + b2, l1 + l2, n1 + n2);
        assert forall|other: Seq<Detection>| #[trigger]
            detections_of(
                score,
                edges,
                boxes,
                logits,
                n,
                num_classes,
                orig_w,
                orig_h,
                threshold,
                other,
            ) implies other == dets by {
            law_outputs_determine_detections(
                score,
                edges,
                boxes,
                logits,
                n,
                num_classes,
                orig_w,
                orig_h,
                threshold,
                other,
                dets,
            );
        }
    }
}

/// Law: a score that never falls as the logit grows ranks no class of a row above
/// the best one, so it is enough to score the winner.
pub proof fn law_winner_has_the_greatest_score(row: Seq<F32>, score: spec_fn(F32) -> F32, j: int)
    requires
        row.len() <= usize::MAX,
        0 <= j < row.len(),
        !row[j].nan(),
        forall|a: F32, b: F32|
            !a.nan() && !b.nan() && a.key() <= b.key() ==> !(#[trigger] score(b)).less(
                #[trigger] score(a),
            ),
    ensures
        !score(best_of(row).logit).less(score(row[j])),
{
    law_best_is_first_greatest(row);
    assert(!best_of(row).logit.less(row[j]));
}

/// Law: with edges that stay on the sides of the image at hand, the box of a detection lies
/// inside the original image.
pub proof fn law_boxes_stay_in_the_image<
    S: Fn(F32) -> F32,
    E: Fn(F32, F32, u32) -> (i32, i32),
>(
    score: S,
    edges: E,
    boxes: Seq<F32>,
    logits: Seq<F32>,
    num_queries: int,
    num_classes: int,
    orig_w: u32,
    orig_h: u32,
    threshold: F32,
    dets: Seq<Detection>,
    k: int,
)
    requires
        edges_ok(edges),
        forall|center: F32, extent: F32, side: u32, out: (i32, i32)|
            (side == orig_w || side == orig_h) && call_ensures(edges, (center, extent, side), out)
                ==> out.0 <= side && out.1 <= side,
        detections_of(
            score,
            edges,
            boxes,
            logits,
            num_queries,
            num_classes,
            orig_w,
            orig_h,
            threshold,
            dets,
        ),
        0 <= k < dets.len(),
    ensures
        0 <= dets[k].x && 0 <= dets[k].width && dets[k].x + dets[k].width <= orig_w,
        0 <= dets[k].y && 0 <= dets[k].height && dets[k].y + dets[k].height <= orig_h,
{
}

} // verus!
