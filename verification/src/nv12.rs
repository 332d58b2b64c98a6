//! NV12 frames: a plane of luma bytes, then interleaved chroma pairs of which
//! each covers a block of two by two pixels.
//!
//! A frame can be converted in one piece or in independent chunks of row pairs,
//! one per worker.

use vstd::arithmetic::div_mod::{lemma_fundamental_div_mod, lemma_fundamental_div_mod_converse};
use vstd::prelude::*;

verus! {

/// The luma, U and V bytes of pixel (`x`, `y`) in a frame of `w` by `h` pixels.
pub open spec fn yuv_at(nv12: Seq<u8>, w: int, h: int, x: int, y: int) -> (u8, u8, u8) {
    let pair = w * h + (y / 2) * w + 2 * (x / 2);
    (nv12[y * w + x], nv12[pair], nv12[pair + 1])
}

/// `convert` accepts every triple of bytes.
pub open spec fn converts<T, F: Fn(u8, u8, u8) -> (T, T, T)>(convert: F) -> bool {
    forall|y: u8, u: u8, v: u8| call_requires(convert, (y, u, v))
}

/// The planes `r`, `g` and `b` hold the converted pixels of whole rows of the
/// frame, from row `first` on: element `p` is column `p % w` of row `first + p / w`.
pub open spec fn nv12_rows<T, F: Fn(u8, u8, u8) -> (T, T, T)>(
    convert: F,
    nv12: Seq<u8>,
    w: int,
    h: int,
    first: int,
    r: Seq<T>,
    g: Seq<T>,
    b: Seq<T>,
) -> bool {
    &&& g.len() == r.len()
    &&& b.len() == r.len()
    &&& forall|p: int|
        #![trigger r[p]]
        #![trigger g[p]]
        #![trigger b[p]]
        0 <= p < r.len() ==> call_ensures(
            convert,
            yuv_at(nv12, w, h, p % w, first + p / w),
            (r[p], g[p], b[p]),
        )
}

/// `nv12` is a frame of `w` by `h` pixels, both even and not zero.
pub open spec fn nv12_frame(nv12: Seq<u8>, w: int, h: int) -> bool {
    &&& w > 0 && w % 2 == 0
    &&& h > 0 && h % 2 == 0
    &&& 2 * nv12.len() == 3 * (w * h)
}

/// Column and row of an element of a plane.
proof fn lemma_cell(w: int, y: int, x: int)
    requires
        0 <= x < w,
    ensures
        (y * w + x) / w == y,
        (y * w + x) % w == x,
{
    lemma_fundamental_div_mod_converse(y * w + x, w, y, x);
}

/// Converts the two rows of pixels that share chroma row `pair`, into the two
/// rows of the planes that begin at element `base`.
fn convert_row_pair<T, F: Fn(u8, u8, u8) -> (T, T, T)>(
    nv12: &[u8],
    w: usize,
    h: usize,
    pair: usize,
    local: usize,
    base: usize,
    convert: &F,
    r: &mut [T],
    g: &mut [T],
    b: &mut [T],
)
    requires
        nv12_frame(nv12@, w as int, h as int),
        local <= pair,
        pair < h / 2,
        base == 2 * local * w,
        base + 2 * w <= old(r)@.len(),
        old(g)@.len() == old(r)@.len(),
        old(b)@.len() == old(r)@.len(),
        converts(*convert),
    ensures
        final(r)@.len() == old(r)@.len(),
        final(g)@.len() == old(r)@.len(),
        final(b)@.len() == old(r)@.len(),
        forall|p: int|
            #![trigger final(r)@[p]]
            #![trigger final(g)@[p]]
            #![trigger final(b)@[p]]
            0 <= p < old(r)@.len() && !(base <= p < base + 2 * w) ==> final(r)@[p] == old(r)@[p]
                && final(g)@[p] == old(g)@[p] && final(b)@[p] == old(b)@[p],
        forall|p: int|
            #![trigger final(r)@[p]]
            #![trigger final(g)@[p]]
            #![trigger final(b)@[p]]
            base <= p < base + 2 * w ==> call_ensures(
                *convert,
                yuv_at(nv12@, w as int, h as int, p % (w as int), 2 * (pair - local) + p / (w as int)),
                (final(r)@[p], final(g)@[p], final(b)@[p]),
            ),
{
    let ghost (wi, hi) = (w as int, h as int);
    proof {
        let hh = hi / 2;
        assert(wi * hi == 2 * (hh * wi)) by (nonlinear_arith)
            requires
                hi == 2 * hh,
        ;
        assert((pair + 1) * wi <= hh * wi) by (nonlinear_arith)
            requires
                pair + 1 <= hh,
                wi > 0,
        ;
        assert((pair + 1) * wi == pair * wi + wi) by (nonlinear_arith);
        assert((2 * pair) * wi == 2 * (pair * wi)) by (nonlinear_arith);
        assert((2 * pair + 1) * wi == 2 * (pair * wi) + wi) by (nonlinear_arith);
        assert(2 * local * wi == (2 * local) * wi);
        assert((2 * local + 1) * wi == (2 * local) * wi + wi) by (nonlinear_arith);
        assert(nv12.len() == nv12@.len());
    }
    let luma0: usize = 2 * (pair * w);
    let luma1: usize = luma0 + w;
    let chroma: usize = w * h + pair * w;
    let mut col: usize = 0;
    let ghost (r0, g0, b0) = (r@, g@, b@);
    while col < w
        invariant
            col <= w,
            col % 2 == 0,
            w % 2 == 0,
            wi == w,
            hi == h,
            luma0 == (2 * pair) * wi,
            luma1 == luma0 + w == (2 * pair + 1) * wi,
            chroma == wi * hi + pair * wi,
            luma1 + w <= wi * hi,
            chroma + w <= nv12.len(),
            base == (2 * local) * wi,
            base + wi == (2 * local + 1) * wi,
            local <= pair,
            base + 2 * w <= r.len(),
            r@.len() == r0.len(),
            g.len() == r.len(),
            b.len() == r.len(),
            g0.len() == r0.len(),
            b0.len() == r0.len(),
            converts(*convert),
            forall|p: int|
                #![trigger r@[p]]
                #![trigger g@[p]]
                #![trigger b@[p]]
                0 <= p < r0.len() && !(base <= p < base + 2 * w) ==> r@[p] == r0[p] && g@[p]
                    == g0[p] && b@[p] == b0[p],
            forall|p: int|
                #![trigger r@[p]]
                #![trigger g@[p]]
                #![trigger b@[p]]
                base <= p < base + col || base + w <= p < base + w + col ==> call_ensures(
                    *convert,
                    yuv_at(nv12@, wi, hi, p % wi, 2 * (pair - local) + p / wi),
                    (r@[p], g@[p], b@[p]),
                ),
        decreases w - col,
    {
        let u = nv12[chroma + col];
        let v = nv12[chroma + col + 1];
        proof {
            lemma_cell(wi, 2 * local, col as int);
            lemma_cell(wi, 2 * local, col + 1);
            lemma_cell(wi, 2 * local + 1, col as int);
            lemma_cell(wi, 2 * local + 1, col + 1);
        }
        let (r00, g00, b00) = convert(nv12[luma0 + col], u, v);
        let (r01, g01, b01) = convert(nv12[luma0 + col + 1], u, v);
        let (r10, g10, b10) = convert(nv12[luma1 + col], u, v);
        let (r11, g11, b11) = convert(nv12[luma1 + col + 1], u, v);
        r[base + col] = r00;
        r[base + col + 1] = r01;
        r[base + w + col] = r10;
        r[base + w + col + 1] = r11;
        g[base + col] = g00;
        g[base + col + 1] = g01;
        g[base + w + col] = g10;
        g[base + w + col + 1] = g11;
        b[base + col] = b00;
        b[base + col + 1] = b01;
        b[base + w + col] = b10;
        b[base + w + col + 1] = b11;
        col = col + 2;
    }
}

/// Row pairs that each of `n_threads` workers takes of a frame of height `h`, as
/// many as are needed for all of them to be taken; no workers count as one.
pub open spec fn row_pairs_per_chunk(h: int, n_threads: int) -> int {
    let n = if n_threads > 0 {
        n_threads
    } else {
        1
    };
    (h / 2 + n - 1) / n
}

/// The chunk of row pairs that each worker takes.
pub fn rows_per_chunk(h: usize, n_threads: usize) -> (res: usize)
    ensures
        res == row_pairs_per_chunk(h as int, n_threads as int),
{
    let n: usize = if n_threads > 0 {
        n_threads
    } else {
        1
    };
    let pairs: usize = h / 2;
    let (q, rem) = (pairs / n, pairs % n);
    proof {
        let (ni, pi, qi, ri) = (n as int, pairs as int, q as int, rem as int);
        lemma_fundamental_div_mod(pi, ni);
        if rem == 0 {
            lemma_fundamental_div_mod_converse(pi + ni - 1, ni, qi, ni - 1);
        } else {
            assert(ni * (qi + 1) == ni * qi + ni) by (nonlinear_arith);
            assert((qi + 1) * ni == ni * (qi + 1)) by (nonlinear_arith);
            lemma_fundamental_div_mod_converse(pi + ni - 1, ni, qi + 1, ri - 1);
            assert(ni >= 2);
            assert(qi < pi) by (nonlinear_arith)
                requires
                    pi == ni * qi + ri,
                    ni >= 2,
                    ri >= 1,
                    qi >= 0,
            ;
        }
        assert(qi * ni == ni * qi) by (nonlinear_arith);
    }
    if rem == 0 {
        q
    } else {
        q + 1
    }
}

/// Converts chunk `ci` of a frame into its part of the three planes, where a
/// chunk covers `rows_per_chunk` row pairs and the last one what is left.
pub fn convert_nv12_chunk<T, F: Fn(u8, u8, u8) -> (T, T, T)>(
    nv12: &[u8],
    w: usize,
    h: usize,
    rows_per_chunk: usize,
    ci: usize,
    convert: &F,
    r: &mut [T],
    g: &mut [T],
    b: &mut [T],
)
    requires
        nv12_frame(nv12@, w as int, h as int),
        old(r)@.len() % ((2 * w) as nat) == 0,
        ci * rows_per_chunk + old(r)@.len() as int / (2 * w) <= h / 2,
        old(g)@.len() == old(r)@.len(),
        old(b)@.len() == old(r)@.len(),
        converts(*convert),
    ensures
        final(r)@.len() == old(r)@.len(),
        nv12_rows(
            *convert,
            nv12@,
            w as int,
            h as int,
            2 * (ci * rows_per_chunk),
            final(r)@,
            final(g)@,
            final(b)@,
        ),
{
    proof {
        let hh = h as int / 2;
        assert(w * h == hh * (2 * w)) by (nonlinear_arith)
            requires
                h == 2 * hh,
        ;
        assert(hh * (2 * w) >= 2 * w) by (nonlinear_arith)
            requires
                hh >= 1,
        ;
        assert(nv12.len() == nv12@.len());
    }
    let pairs: usize = r.len() / (2 * w);
    let ghost len = r@.len() as int;
    proof {
        lemma_fundamental_div_mod(len, 2 * w);
        assert(len == (2 * w) * pairs);
        assert(0 <= ci * rows_per_chunk) by (nonlinear_arith);
    }
    let mut local: usize = 0;
    let mut base: usize = 0;
    let ghost start = ci * rows_per_chunk;
    while local < pairs
        invariant
            local <= pairs,
            base == 2 * local * w,
            r@.len() == len,
            g@.len() == len,
            b@.len() == len,
            len == (2 * w) * pairs,
            len <= usize::MAX,
            start == ci * rows_per_chunk,
            0 <= start,
            start + pairs <= h / 2,
            nv12_frame(nv12@, w as int, h as int),
            converts(*convert),
            forall|p: int|
                #![trigger r@[p]]
                #![trigger g@[p]]
                #![trigger b@[p]]
                0 <= p < base ==> call_ensures(
                    *convert,
                    yuv_at(nv12@, w as int, h as int, p % (w as int), 2 * start + p / (w as int)),
                    (r@[p], g@[p], b@[p]),
                ),
        decreases pairs - local,
    {
        proof {
            assert(base + 2 * w == 2 * (local + 1) * w) by (nonlinear_arith)
                requires
                    base == 2 * local * w,
            ;
            assert(2 * (local + 1) * w <= (2 * w) * pairs) by (nonlinear_arith)
                requires
                    local + 1 <= pairs,
                    w >= 0,
            ;
        }
        let ghost (r1, g1, b1) = (r@, g@, b@);
        convert_row_pair(nv12, w, h, ci * rows_per_chunk + local, local, base, convert, r, g, b);
        proof {
            assert forall|p: int|
                #![trigger r@[p]]
                #![trigger g@[p]]
                #![trigger b@[p]]
                0 <= p < base + 2 * w implies call_ensures(
                *convert,
                yuv_at(nv12@, w as int, h as int, p % (w as int), 2 * start + p / (w as int)),
                (r@[p], g@[p], b@[p]),
            ) by {
                if p < base {
                    assert(r@[p] == r1[p] && g@[p] == g1[p] && b@[p] == b1[p]);
                }
            }
        }
        local = local + 1;
        base = base + 2 * w;
    }
    proof {
        assert(base == len) by (nonlinear_arith)
            requires
                base == 2 * local * w,
                local == pairs,
                len == (2 * w) * pairs,
        ;
    }
}

/// The three planes of `out`, `area` elements each, hold the converted frame.
pub open spec fn nv12_planes<T, F: Fn(u8, u8, u8) -> (T, T, T)>(
    convert: F,
    nv12: Seq<u8>,
    w: int,
    h: int,
    out: Seq<T>,
) -> bool {
    let area = w * h;
    &&& out.len() == 3 * area
    &&& nv12_rows(
        convert,
        nv12,
        w,
        h,
        0,
        out.subrange(0, area),
        out.subrange(area, 2 * area),
        out.subrange(2 * area, 3 * area),
    )
}

/// Converts a whole NV12 frame, which has the model's dimensions, into the three
/// planes of `dst`.
pub fn preprocess_nv12_into_slice<T, F: Fn(u8, u8, u8) -> (T, T, T)>(
    nv12: &[u8],
    w: u32,
    h: u32,
    convert: &F,
    dst: &mut [T],
)
    requires
        nv12_frame(nv12@, w as int, h as int),
        w * h <= usize::MAX,
        old(dst)@.len() == 3 * (w * h),
        converts(*convert),
    ensures
        nv12_planes(*convert, nv12@, w as int, h as int, final(dst)@),
{
    let (w, h) = (w as usize, h as usize);
    let area: usize = w * h;
    let (r, rest) = dst.split_at_mut(area);
    let (g, b) = rest.split_at_mut(area);
    proof {
        let hh = h as int / 2;
        assert(w * h == hh * (2 * w) + 0) by (nonlinear_arith)
            requires
                h == 2 * hh,
        ;
        lemma_fundamental_div_mod_converse(w * h, 2 * w, hh, 0);
    }
    convert_nv12_chunk(nv12, w, h, h / 2, 0, convert, r, g, b);
    proof {
        let ghost_area = area as int;
        assert(dst@.subrange(0, ghost_area) =~= r@);
        assert(dst@.subrange(ghost_area, 2 * ghost_area) =~= g@);
        assert(dst@.subrange(2 * ghost_area, 3 * ghost_area) =~= b@);
    }
}

/// Piece `ci` of a plane that is cut into pieces of `n` elements; the last piece
/// takes what is left.
pub open spec fn piece<T>(plane: Seq<T>, ci: int, n: int) -> Seq<T> {
    plane.subrange(
        ci * n,
        if (ci + 1) * n <= plane.len() {
            (ci + 1) * n
        } else {
            plane.len() as int
        },
    )
}

/// Law: cutting the planes of a frame for any number of workers gives each of
/// them whole row pairs, none beyond the frame, and no more pieces than workers.
pub proof fn law_every_piece_is_a_chunk(w: int, h: int, n_threads: int, ci: int)
    requires
        w > 0,
        h > 0 && h % 2 == 0,
        n_threads > 0,
        0 <= ci,
        ci * (2 * w * row_pairs_per_chunk(h, n_threads)) < w * h,
    ensures
        ({
            let pairs = row_pairs_per_chunk(h, n_threads);
            let n = 2 * w * pairs;
            let end = if (ci + 1) * n <= w * h {
                (ci + 1) * n
            } else {
                w * h
            };
            let len = end - ci * n;
            &&& pairs > 0
            &&& len > 0
            &&& len % (2 * w) == 0
            &&& ci * pairs + len / (2 * w) <= h / 2
            &&& ci < n_threads
        }),
{
    let pairs = row_pairs_per_chunk(h, n_threads);
    let hh = h / 2;
    let n = 2 * w * pairs;
    lemma_fundamental_div_mod(hh + n_threads - 1, n_threads);
    let rem = (hh + n_threads - 1) % n_threads;
    assert(hh + n_threads - 1 == n_threads * pairs + rem);
    assert(n_threads * pairs >= hh);
    assert(pairs > 0) by (nonlinear_arith)
        requires
            n_threads * pairs >= hh,
            hh > 0,
            n_threads > 0,
    ;
    assert(w * h == (2 * w) * hh) by (nonlinear_arith)
        requires
            h == 2 * hh,
    ;
    assert(ci * n == (2 * w) * (ci * pairs)) by (nonlinear_arith)
        requires
            n == 2 * w * pairs,
    ;
    assert((ci + 1) * n == (2 * w) * (ci * pairs + pairs)) by (nonlinear_arith)
        requires
            n == 2 * w * pairs,
    ;
    assert(ci * pairs < hh) by (nonlinear_arith)
        requires
            (2 * w) * (ci * pairs) < (2 * w) * hh,
            w > 0,
    ;
    assert(ci < n_threads) by (nonlinear_arith)
        requires
            ci * pairs < hh,
            n_threads * pairs >= hh,
            pairs > 0,
    ;
    let end_pair = if ci * pairs + pairs <= hh {
        ci * pairs + pairs
    } else {
        hh
    };
    let end = if (ci + 1) * n <= w * h {
        (ci + 1) * n
    } else {
        w * h
    };
    assert(end == (2 * w) * end_pair) by {
        if ci * pairs + pairs <= hh {
            assert((2 * w) * (ci * pairs + pairs) <= (2 * w) * hh) by (nonlinear_arith)
                requires
                    ci * pairs + pairs <= hh,
                    w > 0,
            ;
        } else {
            assert((2 * w) * (ci * pairs + pairs) > (2 * w) * hh) by (nonlinear_arith)
                requires
                    ci * pairs + pairs > hh,
                    w > 0,
            ;
        }
    }
    let k = end_pair - ci * pairs;
    assert(end - ci * n == k * (2 * w) + 0) by (nonlinear_arith)
        requires
            end == (2 * w) * end_pair,
            ci * n == (2 * w) * (ci * pairs),
            k == end_pair - ci * pairs,
    ;
    assert(k * (2 * w) > 0) by (nonlinear_arith)
        requires
            k > 0,
            w > 0,
    ;
    lemma_fundamental_div_mod_converse(end - ci * n, 2 * w, k, 0);
}

/// Law: the planes whose pieces were each converted as a chunk hold the frame,
/// the same as if it had been converted in one piece, however many workers there
/// were.
pub proof fn law_chunks_make_the_frame<T, F: Fn(u8, u8, u8) -> (T, T, T)>(
    convert: F,
    nv12: Seq<u8>,
    w: int,
    h: int,
    n_threads: int,
    r: Seq<T>,
    g: Seq<T>,
    b: Seq<T>,
)
    requires
        nv12_frame(nv12, w, h),
        n_threads > 0,
        r.len() == w * h,
        g.len() == w * h,
        b.len() == w * h,
        ({
            let pairs = row_pairs_per_chunk(h, n_threads);
            let n = 2 * w * pairs;
            forall|ci: int|
                #![trigger piece(r, ci, n)]
                0 <= ci && ci * n < w * h ==> nv12_rows(
                    convert,
                    nv12,
                    w,
                    h,
                    2 * (ci * pairs),
                    piece(r, ci, n),
                    piece(g, ci, n),
                    piece(b, ci, n),
                )
        }),
    ensures
        nv12_rows(convert, nv12, w, h, 0, r, g, b),
{
    let pairs = row_pairs_per_chunk(h, n_threads);
    let n = 2 * w * pairs;
    assert(0 * n < w * h) by (nonlinear_arith)
        requires
            w > 0,
            h > 0,
    ;
    law_every_piece_is_a_chunk(w, h, n_threads, 0);
    assert(n > 0) by (nonlinear_arith)
        requires
            n == 2 * w * pairs,
            w > 0,
            pairs > 0,
    ;
    assert forall|p: int|
        #![trigger r[p]]
        #![trigger g[p]]
        #![trigger b[p]]
        0 <= p < r.len() implies call_ensures(
        convert,
        yuv_at(nv12, w, h, p % w, 0 + p / w),
        (r[p], g[p], b[p]),
    ) by {
        let ci = p / n;
        let off = p % n;
        lemma_fundamental_div_mod(p, n);
        assert(ci * n == n * ci) by (nonlinear_arith);
        assert(ci >= 0) by (nonlinear_arith)
            requires
                p == n * ci + off,
                0 <= p,
                off < n,
                n > 0,
        ;
        assert((ci + 1) * n == ci * n + n) by (nonlinear_arith);
        let (pr, pg, pb) = (piece(r, ci, n), piece(g, ci, n), piece(b, ci, n));
        assert(pr[off] == r[p] && pg[off] == g[p] && pb[off] == b[p]);
        let (y, x) = (off / w, off % w);
        lemma_fundamental_div_mod(off, w);
        assert(p == (2 * (ci * pairs) + y) * w + x) by (nonlinear_arith)
            requires
                p == n * ci + off,
                n == 2 * w * pairs,
                off == w * y + x,
        ;
        lemma_cell(w, 2 * (ci * pairs) + y, x);
    }
}

} // verus!
