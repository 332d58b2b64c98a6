//! What NV12 frames become.

use crate::nv12::{
    convert_nv12_chunk, nv12_rows, preprocess_nv12_into_slice, rows_per_chunk, yuv_at,
};
use vstd::arithmetic::div_mod::{lemma_fundamental_div_mod, lemma_fundamental_div_mod_converse};
use vstd::prelude::*;

verus! {

/// Element (`row`, `x`) of rows that a contract states, where row `first + row` lies in
/// block row `by` and column `x` in block column `bx`.
proof fn lemma_element<T, F: Fn(u8, u8, u8) -> (T, T, T)>(
    convert: F,
    nv12: Seq<u8>,
    w: int,
    h: int,
    first: int,
    r: Seq<T>,
    g: Seq<T>,
    b: Seq<T>,
    row: int,
    x: int,
    by: int,
    bx: int,
)
    requires
        nv12_rows(convert, nv12, w, h, first, r, g, b),
        0 <= row,
        0 <= x < w,
        row * w + x < r.len(),
        0 <= by,
        2 * by <= first + row <= 2 * by + 1,
        2 * bx <= x <= 2 * bx + 1,
    ensures
        call_ensures(
            convert,
            (
                nv12[(first + row) * w + x],
                nv12[w * h + by * w + 2 * bx],
                nv12[w * h + by * w + 2 * bx + 1],
            ),
            (r[row * w + x], g[row * w + x], b[row * w + x]),
        ),
{
    let p = row * w + x;
    lemma_fundamental_div_mod_converse(p, w, row, x);
    assert(0 <= p) by (nonlinear_arith)
        requires
            p == row * w + x,
            0 <= row,
            0 <= x < w,
    ;
    assert(yuv_at(nv12, w, h, p % w, first + p / w) == (
        nv12[(first + row) * w + x],
        nv12[w * h + by * w + 2 * bx],
        nv12[w * h + by * w + 2 * bx + 1],
    ));
    assert(call_ensures(convert, yuv_at(nv12, w, h, p % w, first + p / w), (r[p], g[p], b[p])));
}

/// Law: each pixel of an NV12 frame is converted from its own luma byte and the chroma
/// pair of its block of two by two pixels, which stand behind the luma plane, and goes to
/// its own place in each of the three planes.
pub proof fn law_preprocess_nv12_into_slice<T, F: Fn(u8, u8, u8) -> (T, T, T)>(
    nv12: &[u8],
    w: u32,
    h: u32,
    convert: &F,
    dst: &mut [T],
    bx: int,
    by: int,
    dx: int,
    dy: int,
)
    requires
        call_ensures(preprocess_nv12_into_slice::<T, F>, (nv12, w, h, convert, dst), ()),
        0 <= bx && 2 * bx + 2 <= w,
        0 <= by && 2 * by + 2 <= h,
        0 <= dx <= 1,
        0 <= dy <= 1,
    ensures
        final(dst)@.len() == 3 * (w * h),
        ({
            let (area, p) = (w * h, (2 * by + dy) * w + (2 * bx + dx));
            let pair = area + by * w + 2 * bx;
            call_ensures(
                *convert,
                (nv12@[p], nv12@[pair], nv12@[pair + 1]),
                (final(dst)@[p], final(dst)@[area + p], final(dst)@[2 * area + p]),
            )
        }),
{
    let (wi, hi, area) = (w as int, h as int, w * h);
    let out = final(dst)@;
    let (row, x) = (2 * by + dy, 2 * bx + dx);
    let p = row * wi + x;
    assert(0 <= p < area) by (nonlinear_arith)
        requires
            p == row * wi + x,
            0 <= row <= hi - 1,
            0 <= x <= wi - 1,
            area == wi * hi,
    ;
    let (r, g, b) = (
        out.subrange(0, area),
        out.subrange(area, 2 * area),
        out.subrange(2 * area, 3 * area),
    );
    lemma_element(*convert, nv12@, wi, hi, 0, r, g, b, row, x, by, bx);
    assert(r[p] == out[p] && g[p] == out[area + p] && b[p] == out[2 * area + p]);
}

/// Law: a chunk holds the rows of its own row pairs: chunk `ci` begins at row pair
/// `ci * rows_per_chunk` of the frame.
pub proof fn law_convert_nv12_chunk<T, F: Fn(u8, u8, u8) -> (T, T, T)>(
    nv12: &[u8],
    w: usize,
    h: usize,
    rows_per_chunk: usize,
    ci: usize,
    convert: &F,
    r: &mut [T],
    g: &mut [T],
    b: &mut [T],
    pair: int,
    bx: int,
    dx: int,
    dy: int,
)
    requires
        call_ensures(
            convert_nv12_chunk::<T, F>,
            (nv12, w, h, rows_per_chunk, ci, convert, r, g, b),
            (),
        ),
        0 <= pair && (2 * pair + 2) * w <= old(r)@.len(),
        0 <= bx && 2 * bx + 2 <= w,
        0 <= dx <= 1,
        0 <= dy <= 1,
    ensures
        final(r)@.len() == old(r)@.len(),
        ({
            let by = ci * rows_per_chunk + pair;
            let p = (2 * pair + dy) * w + (2 * bx + dx);
            let chroma = w * h + by * w + 2 * bx;
            call_ensures(
                *convert,
                (
                    nv12@[(2 * by + dy) * w + (2 * bx + dx)],
                    nv12@[chroma],
                    nv12@[chroma + 1],
                ),
                (final(r)@[p], final(g)@[p], final(b)@[p]),
            )
        }),
{
    let (wi, hi) = (w as int, h as int);
    let start = ci * rows_per_chunk;
    assert(0 <= start) by (nonlinear_arith)
        requires
            start == ci * rows_per_chunk,
    ;
    let (row, x) = (2 * pair + dy, 2 * bx + dx);
    assert(row * wi + x < (2 * pair + 2) * wi) by (nonlinear_arith)
        requires
            row + 1 <= 2 * pair + 2,
            x < wi,
            wi > 0,
    ;
    lemma_element(
        *convert,
        nv12@,
        wi,
        hi,
        2 * start,
        final(r)@,
        final(g)@,
        final(b)@,
        row,
        x,
        start + pair,
        bx,
    );
    assert(2 * start + row == 2 * (start + pair) + dy);
}

/// Law: the row pairs of a frame fit the workers, and no smaller share would do.
pub proof fn law_rows_per_chunk(h: usize, n_threads: usize, res: usize)
    requires
        call_ensures(rows_per_chunk, (h, n_threads), res),
    ensures
        ({
            let n = if n_threads == 0 {
                1
            } else {
                n_threads as int
            };
            &&& n * res >= h / 2
            &&& res > 0 ==> n * (res - 1) < h / 2
        }),
{
    let n: int = if n_threads == 0 {
        1
    } else {
        n_threads as int
    };
    let hh = h as int / 2;
    lemma_fundamental_div_mod(hh + n - 1, n);
    assert(res == (hh + n - 1) / n);
    assert(n * (res - 1) == n * res - n) by (nonlinear_arith);
}

/// Law: a frame of even dimensions with all its bytes can be converted.
pub proof fn law_every_nv12_frame_is_converted<T, F: Fn(u8, u8, u8) -> (T, T, T)>(
    nv12: &[u8],
    w: u32,
    h: u32,
    convert: &F,
    dst: &mut [T],
)
    requires
        w > 0 && w % 2 == 0 && h > 0 && h % 2 == 0,
        w <= 16384 && h <= 16384,
        2 * nv12@.len() == 3 * (w * h),
        old(dst)@.len() == 3 * (w * h),
        forall|y: u8, u: u8, v: u8| call_requires(*convert, (y, u, v)),
    ensures
        call_requires(preprocess_nv12_into_slice::<T, F>, (nv12, w, h, convert, dst)),
{
    assert(w * h <= 16384 * 16384) by (nonlinear_arith)
        requires
            w <= 16384,
            h <= 16384,
    ;
}

} // verus!
