//! Sorted samples and their percentiles.

use crate::float_bits::F64;
use crate::laws::numbers::{law_f64_order, no_number64, number64};
use crate::stats::{
    law_sorting_keeps_the_samples, order_stats, percentile_index, rank, sort_samples, with_key,
    OrderStats,
};
use vstd::prelude::*;

verus! {

/// Law: a percentile stands nearest to its share of the way from the first sample to the
/// last, and at the later of two that are equally near.
pub proof fn law_percentile_index(pct: u8, n: usize, res: usize)
    requires
        0 < n,
        pct <= 100,
        call_ensures(percentile_index, (pct, n), res),
    ensures
        res < n,
        -50 < 100 * res - pct * (n - 1) <= 50,
{
    let d = 2 * (pct * (n - 1)) + 100;
    assert(2 * pct * (n - 1) + 100 == d) by (nonlinear_arith)
        requires
            d == 2 * (pct * (n - 1)) + 100,
    ;
    assert(res == d / 200);
}

/// Law: the statistics of sorted samples are samples: the first and the last, the one
/// half of the way between them, the one nine tenths and the one ninety-nine
/// hundredths, each rounded to the nearest place and upward from the middle of two.
pub proof fn law_order_stats(sorted: &Vec<F64>, res: OrderStats)
    requires
        sorted@.len() > 0,
        call_ensures(order_stats, (sorted,), res),
    ensures
        res.min == sorted@.first(),
        res.max == sorted@.last(),
        exists|i: int|
            0 <= i < sorted@.len() && res.p50 == #[trigger] sorted@[i] && -1 < 2 * i - (
            sorted@.len() - 1) <= 1,
        exists|i: int|
            0 <= i < sorted@.len() && res.p90 == #[trigger] sorted@[i] && -5 < 10 * i - 9 * (
            sorted@.len() - 1) <= 5,
        exists|i: int|
            0 <= i < sorted@.len() && res.p99 == #[trigger] sorted@[i] && -50 < 100 * i - 99 * (
            sorted@.len() - 1) <= 50,
{
    let n = sorted@.len() as int;
    assert(rank(50, n) == (100 * (n - 1) + 100) / 200) by (nonlinear_arith);
    assert(rank(90, n) == (180 * (n - 1) + 100) / 200) by (nonlinear_arith);
    assert(rank(99, n) == (198 * (n - 1) + 100) / 200) by (nonlinear_arith);
    assert(res.p50 == sorted@[rank(50, n)]);
    assert(res.p90 == sorted@[rank(90, n)]);
    assert(res.p99 == sorted@[rank(99, n)]);
}

/// What ranks at `key` is what a filter leaves.
proof fn lemma_with_key_is_filter(s: Seq<F64>, key: int)
    ensures
        with_key(s, key) == s.filter(|v: F64| v.key() == key),
    decreases s.len(),
{
    reveal(Seq::filter);
    if s.len() > 0 {
        lemma_with_key_is_filter(s.drop_last(), key);
    }
}

/// The samples of `s` that encode the same number as `v`, in their order.
pub open spec fn equals_of(s: Seq<F64>, v: F64) -> Seq<F64> {
    s.filter(|w: F64| number64(w.bits) == number64(v.bits))
}

/// Law: sorting puts the samples in the order of the numbers that they encode, loses
/// and makes up none, and keeps those that encode the same number in their order.
pub proof fn law_sort_samples(values: &mut Vec<F64>)
    requires
        call_ensures(sort_samples, (values,), ()),
    ensures
        forall|i: int, j: int|
            0 <= i <= j < final(values)@.len() ==> number64(#[trigger] final(values)@[i].bits)
                <= number64(#[trigger] final(values)@[j].bits),
        final(values)@.to_multiset() == old(values)@.to_multiset(),
        forall|v: F64| #[trigger] equals_of(final(values)@, v) == equals_of(old(values)@, v),
{
    let (before, after) = (old(values)@, final(values)@);
    law_sorting_keeps_the_samples(before, after);
    assert forall|i: int, j: int| 0 <= i <= j < after.len() implies number64(
        #[trigger] after[i].bits,
    ) <= number64(#[trigger] after[j].bits) by {
        law_f64_order(after[j], after[i]);
    }
    assert forall|v: F64| #[trigger] equals_of(after, v) == equals_of(before, v) by {
        let by_number = |w: F64| number64(w.bits) == number64(v.bits);
        let by_key = |w: F64| w.key() == v.key();
        assert forall|w: F64| #[trigger] by_number(w) == by_key(w) by {
            law_f64_order(v, w);
            law_f64_order(w, v);
        }
        assert(by_number =~= by_key);
        lemma_with_key_is_filter(before, v.key());
        lemma_with_key_is_filter(after, v.key());
        assert(with_key(after, v.key()) == with_key(before, v.key()));
    }
}

/// Law: any samples that are numbers can be sorted, and the statistics of any sorted
/// samples can be taken, of which there is at least one.
pub proof fn law_samples_are_taken(values: &mut Vec<F64>, sorted: &Vec<F64>)
    requires
        forall|i: int| 0 <= i < old(values)@.len() ==> !no_number64((#[trigger] old(values)@[i]).bits),
        sorted@.len() > 0,
    ensures
        call_requires(sort_samples, (values,)),
        call_requires(order_stats, (sorted,)),
{
    assert forall|i: int| 0 <= i < old(values)@.len() implies !(#[trigger] old(values)@[i]).nan() by {
        law_f64_order(old(values)@[i], old(values)@[i]);
    }
}

} // verus!
