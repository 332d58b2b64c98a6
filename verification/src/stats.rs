//! Order statistics of measured times.

use crate::float_bits::F64;
use vstd::prelude::*;

verus! {

/// The samples of `s` that rank at `key`, in their order.
pub open spec fn with_key(s: Seq<F64>, key: int) -> Seq<F64>
    decreases s.len(),
{
    if s.len() == 0 {
        Seq::empty()
    } else if s.last().key() == key {
        with_key(s.drop_last(), key).push(s.last())
    } else {
        with_key(s.drop_last(), key)
    }
}

/// `s` does not descend.
pub open spec fn ascending(s: Seq<F64>) -> bool {
    forall|i: int, j: int| 0 <= i <= j < s.len() ==> s[i].key() <= s[j].key()
}

/// `sorted` is `s` in ascending order, with equal samples in the order they had.
pub open spec fn stably_sorted(s: Seq<F64>, sorted: Seq<F64>) -> bool {
    &&& ascending(sorted)
    &&& sorted.len() == s.len()
    &&& forall|key: int| #[trigger] with_key(sorted, key) == with_key(s, key)
}

proof fn lemma_with_key_push(s: Seq<F64>, v: F64, key: int)
    ensures
        with_key(s.push(v), key) == if v.key() == key {
            with_key(s, key).push(v)
        } else {
            with_key(s, key)
        },
{
    assert(s.push(v).drop_last() =~= s);
}

proof fn lemma_with_key_add(a: Seq<F64>, b: Seq<F64>, key: int)
    ensures
        with_key(a + b, key) == with_key(a, key) + with_key(b, key),
    decreases b.len(),
{
    if b.len() == 0 {
        assert(a + b =~= a);
        assert(with_key(a, key) + with_key(b, key) =~= with_key(a, key));
    } else {
        lemma_with_key_add(a, b.drop_last(), key);
        assert((a + b).drop_last() =~= a + b.drop_last());
        assert((a + b).last() == b.last());
        assert(with_key(a + b, key) =~= with_key(a, key) + with_key(b, key));
    }
}

proof fn lemma_with_key_none(s: Seq<F64>, key: int)
    requires
        forall|i: int| 0 <= i < s.len() ==> (#[trigger] s[i]).key() != key,
    ensures
        with_key(s, key) == Seq::<F64>::empty(),
    decreases s.len(),
{
    if s.len() > 0 {
        assert forall|i: int| 0 <= i < s.drop_last().len() implies (#[trigger] s.drop_last()[i]).key()
            != key by {
            assert(s.drop_last()[i] == s[i]);
        }
        lemma_with_key_none(s.drop_last(), key);
        assert(s.last() == s[s.len() - 1]);
    }
}

/// Merges two ascending runs; of equal samples those of `a` come first.
fn merge(a: &Vec<F64>, b: &Vec<F64>) -> (res: Vec<F64>)
    requires
        ascending(a@),
        ascending(b@),
        a@.len() + b@.len() <= usize::MAX,
    ensures
        stably_sorted(a@ + b@, res@),
{
    let mut out: Vec<F64> = Vec::new();
    let mut i: usize = 0;
    let mut j: usize = 0;
    while i < a.len() || j < b.len()
        invariant
            i <= a@.len(),
            j <= b@.len(),
            ascending(a@),
            ascending(b@),
            ascending(out@),
            out@.len() == i + j,
            a@.len() + b@.len() <= usize::MAX,
            forall|k: int, m: int|
                0 <= k < out@.len() && i <= m < a@.len() ==> (#[trigger] out@[k]).key() <= (
                #[trigger] a@[m]).key(),
            forall|k: int, m: int|
                0 <= k < out@.len() && j <= m < b@.len() ==> (#[trigger] out@[k]).key() <= (
                #[trigger] b@[m]).key(),
            forall|k: int, m: int|
                0 <= k < j && i <= m < a@.len() ==> (#[trigger] b@[k]).key() < (
                #[trigger] a@[m]).key(),
            forall|key: int| #[trigger]
                with_key(out@, key) == with_key(a@.take(i as int), key) + with_key(
                    b@.take(j as int),
                    key,
                ),
        decreases (a@.len() - i) + (b@.len() - j),
    {
        let ghost before = out@;
        if i < a.len() && (j >= b.len() || !a[i].gt(&b[j])) {
            let ghost v = a@[i as int];
            out.push(a[i]);
            proof {
                assert(a@.take(i + 1) =~= a@.take(i as int).push(v));
                assert forall|key: int| #[trigger]
                    with_key(out@, key) == with_key(a@.take(i + 1), key) + with_key(
                        b@.take(j as int),
                        key,
                    ) by {
                    lemma_with_key_push(before, v, key);
                    lemma_with_key_push(a@.take(i as int), v, key);
                    if v.key() == key {
                        lemma_with_key_none(b@.take(j as int), key);
                        assert(with_key(out@, key) =~= with_key(a@.take(i + 1), key) + with_key(
                            b@.take(j as int),
                            key,
                        ));
                    }
                }
            }
            i = i + 1;
        } else {
            let ghost v = b@[j as int];
            out.push(b[j]);
            proof {
                assert(b@.take(j + 1) =~= b@.take(j as int).push(v));
                assert forall|key: int| #[trigger]
                    with_key(out@, key) == with_key(a@.take(i as int), key) + with_key(
                        b@.take(j + 1),
                        key,
                    ) by {
                    lemma_with_key_push(before, v, key);
                    lemma_with_key_push(b@.take(j as int), v, key);
                    assert(with_key(out@, key) =~= with_key(a@.take(i as int), key) + with_key(
                        b@.take(j + 1),
                        key,
                    ));
                }
            }
            j = j + 1;
        }
    }
    proof {
        assert(a@.take(a@.len() as int) =~= a@);
        assert(b@.take(b@.len() as int) =~= b@);
        assert forall|key: int| #[trigger] with_key(out@, key) == with_key(a@ + b@, key) by {
            lemma_with_key_add(a@, b@, key);
        }
    }
    out
}

fn sort_range(values: &Vec<F64>, from: usize, to: usize) -> (res: Vec<F64>)
    requires
        from <= to <= values@.len(),
    ensures
        stably_sorted(values@.subrange(from as int, to as int), res@),
    decreases to - from,
{
    let ghost part = values@.subrange(from as int, to as int);
    let n: usize = to - from;
    if n < 2 {
        let mut out: Vec<F64> = Vec::new();
        if n == 1 {
            out.push(values[from]);
        }
        assert(out@ =~= part);
        return out;
    }
    let mid: usize = from + n / 2;
    let left = sort_range(values, from, mid);
    let right = sort_range(values, mid, to);
    proof {
        assert(values.len() == values@.len());
    }
    let out = merge(&left, &right);
    proof {
        let (l, r) = (
            values@.subrange(from as int, mid as int),
            values@.subrange(mid as int, to as int),
        );
        assert(part =~= l + r);
        assert forall|key: int| #[trigger] with_key(out@, key) == with_key(part, key) by {
            lemma_with_key_add(l, r, key);
            lemma_with_key_add(left@, right@, key);
            assert(with_key(left@, key) == with_key(l, key));
            assert(with_key(right@, key) == with_key(r, key));
            assert(with_key(out@, key) == with_key(left@ + right@, key));
        }
    }
    out
}

/// Sorts samples in ascending order; equal samples keep their order.  Samples that
/// are compared at all must be numbers.
pub fn sort_samples(values: &mut Vec<F64>)
    requires
        old(values)@.len() >= 2 ==> forall|i: int|
            0 <= i < old(values)@.len() ==> !(#[trigger] old(values)@[i]).nan(),
    ensures
        stably_sorted(old(values)@, final(values)@),
{
    let ghost before = values@;
    let sorted = sort_range(values, 0, values.len());
    assert(before.subrange(0, before.len() as int) =~= before);
    *values = sorted;
}

/// The index of a percentile among `n` sorted samples: `pct` hundredths of the way
/// from the first to the last, rounded to the nearest, halves upward.
pub open spec fn rank(pct: int, n: int) -> int {
    (2 * pct * (n - 1) + 100) / 200
}

/// The index of a percentile among `n` sorted samples.
pub fn percentile_index(pct: u8, n: usize) -> (res: usize)
    requires
        0 < n,
        pct <= 100,
    ensures
        res == rank(pct as int, n as int),
        res < n,
{
    proof {
        assert(2 * pct * (n - 1) <= 200 * (n - 1)) by (nonlinear_arith)
            requires
                pct <= 100,
                n >= 1,
        ;
        assert(0 <= 2 * pct * (n - 1)) by (nonlinear_arith)
            requires
                n >= 1,
        ;
    }
    let m: u128 = (n - 1) as u128;
    ((2 * pct as u128 * m + 100) / 200) as usize
}

/// The order statistics of a set of samples.
#[derive(Clone, Copy, Debug, PartialEq, Eq, Structural)]
pub struct OrderStats {
    pub p50: F64,
    pub p90: F64,
    pub p99: F64,
    pub min: F64,
    pub max: F64,
}

/// The order statistics of sorted samples.
pub open spec fn order_stats_of(sorted: Seq<F64>) -> OrderStats {
    let n = sorted.len() as int;
    OrderStats {
        p50: sorted[rank(50, n)],
        p90: sorted[rank(90, n)],
        p99: sorted[rank(99, n)],
        min: sorted[0],
        max: sorted[n - 1],
    }
}

/// The order statistics of sorted samples, of which there is at least one.
pub fn order_stats(sorted: &Vec<F64>) -> (res: OrderStats)
    requires
        sorted@.len() > 0,
    ensures
        res == order_stats_of(sorted@),
{
    let n = sorted.len();
    OrderStats {
        p50: sorted[percentile_index(50, n)],
        p90: sorted[percentile_index(90, n)],
        p99: sorted[percentile_index(99, n)],
        min: sorted[0],
        max: sorted[n - 1],
    }
}

/// Law: the order statistics of sorted samples ascend from the minimum over the
/// percentiles to the maximum.
pub proof fn law_order_stats_ascend(sorted: Seq<F64>)
    requires
        sorted.len() > 0,
        ascending(sorted),
    ensures
        ({
            let s = order_stats_of(sorted);
            &&& s.min.key() <= s.p50.key() <= s.p90.key() <= s.p99.key() <= s.max.key()
        }),
{
    let n = sorted.len() as int;
    assert(rank(50, n) == (100 * (n - 1) + 100) / 200) by (nonlinear_arith);
    assert(rank(90, n) == (180 * (n - 1) + 100) / 200) by (nonlinear_arith);
    assert(rank(99, n) == (198 * (n - 1) + 100) / 200) by (nonlinear_arith);
    assert(0 <= rank(50, n) <= rank(90, n) <= rank(99, n) <= n - 1);
}

/// Law: sorting loses no sample and makes up none.
pub proof fn law_sorting_keeps_the_samples(s: Seq<F64>, sorted: Seq<F64>)
    requires
        stably_sorted(s, sorted),
    ensures
        s.to_multiset() == sorted.to_multiset(),
{
    assert forall|v: F64| s.to_multiset().count(v) == sorted.to_multiset().count(v) by {
        lemma_count_with_key(s, v);
        lemma_count_with_key(sorted, v);
        assert(with_key(sorted, v.key()) == with_key(s, v.key()));
    }
    assert(s.to_multiset() =~= sorted.to_multiset());
}

proof fn lemma_count_with_key(s: Seq<F64>, v: F64)
    ensures
        s.to_multiset().count(v) == with_key(s, v.key()).to_multiset().count(v),
    decreases s.len(),
{
    broadcast use vstd::seq_lib::group_to_multiset_ensures;

    if s.len() > 0 {
        let rest = s.drop_last();
        lemma_count_with_key(rest, v);
        assert(s =~= rest.push(s.last()));
    }
}

} // verus!
