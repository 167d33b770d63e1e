//! Percentiles of fee samples, and the fold of per-bucket percentiles into one
//! estimate per priority level.
//!
//! Percentiles are exact: a sample of whole micro-lamports interpolated
//! between closest ranks always lands on a multiple of a hundredth, so every
//! level is given in hundredths of a micro-lamport. An empty sample has no
//! percentile (`None`).
use vstd::prelude::*;
use vstd::relations::{sorted_by, total_ordering};
use vstd::seq_lib::lemma_sorted_unique;

verus! {

/// The order fee samples are sorted by.
pub open spec fn fee_le() -> spec_fn(u64, u64) -> bool {
    |a: u64, b: u64| a <= b
}

/// `samples` in ascending order.
pub open spec fn sorted_fees(samples: Seq<u64>) -> Seq<u64> {
    samples.sort_by(fee_le())
}

/// The `p`-th percentile of an ascending non-empty sample, in hundredths,
/// by linear interpolation between closest ranks: with `h = (n - 1) * p / 100`,
/// `s[floor h] + (h - floor h) * (s[ceil h] - s[floor h])`.
pub open spec fn percentile_of_sorted(s: Seq<u64>, p: nat) -> int {
    let t = (s.len() - 1) * p;
    let lo = t / 100;
    let r = t % 100;
    if r == 0 {
        100 * s[lo]
    } else {
        100 * s[lo] + r * (s[lo + 1] - s[lo])
    }
}

/// The `p`-th percentile of a sample in hundredths; `None` for an empty one.
pub open spec fn level_of(samples: Seq<u64>, p: nat) -> Option<u128> {
    if samples.len() == 0 {
        None
    } else {
        Some(percentile_of_sorted(sorted_fees(samples), p) as u128)
    }
}

/// The larger of two levels, where a missing level never wins over a present one.
pub open spec fn max_level(acc: Option<u128>, v: Option<u128>) -> Option<u128> {
    match v {
        None => acc,
        Some(x) => match acc {
            None => Some(x),
            Some(y) => if x > y {
                Some(x)
            } else {
                Some(y)
            },
        },
    }
}

/// `a` is at least `b`: `b` is missing, or both are present and `a >= b`.
pub open spec fn level_ge(a: Option<u128>, b: Option<u128>) -> bool {
    match b {
        None => true,
        Some(y) => match a {
            None => false,
            Some(x) => x >= y,
        },
    }
}

/// Priority fee estimates for the six priority levels, in hundredths of a
/// micro-lamport; a level is `None` when no sample contributed to it.
#[derive(Debug, Clone, Copy, PartialEq, Eq)]
pub struct MicroLamportPriorityFeeEstimates {
    /// 0th percentile.
    pub min: Option<u128>,
    /// 25th percentile.
    pub low: Option<u128>,
    /// 50th percentile.
    pub medium: Option<u128>,
    /// 75th percentile.
    pub high: Option<u128>,
    /// 95th percentile.
    pub very_high: Option<u128>,
    /// 100th percentile.
    pub unsafe_max: Option<u128>,
}

/// No level known yet.
pub open spec fn no_estimates() -> MicroLamportPriorityFeeEstimates {
    MicroLamportPriorityFeeEstimates {
        min: None,
        low: None,
        medium: None,
        high: None,
        very_high: None,
        unsafe_max: None,
    }
}

/// The six levels of one sample.
pub open spec fn estimates_of(samples: Seq<u64>) -> MicroLamportPriorityFeeEstimates {
    MicroLamportPriorityFeeEstimates {
        min: level_of(samples, 0),
        low: level_of(samples, 25),
        medium: level_of(samples, 50),
        high: level_of(samples, 75),
        very_high: level_of(samples, 95),
        unsafe_max: level_of(samples, 100),
    }
}

/// The level-by-level maximum of two estimates.
pub open spec fn max_estimates(
    a: MicroLamportPriorityFeeEstimates,
    b: MicroLamportPriorityFeeEstimates,
) -> MicroLamportPriorityFeeEstimates {
    MicroLamportPriorityFeeEstimates {
        min: max_level(a.min, b.min),
        low: max_level(a.low, b.low),
        medium: max_level(a.medium, b.medium),
        high: max_level(a.high, b.high),
        very_high: max_level(a.very_high, b.very_high),
        unsafe_max: max_level(a.unsafe_max, b.unsafe_max),
    }
}

/// Every level of `a` is at least the same level of `b`.
pub open spec fn estimates_ge(
    a: MicroLamportPriorityFeeEstimates,
    b: MicroLamportPriorityFeeEstimates,
) -> bool {
    &&& level_ge(a.min, b.min)
    &&& level_ge(a.low, b.low)
    &&& level_ge(a.medium, b.medium)
    &&& level_ge(a.high, b.high)
    &&& level_ge(a.very_high, b.very_high)
    &&& level_ge(a.unsafe_max, b.unsafe_max)
}

/// `acc` folded with the estimates of each sample of `buckets` in turn.
pub open spec fn fold_estimates(
    acc: MicroLamportPriorityFeeEstimates,
    buckets: Seq<Seq<u64>>,
) -> MicroLamportPriorityFeeEstimates
    decreases buckets.len(),
{
    if buckets.len() == 0 {
        acc
    } else {
        max_estimates(fold_estimates(acc, buckets.drop_last()), estimates_of(buckets.last()))
    }
}

proof fn lemma_fee_le_total()
    ensures
        total_ordering(fee_le()),
{
}

/// Merges two ascending samples into one.
fn merge(a: &Vec<u64>, b: &Vec<u64>) -> (r: Vec<u64>)
    requires
        sorted_by(a@, fee_le()),
        sorted_by(b@, fee_le()),
    ensures
        sorted_by(r@, fee_le()),
        r@.to_multiset() == a@.to_multiset().add(b@.to_multiset()),
{
    let mut r: Vec<u64> = Vec::new();
    let mut i: usize = 0;
    let mut j: usize = 0;
    proof {
        assert(a@.take(0) =~= Seq::<u64>::empty());
        assert(b@.take(0) =~= Seq::<u64>::empty());
        assert(r@ =~= Seq::<u64>::empty());
        assert(Seq::<u64>::empty().to_multiset() =~= Seq::<u64>::empty().to_multiset().add(
            Seq::<u64>::empty().to_multiset(),
        )) by {
            broadcast use vstd::seq_lib::group_to_multiset_ensures;
            broadcast use vstd::multiset::group_multiset_axioms;

        }
    }
    while i < a.len() || j < b.len()
        invariant
            0 <= i <= a@.len(),
            0 <= j <= b@.len(),
            sorted_by(a@, fee_le()),
            sorted_by(b@, fee_le()),
            sorted_by(r@, fee_le()),
            r@.to_multiset() == a@.take(i as int).to_multiset().add(b@.take(j as int).to_multiset()),
            r@.len() > 0 && i < a@.len() ==> r@.last() <= a@[i as int],
            r@.len() > 0 && j < b@.len() ==> r@.last() <= b@[j as int],
        decreases a@.len() + b@.len() - i - j,
    {
        let ghost before = r@;
        let take_a = j >= b.len() || (i < a.len() && a[i] <= b[j]);
        let x = if take_a {
            a[i]
        } else {
            b[j]
        };
        r.push(x);
        proof {
            broadcast use vstd::seq_lib::group_to_multiset_ensures;
            broadcast use vstd::multiset::group_multiset_axioms;

            assert forall|p: int, q: int| 0 <= p < q < r@.len() implies #[trigger] (fee_le())(
                r@[p],
                r@[q],
            ) by {
                if q < before.len() {
                    assert(fee_le()(before[p], before[q]));
                } else if p < before.len() - 1 {
                    assert(fee_le()(before[p], before[before.len() - 1]));
                }
            }
            if take_a {
                assert(a@.take(i as int + 1) =~= a@.take(i as int).push(x));
                assert(r@.to_multiset() =~= a@.take(i as int + 1).to_multiset().add(
                    b@.take(j as int).to_multiset(),
                ));
                if i + 1 < a@.len() {
                    assert(fee_le()(a@[i as int], a@[i as int + 1]));
                }
            } else {
                assert(b@.take(j as int + 1) =~= b@.take(j as int).push(x));
                assert(r@.to_multiset() =~= a@.take(i as int).to_multiset().add(
                    b@.take(j as int + 1).to_multiset(),
                ));
                if j + 1 < b@.len() {
                    assert(fee_le()(b@[j as int], b@[j as int + 1]));
                }
            }
        }
        if take_a {
            i = i + 1;
        } else {
            j = j + 1;
        }
    }
    assert(a@.take(a@.len() as int) =~= a@);
    assert(b@.take(b@.len() as int) =~= b@);
    r
}

/// Sorts `v[lo..hi]` in ascending order.
pub(crate) fn sort_range(v: &Vec<u64>, lo: usize, hi: usize) -> (r: Vec<u64>)
    requires
        lo <= hi <= v@.len(),
    ensures
        sorted_by(r@, fee_le()),
        r@.to_multiset() == v@.subrange(lo as int, hi as int).to_multiset(),
    decreases hi - lo,
{
    if hi - lo <= 1 {
        let mut r: Vec<u64> = Vec::new();
        if hi - lo == 1 {
            r.push(v[lo]);
        }
        assert(r@ =~= v@.subrange(lo as int, hi as int));
        r
    } else {
        let mid = lo + (hi - lo) / 2;
        let left = sort_range(v, lo, mid);
        let right = sort_range(v, mid, hi);
        let r = merge(&left, &right);
        proof {
            assert(v@.subrange(lo as int, hi as int) =~= v@.subrange(lo as int, mid as int) + v@.subrange(
                mid as int,
                hi as int,
            ));
            vstd::seq_lib::lemma_multiset_commutative(
                v@.subrange(lo as int, mid as int),
                v@.subrange(mid as int, hi as int),
            );
        }
        r
    }
}

/// Sorts fee samples in ascending order.
pub fn sort_fees(v: &Vec<u64>) -> (r: Vec<u64>)
    ensures
        r@ == sorted_fees(v@),
{
    let r = sort_range(v, 0, v.len());
    proof {
        assert(v@.subrange(0, v@.len() as int) =~= v@);
        lemma_fee_le_total();
        v@.lemma_sort_by_ensures(fee_le());
        lemma_sorted_unique(r@, v@.sort_by(fee_le()), fee_le());
    }
    r
}

/// Bounds of the interpolation: a percentile lies between the two samples it
/// interpolates, so it fits the hundredths of a `u64`.
proof fn lemma_percentile_bounds(s: Seq<u64>, p: nat)
    requires
        s.len() > 0,
        p <= 100,
        sorted_by(s, fee_le()),
    ensures
        ({
            let t = (s.len() - 1) * p;
            &&& 0 <= t / 100 < s.len()
            &&& t % 100 != 0 ==> t / 100 + 1 < s.len()
        }),
        100 * s[((s.len() - 1) * p) / 100] <= percentile_of_sorted(s, p),
        percentile_of_sorted(s, p) <= 100 * s[(if ((s.len() - 1) * p) % 100 == 0 {
            ((s.len() - 1) * p) / 100
        } else {
            ((s.len() - 1) * p) / 100 + 1
        })],
{
    let n = s.len() as int;
    let t = (n - 1) * p;
    assert(0 <= t <= (n - 1) * 100) by (nonlinear_arith)
        requires
            n >= 1,
            p <= 100,
            t == (n - 1) * p,
    ;
    let lo = t / 100;
    let r = t % 100;
    assert(t == 100 * lo + r);
    assert(lo <= n - 1);
    if r != 0 {
        assert(lo < n - 1);
        assert(fee_le()(s[lo], s[lo + 1]));
        let a = s[lo] as int;
        let b = s[lo + 1] as int;
        assert(0 <= r * (b - a) <= 100 * (b - a)) by (nonlinear_arith)
            requires
                0 < r < 100,
                a <= b,
        ;
    }
}

/// The `p`-th percentile of an ascending sample, in hundredths; `None` when empty.
pub fn percentile(sorted: &Vec<u64>, p: u64) -> (r: Option<u128>)
    requires
        sorted_by(sorted@, fee_le()),
        p <= 100,
    ensures
        sorted@.len() == 0 ==> r is None,
        sorted@.len() > 0 ==> r == Some(percentile_of_sorted(sorted@, p as nat) as u128),
        sorted@.len() > 0 ==> 0 <= percentile_of_sorted(sorted@, p as nat) <= 100 * u64::MAX,
{
    let n = sorted.len();
    if n == 0 {
        return None;
    }
    proof {
        lemma_percentile_bounds(sorted@, p as nat);
    }
    let t: u128 = (n as u128 - 1) * (p as u128);
    let lo: usize = (t / 100) as usize;
    let rem: u128 = t % 100;
    let a: u128 = sorted[lo] as u128;
    if rem == 0 {
        Some(100 * a)
    } else {
        let b: u128 = sorted[lo + 1] as u128;
        assert(rem * (b - a) <= 100 * (b - a)) by (nonlinear_arith)
            requires
                0 < rem < 100,
                a <= b,
        ;
        Some(100 * a + rem * (b - a))
    }
}

/// The six levels of a sample.
pub fn estimates_of_sample(samples: &Vec<u64>) -> (r: MicroLamportPriorityFeeEstimates)
    ensures
        r == estimates_of(samples@),
{
    let sorted = sort_fees(samples);
    proof {
        lemma_fee_le_total();
        samples@.lemma_sort_by_ensures(fee_le());
        assert(sorted@.len() == samples@.len()) by {
            samples@.to_multiset_ensures();
            sorted@.to_multiset_ensures();
        }
    }
    MicroLamportPriorityFeeEstimates {
        min: percentile(&sorted, 0),
        low: percentile(&sorted, 25),
        medium: percentile(&sorted, 50),
        high: percentile(&sorted, 75),
        very_high: percentile(&sorted, 95),
        unsafe_max: percentile(&sorted, 100),
    }
}

fn fold_level(acc: Option<u128>, v: Option<u128>) -> (r: Option<u128>)
    ensures
        r == max_level(acc, v),
{
    match v {
        None => acc,
        Some(x) => match acc {
            None => Some(x),
            Some(y) => if x > y {
                Some(x)
            } else {
                Some(y)
            },
        },
    }
}

/// Raises each level of `estimates` to that of `e` where `e`'s is greater,
/// or where `estimates` has none.
pub fn fold_max(estimates: MicroLamportPriorityFeeEstimates, e: MicroLamportPriorityFeeEstimates) -> (r:
    MicroLamportPriorityFeeEstimates)
    ensures
        r == max_estimates(estimates, e),
{
    MicroLamportPriorityFeeEstimates {
        min: fold_level(estimates.min, e.min),
        low: fold_level(estimates.low, e.low),
        medium: fold_level(estimates.medium, e.medium),
        high: fold_level(estimates.high, e.high),
        very_high: fold_level(estimates.very_high, e.very_high),
        unsafe_max: fold_level(estimates.unsafe_max, e.unsafe_max),
    }
}

/// A percentile never decreases as `p` grows: on any non-empty sample,
/// `p(0) <= p(25) <= p(50) <= p(75) <= p(95) <= p(100)`, and generally
/// `p <= q` gives a percentile no greater.
pub proof fn lemma_percentile_monotone(samples: Seq<u64>, p: nat, q: nat)
    requires
        samples.len() > 0,
        p <= q <= 100,
    ensures
        percentile_of_sorted(sorted_fees(samples), p) <= percentile_of_sorted(sorted_fees(samples), q),
        level_ge(level_of(samples, q), level_of(samples, p)),
{
    let s = sorted_fees(samples);
    lemma_fee_le_total();
    samples.lemma_sort_by_ensures(fee_le());
    samples.to_multiset_ensures();
    s.to_multiset_ensures();
    assert(s.len() == samples.len());
    lemma_percentile_bounds(s, p);
    lemma_percentile_bounds(s, q);
    let n = s.len() as int;
    let tp = (n - 1) * p;
    let tq = (n - 1) * q;
    assert(tp <= tq) by (nonlinear_arith)
        requires
            n >= 1,
            p <= q,
            tp == (n - 1) * p,
            tq == (n - 1) * q,
    ;
    let lp = tp / 100;
    let lq = tq / 100;
    assert(lp <= lq) by (nonlinear_arith)
        requires
            0 <= tp <= tq,
            lp == tp / 100,
            lq == tq / 100,
    ;
    if lp == lq {
        let a = s[lp] as int;
        if tq % 100 != 0 {
            assert(fee_le()(s[lp], s[lp + 1]));
            let b = s[lp + 1] as int;
            assert((tp % 100) * (b - a) <= (tq % 100) * (b - a)) by (nonlinear_arith)
                requires
                    0 <= tp % 100 <= tq % 100,
                    a <= b,
            ;
        }
    } else {
        let hp = if tp % 100 == 0 { lp } else { lp + 1 };
        assert(hp <= lq);
        if hp < lq {
            assert(fee_le()(s[hp], s[lq]));
        }
    }
}

/// Folding in more buckets can only raise each level: the estimate of
/// `buckets + more` is at least that of `buckets`, level by level.
pub proof fn lemma_fold_monotone(
    acc: MicroLamportPriorityFeeEstimates,
    buckets: Seq<Seq<u64>>,
    more: Seq<Seq<u64>>,
)
    ensures
        estimates_ge(fold_estimates(acc, buckets + more), fold_estimates(acc, buckets)),
    decreases more.len(),
{
    if more.len() == 0 {
        assert(buckets + more =~= buckets);
    } else {
        assert((buckets + more).drop_last() =~= buckets + more.drop_last());
        lemma_fold_monotone(acc, buckets, more.drop_last());
    }
}

} // verus!
