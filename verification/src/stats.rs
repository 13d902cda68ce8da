//! Speed samples and the trimmed mean that turns them into one score.
use vstd::prelude::*;
use vstd::relations::{sorted_by, total_ordering};
use vstd::seq_lib::{lemma_sorted_unique, group_to_multiset_ensures};

verus! {

/// The order in which samples are ranked: plain `<=` on `u64`.
pub open spec fn u64_leq() -> spec_fn(u64, u64) -> bool {
    |a: u64, b: u64| a <= b
}

/// The samples in ascending order.
pub open spec fn sorted_samples(s: Seq<u64>) -> Seq<u64> {
    s.sort_by(u64_leq())
}

/// Sum of a sequence of samples, as a mathematical integer.
pub open spec fn seq_sum(s: Seq<u64>) -> int
    decreases s.len(),
{
    if s.len() == 0 {
        0
    } else {
        seq_sum(s.drop_last()) + s.last()
    }
}

/// How many of the slowest samples are dropped: 20% of the count, rounded down.
pub open spec fn trim_bottom(n: int) -> int {
    n / 5
}

/// How many of the fastest samples are dropped: 15% of the count, rounded down.
pub open spec fn trim_top(n: int) -> int {
    n * 3 / 20
}

/// The samples that survive trimming, in ascending order.
pub open spec fn kept_samples(s: Seq<u64>) -> Seq<u64> {
    let n = s.len() as int;
    sorted_samples(s).subrange(trim_bottom(n), n - trim_top(n))
}

/// Whether the sum that the trimmed mean divides fits in a `u64`: that of all
/// samples when there are fewer than five, otherwise that of the kept ones.
pub open spec fn trimmed_sum_fits(s: Seq<u64>) -> bool {
    if s.len() < 5 {
        seq_sum(s) <= u64::MAX
    } else {
        seq_sum(kept_samples(s)) <= u64::MAX
    }
}

/// The trimmed mean: 0 for no samples, the plain mean of fewer than five, and
/// otherwise the mean of the samples left once the slowest 20% and the fastest
/// 15% are dropped (integer division throughout).
pub open spec fn trimmed_mean_spec(s: Seq<u64>) -> int {
    let n = s.len() as int;
    if n == 0 {
        0
    } else if n < 5 {
        seq_sum(s) / n
    } else {
        seq_sum(kept_samples(s)) / kept_samples(s).len() as int
    }
}

proof fn lemma_u64_leq_total()
    ensures
        total_ordering(u64_leq()),
{
}

/// A sum of samples is never negative.
pub proof fn lemma_seq_sum_nonneg(s: Seq<u64>)
    ensures
        seq_sum(s) >= 0,
    decreases s.len(),
{
    if s.len() > 0 {
        lemma_seq_sum_nonneg(s.drop_last());
    }
}

proof fn lemma_seq_sum_concat(a: Seq<u64>, b: Seq<u64>)
    ensures
        seq_sum(a + b) == seq_sum(a) + seq_sum(b),
    decreases b.len(),
{
    if b.len() == 0 {
        assert(a + b =~= a);
    } else {
        assert((a + b).drop_last() =~= a + b.drop_last());
        lemma_seq_sum_concat(a, b.drop_last());
    }
}

proof fn lemma_seq_sum_push(s: Seq<u64>, x: u64)
    ensures
        seq_sum(s.push(x)) == seq_sum(s) + x,
{
    assert(s.push(x).drop_last() =~= s);
}

proof fn lemma_seq_sum_take_step(s: Seq<u64>, i: int)
    requires
        0 <= i < s.len(),
    ensures
        seq_sum(s.take(i + 1)) == seq_sum(s.take(i)) + s[i],
{
    assert(s.take(i + 1) =~= s.take(i).push(s[i]));
    lemma_seq_sum_push(s.take(i), s[i]);
}

proof fn lemma_seq_sum_insert(s: Seq<u64>, i: int, x: u64)
    requires
        0 <= i <= s.len(),
    ensures
        seq_sum(s.insert(i, x)) == seq_sum(s) + x,
{
    let a = s.subrange(0, i);
    let b = s.subrange(i, s.len() as int);
    assert(s =~= a + b);
    assert(s.insert(i, x) =~= a.push(x) + b);
    lemma_seq_sum_concat(a.push(x), b);
    lemma_seq_sum_concat(a, b);
    lemma_seq_sum_push(a, x);
}

proof fn lemma_seq_sum_remove(s: Seq<u64>, i: int)
    requires
        0 <= i < s.len(),
    ensures
        seq_sum(s) == seq_sum(s.remove(i)) + s[i],
{
    assert(s.remove(i).insert(i, s[i]) =~= s);
    lemma_seq_sum_insert(s.remove(i), i, s[i]);
}

/// Two sequences with the same elements, counted with multiplicity, have the same sum.
proof fn lemma_seq_sum_permutation(s1: Seq<u64>, s2: Seq<u64>)
    requires
        s1.to_multiset() == s2.to_multiset(),
    ensures
        seq_sum(s1) == seq_sum(s2),
    decreases s1.len(),
{
    broadcast use group_to_multiset_ensures;
    broadcast use vstd::multiset::group_multiset_axioms;

    if s1.len() == 0 {
        assert(s2.to_multiset().len() == 0);
    } else {
        let x = s1.last();
        assert(s1.to_multiset().count(x) > 0) by {
            assert(s1.drop_last().push(x) =~= s1);
        }
        assert(s2.contains(x));
        let k = choose|k: int| 0 <= k < s2.len() && s2[k] == x;
        assert(s1.drop_last().push(x) =~= s1);
        assert(s1.drop_last().to_multiset() =~= s1.to_multiset().remove(x));
        assert(s2.remove(k).to_multiset() =~= s2.to_multiset().remove(x));
        lemma_seq_sum_permutation(s1.drop_last(), s2.remove(k));
        lemma_seq_sum_remove(s2, k);
    }
}

/// A subrange never sums to more than the whole sequence.
proof fn lemma_seq_sum_subrange_le(s: Seq<u64>, lo: int, hi: int)
    requires
        0 <= lo <= hi <= s.len(),
    ensures
        seq_sum(s.subrange(lo, hi)) <= seq_sum(s),
{
    let a = s.subrange(0, lo);
    let b = s.subrange(lo, hi);
    let c = s.subrange(hi, s.len() as int);
    assert(s =~= a + b + c);
    lemma_seq_sum_concat(a + b, c);
    lemma_seq_sum_concat(a, b);
    lemma_seq_sum_nonneg(a);
    lemma_seq_sum_nonneg(c);
}

/// The ascending order of a sequence is unique: any sorted permutation of it is it.
proof fn lemma_sorted_is_sorted_samples(s: Seq<u64>, r: Seq<u64>)
    requires
        r.to_multiset() == s.to_multiset(),
        sorted_by(r, u64_leq()),
    ensures
        r == sorted_samples(s),
{
    lemma_u64_leq_total();
    s.lemma_sort_by_ensures(u64_leq());
    lemma_sorted_unique(r, sorted_samples(s), u64_leq());
}

/// The ascending order holds the same samples, sorted, and each of its entries
/// is one of the samples.
proof fn lemma_sorted_samples_facts(s: Seq<u64>)
    ensures
        sorted_samples(s).len() == s.len(),
        sorted_samples(s).to_multiset() == s.to_multiset(),
        sorted_by(sorted_samples(s), u64_leq()),
        forall|j: int| 0 <= j < s.len() ==> s.contains(#[trigger] sorted_samples(s)[j]),
{
    broadcast use group_to_multiset_ensures;

    lemma_u64_leq_total();
    s.lemma_sort_by_ensures(u64_leq());
    let r = sorted_samples(s);
    vstd::seq_lib::to_multiset_len(r);
    vstd::seq_lib::to_multiset_len(s);
    assert forall|j: int| 0 <= j < s.len() implies s.contains(#[trigger] r[j]) by {
        assert(r.contains(r[j]));
        assert(r.to_multiset().count(r[j]) > 0);
    }
}

/// A sum of `n` samples, each between `lo` and `hi`, lies between `n * lo` and `n * hi`.
proof fn lemma_seq_sum_bounds(s: Seq<u64>, lo: int, hi: int)
    requires
        forall|i: int| 0 <= i < s.len() ==> lo <= #[trigger] s[i] <= hi,
    ensures
        s.len() * lo <= seq_sum(s) <= s.len() * hi,
    decreases s.len(),
{
    if s.len() > 0 {
        let p = s.drop_last();
        assert forall|i: int| 0 <= i < p.len() implies lo <= #[trigger] p[i] <= hi by {
            assert(p[i] == s[i]);
        }
        lemma_seq_sum_bounds(p, lo, hi);
        assert(lo <= s[s.len() - 1] <= hi);
        assert(s.len() * lo == p.len() * lo + lo) by (nonlinear_arith)
            requires
                s.len() == p.len() + 1,
        ;
        assert(s.len() * hi == p.len() * hi + hi) by (nonlinear_arith)
            requires
                s.len() == p.len() + 1,
        ;
    }
}

/// Integer division by a positive count keeps a sum between `n * lo` and `n * hi`
/// between `lo` and `hi`.
proof fn lemma_div_within(total: int, n: int, lo: int, hi: int)
    requires
        n > 0,
        n * lo <= total <= n * hi,
    ensures
        lo <= total / n <= hi,
{
    assert(lo <= total / n <= hi) by (nonlinear_arith)
        requires
            n > 0,
            n * lo <= total <= n * hi,
    {
        let q = total / n;
        let r = total % n;
        assert(total == n * q + r);
        assert(0 <= r < n);
        if q < lo {
            assert(n * q <= n * (lo - 1));
        }
        if q > hi {
            assert(n * q >= n * (hi + 1));
        }
    }
}

/// The trimmed mean of samples that all lie between `lo` and `hi` lies between
/// them too: it never leaves the range of the samples it averages.
pub proof fn lemma_trimmed_mean_within_bounds(s: Seq<u64>, lo: int, hi: int)
    requires
        s.len() > 0,
        forall|i: int| 0 <= i < s.len() ==> lo <= #[trigger] s[i] <= hi,
    ensures
        lo <= trimmed_mean_spec(s) <= hi,
{
    let n = s.len() as int;
    if n < 5 {
        lemma_seq_sum_bounds(s, lo, hi);
        lemma_div_within(seq_sum(s), n, lo, hi);
    } else {
        lemma_sorted_samples_facts(s);
        let r = sorted_samples(s);
        let k = kept_samples(s);
        assert(n / 5 + n * 3 / 20 < n);
        assert forall|i: int| 0 <= i < k.len() implies lo <= #[trigger] k[i] <= hi by {
            assert(k[i] == r[i + trim_bottom(n)]);
            assert(s.contains(r[i + trim_bottom(n)]));
        }
        lemma_seq_sum_bounds(k, lo, hi);
        lemma_div_within(seq_sum(k), k.len() as int, lo, hi);
    }
}

/// The slowest sample (0 for none).
pub open spec fn seq_min(s: Seq<u64>) -> int
    decreases s.len(),
{
    if s.len() == 0 {
        0
    } else if s.len() == 1 {
        s[0] as int
    } else if s.last() < seq_min(s.drop_last()) {
        s.last() as int
    } else {
        seq_min(s.drop_last())
    }
}

/// The fastest sample (0 for none).
pub open spec fn seq_max(s: Seq<u64>) -> int
    decreases s.len(),
{
    if s.len() == 0 {
        0
    } else if s.len() == 1 {
        s[0] as int
    } else if s.last() > seq_max(s.drop_last()) {
        s.last() as int
    } else {
        seq_max(s.drop_last())
    }
}

proof fn lemma_min_max_bound(s: Seq<u64>)
    requires
        s.len() > 0,
    ensures
        forall|i: int| 0 <= i < s.len() ==> seq_min(s) <= #[trigger] s[i] <= seq_max(s),
    decreases s.len(),
{
    if s.len() > 1 {
        let p = s.drop_last();
        lemma_min_max_bound(p);
        assert forall|i: int| 0 <= i < s.len() implies seq_min(s) <= #[trigger] s[i] <= seq_max(s) by {
            if i < p.len() {
                assert(s[i] == p[i]);
            }
        }
    }
}

/// The trimmed mean of one or more samples lies between the slowest and the
/// fastest of them.
pub proof fn lemma_trimmed_mean_between_extremes(s: Seq<u64>)
    requires
        s.len() > 0,
    ensures
        seq_min(s) <= trimmed_mean_spec(s) <= seq_max(s),
{
    lemma_min_max_bound(s);
    lemma_trimmed_mean_within_bounds(s, seq_min(s), seq_max(s));
}

/// How many of the samples are at most `x`.
spec fn count_at_most(s: Seq<u64>, x: u64) -> nat
    decreases s.len(),
{
    if s.len() == 0 {
        0
    } else {
        count_at_most(s.drop_last(), x) + (if s.last() <= x {
            1nat
        } else {
            0nat
        })
    }
}

proof fn lemma_count_concat(a: Seq<u64>, b: Seq<u64>, x: u64)
    ensures
        count_at_most(a + b, x) == count_at_most(a, x) + count_at_most(b, x),
    decreases b.len(),
{
    if b.len() == 0 {
        assert(a + b =~= a);
    } else {
        assert((a + b).drop_last() =~= a + b.drop_last());
        lemma_count_concat(a, b.drop_last(), x);
    }
}

proof fn lemma_count_remove(s: Seq<u64>, i: int, x: u64)
    requires
        0 <= i < s.len(),
    ensures
        count_at_most(s, x) == count_at_most(s.remove(i), x) + (if s[i] <= x {
            1nat
        } else {
            0nat
        }),
{
    let a = s.subrange(0, i);
    let b = s.subrange(i + 1, s.len() as int);
    assert(s =~= a.push(s[i]) + b);
    assert(s.remove(i) =~= a + b);
    assert(a.push(s[i]).drop_last() =~= a);
    lemma_count_concat(a.push(s[i]), b, x);
    lemma_count_concat(a, b, x);
}

/// The count does not depend on the order of the samples.
proof fn lemma_count_permutation(s1: Seq<u64>, s2: Seq<u64>, x: u64)
    requires
        s1.to_multiset() == s2.to_multiset(),
    ensures
        count_at_most(s1, x) == count_at_most(s2, x),
    decreases s1.len(),
{
    broadcast use group_to_multiset_ensures;
    broadcast use vstd::multiset::group_multiset_axioms;

    if s1.len() == 0 {
        assert(s2.to_multiset().len() == 0);
    } else {
        let y = s1.last();
        assert(s1.drop_last().push(y) =~= s1);
        assert(s1.to_multiset().count(y) > 0);
        assert(s2.contains(y));
        let k = choose|k: int| 0 <= k < s2.len() && s2[k] == y;
        assert(s1.drop_last().to_multiset() =~= s1.to_multiset().remove(y));
        assert(s2.remove(k).to_multiset() =~= s2.to_multiset().remove(y));
        lemma_count_permutation(s1.drop_last(), s2.remove(k), x);
        lemma_count_remove(s2, k, x);
    }
}

/// Raising samples one by one can only lower how many are at most `x`.
proof fn lemma_count_pointwise(a: Seq<u64>, c: Seq<u64>, x: u64)
    requires
        a.len() == c.len(),
        forall|i: int| 0 <= i < a.len() ==> #[trigger] a[i] <= c[i],
    ensures
        count_at_most(c, x) <= count_at_most(a, x),
    decreases a.len(),
{
    if a.len() > 0 {
        let n = a.len() - 1;
        assert(a[n] <= c[n]);
        assert forall|i: int| 0 <= i < a.drop_last().len() implies #[trigger] a.drop_last()[i]
            <= c.drop_last()[i] by {
            assert(a[i] <= c[i]);
        }
        lemma_count_pointwise(a.drop_last(), c.drop_last(), x);
    }
}

proof fn lemma_count_all_at_most(s: Seq<u64>, x: u64)
    requires
        forall|i: int| 0 <= i < s.len() ==> #[trigger] s[i] <= x,
    ensures
        count_at_most(s, x) == s.len(),
    decreases s.len(),
{
    if s.len() > 0 {
        assert(s[s.len() - 1] <= x);
        assert forall|i: int| 0 <= i < s.drop_last().len() implies #[trigger] s.drop_last()[i]
            <= x by {
            assert(s[i] <= x);
        }
        lemma_count_all_at_most(s.drop_last(), x);
    }
}

proof fn lemma_count_none_at_most(s: Seq<u64>, x: u64)
    requires
        forall|i: int| 0 <= i < s.len() ==> #[trigger] s[i] > x,
    ensures
        count_at_most(s, x) == 0,
    decreases s.len(),
{
    if s.len() > 0 {
        assert(s[s.len() - 1] > x);
        assert forall|i: int| 0 <= i < s.drop_last().len() implies #[trigger] s.drop_last()[i]
            > x by {
            assert(s[i] > x);
        }
        lemma_count_none_at_most(s.drop_last(), x);
    }
}

/// In ascending order, the entry at `k` is at most `x` exactly when more than
/// `k` entries are.
proof fn lemma_sorted_count(r: Seq<u64>, k: int, x: u64)
    requires
        sorted_by(r, u64_leq()),
        0 <= k < r.len(),
    ensures
        r[k] <= x ==> count_at_most(r, x) >= k + 1,
        r[k] > x ==> count_at_most(r, x) <= k,
{
    if r[k] <= x {
        let p = r.take(k + 1);
        let q = r.skip(k + 1);
        assert(r =~= p + q);
        assert forall|i: int| 0 <= i < p.len() implies #[trigger] p[i] <= x by {
            if i < k {
                assert(u64_leq()(r[i], r[k]));
            }
        }
        lemma_count_all_at_most(p, x);
        lemma_count_concat(p, q, x);
    } else {
        let p = r.take(k);
        let q = r.skip(k);
        assert(r =~= p + q);
        assert forall|i: int| 0 <= i < q.len() implies #[trigger] q[i] > x by {
            if i > 0 {
                assert(u64_leq()(r[k], r[k + i]));
            }
        }
        lemma_count_none_at_most(q, x);
        lemma_count_concat(p, q, x);
        assert(count_at_most(p, x) <= p.len()) by {
            lemma_count_at_most_len(p, x);
        }
    }
}

proof fn lemma_count_at_most_len(s: Seq<u64>, x: u64)
    ensures
        count_at_most(s, x) <= s.len(),
    decreases s.len(),
{
    if s.len() > 0 {
        lemma_count_at_most_len(s.drop_last(), x);
    }
}

/// Raising samples one by one raises (or keeps) every entry of their ascending order.
proof fn lemma_sorted_pointwise(a: Seq<u64>, c: Seq<u64>)
    requires
        a.len() == c.len(),
        forall|i: int| 0 <= i < a.len() ==> #[trigger] a[i] <= c[i],
    ensures
        forall|k: int| 0 <= k < a.len() ==> #[trigger] sorted_samples(a)[k] <= sorted_samples(c)[k],
{
    lemma_sorted_samples_facts(a);
    lemma_sorted_samples_facts(c);
    let sa = sorted_samples(a);
    let sc = sorted_samples(c);
    assert forall|k: int| 0 <= k < a.len() implies #[trigger] sa[k] <= sc[k] by {
        let x = sc[k];
        lemma_sorted_count(sc, k, x);
        lemma_count_permutation(sc, c, x);
        lemma_count_pointwise(a, c, x);
        lemma_count_permutation(sa, a, x);
        lemma_sorted_count(sa, k, x);
    }
}

/// Sums of two sequences of one length, the second at least the first at every
/// position.
proof fn lemma_seq_sum_pointwise(a: Seq<u64>, c: Seq<u64>)
    requires
        a.len() == c.len(),
        forall|i: int| 0 <= i < a.len() ==> #[trigger] a[i] <= c[i],
    ensures
        seq_sum(a) <= seq_sum(c),
    decreases a.len(),
{
    if a.len() > 0 {
        let n = a.len() - 1;
        assert(a[n] <= c[n]);
        assert forall|i: int| 0 <= i < a.drop_last().len() implies #[trigger] a.drop_last()[i]
            <= c.drop_last()[i] by {
            assert(a[i] <= c[i]);
        }
        lemma_seq_sum_pointwise(a.drop_last(), c.drop_last());
    }
}

proof fn lemma_div_monotone(x: int, y: int, n: int)
    requires
        n > 0,
        0 <= x <= y,
    ensures
        x / n <= y / n,
{
    assert(x / n <= y / n) by (nonlinear_arith)
        requires
            n > 0,
            0 <= x <= y,
    {
        let qx = x / n;
        let qy = y / n;
        assert(x == n * qx + x % n);
        assert(y == n * qy + y % n);
        if qx > qy {
            assert(n * qx >= n * (qy + 1));
        }
    }
}

/// Raising any of the samples never lowers the trimmed mean.
pub proof fn lemma_trimmed_mean_monotone(a: Seq<u64>, c: Seq<u64>)
    requires
        a.len() == c.len(),
        forall|i: int| 0 <= i < a.len() ==> #[trigger] a[i] <= c[i],
    ensures
        trimmed_mean_spec(a) <= trimmed_mean_spec(c),
{
    let n = a.len() as int;
    if n == 0 {
    } else if n < 5 {
        lemma_seq_sum_pointwise(a, c);
        lemma_seq_sum_nonneg(a);
        lemma_div_monotone(seq_sum(a), seq_sum(c), n);
    } else {
        lemma_sorted_pointwise(a, c);
        lemma_sorted_samples_facts(a);
        lemma_sorted_samples_facts(c);
        let ka = kept_samples(a);
        let kc = kept_samples(c);
        let b = trim_bottom(n);
        assert(n / 5 + n * 3 / 20 < n);
        assert forall|i: int| 0 <= i < ka.len() implies #[trigger] ka[i] <= kc[i] by {
            assert(ka[i] == sorted_samples(a)[i + b]);
            assert(kc[i] == sorted_samples(c)[i + b]);
        }
        lemma_seq_sum_pointwise(ka, kc);
        lemma_seq_sum_nonneg(ka);
        lemma_div_monotone(seq_sum(ka), seq_sum(kc), ka.len() as int);
    }
}

/// Replacing the largest sample by a value at least as large replaces the last
/// entry of the ascending order; replacing the smallest by a value at most as
/// small replaces the first.
proof fn lemma_sorted_after_extreme_update(s: Seq<u64>, i: int, v: u64, top: bool)
    requires
        0 <= i < s.len(),
        top ==> v >= s[i] && forall|j: int| 0 <= j < s.len() ==> #[trigger] s[j] <= s[i],
        !top ==> v <= s[i] && forall|j: int| 0 <= j < s.len() ==> s[i] <= #[trigger] s[j],
    ensures
        sorted_samples(s.update(i, v)) == sorted_samples(s).update(
            if top {
                s.len() - 1
            } else {
                0
            },
            v,
        ),
{
    broadcast use group_to_multiset_ensures;

    lemma_sorted_samples_facts(s);
    let n = s.len() as int;
    let r = sorted_samples(s);
    let e: int = if top {
        n - 1
    } else {
        0
    };
    // the replaced entry of the ascending order is the replaced sample
    assert(s.contains(r[e]));
    let j = choose|j: int| 0 <= j < s.len() && s[j] == r[e];
    assert(s[j] == r[e]);
    assert(r.to_multiset().count(s[i]) > 0) by {
        assert(s.contains(s[i]));
    }
    assert(r.contains(s[i]));
    let m = choose|m: int| 0 <= m < r.len() && r[m] == s[i];
    if top {
        if m < e {
            assert(u64_leq()(r[m], r[e]));
        }
    } else {
        if e < m {
            assert(u64_leq()(r[e], r[m]));
        }
    }
    assert(r[e] == s[i]);
    let r2 = r.update(e, v);
    assert forall|a: int, b: int| 0 <= a < b < r2.len() implies #[trigger] u64_leq()(r2[a], r2[b]) by {
        assert(u64_leq()(r[a], r[b]));
        if top && b == e {
            assert(u64_leq()(r[a], r[e]));
        }
        if !top && a == e {
            assert(u64_leq()(r[e], r[b]));
        }
    }
    assert(r2.to_multiset() == s.update(i, v).to_multiset());
    lemma_sorted_is_sorted_samples(s.update(i, v), r2);
}

/// A single burst is trimmed away: with seven or more samples, raising the
/// largest one further leaves the kept samples, and so the trimmed mean, unchanged.
pub proof fn lemma_trimmed_mean_ignores_top_burst(s: Seq<u64>, i: int, v: u64)
    requires
        s.len() >= 7,
        0 <= i < s.len(),
        forall|j: int| 0 <= j < s.len() ==> #[trigger] s[j] <= s[i],
        v >= s[i],
    ensures
        kept_samples(s.update(i, v)) == kept_samples(s),
        trimmed_mean_spec(s.update(i, v)) == trimmed_mean_spec(s),
{
    let n = s.len() as int;
    lemma_sorted_after_extreme_update(s, i, v, true);
    lemma_sorted_samples_facts(s);
    assert(n * 3 / 20 >= 1);
    assert(n / 5 + n * 3 / 20 < n);
    assert(kept_samples(s.update(i, v)) =~= kept_samples(s));
}

/// A single ramp-up reading is trimmed away: with five or more samples,
/// lowering the smallest one further leaves the kept samples, and so the
/// trimmed mean, unchanged.
pub proof fn lemma_trimmed_mean_ignores_slow_start(s: Seq<u64>, i: int, v: u64)
    requires
        s.len() >= 5,
        0 <= i < s.len(),
        forall|j: int| 0 <= j < s.len() ==> s[i] <= #[trigger] s[j],
        v <= s[i],
    ensures
        kept_samples(s.update(i, v)) == kept_samples(s),
        trimmed_mean_spec(s.update(i, v)) == trimmed_mean_spec(s),
{
    let n = s.len() as int;
    lemma_sorted_after_extreme_update(s, i, v, false);
    lemma_sorted_samples_facts(s);
    assert(n / 5 >= 1);
    assert(n / 5 + n * 3 / 20 < n);
    assert(kept_samples(s.update(i, v)) =~= kept_samples(s));
}

/// The first index of `r` that holds a value greater than `x` (or `r.len()`).
fn insertion_point(r: &Vec<u64>, x: u64) -> (pos: usize)
    requires
        sorted_by(r@, u64_leq()),
    ensures
        pos <= r.len(),
        forall|j: int| 0 <= j < pos ==> r@[j] <= x,
        forall|j: int| pos <= j < r.len() ==> r@[j] > x,
{
    let mut pos: usize = 0;
    while pos < r.len() && r[pos] <= x
        invariant
            pos <= r.len(),
            sorted_by(r@, u64_leq()),
            forall|j: int| 0 <= j < pos ==> r@[j] <= x,
        decreases r.len() - pos,
    {
        pos = pos + 1;
    }
    assert forall|j: int| pos <= j < r.len() implies r@[j] > x by {
        assert(u64_leq()(r@[pos as int], r@[j]) || j == pos);
    }
    pos
}

/// The samples in ascending order, with their sum carried along.
fn sort_ascending(samples: &Vec<u64>) -> (r: Vec<u64>)
    ensures
        r@ == sorted_samples(samples@),
        r.len() == samples.len(),
        seq_sum(r@) == seq_sum(samples@),
{
    broadcast use group_to_multiset_ensures;

    let mut r: Vec<u64> = Vec::new();
    let n = samples.len();
    let mut i: usize = 0;
    assert(samples@.take(0) =~= Seq::<u64>::empty());
    while i < n
        invariant
            n == samples.len(),
            i <= n,
            sorted_by(r@, u64_leq()),
            r@.to_multiset() == samples@.take(i as int).to_multiset(),
            seq_sum(r@) == seq_sum(samples@.take(i as int)),
        decreases n - i,
    {
        let x = samples[i];
        let pos = insertion_point(&r, x);
        let ghost old_r = r@;
        r.insert(pos, x);
        proof {
            assert(r@ == old_r.insert(pos as int, x));
            assert forall|a: int, b: int| 0 <= a < b < r@.len() implies #[trigger] u64_leq()(
                r@[a],
                r@[b],
            ) by {
                if a < pos && b < pos {
                    assert(u64_leq()(old_r[a], old_r[b]));
                } else if a > pos && b > pos {
                    assert(u64_leq()(old_r[a - 1], old_r[b - 1]));
                }
            }
            assert(samples@.take(i + 1) =~= samples@.take(i as int).push(x));
            vstd::seq_lib::to_multiset_insert(old_r, pos as int, x);
            vstd::seq_lib::to_multiset_build(samples@.take(i as int), x);
            lemma_seq_sum_take_step(samples@, i as int);
            lemma_seq_sum_insert(old_r, pos as int, x);
        }
        i = i + 1;
    }
    assert(samples@.take(n as int) =~= samples@);
    proof {
        lemma_sorted_is_sorted_samples(samples@, r@);
        vstd::seq_lib::to_multiset_len(r@);
        vstd::seq_lib::to_multiset_len(samples@);
    }
    r
}

/// Sum of `v[lo..hi]`, one sample at a time; `None` where it does not fit in a `u64`.
fn checked_sum_range(v: &Vec<u64>, lo: usize, hi: usize) -> (r: Option<u64>)
    requires
        lo <= hi <= v.len(),
    ensures
        r is Some <==> seq_sum(v@.subrange(lo as int, hi as int)) <= u64::MAX,
        r matches Some(t) ==> t == seq_sum(v@.subrange(lo as int, hi as int)),
{
    let mut total: u64 = 0;
    let mut i = lo;
    let ghost w = v@.subrange(lo as int, hi as int);
    proof {
        assert(v@.subrange(lo as int, lo as int) =~= Seq::<u64>::empty());
    }
    while i < hi
        invariant
            lo <= i <= hi <= v.len(),
            w == v@.subrange(lo as int, hi as int),
            total == seq_sum(v@.subrange(lo as int, i as int)),
        decreases hi - i,
    {
        proof {
            assert(v@.subrange(lo as int, i + 1) =~= v@.subrange(lo as int, i as int).push(v@[i as int]));
            lemma_seq_sum_push(v@.subrange(lo as int, i as int), v@[i as int]);
            assert(w.subrange(0, i + 1 - lo) =~= v@.subrange(lo as int, i + 1));
            lemma_seq_sum_subrange_le(w, 0, i + 1 - lo);
        }
        match total.checked_add(v[i]) {
            Some(t) => {
                total = t;
            },
            None => {
                return None;
            },
        }
        i = i + 1;
    }
    Some(total)
}

/// The sum of the samples, or `None` where it does not fit in a `u64`.
pub fn checked_sum(samples: &Vec<u64>) -> (r: Option<u64>)
    ensures
        r is Some <==> seq_sum(samples@) <= u64::MAX,
        r matches Some(t) ==> t == seq_sum(samples@),
{
    let mut total: u64 = 0;
    let mut i: usize = 0;
    assert(samples@.take(0) =~= Seq::<u64>::empty());
    while i < samples.len()
        invariant
            i <= samples.len(),
            total == seq_sum(samples@.take(i as int)),
        decreases samples.len() - i,
    {
        proof {
            lemma_seq_sum_take_step(samples@, i as int);
        }
        match total.checked_add(samples[i]) {
            Some(t) => {
                total = t;
            },
            None => {
                proof {
                    // the remaining samples only add to the sum
                    let rest = samples@.subrange(i + 1, samples.len() as int);
                    assert(samples@ =~= samples@.take(i + 1) + rest);
                    lemma_seq_sum_concat(samples@.take(i + 1), rest);
                    lemma_seq_sum_nonneg(rest);
                }
                return None;
            },
        }
        i = i + 1;
    }
    assert(samples@.take(samples.len() as int) =~= samples@);
    Some(total)
}

/// Positions of the kept samples among `len` sorted ones (five or more).
fn trim_bounds(len: usize) -> (r: (usize, usize))
    requires
        len >= 5,
    ensures
        r.0 == trim_bottom(len as int),
        r.1 == len - trim_top(len as int),
        r.0 < r.1 <= len,
{
    let drop_bottom = len / 5;
    let drop_top = (len / 20) * 3 + (len % 20) * 3 / 20;
    assert(drop_top == len * 3 / 20) by (nonlinear_arith)
        requires
            drop_top == (len / 20) * 3 + (len % 20) * 3 / 20,
    {
        assert(len == (len / 20) * 20 + len % 20);
    }
    assert(drop_bottom + drop_top < len);
    (drop_bottom, len - drop_top)
}

/// Whether the trimmed mean of `samples` can be computed without overflow.
pub fn trimmed_sum_fits_check(samples: &Vec<u64>) -> (r: bool)
    ensures
        r == trimmed_sum_fits(samples@),
{
    let len = samples.len();
    if len < 5 {
        assert(samples@.subrange(0, len as int) =~= samples@);
        return checked_sum_range(samples, 0, len).is_some();
    }
    let sorted = sort_ascending(samples);
    let (lo, hi) = trim_bounds(len);
    checked_sum_range(&sorted, lo, hi).is_some()
}

/// Trimmed mean of throughput samples: the slowest 20% (ramp-up) and the
/// fastest 15% (burst flushes) are dropped before averaging.
pub fn calculate_trimmed_mean(samples: Vec<u64>) -> (r: u64)
    requires
        trimmed_sum_fits(samples@),
    ensures
        r == trimmed_mean_spec(samples@),
{
    let len = samples.len();
    if len == 0 {
        return 0;
    }
    if len < 5 {
        assert(samples@.subrange(0, len as int) =~= samples@);
        let total = match checked_sum_range(&samples, 0, len) {
            Some(t) => t,
            None => 0,
        };
        return total / (len as u64);
    }
    let sorted = sort_ascending(&samples);
    let (drop_bottom, hi) = trim_bounds(len);
    let total = match checked_sum_range(&sorted, drop_bottom, hi) {
        Some(t) => t,
        None => 0,
    };
    total / ((hi - drop_bottom) as u64)
}

} // verus!
