use vstd::prelude::*;
use vstd::relations::{sorted_by, total_ordering};
use vstd::seq_lib::lemma_sorted_unique;

verus! {

broadcast use vstd::seq_lib::group_to_multiset_ensures;

/// The order in which latencies are ranked.
pub open spec fn ascending() -> spec_fn(u64, u64) -> bool {
    |a: u64, b: u64| a <= b
}

/// The latencies `s` in ascending order.
pub open spec fn ranked(s: Seq<u64>) -> Seq<u64> {
    s.sort_by(ascending())
}

/// `x / d` rounded to the nearest integer, halves rounded up.
pub open spec fn round_div(x: nat, d: nat) -> nat
    recommends
        d > 0,
{
    (2 * x + d) / (2 * d)
}

/// The nearest-rank index of the `percent`-th percentile in a sorted list of
/// `len > 0` items: `ceil(len * percent / 100) - 1`, clamped to `0 .. len - 1`.
pub open spec fn rank_index(len: nat, percent: nat) -> int {
    let rank = (len * percent + 99) / 100;
    if rank == 0 {
        0
    } else if rank > len {
        len - 1
    } else {
        rank - 1
    }
}

/// The `percent`-th percentile of the sorted list `sorted`, or 0 for an empty list.
pub open spec fn percentile_of(sorted: Seq<u64>, percent: nat) -> u64 {
    if sorted.len() == 0 {
        0
    } else {
        sorted[rank_index(sorted.len(), percent)]
    }
}

/// The sum of `s`.
pub open spec fn total(s: Seq<u64>) -> nat
    decreases s.len(),
{
    if s.len() == 0 {
        0
    } else {
        total(s.drop_last()) + s.last() as nat
    }
}

/// `ascending()` is a total order.
pub proof fn lemma_ascending_total()
    ensures
        total_ordering(ascending()),
{
}

/// `ranked(s)` is sorted, holds the items of `s`, and is the only such sequence.
pub proof fn lemma_ranked(s: Seq<u64>)
    ensures
        sorted_by(ranked(s), ascending()),
        ranked(s).to_multiset() == s.to_multiset(),
        ranked(s).len() == s.len(),
        forall|t: Seq<u64>|
            sorted_by(t, ascending()) && #[trigger] t.to_multiset() == s.to_multiset() ==> t
                == ranked(s),
{
    lemma_ascending_total();
    s.lemma_sort_by_ensures(ascending());
    assert(ranked(s).to_multiset().len() == s.to_multiset().len());
    assert forall|t: Seq<u64>|
        sorted_by(t, ascending()) && #[trigger] t.to_multiset() == s.to_multiset() implies t
        == ranked(s) by {
        lemma_sorted_unique(t, ranked(s), ascending());
    }
}

/// Rounding is monotone in the dividend.
pub proof fn lemma_round_div_monotone(x: nat, y: nat, d: nat)
    requires
        x <= y,
        d > 0,
    ensures
        round_div(x, d) <= round_div(y, d),
{
    assert(2 * x + d <= 2 * y + d);
    vstd::arithmetic::div_mod::lemma_div_is_ordered((2 * x + d) as int, (2 * y + d) as int, (2 * d) as int);
}

/// Rounding a quotient never gives more than the dividend.
pub proof fn lemma_round_div_le(x: nat, d: nat)
    requires
        d > 0,
    ensures
        round_div(x, d) <= x,
{
    assert(2 * x + d < (2 * d) * (x + 1)) by (nonlinear_arith)
        requires
            d > 0,
    ;
    vstd::arithmetic::div_mod::lemma_multiply_divide_lt((2 * x + d) as int, (2 * d) as int, (x + 1) as int);
}

/// A larger percentile never has a smaller rank.
pub proof fn lemma_rank_index_monotone(len: nat, p: nat, q: nat)
    requires
        len > 0,
        p <= q,
    ensures
        0 <= rank_index(len, p) <= rank_index(len, q) < len,
{
    assert(len * p <= len * q) by (nonlinear_arith)
        requires
            p <= q,
    ;
    vstd::arithmetic::div_mod::lemma_div_is_ordered((len * p + 99) as int, (len * q + 99) as int, 100);
}

/// `x / d` rounded half up, computed without overflow.
pub fn round_div_u128(x: u128, d: u128) -> (r: u128)
    requires
        d > 0,
    ensures
        r == round_div(x as nat, d as nat),
{
    let q = x / d;
    let m = x % d;
    proof {
        let (xi, di, qi, mi) = (x as int, d as int, q as int, m as int);
        vstd::arithmetic::div_mod::lemma_fundamental_div_mod(xi, di);
        assert(2 * xi + di == (2 * di) * qi + (2 * mi + di)) by (nonlinear_arith)
            requires
                xi == di * qi + mi,
        ;
        let c: int = if 2 * mi >= di { 1 } else { 0 };
        assert(2 * xi + di == (qi + c) * (2 * di) + (2 * mi + di - 2 * di * c)) by (nonlinear_arith)
            requires
                2 * xi + di == (2 * di) * qi + (2 * mi + di),
        ;
        vstd::arithmetic::div_mod::lemma_fundamental_div_mod_converse(
            2 * xi + di,
            2 * di,
            qi + c,
            2 * mi + di - 2 * di * c,
        );
        if d >= 2 {
            assert(qi <= xi / 2) by (nonlinear_arith)
                requires
                    xi == di * qi + mi,
                    di >= 2,
                    mi >= 0,
                    qi >= 0,
            ;
        }
    }
    if m >= d - m {
        q + 1
    } else {
        q
    }
}

/// The rounded mean of `n` values no larger than `m` is no larger than `m` rounded.
pub proof fn lemma_round_mean_bounded(sum: nat, n: nat, m: nat, d: nat)
    requires
        n > 0,
        d > 0,
        sum <= n * m,
    ensures
        round_div(sum, d * n) <= round_div(m, d),
{
    let a = 2 * m + d;
    let q = round_div(m, d);
    vstd::arithmetic::div_mod::lemma_fundamental_div_mod(a as int, (2 * d) as int);
    vstd::arithmetic::div_mod::lemma_mod_pos_bound(a as int, (2 * d) as int);
    let r: int = a as int % (2 * d) as int;
    assert(q == a / (2 * d));
    assert(a == (2 * d) * q + r);
    assert(a < (2 * d) * (q + 1)) by (nonlinear_arith)
        requires
            a == (2 * d) * q + r,
            r < 2 * d,
    ;
    assert(2 * d * n > 0) by (nonlinear_arith)
        requires
            d > 0,
            n > 0,
    ;
    assert(2 * sum + d * n < (2 * d * n) * (q + 1)) by (nonlinear_arith)
        requires
            sum <= n * m,
            a == 2 * m + d,
            a < (2 * d) * (q + 1),
            n > 0,
    ;
    vstd::arithmetic::div_mod::lemma_multiply_divide_lt(
        (2 * sum + d * n) as int,
        (2 * d * n) as int,
        (q + 1) as int,
    );
    assert(2 * (d * n) == 2 * d * n) by (nonlinear_arith);
}

/// The latencies of `v` in ascending order.
pub fn sort_latencies(v: &Vec<u64>) -> (r: Vec<u64>)
    ensures
        r@ == ranked(v@),
{
    let mut out: Vec<u64> = Vec::new();
    let mut i: usize = 0;
    while i < v.len()
        invariant
            i <= v.len(),
            sorted_by(out@, ascending()),
            out@.to_multiset() == v@.subrange(0, i as int).to_multiset(),
        decreases v.len() - i,
    {
        let x = v[i];
        let mut j: usize = 0;
        while j < out.len() && out[j] <= x
            invariant
                j <= out.len(),
                forall|k: int| 0 <= k < j ==> out@[k] <= x,
            decreases out.len() - j,
        {
            j = j + 1;
        }
        let ghost before = out@;
        out.insert(j, x);
        assert(sorted_by(out@, ascending())) by {
            assert forall|a: int, b: int| 0 <= a < b < out@.len() implies #[trigger] (ascending())(
                out@[a],
                out@[b],
            ) by {
                if j < before.len() {
                    assert(before[j as int] > x);
                }
                assert(sorted_by(before, ascending()));
                if b < j {
                    assert((ascending())(before[a], before[b]));
                } else if a < j && b == j {
                } else if a < j && b > j {
                    assert((ascending())(before[a], before[b - 1]));
                } else if a == j {
                    assert((ascending())(before[j as int], before[b - 1]));
                } else {
                    assert((ascending())(before[a - 1], before[b - 1]));
                }
            }
        }
        assert(v@.subrange(0, i + 1) == v@.subrange(0, i as int).push(x));
        i = i + 1;
    }
    assert(v@.subrange(0, v@.len() as int) == v@);
    proof {
        lemma_ranked(v@);
    }
    out
}

/// The `percent`-th percentile of `sorted_data` by nearest rank, or 0 when it is empty.
pub fn percentile(sorted_data: &[u64], percent: u64) -> (r: u64)
    ensures
        r == percentile_of(sorted_data@, percent as nat),
{
    let len = sorted_data.len();
    if len == 0 {
        return 0;
    }
    if percent >= 100 {
        assert((len * percent + 99) / 100 >= len) by (nonlinear_arith)
            requires
                percent >= 100,
        ;
        return sorted_data[len - 1];
    }
    assert(len as nat * percent as nat + 99 <= u128::MAX) by (nonlinear_arith)
        requires
            percent < 100,
            len <= usize::MAX,
    ;
    let rank = (len as u128 * percent as u128 + 99) / 100;
    assert(rank <= len) by (nonlinear_arith)
        requires
            rank == (len * percent + 99) / 100,
            percent < 100,
    ;
    let index: usize = if rank == 0 {
        0
    } else {
        (rank - 1) as usize
    };
    sorted_data[index]
}

/// The sum of the latencies in `v`.
pub fn sum_latencies(v: &Vec<u64>) -> (r: u128)
    ensures
        r == total(v@),
        r <= v@.len() * (u64::MAX as nat),
{
    let mut acc: u128 = 0;
    let mut i: usize = 0;
    while i < v.len()
        invariant
            i <= v.len(),
            acc == total(v@.subrange(0, i as int)),
            acc <= i * (u64::MAX as nat),
        decreases v.len() - i,
    {
        assert(v@.subrange(0, i + 1).drop_last() == v@.subrange(0, i as int));
        assert(acc + v[i as int] <= (i + 1) * (u64::MAX as nat)) by (nonlinear_arith)
            requires
                acc <= i * (u64::MAX as nat),
                v[i as int] <= u64::MAX,
        ;
        assert((i + 1) * (u64::MAX as nat) <= u128::MAX) by (nonlinear_arith)
            requires
                i < usize::MAX,
        ;
        acc = acc + v[i] as u128;
        i = i + 1;
    }
    assert(v@.subrange(0, v@.len() as int) == v@);
    acc
}

} // verus!
