//! Fixed-point arithmetic helpers for the solver: truncating signed
//! division, clamping, and sums over index lists.

use vstd::prelude::*;

verus! {

/// Division rounding toward zero, as the hardware divides.
pub open spec fn div_trunc_spec(a: int, b: int) -> int {
    if a >= 0 {
        a / b
    } else {
        -((-a) / b)
    }
}

/// Truncating division of signed fixed-point words.
pub fn div_q(a: i128, b: i128) -> (r: i128)
    requires
        b > 0,
        a > i128::MIN,
    ensures
        r as int == div_trunc_spec(a as int, b as int),
{
    if a >= 0 {
        a / b
    } else {
        -((-a) / b)
    }
}

/// A bound on the dividend scales down through truncating division:
/// `|a| <= c * b` gives `|a / b| <= c`.
pub proof fn lemma_div_trunc_bound(a: int, b: int, c: int)
    requires
        b > 0,
        0 <= c,
        -(c * b) <= a <= c * b,
    ensures
        -c <= div_trunc_spec(a, b) <= c,
{
    if a >= 0 {
        vstd::arithmetic::div_mod::lemma_div_is_ordered(a, c * b, b);
        vstd::arithmetic::div_mod::lemma_div_by_multiple(c, b);
        vstd::arithmetic::div_mod::lemma_div_pos_is_pos(a, b);
    } else {
        vstd::arithmetic::div_mod::lemma_div_is_ordered(-a, c * b, b);
        vstd::arithmetic::div_mod::lemma_div_by_multiple(c, b);
        vstd::arithmetic::div_mod::lemma_div_pos_is_pos(-a, b);
    }
}

/// Truncating division of a nonnegative dividend is nonnegative.
pub proof fn lemma_div_trunc_nonneg(a: int, b: int)
    requires
        b > 0,
        a >= 0,
    ensures
        div_trunc_spec(a, b) >= 0,
        div_trunc_spec(a, b) == a / b,
{
    vstd::arithmetic::div_mod::lemma_div_pos_is_pos(a, b);
}

/// Clamp a wide word into a symmetric interval.
pub fn clamp_i128(a: i128, bound: i128) -> (r: i128)
    requires
        bound >= 0,
    ensures
        r as int == clamp_spec(a as int, bound as int),
        -bound <= r <= bound,
{
    if a < -bound {
        -bound
    } else if a > bound {
        bound
    } else {
        a
    }
}

/// The clamped value: `a` pulled into `[-bound, bound]`.
pub open spec fn clamp_spec(a: int, bound: int) -> int {
    if a < -bound {
        -bound
    } else if a > bound {
        bound
    } else {
        a
    }
}

/// Sum of `f` over the entries of an index list.
pub open spec fn seq_sum(s: Seq<u32>, f: spec_fn(int) -> int) -> int
    decreases s.len(),
{
    if s.len() == 0 {
        0
    } else {
        seq_sum(s.drop_last(), f) + f(s.last() as int)
    }
}

/// Sum of `f` over the indices `0 .. n` that satisfy `pred`.
pub open spec fn range_sum(n: int, f: spec_fn(int) -> int, pred: spec_fn(int) -> bool) -> int
    decreases n,
{
    if n <= 0 {
        0
    } else {
        range_sum(n - 1, f, pred) + if pred(n - 1) {
            f(n - 1)
        } else {
            0
        }
    }
}

/// Removing one entry takes its term out of the sum.
pub proof fn lemma_seq_sum_remove(s: Seq<u32>, i: int, f: spec_fn(int) -> int)
    requires
        0 <= i < s.len(),
    ensures
        seq_sum(s.remove(i), f) == seq_sum(s, f) - f(s[i] as int),
    decreases s.len(),
{
    if i == s.len() - 1 {
        assert(s.remove(i) =~= s.drop_last());
    } else {
        assert(s.remove(i).drop_last() =~= s.drop_last().remove(i));
        assert(s.remove(i).last() == s.last());
        lemma_seq_sum_remove(s.drop_last(), i, f);
    }
}

/// A duplicate-free index list whose membership is exactly `v < n && pred(v)`
/// sums to the guarded range sum: summation order does not matter.
pub proof fn lemma_seq_sum_by_membership(
    s: Seq<u32>,
    n: int,
    f: spec_fn(int) -> int,
    pred: spec_fn(int) -> bool,
)
    requires
        0 <= n <= u32::MAX + 1,
        s.no_duplicates(),
        forall|v: u32| s.contains(v) <==> ((v as int) < n && pred(v as int)),
    ensures
        seq_sum(s, f) == range_sum(n, f, pred),
    decreases n,
{
    if n == 0 {
        if s.len() > 0 {
            assert(s.contains(s[0]));
            assert(false);
        }
    } else {
        let w = (n - 1) as u32;
        if pred(n - 1) {
            assert(s.contains(w));
            let i = choose|i: int| 0 <= i < s.len() && s[i] == w;
            let s2 = s.remove(i);
            lemma_seq_sum_remove(s, i, f);
            assert forall|j1: int, j2: int|
                0 <= j1 < s2.len() && 0 <= j2 < s2.len() && j1 != j2 implies s2[j1] != s2[j2] by {
                let k1 = if j1 < i {
                    j1
                } else {
                    j1 + 1
                };
                let k2 = if j2 < i {
                    j2
                } else {
                    j2 + 1
                };
                assert(s2[j1] == s[k1] && s2[j2] == s[k2]);
            }
            assert forall|v: u32| s2.contains(v) <==> ((v as int) < n - 1 && pred(v as int)) by {
                if s2.contains(v) {
                    let j = choose|j: int| 0 <= j < s2.len() && s2[j] == v;
                    if j < i {
                        assert(s[j] == v);
                        assert(v != w);
                    } else {
                        assert(s[j + 1] == v);
                        assert(v != w);
                    }
                    assert(s.contains(v));
                }
                if (v as int) < n - 1 && pred(v as int) {
                    assert(s.contains(v));
                    let j = choose|j: int| 0 <= j < s.len() && s[j] == v;
                    assert(j != i);
                    if j < i {
                        assert(s2[j] == v);
                    } else {
                        assert(s2[j - 1] == v);
                    }
                    assert(s2.contains(v));
                }
            }
            lemma_seq_sum_by_membership(s2, n - 1, f, pred);
        } else {
            assert forall|v: u32| s.contains(v) <==> ((v as int) < n - 1 && pred(v as int)) by {
                if s.contains(v) {
                    assert((v as int) < n && pred(v as int));
                    assert(v != w);
                }
            }
            lemma_seq_sum_by_membership(s, n - 1, f, pred);
        }
    }
}

/// A duplicate-free list of indices below `n` has at most `n` entries.
pub proof fn lemma_bounded_distinct_len(s: Seq<u32>, n: int)
    requires
        0 <= n <= u32::MAX + 1,
        s.no_duplicates(),
        forall|i: int| 0 <= i < s.len() ==> ((#[trigger] s[i]) as int) < n,
    ensures
        s.len() <= n,
    decreases n,
{
    if n == 0 {
        if s.len() > 0 {
            assert((s[0] as int) < 0);
        }
    } else {
        let w = (n - 1) as u32;
        if s.contains(w) {
            let i = choose|i: int| 0 <= i < s.len() && s[i] == w;
            let s2 = s.remove(i);
            assert forall|j1: int, j2: int|
                0 <= j1 < s2.len() && 0 <= j2 < s2.len() && j1 != j2 implies s2[j1] != s2[j2] by {
                let k1 = if j1 < i {
                    j1
                } else {
                    j1 + 1
                };
                let k2 = if j2 < i {
                    j2
                } else {
                    j2 + 1
                };
                assert(s2[j1] == s[k1] && s2[j2] == s[k2]);
            }
            assert forall|j: int| 0 <= j < s2.len() implies ((#[trigger] s2[j]) as int) < n - 1 by {
                let k = if j < i {
                    j
                } else {
                    j + 1
                };
                assert(s2[j] == s[k]);
                assert(s[k] != w);
            }
            lemma_bounded_distinct_len(s2, n - 1);
        } else {
            assert forall|j: int| 0 <= j < s.len() implies ((#[trigger] s[j]) as int) < n - 1 by {
                assert(s.contains(s[j]));
                assert(s[j] != w);
            }
            lemma_bounded_distinct_len(s, n - 1);
        }
    }
}

/// A sum of nonnegative terms is nonnegative.
pub proof fn lemma_seq_sum_nonneg(s: Seq<u32>, f: spec_fn(int) -> int)
    requires
        forall|i: int| 0 <= i < s.len() ==> #[trigger] f(s[i] as int) >= 0,
    ensures
        seq_sum(s, f) >= 0,
    decreases s.len(),
{
    if s.len() > 0 {
        let s0 = s.drop_last();
        assert(forall|i: int| 0 <= i < s0.len() ==> #[trigger] f(s0[i] as int) >= 0);
        lemma_seq_sum_nonneg(s0, f);
    }
}

/// A sum of nonnegative terms dominates any single term of the list.
pub proof fn lemma_seq_sum_element_lower(s: Seq<u32>, f: spec_fn(int) -> int, v: u32)
    requires
        forall|i: int| 0 <= i < s.len() ==> #[trigger] f(s[i] as int) >= 0,
        s.contains(v),
    ensures
        seq_sum(s, f) >= f(v as int),
    decreases s.len(),
{
    let s0 = s.drop_last();
    if s.last() == v {
        assert(forall|i: int| 0 <= i < s0.len() ==> #[trigger] f(s0[i] as int) >= 0);
        lemma_seq_sum_nonneg(s0, f);
    } else {
        let i = choose|i: int| 0 <= i < s.len() && s[i] == v;
        assert(i < s.len() - 1);
        assert(s0[i] == v);
        assert(s0.contains(v));
        assert(forall|i: int| 0 <= i < s0.len() ==> #[trigger] f(s0[i] as int) >= 0);
        lemma_seq_sum_element_lower(s0, f, v);
    }
}

} // verus!
