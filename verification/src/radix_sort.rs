//! Least-significant-digit radix sort over 32-bit keys with paired values.
//!
//! The sort mirrors the three per-pass stages of the simulation's parallel
//! sorter: a counting pass that histograms one 8-bit digit block, an
//! exclusive prefix scan of the 256 bucket counters, and a stable reorder
//! (scatter) pass. Four passes over successive digit blocks sort the full
//! 32-bit key ascending while carrying each key's paired value along.

use vstd::prelude::*;
use vstd::arithmetic::power::pow;

verus! {

/// One sortable record: a 32-bit cell key paired with a particle index.
#[derive(Clone, Copy, PartialEq, Eq, Structural, Debug)]
pub struct KeyVal {
    pub key: u32,
    pub val: u32,
}

/// Digit-block width in bits; 2^8 = 256 buckets per pass.
pub const RADIX_BITS: u32 = 8;

/// Number of buckets per pass.
pub const BUCKET_CNT: usize = 256;

/// Number of passes needed to cover a 32-bit key: ceil(32 / 8).
pub const PASS_CNT: u32 = 4;

/// The digit of `k` examined by pass `p`: base-256 digit number `p`.
pub open spec fn digit_spec(k: u32, p: int) -> int {
    (k as int / pow(256, p as nat)) % 256
}

/// The part of `k` below pass `p`: `k` modulo 256^p.
pub open spec fn low_spec(k: u32, p: int) -> int {
    (k as int) % pow(256, p as nat)
}

/// The values of 256^p for the pass indices in use.
pub proof fn lemma_pass_bases()
    ensures
        pow(256, 0nat) == 1,
        pow(256, 1nat) == 0x100,
        pow(256, 2nat) == 0x10000,
        pow(256, 3nat) == 0x1000000,
        pow(256, 4nat) == 0x1_0000_0000,
{
    vstd::arithmetic::power::lemma_pow0(256);
    vstd::arithmetic::power::lemma_pow1(256);
    vstd::arithmetic::power::lemma_pow_adds(256, 1nat, 1nat);
    vstd::arithmetic::power::lemma_pow_adds(256, 2nat, 1nat);
    vstd::arithmetic::power::lemma_pow_adds(256, 3nat, 1nat);
}

/// 256^p for the four pass indices, as an executable constant.
pub fn pass_base(pass: u32) -> (m: u32)
    requires
        pass < 4,
    ensures
        m as int == pow(256, pass as nat),
        m > 0,
{
    proof {
        lemma_pass_bases();
    }
    if pass == 0 {
        1
    } else if pass == 1 {
        0x100
    } else if pass == 2 {
        0x10000
    } else {
        0x1000000
    }
}

/// Extract the base-256 digit of `k` for the given pass.
pub fn digit(k: u32, pass: u32) -> (d: u32)
    requires
        pass < 4,
    ensures
        d as int == digit_spec(k, pass as int),
        d < 256,
{
    let m = pass_base(pass);
    (k / m) % 256
}

/// How many records in `s` have digit `d` at pass `p`.
pub open spec fn count_digit(s: Seq<KeyVal>, p: int, d: int) -> int
    decreases s.len(),
{
    if s.len() == 0 {
        0
    } else {
        count_digit(s.drop_last(), p, d) + if digit_spec(s.last().key, p) == d {
            1int
        } else {
            0int
        }
    }
}

pub proof fn lemma_count_digit_bounds(s: Seq<KeyVal>, p: int, d: int)
    ensures
        0 <= count_digit(s, p, d) <= s.len(),
    decreases s.len(),
{
    if s.len() > 0 {
        lemma_count_digit_bounds(s.drop_last(), p, d);
    }
}

/// Counting pass: histogram the pass's digit of every key into 256 buckets.
pub fn fill_counters(pairs: &Vec<KeyVal>, pass: u32) -> (counters: Vec<u32>)
    requires
        pass < 4,
        pairs@.len() <= u32::MAX,
    ensures
        counters@.len() == 256,
        forall|d: int|
            0 <= d < 256 ==> counters@[d] as int == count_digit(pairs@, pass as int, d),
{
    let mut counters: Vec<u32> = vec![0u32; 256];
    let mut i: usize = 0;
    while i < pairs.len()
        invariant
            pass < 4,
            pairs@.len() <= u32::MAX,
            i <= pairs@.len(),
            counters@.len() == 256,
            forall|d: int|
                0 <= d < 256 ==> counters@[d] as int == count_digit(
                    pairs@.take(i as int),
                    pass as int,
                    d,
                ),
        decreases pairs@.len() - i,
    {
        let ghost taken = pairs@.take(i as int);
        let ghost taken1 = pairs@.take(i + 1int);
        let d = digit(pairs[i].key, pass) as usize;
        proof {
            assert(taken1.drop_last() =~= taken);
            assert(taken1.last() == pairs@[i as int]);
            lemma_count_digit_bounds(taken, pass as int, d as int);
        }
        let c = counters[d];
        counters.set(d, c + 1);
        i = i + 1;
    }
    proof {
        assert(pairs@.take(pairs@.len() as int) =~= pairs@);
    }
    counters
}

/// Sum of the first `i` counters: the exclusive prefix sum's value at `i`.
pub open spec fn sum_counts(s: Seq<u32>, i: int) -> int
    decreases i,
{
    if i <= 0 {
        0
    } else {
        sum_counts(s, i - 1) + s[i - 1]
    }
}

pub proof fn lemma_sum_counts_monotonic(s: Seq<u32>, i: int, j: int)
    requires
        0 <= i <= j <= s.len(),
    ensures
        sum_counts(s, i) <= sum_counts(s, j),
    decreases j - i,
{
    if i < j {
        lemma_sum_counts_monotonic(s, i, j - 1);
    }
}

pub proof fn lemma_sum_counts_nonneg(s: Seq<u32>, i: int)
    requires
        0 <= i <= s.len(),
    ensures
        0 <= sum_counts(s, i),
    decreases i,
{
    if i > 0 {
        lemma_sum_counts_nonneg(s, i - 1);
    }
}

/// Exclusive prefix scan, in place: afterwards `counters[i]` is the sum of
/// the old values strictly before index `i`.
pub fn prescan(counters: &mut Vec<u32>)
    requires
        sum_counts(old(counters)@, old(counters)@.len() as int) <= u32::MAX,
    ensures
        final(counters)@.len() == old(counters)@.len(),
        forall|i: int|
            0 <= i < final(counters)@.len() ==> final(counters)@[i] as int == sum_counts(
                old(counters)@,
                i,
            ),
{
    let ghost orig = counters@;
    let n = counters.len();
    let mut running: u32 = 0;
    let mut i: usize = 0;
    while i < n
        invariant
            counters@.len() == n == orig.len(),
            i <= n,
            sum_counts(orig, n as int) <= u32::MAX,
            running as int == sum_counts(orig, i as int),
            forall|j: int| 0 <= j < i ==> counters@[j] as int == sum_counts(orig, j),
            forall|j: int| i <= j < n ==> counters@[j] == orig[j],
        decreases n - i,
    {
        let c = counters[i];
        counters.set(i, running);
        proof {
            lemma_sum_counts_nonneg(orig, i as int);
            lemma_sum_counts_monotonic(orig, i + 1, n as int);
        }
        running = running + c;
        i = i + 1;
    }
}

/// The records of `s` whose digit at pass `p` is `d`, in their order in `s`.
pub open spec fn filter_digit(s: Seq<KeyVal>, p: int, d: int) -> Seq<KeyVal>
    decreases s.len(),
{
    if s.len() == 0 {
        Seq::empty()
    } else if digit_spec(s.last().key, p) == d {
        filter_digit(s.drop_last(), p, d).push(s.last())
    } else {
        filter_digit(s.drop_last(), p, d)
    }
}

/// The concatenation of the digit buckets `0 .. d` of `s` at pass `p`: what
/// the scatter pass emits, bucket by bucket, in scanned-offset order.
pub open spec fn buckets_concat(s: Seq<KeyVal>, p: int, d: int) -> Seq<KeyVal>
    decreases d,
{
    if d <= 0 {
        Seq::empty()
    } else {
        buckets_concat(s, p, d - 1) + filter_digit(s, p, d - 1)
    }
}

/// Reorder (scatter) pass: emit the records bucket by bucket in ascending
/// digit order, preserving input order inside each bucket. This is the
/// sequential meaning of the scatter kernel, whose scanned bucket offsets
/// realize exactly this bucket-major placement.
pub fn reorder(pairs: &Vec<KeyVal>, pass: u32) -> (out: Vec<KeyVal>)
    requires
        pass < 4,
    ensures
        out@ == buckets_concat(pairs@, pass as int, 256),
{
    let n = pairs.len();
    let mut out: Vec<KeyVal> = Vec::new();
    let mut d: usize = 0;
    while d < 256
        invariant
            pass < 4,
            d <= 256,
            n == pairs@.len(),
            out@ == buckets_concat(pairs@, pass as int, d as int),
        decreases 256 - d,
    {
        let mut i: usize = 0;
        while i < n
            invariant
                pass < 4,
                d < 256,
                i <= n,
                n == pairs@.len(),
                out@ == buckets_concat(pairs@, pass as int, d as int) + filter_digit(
                    pairs@.take(i as int),
                    pass as int,
                    d as int,
                ),
            decreases n - i,
        {
            let ghost taken = pairs@.take(i as int);
            let ghost taken1 = pairs@.take(i + 1int);
            proof {
                assert(taken1.drop_last() =~= taken);
                assert(taken1.last() == pairs@[i as int]);
            }
            let kv = pairs[i];
            if digit(kv.key, pass) as usize == d {
                out.push(kv);
            }
            i = i + 1;
        }
        proof {
            assert(pairs@.take(n as int) =~= pairs@);
        }
        d = d + 1;
    }
    out
}

/// A bucket holds exactly as many records as the counting pass counts.
pub proof fn lemma_filter_digit_len(s: Seq<KeyVal>, p: int, d: int)
    ensures
        filter_digit(s, p, d).len() == count_digit(s, p, d),
    decreases s.len(),
{
    if s.len() > 0 {
        lemma_filter_digit_len(s.drop_last(), p, d);
    }
}

/// Law: the scatter pass emits bucket `d` exactly at the scanned offset.
/// With `counters` the counting pass's histogram of pass `p`, the
/// exclusive prefix sum that `prescan` writes into entry `d` equals the
/// offset at which `reorder` starts emitting the records of digit `d`.
pub proof fn lemma_scanned_offsets_locate_buckets(
    s: Seq<KeyVal>,
    counters: Seq<u32>,
    p: int,
    d: int,
)
    requires
        0 <= d <= counters.len(),
        forall|b: int| 0 <= b < counters.len() ==> (#[trigger] counters[b]) as int == count_digit(
            s,
            p,
            b,
        ),
    ensures
        buckets_concat(s, p, d).len() == sum_counts(counters, d),
    decreases d,
{
    if d > 0 {
        lemma_scanned_offsets_locate_buckets(s, counters, p, d - 1);
        lemma_filter_digit_len(s, p, d - 1);
    }
}

/// The records are sorted ascending by their low `p` base-256 digits.
pub open spec fn sorted_low(s: Seq<KeyVal>, p: int) -> bool {
    forall|i: int, j: int|
        0 <= i <= j < s.len() ==> low_spec(s[i].key, p) <= low_spec(s[j].key, p)
}

/// The records are sorted ascending by their full keys.
pub open spec fn sorted_keys(s: Seq<KeyVal>) -> bool {
    forall|i: int, j: int| 0 <= i <= j < s.len() ==> s[i].key <= s[j].key
}

/// The low digits of a key decompose into the pass digit and the lower part:
/// `k mod 256^(p+1) == digit * 256^p + (k mod 256^p)`.
pub proof fn lemma_low_decompose(k: u32, p: int)
    requires
        0 <= p,
    ensures
        low_spec(k, p + 1) == digit_spec(k, p) * pow(256, p as nat) + low_spec(k, p),
        0 <= low_spec(k, p) < pow(256, p as nat),
        0 <= digit_spec(k, p) < 256,
{
    let m = pow(256, p as nat);
    vstd::arithmetic::power::lemma_pow_positive(256, p as nat);
    vstd::arithmetic::div_mod::lemma_breakdown(k as int, m, 256);
    vstd::arithmetic::power::lemma_pow1(256);
    vstd::arithmetic::power::lemma_pow_adds(256, 1nat, p as nat);
    assert(pow(256, (p + 1) as nat) == 256 * m);
    vstd::arithmetic::mul::lemma_mul_is_commutative(m, 256);
    vstd::arithmetic::mul::lemma_mul_is_commutative(m, digit_spec(k, p));
    vstd::arithmetic::div_mod::lemma_mod_bound(k as int, m);
    vstd::arithmetic::div_mod::lemma_mod_bound((k as int) / m, 256);
    vstd::arithmetic::div_mod::lemma_div_pos_is_pos(k as int, m);
}

/// Every record of a digit bucket carries that digit.
pub proof fn lemma_filter_digit_all(s: Seq<KeyVal>, p: int, d: int)
    ensures
        forall|i: int|
            0 <= i < filter_digit(s, p, d).len() ==> digit_spec(
                #[trigger] filter_digit(s, p, d)[i].key,
                p,
            ) == d,
    decreases s.len(),
{
    if s.len() > 0 {
        let s0 = s.drop_last();
        lemma_filter_digit_all(s0, p, d);
        let f = filter_digit(s, p, d);
        let f0 = filter_digit(s0, p, d);
        assert forall|i: int| 0 <= i < f.len() implies digit_spec(f[i].key, p) == d by {
            if digit_spec(s.last().key, p) == d {
                assert(f == f0.push(s.last()));
                if i < f0.len() {
                    assert(f[i] == f0[i]);
                } else {
                    assert(f[i] == s.last());
                }
            } else {
                assert(f == f0);
            }
        }
    }
}

/// Bucket records inherit any upper bound on the low digits of `s`.
pub proof fn lemma_filter_digit_low_bound(s: Seq<KeyVal>, p: int, d: int, q: int, b: int)
    requires
        forall|i: int| 0 <= i < s.len() ==> low_spec(#[trigger] s[i].key, q) <= b,
    ensures
        forall|i: int|
            0 <= i < filter_digit(s, p, d).len() ==> low_spec(
                #[trigger] filter_digit(s, p, d)[i].key,
                q,
            ) <= b,
    decreases s.len(),
{
    if s.len() > 0 {
        let s0 = s.drop_last();
        assert(forall|i: int| 0 <= i < s0.len() ==> low_spec(#[trigger] s0[i].key, q) <= b);
        lemma_filter_digit_low_bound(s0, p, d, q, b);
        let f = filter_digit(s, p, d);
        let f0 = filter_digit(s0, p, d);
        assert forall|i: int| 0 <= i < f.len() implies low_spec(f[i].key, q) <= b by {
            if digit_spec(s.last().key, p) == d {
                assert(f == f0.push(s.last()));
                if i < f0.len() {
                    assert(f[i] == f0[i]);
                } else {
                    assert(f[i] == s.last());
                    assert(low_spec(s[s.len() - 1].key, q) <= b);
                }
            } else {
                assert(f == f0);
            }
        }
    }
}

/// A bucket preserves sortedness by the low digits.
pub proof fn lemma_filter_digit_sorted(s: Seq<KeyVal>, p: int, d: int, q: int)
    requires
        sorted_low(s, q),
    ensures
        sorted_low(filter_digit(s, p, d), q),
    decreases s.len(),
{
    if s.len() > 0 {
        let s0 = s.drop_last();
        assert(sorted_low(s0, q));
        lemma_filter_digit_sorted(s0, p, d, q);
        if digit_spec(s.last().key, p) == d {
            assert(forall|i: int|
                0 <= i < s0.len() ==> low_spec(#[trigger] s0[i].key, q) <= low_spec(
                    s.last().key,
                    q,
                ));
            lemma_filter_digit_low_bound(s0, p, d, q, low_spec(s.last().key, q));
        }
    }
}

/// Every record emitted before bucket `d` carries a digit below `d`.
pub proof fn lemma_buckets_concat_digit_range(s: Seq<KeyVal>, p: int, d: int)
    ensures
        forall|i: int|
            0 <= i < buckets_concat(s, p, d).len() ==> digit_spec(
                #[trigger] buckets_concat(s, p, d)[i].key,
                p,
            ) < d,
    decreases d,
{
    if d > 0 {
        lemma_buckets_concat_digit_range(s, p, d - 1);
        lemma_filter_digit_all(s, p, d - 1);
        let a = buckets_concat(s, p, d - 1);
        let b = filter_digit(s, p, d - 1);
        let t = buckets_concat(s, p, d);
        assert(t == a + b);
        assert forall|i: int| 0 <= i < t.len() implies digit_spec(t[i].key, p) < d by {
            if i < a.len() {
                assert(t[i] == a[i]);
            } else {
                assert(t[i] == b[i - a.len()]);
            }
        }
    }
}

/// The buckets of an empty input are empty.
pub proof fn lemma_buckets_concat_empty(p: int, d: int)
    ensures
        buckets_concat(Seq::<KeyVal>::empty(), p, d) =~= Seq::<KeyVal>::empty(),
    decreases d,
{
    if d > 0 {
        lemma_buckets_concat_empty(p, d - 1);
    }
}

/// Appending one record to the input inserts it into exactly one bucket.
pub proof fn lemma_buckets_concat_multiset_snoc(s: Seq<KeyVal>, x: KeyVal, p: int, d: int)
    ensures
        buckets_concat(s.push(x), p, d).to_multiset() =~= if digit_spec(x.key, p) < d {
            buckets_concat(s, p, d).to_multiset().insert(x)
        } else {
            buckets_concat(s, p, d).to_multiset()
        },
    decreases d,
{
    broadcast use vstd::multiset::group_multiset_axioms;

    if d > 0 {
        lemma_buckets_concat_multiset_snoc(s, x, p, d - 1);
        assert(s.push(x).drop_last() =~= s);
        let a1 = buckets_concat(s.push(x), p, d - 1);
        let b1 = filter_digit(s.push(x), p, d - 1);
        let a0 = buckets_concat(s, p, d - 1);
        let b0 = filter_digit(s, p, d - 1);
        vstd::seq_lib::lemma_multiset_commutative(a1, b1);
        vstd::seq_lib::lemma_multiset_commutative(a0, b0);
        if digit_spec(x.key, p) == d - 1 {
            assert(b1 =~= b0.push(x));
            vstd::seq_lib::to_multiset_build(b0, x);
        } else {
            assert(b1 =~= b0);
        }
    }
}

/// The concatenated buckets hold exactly the input records.
pub proof fn lemma_buckets_concat_multiset(s: Seq<KeyVal>, p: int)
    requires
        0 <= p,
    ensures
        buckets_concat(s, p, 256).to_multiset() =~= s.to_multiset(),
    decreases s.len(),
{
    broadcast use vstd::seq_lib::group_to_multiset_ensures;
    broadcast use vstd::multiset::group_multiset_axioms;

    if s.len() == 0 {
        assert(s =~= Seq::<KeyVal>::empty());
        lemma_buckets_concat_empty(p, 256);
    } else {
        let s0 = s.drop_last();
        let x = s.last();
        assert(s0.push(x) =~= s);
        lemma_buckets_concat_multiset(s0, p);
        lemma_buckets_concat_multiset_snoc(s0, x, p, 256);
        lemma_low_decompose(x.key, p);
    }
}

/// Scattering an input sorted by its low `p` digits yields an output sorted
/// by its low `p + 1` digits.
pub proof fn lemma_buckets_concat_sorted(s: Seq<KeyVal>, p: int, d: int)
    requires
        0 <= p,
        sorted_low(s, p),
        0 <= d,
    ensures
        sorted_low(buckets_concat(s, p, d), p + 1),
    decreases d,
{
    if d > 0 {
        lemma_buckets_concat_sorted(s, p, d - 1);
        lemma_buckets_concat_digit_range(s, p, d - 1);
        lemma_filter_digit_all(s, p, d - 1);
        lemma_filter_digit_sorted(s, p, d - 1, p);
        let a = buckets_concat(s, p, d - 1);
        let b = filter_digit(s, p, d - 1);
        let t = buckets_concat(s, p, d);
        assert(t == a + b);
        let m = pow(256, p as nat);
        assert forall|i: int, j: int| 0 <= i <= j < t.len() implies low_spec(t[i].key, p + 1)
            <= low_spec(t[j].key, p + 1) by {
            let ei = t[i];
            let ej = t[j];
            lemma_low_decompose(ei.key, p);
            lemma_low_decompose(ej.key, p);
            if j < a.len() {
                assert(low_spec(ei.key, p + 1) <= low_spec(ej.key, p + 1));
            } else if i >= a.len() {
                assert(ei == b[i - a.len()]);
                assert(ej == b[j - a.len()]);
                assert(digit_spec(ei.key, p) == d - 1 && digit_spec(ej.key, p) == d - 1);
                assert(low_spec(ei.key, p) <= low_spec(ej.key, p));
            } else {
                assert(ei == a[i]);
                assert(ej == b[j - a.len()]);
                let di = digit_spec(ei.key, p);
                let dj = digit_spec(ej.key, p);
                assert(di < d - 1 == dj);
                vstd::arithmetic::mul::lemma_mul_inequality(di + 1, dj, m);
                vstd::arithmetic::mul::lemma_mul_is_distributive_add_other_way(m, di, 1);
            }
        }
    }
}

/// Radix sort: four digit passes, least significant first. Afterwards the
/// keys are ascending and the multiset of (key, value) records is unchanged,
/// so every key keeps exactly its original set of paired values.
pub fn sort_pairs(pairs: &mut Vec<KeyVal>)
    ensures
        final(pairs)@.len() == old(pairs)@.len(),
        sorted_keys(final(pairs)@),
        final(pairs)@.to_multiset() == old(pairs)@.to_multiset(),
{
    let ghost orig = pairs@;
    proof {
        lemma_pass_bases();
        assert forall|i: int, j: int| 0 <= i <= j < orig.len() implies low_spec(orig[i].key, 0)
            <= low_spec(orig[j].key, 0) by {
            vstd::arithmetic::div_mod::lemma_mod_bound(orig[i].key as int, 1);
            vstd::arithmetic::div_mod::lemma_mod_bound(orig[j].key as int, 1);
        }
    }
    let mut pass: u32 = 0;
    while pass < 4
        invariant
            pass <= 4,
            pairs@.len() == orig.len(),
            sorted_low(pairs@, pass as int),
            pairs@.to_multiset() == orig.to_multiset(),
        decreases 4 - pass,
    {
        let ghost before = pairs@;
        let next = reorder(pairs, pass);
        proof {
            broadcast use vstd::seq_lib::group_to_multiset_ensures;

            lemma_buckets_concat_multiset(before, pass as int);
            lemma_buckets_concat_sorted(before, pass as int, 256);
            assert(next@.to_multiset().len() == next@.len());
            assert(before.to_multiset().len() == before.len());
        }
        *pairs = next;
        pass = pass + 1;
    }
    proof {
        lemma_pass_bases();
        assert forall|i: int, j: int| 0 <= i <= j < pairs@.len() implies pairs@[i].key
            <= pairs@[j].key by {
            vstd::arithmetic::div_mod::lemma_small_mod(pairs@[i].key as nat, 0x1_0000_0000);
            vstd::arithmetic::div_mod::lemma_small_mod(pairs@[j].key as nat, 0x1_0000_0000);
            assert(low_spec(pairs@[i].key, 4) <= low_spec(pairs@[j].key, 4));
        }
    }
}

} // verus!
