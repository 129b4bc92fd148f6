use vstd::prelude::*;

use crate::index::TryIntoIndex;
use crate::order::{
    count_at, count_below, dist, hist_slot, key_pred, sorted_by_key, stable_permutation_of,
    sum_first, with_key,
};

verus! {

/// Filtering by key never produces more elements than the sequence holds.
pub proof fn lemma_with_key_len<T: TryIntoIndex>(s: Seq<T>, k: int)
    ensures
        with_key(s, k).len() <= s.len(),
{
    s.lemma_filter_len(key_pred::<T>(k));
}

/// Appending an element extends exactly the run of its own key.
pub proof fn lemma_with_key_push<T: TryIntoIndex>(s: Seq<T>, k: int, v: T)
    ensures
        with_key(s.push(v), k) == if v.ord_key() == k {
            with_key(s, k).push(v)
        } else {
            with_key(s, k)
        },
{
    s.lemma_filter_push(v, key_pred::<T>(k));
}

/// Every element of the run of key `k` has key `k`.
pub proof fn lemma_with_key_pred<T: TryIntoIndex>(s: Seq<T>, k: int, i: int)
    requires
        0 <= i < with_key(s, k).len(),
    ensures
        with_key(s, k)[i].ord_key() == k,
{
    s.lemma_filter_pred(key_pred::<T>(k), i);
}

/// A sequence whose elements all have key `k` is its own run of key `k`.
pub proof fn lemma_with_key_id<T: TryIntoIndex>(s: Seq<T>, k: int)
    requires
        forall|i: int| 0 <= i < s.len() ==> #[trigger] s[i].ord_key() == k,
    ensures
        with_key(s, k) == s,
    decreases s.len(),
{
    if s.len() == 0 {
        lemma_with_key_len(s, k);
        assert(with_key(s, k) =~= s);
    } else {
        let s0 = s.drop_last();
        lemma_with_key_id(s0, k);
        lemma_with_key_push(s0, k, s.last());
        assert(s0.push(s.last()) =~= s);
    }
}

/// A sequence none of whose elements has key `k` has an empty run of key `k`.
pub proof fn lemma_with_key_none<T: TryIntoIndex>(s: Seq<T>, k: int)
    requires
        forall|i: int| 0 <= i < s.len() ==> #[trigger] s[i].ord_key() != k,
    ensures
        with_key(s, k) == Seq::<T>::empty(),
{
    if with_key(s, k).len() > 0 {
        let x = with_key(s, k)[0];
        lemma_with_key_pred(s, k, 0);
        assert(with_key(s, k).contains(x));
        s.lemma_filter_contains_rev(key_pred::<T>(k), x);
        let i = choose|i: int| 0 <= i < s.len() && s[i] == x;
        assert(false);
    }
    assert(with_key(s, k) =~= Seq::<T>::empty());
}

/// Filtering by key distributes over concatenation.
pub proof fn lemma_with_key_distributes<T: TryIntoIndex>(a: Seq<T>, b: Seq<T>, k: int)
    ensures
        with_key(a + b, k) == with_key(a, k) + with_key(b, k),
{
    Seq::<T>::filter_distributes_over_add(a, b, key_pred::<T>(k));
}

/// A prefix holds at most as many elements of any one key as the whole
/// sequence.
pub proof fn lemma_with_key_take_len<T: TryIntoIndex>(s: Seq<T>, k: int, t: int)
    requires
        0 <= t <= s.len(),
    ensures
        with_key(s.take(t), k).len() <= with_key(s, k).len(),
{
    s.lemma_filter_take_len(key_pred::<T>(k), t);
}

/// `count_below` never decreases as the cut-off distance grows.
pub proof fn lemma_count_below_mono<T: TryIntoIndex>(s: Seq<T>, mn: T, c1: int, c2: int)
    requires
        c1 <= c2,
    ensures
        count_below(s, mn, c1) <= count_below(s, mn, c2),
    decreases c2 - c1,
{
    if c1 < c2 {
        lemma_count_below_mono(s, mn, c1, c2 - 1);
    }
}

/// Appending an element raises `count_below` by one exactly for the cut-offs
/// above the element's own distance.
pub proof fn lemma_count_below_push<T: TryIntoIndex>(s: Seq<T>, mn: T, cap: int, v: T)
    ensures
        count_below(s.push(v), mn, cap) == count_below(s, mn, cap) + if 0 <= dist(v, mn) < cap {
            1int
        } else {
            0int
        },
    decreases cap,
{
    if cap > 0 {
        lemma_count_below_push(s, mn, cap - 1, v);
        lemma_with_key_push(s, mn.ord_key() + (cap - 1), v);
    }
}

/// An empty sequence has nothing below any cut-off.
pub proof fn lemma_count_below_empty<T: TryIntoIndex>(s: Seq<T>, mn: T, cap: int)
    requires
        s.len() == 0,
    ensures
        count_below(s, mn, cap) == 0,
    decreases cap,
{
    if cap > 0 {
        lemma_count_below_empty(s, mn, cap - 1);
        lemma_with_key_len(s, mn.ord_key() + (cap - 1));
    }
}

/// When every element lies below the cut-off, `count_below` counts the whole
/// sequence.
pub proof fn lemma_count_below_all<T: TryIntoIndex>(s: Seq<T>, mn: T, cap: int)
    requires
        forall|i: int| 0 <= i < s.len() ==> 0 <= dist(#[trigger] s[i], mn) < cap,
    ensures
        count_below(s, mn, cap) == s.len(),
    decreases s.len(),
{
    if s.len() == 0 {
        lemma_count_below_empty(s, mn, cap);
    } else {
        let s0 = s.drop_last();
        assert(forall|i: int| 0 <= i < s0.len() ==> 0 <= dist(#[trigger] s0[i], mn) < cap);
        lemma_count_below_all(s0, mn, cap);
        lemma_count_below_push(s0, mn, cap, s.last());
        assert(s0.push(s.last()) =~= s);
    }
}

/// The prefix before position `t` holds strictly fewer elements of the key of
/// `s[t]` than the whole sequence does.
pub proof fn lemma_count_at_take_lt<T: TryIntoIndex>(s: Seq<T>, mn: T, t: int)
    requires
        0 <= t < s.len(),
    ensures
        count_at(s.take(t), mn, dist(s[t], mn)) < count_at(s, mn, dist(s[t], mn)),
{
    let k = s[t].ord_key();
    assert(mn.ord_key() + dist(s[t], mn) == k);
    assert(s.take(t + 1) =~= s.take(t).push(s[t]));
    lemma_with_key_push(s.take(t), k, s[t]);
    lemma_with_key_take_len(s, k, t + 1);
}

/// Summing the histogram slots up to and including slot `j` yields the
/// number of elements below distance `j`: the prefix-sum pass computes
/// `count_below`.
pub proof fn lemma_sum_first_hist<T: TryIntoIndex>(h: Seq<usize>, s: Seq<T>, mn: T, j: int)
    requires
        forall|j2: int| 0 <= j2 < h.len() ==> h[j2] == hist_slot(s, mn, j2),
        0 <= j < h.len(),
    ensures
        sum_first(h, j + 1) == count_below(s, mn, j),
    decreases j,
{
    assert(sum_first(h, j + 1) == sum_first(h, j) + h[j]);
    assert(h[j] == hist_slot(s, mn, j));
    if j == 0 {
        assert(sum_first(h, 0) == 0);
        assert(count_below(s, mn, 0) == 0);
    } else {
        lemma_sum_first_hist(h, s, mn, j - 1);
        assert(count_below(s, mn, j) == count_below(s, mn, j - 1) + count_at(s, mn, j - 1));
    }
}

/// The runs of the keys at distance `0, 1, .., c - 1` from `mn`, one after
/// the other: the shape of a counting-sorted sequence.
pub open spec fn segments_concat<T: TryIntoIndex>(s: Seq<T>, mn: T, c: int) -> Seq<T>
    decreases c,
{
    if c <= 0 {
        Seq::empty()
    } else {
        segments_concat(s, mn, c - 1) + with_key(s, mn.ord_key() + (c - 1))
    }
}

/// A sequence whose slice between `count_below(c')` and `count_below(c' + 1)`
/// is the run of key distance `c'`, for every `c'` below `c`, starts with the
/// concatenation of those runs.
pub proof fn lemma_segments_cover<T: TryIntoIndex>(s: Seq<T>, mn: T, out: Seq<T>, c: int)
    requires
        0 <= c,
        count_below(s, mn, c) <= out.len(),
        forall|c2: int|
            #![trigger count_below(s, mn, c2)]
            0 <= c2 < c ==> out.subrange(
                count_below(s, mn, c2) as int,
                count_below(s, mn, c2 + 1) as int,
            ) == with_key(s, mn.ord_key() + c2),
    ensures
        out.subrange(0, count_below(s, mn, c) as int) == segments_concat(s, mn, c),
    decreases c,
{
    if c == 0 {
        assert(out.subrange(0, 0) =~= Seq::<T>::empty());
    } else {
        lemma_count_below_mono(s, mn, c - 1, c);
        lemma_segments_cover(s, mn, out, c - 1);
        let lo = count_below(s, mn, c - 1) as int;
        let hi = count_below(s, mn, c) as int;
        assert(out.subrange(0, hi) =~= out.subrange(0, lo) + out.subrange(lo, hi));
    }
}

/// The concatenated runs are sorted by key, and every key in them lies
/// between `mn`'s key and the last distance covered.
pub proof fn lemma_segments_sorted<T: TryIntoIndex>(s: Seq<T>, mn: T, c: int)
    ensures
        sorted_by_key(segments_concat(s, mn, c)),
        forall|i: int|
            0 <= i < segments_concat(s, mn, c).len() ==> mn.ord_key() <= #[trigger] segments_concat(
                s,
                mn,
                c,
            )[i].ord_key() <= mn.ord_key() + c - 1,
    decreases c,
{
    if c > 0 {
        lemma_segments_sorted(s, mn, c - 1);
        let prev = segments_concat(s, mn, c - 1);
        let seg = with_key(s, mn.ord_key() + (c - 1));
        let whole = segments_concat(s, mn, c);
        assert(whole == prev + seg);
        assert forall|i: int| 0 <= i < seg.len() implies seg[i].ord_key() == mn.ord_key() + (c
            - 1) by {
            lemma_with_key_pred(s, mn.ord_key() + (c - 1), i);
        }
        assert forall|i: int, j: int|
            #![trigger whole[i], whole[j]]
            0 <= i <= j < whole.len() implies whole[i].ord_key() <= whole[j].ord_key() by {
            if i < prev.len() && j >= prev.len() {
                assert(whole[i] == prev[i]);
                assert(whole[j] == seg[j - prev.len()]);
            }
        }
    }
}

/// Filtering a run by key keeps it whole or empties it.
pub proof fn lemma_with_key_of_with_key<T: TryIntoIndex>(s: Seq<T>, k1: int, k2: int)
    ensures
        with_key(with_key(s, k1), k2) == if k1 == k2 {
            with_key(s, k1)
        } else {
            Seq::<T>::empty()
        },
{
    let inner = with_key(s, k1);
    assert forall|i: int| 0 <= i < inner.len() implies #[trigger] inner[i].ord_key() == k1 by {
        lemma_with_key_pred(s, k1, i);
    }
    if k1 == k2 {
        lemma_with_key_id(inner, k2);
    } else {
        lemma_with_key_none(inner, k2);
    }
}

/// The run of key `k` in the concatenated runs is the run of key `k` in the
/// original sequence when `k` is covered, and empty otherwise.
pub proof fn lemma_with_key_segments<T: TryIntoIndex>(s: Seq<T>, mn: T, c: int, k: int)
    ensures
        with_key(segments_concat(s, mn, c), k) == if mn.ord_key() <= k < mn.ord_key() + c {
            with_key(s, k)
        } else {
            Seq::<T>::empty()
        },
    decreases c,
{
    if c <= 0 {
        lemma_with_key_len(segments_concat(s, mn, c), k);
        assert(with_key(segments_concat(s, mn, c), k) =~= Seq::<T>::empty());
    } else {
        lemma_with_key_segments(s, mn, c - 1, k);
        lemma_with_key_distributes(segments_concat(s, mn, c - 1), with_key(s, mn.ord_key() + (c - 1)), k);
        lemma_with_key_of_with_key(s, mn.ord_key() + (c - 1), k);
        if mn.ord_key() <= k < mn.ord_key() + c {
            if k == mn.ord_key() + (c - 1) {
                assert(Seq::<T>::empty() + with_key(s, k) =~= with_key(s, k));
            } else {
                assert(with_key(s, k) + Seq::<T>::empty() =~= with_key(s, k));
            }
        } else {
            assert(Seq::<T>::empty() + Seq::<T>::empty() =~= Seq::<T>::empty());
        }
    }
}

/// Filtering by the key of `x` does not change how often `x` occurs.
pub proof fn lemma_with_key_multiset_count<T: TryIntoIndex>(s: Seq<T>, x: T)
    ensures
        with_key(s, x.ord_key()).to_multiset().count(x) == s.to_multiset().count(x),
    decreases s.len(),
{
    broadcast use vstd::seq_lib::group_to_multiset_ensures;

    let k = x.ord_key();
    if s.len() == 0 {
        lemma_with_key_len(s, k);
        assert(with_key(s, k) =~= s);
    } else {
        let s0 = s.drop_last();
        let last = s.last();
        lemma_with_key_multiset_count(s0, x);
        lemma_with_key_push(s0, k, last);
        assert(s0.push(last) =~= s);
        assert(s.to_multiset() =~= s0.to_multiset().insert(last));
        if last.ord_key() == k {
            assert(with_key(s, k) =~= with_key(s0, k).push(last));
            assert(with_key(s, k).to_multiset() =~= with_key(s0, k).to_multiset().insert(last));
        }
    }
}

/// A stable rearrangement is in particular a permutation: both sequences
/// hold the same values with the same multiplicities.
pub proof fn lemma_stable_permutation_multiset<T: TryIntoIndex>(out: Seq<T>, inp: Seq<T>)
    requires
        stable_permutation_of(out, inp),
    ensures
        out.to_multiset() == inp.to_multiset(),
{
    assert forall|x: T| out.to_multiset().count(x) == inp.to_multiset().count(x) by {
        lemma_with_key_multiset_count(out, x);
        lemma_with_key_multiset_count(inp, x);
        assert(with_key(out, x.ord_key()) == with_key(inp, x.ord_key()));
    }
    assert(out.to_multiset() =~= inp.to_multiset());
}

/// There is only one sequence that is sorted by key and holds, for every
/// key, a given run of elements: two sorted sequences whose runs agree are
/// equal. Sorting is therefore idempotent, and any two stable sorts agree.
pub proof fn lemma_sorted_stable_unique<T: TryIntoIndex>(a: Seq<T>, b: Seq<T>)
    requires
        sorted_by_key(a),
        sorted_by_key(b),
        stable_permutation_of(a, b),
    ensures
        a == b,
    decreases a.len(),
{
    if a.len() == 0 {
        lemma_unique_empty_case(a, b);
        assert(a =~= b);
    } else if b.len() == 0 {
        assert forall|k: int| #[trigger] with_key(b, k) == with_key(a, k) by {
            assert(with_key(a, k) == with_key(b, k));
        }
        lemma_unique_empty_case(b, a);
        assert(a =~= b);
    } else {
        let ka = a.last().ord_key();
        let kb = b.last().ord_key();
        lemma_with_key_push(a.drop_last(), ka, a.last());
        lemma_with_key_push(b.drop_last(), kb, b.last());
        assert(a.drop_last().push(a.last()) =~= a);
        assert(b.drop_last().push(b.last()) =~= b);
        assert(with_key(a, ka) == with_key(a.drop_last(), ka).push(a.last()));
        assert(with_key(b, kb) == with_key(b.drop_last(), kb).push(b.last()));
        lemma_unique_last_key_ge(a, b);
        lemma_unique_last_key_ge(b, a);
        assert(ka == kb);
        assert(a.last() == with_key(a, ka).last());
        assert(b.last() == with_key(b, ka).last());
        assert(with_key(a, ka) == with_key(b, ka));
        assert(a.last() == b.last());
        assert forall|k: int| #[trigger] with_key(a.drop_last(), k) == with_key(
            b.drop_last(),
            k,
        ) by {
            lemma_with_key_push(a.drop_last(), k, a.last());
            lemma_with_key_push(b.drop_last(), k, b.last());
            assert(with_key(a, k) == with_key(b, k));
            if k == ka {
                assert(with_key(a.drop_last(), k) =~= with_key(a, k).drop_last());
                assert(with_key(b.drop_last(), k) =~= with_key(b, k).drop_last());
            }
        }
        lemma_sorted_stable_unique(a.drop_last(), b.drop_last());
        assert(a =~= b);
    }
}

/// Sorting is idempotent: the only sorted, stable rearrangement of a
/// sequence that is already sorted is that sequence itself, so sorting it
/// returns an equal sequence.
pub proof fn lemma_sort_of_sorted_is_identity<T: TryIntoIndex>(inp: Seq<T>, out: Seq<T>)
    requires
        sorted_by_key(inp),
        sorted_by_key(out),
        stable_permutation_of(out, inp),
    ensures
        out == inp,
{
    lemma_sorted_stable_unique(out, inp);
}

/// The counting sort agrees with any reference sort: all sorted, stable
/// rearrangements of one input are the same sequence, so a result that is
/// sorted and stable equals the one a standard stable comparison sort
/// produces.
pub proof fn lemma_stable_sort_unique<T: TryIntoIndex>(inp: Seq<T>, out1: Seq<T>, out2: Seq<T>)
    requires
        sorted_by_key(out1),
        sorted_by_key(out2),
        stable_permutation_of(out1, inp),
        stable_permutation_of(out2, inp),
    ensures
        out1 == out2,
{
    assert forall|k: int| #[trigger] with_key(out1, k) == with_key(out2, k) by {
        assert(with_key(out1, k) == with_key(inp, k));
        assert(with_key(out2, k) == with_key(inp, k));
    }
    lemma_sorted_stable_unique(out1, out2);
}

/// Helper: if `a` is empty, so is every run of `b`, hence `b` itself.
proof fn lemma_unique_empty_case<T: TryIntoIndex>(a: Seq<T>, b: Seq<T>)
    requires
        stable_permutation_of(a, b),
        a.len() == 0,
    ensures
        b.len() == 0,
{
    if b.len() > 0 {
        let k = b.last().ord_key();
        lemma_with_key_push(b.drop_last(), k, b.last());
        assert(b.drop_last().push(b.last()) =~= b);
        assert(with_key(b, k).len() > 0);
        lemma_with_key_len(a, k);
        assert(with_key(a, k) == with_key(b, k));
        assert(false);
    }
}

/// Helper: the key of the last element of a sorted sequence is at least the
/// key of the last element of any sorted sequence with the same runs.
proof fn lemma_unique_last_key_ge<T: TryIntoIndex>(a: Seq<T>, b: Seq<T>)
    requires
        sorted_by_key(a),
        sorted_by_key(b),
        stable_permutation_of(a, b),
        a.len() > 0,
        b.len() > 0,
    ensures
        a.last().ord_key() >= b.last().ord_key(),
{
    let kb = b.last().ord_key();
    lemma_with_key_push(b.drop_last(), kb, b.last());
    assert(b.drop_last().push(b.last()) =~= b);
    assert(with_key(b, kb).len() > 0);
    assert(with_key(a, kb) == with_key(b, kb));
    let x = with_key(a, kb)[0];
    lemma_with_key_pred(a, kb, 0);
    assert(with_key(a, kb).contains(x));
    a.lemma_filter_contains_rev(key_pred::<T>(kb), x);
    let i = choose|i: int| 0 <= i < a.len() && a[i] == x;
    assert(a[i].ord_key() <= a[a.len() - 1].ord_key());
}

/// Partial sums of a sequence of counts never decrease.
pub proof fn lemma_sum_first_mono(h: Seq<usize>, k1: int, k2: int)
    requires
        0 <= k1 <= k2 <= h.len(),
    ensures
        sum_first(h, k1) <= sum_first(h, k2),
    decreases k2 - k1,
{
    if k1 < k2 {
        lemma_sum_first_mono(h, k1, k2 - 1);
    }
}

} // verus!
