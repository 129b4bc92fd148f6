use vstd::prelude::*;

use crate::errors::CountingSortError;
use crate::index::TryIntoIndex;
use crate::lemmas::{
    lemma_count_at_take_lt, lemma_count_below_all, lemma_count_below_mono, lemma_segments_cover,
    lemma_segments_sorted, lemma_stable_permutation_multiset, lemma_sum_first_hist,
    lemma_sum_first_mono, lemma_with_key_len, lemma_with_key_none, lemma_with_key_push,
    lemma_with_key_segments, lemma_with_key_take_len, segments_concat,
};
use crate::order::{
    all_in_window, all_keys_equal, count_at, count_below, dist, first_out_of_window, hist_slot,
    in_window, placement_ready, range_addressable, sortable, sortable_with, sorted_by_key,
    spread_fits, stable_permutation_of, sum_first, window_error, with_key,
};

verus! {

/// Scans the sequence once and returns its minimum and maximum values, or
/// `None` when the sequence is empty. Among elements tied on the smallest
/// key, the first is returned; among those tied on the largest key, the
/// last.
pub fn get_min_max<T: TryIntoIndex>(values: &Vec<T>) -> (r: Option<(T, T)>)
    ensures
        r is None <==> values@.len() == 0,
        r matches Some((mn, mx)) ==> {
            &&& forall|i: int|
                0 <= i < values@.len() ==> mn.ord_key() <= #[trigger] values@[i].ord_key()
                    <= mx.ord_key()
            &&& exists|i: int|
                0 <= i < values@.len() && values@[i] == mn && forall|j: int|
                    0 <= j < i ==> (#[trigger] values@[j]).ord_key() > mn.ord_key()
            &&& exists|i: int|
                0 <= i < values@.len() && values@[i] == mx && forall|j: int|
                    i < j < values@.len() ==> (#[trigger] values@[j]).ord_key() < mx.ord_key()
        },
{
    if values.len() == 0 {
        return None;
    }
    let mut min_value: T = values[0];
    let mut max_value: T = values[0];
    let ghost mut imn: int = 0;
    let ghost mut imx: int = 0;
    let mut t: usize = 1;
    while t < values.len()
        invariant
            1 <= t <= values@.len(),
            0 <= imn < t,
            0 <= imx < t,
            values@[imn] == min_value,
            values@[imx] == max_value,
            forall|j: int| 0 <= j < imn ==> (#[trigger] values@[j]).ord_key() > min_value.ord_key(),
            forall|j: int| imx < j < t ==> (#[trigger] values@[j]).ord_key() < max_value.ord_key(),
            forall|i: int|
                0 <= i < t ==> min_value.ord_key() <= #[trigger] values@[i].ord_key()
                    <= max_value.ord_key(),
        decreases values@.len() - t,
    {
        let v: T = values[t];
        if !T::le(&min_value, &v) {
            min_value = v;
            proof {
                imn = t as int;
            }
        }
        if T::le(&max_value, &v) {
            max_value = v;
            proof {
                imx = t as int;
            }
        }
        t += 1;
    }
    Some((min_value, max_value))
}

/// Replaces every histogram slot, after the sentinel, with the running total
/// of itself and all slots before it. Afterwards slot `j` holds the number
/// of elements whose index is strictly below `j`: the first free output
/// position for the elements of index `j`.
pub fn calculate_prefix_sum(count_vector: &mut Vec<usize>)
    requires
        sum_first(old(count_vector)@, old(count_vector)@.len() as int) <= usize::MAX,
    ensures
        final(count_vector)@.len() == old(count_vector)@.len(),
        forall|j: int|
            0 <= j < old(count_vector)@.len() ==> final(count_vector)@[j] == sum_first(
                old(count_vector)@,
                j + 1,
            ),
{
    let ghost orig = count_vector@;
    let len = count_vector.len();
    proof {
        assert(sum_first(orig, 0) == 0);
        assert(len > 0 ==> sum_first(orig, 1) == sum_first(orig, 0) + orig[0]);
    }
    let mut i: usize = 1;
    while i < len
        invariant
            1 <= i,
            i <= len || len == 0,
            count_vector@.len() == len,
            orig.len() == len,
            sum_first(orig, len as int) <= usize::MAX,
            forall|j: int| 0 <= j < i && j < len ==> count_vector@[j] == sum_first(orig, j + 1),
            forall|j: int| i <= j < len ==> count_vector@[j] == orig[j],
        decreases len - i,
    {
        let prev = count_vector[i - 1];
        let cur = count_vector[i];
        proof {
            assert(prev == sum_first(orig, i as int));
            assert(prev + cur == sum_first(orig, i as int + 1));
            lemma_sum_first_mono(orig, i as int + 1, len as int);
        }
        count_vector[i] = prev + cur;
        i += 1;
    }
}

/// Builds the histogram of the sequence for the given bounds: one slot per
/// key between the bounds, preceded by the sentinel slot, each holding how
/// many elements carry that key.
///
/// Fails with `IntoIndexFailed` when the distance between the bounds cannot
/// be addressed, and otherwise reports the first element that the bounds do
/// not cover: `IntoIndexFailed` when its index conversion overflowed,
/// `IndexOutOfBounds` when its index lies past the declared maximum.
pub fn count_values<T: TryIntoIndex>(values: &Vec<T>, min_value: &T, max_value: &T) -> (r: Result<
    Vec<usize>,
    CountingSortError,
>)
    ensures
        r is Ok <==> range_addressable(*min_value, *max_value) && all_in_window(
            values@,
            *min_value,
            *max_value,
        ),
        r matches Ok(h) ==> {
            &&& h@.len() == dist(*max_value, *min_value) + 2
            &&& forall|j: int| 0 <= j < h@.len() ==> h@[j] == hist_slot(values@, *min_value, j)
        },
        r matches Err(e) ==> {
            &&& (e is IntoIndexFailed || e is IndexOutOfBounds)
            &&& (!range_addressable(*min_value, *max_value) ==> e is IntoIndexFailed)
            &&& (range_addressable(*min_value, *max_value) ==> exists|i: int|
                #[trigger] first_out_of_window(values@, *min_value, *max_value, i) && e
                    == window_error(values@[i], *min_value))
        },
{
    let ghost s = values@;
    let ghost mn = *min_value;
    let ghost mx = *max_value;
    let distance_result = T::try_into_index(max_value, min_value);
    let distance = match distance_result {
        Ok(d) => d,
        Err(_) => {
            return Err(CountingSortError::from_try_into_index_failed());
        },
    };
    if distance > usize::MAX - 2 {
        return Err(CountingSortError::from_try_into_index_failed());
    }
    let length = distance + 2;
    let mut count_vector: Vec<usize> = Vec::new();
    let mut z: usize = 0;
    while z < length
        invariant
            count_vector@.len() == z,
            z <= length,
            forall|j: int| 0 <= j < z ==> count_vector@[j] == 0,
        decreases length - z,
    {
        count_vector.push(0);
        z += 1;
    }
    proof {
        assert(s.take(0) =~= Seq::<T>::empty());
        assert forall|j: int| 0 <= j < count_vector@.len() implies count_vector@[j] == hist_slot(
            s.take(0),
            mn,
            j,
        ) by {
            lemma_with_key_len(s.take(0), mn.ord_key() + (j - 1));
        }
    }
    let mut t: usize = 0;
    while t < values.len()
        invariant
            t <= values@.len(),
            s == values@,
            mn == *min_value,
            mx == *max_value,
            count_vector@.len() == distance + 2,
            length == distance + 2,
            distance == dist(mx, mn),
            distance <= usize::MAX - 2,
            forall|j: int|
                0 <= j < count_vector@.len() ==> count_vector@[j] == hist_slot(
                    s.take(t as int),
                    mn,
                    j,
                ),
            forall|i: int| 0 <= i < t ==> in_window(#[trigger] s[i], mn, mx),
        decreases values@.len() - t,
    {
        let value: T = values[t];
        let index_result = T::try_into_index(&value, min_value);
        let index0 = match index_result {
            Ok(i0) => i0,
            Err(_) => {
                proof {
                    assert(!in_window(s[t as int], mn, mx));
                    assert(first_out_of_window(s, mn, mx, t as int));
                    assert(window_error(s[t as int], mn) is IntoIndexFailed);
                }
                return Err(CountingSortError::from_try_into_index_failed());
            },
        };
        if index0 >= length - 1 {
            proof {
                assert(dist(s[t as int], mn) == index0 as int);
                assert(!in_window(s[t as int], mn, mx));
                assert(first_out_of_window(s, mn, mx, t as int));
                assert(window_error(s[t as int], mn) is IndexOutOfBounds);
            }
            return Err(CountingSortError::from_index_out_of_bounds());
        }
        let index = index0 + 1;
        let count = count_vector[index];
        proof {
            assert(count == count_at(s.take(t as int), mn, index0 as int));
            lemma_with_key_len(s.take(t as int), mn.ord_key() + index0 as int);
        }
        count_vector[index] = count + 1;
        proof {
            assert(s.take(t as int + 1) =~= s.take(t as int).push(s[t as int]));
            assert forall|j: int| 0 <= j < count_vector@.len() implies count_vector@[j]
                == hist_slot(s.take(t as int + 1), mn, j) by {
                lemma_with_key_push(s.take(t as int), mn.ord_key() + (j - 1), s[t as int]);
            }
        }
        t += 1;
    }
    proof {
        assert(s.take(t as int) =~= s);
    }
    Ok(count_vector)
}

/// Walks the sequence in its original order and places every element at the
/// position its prefix-summed histogram slot names, then advances that slot:
/// equal-keyed elements land one after the other, in input order, which makes
/// the sort stable without walking the input backwards.
///
/// When `count_vector` is the prefix-summed histogram of `values` (see
/// `placement_ready`), placement succeeds and returns the sorted, stable
/// rearrangement of `values`. The function never panics: an element whose
/// index conversion fails, whose slot lies past the histogram, or whose
/// destination lies past the output is reported as an error instead.
pub fn re_order<T: TryIntoIndex>(
    values: &Vec<T>,
    count_vector: &mut Vec<usize>,
    length: usize,
    min_value: &T,
) -> (r: Result<Vec<T>, CountingSortError>)
    ensures
        final(count_vector)@.len() == old(count_vector)@.len(),
        r matches Ok(out) ==> out@.len() == length,
        r matches Err(e) ==> (e is IntoIndexFailed || e is IndexOutOfBounds),
        placement_ready(old(count_vector)@, values@, *min_value, length as int) ==> r is Ok
            && forall|j: int|
            0 <= j < old(count_vector)@.len() ==> final(count_vector)@[j] == count_below(
                values@,
                *min_value,
                j,
            ) + count_at(values@, *min_value, j),
        r matches Ok(out) ==> (placement_ready(
            old(count_vector)@,
            values@,
            *min_value,
            length as int,
        ) ==> {
            &&& sorted_by_key(out@)
            &&& stable_permutation_of(out@, values@)
            &&& out@.to_multiset() == values@.to_multiset()
        }),
{
    let ghost s = values@;
    let ghost mn = *min_value;
    let ghost cv0 = count_vector@;
    let ghost ready = placement_ready(cv0, s, mn, length as int);
    let ghost cap = cv0.len() as int - 1;

    let mut sorted_vector: Vec<T> = Vec::new();
    while sorted_vector.len() < length
        invariant
            sorted_vector@.len() <= length,
        decreases length - sorted_vector@.len(),
    {
        sorted_vector.push(*min_value);
    }
    proof {
        if ready {
            assert(s.take(0) =~= Seq::<T>::empty());
            assert forall|j: int| 0 <= j < count_vector@.len() implies count_vector@[j]
                == count_below(s, mn, j) + count_at(s.take(0), mn, j) by {
                lemma_with_key_len(s.take(0), mn.ord_key() + j);
            }
            assert forall|c: int| #![trigger count_below(s, mn, c)] 0 <= c < cap implies
                sorted_vector@.subrange(
                    count_below(s, mn, c) as int,
                    count_below(s, mn, c) as int + count_at(s.take(0), mn, c) as int,
                ) == with_key(s.take(0), mn.ord_key() + c) by {
                lemma_with_key_len(s.take(0), mn.ord_key() + c);
                lemma_count_below_mono(s, mn, c, cap);
                lemma_count_below_all(s, mn, cap);
                assert(sorted_vector@.subrange(
                    count_below(s, mn, c) as int,
                    count_below(s, mn, c) as int,
                ) =~= with_key(s.take(0), mn.ord_key() + c));
            }
        }
    }
    let mut t: usize = 0;
    while t < values.len()
        invariant
            t <= s.len(),
            s == values@,
            mn == *min_value,
            cv0 == old(count_vector)@,
            count_vector@.len() == cv0.len(),
            sorted_vector@.len() == length,
            ready == placement_ready(cv0, s, mn, length as int),
            cap == cv0.len() as int - 1,
            ready ==> forall|j: int|
                0 <= j < count_vector@.len() ==> count_vector@[j] == count_below(s, mn, j)
                    + count_at(s.take(t as int), mn, j),
            ready ==> forall|c: int|
                #![trigger count_below(s, mn, c)]
                0 <= c < cap ==> sorted_vector@.subrange(
                    count_below(s, mn, c) as int,
                    count_below(s, mn, c) as int + count_at(s.take(t as int), mn, c) as int,
                ) == with_key(s.take(t as int), mn.ord_key() + c),
        decreases s.len() - t,
    {
        let ghost tt = t as int;
        let cv_len = count_vector.len();
        let value: T = values[t];
        let index_result = T::try_into_index(&value, min_value);
        let index_count_vector = match index_result {
            Ok(i0) => i0,
            Err(_) => {
                proof {
                    if ready {
                        assert(0 <= dist(s[tt], mn) <= cv0.len() - 2);
                        assert(cv0.len() == cv_len as int);
                        assert(false);
                    }
                }
                return Err(CountingSortError::from_try_into_index_failed());
            },
        };
        let ghost c = index_count_vector as int;
        if index_count_vector >= count_vector.len() {
            proof {
                if ready {
                    assert(false);
                }
            }
            return Err(CountingSortError::from_index_out_of_bounds());
        }
        let index = count_vector[index_count_vector];
        proof {
            if ready {
                assert(c == dist(s[tt], mn) && 0 <= c < cap);
                lemma_count_at_take_lt(s, mn, tt);
                assert(count_below(s, mn, c + 1) == count_below(s, mn, c) + count_at(s, mn, c));
                lemma_count_below_mono(s, mn, c + 1, cap);
                lemma_count_below_all(s, mn, cap);
                assert(index < length);
            }
        }
        if index >= sorted_vector.len() {
            proof {
                if ready {
                    assert(false);
                }
            }
            return Err(CountingSortError::from_index_out_of_bounds());
        }
        let ghost out_before = sorted_vector@;
        sorted_vector[index] = value;
        count_vector[index_count_vector] = index + 1;
        proof {
            if ready {
                let p = index as int;
                assert(p == count_below(s, mn, c) + count_at(s.take(tt), mn, c));
                assert(s.take(tt + 1) =~= s.take(tt).push(s[tt]));
                assert forall|j: int| 0 <= j < count_vector@.len() implies count_vector@[j]
                    == count_below(s, mn, j) + count_at(s.take(tt + 1), mn, j) by {
                    lemma_with_key_push(s.take(tt), mn.ord_key() + j, s[tt]);
                }
                assert forall|c2: int| #![trigger count_below(s, mn, c2)] 0 <= c2 < cap implies
                    sorted_vector@.subrange(
                        count_below(s, mn, c2) as int,
                        count_below(s, mn, c2) as int + count_at(s.take(tt + 1), mn, c2) as int,
                    ) == with_key(s.take(tt + 1), mn.ord_key() + c2) by {
                    lemma_with_key_push(s.take(tt), mn.ord_key() + c2, s[tt]);
                    lemma_with_key_take_len(s, mn.ord_key() + c2, tt);
                    assert(count_below(s, mn, c2 + 1) == count_below(s, mn, c2) + count_at(
                        s,
                        mn,
                        c2,
                    ));
                    lemma_count_below_all(s, mn, cap);
                    lemma_count_below_mono(s, mn, c2 + 1, cap);
                    if c2 == c {
                        assert(sorted_vector@.subrange(
                            count_below(s, mn, c2) as int,
                            count_below(s, mn, c2) as int + count_at(s.take(tt + 1), mn, c2) as int,
                        ) =~= out_before.subrange(
                            count_below(s, mn, c2) as int,
                            count_below(s, mn, c2) as int + count_at(s.take(tt), mn, c2) as int,
                        ).push(s[tt]));
                    } else {
                        if c2 < c {
                            lemma_count_below_mono(s, mn, c2 + 1, c);
                        } else {
                            lemma_count_below_mono(s, mn, c + 1, c2);
                        }
                        assert(sorted_vector@.subrange(
                            count_below(s, mn, c2) as int,
                            count_below(s, mn, c2) as int + count_at(s.take(tt + 1), mn, c2) as int,
                        ) =~= out_before.subrange(
                            count_below(s, mn, c2) as int,
                            count_below(s, mn, c2) as int + count_at(s.take(tt), mn, c2) as int,
                        ));
                    }
                }
            }
        }
        t += 1;
    }
    proof {
        if ready {
            assert(s.take(t as int) =~= s);
            lemma_count_below_all(s, mn, cap);
            assert forall|c2: int| #![trigger count_below(s, mn, c2)] 0 <= c2 < cap implies
                sorted_vector@.subrange(
                    count_below(s, mn, c2) as int,
                    count_below(s, mn, c2 + 1) as int,
                ) == with_key(s, mn.ord_key() + c2) by {
                assert(count_below(s, mn, c2 + 1) == count_below(s, mn, c2) + count_at(s, mn, c2));
            }
            lemma_segments_cover(s, mn, sorted_vector@, cap);
            assert(sorted_vector@.subrange(0, count_below(s, mn, cap) as int) =~= sorted_vector@);
            assert(sorted_vector@ == segments_concat(s, mn, cap));
            lemma_segments_sorted(s, mn, cap);
            assert forall|k: int| #[trigger] with_key(sorted_vector@, k) == with_key(s, k) by {
                lemma_with_key_segments(s, mn, cap, k);
                if !(mn.ord_key() <= k < mn.ord_key() + cap) {
                    assert forall|i: int| 0 <= i < s.len() implies #[trigger] s[i].ord_key()
                        != k by {
                        assert(0 <= dist(s[i], mn) <= cv0.len() - 2);
                    }
                    lemma_with_key_none(s, k);
                }
            }
            lemma_stable_permutation_multiset(sorted_vector@, s);
        }
    }
    Ok(sorted_vector)
}

/// Sorts the sequence with the counting-sort algorithm, given the minimum
/// and maximum values of the collection, and returns the freshly allocated
/// result; the input is only read.
///
/// Succeeds exactly when the bounds are ordered and distinct, their distance
/// is addressable, and every element lies between them; the result is then
/// the sorted, stable rearrangement of the input. Each remaining input is
/// mapped to exactly one error, as the contract states.
pub fn counting_sort_min_max<T: TryIntoIndex>(
    values: &Vec<T>,
    min_value: &T,
    max_value: &T,
) -> (r: Result<Vec<T>, CountingSortError>)
    ensures
        r is Ok <==> sortable_with(values@, *min_value, *max_value),
        r matches Ok(out) ==> {
            &&& sorted_by_key(out@)
            &&& stable_permutation_of(out@, values@)
            &&& out@.to_multiset() == values@.to_multiset()
            &&& out@.len() == values@.len()
        },
        r matches Err(e) ==> {
            &&& (e is SortingUnnecessary <==> min_value.ord_key() == max_value.ord_key())
            &&& (e is MinValueLargerMaxValue <==> min_value.ord_key() > max_value.ord_key())
            &&& (min_value.ord_key() < max_value.ord_key() && !range_addressable(
                *min_value,
                *max_value,
            ) ==> e is IntoIndexFailed)
            &&& (min_value.ord_key() < max_value.ord_key() && range_addressable(
                *min_value,
                *max_value,
            ) ==> exists|i: int|
                #[trigger] first_out_of_window(values@, *min_value, *max_value, i) && e
                    == window_error(values@[i], *min_value))
        },
{
    let ghost s = values@;
    let ghost mn = *min_value;
    let ghost mx = *max_value;
    if T::le(min_value, max_value) && T::le(max_value, min_value) {
        return Err(CountingSortError::from_sorting_unnecessary());
    }
    if !T::le(min_value, max_value) {
        return Err(CountingSortError::from_min_value_larger_max_value());
    }
    let n = values.len();
    let mut count_vector = match count_values(values, min_value, max_value) {
        Ok(cv) => cv,
        Err(e) => {
            return Err(e);
        },
    };
    let ghost h0 = count_vector@;
    let ghost d = dist(mx, mn);
    proof {
        assert(forall|i: int| 0 <= i < s.len() ==> 0 <= dist(#[trigger] s[i], mn) < d + 1);
        lemma_count_below_all(s, mn, d + 1);
        lemma_sum_first_hist(h0, s, mn, d + 1);
        assert(sum_first(h0, h0.len() as int) == n as int);
    }
    calculate_prefix_sum(&mut count_vector);
    let length = count_vector[count_vector.len() - 1];
    proof {
        assert(length == sum_first(h0, d + 2));
        assert(length == s.len());
        assert forall|j: int| 0 <= j < count_vector@.len() implies count_vector@[j] == count_below(
            s,
            mn,
            j,
        ) by {
            lemma_sum_first_hist(h0, s, mn, j);
        }
        assert(placement_ready(count_vector@, s, mn, length as int));
    }
    re_order(values, &mut count_vector, length, min_value)
}

/// Sorts the sequence with the counting-sort algorithm, discovering the
/// minimum and maximum values in one extra pass, and returns the freshly
/// allocated result; the input is only read.
///
/// Succeeds exactly when the sequence holds at least two distinct keys and
/// its key spread is addressable; the result is then the sorted, stable
/// rearrangement of the input. An empty sequence, a single-keyed sequence
/// and an unaddressable spread are each mapped to their own error.
pub fn counting_sort<T: TryIntoIndex>(values: &Vec<T>) -> (r: Result<Vec<T>, CountingSortError>)
    ensures
        r is Ok <==> sortable(values@),
        r matches Ok(out) ==> {
            &&& sorted_by_key(out@)
            &&& stable_permutation_of(out@, values@)
            &&& out@.to_multiset() == values@.to_multiset()
            &&& out@.len() == values@.len()
        },
        r matches Err(e) ==> {
            &&& (e is IteratorEmpty <==> values@.len() == 0)
            &&& (e is SortingUnnecessary <==> values@.len() > 0 && all_keys_equal(values@))
            &&& (e is IntoIndexFailed <==> values@.len() > 0 && !all_keys_equal(values@)
                && !spread_fits(values@))
            &&& (e is IteratorEmpty || e is SortingUnnecessary || e is IntoIndexFailed)
        },
{
    let ghost s = values@;
    let (min_value, max_value) = match get_min_max(values) {
        Some(p) => p,
        None => {
            return Err(CountingSortError::from_empty_iterator());
        },
    };
    let ghost mn = min_value;
    let ghost mx = max_value;
    let ghost im = choose|i: int| 0 <= i < s.len() && s[i] == mn;
    let ghost ix = choose|i: int| 0 <= i < s.len() && s[i] == mx;
    proof {
        assert(s[im] == mn && s[ix] == mx);
        assert(all_keys_equal(s) <==> mn.ord_key() == mx.ord_key());
        assert(spread_fits(s) <==> range_addressable(mn, mx));
        assert(all_in_window(s, mn, mx));
        assert forall|i: int|
            !#[trigger] first_out_of_window(s, mn, mx, i) by {
            if 0 <= i < s.len() {
                assert(in_window(s[i], mn, mx));
            }
        }
    }
    counting_sort_min_max(values, &min_value, &max_value)
}

/// The counting-sort interface of a collection: the two entry points of the
/// library as methods, with the collection's elements as the model.
///
/// The library implements it for `Vec<T>` for every element type with the
/// `TryIntoIndex` capability; a consumer may implement it for another
/// collection by sorting the sequence of its elements the same way.
pub trait CountingSort<T: TryIntoIndex> {
    /// The elements held by the collection, in order.
    spec fn elements(&self) -> Seq<T>;

    /// Sorts the collection's elements, discovering the minimum and maximum
    /// values in one extra pass; the collection itself is only read.
    fn cnt_sort(&self) -> (r: Result<Vec<T>, CountingSortError>)
        ensures
            r is Ok <==> sortable(self.elements()),
            r matches Ok(out) ==> {
                &&& sorted_by_key(out@)
                &&& stable_permutation_of(out@, self.elements())
                &&& out@.to_multiset() == self.elements().to_multiset()
                &&& out@.len() == self.elements().len()
            },
            r matches Err(e) ==> {
                &&& (e is IteratorEmpty <==> self.elements().len() == 0)
                &&& (e is SortingUnnecessary <==> self.elements().len() > 0 && all_keys_equal(
                    self.elements(),
                ))
                &&& (e is IntoIndexFailed <==> self.elements().len() > 0 && !all_keys_equal(
                    self.elements(),
                ) && !spread_fits(self.elements()))
                &&& (e is IteratorEmpty || e is SortingUnnecessary || e is IntoIndexFailed)
            },
    ;

    /// Sorts the collection's elements with the given minimum and maximum
    /// values, skipping the discovery pass; the collection itself is only
    /// read.
    fn cnt_sort_min_max(&self, min_value: &T, max_value: &T) -> (r: Result<
        Vec<T>,
        CountingSortError,
    >)
        ensures
            r is Ok <==> sortable_with(self.elements(), *min_value, *max_value),
            r matches Ok(out) ==> {
                &&& sorted_by_key(out@)
                &&& stable_permutation_of(out@, self.elements())
                &&& out@.to_multiset() == self.elements().to_multiset()
                &&& out@.len() == self.elements().len()
            },
            r matches Err(e) ==> {
                &&& (e is SortingUnnecessary <==> min_value.ord_key() == max_value.ord_key())
                &&& (e is MinValueLargerMaxValue <==> min_value.ord_key() > max_value.ord_key())
                &&& (min_value.ord_key() < max_value.ord_key() && !range_addressable(
                    *min_value,
                    *max_value,
                ) ==> e is IntoIndexFailed)
                &&& (min_value.ord_key() < max_value.ord_key() && range_addressable(
                    *min_value,
                    *max_value,
                ) ==> exists|i: int|
                    #[trigger] first_out_of_window(self.elements(), *min_value, *max_value, i) && e
                        == window_error(self.elements()[i], *min_value))
            },
    ;
}

impl<T: TryIntoIndex> CountingSort<T> for Vec<T> {
    open spec fn elements(&self) -> Seq<T> {
        self@
    }

    fn cnt_sort(&self) -> (r: Result<Vec<T>, CountingSortError>) {
        counting_sort(self)
    }

    fn cnt_sort_min_max(&self, min_value: &T, max_value: &T) -> (r: Result<
        Vec<T>,
        CountingSortError,
    >) {
        counting_sort_min_max(self, min_value, max_value)
    }
}

} // verus!
