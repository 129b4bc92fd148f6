use vstd::prelude::*;

use crate::errors::CountingSortError;
use crate::index::TryIntoIndex;

verus! {

/// Holds of a value whose order key is exactly `k`.
pub open spec fn key_pred<T: TryIntoIndex>(k: int) -> spec_fn(T) -> bool {
    |v: T| v.ord_key() == k
}

/// The elements of `s` whose order key is exactly `k`, in their original
/// order.
pub open spec fn with_key<T: TryIntoIndex>(s: Seq<T>, k: int) -> Seq<T> {
    s.filter(key_pred(k))
}

/// The key distance of `v` from the minimum value `mn`: the index under
/// which the sort files `v`.
pub open spec fn dist<T: TryIntoIndex>(v: T, mn: T) -> int {
    v.ord_key() - mn.ord_key()
}

/// How many elements of `s` lie at key distance exactly `c` from `mn`.
pub open spec fn count_at<T: TryIntoIndex>(s: Seq<T>, mn: T, c: int) -> nat {
    with_key(s, mn.ord_key() + c).len()
}

/// How many elements of `s` lie at a key distance below `c` from `mn`.
/// This is the first output position of the elements at distance `c`.
pub open spec fn count_below<T: TryIntoIndex>(s: Seq<T>, mn: T, c: int) -> nat
    decreases c,
{
    if c <= 0 {
        0
    } else {
        count_below(s, mn, c - 1) + count_at(s, mn, c - 1)
    }
}

/// One slot of the histogram built over `s` for the minimum value `mn`:
/// slot 0 is the sentinel that stands for "before the minimum" and always
/// counts zero, and slot `j >= 1` counts the elements at distance `j - 1`.
pub open spec fn hist_slot<T: TryIntoIndex>(s: Seq<T>, mn: T, j: int) -> nat {
    if j <= 0 {
        0
    } else {
        count_at(s, mn, j - 1)
    }
}

/// The running total of the first `k` slots of `s`.
pub open spec fn sum_first(s: Seq<usize>, k: int) -> int
    decreases k,
{
    if k <= 0 {
        0
    } else {
        sum_first(s, k - 1) + s[k - 1]
    }
}

/// `v` lies between `mn` and `mx` in the order.
pub open spec fn in_window<T: TryIntoIndex>(v: T, mn: T, mx: T) -> bool {
    mn.ord_key() <= v.ord_key() <= mx.ord_key()
}

/// Every element of `s` lies between `mn` and `mx` in the order.
pub open spec fn all_in_window<T: TryIntoIndex>(s: Seq<T>, mn: T, mx: T) -> bool {
    forall|i: int| 0 <= i < s.len() ==> in_window(#[trigger] s[i], mn, mx)
}

/// The distance between the bounds is small enough that a histogram with one
/// slot per distinct key, plus the sentinel slot, can be addressed.
pub open spec fn range_addressable<T: TryIntoIndex>(mn: T, mx: T) -> bool {
    0 <= mx.ord_key() - mn.ord_key() <= usize::MAX - 2
}

/// The keys of `s` never decrease from left to right.
pub open spec fn sorted_by_key<T: TryIntoIndex>(s: Seq<T>) -> bool {
    forall|i: int, j: int|
        #![trigger s[i], s[j]]
        0 <= i <= j < s.len() ==> s[i].ord_key() <= s[j].ord_key()
}

/// `out` rearranges `inp` and keeps elements of equal key in their original
/// relative order: for every key, the two sequences hold exactly the same
/// run of elements. This pins the sorted output down completely.
pub open spec fn stable_permutation_of<T: TryIntoIndex>(out: Seq<T>, inp: Seq<T>) -> bool {
    forall|k: int| #[trigger] with_key(out, k) == with_key(inp, k)
}

/// All elements of `s` share one order key.
pub open spec fn all_keys_equal<T: TryIntoIndex>(s: Seq<T>) -> bool {
    forall|i: int, j: int|
        #![trigger s[i], s[j]]
        0 <= i < s.len() && 0 <= j < s.len() ==> s[i].ord_key() == s[j].ord_key()
}

/// No two elements of `s` are further apart in the order than the largest
/// histogram that the index type can address.
pub open spec fn spread_fits<T: TryIntoIndex>(s: Seq<T>) -> bool {
    forall|i: int, j: int|
        #![trigger s[i], s[j]]
        0 <= i < s.len() && 0 <= j < s.len() ==> s[j].ord_key() - s[i].ord_key() <= usize::MAX - 2
}

/// The sort with known bounds succeeds exactly on these inputs: the bounds
/// are in order and distinct, their distance is addressable, and every
/// element lies between them.
pub open spec fn sortable_with<T: TryIntoIndex>(s: Seq<T>, mn: T, mx: T) -> bool {
    &&& mn.ord_key() < mx.ord_key()
    &&& range_addressable(mn, mx)
    &&& all_in_window(s, mn, mx)
}

/// The sort with discovered bounds succeeds exactly on these inputs: the
/// sequence holds at least two distinct keys and its key spread is
/// addressable.
pub open spec fn sortable<T: TryIntoIndex>(s: Seq<T>) -> bool {
    &&& s.len() > 0
    &&& !all_keys_equal(s)
    &&& spread_fits(s)
}

/// `i` is the position of the first element that the given bounds do not
/// cover.
pub open spec fn first_out_of_window<T: TryIntoIndex>(s: Seq<T>, mn: T, mx: T, i: int) -> bool {
    &&& 0 <= i < s.len()
    &&& !in_window(s[i], mn, mx)
    &&& forall|j: int| 0 <= j < i ==> in_window(#[trigger] s[j], mn, mx)
}

/// The error reported for an element that the given bounds do not cover:
/// an element whose distance still fits the index type has slipped past the
/// declared maximum, anything else failed the index conversion itself.
pub open spec fn window_error<T: TryIntoIndex>(v: T, mn: T) -> CountingSortError {
    if 0 <= dist(v, mn) <= usize::MAX {
        CountingSortError::IndexOutOfBounds
    } else {
        CountingSortError::IntoIndexFailed
    }
}

/// The histogram `cv` has been counted over `s` and prefix-summed, every
/// element of `s` has a slot, and `length` is the true element count: what
/// the placement pass needs in order to produce the sorted sequence.
pub open spec fn placement_ready<T: TryIntoIndex>(
    cv: Seq<usize>,
    s: Seq<T>,
    mn: T,
    length: int,
) -> bool {
    &&& cv.len() >= 2
    &&& forall|j: int| 0 <= j < cv.len() ==> cv[j] == count_below(s, mn, j)
    &&& forall|i: int| 0 <= i < s.len() ==> 0 <= dist(#[trigger] s[i], mn) <= cv.len() - 2
    &&& length == s.len()
}

} // verus!
