//! A verified counting-sort library.
//!
//! Given a sequence of values of an orderable, bounded-range type, the sort
//! produces a freshly allocated sequence holding the same values in
//! non-decreasing key order, by counting occurrences rather than comparing
//! pairs. The sort is stable: values with equal keys keep their relative
//! order. Every entry point states exactly on which inputs it succeeds and
//! which error each remaining input produces.

mod errors;
mod index;
mod keyed;
mod lemmas;
mod order;
mod sort;

pub use errors::CountingSortError;
pub use index::TryIntoIndex;
pub use keyed::Tagged;
pub use lemmas::{
    lemma_sort_of_sorted_is_identity, lemma_sorted_stable_unique, lemma_stable_permutation_multiset,
    lemma_stable_sort_unique,
};
pub use sort::{
    calculate_prefix_sum, count_values, counting_sort, counting_sort_min_max, get_min_max,
    re_order, CountingSort,
};
pub use order::{
    all_in_window, all_keys_equal, count_at, count_below, dist, first_out_of_window, hist_slot,
    in_window, key_pred, placement_ready, range_addressable, sortable, sortable_with,
    sorted_by_key, spread_fits, stable_permutation_of, sum_first, window_error, with_key,
};
