use vstd::prelude::*;

use crate::errors::CountingSortError;
use crate::index::TryIntoIndex;

verus! {

/// A record sorted by its rank alone, carrying a free-form label.
///
/// Two records with the same rank and different labels are distinguishable in
/// the output, which makes the stability of the sort observable: they come
/// out in the order in which they went in.
#[derive(Clone, Copy, Debug, PartialEq, Eq)]
pub struct Tagged {
    /// The sort key of the record.
    pub rank: usize,
    /// A label that plays no part in the ordering.
    pub label: &'static str,
}

impl TryIntoIndex for Tagged {
    open spec fn ord_key(self) -> int {
        self.rank as int
    }

    fn try_into_index(value: &Tagged, min_value: &Tagged) -> (r: Result<
        usize,
        CountingSortError,
    >) {
        if value.rank >= min_value.rank {
            Ok(value.rank - min_value.rank)
        } else {
            Err(CountingSortError::from_try_into_index_failed())
        }
    }

    fn le(a: &Tagged, b: &Tagged) -> (r: bool) {
        a.rank <= b.rank
    }
}

} // verus!
