use vstd::prelude::*;

verus! {

/// Everything that can go wrong while running the counting sort.
///
/// Every internal step reports failure through this one type; the sort never
/// panics and never returns a partially filled output.
#[derive(Clone, Copy, Debug, PartialEq, Eq, Structural)]
pub enum CountingSortError {
    /// Converting a value (or the distance between the given bounds) into an
    /// index overflowed the index type.
    IntoIndexFailed,
    /// The input was empty, so there was nothing from which to discover the
    /// minimum and maximum values.
    IteratorEmpty,
    /// The given minimum value equals the given maximum value: every element
    /// is the same, so no sorting is necessary.
    SortingUnnecessary,
    /// The given minimum value is larger than the given maximum value, most
    /// likely because the two arguments were swapped.
    MinValueLargerMaxValue,
    /// A computed index did not fit in the histogram allocated for the given
    /// bounds: the given maximum value is smaller than the true maximum.
    IndexOutOfBounds,
}

impl CountingSortError {
    /// The error for a failed conversion into an index.
    pub fn from_try_into_index_failed() -> (e: CountingSortError)
        ensures
            e is IntoIndexFailed,
    {
        CountingSortError::IntoIndexFailed
    }

    /// The error for an empty input.
    pub fn from_empty_iterator() -> (e: CountingSortError)
        ensures
            e is IteratorEmpty,
    {
        CountingSortError::IteratorEmpty
    }

    /// The error for equal minimum and maximum values.
    pub fn from_sorting_unnecessary() -> (e: CountingSortError)
        ensures
            e is SortingUnnecessary,
    {
        CountingSortError::SortingUnnecessary
    }

    /// The error for reversed bounds.
    pub fn from_min_value_larger_max_value() -> (e: CountingSortError)
        ensures
            e is MinValueLargerMaxValue,
    {
        CountingSortError::MinValueLargerMaxValue
    }

    /// The error for an index beyond the histogram.
    pub fn from_index_out_of_bounds() -> (e: CountingSortError)
        ensures
            e is IndexOutOfBounds,
    {
        CountingSortError::IndexOutOfBounds
    }

    /// A fixed human-readable description of the error.
    pub fn description(&self) -> (r: &'static str)
        ensures
            r@ == match self {
                CountingSortError::IntoIndexFailed => "Conversion into index failed"@,
                CountingSortError::IteratorEmpty => "There are no element available in the iterator"@,
                CountingSortError::SortingUnnecessary => "Minimum value is identical to maximum value, therefore no sorting is necessary"@,
                CountingSortError::MinValueLargerMaxValue => "Minimum value is larger than maximum value"@,
                CountingSortError::IndexOutOfBounds => "Index is out of bounds, most likely the given maximum value is too small"@,
            },
    {
        match self {
            CountingSortError::IntoIndexFailed => "Conversion into index failed",
            CountingSortError::IteratorEmpty => "There are no element available in the iterator",
            CountingSortError::SortingUnnecessary => "Minimum value is identical to maximum value, therefore no sorting is necessary",
            CountingSortError::MinValueLargerMaxValue => "Minimum value is larger than maximum value",
            CountingSortError::IndexOutOfBounds => "Index is out of bounds, most likely the given maximum value is too small",
        }
    }
}

} // verus!
