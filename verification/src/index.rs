use vstd::prelude::*;

use crate::errors::CountingSortError;

verus! {

/// The capability that lets a type be counting-sorted: values are ordered by
/// a mathematical key, and the distance of a value from a given minimum value
/// can be turned into an index.
///
/// Implementations are provided for the fixed-width integer types up to 32
/// bits and for `usize`. A consumer may implement the trait for a custom type;
/// the key model makes the required monotonicity automatic, since the index of
/// a value is exactly its key distance from the minimum whenever the
/// conversion succeeds.
pub trait TryIntoIndex: Sized + Copy {
    /// The position of the value in its type's total order.
    spec fn ord_key(self) -> int;

    /// Tries to convert the value into an index: the distance between the
    /// value's key and the key of `min_value`.
    ///
    /// The conversion succeeds exactly when that distance is non-negative and
    /// fits in the index type; it never panics, also not for a value that
    /// lies below `min_value`.
    fn try_into_index(value: &Self, min_value: &Self) -> (r: Result<usize, CountingSortError>)
        ensures
            r is Ok <==> 0 <= value.ord_key() - min_value.ord_key() <= usize::MAX,
            r matches Ok(i) ==> i == value.ord_key() - min_value.ord_key(),
            r matches Err(e) ==> e is IntoIndexFailed;

    /// Compares two values in the type's total order.
    fn le(a: &Self, b: &Self) -> (r: bool)
        ensures
            r <==> a.ord_key() <= b.ord_key();
}

impl TryIntoIndex for u8 {
    open spec fn ord_key(self) -> int {
        self as int
    }

    fn try_into_index(value: &u8, min_value: &u8) -> (r: Result<usize, CountingSortError>) {
        if *value >= *min_value {
            Ok((*value - *min_value) as usize)
        } else {
            Err(CountingSortError::from_try_into_index_failed())
        }
    }

    fn le(a: &u8, b: &u8) -> (r: bool) {
        *a <= *b
    }
}

impl TryIntoIndex for u16 {
    open spec fn ord_key(self) -> int {
        self as int
    }

    fn try_into_index(value: &u16, min_value: &u16) -> (r: Result<usize, CountingSortError>) {
        if *value >= *min_value {
            Ok((*value - *min_value) as usize)
        } else {
            Err(CountingSortError::from_try_into_index_failed())
        }
    }

    fn le(a: &u16, b: &u16) -> (r: bool) {
        *a <= *b
    }
}

impl TryIntoIndex for u32 {
    open spec fn ord_key(self) -> int {
        self as int
    }

    fn try_into_index(value: &u32, min_value: &u32) -> (r: Result<usize, CountingSortError>) {
        if *value >= *min_value {
            let distance: u32 = *value - *min_value;
            if (distance as u64) <= (usize::MAX as u64) {
                Ok(distance as usize)
            } else {
                Err(CountingSortError::from_try_into_index_failed())
            }
        } else {
            Err(CountingSortError::from_try_into_index_failed())
        }
    }

    fn le(a: &u32, b: &u32) -> (r: bool) {
        *a <= *b
    }
}

impl TryIntoIndex for usize {
    open spec fn ord_key(self) -> int {
        self as int
    }

    fn try_into_index(value: &usize, min_value: &usize) -> (r: Result<usize, CountingSortError>) {
        if *value >= *min_value {
            Ok(*value - *min_value)
        } else {
            Err(CountingSortError::from_try_into_index_failed())
        }
    }

    fn le(a: &usize, b: &usize) -> (r: bool) {
        *a <= *b
    }
}

impl TryIntoIndex for i8 {
    open spec fn ord_key(self) -> int {
        self as int
    }

    fn try_into_index(value: &i8, min_value: &i8) -> (r: Result<usize, CountingSortError>) {
        // Widening before subtracting keeps the difference of the extreme
        // values representable.
        let distance: i16 = (*value as i16) - (*min_value as i16);
        if distance >= 0 {
            Ok(distance as usize)
        } else {
            Err(CountingSortError::from_try_into_index_failed())
        }
    }

    fn le(a: &i8, b: &i8) -> (r: bool) {
        *a <= *b
    }
}

impl TryIntoIndex for i16 {
    open spec fn ord_key(self) -> int {
        self as int
    }

    fn try_into_index(value: &i16, min_value: &i16) -> (r: Result<usize, CountingSortError>) {
        let distance: i32 = (*value as i32) - (*min_value as i32);
        if distance >= 0 {
            Ok(distance as usize)
        } else {
            Err(CountingSortError::from_try_into_index_failed())
        }
    }

    fn le(a: &i16, b: &i16) -> (r: bool) {
        *a <= *b
    }
}

impl TryIntoIndex for i32 {
    open spec fn ord_key(self) -> int {
        self as int
    }

    fn try_into_index(value: &i32, min_value: &i32) -> (r: Result<usize, CountingSortError>) {
        let distance: i64 = (*value as i64) - (*min_value as i64);
        if distance >= 0 {
            Ok(distance as usize)
        } else {
            Err(CountingSortError::from_try_into_index_failed())
        }
    }

    fn le(a: &i32, b: &i32) -> (r: bool) {
        *a <= *b
    }
}

} // verus!
