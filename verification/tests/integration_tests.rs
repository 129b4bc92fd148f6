use counting_sort::{CountingSort, Tagged, TryIntoIndex};

use std::collections::HashSet;
use std::collections::LinkedList;

use oorandom::Rand32;

use core::convert::TryFrom;

use std::fmt::Display;

#[test]
fn test_with_list() {
    let mut list = LinkedList::new();
    list.push_back(4);
    list.push_back(3);
    list.push_back(2);
    list.push_back(1);
    let vector: Vec<i32> = list.iter().copied().collect();
    let sorted_vector = vector.cnt_sort().unwrap();
    let test_vector = vec![1, 2, 3, 4];
    assert_eq!(test_vector, sorted_vector);
}

#[test]
fn test_with_vector() {
    let mut vector = Vec::new();
    vector.push(4);
    vector.push(3);
    vector.push(2);
    vector.push(1);
    let sorted_vector = vector.cnt_sort().unwrap();
    let test_vector = vec![1, 2, 3, 4];
    assert_eq!(test_vector, sorted_vector);
}

#[test]
fn test_with_slice() {
    let slice: [u8; 4] = [4, 3, 2, 1];
    let sorted_vector = slice.to_vec().cnt_sort().unwrap();
    let test_vector = vec![1, 2, 3, 4];
    assert_eq!(sorted_vector, test_vector);
}

trait Absolute {
    fn absolute(&self) -> Self;
}

impl Absolute for i32 {
    fn absolute(&self) -> Self {
        self.abs()
    }
}

impl Absolute for u32 {
    fn absolute(&self) -> Self {
        *self
    }
}

fn create_test_vector<INT, RANDINT, F>(
    number_of_elements: usize,
    min_value: INT,
    max_value: INT,
    mut f: F,
) -> Vec<INT>
where
    INT: Ord + Display + TryFrom<RANDINT> + Into<RANDINT> + Copy,
    F: FnMut(&mut Rand32) -> RANDINT,
    RANDINT: Copy
        + core::ops::Rem<Output = RANDINT>
        + core::ops::Add<Output = RANDINT>
        + Display
        + core::ops::Sub<Output = RANDINT>
        + Absolute,
{
    if min_value > max_value {
        panic!(
            "min value {} must be smaller than max_value {}",
            min_value, max_value
        );
    }
    let mut vec = Vec::with_capacity(number_of_elements);
    let mut rng = Rand32::new(7648730752358173238);
    let max_range = INT::into(max_value) - INT::into(min_value);
    let min_val = INT::into(min_value);
    for _ in 0..number_of_elements {
        let value = (f(&mut rng) % max_range).absolute() + min_val;
        let random_integer = INT::try_from(value);
        if random_integer.is_ok() {
            vec.push(random_integer.unwrap_or(min_value));
        } else {
            panic!("Could not convert {}", value);
        }
    }
    vec
}

fn create_test_vector_unsigned<INT: Ord + Display + TryFrom<u32> + Into<u32> + Copy>(
    number_of_elements: usize,
    min_value: INT,
    max_value: INT,
) -> Vec<INT> {
    let rand_u32 = |rng: &mut Rand32| rng.rand_u32();
    create_test_vector(number_of_elements, min_value, max_value, rand_u32)
}

fn create_test_vector_signed<INT: Ord + Display + TryFrom<i32> + Into<i32> + Copy>(
    number_of_elements: usize,
    min_value: INT,
    max_value: INT,
) -> Vec<INT> {
    let rand_i32 = |rng: &mut Rand32| rng.rand_i32();
    create_test_vector(number_of_elements, min_value, max_value, rand_i32)
}

#[test]
fn test_with_vector_u8_10k() {
    let number_of_elements = 10000;
    let mut vector = create_test_vector_unsigned::<u8>(number_of_elements, 0, 255);
    let result = vector.cnt_sort_min_max(&0, &255);
    assert!(result.is_ok());
    vector.sort();
    assert_eq!(vector, result.unwrap());
}

#[test]
fn test_with_vector_i8_10k() {
    let number_of_elements = 10000;
    let mut vector = create_test_vector_signed::<i8>(number_of_elements, -128, 127);
    let result = vector.cnt_sort();
    assert!(result.is_ok());
    vector.sort();
    assert_eq!(vector, result.unwrap());
}

#[test]
fn test_with_vector_u16_10k() {
    let number_of_elements = 10000;
    let mut vector = create_test_vector_unsigned::<u16>(number_of_elements, 0, 0xFFFF);
    let result = vector.cnt_sort();
    assert!(result.is_ok());
    vector.sort();
    assert_eq!(vector, result.unwrap());
}

#[test]
fn test_with_vector_i16_10k() {
    let number_of_elements = 10000;
    let mut vector =
        create_test_vector_signed::<i16>(number_of_elements, i16::min_value(), i16::max_value());
    let result = vector.cnt_sort();
    assert!(result.is_ok());
    vector.sort();
    assert_eq!(vector, result.unwrap());
}

#[test]
fn test_with_vector_u32_10k() {
    let number_of_elements = 10000;
    let mut vector = create_test_vector_unsigned::<u32>(
        number_of_elements,
        u32::from(u16::min_value()) + 1000,
        u32::from(u16::max_value()) + 10000,
    );
    let result = vector.cnt_sort();
    assert!(result.is_ok());
    vector.sort();
    assert_eq!(vector, result.unwrap());
}

#[test]
fn test_with_vector_i32_10k() {
    let number_of_elements = 10000;
    let mut vector = create_test_vector_signed::<i32>(
        number_of_elements,
        i32::from(i16::min_value()) - 1000,
        i32::from(i16::max_value()) + 1000,
    );
    let result = vector.cnt_sort();
    assert!(result.is_ok());
    vector.sort();
    assert_eq!(vector, result.unwrap());
}

#[test]
fn test_does_not_panic_with_signed() {
    let vector: Vec<i8> = vec![-128, 127];
    let sorted_vector = vector.cnt_sort().unwrap();
    assert_eq!(vector, sorted_vector);
}

#[test]
fn test_stable_sort() {
    let first = Tagged {
        rank: 3,
        label: "first",
    };
    let second = Tagged {
        rank: 1,
        label: "second",
    };
    let third = Tagged {
        rank: 1,
        label: "third",
    };
    let fourth = Tagged {
        rank: 2,
        label: "fourth",
    };

    let vec = vec![first, second, third, fourth];

    let sorted_vec = vec.cnt_sort().unwrap();

    assert_eq!(vec![second, third, fourth, first], sorted_vec);
}

#[test]
fn test_hash_set() {
    let mut set = HashSet::new();
    set.insert(4);
    set.insert(3);
    set.insert(2);
    set.insert(4);

    let vector: Vec<i32> = set.iter().copied().collect();
    let result = vector.cnt_sort();

    assert!(result.is_ok());

    assert_eq!(vec![2, 3, 4], result.unwrap());
}

#[test]
fn test_signed_extremes_sort() {
    let vector: Vec<i8> = vec![127, -128];
    let sorted_vector = vector.cnt_sort().unwrap();
    assert_eq!(vec![-128, 127], sorted_vector);
}

#[test]
fn test_idempotence() {
    let sorted: Vec<u8> = vec![1, 2, 3, 3, 5, 9];
    let once = sorted.cnt_sort().unwrap();
    assert_eq!(sorted, once);
    let twice = once.cnt_sort().unwrap();
    assert_eq!(once, twice);
}

#[test]
fn test_unsigned_below_min_conversion_fails() {
    // A value below the declared minimum must fail the conversion instead of
    // wrapping around.
    assert!(u8::try_into_index(&1, &5).is_err());
    assert!(u32::try_into_index(&7, &100).is_err());
    assert!(usize::try_into_index(&0, &1).is_err());
}

#[test]
fn test_tagged_into_index() {
    let low = Tagged {
        rank: 2,
        label: "low",
    };
    let high = Tagged {
        rank: 44,
        label: "high",
    };
    assert_eq!(42, Tagged::try_into_index(&high, &low).unwrap());
    assert_eq!(0, Tagged::try_into_index(&low, &low).unwrap());
    assert!(Tagged::try_into_index(&low, &high).is_err());
}

#[test]
fn test_spread_too_large_for_histogram() {
    // The spread usize::MAX cannot be addressed: the histogram would need
    // usize::MAX + 2 slots.
    let vector: Vec<usize> = vec![0, usize::MAX];
    let result = vector.cnt_sort();
    assert!(result.is_err());
    assert_eq!(
        "Conversion into index failed",
        result.unwrap_err().description()
    );
}

#[test]
fn test_u16_full_range() {
    let vector: Vec<u16> = vec![0xFFFF, 0, 0x8000];
    let sorted_vector = vector.cnt_sort().unwrap();
    assert_eq!(vec![0, 0x8000, 0xFFFF], sorted_vector);
}

#[test]
fn test_all_equal_discovered_bounds() {
    let vector: Vec<u8> = vec![5, 5, 5];
    let result = vector.cnt_sort();
    assert!(result.is_err());
    assert_eq!(
        "Minimum value is identical to maximum value, therefore no sorting is necessary",
        result.unwrap_err().description()
    );
}

#[test]
fn test_duplicates_keep_count() {
    let vector: Vec<u8> = vec![9, 2, 9, 2, 9];
    let sorted_vector = vector.cnt_sort().unwrap();
    assert_eq!(vec![2, 2, 9, 9, 9], sorted_vector);
}
