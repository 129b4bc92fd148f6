use counting_sort::{
    calculate_prefix_sum, count_values, counting_sort, counting_sort_min_max, get_min_max,
    re_order, CountingSort, CountingSortError, TryIntoIndex,
};

fn test_array_min_value() -> u8 {
    1
}

fn test_array_max_value() -> u8 {
    30
}

fn test_array_unsorted() -> Vec<u8> {
    vec![
        13, 24, 27, 3, 10, 1, 9, 17, 6, 7, 3, 30, 14, 15, 2, 3, 7, 11, 21, 16, 7, 11, 21, 5, 23,
        25, 26, 28, 28, 4,
    ]
}

fn test_array_sorted() -> Vec<u8> {
    vec![
        1, 2, 3, 3, 3, 4, 5, 6, 7, 7, 7, 9, 10, 11, 11, 13, 14, 15, 16, 17, 21, 21, 23, 24, 25,
        26, 27, 28, 28, 30,
    ]
}

fn test_count_values_array() -> Vec<usize> {
    vec![
        0, 1, 1, 3, 1, 1, 1, 3, 0, 1, 1, 2, 0, 1, 1, 1, 1, 1, 0, 0, 0, 2, 0, 1, 1, 1, 1, 1, 2, 0,
        1,
    ]
}

fn test_prefix_sum_array() -> Vec<usize> {
    vec![
        0, 1, 2, 5, 6, 7, 8, 11, 11, 12, 13, 15, 15, 16, 17, 18, 19, 20, 20, 20, 20, 22, 22, 23,
        24, 25, 26, 27, 29, 29, 30,
    ]
}

#[test]
fn test_cnt_sort_i8_vector() {
    let test_vector: Vec<i8> = vec![2, -2, 1, -6];
    let sorted_vector = counting_sort(&test_vector).unwrap();
    assert_eq!(vec![-6, -2, 1, 2], sorted_vector);
}

#[test]
fn test_cnt_sort_i8_vector_with_overflow() {
    let test_vector: Vec<i8> = vec![2, -100, 50, -6];
    let sorted_vector = counting_sort(&test_vector).unwrap();
    assert_eq!(vec![-100, -6, 2, 50], sorted_vector);
}

#[test]
fn test_cnt_sort_u8_vector() {
    let mut test_vector = test_array_unsorted();
    test_vector = test_vector.cnt_sort().unwrap();
    let sorted_vector = test_array_sorted();
    assert_eq!(sorted_vector, test_vector);
}

#[test]
fn test_cnt_sort_min_max_u8_vector() {
    let mut test_vector = test_array_unsorted();
    test_vector = test_vector
        .cnt_sort_min_max(&test_array_min_value(), &test_array_max_value())
        .unwrap();
    let sorted_vector = test_array_sorted();
    assert_eq!(sorted_vector, test_vector);
}

#[test]
fn test_into_index_i8() {
    assert_eq!(255, i8::try_into_index(&127, &-128).unwrap());
    assert_eq!(0, i8::try_into_index(&-128, &-128).unwrap());
    assert_eq!(150, i8::try_into_index(&50, &-100).unwrap());
    assert_eq!(50, i8::try_into_index(&-50, &-100).unwrap());
    assert_eq!(27, i8::try_into_index(&127, &100).unwrap());
}

#[test]
fn test_into_index_i16() {
    assert_eq!(0xFFFF, i16::try_into_index(&32767, &-32768).unwrap());
    assert_eq!(0, i16::try_into_index(&-32768, &-32768).unwrap());
    assert_eq!(0, i16::try_into_index(&32767, &32767).unwrap());
}

#[test]
fn test_into_index_i32() {
    assert_eq!(
        0xFFFFFFFFusize,
        i32::try_into_index(&2147483647, &-2147483648).unwrap()
    );
    assert_eq!(0, i32::try_into_index(&-2147483648, &-2147483648).unwrap());
    assert_eq!(1, i32::try_into_index(&-2147483647, &-2147483648).unwrap());
    assert_eq!(0, i32::try_into_index(&2147483647, &2147483647).unwrap());
}

#[test]
fn test_into_index_u8() {
    assert_eq!(255, u8::try_into_index(&255, &0).unwrap());
    assert_eq!(0, u8::try_into_index(&0, &0).unwrap());
    assert_eq!(0, u8::try_into_index(&255, &255).unwrap());
    assert_eq!(50, u8::try_into_index(&150, &100).unwrap());
    assert_eq!(50, u8::try_into_index(&100, &50).unwrap());
    assert_eq!(27, i8::try_into_index(&127, &100).unwrap());
}

#[test]
fn test_into_index_u16() {
    assert_eq!(0xFFFF, u16::try_into_index(&0xFFFF, &0).unwrap());
    assert_eq!(0, u16::try_into_index(&0, &0).unwrap());
    assert_eq!(0, u16::try_into_index(&0xFFFF, &0xFFFF).unwrap());
    assert_eq!(1, u16::try_into_index(&0xFFFF, &0xFFFE).unwrap());
}

#[test]
fn test_into_index_u32() {
    assert_eq!(
        0xFFFFFFFFusize,
        u32::try_into_index(&0xFFFFFFFF, &0).unwrap()
    );
    assert_eq!(0, u32::try_into_index(&0, &0).unwrap());
    assert_eq!(50, u32::try_into_index(&1000000, &999950).unwrap());
    assert_eq!(50, u8::try_into_index(&100, &50).unwrap());
    assert_eq!(27, i8::try_into_index(&127, &100).unwrap());
}

#[test]
fn test_counting_sort() {
    let test_vector: Vec<u8> = test_array_unsorted();
    let sorted_vector = counting_sort(&test_vector).unwrap();
    let expected_vector = test_array_sorted();
    assert_eq!(expected_vector, sorted_vector);
}

#[test]
fn test_counting_sort_min_max() {
    let test_vector: Vec<u8> = test_array_unsorted();
    let sorted_vector =
        counting_sort_min_max(&test_vector, &test_array_min_value(), &test_array_max_value())
            .unwrap();
    let expected_vector = test_array_sorted();
    assert_eq!(expected_vector, sorted_vector);
}

#[test]
fn test_count_values() {
    let test_vector = test_array_unsorted();
    let result_count_value_vector =
        count_values(&test_vector, &test_array_min_value(), &test_array_max_value());
    assert!(result_count_value_vector.is_ok());
    let count_values_vector = result_count_value_vector.unwrap();
    let expected_vector = test_count_values_array();
    assert_eq!(expected_vector, count_values_vector);
}

#[test]
fn test_get_min_max_unsigned() {
    let test_vector: Vec<u8> = vec![1, 2, 3, 4];
    let tuple = get_min_max(&test_vector);
    assert!(tuple.is_some());
    let (min_value, max_value) = tuple.unwrap();
    assert_eq!(1, min_value);
    assert_eq!(4, max_value);
}

#[test]
fn test_get_min_max_without_min() {
    let test_vector: Vec<u8> = Vec::new();
    let tuple = get_min_max(&test_vector);
    assert!(tuple.is_none());
}

#[test]
fn test_get_min_max_signed() {
    let test_vector: Vec<i8> = vec![-128, 2, 3, 127];
    let tuple = get_min_max(&test_vector);
    assert!(tuple.is_some());
    let (min_value, max_value) = tuple.unwrap();
    assert_eq!(-128, min_value);
    assert_eq!(127, max_value);
}

#[test]
fn test_calculate_prefix_sum_1() {
    let mut test_vector: Vec<usize> = vec![1; 4];
    calculate_prefix_sum(&mut test_vector);
    assert_eq!(vec![1, 2, 3, 4], test_vector);
}

#[test]
fn test_calculate_prefix_sum_2() {
    let mut test_vector: Vec<usize> = vec![1, 2, 3, 4, 5];
    calculate_prefix_sum(&mut test_vector);
    assert_eq!(vec![1, 3, 6, 10, 15], test_vector);
}

#[test]
fn test_calculate_prefix_sum_3() {
    let mut test_vector = test_count_values_array();
    calculate_prefix_sum(&mut test_vector);
    assert_eq!(test_prefix_sum_array(), test_vector);
}

#[test]
fn test_re_order() {
    let test_vector = test_array_unsorted();
    let mut test_count_vector = test_prefix_sum_array();
    let result_sorted_vector = re_order(
        &test_vector,
        &mut test_count_vector,
        test_vector.len(),
        &test_array_min_value(),
    );
    assert!(result_sorted_vector.is_ok());
    let sorted_vector = result_sorted_vector.unwrap();
    assert_eq!(test_array_sorted(), sorted_vector);
}

#[test]
fn test_min_value_larger_max_value_error() {
    let test_vector = vec![1];
    let result = counting_sort_min_max(&test_vector, &1, &0);
    assert!(result.is_err());
    assert_eq!(
        "Minimum value is larger than maximum value",
        result.unwrap_err().description()
    );
}

#[test]
fn test_sorting_unnecessary_error() {
    let test_vector = vec![1];
    let result = counting_sort_min_max(&test_vector, &1, &1);
    assert!(result.is_err());
    assert_eq!(
        "Minimum value is identical to maximum value, therefore no sorting is necessary",
        result.unwrap_err().description()
    );
}

#[test]
fn test_empty_iterator_error() {
    let test_vector: Vec<u8> = vec![];
    let result = counting_sort(&test_vector);
    assert!(result.is_err());
    assert_eq!(
        "There are no element available in the iterator",
        result.unwrap_err().description()
    );
    let test_vector: Vec<u8> = vec![];
    let result = counting_sort_min_max(&test_vector, &0, &1);
    assert!(result.is_ok());
    assert_eq!(test_vector, result.unwrap());
}

#[test]
fn test_incorrect_given_min_max_values() {
    let vec: Vec<i32> = vec![4, 3, 2, 1];

    let error = vec.cnt_sort_min_max(&2, &4);
    assert!(error.is_err());
    assert_eq!(
        "Conversion into index failed",
        error.unwrap_err().description()
    );

    let error = vec.cnt_sort_min_max(&1, &3);
    assert!(error.is_err());
    assert_eq!(
        "Index is out of bounds, most likely the given maximum value is too small",
        error.unwrap_err().description()
    );
}

#[test]
fn test_re_order_index_out_of_bounds_error() {
    let vec: Vec<i32> = vec![1, 2];
    let mut count_vector = vec![1];
    let result = re_order(&vec, &mut count_vector, 2, &1);
    assert!(result.is_err());
    assert_eq!(
        CountingSortError::from_index_out_of_bounds().description(),
        result.unwrap_err().description()
    );
}
