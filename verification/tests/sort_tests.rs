use algo::sorts::bubble_sort::bubble_sort;
use algo::sorts::bucket_sort::bucket_sort;
use algo::sorts::counting_sort::counting_sort;
use algo::sorts::heap_sort::heap_sort;
use algo::sorts::merge_sort::{merge, merge_sort};
use algo::sorts::quick_sort::quick_sort;

#[test]
fn bubble_sort_test_ascending_number_sorting() {
    let mut numbers = vec![4, 65, 2, -31, 0, 99, 2, 83, 782, 1];
    bubble_sort(&mut numbers);
    assert_eq!(numbers, [-31, 0, 1, 2, 2, 4, 65, 83, 99, 782]);
}

#[test]
fn bucket_sort_test_ascending_number_sorting() {
    let mut numbers = vec![0.897, 0.565, 0.656, 0.1234, 0.665, 0.3434];
    bubble_sort(&mut numbers);
    assert_eq!(numbers, [0.1234, 0.3434, 0.565, 0.656, 0.665, 0.897]);
}

#[test]
fn bucket_sort_sorts_numbers() {
    let mut numbers = vec![4, 65, 2, -31, 0, 99, 2, 83, 782, 1];
    bucket_sort(&mut numbers);
    assert_eq!(numbers, [-31, 0, 1, 2, 2, 4, 65, 83, 99, 782]);
}

#[test]
fn bucket_sort_sorts_strings() {
    let mut strings = vec!["beach", "hotel", "airplane", "car", "house", "art"];
    bucket_sort(&mut strings);
    assert_eq!(strings, ["airplane", "art", "beach", "car", "hotel", "house"]);
}

#[test]
fn counting_sort_test_ascending_number_sorting() {
    let mut numbers = vec![4, 65, 2, -31, 0, 99, 2, 83, 782, 1];
    counting_sort(&mut numbers);
    assert_eq!(numbers, [-31, 0, 1, 2, 2, 4, 65, 83, 99, 782]);
}

#[test]
fn counting_sort_test_alphabetical_strings_sorting() {
    let mut strings = vec!["beach", "hotel", "airplane", "car", "house", "art"];
    counting_sort(&mut strings);
    assert_eq!(strings, ["airplane", "art", "beach", "car", "hotel", "house"]);
}

#[test]
fn test_empty() {
    let mut array: Vec<i32> = Vec::new();
    heap_sort(&mut array);
    assert_eq!(&array, &[]);
}

#[test]
fn test_single_element() {
    let mut arr = vec![1];
    heap_sort(&mut arr);
    assert_eq!(&arr, &[1]);
}

#[test]
fn test_sorted_array() {
    let mut arr = vec![1, 2, 3, 4];
    heap_sort(&mut arr);
    assert_eq!(&arr, &[1, 2, 3, 4]);
}

#[test]
fn test_unsorted_array() {
    let mut arr = vec![3, 4, 2, 1];
    heap_sort(&mut arr);
    assert_eq!(&arr, &[1, 2, 3, 4]);
}

#[test]
fn test_odd_number_of_elements() {
    let mut arr = vec![3, 4, 2, 1, 7];
    heap_sort(&mut arr);
    assert_eq!(&arr, &[1, 2, 3, 4, 7]);
}

#[test]
fn test_repeated_elements() {
    let mut arr = vec![542, 542, 542, 542];
    heap_sort(&mut arr);
    assert_eq!(&arr, &vec![542, 542, 542, 542]);
}

#[test]
fn heap_sort_test_ascending_number_sorting() {
    let mut numbers = vec![4, 65, 2, -31, 0, 99, 2, 83, 782, 1];
    heap_sort(&mut numbers);
    assert_eq!(numbers, [-31, 0, 1, 2, 2, 4, 65, 83, 99, 782]);
}

#[test]
fn heap_sort_test_alphabetical_strings_sorting() {
    let mut strings = vec!["beach", "hotel", "airplane", "car", "house", "art"];
    heap_sort(&mut strings);
    assert_eq!(strings, ["airplane", "art", "beach", "car", "hotel", "house"]);
}

#[test]
fn merge_sort_test_ascending_number_sorting() {
    let mut numbers = vec![4, 65, 2, -31, 0, 99, 2, 83, 782, 1];
    merge_sort(&mut numbers);
    assert_eq!(numbers, [-31, 0, 1, 2, 2, 4, 65, 83, 99, 782]);
}

#[test]
fn merge_sort_test_alphabetical_strings_sorting() {
    let mut strings = vec!["beach", "hotel", "airplane", "car", "house", "art"];
    merge_sort(&mut strings);
    assert_eq!(strings, ["airplane", "art", "beach", "car", "hotel", "house"]);
}

#[test]
fn merge_interleaves_two_sorted_vectors() {
    let left = vec![1, 4, 6];
    let right = vec![2, 3, 5, 7];
    let merged = merge(&left, &right);
    assert_eq!(merged, [1, 2, 3, 4, 5, 6, 7]);
}

#[test]
fn quick_sort_test_ascending_number_sorting() {
    let mut numbers = vec![4, 65, 2, -31, 0, 99, 2, 83, 782, 1];
    quick_sort(&mut numbers);
    assert_eq!(numbers, [-31, 0, 1, 2, 2, 4, 65, 83, 99, 782]);
}

#[test]
fn quick_sort_test_alphabetical_strings_sorting() {
    let mut strings = vec!["beach", "hotel", "airplane", "car", "house", "art"];
    quick_sort(&mut strings);
    assert_eq!(strings, ["airplane", "art", "beach", "car", "hotel", "house"]);
}

#[test]
fn quick_sort_handles_empty_vector() {
    let mut empty: Vec<u8> = Vec::new();
    quick_sort(&mut empty);
    assert_eq!(empty, []);
}
