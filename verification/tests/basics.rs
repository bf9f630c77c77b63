use std::cell::Cell;
use taskpool::lazy::{process_vector, ComputeCache};
use taskpool::numbers::{check_guess, is_even, sum};
use taskpool::text::{clone_and_modify, concat_strings};

#[test]
fn even_and_odd() {
    for n in [0, 2, 22, 18, 24, -4, i32::MIN] {
        assert!(is_even(n));
    }
    for n in [1, 9, 7, 3, 15, 5, -1, -3, i32::MAX] {
        assert!(!is_even(n));
    }
}

#[test]
fn guess_hints() {
    assert_eq!(check_guess(75, 75), 0);
    assert_eq!(check_guess(76, 75), 1);
    assert_eq!(check_guess(100, 75), 1);
    assert_eq!(check_guess(74, 75), -1);
    assert_eq!(check_guess(-5, 75), -1);
    assert_eq!(check_guess(i32::MIN, i32::MIN), 0);
}

#[test]
fn sum_of_zero_to_hundred() {
    let mut total = 0;
    sum(&mut total, 0, 100);
    assert_eq!(total, 5050);
}

#[test]
fn sum_of_other_ranges() {
    let mut total = 99;
    sum(&mut total, 5, 4);
    assert_eq!(total, 0);
    sum(&mut total, 7, 7);
    assert_eq!(total, 7);
    sum(&mut total, -3, 2);
    assert_eq!(total, -3);
    sum(&mut total, -100, 100);
    assert_eq!(total, 0);
    sum(&mut total, i32::MAX, i32::MAX);
    assert_eq!(total, i32::MAX);
    sum(&mut total, 1, 65535);
    assert_eq!(total, 2147450880);
}

#[test]
fn concat_keeps_both_arguments() {
    let s1 = String::from("Hello, ");
    let s2 = String::from("World!");
    let result = concat_strings(&s1, &s2);
    assert_eq!(result, "Hello, World!");
    assert_eq!(s1, "Hello, ");
    assert_eq!(s2, "World!");
    assert_eq!(concat_strings(&String::new(), &String::new()), "");
}

#[test]
fn clone_and_modify_leaves_its_argument() {
    let s = String::from("Hello, ");
    let modified = clone_and_modify(&s);
    assert_eq!(s, "Hello, ");
    assert_eq!(modified, "Hello, World!");
    assert_eq!(clone_and_modify(&String::new()), "World!");
}

#[test]
fn process_vector_maps_in_order() {
    let numbers = vec![1, 2, 3];
    let doubled = process_vector(numbers.clone(), |x| x * 2);
    assert_eq!(doubled, vec![2, 4, 6]);
    let replaced = process_vector(numbers, |x| if x > 2 { 0 } else { x });
    assert_eq!(replaced, vec![1, 2, 0]);
    assert_eq!(process_vector(Vec::new(), |x| x + 1), Vec::<i32>::new());
}

#[test]
fn cache_computes_once() {
    let calls = Cell::new(0);
    let mut cache = ComputeCache::new(|| {
        calls.set(calls.get() + 1);
        "Hello, world!".to_string()
    });
    assert_eq!(calls.get(), 0);
    assert_eq!(cache.get_result(), "Hello, world!");
    assert_eq!(calls.get(), 1);
    assert_eq!(cache.get_result(), "Hello, world!");
    assert_eq!(cache.get_result(), "Hello, world!");
    assert_eq!(calls.get(), 1);
}
