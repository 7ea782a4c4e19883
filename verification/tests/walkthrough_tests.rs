use borrow_tracker::arith::{fibonacci, five, plus_one};
use borrow_tracker::text::{calculate_length, calculate_length_ref, change, first_word,
    first_word_str, gives_ownership, takes_and_gives_back};

#[test]
fn fibonacci_small_values() {
    assert_eq!(fibonacci(0), 0);
    assert_eq!(fibonacci(1), 1);
    assert_eq!(fibonacci(2), 1);
    assert_eq!(fibonacci(6), 8);
    assert_eq!(fibonacci(10), 55);
}

#[test]
fn five_is_five() {
    assert_eq!(five(), 5);
}

#[test]
fn plus_one_adds_one() {
    assert_eq!(plus_one(5), 6);
    assert_eq!(plus_one(-1), 0);
}

#[test]
fn first_word_of_two_words() {
    assert_eq!(first_word_str("hello world"), "hello");
}

#[test]
fn first_word_of_single_word() {
    assert_eq!(first_word_str("hello"), "hello");
}

#[test]
fn first_word_of_empty_string() {
    assert_eq!(first_word_str(""), "");
}

#[test]
fn first_word_with_leading_space() {
    assert_eq!(first_word_str(" lead"), "");
}

#[test]
fn first_word_of_owned_string() {
    let s = String::from("hello world");
    assert_eq!(first_word(&s), "hello");
}

#[test]
fn calculate_length_returns_ownership() {
    let s = String::from("hello");
    let (s2, len) = calculate_length(s);
    assert_eq!(s2, "hello");
    assert_eq!(len, 5);
}

#[test]
fn calculate_length_through_reference() {
    let s = String::from("hello world");
    assert_eq!(calculate_length_ref(&s), 11);
    assert_eq!(s, "hello world");
}

#[test]
fn calculate_length_counts_bytes() {
    let s = String::from("h\u{e9}llo");
    assert_eq!(calculate_length_ref(&s), 6);
    let (s2, len) = calculate_length(s);
    assert_eq!(len, 6);
    assert_eq!(s2, "h\u{e9}llo");
}

#[test]
fn change_appends_through_exclusive_reference() {
    let mut s = String::from("hello");
    change(&mut s);
    assert_eq!(s, "hello, world");
}

#[test]
fn gives_ownership_hands_out_yours() {
    assert_eq!(gives_ownership(), "yours");
}

#[test]
fn takes_and_gives_back_is_identity() {
    let s = String::from("hello");
    assert_eq!(takes_and_gives_back(s), "hello");
}
