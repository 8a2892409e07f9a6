use somescheme::utils::{clone_rc, is_alnum, push_alnum_only, push_decimal, push_signed_decimal, reversed};
use std::rc::Rc;

fn decimal_of(n: u64) -> String {
    let mut s = String::new();
    push_decimal(&mut s, n);
    s
}

fn signed_of(i: i64) -> String {
    let mut s = String::new();
    push_signed_decimal(&mut s, i);
    s
}

#[test]
fn decimal_of_zero_is_one_digit() {
    assert_eq!(decimal_of(0), "0");
}

#[test]
fn decimal_has_no_leading_zeros() {
    assert_eq!(decimal_of(7), "7");
    assert_eq!(decimal_of(10), "10");
    assert_eq!(decimal_of(1203), "1203");
}

#[test]
fn decimal_of_largest_number() {
    assert_eq!(decimal_of(u64::MAX), "18446744073709551615");
}

#[test]
fn decimal_is_appended_to_what_is_there() {
    let mut s = String::from("var_");
    push_decimal(&mut s, 42);
    assert_eq!(s, "var_42");
}

#[test]
fn signed_decimal_of_negative_has_minus_sign() {
    assert_eq!(signed_of(-1), "-1");
    assert_eq!(signed_of(-120), "-120");
}

#[test]
fn signed_decimal_of_non_negative_has_no_sign() {
    assert_eq!(signed_of(0), "0");
    assert_eq!(signed_of(35), "35");
}

#[test]
fn signed_decimal_of_smallest_and_largest_number() {
    assert_eq!(signed_of(i64::MIN), "-9223372036854775808");
    assert_eq!(signed_of(i64::MAX), "9223372036854775807");
}

#[test]
fn ascii_letters_and_digits_are_alnum() {
    for c in ['a', 'z', 'A', 'Z', '0', '9', 'm', 'Q', '5'] {
        assert!(is_alnum(c));
    }
}

#[test]
fn other_characters_are_not_alnum() {
    for c in ['_', '-', '?', '!', ' ', '+', '\u{e9}', '\u{3b1}', '/', ':', '@', '[', '`', '{'] {
        assert!(!is_alnum(c));
    }
}

#[test]
fn alnum_filter_keeps_order_and_drops_the_rest() {
    let mut s = String::from("v_");
    push_alnum_only(&mut s, "null?-x_1!");
    assert_eq!(s, "v_nullx1");
}

#[test]
fn alnum_filter_of_empty_text_adds_nothing() {
    let mut s = String::from("keep");
    push_alnum_only(&mut s, "");
    assert_eq!(s, "keep");
}

#[test]
fn clone_rc_takes_the_value_of_a_sole_owner() {
    let r = Rc::new(String::from("alone"));
    assert_eq!(clone_rc(r), "alone");
}

#[test]
fn clone_rc_copies_a_shared_value() {
    let r = Rc::new(vec![1u8, 2, 3]);
    let other = r.clone();
    assert_eq!(clone_rc(r), vec![1u8, 2, 3]);
    assert_eq!(*other, vec![1u8, 2, 3]);
    assert_eq!(Rc::strong_count(&other), 1);
}

#[test]
fn reversed_turns_the_order_around() {
    assert_eq!(reversed(vec![1, 2, 3]), vec![3, 2, 1]);
    assert_eq!(reversed(Vec::<u8>::new()), Vec::<u8>::new());
    assert_eq!(reversed(vec!["only"]), vec!["only"]);
}
