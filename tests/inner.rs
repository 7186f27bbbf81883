use moco_vm::inner::{
    box_cons, from_i64, from_number, from_raw, is_cons, to_i64, to_number, to_raw, unbox_cons,
    word32,
};

#[test]
fn box_unbox_cons() {
    assert_eq!(unbox_cons(box_cons(0)), 0);
    assert_eq!(unbox_cons(box_cons(1)), 1);
    assert_eq!(unbox_cons(box_cons(42)), 42);
}

#[test]
fn check_cons() {
    assert!(is_cons(box_cons(0)));
    assert!(!is_cons(to_raw(from_number(0))));
}

#[test]
fn convert_number() {
    assert_eq!(to_number(from_number(-42)), -42);
    assert_eq!(to_number(from_number(-1)), -1);
    assert_eq!(to_number(from_number(0)), 0);
    assert_eq!(to_number(from_number(1)), 1);
    assert_eq!(to_number(from_number(42)), 42);
}

#[test]
fn convert_i64() {
    assert_eq!(to_i64(from_i64(-42)), -42);
    assert_eq!(to_i64(from_i64(-1)), -1);
    assert_eq!(to_i64(from_i64(0)), 0);
    assert_eq!(to_i64(from_i64(1)), 1);
    assert_eq!(to_i64(from_i64(42)), 42);
}

#[test]
fn inner_exact_words() {
    assert_eq!(box_cons(21), 42);
    assert_eq!(unbox_cons(43), 21);
    assert_eq!(from_number(-3), -5);
    assert_eq!(to_number(-5), -3);
    assert_eq!(from_raw(u64::MAX), -1);
    assert_eq!(to_raw(-1), u64::MAX);
}

#[test]
fn inner_word32() {
    assert_eq!(word32::unbox_cons(word32::box_cons(42)), 42);
    assert!(word32::is_cons(word32::box_cons(7)));
    assert!(!word32::is_cons(word32::to_raw(word32::from_number(0))));
    assert_eq!(word32::to_number(word32::from_number(-42)), -42);
    assert_eq!(word32::to_i64(word32::from_i64(42)), 42);
    assert_eq!(word32::from_raw(u32::MAX), -1);
}
