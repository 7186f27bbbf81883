use moco_vm::{Value, Value16, Value32, Value64};

fn assert_width_laws<V: Value + std::fmt::Debug + PartialEq + Default>() {
    // An integer survives the trip through a value, at both ends of the range.
    for n in [-42i64, -1, 0, 1, 42, -0x2000, 0x1fff] {
        assert_eq!(V::from_number(n).to_number(), n);
        assert!(!V::from_number(n).is_pointer());
        assert!(!V::from_number(n).is_marked());
    }
    // A pointer survives the trip, and is told apart from the integer.
    for i in [0u64, 1, 2, 42, 0x3ffe] {
        assert_eq!(V::from_pointer(i).to_pointer(), i);
        assert!(V::from_pointer(i).is_pointer());
        assert!(!V::from_number(i as i64).is_pointer());
    }
    // Marking sets the mark and keeps the payloads.
    for mark in [false, true] {
        for n in [-42i64, 0, 42] {
            let v = V::from_number(n).mark(mark);
            assert_eq!(v.is_marked(), mark);
            assert_eq!(v.to_number(), n);
            assert!(!v.is_pointer());
        }
        for i in [0u64, 1, 42] {
            let v = V::from_pointer(i).mark(mark);
            assert_eq!(v.is_marked(), mark);
            assert_eq!(v.to_pointer(), i);
            assert!(v.is_pointer());
        }
    }
    // Clearing the mark of an unmarked value leaves it as it is.
    for v in [V::from_number(-7), V::from_pointer(1), V::zero()] {
        assert_eq!(v.mark(false), v);
        assert_eq!(v.mark(true).mark(false), v);
    }
    assert_eq!(V::zero(), V::default());
    assert_eq!(V::from_number(0), V::zero());
}

#[test]
fn value16_laws() {
    assert_width_laws::<Value16>();
}

#[test]
fn value32_laws() {
    assert_width_laws::<Value32>();
}

#[test]
fn value64_laws() {
    assert_width_laws::<Value64>();
}

#[test]
fn value64_extremes() {
    let min = -0x2000_0000_0000_0000i64;
    let max = 0x1fff_ffff_ffff_ffffi64;
    assert_eq!(Value64::from_number(min).to_number(), min);
    assert_eq!(Value64::from_number(max).to_number(), max);
    assert_eq!(Value64::from_pointer(0x3fff_ffff_ffff_ffff).to_pointer(), 0x3fff_ffff_ffff_ffff);
}

#[test]
fn set_pointer_keeps_low_bits() {
    let v = Value64::from_pointer(5).mark(true).set_pointer(9);
    assert_eq!(v.to_pointer(), 9);
    assert!(v.is_marked());
    assert!(v.is_pointer());
    let w = Value16::from_number(3).set_pointer(1);
    assert!(!w.is_pointer());
    assert_eq!(w.to_number(), 1);
}

#[test]
fn from_pointer_drops_high_bits() {
    assert_eq!(Value16::from_pointer(0x4000 + 7).to_pointer(), 7);
    assert_eq!(Value32::from_pointer(0x4000_0000 + 7).to_pointer(), 7);
}
