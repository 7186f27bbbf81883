use moco_vm::{Cons, Tag, Value, Value64};

#[test]
fn cons_create() {
    assert_eq!(Cons::<Value64>::new(42).index(), 42);
}

#[test]
fn set_index() {
    assert_eq!(Cons::<Value64>::new(0).set_index(42).index(), 42);
}

#[test]
fn set_index_twice() {
    assert_eq!(
        Cons::<Value64>::new(0)
            .set_index(usize::MAX)
            .set_index(42)
            .index(),
        42
    );
}

#[test]
fn set_tag() {
    assert_eq!(Cons::<Value64>::new(0).set_tag(42).tag(), 42);
}

#[test]
fn set_tag_twice() {
    assert_eq!(
        Cons::<Value64>::new(0).set_tag(Tag::MAX).set_tag(42).tag(),
        42
    );
}

#[test]
fn set_index_keeps_tag() {
    let cons = Cons::<Value64>::new(6).set_tag(0x5a).set_index(100);
    assert_eq!(cons.index(), 100);
    assert_eq!(cons.tag(), 0x5a);
}

#[test]
fn set_tag_keeps_index() {
    let cons = Cons::<Value64>::new(1234).set_tag(7);
    assert_eq!(cons.index(), 1234);
    assert_eq!(cons.tag(), 7);
    assert!(cons.to_value().is_pointer());
}

#[test]
fn cons_payload_layout() {
    let cons = Cons::<Value64>::new(3).set_tag(2);
    assert_eq!(cons.to_value().to_pointer(), 3 * 256 + 2);
    assert_eq!(Cons::from_value(cons.to_value()).index(), 3);
}
