use moco_vm::{Cons, Error, Memory, Value, Value64};
use std::collections::HashSet;

const HEAP_SIZE: usize = 1 << 10;

fn fresh() -> Memory<Value64> {
    Memory::<Value64>::new(vec![Value64::default(); HEAP_SIZE]).unwrap()
}

fn num(n: i64) -> Value64 {
    Value64::from_number(n)
}

fn free_list_length(memory: &Memory<Value64>) -> usize {
    let mut free = memory.free();
    let mut length = 0;

    while free.is_pointer() {
        free = memory.get(Cons::from_value(free).index() + 1).unwrap();
        length += 1;
    }

    length
}

fn assert_free_list(memory: &Memory<Value64>, allocations: usize) {
    assert_eq!(free_list_length(memory), HEAP_SIZE / 2 - allocations);
}

fn assert_equal_values(memory: &Memory<Value64>, x: Value64, y: Value64) {
    let mut values = HashSet::new();

    assert_recursive_equal_values(&mut values, memory, x, y)
}

fn assert_recursive_equal_values(
    values: &mut HashSet<Value64>,
    memory: &Memory<Value64>,
    x: Value64,
    y: Value64,
) {
    assert_eq!(x.is_pointer(), y.is_pointer());

    if x.is_pointer() && !values.contains(&x) {
        values.insert(x);

        assert_eq!(x.is_marked(), y.is_marked());

        let x = Cons::from_value(x);
        let y = Cons::from_value(y);

        assert_eq!(x.tag(), y.tag());

        for field in [0, 1] {
            assert_recursive_equal_values(
                values,
                memory,
                memory.get(x.index() + field).unwrap(),
                memory.get(y.index() + field).unwrap(),
            );
        }
    } else {
        assert_eq!(x, y)
    }
}

fn assert_value(memory: &Memory<Value64>, other_memory: &Memory<Value64>, x: Value64) {
    let mut values = HashSet::new();

    assert_recursive_value(&mut values, memory, other_memory, x)
}

fn assert_recursive_value(
    values: &mut HashSet<Value64>,
    memory: &Memory<Value64>,
    other_memory: &Memory<Value64>,
    x: Value64,
) {
    if x.is_pointer() && !values.contains(&x) {
        values.insert(x);

        let x = Cons::from_value(x);

        for field in [0, 1] {
            let index = x.index() + field;
            let value = memory.get(index).unwrap();

            assert_eq!(value, other_memory.get(index).unwrap());

            assert_recursive_value(values, memory, other_memory, value);
        }
    }
}

fn assert_no_marks(memory: &Memory<Value64>) {
    for index in 0..HEAP_SIZE {
        assert!(!memory.get(index).unwrap().is_marked());
    }
}

#[test]
fn memory_create() {
    fresh();
}

#[test]
fn allocate_cons_cell() {
    let mut memory = fresh();

    let x = memory
        .allocate(Default::default(), Default::default())
        .unwrap();
    let y = memory
        .allocate(Default::default(), Default::default())
        .unwrap();

    assert_equal_values(&memory, x.to_value(), y.to_value());
    assert_free_list(&memory, 2);
}

#[test]
fn allocate_two_cons_cells() {
    let mut memory = fresh();

    let cons = memory
        .allocate(Default::default(), Default::default())
        .unwrap();
    let x = memory.allocate(Default::default(), cons.to_value()).unwrap();

    let cons = memory
        .allocate(Default::default(), Default::default())
        .unwrap();
    let y = memory.allocate(Default::default(), cons.to_value()).unwrap();

    assert_equal_values(&memory, x.to_value(), y.to_value());
    assert_free_list(&memory, 4);
}

#[test]
fn allocate_three_cons_cells() {
    let mut memory = fresh();

    let car = memory
        .allocate(Default::default(), Default::default())
        .unwrap();
    let cdr = memory
        .allocate(Default::default(), Default::default())
        .unwrap();
    let x = memory.allocate(car.to_value(), cdr.to_value()).unwrap();

    let car = memory
        .allocate(Default::default(), Default::default())
        .unwrap();
    let cdr = memory
        .allocate(Default::default(), Default::default())
        .unwrap();
    let y = memory.allocate(car.to_value(), cdr.to_value()).unwrap();

    assert_equal_values(&memory, x.to_value(), y.to_value());
    assert_free_list(&memory, 6);
}

#[test]
fn keep_cons() {
    let mut memory = fresh();

    let cons = memory.allocate(num(1), num(2)).unwrap();
    memory.set_root(cons.to_value());

    let old_memory = memory.clone();
    memory.collect_garbages().unwrap();

    assert_value(&memory, &old_memory, cons.to_value());
    assert_free_list(&memory, 1);
}

#[test]
fn keep_two_cons_cells() {
    let mut memory = fresh();

    let cons = memory.allocate(num(1), num(2)).unwrap();
    let cons = memory.allocate(num(3), cons.to_value()).unwrap();
    memory.set_root(cons.to_value());

    let old_memory = memory.clone();
    memory.collect_garbages().unwrap();

    assert_value(&memory, &old_memory, cons.to_value());
    assert_free_list(&memory, 2);
}

#[test]
fn keep_three_cons_cells() {
    let mut memory = fresh();

    let car = memory.allocate(num(1), num(2)).unwrap();
    let cdr = memory.allocate(num(3), num(4)).unwrap();
    let cons = memory.allocate(car.to_value(), cdr.to_value()).unwrap();
    memory.set_root(cons.to_value());

    let old_memory = memory.clone();
    memory.collect_garbages().unwrap();

    assert_value(&memory, &old_memory, cons.to_value());
    assert_free_list(&memory, 3);
}

#[test]
fn keep_recursive_cons_in_car() {
    let mut memory = fresh();

    let cons = memory.allocate(Default::default(), num(42)).unwrap();
    memory.set(cons.index(), cons.to_value()).unwrap();
    memory.set_root(cons.to_value());

    let old_memory = memory.clone();
    memory.collect_garbages().unwrap();

    assert_value(&memory, &old_memory, cons.to_value());
    assert_free_list(&memory, 1);
}

#[test]
fn keep_recursive_cons_in_cdr() {
    let mut memory = fresh();

    let cons = memory.allocate(num(42), Default::default()).unwrap();
    memory.set(cons.index() + 1, cons.to_value()).unwrap();
    memory.set_root(cons.to_value());

    let old_memory = memory.clone();
    memory.collect_garbages().unwrap();

    assert_value(&memory, &old_memory, cons.to_value());
    assert_free_list(&memory, 1);
}

#[test]
fn collect_recursive_cons_in_car() {
    let mut memory = fresh();

    let cons = memory.allocate(Default::default(), num(42)).unwrap();
    memory.set(cons.index(), cons.to_value()).unwrap();

    memory.collect_garbages().unwrap();

    assert_free_list(&memory, 0);
}

#[test]
fn collect_recursive_cons_in_cdr() {
    let mut memory = fresh();

    let cons = memory.allocate(num(42), Default::default()).unwrap();
    memory.set(cons.index() + 1, cons.to_value()).unwrap();

    memory.collect_garbages().unwrap();

    assert_free_list(&memory, 0);
}

#[test]
fn fresh_memory_frees_every_cell() {
    let memory = fresh();
    assert_free_list(&memory, 0);
    assert_no_marks(&memory);
    assert!(!memory.root().is_pointer());
}

#[test]
fn fresh_memory_zeroes_the_heap() {
    let memory = Memory::<Value64>::new(vec![num(9); 8]).unwrap();
    for index in [0, 2, 4, 6] {
        assert_eq!(memory.get(index).unwrap(), num(0));
    }
    // The free list runs from the highest cell down, through the tails.
    assert_eq!(Cons::from_value(memory.free()).index(), 6);
    assert_eq!(Cons::from_value(memory.get(7).unwrap()).index(), 4);
    assert_eq!(Cons::from_value(memory.get(3).unwrap()).index(), 0);
    assert_eq!(memory.get(1).unwrap(), num(0));
}

#[test]
fn allocate_fills_the_first_free_cell() {
    let mut memory = fresh();
    let free = memory.free();
    let cons = memory.allocate(num(5), num(6)).unwrap();
    assert_eq!(cons.to_value(), free);
    assert_eq!(memory.get(cons.index()).unwrap(), num(5));
    assert_eq!(memory.get(cons.index() + 1).unwrap(), num(6));
    // The cell is no longer on the free list.
    let mut next = memory.free();
    while next.is_pointer() {
        let index = Cons::from_value(next).index();
        assert_ne!(index, cons.index());
        next = memory.get(index + 1).unwrap();
    }
}

#[test]
fn collect_twice_unreferenced_cells() {
    let mut memory = fresh();
    memory.allocate(num(0), num(0)).unwrap();
    memory.allocate(num(0), num(0)).unwrap();
    memory.collect_garbages().unwrap();
    assert_free_list(&memory, 0);
    assert_no_marks(&memory);
}

#[test]
fn collect_keeps_root_cell() {
    let mut memory = fresh();
    let c1 = memory.allocate(num(1), num(2)).unwrap();
    memory.set_root(c1.to_value());
    memory.collect_garbages().unwrap();
    assert_eq!(memory.get(c1.index()).unwrap(), num(1));
    assert_eq!(memory.get(c1.index() + 1).unwrap(), num(2));
    assert_eq!(free_list_length(&memory), 511);
    assert_no_marks(&memory);
}

#[test]
fn collect_keeps_chain() {
    let mut memory = fresh();
    let c1 = memory.allocate(num(1), num(2)).unwrap();
    let c2 = memory.allocate(num(3), c1.to_value()).unwrap();
    memory.set_root(c2.to_value());
    memory.collect_garbages().unwrap();
    assert_eq!(memory.get(c1.index()).unwrap(), num(1));
    assert_eq!(memory.get(c1.index() + 1).unwrap(), num(2));
    assert_eq!(memory.get(c2.index()).unwrap(), num(3));
    assert_eq!(memory.get(c2.index() + 1).unwrap(), c1.to_value());
    assert_eq!(free_list_length(&memory), 510);
    assert_no_marks(&memory);
}

#[test]
fn collect_keeps_self_cycle() {
    let mut memory = fresh();
    let c = memory.allocate(num(0), num(0)).unwrap();
    memory.set(c.index(), c.to_value()).unwrap();
    memory.set_root(c.to_value());
    memory.collect_garbages().unwrap();
    assert_eq!(memory.get(c.index()).unwrap(), c.to_value());
    assert_eq!(free_list_length(&memory), 511);
    assert_no_marks(&memory);
}

#[test]
fn collect_frees_unrooted_cycle() {
    let mut memory = fresh();
    let c = memory.allocate(num(0), num(0)).unwrap();
    memory.set(c.index() + 1, c.to_value()).unwrap();
    memory.collect_garbages().unwrap();
    assert_eq!(free_list_length(&memory), 512);
}

#[test]
fn collect_keeps_tags() {
    let mut memory = fresh();
    let leaf = memory.allocate(num(7), num(8)).unwrap();
    let tagged = leaf.set_tag(0x35).to_value();
    let cons = memory.allocate(tagged, tagged).unwrap();
    memory.set_root(cons.to_value());
    memory.collect_garbages().unwrap();
    assert_eq!(memory.get(cons.index()).unwrap(), tagged);
    assert_eq!(memory.get(cons.index() + 1).unwrap(), tagged);
    assert_eq!(free_list_length(&memory), 510);
    assert_no_marks(&memory);
}

#[test]
fn collect_twice_is_collect_once() {
    let mut memory = fresh();
    let a = memory.allocate(num(1), num(2)).unwrap();
    let b = memory.allocate(a.to_value(), a.to_value()).unwrap();
    memory.allocate(num(3), b.to_value()).unwrap();
    memory.set_root(b.to_value());
    memory.collect_garbages().unwrap();
    let once: Vec<Value64> = memory.heap().to_vec();
    let once_free = memory.free();
    memory.collect_garbages().unwrap();
    assert_eq!(memory.heap().to_vec(), once);
    assert_eq!(memory.free(), once_free);
}

#[test]
fn allocate_out_of_memory() {
    let mut memory = Memory::<Value64>::new(vec![Value64::default(); 4]).unwrap();
    let a = memory.allocate(num(1), num(2)).unwrap();
    let b = memory.allocate(num(3), a.to_value()).unwrap();
    memory.set_root(b.to_value());
    assert_eq!(memory.allocate(num(5), num(6)).unwrap_err(), Error::OutOfMemory);
}

#[test]
fn allocate_collects_when_full() {
    let mut memory = Memory::<Value64>::new(vec![Value64::default(); 4]).unwrap();
    let a = memory.allocate(num(1), num(2)).unwrap();
    memory.allocate(num(3), num(4)).unwrap();
    memory.set_root(a.to_value());
    let c = memory.allocate(num(5), num(6)).unwrap();
    assert_ne!(c.index(), a.index());
    assert_eq!(memory.get(a.index()).unwrap(), num(1));
    assert_eq!(memory.get(c.index()).unwrap(), num(5));
}

#[test]
fn collect_reports_pointer_outside_heap() {
    let mut memory = Memory::<Value64>::new(vec![Value64::default(); 4]).unwrap();
    memory.set_root(Cons::<Value64>::new(40).to_value());
    assert_eq!(memory.collect_garbages().unwrap_err(), Error::InvalidMemoryAccess);
}

#[test]
fn get_and_set_outside_heap() {
    let mut memory = fresh();
    assert_eq!(memory.get(HEAP_SIZE).unwrap_err(), Error::InvalidMemoryAccess);
    assert_eq!(memory.set(HEAP_SIZE, num(1)).unwrap_err(), Error::InvalidMemoryAccess);
    memory.set(3, num(1)).unwrap();
    assert_eq!(memory.get(3).unwrap(), num(1));
}

#[test]
fn allocate_reports_root_outside_heap() {
    let mut memory = Memory::<Value64>::new(vec![Value64::default(); 4]).unwrap();
    memory.allocate(num(1), num(2)).unwrap();
    memory.allocate(num(3), num(4)).unwrap();
    memory.set_root(Cons::<Value64>::new(40).to_value());
    assert_eq!(memory.allocate(num(5), num(6)).unwrap_err(), Error::InvalidMemoryAccess);
}
