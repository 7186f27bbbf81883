use moco_vm::{decode_integer_tail, Cons, Error, Instruction, Value, Value64, Vm, INTEGER_BASE};

const HEAP_SIZE: usize = 1 << 8;

fn num(n: i64) -> Value64 {
    Value64::from_number(n)
}

#[test]
fn index() {
    let mut vm = Vm::<Value64, 0b11>::new(vec![Value64::default(); HEAP_SIZE]).unwrap();

    assert_eq!(vm.memory().get(0b1).unwrap(), Default::default());

    let cons = vm.memory_mut().allocate(num(1), num(2)).unwrap();
    vm.memory_mut().set_root(cons.to_value());

    assert_eq!(vm.memory().get(vm.index(0b10).unwrap()).unwrap(), num(1));
    assert_eq!(vm.memory().get(vm.index(0b11).unwrap()).unwrap(), num(2));
}

#[test]
fn index_adds_the_bits_below_the_highest() {
    let mut vm = Vm::<Value64, 0b11>::new(vec![Value64::default(); HEAP_SIZE]).unwrap();
    vm.memory_mut().set_root(Cons::<Value64>::new(10).to_value());
    let root = 10;
    assert_eq!(vm.index(0b1).unwrap(), root);
    assert_eq!(vm.index(0b10).unwrap(), root);
    assert_eq!(vm.index(0b11).unwrap(), root + 1);
    assert_eq!(vm.index(0b1011).unwrap(), root + 2);
    assert_eq!(vm.index(0b1111).unwrap(), root + 3);
}

#[test]
fn index_outside_heap() {
    let mut vm = Vm::<Value64, 0b11>::new(vec![Value64::default(); 4]).unwrap();
    let cons = vm.memory_mut().allocate(num(1), num(2)).unwrap();
    vm.memory_mut().set_root(cons.to_value());
    assert_eq!(cons.index(), 2);
    assert_eq!(vm.index(0b111).unwrap_err(), Error::InvalidMemoryAccess);
}

#[test]
fn run_halts_on_empty_program() {
    let mut vm = Vm::<Value64, 0b11>::new(vec![Value64::default(); 1024]).unwrap();
    let cons = vm.memory_mut().allocate(num(1), num(2)).unwrap();
    vm.memory_mut().set_root(cons.to_value());

    assert_eq!(vm.run(usize::MAX), Ok(true));

    assert_eq!(vm.memory().get(vm.index(0b10).unwrap()).unwrap(), num(1));
    assert_eq!(vm.memory().get(vm.index(0b11).unwrap()).unwrap(), num(2));
}

/// Builds a root cell whose tail holds a program of one instruction, with
/// `operand` and the tag `tag`, and whose head holds `head`.
fn one_instruction(
    vm: &mut Vm<Value64, 0b11>,
    head: Value64,
    operand: Value64,
    tag: u8,
) -> Cons<Value64> {
    let memory = vm.memory_mut();
    let last = memory.allocate(num(0), num(0)).unwrap();
    let first = memory
        .allocate(operand, last.set_tag(tag).to_value())
        .unwrap();
    let root = memory.allocate(head, first.to_value()).unwrap();
    memory.set_root(root.to_value());
    root
}

#[test]
fn run_move() {
    let mut vm = Vm::<Value64, 0b11>::new(vec![Value64::default(); HEAP_SIZE]).unwrap();
    let source = vm.memory_mut().allocate(num(77), num(0)).unwrap();
    let root = one_instruction(&mut vm, num(0), num(source.index() as i64), (0b10 << 1) | 1);

    assert_eq!(vm.run(10), Ok(true));
    assert_eq!(vm.memory().get(root.index()).unwrap(), num(77));
}

#[test]
fn run_cons() {
    let mut vm = Vm::<Value64, 0b11>::new(vec![Value64::default(); HEAP_SIZE]).unwrap();
    let root = one_instruction(&mut vm, num(9), num(5), 0b10 << 1);

    assert_eq!(vm.run(10), Ok(true));
    let head = vm.memory().get(root.index()).unwrap();
    assert!(head.is_pointer());
    let cell = Cons::from_value(head).index();
    assert_eq!(vm.memory().get(cell).unwrap(), num(5));
    assert_eq!(vm.memory().get(cell + 1).unwrap(), num(9));
}

#[test]
fn run_move_needs_number() {
    let mut vm = Vm::<Value64, 0b11>::new(vec![Value64::default(); HEAP_SIZE]).unwrap();
    let target = vm.memory_mut().allocate(num(1), num(1)).unwrap();
    one_instruction(&mut vm, num(0), target.to_value(), (0b10 << 1) | 1);

    assert_eq!(vm.run(10), Err(Error::NumberExpected));
}

#[test]
fn run_move_outside_heap() {
    let mut vm = Vm::<Value64, 0b11>::new(vec![Value64::default(); HEAP_SIZE]).unwrap();
    one_instruction(&mut vm, num(0), num(HEAP_SIZE as i64), (0b10 << 1) | 1);

    assert_eq!(vm.run(10), Err(Error::InvalidMemoryAccess));
}

#[test]
fn run_stops_when_steps_run_out() {
    let mut vm = Vm::<Value64, 0b11>::new(vec![Value64::default(); HEAP_SIZE]).unwrap();
    let memory = vm.memory_mut();
    let cell = memory.allocate(num(0), num(0)).unwrap();
    // An instruction whose tail points back to itself loops for ever.
    memory
        .set(cell.index() + 1, cell.set_tag((0b10 << 1) | 1).to_value())
        .unwrap();
    let root = memory.allocate(num(0), cell.to_value()).unwrap();
    memory.set_root(root.to_value());

    assert_eq!(vm.run(5), Ok(false));
}

#[test]
fn step_halts_on_non_pointer_tail() {
    let mut vm = Vm::<Value64, 0b11>::new(vec![Value64::default(); HEAP_SIZE]).unwrap();
    let cell = vm.memory_mut().allocate(num(1), num(2)).unwrap();
    assert_eq!(vm.step(cell).unwrap().map(|c| c.index()), None);
}

#[test]
fn instruction_from_tag() {
    assert_eq!(Instruction::from_tag(0), Instruction::Cons);
    assert_eq!(Instruction::from_tag(1), Instruction::Move);
    assert_eq!(Instruction::from_tag(0b101), Instruction::Move);
    assert_eq!(Instruction::from_tag(0b100), Instruction::Cons);
}

#[test]
fn error_messages() {
    assert_eq!(Error::BytecodeEnd.message(), "unexpected end of bytecode");
    assert_eq!(Error::InvalidMemoryAccess.message(), "invalid memory access");
    assert_eq!(Error::NumberExpected.message(), "number expected");
    assert_eq!(Error::OutOfMemory.message(), "out of memory");
}

#[test]
fn decode_single_byte() {
    assert_eq!(decode_integer_tail(&[], 0, 6, INTEGER_BASE), Ok((3, 0)));
}

#[test]
fn decode_two_digits() {
    assert_eq!(decode_integer_tail(&[4], 0, 3, INTEGER_BASE), Ok((1 + 2 * 128, 1)));
}

#[test]
fn decode_three_digits_from_position() {
    assert_eq!(
        decode_integer_tail(&[9, 9, 5, 6], 2, 1, INTEGER_BASE),
        Ok((2 * 128 + 3 * 128 * 128, 4))
    );
}

#[test]
fn decode_runs_off_the_end() {
    assert_eq!(decode_integer_tail(&[5], 0, 1, INTEGER_BASE), Err(Error::BytecodeEnd));
    assert_eq!(decode_integer_tail(&[], 0, 1, INTEGER_BASE), Err(Error::BytecodeEnd));
}
