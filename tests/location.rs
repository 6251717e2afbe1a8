use pretty_backtrace::location::{
    evaluate, frame_base_value, read_sleb, read_uleb, EvalError, EvalInputs, Location, MemoryWord, Need, Outcome,
};

fn inputs(registers: Vec<Option<u64>>, frame_base: Option<u64>, memory: Vec<MemoryWord>) -> EvalInputs {
    EvalInputs { registers, frame_base, memory }
}

fn none() -> EvalInputs {
    inputs(Vec::new(), None, Vec::new())
}

#[test]
fn leb128_numbers() {
    assert_eq!(read_uleb(&vec![0xe5, 0x8e, 0x26], 0), Some((624485, 3)));
    assert_eq!(read_uleb(&vec![0x00, 0x02], 1), Some((2, 2)));
    assert_eq!(read_uleb(&vec![0x80], 0), None);
    let mut big = vec![0xffu8; 10];
    big.push(0x01);
    assert_eq!(read_uleb(&big, 0), None);
    assert_eq!(read_uleb(&vec![0xff, 0xff, 0xff, 0xff, 0xff, 0xff, 0xff, 0xff, 0xff, 0x01], 0), Some((u64::MAX, 10)));
    assert_eq!(read_sleb(&vec![0x7f], 0), Some((-1, 1)));
    assert_eq!(read_sleb(&vec![0x80, 0x7f], 0), Some((-128, 2)));
    assert_eq!(read_sleb(&vec![0xc0, 0xbb, 0x78], 0), Some((-123456, 3)));
    assert_eq!(read_sleb(&vec![0x3f], 0), Some((63, 1)));
}

#[test]
fn frame_base_relative_location() {
    let e = vec![0x91, 0x70];
    assert_eq!(evaluate(&e, &inputs(Vec::new(), Some(1000), Vec::new())), Outcome::Done(Location::Memory(984)));
    assert_eq!(evaluate(&e, &none()), Outcome::Needs(Need::FrameBase));
}

#[test]
fn register_relative_location() {
    let e = vec![0x77, 0x08];
    let mut regs = vec![None; 8];
    regs[7] = Some(500);
    assert_eq!(evaluate(&e, &inputs(regs, None, Vec::new())), Outcome::Done(Location::Memory(508)));
    assert_eq!(evaluate(&e, &none()), Outcome::Needs(Need::Register(7)));
}

#[test]
fn register_and_value_locations() {
    assert_eq!(evaluate(&vec![0x50], &none()), Outcome::Done(Location::Register(0)));
    assert_eq!(evaluate(&vec![0x90, 0x11], &none()), Outcome::Done(Location::Register(17)));
    assert_eq!(evaluate(&vec![0x35, 0x9f], &none()), Outcome::Done(Location::Value(5)));
    assert_eq!(evaluate(&vec![0x10, 0xe5, 0x8e, 0x26, 0x9f], &none()), Outcome::Done(Location::Value(624485)));
    assert_eq!(evaluate(&vec![0x11, 0x7e, 0x9f], &none()), Outcome::Done(Location::Value(u64::MAX - 1)));
}

#[test]
fn arithmetic_operations() {
    assert_eq!(evaluate(&vec![0x31, 0x23, 0x05, 0x9f], &none()), Outcome::Done(Location::Value(6)));
    assert_eq!(evaluate(&vec![0x31, 0x33, 0x1c, 0x9f], &none()), Outcome::Done(Location::Value(u64::MAX - 1)));
    assert_eq!(evaluate(&vec![0x33, 0x31, 0x1c, 0x9f], &none()), Outcome::Done(Location::Value(2)));
    assert_eq!(evaluate(&vec![0x32, 0x12, 0x22, 0x9f], &none()), Outcome::Done(Location::Value(4)));
    assert_eq!(evaluate(&vec![0x32, 0x33, 0x13, 0x9f], &none()), Outcome::Done(Location::Value(2)));
    assert_eq!(evaluate(&vec![0x08, 0xff, 0x0a, 0x01, 0x02, 0x22], &none()), Outcome::Done(Location::Memory(0x300)));
}

#[test]
fn static_address_location() {
    let e = vec![0x03, 0x88, 0x77, 0x66, 0x55, 0x44, 0x33, 0x22, 0x11];
    assert_eq!(evaluate(&e, &none()), Outcome::Done(Location::Memory(0x1122334455667788)));
    assert_eq!(evaluate(&vec![0x03, 0x01], &none()), Outcome::Failed(EvalError::Malformed));
}

#[test]
fn dereference_asks_for_memory_then_resumes() {
    let e = vec![0x91, 0x00, 0x06];
    let first = evaluate(&e, &inputs(Vec::new(), Some(100), Vec::new()));
    assert_eq!(first, Outcome::Needs(Need::Memory(100)));
    let again = evaluate(&e, &inputs(Vec::new(), Some(100), vec![MemoryWord { address: 100, value: 0xdead }]));
    assert_eq!(again, Outcome::Done(Location::Memory(0xdead)));
}

#[test]
fn unsupported_expressions_fail_cleanly() {
    assert_eq!(evaluate(&vec![0x9c], &none()), Outcome::Failed(EvalError::Unsupported(0x9c)));
    assert_eq!(evaluate(&vec![0x91, 0x00, 0x93, 0x08], &inputs(Vec::new(), Some(8), Vec::new())), Outcome::Failed(EvalError::Pieces));
    assert_eq!(evaluate(&vec![0x50, 0x9f], &none()), Outcome::Failed(EvalError::Pieces));
    assert_eq!(evaluate(&vec![0x35, 0x9f, 0x13], &none()), Outcome::Failed(EvalError::Pieces));
    assert_eq!(evaluate(&Vec::new(), &none()), Outcome::Failed(EvalError::Empty));
    assert_eq!(evaluate(&vec![0x06], &none()), Outcome::Failed(EvalError::StackUnderflow));
    assert_eq!(evaluate(&vec![0x31, 0x22], &none()), Outcome::Failed(EvalError::StackUnderflow));
    assert_eq!(evaluate(&vec![0x10, 0x80], &none()), Outcome::Failed(EvalError::Malformed));
}

#[test]
fn frame_base_from_register() {
    let mut regs = vec![None; 7];
    regs[6] = Some(0x7ff0);
    assert_eq!(frame_base_value(&vec![0x56], &inputs(regs, None, Vec::new())), Ok(0x7ff0));
    assert_eq!(frame_base_value(&vec![0x56], &none()), Err(Outcome::Needs(Need::Register(6))));
    assert_eq!(frame_base_value(&vec![0x9c], &none()), Err(Outcome::Failed(EvalError::Unsupported(0x9c))));
}
