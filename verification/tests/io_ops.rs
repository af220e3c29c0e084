use miden_vm::felt::Felt;
use miden_vm::process::{Operation, Process};

// HELPER METHODS
// ------------------------------------------------------------------------------------------------

fn store_value(process: &mut Process, addr: u64, value: [Felt; 4]) {
    for &value in value.iter() {
        process.execute_op(Operation::Push(value)).unwrap();
    }
    let addr = Felt::new(addr);
    process.execute_op(Operation::Push(addr)).unwrap();
    process.execute_op(Operation::StoreW).unwrap();
}

fn build_expected_stack(values: &[u64]) -> [Felt; 16] {
    let mut expected = [Felt::zero(); 16];
    for (&value, result) in values.iter().zip(expected.iter_mut()) {
        *result = Felt::new(value);
    }
    expected
}

#[test]
fn op_push() {
    let mut process = Process::new_dummy();
    assert_eq!(0, process.stack.depth());
    assert_eq!(0, process.stack.current_step());
    assert_eq!([Felt::zero(); 16], process.stack.trace_state());

    // push one item onto the stack
    let op = Operation::Push(Felt::one());
    process.execute_op(op).unwrap();
    let mut expected = [Felt::zero(); 16];
    expected[0] = Felt::one();

    assert_eq!(1, process.stack.depth());
    assert_eq!(1, process.stack.current_step());
    assert_eq!(expected, process.stack.trace_state());

    // push another item onto the stack
    let op = Operation::Push(Felt::new(3));
    process.execute_op(op).unwrap();
    let mut expected = [Felt::zero(); 16];
    expected[0] = Felt::new(3);
    expected[1] = Felt::one();

    assert_eq!(2, process.stack.depth());
    assert_eq!(2, process.stack.current_step());
    assert_eq!(expected, process.stack.trace_state());
}

// MEMORY OPERATION TESTS
// ------------------------------------------------------------------------------------------------

#[test]
fn op_storew() {
    let mut process = Process::new_dummy();
    assert_eq!(0, process.memory.size());

    // push the first word onto the stack and save it at address 0
    let word1 = [Felt::new(1), Felt::new(3), Felt::new(5), Felt::new(7)];
    store_value(&mut process, 0, word1);

    // stack state
    let expected_stack = build_expected_stack(&[7, 5, 3, 1]);
    assert_eq!(expected_stack, process.stack.trace_state());

    // memory state
    assert_eq!(1, process.memory.size());
    assert_eq!(word1, process.memory.get_value(0).unwrap());

    // push the second word onto the stack and save it at address 3
    let word2 = [Felt::new(2), Felt::new(4), Felt::new(6), Felt::new(8)];
    store_value(&mut process, 3, word2);

    // stack state
    let expected_stack = build_expected_stack(&[8, 6, 4, 2, 7, 5, 3, 1]);
    assert_eq!(expected_stack, process.stack.trace_state());

    // memory state
    assert_eq!(2, process.memory.size());
    assert_eq!(word1, process.memory.get_value(0).unwrap());
    assert_eq!(word2, process.memory.get_value(3).unwrap());
}

#[test]
fn op_loadw() {
    let mut process = Process::new_dummy();
    assert_eq!(0, process.memory.size());

    // push a word onto the stack and save it at address 1
    let word = [Felt::new(1), Felt::new(3), Felt::new(5), Felt::new(7)];
    store_value(&mut process, 1, word);

    // push four zeros onto the stack
    for _ in 0..4 {
        process.execute_op(Operation::Pad).unwrap();
    }

    // push the address onto the stack and load the word
    process.execute_op(Operation::Push(Felt::one())).unwrap();
    process.execute_op(Operation::LoadW).unwrap();

    let expected_stack = build_expected_stack(&[7, 5, 3, 1, 7, 5, 3, 1]);
    assert_eq!(expected_stack, process.stack.trace_state());

    // memory state
    assert_eq!(1, process.memory.size());
    assert_eq!(word, process.memory.get_value(1).unwrap());
}

// ADVICE TAPE OPERATION TESTS
// ------------------------------------------------------------------------------------------------

#[test]
fn op_read() {
    // reading from tape should push the value onto the stack
    let mut process = Process::new_dummy_with_advice_tape(&[3]);
    process.execute_op(Operation::Push(Felt::one())).unwrap();
    process.execute_op(Operation::Read).unwrap();
    let expected = build_expected_stack(&[3, 1]);
    assert_eq!(expected, process.stack.trace_state());

    // reading again should result in an error because advice tape is empty
    assert!(process.execute_op(Operation::Read).is_err());
}

#[test]
fn op_readw() {
    // reading from tape should overwrite top 4 values
    let mut process = Process::new_dummy_with_advice_tape(&[3, 4, 5, 6]);
    process.execute_op(Operation::Push(Felt::one())).unwrap();
    process.execute_op(Operation::Pad).unwrap();
    process.execute_op(Operation::Pad).unwrap();
    process.execute_op(Operation::Pad).unwrap();
    process.execute_op(Operation::Pad).unwrap();
    process.execute_op(Operation::ReadW).unwrap();
    let expected = build_expected_stack(&[6, 5, 4, 3, 1]);
    assert_eq!(expected, process.stack.trace_state());

    // reading again should result in an error because advice tape is empty
    assert!(process.execute_op(Operation::ReadW).is_err());

    // should return an error if the stack has fewer than 4 values
    let mut process = Process::new_dummy_with_advice_tape(&[3, 4, 5, 6]);
    process.execute_op(Operation::Push(Felt::one())).unwrap();
    process.execute_op(Operation::Pad).unwrap();
    process.execute_op(Operation::Pad).unwrap();
    assert!(process.execute_op(Operation::ReadW).is_err());
}
