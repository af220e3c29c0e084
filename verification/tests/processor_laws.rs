use miden_vm::advice::AdviceProvider;
use miden_vm::errors::ExecutionError;
use miden_vm::felt::{Felt, MODULUS};
use miden_vm::memory::Memory;
use miden_vm::process::{Operation, Process};
use miden_vm::stack::Stack;

fn felts(values: &[u64]) -> Vec<Felt> {
    values.iter().map(|&v| Felt::new(v)).collect()
}

fn expected_row(values: &[u64]) -> [Felt; 16] {
    let mut row = [Felt::zero(); 16];
    for (i, &v) in values.iter().enumerate().take(16) {
        row[i] = Felt::new(v);
    }
    row
}

/// Pushes `values` so that the last one ends up on top.
fn push_all(process: &mut Process, values: &[u64]) {
    for &v in values {
        process.execute_op(Operation::Push(Felt::new(v))).unwrap();
    }
}

#[test]
fn felt_reduces_modulo_field_order() {
    assert_eq!(0, Felt::new(MODULUS).as_int());
    assert_eq!(1, Felt::new(MODULUS + 1).as_int());
    assert_eq!(0xffff_fffe, Felt::new(u64::MAX).as_int());
    assert_eq!(Felt::new(7), Felt::new(MODULUS + 7));
    assert_eq!(0, Felt::zero().as_int());
    assert_eq!(1, Felt::one().as_int());
}

#[test]
fn store_then_load_gives_back_the_stored_state() {
    let mut process = Process::new_dummy();
    push_all(&mut process, &[10, 20, 30, 40, 9]);
    process.execute_op(Operation::StoreW).unwrap();
    let after_store = process.stack.trace_state();
    let depth_after_store = process.stack.depth();

    process.execute_op(Operation::Push(Felt::new(9))).unwrap();
    process.execute_op(Operation::LoadW).unwrap();
    assert_eq!(after_store, process.stack.trace_state());
    assert_eq!(depth_after_store, process.stack.depth());
    assert_eq!(1, process.memory.size());
    assert_eq!(8, process.stack.current_step());
}

#[test]
fn store_writes_word_deepest_first_and_leaves_other_addresses() {
    let mut process = Process::new_dummy();
    push_all(&mut process, &[1, 2, 3, 4, 5]);
    process.execute_op(Operation::StoreW).unwrap();
    assert_eq!(
        [Felt::new(1), Felt::new(2), Felt::new(3), Felt::new(4)],
        process.memory.get_value(5).unwrap()
    );
    assert_eq!(None, process.memory.get_value(4));
    assert_eq!(None, process.memory.get_value(6));
    // the word stays on the stack, last element on top
    assert_eq!(expected_row(&[4, 3, 2, 1]), process.stack.trace_state());
    assert_eq!(4, process.stack.depth());
}

#[test]
fn load_from_unwritten_address_gives_zeros() {
    let mut process = Process::new_dummy();
    push_all(&mut process, &[11, 5, 6, 7, 8, 42]);
    process.execute_op(Operation::LoadW).unwrap();
    assert_eq!(expected_row(&[0, 0, 0, 0, 11]), process.stack.trace_state());
    assert_eq!(5, process.stack.depth());
    assert_eq!(0, process.memory.size());
}

#[test]
fn overwriting_an_address_keeps_the_last_word() {
    let mut process = Process::new_dummy();
    push_all(&mut process, &[1, 2, 3, 4, 7]);
    process.execute_op(Operation::StoreW).unwrap();
    push_all(&mut process, &[5, 6, 7, 8, 7]);
    process.execute_op(Operation::StoreW).unwrap();
    assert_eq!(1, process.memory.size());
    assert_eq!(
        [Felt::new(5), Felt::new(6), Felt::new(7), Felt::new(8)],
        process.memory.get_value(7).unwrap()
    );
}

#[test]
fn underflow_errors_change_nothing() {
    let mut process = Process::new_dummy();
    push_all(&mut process, &[1, 2, 3, 4]);
    let row = process.stack.trace_state();

    let r = process.execute_op(Operation::LoadW);
    assert!(matches!(r, Err(ExecutionError::StackUnderflow("LOADW", 4))));
    let r = process.execute_op(Operation::StoreW);
    assert!(matches!(r, Err(ExecutionError::StackUnderflow("STOREW", 4))));
    assert_eq!(row, process.stack.trace_state());
    assert_eq!(4, process.stack.depth());
    assert_eq!(4, process.stack.current_step());
    assert_eq!(0, process.memory.size());

    let mut process = Process::new_dummy_with_advice_tape(&[1, 2, 3, 4]);
    push_all(&mut process, &[1, 2, 3]);
    let r = process.execute_op(Operation::ReadW);
    assert!(matches!(r, Err(ExecutionError::StackUnderflow("READW", 3))));
    // the tape is untouched
    process.execute_op(Operation::Read).unwrap();
    assert_eq!(expected_row(&[1, 3, 2, 1]), process.stack.trace_state());
}

#[test]
fn readw_short_tape_consumes_what_it_read() {
    let mut process = Process::new_dummy_with_advice_tape(&[7, 8]);
    push_all(&mut process, &[1, 2, 3, 4]);
    let row = process.stack.trace_state();
    let r = process.execute_op(Operation::ReadW);
    assert!(matches!(r, Err(ExecutionError::EmptyAdviceTape(4))));
    assert_eq!(row, process.stack.trace_state());
    assert_eq!(4, process.stack.current_step());
    // the two values it read are gone
    let r = process.execute_op(Operation::Read);
    assert!(matches!(r, Err(ExecutionError::EmptyAdviceTape(4))));
}

#[test]
fn read_consumes_the_tape_in_order() {
    let mut process = Process::new_dummy_with_advice_tape(&[5, 6, 7]);
    process.execute_op(Operation::Read).unwrap();
    process.execute_op(Operation::Read).unwrap();
    process.execute_op(Operation::Read).unwrap();
    assert_eq!(expected_row(&[7, 6, 5]), process.stack.trace_state());
    assert!(process.execute_op(Operation::Read).is_err());
    assert_eq!(3, process.stack.current_step());
}

#[test]
fn readw_is_the_top_of_four_reads() {
    let mut a = Process::new_dummy_with_advice_tape(&[3, 4, 5, 6, 9]);
    push_all(&mut a, &[1, 2, 3, 4, 5]);
    a.execute_op(Operation::ReadW).unwrap();

    let mut b = Process::new_dummy_with_advice_tape(&[3, 4, 5, 6, 9]);
    push_all(&mut b, &[1, 2, 3, 4, 5]);
    for _ in 0..4 {
        b.execute_op(Operation::Read).unwrap();
    }
    assert_eq!(&a.stack.trace_state()[..4], &b.stack.trace_state()[..4]);
    assert_eq!(expected_row(&[6, 5, 4, 3, 1]), a.stack.trace_state());
    assert_eq!(5, a.stack.depth());
    assert_eq!(9, b.stack.depth());
    // both have the same value left on the tape
    a.execute_op(Operation::Read).unwrap();
    b.execute_op(Operation::Read).unwrap();
    assert_eq!(a.stack.trace_state()[0], b.stack.trace_state()[0]);
    assert_eq!(Felt::new(9), a.stack.trace_state()[0]);
}

#[test]
fn pad_is_push_of_zero() {
    let mut a = Process::new_dummy();
    let mut b = Process::new_dummy();
    push_all(&mut a, &[3]);
    push_all(&mut b, &[3]);
    a.execute_op(Operation::Pad).unwrap();
    b.execute_op(Operation::Push(Felt::zero())).unwrap();
    assert_eq!(a.stack.trace_state(), b.stack.trace_state());
    assert_eq!(a.stack.depth(), b.stack.depth());
}

#[test]
fn clock_and_depth_follow_each_operation() {
    let mut process = Process::new_dummy_with_advice_tape(&[1, 2, 3, 4, 5]);
    push_all(&mut process, &[1, 2, 3, 4, 0]);
    assert_eq!((5, 5), (process.stack.depth(), process.stack.current_step()));
    process.execute_op(Operation::StoreW).unwrap();
    assert_eq!((4, 6), (process.stack.depth(), process.stack.current_step()));
    process.execute_op(Operation::ReadW).unwrap();
    assert_eq!((4, 7), (process.stack.depth(), process.stack.current_step()));
    process.execute_op(Operation::Read).unwrap();
    assert_eq!((5, 8), (process.stack.depth(), process.stack.current_step()));
    process.execute_op(Operation::Pad).unwrap();
    assert_eq!((6, 9), (process.stack.depth(), process.stack.current_step()));
    process.execute_op(Operation::LoadW).unwrap();
    assert_eq!((5, 10), (process.stack.depth(), process.stack.current_step()));
    assert!(process.execute_op(Operation::Read).is_err());
    assert_eq!((5, 10), (process.stack.depth(), process.stack.current_step()));
}

#[test]
fn deep_stack_spills_to_overflow_and_comes_back() {
    let mut process = Process::new_dummy();
    let values: Vec<u64> = (1..=20).collect();
    push_all(&mut process, &values);
    assert_eq!(20, process.stack.depth());
    let top: Vec<u64> = (5..=20).rev().collect();
    assert_eq!(expected_row(&top), process.stack.trace_state());

    // store the word below the top address (20): the address leaves the stack and item 4
    // comes back from the overflow table
    process.execute_op(Operation::StoreW).unwrap();
    assert_eq!(19, process.stack.depth());
    let top: Vec<u64> = (4..=19).rev().collect();
    assert_eq!(expected_row(&top), process.stack.trace_state());
    assert_eq!(
        [Felt::new(16), Felt::new(17), Felt::new(18), Felt::new(19)],
        process.memory.get_value(20).unwrap()
    );

    // load it back at a deep stack: the same row comes back
    process.execute_op(Operation::Push(Felt::new(20))).unwrap();
    assert_eq!(20, process.stack.depth());
    process.execute_op(Operation::LoadW).unwrap();
    assert_eq!(19, process.stack.depth());
    assert_eq!(expected_row(&top), process.stack.trace_state());

    // drain the stack with stores until it is shallow again
    for _ in 0..3 {
        process.execute_op(Operation::StoreW).unwrap();
    }
    assert_eq!(16, process.stack.depth());
    let top: Vec<u64> = (1..=16).rev().collect();
    assert_eq!(expected_row(&top), process.stack.trace_state());
    process.execute_op(Operation::StoreW).unwrap();
    assert_eq!(15, process.stack.depth());
    let top: Vec<u64> = (1..=15).rev().collect();
    assert_eq!(expected_row(&top), process.stack.trace_state());
}

#[test]
fn memory_reads_and_writes_words() {
    let mut memory = Memory::new();
    assert_eq!(0, memory.size());
    assert_eq!([Felt::zero(); 4], memory.read(Felt::new(3)));
    let word = [Felt::new(1), Felt::new(2), Felt::new(3), Felt::new(4)];
    memory.write(Felt::new(3), word);
    assert_eq!(word, memory.read(Felt::new(3)));
    assert_eq!(Some(word), memory.get_value(3));
    assert_eq!([Felt::zero(); 4], memory.read(Felt::new(4)));
    assert_eq!(1, memory.size());
}

#[test]
fn advice_tape_reads_front_first() {
    let mut advice = AdviceProvider::new(&felts(&[4, 5]));
    assert_eq!(Felt::new(4), advice.read_tape().unwrap());
    assert_eq!(Felt::new(5), advice.read_tape().unwrap());
    assert!(matches!(advice.read_tape(), Err(ExecutionError::EmptyAdviceTape(0))));
}

#[test]
fn stack_primitives_write_the_next_row() {
    let mut stack = Stack::new();
    assert_eq!(0, stack.depth());
    stack.set(0, Felt::new(9));
    stack.shift_right(0);
    stack.advance_clock();
    stack.set(0, Felt::new(8));
    stack.shift_right(0);
    stack.advance_clock();
    assert_eq!(expected_row(&[8, 9]), stack.trace_state());
    assert_eq!(Felt::new(9), stack.get(1));
    assert!(stack.check_depth(3, "TEST").is_err());
    assert!(stack.check_depth(2, "TEST").is_ok());
    stack.set(0, Felt::new(7));
    stack.shift_left(2);
    stack.advance_clock();
    assert_eq!(expected_row(&[7]), stack.trace_state());
    stack.copy_state(0);
    stack.advance_clock();
    assert_eq!(expected_row(&[7]), stack.trace_state());
    assert_eq!(4, stack.current_step());
}
