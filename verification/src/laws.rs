use vstd::prelude::*;

use crate::felt::Felt;
use crate::memory::read_word;
use crate::process::{execute_spec, stored_word, Operation, ProcessState};
use crate::stack::{pad_row, zeros};

verus! {

/// Reading memory after a write: `StoreW`, then pushing the same address back and `LoadW`,
/// leaves exactly what `StoreW` left; the word comes back in the order it was stored.
pub proof fn law_store_then_load(s: ProcessState)
    requires
        s.items.len() >= 5,
    ensures
        ({
            let (r1, s1) = execute_spec(Operation::StoreW, s);
            let (r2, s2) = execute_spec(Operation::Push(s.items[0]), s1);
            let (r3, s3) = execute_spec(Operation::LoadW, s2);
            &&& r1 is Ok && r2 is Ok && r3 is Ok
            &&& s3.items == s1.items
            &&& s3.memory == s1.memory
            &&& s3.tape == s.tape
            &&& s3.step == s.step + 3
        }),
{
    let s1 = execute_spec(Operation::StoreW, s).1;
    let s2 = execute_spec(Operation::Push(s.items[0]), s1).1;
    let s3 = execute_spec(Operation::LoadW, s2).1;
    assert(s2.items[0] == s.items[0]);
    assert(read_word(s2.memory, s.items[0]@) == stored_word(s.items));
    assert(s3.items =~= s1.items);
}

/// The word a `StoreW` writes is what a later read of that address returns, and every other
/// address reads as before.
pub proof fn law_store_read_back(s: ProcessState, other: u64)
    requires
        s.items.len() >= 5,
    ensures
        ({
            let s1 = execute_spec(Operation::StoreW, s).1;
            &&& read_word(s1.memory, s.items[0]@) == seq![s.items[4], s.items[3], s.items[2], s.items[1]]
            &&& other != s.items[0]@ ==> read_word(s1.memory, other) == read_word(s.memory, other)
        }),
{
}

/// Memory starts as zeros: `LoadW` from an address never written puts four zeros on top.
pub proof fn law_load_unwritten(s: ProcessState)
    requires
        s.items.len() >= 5,
        !s.memory.contains_key(s.items[0]@),
    ensures
        ({
            let (r, s1) = execute_spec(Operation::LoadW, s);
            &&& r is Ok
            &&& s1.items.take(4) == zeros(4)
            &&& s1.items.skip(4) == s.items.skip(5)
        }),
{
    let s1 = execute_spec(Operation::LoadW, s).1;
    assert(s1.items.take(4) =~= zeros(4));
    assert(s1.items.skip(4) =~= s.items.skip(5));
}

/// `LoadW` and `StoreW` keep the four stored elements on the stack: after either, the top four
/// items are the word at the address, last element on top.
pub proof fn law_word_on_top_after_memory_ops(s: ProcessState)
    requires
        s.items.len() >= 5,
    ensures
        ({
            let s1 = execute_spec(Operation::StoreW, s).1;
            let w = read_word(s1.memory, s.items[0]@);
            s1.items.take(4) == seq![w[3], w[2], w[1], w[0]]
        }),
        ({
            let s1 = execute_spec(Operation::LoadW, s).1;
            let w = read_word(s1.memory, s.items[0]@);
            s1.items.take(4) == seq![w[3], w[2], w[1], w[0]]
        }),
{
    let s1 = execute_spec(Operation::StoreW, s).1;
    assert(s1.items.take(4) =~= seq![s.items[1], s.items[2], s.items[3], s.items[4]]);
    let s2 = execute_spec(Operation::LoadW, s).1;
    let w = read_word(s.memory, s.items[0]@);
    assert(s2.items.take(4) =~= seq![w[3], w[2], w[1], w[0]]);
}

/// A failed operation leaves the stack, the memory and the clock as they were; only a `ReadW`
/// that runs out of tape changes anything (the tape, which it has emptied).
pub proof fn law_failure_keeps_state(op: Operation, s: ProcessState)
    ensures
        ({
            let (r, s1) = execute_spec(op, s);
            r is Err ==> {
                &&& s1.items == s.items
                &&& s1.memory == s.memory
                &&& s1.step == s.step
                &&& (s1.tape == s.tape || (op is ReadW && s1.tape == Seq::<Felt>::empty()))
            }
        }),
{
}

/// The clock counts successful operations: it advances by one exactly when an operation
/// succeeds.
pub proof fn law_clock_counts_successes(op: Operation, s: ProcessState)
    ensures
        ({
            let (r, s1) = execute_spec(op, s);
            &&& r is Ok ==> s1.step == s.step + 1
            &&& r is Err ==> s1.step == s.step
        }),
{
}

/// How each successful operation changes the stack's depth: `Push`, `Pad` and `Read` add an
/// item, `LoadW` and `StoreW` remove one, and `ReadW` keeps the depth.
pub proof fn law_depth_change(op: Operation, s: ProcessState)
    ensures
        ({
            let (r, s1) = execute_spec(op, s);
            r is Ok ==> s1.items.len() == s.items.len() + match op {
                Operation::Push(_) | Operation::Pad | Operation::Read => 1int,
                Operation::LoadW | Operation::StoreW => -1int,
                Operation::ReadW => 0int,
            }
        }),
{
}

/// Memory is only changed by `StoreW`, and the advice tape only by `Read` and `ReadW`.
pub proof fn law_frame(op: Operation, s: ProcessState)
    ensures
        ({
            let s1 = execute_spec(op, s).1;
            &&& !(op is StoreW) ==> s1.memory == s.memory
            &&& !(op is Read || op is ReadW) ==> s1.tape == s.tape
        }),
{
}

/// `ReadW` puts on top what four `Read`s would push, and consumes the same four tape values.
pub proof fn law_readw_as_four_reads(s: ProcessState)
    requires
        s.items.len() >= 4,
        s.tape.len() >= 4,
    ensures
        ({
            let (r0, w) = execute_spec(Operation::ReadW, s);
            let (r1, s1) = execute_spec(Operation::Read, s);
            let (r2, s2) = execute_spec(Operation::Read, s1);
            let (r3, s3) = execute_spec(Operation::Read, s2);
            let (r4, s4) = execute_spec(Operation::Read, s3);
            &&& r0 is Ok && r1 is Ok && r2 is Ok && r3 is Ok && r4 is Ok
            &&& w.items.take(4) == s4.items.take(4)
            &&& w.items.skip(4) == s.items.skip(4)
            &&& s4.items.skip(4) == s.items
            &&& w.tape == s4.tape
        }),
{
    let w = execute_spec(Operation::ReadW, s).1;
    let s1 = execute_spec(Operation::Read, s).1;
    let s2 = execute_spec(Operation::Read, s1).1;
    let s3 = execute_spec(Operation::Read, s2).1;
    let s4 = execute_spec(Operation::Read, s3).1;
    assert(w.items.take(4) =~= s4.items.take(4));
    assert(w.items.skip(4) =~= s.items.skip(4));
    assert(s4.items.skip(4) =~= s.items);
    assert(w.tape =~= s4.tape);
}

/// `Pad` is `Push` of zero.
pub proof fn law_pad_is_push_zero(s: ProcessState)
    ensures
        execute_spec(Operation::Pad, s) == execute_spec(Operation::Push(Felt::zero_spec()), s),
{
}

/// A store adds an address to memory exactly when nothing was written there before.
pub proof fn law_store_grows_memory_on_new_address(s: ProcessState)
    requires
        s.items.len() >= 5,
        s.memory.dom().finite(),
    ensures
        ({
            let s1 = execute_spec(Operation::StoreW, s).1;
            s1.memory.len() == s.memory.len() + if s.memory.contains_key(s.items[0]@) {
                0int
            } else {
                1int
            }
        }),
{
}

/// Pushing a value shifts the trace row right by one slot, the value entering on top.
pub proof fn law_push_shifts_row(s: ProcessState, value: Felt)
    ensures
        pad_row(execute_spec(Operation::Push(value), s).1.items) == seq![value] + pad_row(
            s.items,
        ).take(15),
{
    let items = execute_spec(Operation::Push(value), s).1.items;
    assert(pad_row(items) =~= seq![value] + pad_row(s.items).take(15));
}

/// Pushing an address and storing leaves the stack as it was before the push, and writes its
/// top four items at the address, deepest first.
pub proof fn law_push_then_store(s: ProcessState, addr: Felt)
    requires
        s.items.len() >= 4,
    ensures
        ({
            let (r1, s1) = execute_spec(Operation::Push(addr), s);
            let (r2, s2) = execute_spec(Operation::StoreW, s1);
            &&& r1 is Ok && r2 is Ok
            &&& s2.items == s.items
            &&& read_word(s2.memory, addr@) == seq![s.items[3], s.items[2], s.items[1], s.items[0]]
        }),
{
    let s1 = execute_spec(Operation::Push(addr), s).1;
    let s2 = execute_spec(Operation::StoreW, s1).1;
    assert(s2.items =~= s.items);
    assert(stored_word(s1.items) =~= seq![s.items[3], s.items[2], s.items[1], s.items[0]]);
}

/// `LoadW` with at least five items: the address leaves the stack, the four items below it
/// are replaced by the word stored at the address (last element on top), and every item below
/// the fifth keeps its place relative to the top minus one; memory and tape are untouched.
pub proof fn law_loadw_effect(s: ProcessState)
    requires
        s.items.len() >= 5,
    ensures
        ({
            let (r, s1) = execute_spec(Operation::LoadW, s);
            let w = read_word(s.memory, s.items[0]@);
            &&& r is Ok
            &&& s1.items.len() == s.items.len() - 1
            &&& forall|i: int| 0 <= i < 4 ==> #[trigger] s1.items[i] == w[3 - i]
            &&& forall|i: int| 4 <= i < s1.items.len() ==> #[trigger] s1.items[i] == s.items[i + 1]
            &&& s1.memory == s.memory
            &&& s1.tape == s.tape
            &&& s1.step == s.step + 1
        }),
{
}

/// `StoreW` with at least five items: every item moves up one place (the address leaves), and
/// the address now holds the four items that were below it, deepest first.
pub proof fn law_storew_effect(s: ProcessState)
    requires
        s.items.len() >= 5,
    ensures
        ({
            let (r, s1) = execute_spec(Operation::StoreW, s);
            &&& r is Ok
            &&& s1.items.len() == s.items.len() - 1
            &&& forall|i: int| 0 <= i < s1.items.len() ==> #[trigger] s1.items[i] == s.items[i + 1]
            &&& s1.memory.contains_key(s.items[0]@)
            &&& forall|i: int| 0 <= i < 4 ==> #[trigger] s1.memory[s.items[0]@][i] == s.items[4 - i]
            &&& s1.memory[s.items[0]@].len() == 4
            &&& forall|a: u64| a != s.items[0]@ ==> #[trigger] s1.memory.contains_key(a)
                == s.memory.contains_key(a) && (s.memory.contains_key(a) ==> s1.memory[a]
                == s.memory[a])
            &&& s1.tape == s.tape
        }),
{
}

/// `Push(v)`: `v` is on top and every other item moves down one place.
pub proof fn law_push_effect(s: ProcessState, v: Felt)
    ensures
        ({
            let (r, s1) = execute_spec(Operation::Push(v), s);
            &&& r is Ok
            &&& s1.items.len() == s.items.len() + 1
            &&& s1.items[0] == v
            &&& forall|i: int| 0 <= i < s.items.len() ==> #[trigger] s1.items[i + 1] == s.items[i]
            &&& s1.memory == s.memory
            &&& s1.tape == s.tape
        }),
{
}

/// `Read` with a value on the tape: the tape's first value goes on top, every item moves down
/// one place, and the tape loses its first value.
pub proof fn law_read_effect(s: ProcessState)
    requires
        s.tape.len() > 0,
    ensures
        ({
            let (r, s1) = execute_spec(Operation::Read, s);
            &&& r is Ok
            &&& s1.items.len() == s.items.len() + 1
            &&& s1.items[0] == s.tape[0]
            &&& forall|i: int| 0 <= i < s.items.len() ==> #[trigger] s1.items[i + 1] == s.items[i]
            &&& s1.tape.len() == s.tape.len() - 1
            &&& forall|i: int| 0 <= i < s1.tape.len() ==> #[trigger] s1.tape[i] == s.tape[i + 1]
            &&& s1.memory == s.memory
        }),
{
}

/// `ReadW` with at least four items and four tape values: the top four items become the first
/// four tape values, the fourth on top; the items below are untouched and the tape loses those
/// four values.
pub proof fn law_readw_effect(s: ProcessState)
    requires
        s.items.len() >= 4,
        s.tape.len() >= 4,
    ensures
        ({
            let (r, s1) = execute_spec(Operation::ReadW, s);
            &&& r is Ok
            &&& s1.items.len() == s.items.len()
            &&& forall|i: int| 0 <= i < 4 ==> #[trigger] s1.items[i] == s.tape[3 - i]
            &&& forall|i: int| 4 <= i < s.items.len() ==> #[trigger] s1.items[i] == s.items[i]
            &&& s1.tape.len() == s.tape.len() - 4
            &&& forall|i: int| 0 <= i < s1.tape.len() ==> #[trigger] s1.tape[i] == s.tape[i + 4]
            &&& s1.memory == s.memory
        }),
{
}

} // verus!
