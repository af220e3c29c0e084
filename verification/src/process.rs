use vstd::prelude::*;

use crate::advice::AdviceProvider;
use crate::errors::ExecutionError;
use crate::felt::Felt;
use crate::memory::{read_word, Memory};
use crate::stack::{pad_row, Stack};

verus! {

/// An operation of the virtual machine.
#[derive(Clone, Copy, Debug)]
pub enum Operation {
    /// Pushes the given value onto the stack.
    Push(Felt),
    /// Pushes a zero onto the stack.
    Pad,
    /// Replaces the address on top of the stack with the word stored at it.
    LoadW,
    /// Stores the four items below the address on top of the stack at that address, and drops
    /// the address.
    StoreW,
    /// Pushes the next value of the advice tape onto the stack.
    Read,
    /// Overwrites the top four stack items with the next four values of the advice tape.
    ReadW,
}

/// What a process is, abstractly: its stack items (top first), its clock cycle, its memory and
/// the values left on its advice tape (next first).
pub struct ProcessState {
    pub items: Seq<Felt>,
    pub step: nat,
    pub memory: Map<u64, Seq<Felt>>,
    pub tape: Seq<Felt>,
}

/// The state after `Push(value)`: `value` on top of the stack.
pub open spec fn push_spec(s: ProcessState, value: Felt) -> ProcessState {
    ProcessState { items: seq![value] + s.items, ..s }
}

/// The state after `LoadW`: the address on top is replaced by the word stored at it, whose
/// last element ends up on top; the three items below the address are overwritten.
pub open spec fn loadw_spec(s: ProcessState) -> ProcessState {
    let w = read_word(s.memory, s.items[0]@);
    ProcessState { items: seq![w[3], w[2], w[1], w[0]] + s.items.skip(5), ..s }
}

/// The word that `StoreW` writes: the four items below the address, deepest first.
pub open spec fn stored_word(items: Seq<Felt>) -> Seq<Felt> {
    seq![items[4], items[3], items[2], items[1]]
}

/// The state after `StoreW`: the word below the address is written at the address, and the
/// address leaves the stack.
pub open spec fn storew_spec(s: ProcessState) -> ProcessState {
    ProcessState {
        items: s.items.skip(1),
        memory: s.memory.insert(s.items[0]@, stored_word(s.items)),
        ..s
    }
}

/// The state after `Read`: the next tape value is pushed onto the stack.
pub open spec fn read_spec(s: ProcessState) -> ProcessState {
    ProcessState { items: seq![s.tape[0]] + s.items, tape: s.tape.drop_first(), ..s }
}

/// The state after `ReadW`: the next four tape values replace the top four items, the fourth
/// value on top.
pub open spec fn readw_spec(s: ProcessState) -> ProcessState {
    ProcessState {
        items: seq![s.tape[3], s.tape[2], s.tape[1], s.tape[0]] + s.items.skip(4),
        tape: s.tape.skip(4),
        ..s
    }
}

/// What executing `op` in state `s` returns, and the state it leaves.
///
/// A successful operation advances the clock by one cycle; a failed one does not. The only
/// failure that changes anything is `ReadW` running out of tape, which has consumed the
/// values it read before failing.
pub open spec fn execute_spec(op: Operation, s: ProcessState) -> (Result<(), ExecutionError>, ProcessState) {
    let t = s.step + 1;
    let underflow = |name: &'static str| Err::<(), ExecutionError>(ExecutionError::StackUnderflow(name, s.step as usize));
    let empty = Err::<(), ExecutionError>(ExecutionError::EmptyAdviceTape(s.step as usize));
    match op {
        Operation::Push(v) => (Ok(()), ProcessState { step: t, ..push_spec(s, v) }),
        Operation::Pad => (Ok(()), ProcessState { step: t, ..push_spec(s, Felt::zero_spec()) }),
        Operation::LoadW => if s.items.len() < 5 {
            (underflow("LOADW"), s)
        } else {
            (Ok(()), ProcessState { step: t, ..loadw_spec(s) })
        },
        Operation::StoreW => if s.items.len() < 5 {
            (underflow("STOREW"), s)
        } else {
            (Ok(()), ProcessState { step: t, ..storew_spec(s) })
        },
        Operation::Read => if s.tape.len() == 0 {
            (empty, s)
        } else {
            (Ok(()), ProcessState { step: t, ..read_spec(s) })
        },
        Operation::ReadW => if s.items.len() < 4 {
            (underflow("READW"), s)
        } else if s.tape.len() < 4 {
            (empty, ProcessState { tape: Seq::empty(), ..s })
        } else {
            (Ok(()), ProcessState { step: t, ..readw_spec(s) })
        },
    }
}

/// The processor: an operand stack with its trace, memory, and the advice provider.
pub struct Process {
    pub stack: Stack,
    pub memory: Memory,
    pub advice: AdviceProvider,
}

impl View for Process {
    type V = ProcessState;

    open spec fn view(&self) -> ProcessState {
        ProcessState {
            items: self.stack.items(),
            step: self.stack.clock(),
            memory: self.memory.contents(),
            tape: self.advice.remaining(),
        }
    }
}

impl Process {
    /// The state the operation in progress leaves once it is committed (the clock not yet
    /// advanced).
    pub open spec fn pending(self) -> ProcessState {
        ProcessState {
            items: self.stack.pending_items(),
            step: self.stack.clock(),
            memory: self.memory.contents(),
            tape: self.advice.remaining(),
        }
    }

    /// Between operations.
    pub open spec fn wf(self) -> bool {
        &&& self.stack.wf()
        &&& self.advice.clock() == self.stack.clock()
    }

    /// While an operation is in progress.
    pub open spec fn pending_wf(self) -> bool {
        &&& self.stack.pending_wf()
        &&& self.advice.clock() == self.stack.clock()
    }

    /// A process with an empty stack, empty memory, and `advice_tape` on its advice tape.
    pub fn new(advice_tape: &[Felt]) -> (p: Process)
        ensures
            p.wf(),
            p@ == (ProcessState {
                items: Seq::empty(),
                step: 0,
                memory: Map::empty(),
                tape: advice_tape@,
            }),
    {
        Process { stack: Stack::new(), memory: Memory::new(), advice: AdviceProvider::new(advice_tape) }
    }

    /// A process with an empty stack, empty memory and an empty advice tape.
    pub fn new_dummy() -> (p: Process)
        ensures
            p.wf(),
            p@ == (ProcessState {
                items: Seq::empty(),
                step: 0,
                memory: Map::empty(),
                tape: Seq::empty(),
            }),
    {
        let empty: Vec<Felt> = Vec::new();
        Process::new(empty.as_slice())
    }

    /// A process with an empty stack and memory whose advice tape holds `values`, each
    /// reduced into the field.
    pub fn new_dummy_with_advice_tape(values: &[u64]) -> (p: Process)
        ensures
            p.wf(),
            p@ == (ProcessState {
                items: Seq::empty(),
                step: 0,
                memory: Map::empty(),
                tape: values@.map_values(|v: u64| Felt::from_int(v)),
            }),
    {
        let mut tape: Vec<Felt> = Vec::new();
        let mut i: usize = 0;
        while i < values.len()
            invariant
                i <= values@.len(),
                tape@ == values@.take(i as int).map_values(|v: u64| Felt::from_int(v)),
            decreases values@.len() - i,
        {
            tape.push(Felt::new(values[i]));
            i = i + 1;
            assert(tape@ =~= values@.take(i as int).map_values(|v: u64| Felt::from_int(v)));
        }
        assert(values@.take(values@.len() as int) =~= values@);
        Process::new(tape.as_slice())
    }

    /// Commits the operation in progress and advances every clock by one cycle.
    pub fn advance_clock(&mut self)
        requires
            old(self).pending_wf(),
        ensures
            final(self).wf(),
            final(self)@ == (ProcessState { step: old(self).stack.clock() + 1, ..old(self).pending() }),
            final(self).stack.history() == old(self).stack.history().push(old(self).stack.next_row()),
    {
        self.stack.advance_clock();
        self.advice.advance_clock();
    }

    /// Executes `op`; when it succeeds the clock advances by one cycle.
    pub fn execute_op(&mut self, op: Operation) -> (r: Result<(), ExecutionError>)
        requires
            old(self).wf(),
            old(self)@.items.len() < usize::MAX,
        ensures
            final(self).wf(),
            r == execute_spec(op, old(self)@).0,
            final(self)@ == execute_spec(op, old(self)@).1,
            r is Ok ==> final(self).stack.history() == old(self).stack.history().push(
                pad_row(final(self)@.items),
            ),
            r is Err ==> final(self).stack.history() == old(self).stack.history(),
            final(self)@.memory.dom().finite(),
    {
        proof {
            self.stack.lemma_items_len();
            self.memory.lemma_finite();
        }
        match op {
            Operation::Push(value) => self.op_push(value)?,
            Operation::Pad => self.op_pad()?,
            Operation::LoadW => self.op_loadw()?,
            Operation::StoreW => self.op_storew()?,
            Operation::Read => self.op_read()?,
            Operation::ReadW => self.op_readw()?,
        }
        proof {
            self.stack.lemma_next_row_shows_items();
        }
        self.advance_clock();
        proof {
            self.memory.lemma_finite();
        }
        Ok(())
    }
}

} // verus!
