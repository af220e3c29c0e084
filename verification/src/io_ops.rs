use vstd::prelude::*;

use crate::errors::ExecutionError;
use crate::felt::Felt;
use crate::process::{loadw_spec, push_spec, read_spec, readw_spec, stored_word, storew_spec, Process};
use crate::stack::{backwards, row_len, Stack};

verus! {

/// After `set(0, value)` and `shift_right(0)` on a stack between operations, the stack
/// pending commit holds `value` on top of the old items.
proof fn lemma_push_pending(s0: Stack, s1: Stack, value: Felt)
    requires
        s0.wf(),
        s1.well_shaped(),
        s1.depth_spec() == s0.depth_spec() + 1,
        s1.next_row() == Seq::new(16, |i: int| if 0 < i { s0.row()[i - 1] } else { value }),
        s1.overflow_view() == if s0.depth_spec() >= 16 {
            s0.overflow_view().push(s0.row()[15])
        } else {
            s0.overflow_view()
        },
    ensures
        s1.pending_wf(),
        s1.pending_items() == seq![value] + s0.items(),
{
    s0.lemma_items_len();
    s1.lemma_items_len();
    assert(s0.row().len() == 16) by {
        assert(s0.history()[s0.clock() as int].len() == 16);
    }
    let d = s0.depth_spec();
    if d >= 16 {
        assert(backwards(s1.overflow_view()) =~= seq![s0.row()[15]] + backwards(s0.overflow_view()));
    }
    assert(s1.pending_items() =~= seq![value] + s0.items());
}

/// After the top four slots of the next row are set to `top` and `shift_left(5)` runs on a
/// stack between operations, the stack pending commit holds `top` followed by the old items
/// below the fifth.
proof fn lemma_shift_left_pending(s0: Stack, s1: Stack, top: Seq<Felt>)
    requires
        s0.wf(),
        s0.depth_spec() >= 5,
        top.len() == 4,
        s1.well_shaped(),
        s1.depth_spec() == s0.depth_spec() - 1,
        s1.next_row() == Seq::new(
            16,
            |i: int|
                if i < 4 {
                    top[i]
                } else if i < row_len(s0.depth_spec()) - 1 {
                    s0.row()[i + 1]
                } else if i == 15 && s0.depth_spec() > 16 {
                    s0.overflow_view().last()
                } else {
                    Felt::zero_spec()
                },
        ),
        s1.overflow_view() == if s0.depth_spec() > 16 {
            s0.overflow_view().drop_last()
        } else {
            s0.overflow_view()
        },
    ensures
        s1.pending_wf(),
        s1.pending_items() == top + s0.items().skip(5),
{
    s0.lemma_items_len();
    s1.lemma_items_len();
    assert(s0.row().len() == 16) by {
        assert(s0.history()[s0.clock() as int].len() == 16);
    }
    let d = s0.depth_spec();
    if d > 16 {
        assert(backwards(s0.overflow_view()) =~= seq![s0.overflow_view().last()] + backwards(
            s1.overflow_view(),
        ));
    }
    assert(s1.pending_items() =~= top + s0.items().skip(5));
}

/// After the top four slots of the next row are set to `top` and `copy_state(4)` runs on a
/// stack between operations that holds at least four items, the stack pending commit holds
/// `top` in place of its top four items.
proof fn lemma_overwrite_top_pending(s0: Stack, s1: Stack, top: Seq<Felt>)
    requires
        s0.wf(),
        s0.depth_spec() >= 4,
        top.len() == 4,
        s1.well_shaped(),
        s1.depth_spec() == s0.depth_spec(),
        s1.overflow_view() == s0.overflow_view(),
        s1.next_row() == Seq::new(16, |i: int| if i < 4 { top[i] } else { s0.row()[i] }),
    ensures
        s1.pending_wf(),
        s1.pending_items() == top + s0.items().skip(4),
{
    s0.lemma_items_len();
    s1.lemma_items_len();
    assert(s0.row().len() == 16) by {
        assert(s0.history()[s0.clock() as int].len() == 16);
    }
    assert(s1.pending_items() =~= top + s0.items().skip(4));
}

impl Process {
    /// Pushes the provided value onto the stack.
    ///
    /// The items already on the stack shift one slot deeper.
    pub fn op_push(&mut self, value: Felt) -> (r: Result<(), ExecutionError>)
        requires
            old(self).wf(),
            old(self).stack.depth_spec() < usize::MAX,
        ensures
            r is Ok,
            final(self).pending_wf(),
            final(self).pending() == push_spec(old(self)@, value),
            final(self).stack.history() == old(self).stack.history(),
    {
        let ghost s0 = self.stack;
        self.stack.set(0, value);
        self.stack.shift_right(0);
        proof {
            assert(self.stack.next_row() =~= Seq::new(16, |i: int| if 0 < i { s0.row()[i - 1] } else { value }));
            lemma_push_pending(s0, self.stack, value);
        }
        Ok(())
    }

    // MEMORY OPERATIONS

    /// Loads a word (4 elements) from the specified memory address onto the stack.
    ///
    /// The memory address is popped off the stack, and the word stored at it overwrites the
    /// top four elements of the stack. Memory is initialized to zeros, so an address never
    /// written to yields four zeros. The net result is that the stack shifts left by one item.
    ///
    /// Fails when the stack holds fewer than five elements.
    pub fn op_loadw(&mut self) -> (r: Result<(), ExecutionError>)
        requires
            old(self).wf(),
        ensures
            old(self)@.items.len() < 5 ==> {
                &&& r == Err::<(), ExecutionError>(
                    ExecutionError::StackUnderflow("LOADW", old(self).stack.clock() as usize),
                )
                &&& *final(self) == *old(self)
            },
            old(self)@.items.len() >= 5 ==> {
                &&& r is Ok
                &&& final(self).pending_wf()
                &&& final(self).pending() == loadw_spec(old(self)@)
                &&& final(self).stack.history() == old(self).stack.history()
            },
    {
        proof {
            self.stack.lemma_items_len();
        }
        self.stack.check_depth(5, "LOADW")?;
        let ghost s0 = self.stack;

        // get the address from the stack and read the word from memory
        let addr = self.stack.get(0);
        let word = self.memory.read(addr);

        // update the stack state
        let mut i: usize = 0;
        while i < 4
            invariant
                i <= 4,
                self.stack.well_shaped(),
                self.stack.history() == s0.history(),
                self.stack.clock() == s0.clock(),
                self.stack.overflow_view() == s0.overflow_view(),
                self.stack.depth_spec() == s0.depth_spec(),
                self.memory == old(self).memory,
                self.advice == old(self).advice,
                forall|j: int|
                    0 <= j < 16 ==> #[trigger] self.stack.next_row()[j] == if j < i {
                        word@[3 - j]
                    } else {
                        Felt::zero_spec()
                    },
            decreases 4 - i,
        {
            self.stack.set(i, word[3 - i]);
            i = i + 1;
        }
        self.stack.shift_left(5);
        proof {
            let w = word@;
            let top = seq![w[3], w[2], w[1], w[0]];
            assert(s0.row()[0] == s0.items()[0]);
            assert(self.stack.next_row() =~= Seq::new(
                16,
                |j: int|
                    if j < 4 {
                        top[j]
                    } else if j < row_len(s0.depth_spec()) - 1 {
                        s0.row()[j + 1]
                    } else if j == 15 && s0.depth_spec() > 16 {
                        s0.overflow_view().last()
                    } else {
                        Felt::zero_spec()
                    },
            ));
            lemma_shift_left_pending(s0, self.stack, top);
        }
        Ok(())
    }

    /// Stores a word (4 elements) from the stack into the specified memory address.
    ///
    /// The memory address is popped off the stack, and the four elements below it are saved
    /// at that address (the deepest of them first); they stay on the stack. The net result is
    /// that the stack shifts left by one item.
    ///
    /// Fails when the stack holds fewer than five elements.
    pub fn op_storew(&mut self) -> (r: Result<(), ExecutionError>)
        requires
            old(self).wf(),
        ensures
            old(self)@.items.len() < 5 ==> {
                &&& r == Err::<(), ExecutionError>(
                    ExecutionError::StackUnderflow("STOREW", old(self).stack.clock() as usize),
                )
                &&& *final(self) == *old(self)
            },
            old(self)@.items.len() >= 5 ==> {
                &&& r is Ok
                &&& final(self).pending_wf()
                &&& final(self).pending() == storew_spec(old(self)@)
                &&& final(self).stack.history() == old(self).stack.history()
            },
    {
        proof {
            self.stack.lemma_items_len();
        }
        self.stack.check_depth(5, "STOREW")?;
        let ghost s0 = self.stack;

        // get the address from the stack and build the word to be saved from the stack values
        let addr = self.stack.get(0);
        let word = [self.stack.get(4), self.stack.get(3), self.stack.get(2), self.stack.get(1)];

        // write the word to memory
        self.memory.write(addr, word);
        let ghost written = self.memory;

        // update the stack state
        let mut i: usize = 0;
        while i < 4
            invariant
                i <= 4,
                self.stack.well_shaped(),
                self.stack.history() == s0.history(),
                self.stack.clock() == s0.clock(),
                self.stack.overflow_view() == s0.overflow_view(),
                self.stack.depth_spec() == s0.depth_spec(),
                self.memory == written,
                self.advice == old(self).advice,
                forall|j: int|
                    0 <= j < 16 ==> #[trigger] self.stack.next_row()[j] == if j < i {
                        word@[3 - j]
                    } else {
                        Felt::zero_spec()
                    },
            decreases 4 - i,
        {
            self.stack.set(i, word[3 - i]);
            i = i + 1;
        }
        self.stack.shift_left(5);
        proof {
            let w = word@;
            let top = seq![w[3], w[2], w[1], w[0]];
            let items = s0.items();
            assert(s0.row()[0] == items[0]);
            assert(s0.row()[1] == items[1]);
            assert(s0.row()[2] == items[2]);
            assert(s0.row()[3] == items[3]);
            assert(s0.row()[4] == items[4]);
            assert(w =~= stored_word(items));
            assert(self.stack.next_row() =~= Seq::new(
                16,
                |j: int|
                    if j < 4 {
                        top[j]
                    } else if j < row_len(s0.depth_spec()) - 1 {
                        s0.row()[j + 1]
                    } else if j == 15 && s0.depth_spec() > 16 {
                        s0.overflow_view().last()
                    } else {
                        Felt::zero_spec()
                    },
            ));
            lemma_shift_left_pending(s0, self.stack, top);
            assert(top + items.skip(5) =~= items.skip(1));
        }
        Ok(())
    }

    // ADVICE OPERATIONS

    /// Removes the next element from the advice tape and pushes it onto the stack.
    ///
    /// Fails when the advice tape is empty.
    pub fn op_read(&mut self) -> (r: Result<(), ExecutionError>)
        requires
            old(self).wf(),
            old(self).stack.depth_spec() < usize::MAX,
        ensures
            old(self)@.tape.len() == 0 ==> {
                &&& r == Err::<(), ExecutionError>(
                    ExecutionError::EmptyAdviceTape(old(self).stack.clock() as usize),
                )
                &&& final(self).wf()
                &&& final(self)@ == old(self)@
                &&& final(self).stack == old(self).stack
            },
            old(self)@.tape.len() > 0 ==> {
                &&& r is Ok
                &&& final(self).pending_wf()
                &&& final(self).pending() == read_spec(old(self)@)
                &&& final(self).stack.history() == old(self).stack.history()
            },
    {
        let value = self.advice.read_tape()?;
        let ghost s0 = self.stack;
        self.stack.set(0, value);
        self.stack.shift_right(0);
        proof {
            assert(self.stack.next_row() =~= Seq::new(
                16,
                |i: int|
                    if 0 < i {
                        s0.row()[i - 1]
                    } else {
                        value
                    },
            ));
            lemma_push_pending(s0, self.stack, value);
        }
        Ok(())
    }

    /// Removes a word (4 elements) from the advice tape and overwrites the top four stack
    /// elements with it; the fourth element read ends up on top.
    ///
    /// Fails when the stack holds fewer than four elements, or when the advice tape holds
    /// fewer than four elements; in the second case the elements read before the tape ran out
    /// are gone from it.
    pub fn op_readw(&mut self) -> (r: Result<(), ExecutionError>)
        requires
            old(self).wf(),
        ensures
            old(self)@.items.len() < 4 ==> {
                &&& r == Err::<(), ExecutionError>(
                    ExecutionError::StackUnderflow("READW", old(self).stack.clock() as usize),
                )
                &&& *final(self) == *old(self)
            },
            old(self)@.items.len() >= 4 && old(self)@.tape.len() < 4 ==> {
                &&& r == Err::<(), ExecutionError>(
                    ExecutionError::EmptyAdviceTape(old(self).stack.clock() as usize),
                )
                &&& final(self).wf()
                &&& final(self)@ == (crate::process::ProcessState { tape: Seq::empty(), ..old(self)@ })
                &&& final(self).stack == old(self).stack
            },
            old(self)@.items.len() >= 4 && old(self)@.tape.len() >= 4 ==> {
                &&& r is Ok
                &&& final(self).pending_wf()
                &&& final(self).pending() == readw_spec(old(self)@)
                &&& final(self).stack.history() == old(self).stack.history()
            },
    {
        proof {
            self.stack.lemma_items_len();
        }
        self.stack.check_depth(4, "READW")?;

        let ghost tape = self.advice.remaining();
        let a = self.advice.read_tape()?;
        let b = self.advice.read_tape()?;
        let c = self.advice.read_tape()?;
        let d = self.advice.read_tape()?;
        assert(tape.skip(4) =~= tape.drop_first().drop_first().drop_first().drop_first());

        let ghost s0 = self.stack;
        self.stack.set(0, d);
        self.stack.set(1, c);
        self.stack.set(2, b);
        self.stack.set(3, a);
        self.stack.copy_state(4);
        proof {
            let top = seq![d, c, b, a];
            assert(self.stack.next_row() =~= Seq::new(
                16,
                |i: int|
                    if i < 4 {
                        top[i]
                    } else {
                        s0.row()[i]
                    },
            ));
            lemma_overwrite_top_pending(s0, self.stack, top);
        }
        Ok(())
    }
}

} // verus!
