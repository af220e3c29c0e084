use vstd::prelude::*;

use crate::errors::ExecutionError;
use crate::felt::Felt;
use crate::stack::backwards;

verus! {

/// The advice provider: a tape of non-deterministic inputs that the program reads in order.
pub struct AdviceProvider {
    step: usize,
    tape: Vec<Felt>,
}

impl AdviceProvider {
    /// The values still on the tape, next one first.
    pub closed spec fn remaining(self) -> Seq<Felt> {
        backwards(self.tape@)
    }

    /// The clock cycle the provider is at.
    pub closed spec fn clock(self) -> nat {
        self.step as nat
    }

    /// A provider whose tape holds `values`, to be read from the first one on.
    pub fn new(values: &[Felt]) -> (a: AdviceProvider)
        ensures
            a.remaining() == values@,
            a.clock() == 0,
    {
        let n = values.len();
        let mut tape: Vec<Felt> = Vec::new();
        let mut i: usize = 0;
        while i < n
            invariant
                n == values@.len(),
                i <= n,
                backwards(tape@) == values@.subrange((n - i) as int, n as int),
            decreases n - i,
        {
            let ghost before = tape@;
            assert(backwards(before).len() == before.len());
            let v = values[n - 1 - i];
            tape.push(v);
            i = i + 1;
            assert(tape@ == before.push(v));
            assert(tape@.len() == i);
            assert forall|j: int| 0 <= j < i implies #[trigger] backwards(tape@)[j]
                == values@.subrange((n - i) as int, n as int)[j] by {
                if j > 0 {
                    assert(backwards(tape@)[j] == backwards(before)[j - 1]);
                }
            }
            assert(backwards(tape@) =~= values@.subrange((n - i) as int, n as int));
        }
        assert(values@.subrange(0, n as int) =~= values@);
        AdviceProvider { step: 0, tape }
    }

    /// Removes the next value from the tape and returns it; fails when the tape is empty.
    pub fn read_tape(&mut self) -> (r: Result<Felt, ExecutionError>)
        ensures
            final(self).clock() == old(self).clock(),
            old(self).remaining().len() == 0 ==> {
                &&& r == Err::<Felt, ExecutionError>(ExecutionError::EmptyAdviceTape(old(self).clock() as usize))
                &&& final(self).remaining() == old(self).remaining()
                &&& final(self).remaining() == Seq::<Felt>::empty()
            },
            old(self).remaining().len() > 0 ==> {
                &&& r == Ok::<Felt, ExecutionError>(old(self).remaining()[0])
                &&& final(self).remaining() == old(self).remaining().drop_first()
            },
    {
        match self.tape.pop() {
            Some(v) => {
                assert(final(self).remaining() =~= old(self).remaining().drop_first());
                Ok(v)
            },
            None => {
                assert(final(self).remaining() =~= Seq::<Felt>::empty());
                Err(ExecutionError::EmptyAdviceTape(self.step))
            },
        }
    }

    /// Advances the provider's clock by one cycle.
    pub fn advance_clock(&mut self)
        requires
            old(self).clock() < usize::MAX,
        ensures
            final(self).clock() == old(self).clock() + 1,
            final(self).remaining() == old(self).remaining(),
    {
        self.step = self.step + 1;
    }
}

} // verus!
