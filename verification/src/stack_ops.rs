use vstd::prelude::*;

use crate::errors::ExecutionError;
use crate::felt::Felt;
use crate::process::{push_spec, Process};

verus! {

impl Process {
    /// Pushes a zero onto the stack.
    ///
    /// The items already on the stack shift one slot deeper.
    pub fn op_pad(&mut self) -> (r: Result<(), ExecutionError>)
        requires
            old(self).wf(),
            old(self).stack.depth_spec() < usize::MAX,
        ensures
            r is Ok,
            final(self).pending_wf(),
            final(self).pending() == push_spec(old(self)@, Felt::zero_spec()),
            final(self).stack.history() == old(self).stack.history(),
    {
        self.op_push(Felt::zero())
    }
}

} // verus!
