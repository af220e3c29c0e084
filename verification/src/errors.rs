use vstd::prelude::*;

verus! {

/// Why an operation could not be executed.
#[derive(Debug, Clone, Copy)]
pub enum ExecutionError {
    /// The stack held fewer items than the named operation needs; the `usize` is the clock
    /// cycle at which it happened.
    StackUnderflow(&'static str, usize),
    /// The advice tape ran out of values at the given clock cycle.
    EmptyAdviceTape(usize),
}

} // verus!
