use vstd::prelude::*;

use crate::errors::ExecutionError;
use crate::felt::Felt;

verus! {

/// Number of stack items kept in each trace row; deeper items live in the overflow table.
pub const MIN_STACK_DEPTH: usize = 16;

/// `n` zero elements.
pub open spec fn zeros(n: nat) -> Seq<Felt> {
    Seq::new(n, |i: int| Felt::zero_spec())
}

/// `s` read from its last element to its first.
pub open spec fn backwards(s: Seq<Felt>) -> Seq<Felt> {
    Seq::new(s.len(), |i: int| s[s.len() - 1 - i])
}

/// How many stack items a trace row holds when the stack is `depth` deep.
pub open spec fn row_len(depth: nat) -> nat {
    if depth < 16 { depth } else { 16 }
}

/// How many items the overflow table holds when the stack is `depth` deep.
pub open spec fn overflow_len(depth: nat) -> nat {
    if depth > 16 { (depth - 16) as nat } else { 0 }
}

/// The stack items, top first, that a trace row and an overflow table stand for.
/// The overflow table keeps the deepest item first, so it is read backwards.
pub open spec fn stack_items(row: Seq<Felt>, overflow: Seq<Felt>, depth: nat) -> Seq<Felt> {
    row.take(row_len(depth) as int) + backwards(overflow)
}

/// The trace row that shows `items`: the top sixteen, padded with zeros below.
pub open spec fn pad_row(items: Seq<Felt>) -> Seq<Felt> {
    if items.len() >= 16 {
        items.take(16)
    } else {
        items + zeros((16 - items.len()) as nat)
    }
}

/// The operand stack of the processor, with the execution trace of its top sixteen slots.
///
/// Row `step` of the trace is the current state; operations write the following row, which
/// `advance_clock` then appends to the trace.
pub struct Stack {
    step: usize,
    trace: Vec<Vec<Felt>>,
    next: Vec<Felt>,
    overflow: Vec<Felt>,
    depth: usize,
}

impl Stack {
    /// The current clock cycle.
    pub closed spec fn clock(self) -> nat {
        self.step as nat
    }

    /// Every committed trace row, oldest first.
    pub closed spec fn history(self) -> Seq<Seq<Felt>> {
        self.trace@.map_values(|r: Vec<Felt>| r@)
    }

    /// The row being written by the operation in progress.
    pub closed spec fn next_row(self) -> Seq<Felt> {
        self.next@
    }

    /// The overflow table, deepest item first.
    pub closed spec fn overflow_view(self) -> Seq<Felt> {
        self.overflow@
    }

    /// The number of items on the stack.
    pub closed spec fn depth_spec(self) -> nat {
        self.depth as nat
    }

    /// The current trace row.
    pub open spec fn row(self) -> Seq<Felt> {
        self.history()[self.clock() as int]
    }

    /// The items on the stack, top first.
    pub open spec fn items(self) -> Seq<Felt> {
        stack_items(self.row(), self.overflow_view(), self.depth_spec())
    }

    /// The items on the stack, top first, once the operation in progress is committed.
    pub open spec fn pending_items(self) -> Seq<Felt> {
        stack_items(self.next_row(), self.overflow_view(), self.depth_spec())
    }

    /// The shape that every operation keeps: one committed row per elapsed cycle, sixteen
    /// slots per row, and an overflow table that holds exactly the items below slot sixteen.
    pub open spec fn well_shaped(self) -> bool {
        &&& self.history().len() == self.clock() + 1
        &&& self.clock() < usize::MAX
        &&& forall|i: int| 0 <= i < self.history().len() ==> #[trigger] self.history()[i].len() == 16
        &&& self.next_row().len() == 16
        &&& self.overflow_view().len() == overflow_len(self.depth_spec())
    }

    /// The state between operations: slots below the stack's depth read zero and no
    /// row is being written.
    pub open spec fn wf(self) -> bool {
        &&& self.well_shaped()
        &&& forall|i: int| self.depth_spec() <= i < 16 ==> #[trigger] self.row()[i] == Felt::zero_spec()
        &&& self.next_row() == zeros(16)
    }

    /// The state after an operation has written the next row and before it is committed.
    pub open spec fn pending_wf(self) -> bool {
        &&& self.well_shaped()
        &&& forall|i: int| self.depth_spec() <= i < 16 ==> #[trigger] self.next_row()[i] == Felt::zero_spec()
    }

    /// Between operations and while one is in progress, the model holds as many items as the
    /// stack is deep.
    pub proof fn lemma_items_len(self)
        requires
            self.well_shaped(),
        ensures
            self.items().len() == self.depth_spec(),
            self.pending_items().len() == self.depth_spec(),
    {
        assert(self.history()[self.clock() as int].len() == 16);
    }

    /// Between operations the current trace row shows the top sixteen items, zeros below
    /// the stack's depth.
    pub proof fn lemma_row_shows_items(self)
        requires
            self.wf(),
        ensures
            self.row() == pad_row(self.items()),
    {
        self.lemma_items_len();
        assert(self.history()[self.clock() as int].len() == 16);
        assert(self.row() =~= pad_row(self.items()));
    }

    /// While an operation is in progress the next row shows the top sixteen items it leaves,
    /// zeros below the stack's depth.
    pub proof fn lemma_next_row_shows_items(self)
        requires
            self.pending_wf(),
        ensures
            self.next_row() == pad_row(self.pending_items()),
    {
        self.lemma_items_len();
        assert(self.next_row() =~= pad_row(self.pending_items()));
    }

    fn zero_row() -> (r: Vec<Felt>)
        ensures
            r@ == zeros(16),
    {
        let mut r: Vec<Felt> = Vec::new();
        let mut i: usize = 0;
        while i < MIN_STACK_DEPTH
            invariant
                i <= 16,
                r@ == zeros(i as nat),
            decreases 16 - i,
        {
            r.push(Felt::zero());
            i = i + 1;
            assert(r@ =~= zeros(i as nat));
        }
        r
    }

    /// An empty stack at clock cycle zero.
    pub fn new() -> (s: Stack)
        ensures
            s.wf(),
            s.items() == Seq::<Felt>::empty(),
            s.clock() == 0,
            s.history() == seq![zeros(16)],
    {
        let first = Stack::zero_row();
        let mut trace: Vec<Vec<Felt>> = Vec::new();
        trace.push(first);
        let s = Stack { step: 0, trace, next: Stack::zero_row(), overflow: Vec::new(), depth: 0 };
        assert(s.history() =~= seq![zeros(16)]);
        assert(s.items() =~= Seq::<Felt>::empty());
        s
    }

    /// The number of items on the stack.
    pub fn depth(&self) -> (r: usize)
        ensures
            r == self.depth_spec(),
    {
        self.depth
    }

    /// The current clock cycle.
    pub fn current_step(&self) -> (r: usize)
        ensures
            r == self.clock(),
    {
        self.step
    }

    /// The current trace row: the top sixteen stack slots.
    pub fn trace_state(&self) -> (r: [Felt; 16])
        requires
            self.well_shaped(),
        ensures
            r@ == self.row(),
            self.wf() ==> r@ == pad_row(self.items()),
    {
        proof {
            if self.wf() {
                self.lemma_row_shows_items();
            }
        }
        let row = &self.trace[self.step];
        assert(row@ == self.row());
        let r = [
            row[0], row[1], row[2], row[3], row[4], row[5], row[6], row[7],
            row[8], row[9], row[10], row[11], row[12], row[13], row[14], row[15],
        ];
        assert(r@ =~= self.row());
        r
    }

    /// The item in slot `pos` of the current row.
    pub fn get(&self, pos: usize) -> (r: Felt)
        requires
            self.well_shaped(),
            pos < 16,
        ensures
            r == self.row()[pos as int],
    {
        let row = &self.trace[self.step];
        assert(row@ == self.row());
        row[pos]
    }

    /// Writes `value` into slot `pos` of the next row.
    pub fn set(&mut self, pos: usize, value: Felt)
        requires
            old(self).well_shaped(),
            pos < 16,
        ensures
            final(self).well_shaped(),
            final(self).next_row() == old(self).next_row().update(pos as int, value),
            final(self).history() == old(self).history(),
            final(self).clock() == old(self).clock(),
            final(self).overflow_view() == old(self).overflow_view(),
            final(self).depth_spec() == old(self).depth_spec(),
    {
        self.next.set(pos, value);
    }

    /// Copies slots `start_pos..16` of the current row into the next row unchanged.
    pub fn copy_state(&mut self, start_pos: usize)
        requires
            old(self).well_shaped(),
            start_pos <= 16,
        ensures
            final(self).well_shaped(),
            final(self).next_row() == Seq::new(
                16,
                |i: int|
                    if i >= start_pos {
                        old(self).row()[i]
                    } else {
                        old(self).next_row()[i]
                    },
            ),
            final(self).history() == old(self).history(),
            final(self).clock() == old(self).clock(),
            final(self).overflow_view() == old(self).overflow_view(),
            final(self).depth_spec() == old(self).depth_spec(),
    {
        let ghost row = old(self).row();
        let ghost next0 = old(self).next_row();
        let mut i: usize = start_pos;
        while i < MIN_STACK_DEPTH
            invariant
                self.well_shaped(),
                start_pos <= i <= 16,
                self.history() == old(self).history(),
                self.clock() == old(self).clock(),
                self.overflow_view() == old(self).overflow_view(),
                self.depth_spec() == old(self).depth_spec(),
                row == self.row(),
                forall|j: int|
                    0 <= j < 16 ==> #[trigger] self.next_row()[j] == if start_pos <= j < i {
                        row[j]
                    } else {
                        next0[j]
                    },
            decreases 16 - i,
        {
            let v = self.get(i);
            self.set(i, v);
            i = i + 1;
        }
        assert(self.next_row() =~= Seq::new(
            16,
            |j: int|
                if j >= start_pos {
                    row[j]
                } else {
                    next0[j]
                },
        ));
    }

    /// Shifts the stack left at `start_pos`: slot `i` of the next row takes slot `i + 1` of the
    /// current row for `start_pos - 1 <= i`, and the deepest item comes back from the overflow
    /// table. The stack loses one item.
    pub fn shift_left(&mut self, start_pos: usize)
        requires
            old(self).well_shaped(),
            0 < start_pos <= 16,
            start_pos <= old(self).depth_spec(),
        ensures
            final(self).well_shaped(),
            final(self).depth_spec() == old(self).depth_spec() - 1,
            final(self).next_row() == Seq::new(
                16,
                |i: int|
                    if start_pos - 1 <= i < row_len(old(self).depth_spec()) - 1 {
                        old(self).row()[i + 1]
                    } else if i == 15 && old(self).depth_spec() > 16 {
                        old(self).overflow_view().last()
                    } else {
                        old(self).next_row()[i]
                    },
            ),
            final(self).overflow_view() == if old(self).depth_spec() > 16 {
                old(self).overflow_view().drop_last()
            } else {
                old(self).overflow_view()
            },
            final(self).history() == old(self).history(),
            final(self).clock() == old(self).clock(),
    {
        let ghost row = old(self).row();
        let ghost next0 = old(self).next_row();
        let ghost d = old(self).depth_spec();
        let end: usize = if self.depth < MIN_STACK_DEPTH { self.depth } else { MIN_STACK_DEPTH };
        let mut i: usize = start_pos;
        while i < end
            invariant
                self.well_shaped(),
                0 < start_pos <= i <= end,
                end == row_len(d),
                self.history() == old(self).history(),
                self.clock() == old(self).clock(),
                self.overflow_view() == old(self).overflow_view(),
                self.depth_spec() == d,
                row == self.row(),
                forall|j: int|
                    0 <= j < 16 ==> #[trigger] self.next_row()[j] == if start_pos - 1 <= j < i - 1 {
                        row[j + 1]
                    } else {
                        next0[j]
                    },
            decreases end - i,
        {
            let v = self.get(i);
            self.set(i - 1, v);
            i = i + 1;
        }
        if self.depth > MIN_STACK_DEPTH {
            let v = self.overflow.pop().unwrap();
            self.next.set(MIN_STACK_DEPTH - 1, v);
        }
        self.depth = self.depth - 1;
        assert(self.next_row() =~= Seq::new(
            16,
            |j: int|
                if start_pos - 1 <= j < row_len(d) - 1 {
                    row[j + 1]
                } else if j == 15 && d > 16 {
                    old(self).overflow_view().last()
                } else {
                    next0[j]
                },
        ));
    }

    /// Shifts the stack right at `start_pos`: slot `i + 1` of the next row takes slot `i` of
    /// the current row for `start_pos <= i < 15`, and slot fifteen moves to the overflow table
    /// once the rows are full. The stack gains one item.
    pub fn shift_right(&mut self, start_pos: usize)
        requires
            old(self).well_shaped(),
            start_pos < 16,
            old(self).depth_spec() < usize::MAX,
        ensures
            final(self).well_shaped(),
            final(self).depth_spec() == old(self).depth_spec() + 1,
            final(self).next_row() == Seq::new(
                16,
                |i: int|
                    if start_pos < i {
                        old(self).row()[i - 1]
                    } else {
                        old(self).next_row()[i]
                    },
            ),
            final(self).overflow_view() == if old(self).depth_spec() >= 16 {
                old(self).overflow_view().push(old(self).row()[15])
            } else {
                old(self).overflow_view()
            },
            final(self).history() == old(self).history(),
            final(self).clock() == old(self).clock(),
    {
        let ghost row = old(self).row();
        let ghost next0 = old(self).next_row();
        let ghost d = old(self).depth_spec();
        let mut i: usize = start_pos;
        while i < MIN_STACK_DEPTH - 1
            invariant
                self.well_shaped(),
                start_pos <= i <= 15,
                self.history() == old(self).history(),
                self.clock() == old(self).clock(),
                self.overflow_view() == old(self).overflow_view(),
                self.depth_spec() == d,
                row == self.row(),
                forall|j: int|
                    0 <= j < 16 ==> #[trigger] self.next_row()[j] == if start_pos < j <= i {
                        row[j - 1]
                    } else {
                        next0[j]
                    },
            decreases 15 - i,
        {
            let v = self.get(i);
            self.set(i + 1, v);
            i = i + 1;
        }
        if self.depth >= MIN_STACK_DEPTH {
            let v = self.get(MIN_STACK_DEPTH - 1);
            self.overflow.push(v);
        }
        self.depth = self.depth + 1;
        assert(self.next_row() =~= Seq::new(
            16,
            |j: int|
                if start_pos < j {
                    row[j - 1]
                } else {
                    next0[j]
                },
        ));
    }

    /// Fails with a stack underflow, naming `op`, when fewer than `num_items` items are on the
    /// stack.
    pub fn check_depth(&self, num_items: usize, op: &'static str) -> (r: Result<(), ExecutionError>)
        ensures
            r is Ok <==> self.depth_spec() >= num_items,
            r matches Err(e) ==> e == ExecutionError::StackUnderflow(op, self.clock() as usize),
    {
        if self.depth < num_items {
            return Err(ExecutionError::StackUnderflow(op, self.step));
        }
        Ok(())
    }

    /// Commits the next row: it becomes the current state and the clock advances by one.
    pub fn advance_clock(&mut self)
        requires
            old(self).pending_wf(),
        ensures
            final(self).wf(),
            final(self).clock() == old(self).clock() + 1,
            final(self).history() == old(self).history().push(old(self).next_row()),
            final(self).items() == old(self).pending_items(),
            final(self).depth_spec() == old(self).depth_spec(),
    {
        let mut row = Stack::zero_row();
        std::mem::swap(&mut row, &mut self.next);
        self.trace.push(row);
        self.step = self.trace.len() - 1;
        assert(self.history() =~= old(self).history().push(old(self).next_row()));
    }
}

} // verus!
