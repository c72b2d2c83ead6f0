//! The operations that wait for a free slot on the submission ring.

use std::collections::VecDeque;
use vstd::prelude::*;

use crate::operation::Operation;
use crate::operation::OperationView;

verus! {

/// The views of a sequence of operations, in order.
pub open spec fn views(ops: Seq<Box<Operation>>) -> Seq<OperationView> {
    ops.map_values(|op: Box<Operation>| op@)
}

/// Operations in the order in which they will be submitted: first in,
/// first out, except that one taken from the front may be put back there.
pub struct PendingQueue {
    ops: VecDeque<Box<Operation>>,
}

impl View for PendingQueue {
    type V = Seq<OperationView>;

    closed spec fn view(&self) -> Seq<OperationView> {
        views(self.ops@)
    }
}

impl PendingQueue {
    /// A queue with nothing in it.
    pub fn new() -> (queue: Self)
        ensures
            queue@ == Seq::<OperationView>::empty(),
    {
        let queue = PendingQueue { ops: VecDeque::new() };
        assert(queue@ =~= Seq::<OperationView>::empty());
        queue
    }

    /// How many operations wait.
    pub fn len(&self) -> (n: usize)
        ensures
            n == self@.len(),
    {
        self.ops.len()
    }

    /// Whether nothing waits.
    pub fn is_empty(&self) -> (b: bool)
        ensures
            b == (self@.len() == 0),
    {
        self.ops.len() == 0
    }

    /// Appends `op` behind everything that already waits.
    pub fn push_back(&mut self, op: Box<Operation>)
        ensures
            final(self)@ == old(self)@.push(op@),
    {
        self.ops.push_back(op);
        assert(self@ =~= old(self)@.push(op@));
    }

    /// Puts `op` in front of everything that waits.
    pub fn push_front(&mut self, op: Box<Operation>)
        ensures
            final(self)@ == seq![op@] + old(self)@,
    {
        self.ops.push_front(op);
        assert(self@ =~= seq![op@] + old(self)@);
    }

    /// Takes the operation that has waited longest.
    pub fn pop_front(&mut self) -> (front: Option<Box<Operation>>)
        ensures
            match front {
                Some(op) => old(self)@.len() > 0 && op@ == old(self)@[0] && final(self)@ == old(
                    self,
                )@.drop_first(),
                None => old(self)@.len() == 0 && final(self)@ == old(self)@,
            },
    {
        let front = self.ops.pop_front();
        assert(front is Some ==> self@ =~= old(self)@.drop_first());
        front
    }
}

} // verus!
