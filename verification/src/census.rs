//! Counting the operations of a state that have some property, and how a
//! step changes the count.

use vstd::prelude::*;
use vstd::set_lib::*;

use crate::connection::ConnectionView;
use crate::event_loop::EventLoopView;
use crate::operation::OperationView;
use crate::submission::CompletionQueueEvent;
use crate::trace::one_if;

verus! {

/// How many operations of `ops` have the property `p`.
pub open spec fn count_waiting(ops: Seq<OperationView>, p: spec_fn(OperationView) -> bool) -> nat
    decreases ops.len(),
{
    if ops.len() == 0 {
        0
    } else {
        count_waiting(ops.drop_last(), p) + one_if(p(ops.last()))
    }
}

/// The tags of `ops` under which an operation with the property `p` is
/// filed.
pub open spec fn tags_with(ops: Map<u64, OperationView>, p: spec_fn(OperationView) -> bool) -> Set<
    u64,
> {
    ops.dom().filter(|tag: u64| p(ops[tag]))
}

/// How many operations of the table `ops` have the property `p`.
pub open spec fn count_in_flight(ops: Map<u64, OperationView>, p: spec_fn(OperationView) -> bool)
    -> nat {
    tags_with(ops, p).len()
}

/// How many operations of `s`, waiting or in flight, have the property `p`.
pub open spec fn count(s: EventLoopView, p: spec_fn(OperationView) -> bool) -> nat {
    count_waiting(s.pending, p) + count_in_flight(s.in_flight.operations, p)
}

/// The property `p` does not look at what a read buffer holds.
pub open spec fn ignores_read_buffer(p: spec_fn(OperationView) -> bool) -> bool {
    forall|data: ConnectionView, bytes: Seq<u8>|
        p(OperationView::ReadPending { data }) == #[trigger] p(
            OperationView::ReadPending { data: data.with_read_buf(bytes) },
        )
}

/// The count over a concatenation is the sum of the counts.
pub proof fn lemma_count_waiting_add(
    a: Seq<OperationView>,
    b: Seq<OperationView>,
    p: spec_fn(OperationView) -> bool,
)
    ensures
        count_waiting(a + b, p) == count_waiting(a, p) + count_waiting(b, p),
    decreases b.len(),
{
    if b.len() == 0 {
        assert(a + b =~= a);
    } else {
        assert((a + b).drop_last() =~= a + b.drop_last());
        lemma_count_waiting_add(a, b.drop_last(), p);
    }
}

/// The count over one operation is 1 or 0.
pub proof fn lemma_count_waiting_one(op: OperationView, p: spec_fn(OperationView) -> bool)
    ensures
        count_waiting(seq![op], p) == one_if(p(op)),
{
    assert(seq![op].drop_last() =~= Seq::<OperationView>::empty());
    assert(count_waiting(seq![op].drop_last(), p) == 0);
}

/// The count over two operations is the sum over each.
pub proof fn lemma_count_waiting_two(
    first: OperationView,
    second: OperationView,
    p: spec_fn(OperationView) -> bool,
)
    ensures
        count_waiting(seq![first, second], p) == one_if(p(first)) + one_if(p(second)),
{
    assert(seq![first, second] =~= seq![first] + seq![second]);
    lemma_count_waiting_add(seq![first], seq![second], p);
    lemma_count_waiting_one(first, p);
    lemma_count_waiting_one(second, p);
}

/// Taking the first operation away lowers the count by what it counted.
pub proof fn lemma_count_waiting_drop_first(
    ops: Seq<OperationView>,
    p: spec_fn(OperationView) -> bool,
)
    requires
        ops.len() > 0,
    ensures
        count_waiting(ops, p) == one_if(p(ops[0])) + count_waiting(ops.drop_first(), p),
{
    assert(ops =~= seq![ops[0]] + ops.drop_first());
    lemma_count_waiting_add(seq![ops[0]], ops.drop_first(), p);
    lemma_count_waiting_one(ops[0], p);
}

/// Filing an operation under a new tag raises the count by what it counts.
pub proof fn lemma_count_in_flight_insert(
    ops: Map<u64, OperationView>,
    tag: u64,
    op: OperationView,
    p: spec_fn(OperationView) -> bool,
)
    requires
        ops.dom().finite(),
        !ops.contains_key(tag),
    ensures
        count_in_flight(ops.insert(tag, op), p) == count_in_flight(ops, p) + one_if(p(op)),
{
    ops.dom().lemma_len_filter(|tag: u64| p(ops[tag]));
    if p(op) {
        assert(tags_with(ops.insert(tag, op), p) =~= tags_with(ops, p).insert(tag));
    } else {
        assert(tags_with(ops.insert(tag, op), p) =~= tags_with(ops, p));
    }
}

/// Taking an operation out of the table lowers the count by what it
/// counted.
pub proof fn lemma_count_in_flight_remove(
    ops: Map<u64, OperationView>,
    tag: u64,
    p: spec_fn(OperationView) -> bool,
)
    requires
        ops.dom().finite(),
        ops.contains_key(tag),
    ensures
        count_in_flight(ops, p) == count_in_flight(ops.remove(tag), p) + one_if(p(ops[tag])),
{
    ops.dom().lemma_len_filter(|tag: u64| p(ops[tag]));
    if p(ops[tag]) {
        assert(tags_with(ops.remove(tag), p) =~= tags_with(ops, p).remove(tag));
    } else {
        assert(tags_with(ops.remove(tag), p) =~= tags_with(ops, p));
    }
}

/// A submission moves an operation from the queue into the table and
/// leaves every count as it was.
pub proof fn lemma_count_submit(s: EventLoopView, p: spec_fn(OperationView) -> bool)
    requires
        s.wf(),
    ensures
        count(s.submit(), p) == count(s, p),
{
    if s.can_submit() {
        lemma_count_waiting_drop_first(s.pending, p);
        lemma_count_in_flight_insert(s.in_flight.operations, s.in_flight.next_tag, s.pending[0], p);
    }
}

/// Bytes that arrive in a read buffer leave every count as it was that
/// does not look at them.
pub proof fn lemma_count_fill(
    s: EventLoopView,
    tag: u64,
    bytes: Seq<u8>,
    p: spec_fn(OperationView) -> bool,
)
    requires
        s.wf(),
        ignores_read_buffer(p),
    ensures
        count(s.fill(tag, bytes), p) == count(s, p),
{
    if s.fill(tag, bytes) != s {
        let ops = s.in_flight.operations;
        let after = s.fill(tag, bytes).in_flight.operations;
        assert(tags_with(after, p) =~= tags_with(ops, p)) by {
            assert forall|other: u64| tags_with(after, p).contains(other) == tags_with(
                ops,
                p,
            ).contains(other) by {
                if other == tag {
                    assert(p(after[tag]) == p(ops[tag]));
                }
            }
        }
    }
}

/// A completion takes its operation out of the count and puts the
/// successors in: the count afterwards, plus what the completed operation
/// counted, is the count before plus what the successors count. A
/// completion with an unknown tag changes no count; one with a negative
/// result has no successors.
pub proof fn lemma_count_complete(
    s: EventLoopView,
    cqe: CompletionQueueEvent,
    p: spec_fn(OperationView) -> bool,
)
    requires
        s.wf(),
    ensures
        !s.in_flight.operations.contains_key(cqe.user_data) ==> count(s.complete(cqe), p) == count(
            s,
            p,
        ),
        s.in_flight.operations.contains_key(cqe.user_data) && cqe.result < 0 ==> count(
            s.complete(cqe),
            p,
        ) + one_if(p(s.in_flight.operations[cqe.user_data])) == count(s, p),
        s.in_flight.operations.contains_key(cqe.user_data) && cqe.result >= 0 ==> count(
            s.complete(cqe),
            p,
        ) + one_if(p(s.in_flight.operations[cqe.user_data])) == count(s, p) + count_waiting(
            s.in_flight.operations[cqe.user_data].completed(cqe.result).successors(),
            p,
        ),
{
    if s.in_flight.operations.contains_key(cqe.user_data) {
        lemma_count_in_flight_remove(s.in_flight.operations, cqe.user_data, p);
        if cqe.result >= 0 {
            lemma_count_waiting_add(
                s.pending,
                s.in_flight.operations[cqe.user_data].completed(cqe.result).successors(),
                p,
            );
        }
    }
}

} // verus!
