//! What holds of every step of the loop, proved from the definitions of
//! the steps.

use vstd::prelude::*;

use crate::connection::ConnectionView;
use crate::connection::READ_BUFFER_SIZE;
use crate::connection::response_bytes;
use crate::event_loop::EventLoopView;
use crate::event_loop::Outcome;
use crate::operation::OperationError;
use crate::operation::OperationView;
use crate::operation::Request;
use crate::submission::CompletionQueueEvent;
use crate::submission::NULL_TAG;
use crate::submission::RESERVED_TAG;

verus! {

/// A submission keeps the state well formed. Where one is made, the tag it
/// carries is neither the null tag nor the reserved one, was not in flight
/// before, and is in flight afterwards with the operation that had waited
/// longest; everything else in flight stays.
pub proof fn lemma_submit(s: EventLoopView)
    requires
        s.wf(),
    ensures
        s.submit().wf(),
        s.can_submit() ==> {
            let tag = s.submission().unwrap().user_data;
            &&& tag != NULL_TAG
            &&& tag != RESERVED_TAG
            &&& !s.in_flight.operations.contains_key(tag)
            &&& s.submit().in_flight.operations.contains_key(tag)
            &&& s.submit().in_flight.operations[tag] == s.pending[0]
            &&& s.submit().in_flight.operations.remove(tag) == s.in_flight.operations
            &&& s.submit().in_flight.operations.len() == s.in_flight.operations.len() + 1
            &&& s.submit().pending.len() + 1 == s.pending.len()
        },
        !s.can_submit() ==> s.submit() == s && s.submission() is None,
{
    if s.can_submit() {
        let tag = s.in_flight.next_tag;
        assert(s.pending[0].is_pending() && s.pending[0].wf());
        assert(s.submit().in_flight.operations.remove(tag) =~= s.in_flight.operations);
        let t = s.submit();
        assert forall|i: int| 0 <= i < t.pending.len() implies (#[trigger] t.pending[i]).is_pending()
            && t.pending[i].wf() by {
            assert(t.pending[i] == s.pending[i + 1]);
        }
    }
}

/// Handling a completion keeps the state well formed, whatever tag and
/// result it carries.
pub proof fn lemma_complete_wf(s: EventLoopView, cqe: CompletionQueueEvent)
    requires
        s.wf(),
    ensures
        s.complete(cqe).wf(),
{
    let t = s.complete(cqe);
    if s.in_flight.operations.contains_key(cqe.user_data) && cqe.result >= 0 {
        let op = s.in_flight.operations[cqe.user_data];
        let next = op.completed(cqe.result).successors();
        assert(op.is_pending() && op.wf());
        assert forall|i: int| 0 <= i < t.pending.len() implies (#[trigger] t.pending[i]).is_pending()
            && t.pending[i].wf() by {
            if i < s.pending.len() {
                assert(t.pending[i] == s.pending[i]);
            } else {
                assert(t.pending[i] == next[i - s.pending.len()]);
            }
        }
    }
}

/// A completion is given back at most once: once a completion with a tag
/// has been handled, a second completion with the same tag finds nothing in
/// flight, changes nothing, and is reported as an unknown tag.
pub proof fn lemma_reclaim_once(
    s: EventLoopView,
    first: CompletionQueueEvent,
    second: CompletionQueueEvent,
)
    requires
        s.wf(),
        first.user_data == second.user_data,
    ensures
        !s.complete(first).in_flight.operations.contains_key(first.user_data),
        s.complete(first).complete(second) == s.complete(first),
        s.complete(first).outcome(second) == (Outcome {
            close: None,
            error: Some(OperationError::UnknownTag),
        }),
{
}

/// A completion with the null tag, or with any tag that is not in flight,
/// gives back nothing: the state stays as it is and the completion is
/// reported as an unknown tag.
pub proof fn lemma_unknown_tag(s: EventLoopView, cqe: CompletionQueueEvent)
    requires
        s.wf(),
        cqe.user_data == NULL_TAG || !s.in_flight.operations.contains_key(cqe.user_data),
    ensures
        s.complete(cqe) == s,
        s.outcome(cqe) == (Outcome { close: None, error: Some(OperationError::UnknownTag) }),
{
}

/// What is submitted comes back: a submission followed by the completion
/// of its tag leaves in flight exactly what was in flight before.
pub proof fn lemma_submit_then_complete(s: EventLoopView, result: i32)
    requires
        s.wf(),
        s.can_submit(),
    ensures
        ({
            let tag = s.submission().unwrap().user_data;
            let t = s.submit().complete(CompletionQueueEvent { user_data: tag, result });
            &&& t.in_flight.operations == s.in_flight.operations
            &&& result >= 0 ==> t.pending == s.pending.drop_first() + s.pending[0].completed(
                result,
            ).successors()
            &&& result < 0 ==> t.pending == s.pending.drop_first()
        }),
{
    let tag = s.submission().unwrap().user_data;
    let t = s.submit().complete(CompletionQueueEvent { user_data: tag, result });
    assert(t.in_flight.operations =~= s.in_flight.operations);
}

/// An accept that is submitted and completes with the descriptor `accept_fd`
/// puts two operations at the back of the queue: one accept on the same
/// listener, and behind it the first read of a new connection whose
/// descriptor is `accept_fd`. Nothing is to be closed and no error is
/// reported.
pub proof fn lemma_accept_round_trip(s: EventLoopView, listen_fd: i32, accept_fd: i32)
    requires
        s.wf(),
        s.can_submit(),
        s.pending[0] == (OperationView::AcceptPending { listen_fd }),
        accept_fd >= 0,
    ensures
        ({
            let sqe = s.submission().unwrap();
            let cqe = CompletionQueueEvent { user_data: sqe.user_data, result: accept_fd };
            let t = s.submit().complete(cqe);
            &&& sqe.request == (Request::Accept { listen_fd, flags: 0 })
            &&& t.pending == s.pending.drop_first().push(
                OperationView::AcceptPending { listen_fd },
            ).push(OperationView::ReadPending { data: ConnectionView::fresh(accept_fd) })
            &&& t.pending.last().descriptor() == Some(accept_fd)
            &&& t.in_flight.operations == s.in_flight.operations
            &&& s.submit().outcome(cqe) == (Outcome { close: None, error: None })
        }),
{
    let sqe = s.submission().unwrap();
    let cqe = CompletionQueueEvent { user_data: sqe.user_data, result: accept_fd };
    let t = s.submit().complete(cqe);
    assert(t.in_flight.operations =~= s.in_flight.operations);
    assert(t.pending =~= s.pending.drop_first().push(
        OperationView::AcceptPending { listen_fd },
    ).push(OperationView::ReadPending { data: ConnectionView::fresh(accept_fd) }));
}

/// After an accept has completed with a descriptor, exactly one accept on
/// its listener has joined the queue: the first of the two operations
/// added, and the only accept among them.
pub proof fn lemma_accept_rearms_once(s: EventLoopView, cqe: CompletionQueueEvent, listen_fd: i32)
    requires
        s.wf(),
        s.in_flight.operations.contains_key(cqe.user_data),
        s.in_flight.operations[cqe.user_data] == (OperationView::AcceptPending { listen_fd }),
        cqe.result >= 0,
    ensures
        ({
            let t = s.complete(cqe);
            let n = s.pending.len() as int;
            &&& t.pending.len() == n + 2
            &&& t.pending.subrange(0, n) == s.pending
            &&& t.pending[n] == (OperationView::AcceptPending { listen_fd })
            &&& t.pending[n + 1] == (OperationView::ReadPending {
                data: ConnectionView::fresh(cqe.result),
            })
            &&& !t.in_flight.operations.contains_key(cqe.user_data)
            &&& s.outcome(cqe) == (Outcome { close: None, error: None })
        }),
{
    let t = s.complete(cqe);
    assert(t.pending.subrange(0, s.pending.len() as int) =~= s.pending);
}

/// A read that completes with no bytes ends its connection: nothing joins
/// the queue, the operation is gone from the table, and the connection's
/// descriptor is to be closed. A read that completes with bytes is followed
/// by exactly one operation, the write on the same connection with the same
/// buffers, and nothing is to be closed.
pub proof fn lemma_read_completion(s: EventLoopView, cqe: CompletionQueueEvent, data: ConnectionView)
    requires
        s.wf(),
        s.in_flight.operations.contains_key(cqe.user_data),
        s.in_flight.operations[cqe.user_data] == (OperationView::ReadPending { data }),
        cqe.result >= 0,
    ensures
        !s.complete(cqe).in_flight.operations.contains_key(cqe.user_data),
        cqe.result == 0 ==> {
            &&& s.complete(cqe).pending == s.pending
            &&& s.outcome(cqe) == (Outcome { close: Some(data.fd), error: None })
        },
        cqe.result > 0 ==> {
            &&& s.complete(cqe).pending == s.pending.push(OperationView::WritePending { data })
            &&& s.outcome(cqe) == (Outcome { close: None, error: None })
        },
{
    let t = s.complete(cqe);
    if cqe.result == 0 {
        assert(t.pending =~= s.pending);
    } else {
        assert(t.pending =~= s.pending.push(OperationView::WritePending { data }));
    }
}

/// A write that completes is followed by exactly one operation, the next
/// read on the same connection with the same buffers, whatever number of
/// bytes it reports. Nothing is to be closed.
pub proof fn lemma_write_completion(
    s: EventLoopView,
    cqe: CompletionQueueEvent,
    data: ConnectionView,
)
    requires
        s.wf(),
        s.in_flight.operations.contains_key(cqe.user_data),
        s.in_flight.operations[cqe.user_data] == (OperationView::WritePending { data }),
        cqe.result >= 0,
    ensures
        !s.complete(cqe).in_flight.operations.contains_key(cqe.user_data),
        s.complete(cqe).pending == s.pending.push(OperationView::ReadPending { data }),
        s.outcome(cqe) == (Outcome { close: None, error: None }),
{
    assert(s.complete(cqe).pending =~= s.pending.push(OperationView::ReadPending { data }));
}

/// A completion with a negative result ends the operation: it leaves the
/// table, nothing joins the queue, the error number is reported, and the
/// descriptor of its connection, if it had one, is to be closed.
pub proof fn lemma_failed_completion(s: EventLoopView, cqe: CompletionQueueEvent)
    requires
        s.wf(),
        s.in_flight.operations.contains_key(cqe.user_data),
        cqe.result < 0,
    ensures
        !s.complete(cqe).in_flight.operations.contains_key(cqe.user_data),
        s.complete(cqe).pending == s.pending,
        s.outcome(cqe).close == s.in_flight.operations[cqe.user_data].descriptor(),
        s.outcome(cqe).error matches Some(OperationError::Kernel { errno }) && errno == -(
        cqe.result as int),
{
}

/// The request of a read asks for the whole read buffer, that of a write
/// sends the whole canned reply, each on the connection's own descriptor
/// and from offset 0.
pub proof fn lemma_connection_requests(data: ConnectionView)
    requires
        data.wf(),
    ensures
        (OperationView::ReadPending { data }).request() == (Request::Read {
            fd: data.fd,
            len: READ_BUFFER_SIZE,
            offset: 0,
        }),
        (OperationView::WritePending { data }).request() == (Request::Write {
            fd: data.fd,
            len: response_bytes().len() as usize,
            offset: 0,
        }),
        data.write_buf == response_bytes(),
{
}

/// What the kernel is handed for a connection in flight: a write sends the
/// canned reply and nothing else, a read has the whole read buffer to fill.
pub proof fn lemma_buffers_in_flight(s: EventLoopView, tag: u64)
    requires
        s.wf(),
    ensures
        s.in_flight.write_buffer(tag) matches Some(bytes) ==> bytes == response_bytes(),
        s.in_flight.read_buffer(tag) matches Some(bytes) ==> bytes.len() == READ_BUFFER_SIZE,
{
    if s.in_flight.operations.contains_key(tag) {
        assert(s.in_flight.operations[tag].wf());
    }
}

} // verus!
