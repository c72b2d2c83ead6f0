//! One request to the kernel and the phases it passes through.

use vstd::prelude::*;

use crate::connection::ConnectionData;
use crate::connection::ConnectionView;
use crate::connection::RawFd;
use crate::queue::PendingQueue;
use crate::state::OperationState;
use crate::submission::CompletionQueueEvent;
use crate::submission::InFlight;

verus! {

/// An accept that waits on a listening socket.
#[derive(Debug)]
pub struct AcceptPending {
    pub listen_fd: RawFd,
}

/// An accept that has produced a connection.
#[derive(Debug)]
pub struct AcceptReady {
    pub listen_fd: RawFd,
    pub accept_fd: RawFd,
}

/// A read that waits for the peer.
#[derive(Debug)]
pub struct ConnectionReadPending {
    pub data: ConnectionData,
}

/// A read that has finished with `bytes_read` bytes in the buffer.
#[derive(Debug)]
pub struct ConnectionReadReady {
    pub bytes_read: usize,
    pub data: ConnectionData,
}

/// A write of the canned reply that waits for the socket.
#[derive(Debug)]
pub struct ConnectionWritePending {
    pub data: ConnectionData,
}

/// A write that has finished after `bytes_wrote` bytes.
#[derive(Debug)]
pub struct ConnectionWriteReady {
    pub data: ConnectionData,
    pub bytes_wrote: usize,
}

/// One request to the kernel: what is asked for, and how far it has come.
#[derive(Debug)]
pub enum Operation {
    Accept(OperationState<AcceptPending, AcceptReady>),
    ConnectionRead(OperationState<ConnectionReadPending, ConnectionReadReady>),
    ConnectionWrite(OperationState<ConnectionWritePending, ConnectionWriteReady>),
}

/// The parameters of a request as the kernel wants them.
#[derive(Clone, Copy, Debug, PartialEq, Eq)]
pub enum Request {
    /// Accept one connection on `listen_fd` with the socket flags `flags`.
    Accept { listen_fd: RawFd, flags: i32 },
    /// Read up to `len` bytes from `fd` into the connection's read buffer,
    /// at file offset `offset`.
    Read { fd: RawFd, len: usize, offset: u64 },
    /// Write the `len` bytes of the connection's write buffer to `fd`, at
    /// file offset `offset`.
    Write { fd: RawFd, len: usize, offset: u64 },
}

/// Why a completion could not be turned into a ready operation.
#[derive(Clone, Copy, Debug, PartialEq, Eq)]
pub enum OperationError {
    /// The completion's tag names no submission in flight.
    UnknownTag,
    /// The kernel reported failure; `errno` is the error number.
    Kernel { errno: u32 },
}

/// An [`Operation`] as a mathematical value, one variant per observable
/// phase.
pub enum OperationView {
    AcceptPending { listen_fd: RawFd },
    AcceptReady { listen_fd: RawFd, accept_fd: RawFd },
    ReadPending { data: ConnectionView },
    ReadReady { data: ConnectionView, bytes_read: usize },
    WritePending { data: ConnectionView },
    WriteReady { data: ConnectionView, bytes_wrote: usize },
    /// A state was taken out and not yet put back.
    InTransit,
}

/// The error number behind a negative completion result.
pub open spec fn errno_of(result: i32) -> u32
    recommends
        result < 0,
{
    (-(result as int)) as u32
}

impl OperationView {
    /// The request has not been answered yet.
    pub open spec fn is_pending(self) -> bool {
        self is AcceptPending || self is ReadPending || self is WritePending
    }

    /// The request has been answered.
    pub open spec fn is_ready(self) -> bool {
        self is AcceptReady || self is ReadReady || self is WriteReady
    }

    /// The connection that the operation owns, if it owns one.
    pub open spec fn connection(self) -> Option<ConnectionView> {
        match self {
            OperationView::ReadPending { data } => Some(data),
            OperationView::ReadReady { data, .. } => Some(data),
            OperationView::WritePending { data } => Some(data),
            OperationView::WriteReady { data, .. } => Some(data),
            _ => None,
        }
    }

    /// The buffers of the connection, where there is one, have their fixed
    /// shape.
    pub open spec fn wf(self) -> bool {
        self.connection() matches Some(data) ==> data.wf()
    }

    /// What a pending operation asks of the kernel: an accept without
    /// flags, a read that may fill the whole read buffer, or a write of the
    /// whole write buffer, each from offset 0.
    pub open spec fn request(self) -> Request
        recommends
            self.is_pending(),
    {
        match self {
            OperationView::AcceptPending { listen_fd } => Request::Accept { listen_fd, flags: 0 },
            OperationView::ReadPending { data } => Request::Read {
                fd: data.fd,
                len: data.read_buf.len() as usize,
                offset: 0,
            },
            OperationView::WritePending { data } => Request::Write {
                fd: data.fd,
                len: data.write_buf.len() as usize,
                offset: 0,
            },
            _ => arbitrary(),
        }
    }

    /// The ready phase that a pending operation enters when the kernel
    /// reports the non-negative `result`: the new descriptor of an accept,
    /// the byte count of a read or write. What the pending phase held is
    /// carried over.
    pub open spec fn completed(self, result: i32) -> OperationView
        recommends
            self.is_pending(),
            result >= 0,
    {
        match self {
            OperationView::AcceptPending { listen_fd } => OperationView::AcceptReady {
                listen_fd,
                accept_fd: result,
            },
            OperationView::ReadPending { data } => OperationView::ReadReady {
                data,
                bytes_read: result as usize,
            },
            OperationView::WritePending { data } => OperationView::WriteReady {
                data,
                bytes_wrote: result as usize,
            },
            other => other,
        }
    }
}

impl OperationView {
    /// The descriptor of the connection that the operation owns, if it owns
    /// one.
    pub open spec fn descriptor(self) -> Option<RawFd> {
        match self.connection() {
            Some(data) => Some(data.fd),
            None => None,
        }
    }

    /// The operations that follow a ready one, in the order in which they
    /// are queued.
    ///
    /// An accept is followed by a new accept on the same listener and by
    /// the first read on the connection that it produced. A read that
    /// delivered bytes is followed by the write of the reply on the same
    /// connection; a read that delivered none ends the connection. A write
    /// is followed by the next read on the same connection, however many
    /// bytes it sent.
    pub open spec fn successors(self) -> Seq<OperationView>
        recommends
            self.is_ready(),
    {
        match self {
            OperationView::AcceptReady { listen_fd, accept_fd } => seq![
                OperationView::AcceptPending { listen_fd },
                OperationView::ReadPending { data: ConnectionView::fresh(accept_fd) },
            ],
            OperationView::ReadReady { data, bytes_read } => if bytes_read > 0 {
                seq![OperationView::WritePending { data }]
            } else {
                Seq::empty()
            },
            OperationView::WriteReady { data, .. } => seq![OperationView::ReadPending { data }],
            _ => Seq::empty(),
        }
    }

    /// The descriptor that a ready operation gives up: that of its
    /// connection when a read found the peer gone, none otherwise.
    pub open spec fn released(self) -> Option<RawFd>
        recommends
            self.is_ready(),
    {
        match self {
            OperationView::ReadReady { data, bytes_read } => if bytes_read == 0 {
                Some(data.fd)
            } else {
                None
            },
            _ => None,
        }
    }
}

impl View for Operation {
    type V = OperationView;

    open spec fn view(&self) -> OperationView {
        match *self {
            Operation::Accept(OperationState::Pending(p)) => OperationView::AcceptPending {
                listen_fd: p.listen_fd,
            },
            Operation::Accept(OperationState::Ready(r)) => OperationView::AcceptReady {
                listen_fd: r.listen_fd,
                accept_fd: r.accept_fd,
            },
            Operation::ConnectionRead(OperationState::Pending(p)) => OperationView::ReadPending {
                data: p.data@,
            },
            Operation::ConnectionRead(OperationState::Ready(r)) => OperationView::ReadReady {
                data: r.data@,
                bytes_read: r.bytes_read,
            },
            Operation::ConnectionWrite(OperationState::Pending(p)) => OperationView::WritePending {
                data: p.data@,
            },
            Operation::ConnectionWrite(OperationState::Ready(r)) => OperationView::WriteReady {
                data: r.data@,
                bytes_wrote: r.bytes_wrote,
            },
            _ => OperationView::InTransit,
        }
    }
}

impl Operation {
    /// An accept on `fd`, ready to be submitted.
    pub fn new_accept(fd: RawFd) -> (op: Box<Self>)
        ensures
            op@ == (OperationView::AcceptPending { listen_fd: fd }),
    {
        let state = OperationState::Pending(AcceptPending { listen_fd: fd });
        Box::new(Operation::Accept(state))
    }

    /// A read on the connection `fd`, with buffers of its own, ready to be
    /// submitted.
    pub fn new_connection_read(fd: RawFd) -> (op: Box<Self>)
        ensures
            op@ == (OperationView::ReadPending { data: ConnectionView::fresh(fd) }),
            op@.wf(),
    {
        let state = OperationState::Pending(ConnectionReadPending { data: ConnectionData::new(fd) });
        Box::new(Operation::ConnectionRead(state))
    }

    /// Whether the operation still waits for its completion.
    pub fn is_pending(&self) -> (b: bool)
        ensures
            b == self@.is_pending(),
    {
        match self {
            Operation::Accept(state) => state.is_pending(),
            Operation::ConnectionRead(state) => state.is_pending(),
            Operation::ConnectionWrite(state) => state.is_pending(),
        }
    }

    /// Whether the operation carries its result.
    pub fn is_ready(&self) -> (b: bool)
        ensures
            b == self@.is_ready(),
    {
        match self {
            Operation::Accept(state) => state.is_ready(),
            Operation::ConnectionRead(state) => state.is_ready(),
            Operation::ConnectionWrite(state) => state.is_ready(),
        }
    }

    /// Absorbs the kernel's result code into a pending operation. A
    /// non-negative code moves the operation to its ready phase; a negative
    /// one leaves it as it was and comes back with it as an error.
    pub fn complete(op: Box<Operation>, result: i32) -> (completed: Result<
        Box<Operation>,
        (Box<Operation>, OperationError),
    >)
        requires
            op@.is_pending(),
        ensures
            match completed {
                Ok(ready) => result >= 0 && ready@ == op@.completed(result),
                Err((failed, error)) => result < 0 && failed == op && error == (
                OperationError::Kernel { errno: errno_of(result) }),
            },
    {
        let mut op = op;
        if result < 0 {
            let wide: i64 = result as i64;
            let errno: u32 = (0 - wide) as u32;
            return Err((op, OperationError::Kernel { errno }));
        }
        match &mut *op {
            Operation::Accept(state) => {
                let listen_fd = state.as_pending().listen_fd;
                *state = OperationState::Ready(AcceptReady { listen_fd, accept_fd: result });
            },
            Operation::ConnectionRead(state) => {
                let connection = state.take().into_pending();
                *state = OperationState::Ready(
                    ConnectionReadReady { data: connection.data, bytes_read: result as usize },
                );
            },
            Operation::ConnectionWrite(state) => {
                let connection = state.take().into_pending();
                *state = OperationState::Ready(
                    ConnectionWriteReady { data: connection.data, bytes_wrote: result as usize },
                );
            },
        }
        Ok(op)
    }

    /// Gives back the operation that `cqe` completes and absorbs the result
    /// into it.
    ///
    /// A tag that names nothing in flight is an error without an operation.
    /// A negative result is an error that comes with the operation, still
    /// pending, for the caller to dispose of. Either way the tag is no longer
    /// in flight afterwards.
    pub fn from_cqe(cqe: CompletionQueueEvent, in_flight: &mut InFlight) -> (reclaimed: Result<
        Box<Operation>,
        (Option<Box<Operation>>, OperationError),
    >)
        requires
            old(in_flight)@.wf(),
        ensures
            final(in_flight)@ == old(in_flight)@.reclaim(cqe.user_data),
            final(in_flight)@.wf(),
            match reclaimed {
                Ok(ready) => {
                    &&& old(in_flight)@.operations.contains_key(cqe.user_data)
                    &&& cqe.result >= 0
                    &&& ready@ == old(in_flight)@.operations[cqe.user_data].completed(cqe.result)
                },
                Err((Some(failed), error)) => {
                    &&& old(in_flight)@.operations.contains_key(cqe.user_data)
                    &&& cqe.result < 0
                    &&& failed@ == old(in_flight)@.operations[cqe.user_data]
                    &&& error == (OperationError::Kernel { errno: errno_of(cqe.result) })
                },
                Err((None, error)) => {
                    &&& !old(in_flight)@.operations.contains_key(cqe.user_data)
                    &&& error == OperationError::UnknownTag
                },
            },
    {
        match in_flight.reclaim(cqe.user_data) {
            Some(op) => match Operation::complete(op, cqe.result) {
                Ok(ready) => Ok(ready),
                Err((failed, error)) => Err((Some(failed), error)),
            },
            None => Err((None, OperationError::UnknownTag)),
        }
    }

    /// Moves a ready operation on to what follows it: queues its
    /// successors behind what already waits, and returns the descriptor of
    /// a connection that has ended, which is then the caller's to close.
    pub fn advance(op: Box<Operation>, queue: &mut PendingQueue) -> (released: Option<RawFd>)
        requires
            op@.is_ready(),
        ensures
            final(queue)@ == old(queue)@ + op@.successors(),
            released == op@.released(),
    {
        let mut op = op;
        match &mut *op {
            Operation::Accept(state) => {
                let accept_ready = state.as_ready();
                let accept_fd = accept_ready.accept_fd;
                *op = Operation::Accept(
                    OperationState::Pending(AcceptPending { listen_fd: accept_ready.listen_fd }),
                );
                let connection_read_op = Operation::new_connection_read(accept_fd);
                queue.push_back(op);
                queue.push_back(connection_read_op);
                None
            },
            Operation::ConnectionRead(state) => {
                let read_ready = state.take().into_ready();
                if read_ready.bytes_read > 0 {
                    *op = Operation::ConnectionWrite(
                        OperationState::Pending(ConnectionWritePending { data: read_ready.data }),
                    );
                    queue.push_back(op);
                    None
                } else {
                    Some(read_ready.data.into_raw_fd())
                }
            },
            Operation::ConnectionWrite(state) => {
                let write_ready = state.take().into_ready();
                *op = Operation::ConnectionRead(
                    OperationState::Pending(ConnectionReadPending { data: write_ready.data }),
                );
                queue.push_back(op);
                None
            },
        }
    }

    /// Disposes of an operation and returns the descriptor of the
    /// connection that it owned, if it owned one, for the caller to close.
    pub fn abandon(op: Box<Operation>) -> (released: Option<RawFd>)
        ensures
            released == op@.descriptor(),
    {
        match *op {
            Operation::ConnectionRead(OperationState::Pending(p)) => Some(p.data.into_raw_fd()),
            Operation::ConnectionRead(OperationState::Ready(r)) => Some(r.data.into_raw_fd()),
            Operation::ConnectionWrite(OperationState::Pending(p)) => Some(p.data.into_raw_fd()),
            Operation::ConnectionWrite(OperationState::Ready(r)) => Some(r.data.into_raw_fd()),
            _ => None,
        }
    }

    /// The parameters to hand to the kernel for a pending operation.
    pub fn request(&self) -> (request: Request)
        requires
            self@.is_pending(),
        ensures
            request == self@.request(),
    {
        match self {
            Operation::Accept(state) => {
                let pending_accept = state.as_pending();
                Request::Accept { listen_fd: pending_accept.listen_fd, flags: 0 }
            },
            Operation::ConnectionRead(state) => {
                let pending_read = state.as_pending();
                Request::Read {
                    fd: pending_read.data.fd(),
                    len: pending_read.data.read_buf().len(),
                    offset: 0,
                }
            },
            Operation::ConnectionWrite(state) => {
                let pending_write = state.as_pending();
                Request::Write {
                    fd: pending_write.data.fd(),
                    len: pending_write.data.write_buf().len(),
                    offset: 0,
                }
            },
        }
    }
}

} // verus!
