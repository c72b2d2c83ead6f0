use uring_ops::connection::ConnectionData;
use uring_ops::operation::AcceptPending;
use uring_ops::operation::ConnectionReadPending;
use uring_ops::operation::ConnectionReadReady;
use uring_ops::operation::ConnectionWritePending;
use uring_ops::operation::ConnectionWriteReady;
use uring_ops::operation::Operation;
use uring_ops::operation::OperationError;
use uring_ops::operation::Request;
use uring_ops::queue::PendingQueue;
use uring_ops::state::OperationState;
use uring_ops::submission::CompletionQueueEvent;
use uring_ops::submission::InFlight;
use uring_ops::submission::PrepareOperation;

fn pending_write(fd: i32) -> Box<Operation> {
    Box::new(Operation::ConnectionWrite(OperationState::Pending(ConnectionWritePending {
        data: ConnectionData::new(fd),
    })))
}

fn ready_read(fd: i32, bytes_read: usize) -> Box<Operation> {
    Box::new(Operation::ConnectionRead(OperationState::Ready(ConnectionReadReady {
        bytes_read,
        data: ConnectionData::new(fd),
    })))
}

fn ready_write(fd: i32, bytes_wrote: usize) -> Box<Operation> {
    Box::new(Operation::ConnectionWrite(OperationState::Ready(ConnectionWriteReady {
        data: ConnectionData::new(fd),
        bytes_wrote,
    })))
}

#[test]
fn new_accept_is_pending_on_the_listener() {
    let op = Operation::new_accept(3);
    assert!(op.is_pending());
    assert!(!op.is_ready());
    match *op {
        Operation::Accept(OperationState::Pending(AcceptPending { listen_fd })) => {
            assert_eq!(listen_fd, 3)
        }
        _ => panic!("not a pending accept"),
    }
}

#[test]
fn new_connection_read_owns_fresh_buffers() {
    let op = Operation::new_connection_read(8);
    assert!(op.is_pending());
    match *op {
        Operation::ConnectionRead(OperationState::Pending(ConnectionReadPending { data })) => {
            assert_eq!(data.fd(), 8);
            assert!(data.read_buf().iter().all(|byte| *byte == 0));
            assert_eq!(data.write_buf().len(), 88);
        }
        _ => panic!("not a pending read"),
    }
}

#[test]
fn request_of_accept_has_no_flags() {
    let op = Operation::new_accept(3);
    assert_eq!(op.request(), Request::Accept { listen_fd: 3, flags: 0 });
}

#[test]
fn request_of_read_covers_the_read_buffer() {
    let op = Operation::new_connection_read(8);
    assert_eq!(op.request(), Request::Read { fd: 8, len: 4096, offset: 0 });
}

#[test]
fn request_of_write_covers_the_reply() {
    let op = pending_write(8);
    assert_eq!(op.request(), Request::Write { fd: 8, len: 88, offset: 0 });
}

#[test]
fn complete_accept_records_the_new_descriptor() {
    let ready = Operation::complete(Operation::new_accept(3), 12).unwrap();
    assert!(ready.is_ready());
    match *ready {
        Operation::Accept(OperationState::Ready(ref r)) => {
            assert_eq!(r.listen_fd, 3);
            assert_eq!(r.accept_fd, 12);
        }
        _ => panic!("not a ready accept"),
    }
}

#[test]
fn complete_read_records_the_byte_count() {
    let ready = Operation::complete(Operation::new_connection_read(8), 17).unwrap();
    match *ready {
        Operation::ConnectionRead(OperationState::Ready(ref r)) => {
            assert_eq!(r.bytes_read, 17);
            assert_eq!(r.data.fd(), 8);
        }
        _ => panic!("not a ready read"),
    }
}

#[test]
fn complete_read_with_zero_bytes_is_ready() {
    let ready = Operation::complete(Operation::new_connection_read(8), 0).unwrap();
    match *ready {
        Operation::ConnectionRead(OperationState::Ready(ref r)) => assert_eq!(r.bytes_read, 0),
        _ => panic!("not a ready read"),
    }
}

#[test]
fn complete_write_records_the_byte_count() {
    let ready = Operation::complete(pending_write(8), 88).unwrap();
    match *ready {
        Operation::ConnectionWrite(OperationState::Ready(ref r)) => {
            assert_eq!(r.bytes_wrote, 88);
            assert_eq!(r.data.fd(), 8);
        }
        _ => panic!("not a ready write"),
    }
}

#[test]
fn complete_keeps_the_buffers() {
    let mut op = Operation::new_connection_read(8);
    if let Operation::ConnectionRead(state) = &mut *op {
        state.as_pending_mut().data.read_buf_mut()[..5].copy_from_slice(b"hello");
    }
    let ready = Operation::complete(op, 5).unwrap();
    match *ready {
        Operation::ConnectionRead(OperationState::Ready(ref r)) => {
            assert_eq!(&r.data.read_buf()[..5], b"hello");
            assert_eq!(r.data.write_buf().len(), 88);
        }
        _ => panic!("not a ready read"),
    }
}

#[test]
fn complete_with_negative_result_hands_the_operation_back() {
    let (failed, error) = Operation::complete(Operation::new_connection_read(8), -104).unwrap_err();
    assert_eq!(error, OperationError::Kernel { errno: 104 });
    assert!(failed.is_pending());
    assert_eq!(failed.request(), Request::Read { fd: 8, len: 4096, offset: 0 });
}

#[test]
fn errno_is_the_magnitude_of_the_result() {
    let (_, error) = Operation::complete(Operation::new_accept(3), -1).unwrap_err();
    assert_eq!(error, OperationError::Kernel { errno: 1 });
    let (_, error) = Operation::complete(Operation::new_accept(3), -24).unwrap_err();
    assert_eq!(error, OperationError::Kernel { errno: 24 });
    let (_, error) = Operation::complete(Operation::new_accept(3), i32::MIN).unwrap_err();
    assert_eq!(error, OperationError::Kernel { errno: 2147483648 });
}

#[test]
fn complete_with_largest_result() {
    let ready = Operation::complete(Operation::new_connection_read(8), i32::MAX).unwrap();
    match *ready {
        Operation::ConnectionRead(OperationState::Ready(ref r)) => {
            assert_eq!(r.bytes_read, 2147483647)
        }
        _ => panic!("not a ready read"),
    }
}

#[test]
fn from_cqe_gives_back_the_submitted_operation() {
    let mut in_flight = InFlight::new();
    let sqe = in_flight.prepare_operation(Operation::new_accept(3)).unwrap();
    assert_eq!(sqe.user_data, 1);
    let cqe = CompletionQueueEvent { user_data: sqe.user_data, result: 9 };
    let ready = Operation::from_cqe(cqe, &mut in_flight).unwrap();
    match *ready {
        Operation::Accept(OperationState::Ready(ref r)) => {
            assert_eq!(r.listen_fd, 3);
            assert_eq!(r.accept_fd, 9);
        }
        _ => panic!("not a ready accept"),
    }
    assert_eq!(in_flight.len(), 0);
    assert!(!in_flight.contains(1));
}

#[test]
fn from_cqe_rejects_the_null_tag() {
    let mut in_flight = InFlight::new();
    in_flight.prepare_operation(Operation::new_accept(3)).unwrap();
    let cqe = CompletionQueueEvent { user_data: 0, result: 9 };
    match Operation::from_cqe(cqe, &mut in_flight) {
        Err((None, OperationError::UnknownTag)) => {}
        _ => panic!("null tag was accepted"),
    }
    assert_eq!(in_flight.len(), 1);
    assert!(in_flight.contains(1));
}

#[test]
fn from_cqe_rejects_a_tag_that_is_not_in_flight() {
    let mut in_flight = InFlight::new();
    in_flight.prepare_operation(Operation::new_accept(3)).unwrap();
    let cqe = CompletionQueueEvent { user_data: 2, result: 9 };
    match Operation::from_cqe(cqe, &mut in_flight) {
        Err((None, OperationError::UnknownTag)) => {}
        _ => panic!("unknown tag was accepted"),
    }
    let cqe = CompletionQueueEvent { user_data: u64::MAX, result: -1 };
    match Operation::from_cqe(cqe, &mut in_flight) {
        Err((None, OperationError::UnknownTag)) => {}
        _ => panic!("reserved tag was accepted"),
    }
    assert_eq!(in_flight.len(), 1);
}

#[test]
fn from_cqe_gives_back_each_submission_once() {
    let mut in_flight = InFlight::new();
    let sqe = in_flight.prepare_operation(Operation::new_connection_read(5)).unwrap();
    let cqe = CompletionQueueEvent { user_data: sqe.user_data, result: 3 };
    assert!(Operation::from_cqe(cqe, &mut in_flight).is_ok());
    match Operation::from_cqe(cqe, &mut in_flight) {
        Err((None, OperationError::UnknownTag)) => {}
        _ => panic!("operation was given back twice"),
    }
}

#[test]
fn from_cqe_with_kernel_error_returns_the_pending_operation() {
    let mut in_flight = InFlight::new();
    let sqe = in_flight.prepare_operation(Operation::new_connection_read(5)).unwrap();
    let cqe = CompletionQueueEvent { user_data: sqe.user_data, result: -32 };
    match Operation::from_cqe(cqe, &mut in_flight) {
        Err((Some(op), OperationError::Kernel { errno })) => {
            assert_eq!(errno, 32);
            assert!(op.is_pending());
            assert_eq!(op.request(), Request::Read { fd: 5, len: 4096, offset: 0 });
        }
        _ => panic!("kernel error was not reported with its operation"),
    }
    assert_eq!(in_flight.len(), 0);
}

#[test]
fn advance_accept_queues_accept_then_read() {
    let mut queue = PendingQueue::new();
    let ready = Operation::complete(Operation::new_accept(3), 12).unwrap();
    assert_eq!(Operation::advance(ready, &mut queue), None);
    assert_eq!(queue.len(), 2);
    let first = queue.pop_front().unwrap();
    assert_eq!(first.request(), Request::Accept { listen_fd: 3, flags: 0 });
    let second = queue.pop_front().unwrap();
    assert_eq!(second.request(), Request::Read { fd: 12, len: 4096, offset: 0 });
    assert!(queue.pop_front().is_none());
}

#[test]
fn advance_read_with_bytes_queues_the_write() {
    let mut queue = PendingQueue::new();
    queue.push_back(Operation::new_accept(3));
    assert_eq!(Operation::advance(ready_read(12, 40), &mut queue), None);
    assert_eq!(queue.len(), 2);
    assert_eq!(queue.pop_front().unwrap().request(), Request::Accept { listen_fd: 3, flags: 0 });
    assert_eq!(queue.pop_front().unwrap().request(), Request::Write { fd: 12, len: 88, offset: 0 });
}

#[test]
fn advance_read_with_one_byte_queues_the_write() {
    let mut queue = PendingQueue::new();
    assert_eq!(Operation::advance(ready_read(12, 1), &mut queue), None);
    assert_eq!(queue.len(), 1);
}

#[test]
fn advance_read_without_bytes_releases_the_descriptor() {
    let mut queue = PendingQueue::new();
    assert_eq!(Operation::advance(ready_read(12, 0), &mut queue), Some(12));
    assert_eq!(queue.len(), 0);
}

#[test]
fn advance_write_queues_the_next_read() {
    let mut queue = PendingQueue::new();
    assert_eq!(Operation::advance(ready_write(12, 88), &mut queue), None);
    assert_eq!(queue.len(), 1);
    assert_eq!(queue.pop_front().unwrap().request(), Request::Read { fd: 12, len: 4096, offset: 0 });
}

#[test]
fn advance_short_write_queues_the_next_read() {
    let mut queue = PendingQueue::new();
    assert_eq!(Operation::advance(ready_write(12, 3), &mut queue), None);
    assert_eq!(queue.pop_front().unwrap().request(), Request::Read { fd: 12, len: 4096, offset: 0 });
    assert_eq!(Operation::advance(ready_write(12, 0), &mut queue), None);
    assert_eq!(queue.pop_front().unwrap().request(), Request::Read { fd: 12, len: 4096, offset: 0 });
}

#[test]
fn advance_carries_the_buffers_along() {
    let mut data = ConnectionData::new(12);
    data.read_buf_mut()[0] = 0x7f;
    let ready = Box::new(Operation::ConnectionRead(OperationState::Ready(ConnectionReadReady {
        bytes_read: 1,
        data,
    })));
    let mut queue = PendingQueue::new();
    Operation::advance(ready, &mut queue);
    let write = queue.pop_front().unwrap();
    match *write {
        Operation::ConnectionWrite(OperationState::Pending(ref p)) => {
            assert_eq!(p.data.read_buf()[0], 0x7f);
            assert_eq!(p.data.fd(), 12);
        }
        _ => panic!("not a pending write"),
    }
}

#[test]
fn abandon_returns_the_descriptor_of_a_connection() {
    assert_eq!(Operation::abandon(Operation::new_connection_read(6)), Some(6));
    assert_eq!(Operation::abandon(pending_write(7)), Some(7));
    assert_eq!(Operation::abandon(ready_read(8, 2)), Some(8));
    assert_eq!(Operation::abandon(ready_write(9, 2)), Some(9));
}

#[test]
fn abandon_of_an_accept_releases_nothing() {
    assert_eq!(Operation::abandon(Operation::new_accept(3)), None);
    let ready = Operation::complete(Operation::new_accept(3), 12).unwrap();
    assert_eq!(Operation::abandon(ready), None);
}
