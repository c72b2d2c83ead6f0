use uring_ops::connection::ConnectionData;
use uring_ops::operation::ConnectionWritePending;
use uring_ops::operation::Operation;
use uring_ops::operation::Request;
use uring_ops::queue::PendingQueue;
use uring_ops::state::OperationState;
use uring_ops::submission::InFlight;
use uring_ops::submission::PrepareOperation;
use uring_ops::submission::SubmissionQueueEvent;
use uring_ops::submission::NULL_TAG;
use uring_ops::submission::RESERVED_TAG;

fn pending_write(fd: i32) -> Box<Operation> {
    Box::new(Operation::ConnectionWrite(OperationState::Pending(ConnectionWritePending {
        data: ConnectionData::new(fd),
    })))
}

#[test]
fn tag_constants() {
    assert_eq!(NULL_TAG, 0);
    assert_eq!(RESERVED_TAG, 18446744073709551615);
}

#[test]
fn new_table_is_empty() {
    let table = InFlight::new();
    assert_eq!(table.len(), 0);
    assert!(table.has_room());
    assert!(!table.contains(0));
    assert!(!table.contains(1));
}

#[test]
fn tags_count_up_from_one() {
    let mut table = InFlight::new();
    let first = table.prepare_operation(Operation::new_accept(3)).unwrap();
    let second = table.prepare_operation(Operation::new_connection_read(4)).unwrap();
    let third = table.prepare_operation(pending_write(5)).unwrap();
    assert_eq!(
        first,
        SubmissionQueueEvent { request: Request::Accept { listen_fd: 3, flags: 0 }, user_data: 1 }
    );
    assert_eq!(
        second,
        SubmissionQueueEvent { request: Request::Read { fd: 4, len: 4096, offset: 0 }, user_data: 2 }
    );
    assert_eq!(
        third,
        SubmissionQueueEvent { request: Request::Write { fd: 5, len: 88, offset: 0 }, user_data: 3 }
    );
    assert_eq!(table.len(), 3);
    assert!(table.contains(1) && table.contains(2) && table.contains(3));
    assert!(!table.contains(4));
}

#[test]
fn tags_are_not_used_again() {
    let mut table = InFlight::new();
    let first = table.prepare_operation(Operation::new_accept(3)).unwrap();
    assert!(table.reclaim(first.user_data).is_some());
    let second = table.prepare_operation(Operation::new_accept(3)).unwrap();
    assert_eq!(first.user_data, 1);
    assert_eq!(second.user_data, 2);
    assert!(!table.contains(1));
}

#[test]
fn reclaim_takes_the_operation_out() {
    let mut table = InFlight::new();
    table.prepare_operation(Operation::new_accept(3)).unwrap();
    let sqe = table.prepare_operation(Operation::new_connection_read(4)).unwrap();
    let op = table.reclaim(sqe.user_data).unwrap();
    assert_eq!(op.request(), Request::Read { fd: 4, len: 4096, offset: 0 });
    assert_eq!(table.len(), 1);
    assert!(table.contains(1));
    assert!(!table.contains(2));
    assert!(table.reclaim(sqe.user_data).is_none());
    assert_eq!(table.len(), 1);
}

#[test]
fn reclaim_of_unknown_tag_changes_nothing() {
    let mut table = InFlight::new();
    table.prepare_operation(Operation::new_accept(3)).unwrap();
    assert!(table.reclaim(0).is_none());
    assert!(table.reclaim(7).is_none());
    assert_eq!(table.len(), 1);
}

#[test]
fn last_tag_is_handed_out_and_then_none() {
    let mut table = InFlight::with_first_tag(u64::MAX - 1);
    assert!(table.has_room());
    let sqe = table.prepare_operation(Operation::new_accept(3)).unwrap();
    assert_eq!(sqe.user_data, 18446744073709551614);
    assert!(!table.has_room());
    let back = table.prepare_operation(Operation::new_connection_read(9)).unwrap_err();
    assert_eq!(back.request(), Request::Read { fd: 9, len: 4096, offset: 0 });
    assert_eq!(table.len(), 1);
    assert!(!table.contains(u64::MAX));
}

#[test]
fn table_without_tags_takes_nothing() {
    let mut table = InFlight::with_first_tag(u64::MAX);
    assert!(!table.has_room());
    assert!(table.prepare_operation(Operation::new_accept(3)).is_err());
    assert_eq!(table.len(), 0);
}

#[test]
fn write_buffer_is_the_reply_of_a_write_in_flight() {
    let mut table = InFlight::new();
    let accept = table.prepare_operation(Operation::new_accept(3)).unwrap();
    let read = table.prepare_operation(Operation::new_connection_read(4)).unwrap();
    let write = table.prepare_operation(pending_write(5)).unwrap();
    assert!(table.write_buffer(accept.user_data).is_none());
    assert!(table.write_buffer(read.user_data).is_none());
    assert!(table.write_buffer(99).is_none());
    let bytes = table.write_buffer(write.user_data).unwrap();
    assert_eq!(bytes.len(), 88);
    assert!(bytes.ends_with(b"\n\nhello\n"));
}

#[test]
fn read_buffer_belongs_to_a_read_in_flight() {
    let mut table = InFlight::new();
    let accept = table.prepare_operation(Operation::new_accept(3)).unwrap();
    let read = table.prepare_operation(Operation::new_connection_read(4)).unwrap();
    let write = table.prepare_operation(pending_write(5)).unwrap();
    assert!(!table.is_read(accept.user_data));
    assert!(table.is_read(read.user_data));
    assert!(!table.is_read(write.user_data));
    assert!(!table.is_read(0));
    assert!(table.read_buffer_mut(accept.user_data).is_none());
    assert!(table.read_buffer_mut(write.user_data).is_none());
    assert!(table.read_buffer_mut(99).is_none());
    {
        let buf = table.read_buffer_mut(read.user_data).unwrap();
        assert_eq!(buf.len(), 4096);
        buf[..4].copy_from_slice(b"ping");
    }
    assert_eq!(table.len(), 3);
    let op = table.reclaim(read.user_data).unwrap();
    match *op {
        Operation::ConnectionRead(OperationState::Pending(ref p)) => {
            assert_eq!(&p.data.read_buf()[..4], b"ping");
            assert_eq!(p.data.read_buf()[4], 0);
        }
        _ => panic!("not a pending read"),
    }
}

#[test]
fn queue_is_first_in_first_out() {
    let mut queue = PendingQueue::new();
    assert!(queue.is_empty());
    assert!(queue.pop_front().is_none());
    queue.push_back(Operation::new_accept(1));
    queue.push_back(Operation::new_accept(2));
    queue.push_back(Operation::new_accept(3));
    assert_eq!(queue.len(), 3);
    assert!(!queue.is_empty());
    assert_eq!(queue.pop_front().unwrap().request(), Request::Accept { listen_fd: 1, flags: 0 });
    assert_eq!(queue.pop_front().unwrap().request(), Request::Accept { listen_fd: 2, flags: 0 });
    assert_eq!(queue.pop_front().unwrap().request(), Request::Accept { listen_fd: 3, flags: 0 });
    assert!(queue.pop_front().is_none());
}

#[test]
fn queue_takes_an_operation_back_at_the_front() {
    let mut queue = PendingQueue::new();
    queue.push_back(Operation::new_accept(1));
    queue.push_back(Operation::new_accept(2));
    let front = queue.pop_front().unwrap();
    queue.push_front(front);
    assert_eq!(queue.len(), 2);
    assert_eq!(queue.pop_front().unwrap().request(), Request::Accept { listen_fd: 1, flags: 0 });
    assert_eq!(queue.pop_front().unwrap().request(), Request::Accept { listen_fd: 2, flags: 0 });
}
