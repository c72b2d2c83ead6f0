//! The bookkeeping behind the server's loop: which operations wait for a
//! slot, which are with the kernel, and what follows each completion.

use vstd::prelude::*;

use crate::connection::RawFd;
use crate::connection::READ_BUFFER_SIZE;
use crate::operation::errno_of;
use crate::operation::Operation;
use crate::operation::OperationError;
use crate::operation::OperationView;
use crate::queue::PendingQueue;
use crate::submission::CompletionQueueEvent;
use crate::submission::InFlight;
use crate::submission::InFlightView;
use crate::submission::NULL_TAG;
use crate::submission::RESERVED_TAG;
use crate::submission::PrepareOperation;
use crate::submission::SubmissionQueueEvent;

verus! {

/// What the caller has to do after a completion has been handled.
#[derive(Clone, Copy, Debug, PartialEq, Eq)]
pub struct Outcome {
    /// A descriptor that no operation owns any more and that must be
    /// closed.
    pub close: Option<RawFd>,
    /// Why the completion did not lead to a next phase.
    pub error: Option<OperationError>,
}

/// Every operation of the loop as a mathematical value: those that wait,
/// in order, and those in flight, by tag.
#[verifier::ext_equal]
pub struct EventLoopView {
    pub pending: Seq<OperationView>,
    pub in_flight: InFlightView,
}

impl EventLoopView {
    /// Whatever waits or is in flight is pending and well formed, and the
    /// tags in use are in order.
    pub open spec fn wf(self) -> bool {
        &&& self.in_flight.wf()
        &&& forall|i: int|
            0 <= i < self.pending.len() ==> (#[trigger] self.pending[i]).is_pending()
                && self.pending[i].wf()
    }

    /// The state in which a server starts: one accept on `listen_fd` waits,
    /// nothing is in flight.
    pub open spec fn start(listen_fd: RawFd) -> EventLoopView {
        EventLoopView::start_at(listen_fd, 1)
    }

    /// The state in which a server starts whose first submission gets the
    /// tag `first_tag`.
    pub open spec fn start_at(listen_fd: RawFd, first_tag: u64) -> EventLoopView {
        EventLoopView {
            pending: seq![OperationView::AcceptPending { listen_fd }],
            in_flight: InFlightView::empty(first_tag),
        }
    }

    /// An operation waits and a tag is left for it.
    pub open spec fn can_submit(self) -> bool {
        self.pending.len() > 0 && self.in_flight.has_room()
    }

    /// The entry for the submission ring that the next submission yields,
    /// if there is one to make: the request of the operation that has
    /// waited longest, under the next tag.
    pub open spec fn submission(self) -> Option<SubmissionQueueEvent> {
        if self.can_submit() {
            Some(
                SubmissionQueueEvent {
                    request: self.pending[0].request(),
                    user_data: self.in_flight.next_tag,
                },
            )
        } else {
            None
        }
    }

    /// The state after the next submission: the operation that has waited
    /// longest is in flight under the next tag. Where none can be made the
    /// state stays as it is.
    pub open spec fn submit(self) -> EventLoopView {
        if self.can_submit() {
            EventLoopView {
                pending: self.pending.drop_first(),
                in_flight: self.in_flight.submit(self.pending[0]),
            }
        } else {
            self
        }
    }

    /// How many submissions a round makes that finds `slots` free slots on
    /// the ring: one for each slot, for as long as operations wait and tags
    /// are left.
    pub open spec fn batch_len(self, slots: nat) -> nat {
        let waiting = self.pending.len();
        let tags = (RESERVED_TAG - self.in_flight.next_tag) as nat;
        if slots <= waiting && slots <= tags {
            slots
        } else if waiting <= tags {
            waiting
        } else {
            tags
        }
    }

    /// The entries for the submission ring that such a round yields: the
    /// requests of the operations that have waited longest, in their order,
    /// under consecutive tags.
    pub open spec fn batch(self, slots: nat) -> Seq<SubmissionQueueEvent> {
        Seq::new(
            self.batch_len(slots),
            |i: int|
                SubmissionQueueEvent {
                    request: self.pending[i].request(),
                    user_data: (self.in_flight.next_tag + i) as u64,
                },
        )
    }

    /// The state after such a round: the operations submitted have left the
    /// front of the queue and are in flight under their tags; the rest of
    /// the queue keeps its order.
    pub open spec fn submit_batch(self, slots: nat) -> EventLoopView {
        let n = self.batch_len(slots);
        let first = self.in_flight.next_tag;
        EventLoopView {
            pending: self.pending.skip(n as int),
            in_flight: InFlightView {
                operations: Map::new(
                    |tag: u64|
                        self.in_flight.operations.contains_key(tag) || first <= tag < first + n,
                    |tag: u64|
                        if first <= tag < first + n {
                            self.pending[tag - first]
                        } else {
                            self.in_flight.operations[tag]
                        },
                ),
                next_tag: (first + n) as u64,
            },
        }
    }

    /// The state after the completions `cqes` have been handled, first to
    /// last.
    pub open spec fn complete_all(self, cqes: Seq<CompletionQueueEvent>) -> EventLoopView
        decreases cqes.len(),
    {
        if cqes.len() == 0 {
            self
        } else {
            self.complete_all(cqes.drop_last()).complete(cqes.last())
        }
    }

    /// What handling the completions `cqes`, first to last, asks of the
    /// caller: one outcome for each, in their order.
    pub open spec fn outcomes(self, cqes: Seq<CompletionQueueEvent>) -> Seq<Outcome>
        decreases cqes.len(),
    {
        if cqes.len() == 0 {
            Seq::empty()
        } else {
            self.outcomes(cqes.drop_last()).push(
                self.complete_all(cqes.drop_last()).outcome(cqes.last()),
            )
        }
    }

    /// A round of `n + 1` submissions is a round of `n` followed by one
    /// more.
    pub proof fn lemma_batch_step(self, n: nat)
        requires
            self.wf(),
            n < self.pending.len(),
            self.in_flight.next_tag + n < RESERVED_TAG,
        ensures
            self.submit_batch(n).can_submit(),
            self.submit_batch(n).submit() == self.submit_batch(n + 1),
            self.submit_batch(n).submission() == Some(self.batch(n + 1)[n as int]),
            self.batch(n + 1) == self.batch(n).push(self.batch(n + 1)[n as int]),
    {
        let before = self.submit_batch(n);
        let after = self.submit_batch(n + 1);
        assert(before.pending[0] == self.pending[n as int]);
        assert(before.submit().pending =~= after.pending);
        assert(before.submit().in_flight.operations =~= after.in_flight.operations);
        assert(self.batch(n + 1) =~= self.batch(n).push(self.batch(n + 1)[n as int]));
    }

    /// A round without free slots, or without anything to submit, changes
    /// nothing.
    pub proof fn lemma_batch_none(self)
        ensures
            self.submit_batch(0) == self,
            self.batch(0) == Seq::<SubmissionQueueEvent>::empty(),
            !self.can_submit() ==> forall|slots: nat| #[trigger] self.batch_len(slots) == 0,
    {
        assert(self.submit_batch(0).pending =~= self.pending);
        assert(self.submit_batch(0).in_flight.operations =~= self.in_flight.operations);
        assert(self.batch(0) =~= Seq::<SubmissionQueueEvent>::empty());
    }

    /// The state after `bytes` have been left in the buffer of the read in
    /// flight under `tag`. Where no read is in flight there, or `bytes` do
    /// not fill the buffer exactly, the state stays as it is.
    pub open spec fn fill(self, tag: u64, bytes: Seq<u8>) -> EventLoopView {
        if self.in_flight.read_buffer(tag) is Some && bytes.len() == READ_BUFFER_SIZE {
            EventLoopView { in_flight: self.in_flight.with_read_buffer(tag, bytes), ..self }
        } else {
            self
        }
    }

    /// The state after the completion `cqe` has been handled.
    ///
    /// A tag that names nothing in flight changes nothing. Otherwise the
    /// operation under that tag leaves the table; on a non-negative result
    /// its successors join the back of the queue, on a negative one it is
    /// gone without successors.
    pub open spec fn complete(self, cqe: CompletionQueueEvent) -> EventLoopView {
        if !self.in_flight.operations.contains_key(cqe.user_data) {
            self
        } else if cqe.result < 0 {
            EventLoopView { in_flight: self.in_flight.reclaim(cqe.user_data), ..self }
        } else {
            EventLoopView {
                pending: self.pending + self.in_flight.operations[cqe.user_data].completed(
                    cqe.result,
                ).successors(),
                in_flight: self.in_flight.reclaim(cqe.user_data),
            }
        }
    }

    /// What handling the completion `cqe` asks of the caller.
    ///
    /// An unknown tag is reported and nothing is to be closed. A negative
    /// result is reported with its error number, and the connection of the
    /// failed operation, if it had one, is to be closed. Otherwise there is
    /// no error, and a connection is to be closed where a read found the
    /// peer gone.
    pub open spec fn outcome(self, cqe: CompletionQueueEvent) -> Outcome {
        if !self.in_flight.operations.contains_key(cqe.user_data) {
            Outcome { close: None, error: Some(OperationError::UnknownTag) }
        } else if cqe.result < 0 {
            Outcome {
                close: self.in_flight.operations[cqe.user_data].descriptor(),
                error: Some(OperationError::Kernel { errno: errno_of(cqe.result) }),
            }
        } else {
            Outcome {
                close: self.in_flight.operations[cqe.user_data].completed(cqe.result).released(),
                error: None,
            }
        }
    }
}

/// The operations of one server: a queue of those that wait for a slot on
/// the submission ring and a table of those that the kernel holds.
pub struct EventLoop {
    pending: PendingQueue,
    in_flight: InFlight,
}

impl View for EventLoop {
    type V = EventLoopView;

    closed spec fn view(&self) -> EventLoopView {
        EventLoopView { pending: self.pending@, in_flight: self.in_flight@ }
    }
}

impl EventLoop {
    /// The loop of a server that listens on `listen_fd`, with the first
    /// accept waiting to be submitted.
    pub fn new(listen_fd: RawFd) -> (event_loop: Self)
        ensures
            event_loop@ == EventLoopView::start(listen_fd),
            event_loop@.wf(),
    {
        EventLoop::with_first_tag(listen_fd, 1)
    }

    /// The loop of a server that listens on `listen_fd` and numbers its
    /// submissions from `first_tag` on.
    pub fn with_first_tag(listen_fd: RawFd, first_tag: u64) -> (event_loop: Self)
        requires
            first_tag != NULL_TAG,
        ensures
            event_loop@ == EventLoopView::start_at(listen_fd, first_tag),
            event_loop@.wf(),
    {
        let mut pending = PendingQueue::new();
        pending.push_back(Operation::new_accept(listen_fd));
        let event_loop = EventLoop { pending, in_flight: InFlight::with_first_tag(first_tag) };
        assert(event_loop@.pending =~= seq![OperationView::AcceptPending { listen_fd }]);
        event_loop
    }

    /// Whether an operation is in flight under `tag`.
    pub fn is_in_flight(&self, tag: u64) -> (b: bool)
        ensures
            b == self@.in_flight.operations.contains_key(tag),
    {
        self.in_flight.contains(tag)
    }

    /// How many operations wait for a slot.
    pub fn pending_len(&self) -> (n: usize)
        ensures
            n == self@.pending.len(),
    {
        self.pending.len()
    }

    /// How many operations the kernel holds.
    pub fn in_flight_len(&self) -> (n: usize)
        ensures
            n == self@.in_flight.operations.len(),
    {
        self.in_flight.len()
    }

    /// Whether [`submit_next`](Self::submit_next) would make a submission.
    pub fn can_submit(&self) -> (b: bool)
        ensures
            b == self@.can_submit(),
    {
        !self.pending.is_empty() && self.in_flight.has_room()
    }

    /// Moves the operation that has waited longest into flight and returns
    /// the entry to put on the submission ring. Returns `None`, and leaves
    /// the queue as it was, when nothing waits or no tag is left.
    pub fn submit_next(&mut self) -> (submission: Option<SubmissionQueueEvent>)
        requires
            old(self)@.wf(),
        ensures
            submission == old(self)@.submission(),
            final(self)@ == old(self)@.submit(),
            final(self)@.wf(),
    {
        match self.pending.pop_front() {
            Some(op) => match self.in_flight.prepare_operation(op) {
                Ok(sqe) => Some(sqe),
                Err(op) => {
                    self.pending.push_front(op);
                    assert(self@.pending =~= old(self)@.pending);
                    None
                },
            },
            None => None,
        }
    }

    /// Submits the operations that have waited longest, one for each of the
    /// `slots` free slots on the ring, and returns their entries in order.
    /// Stops early when nothing waits any more or no tag is left; what was
    /// not submitted keeps its place in the queue.
    pub fn submit_pending(&mut self, slots: usize) -> (submitted: Vec<SubmissionQueueEvent>)
        requires
            old(self)@.wf(),
        ensures
            submitted@ == old(self)@.batch(slots as nat),
            final(self)@ == old(self)@.submit_batch(slots as nat),
            final(self)@.wf(),
    {
        let ghost start = self@;
        let mut submitted: Vec<SubmissionQueueEvent> = Vec::new();
        proof {
            start.lemma_batch_none();
        }
        while submitted.len() < slots
            invariant_except_break
                submitted.len() <= slots,
                submitted.len() <= start.pending.len(),
                start.in_flight.next_tag + submitted.len() <= RESERVED_TAG,
                submitted@ == start.batch(submitted.len() as nat),
                self@ == start.submit_batch(submitted.len() as nat),
            invariant
                start.wf(),
                self@.wf(),
            ensures
                submitted@ == start.batch(slots as nat),
                self@ == start.submit_batch(slots as nat),
            decreases slots - submitted.len(),
        {
            let ghost n = submitted.len() as nat;
            match self.submit_next() {
                Some(sqe) => {
                    proof {
                        start.lemma_batch_step(n);
                    }
                    submitted.push(sqe);
                },
                None => {
                    assert(start.batch_len(slots as nat) == n);
                    break ;
                },
            }
        }
        submitted
    }

    /// Handles the completions `cqes`, first to last, and returns what each
    /// of them asks of the caller, in the same order.
    pub fn handle_completions(&mut self, cqes: &[CompletionQueueEvent]) -> (outcomes: Vec<Outcome>)
        requires
            old(self)@.wf(),
        ensures
            outcomes@ == old(self)@.outcomes(cqes@),
            final(self)@ == old(self)@.complete_all(cqes@),
            final(self)@.wf(),
    {
        let ghost start = self@;
        let mut outcomes: Vec<Outcome> = Vec::new();
        let mut i: usize = 0;
        while i < cqes.len()
            invariant
                i <= cqes.len(),
                self@.wf(),
                outcomes@ == start.outcomes(cqes@.take(i as int)),
                self@ == start.complete_all(cqes@.take(i as int)),
            decreases cqes.len() - i,
        {
            assert(cqes@.take(i + 1).drop_last() =~= cqes@.take(i as int));
            let outcome = self.handle_completion(cqes[i]);
            outcomes.push(outcome);
            i += 1;
        }
        assert(cqes@.take(i as int) =~= cqes@);
        outcomes
    }

    /// The bytes to hand to the kernel for the write in flight under `tag`;
    /// `None` where no write is in flight there.
    pub fn write_buffer(&self, tag: u64) -> (buf: Option<&[u8]>)
        ensures
            match buf {
                Some(bytes) => self@.in_flight.write_buffer(tag) == Some(bytes@),
                None => self@.in_flight.write_buffer(tag) is None,
            },
    {
        self.in_flight.write_buffer(tag)
    }

    /// The buffer to hand to the kernel for the read in flight under `tag`;
    /// `None` where no read is in flight there. What is written through the
    /// borrow is what the connection holds afterwards; nothing else
    /// changes.
    pub fn read_buffer_mut(&mut self, tag: u64) -> (buf: Option<&mut [u8; READ_BUFFER_SIZE]>)
        ensures
            match buf {
                Some(bytes) => {
                    &&& old(self)@.in_flight.read_buffer(tag) == Some(bytes@)
                    &&& final(self)@ =~= old(self)@.fill(tag, final(bytes)@)
                },
                None => old(self)@.in_flight.read_buffer(tag) is None && final(self)@ == old(
                    self,
                )@,
            },
            buf matches Some(bytes) ==> final(bytes)@.len() == READ_BUFFER_SIZE,
            old(self)@.wf() ==> final(self)@.wf(),
    {
        self.in_flight.read_buffer_mut(tag)
    }

    /// Handles one completion: gives the operation back from the table,
    /// absorbs the result, queues what follows, and tells the caller what
    /// is left to do.
    pub fn handle_completion(&mut self, cqe: CompletionQueueEvent) -> (outcome: Outcome)
        requires
            old(self)@.wf(),
        ensures
            outcome == old(self)@.outcome(cqe),
            final(self)@ == old(self)@.complete(cqe),
            final(self)@.wf(),
    {
        match Operation::from_cqe(cqe, &mut self.in_flight) {
            Ok(op) => {
                let close = Operation::advance(op, &mut self.pending);
                Outcome { close, error: None }
            },
            Err((Some(op), error)) => {
                let close = Operation::abandon(op);
                Outcome { close, error: Some(error) }
            },
            Err((None, error)) => {
                assert(self@.in_flight.operations =~= old(self)@.in_flight.operations);
                Outcome { close: None, error: Some(error) }
            },
        }
    }
}

} // verus!
