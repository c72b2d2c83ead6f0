//! The table of operations that the kernel is working on, and the plain
//! records that cross the boundary to it.

use std::collections::hash_map::Entry;
use std::collections::HashMap;
use vstd::prelude::*;

use crate::connection::READ_BUFFER_SIZE;
use crate::operation::Operation;
use crate::operation::OperationView;
use crate::operation::Request;

verus! {

broadcast use vstd::std_specs::hash::group_hash_axioms;

/// What goes into one slot of the submission ring: the request and the tag
/// under which its completion will come back.
#[derive(Clone, Copy, Debug, PartialEq, Eq)]
pub struct SubmissionQueueEvent {
    pub request: Request,
    pub user_data: u64,
}

/// What comes out of the completion ring: the tag of a submission and the
/// kernel's result code for it, negative for an error number, otherwise the
/// value the request produced.
#[derive(Clone, Copy, Debug, PartialEq, Eq)]
pub struct CompletionQueueEvent {
    pub user_data: u64,
    pub result: i32,
}

/// The tag that no submission carries.
pub const NULL_TAG: u64 = 0;

/// The first tag that is never handed out; the ring keeps it for its own
/// timeouts.
pub const RESERVED_TAG: u64 = u64::MAX;

/// The operations in flight as a mathematical value: each outstanding tag
/// with its operation, and the tag that the next submission will get.
#[verifier::ext_equal]
pub struct InFlightView {
    pub operations: Map<u64, OperationView>,
    pub next_tag: u64,
}

impl InFlightView {
    /// Tags in use lie between the null tag and the next tag; what is in
    /// flight is pending and well formed.
    pub open spec fn wf(self) -> bool {
        &&& self.operations.dom().finite()
        &&& NULL_TAG < self.next_tag
        &&& forall|tag: u64| #[trigger]
            self.operations.contains_key(tag) ==> {
                &&& NULL_TAG < tag < self.next_tag
                &&& self.operations[tag].is_pending()
                &&& self.operations[tag].wf()
            }
    }

    /// The table with nothing in flight that hands out `first_tag` first.
    pub open spec fn empty(first_tag: u64) -> InFlightView {
        InFlightView { operations: Map::empty(), next_tag: first_tag }
    }

    /// A tag is left for one more submission.
    pub open spec fn has_room(self) -> bool {
        self.next_tag < RESERVED_TAG
    }

    /// The table after `op` has been submitted under the next tag.
    pub open spec fn submit(self, op: OperationView) -> InFlightView
        recommends
            self.has_room(),
    {
        InFlightView {
            operations: self.operations.insert(self.next_tag, op),
            next_tag: (self.next_tag + 1) as u64,
        }
    }

    /// The table after the submission `tag` has been given back.
    pub open spec fn reclaim(self, tag: u64) -> InFlightView {
        InFlightView { operations: self.operations.remove(tag), ..self }
    }

    /// The bytes that the write in flight under `tag` sends, if a write is
    /// in flight there.
    pub open spec fn write_buffer(self, tag: u64) -> Option<Seq<u8>> {
        if self.operations.contains_key(tag) {
            match self.operations[tag] {
                OperationView::WritePending { data } => Some(data.write_buf),
                _ => None,
            }
        } else {
            None
        }
    }

    /// The buffer that the read in flight under `tag` fills, if a read is
    /// in flight there.
    pub open spec fn read_buffer(self, tag: u64) -> Option<Seq<u8>> {
        if self.operations.contains_key(tag) {
            match self.operations[tag] {
                OperationView::ReadPending { data } => Some(data.read_buf),
                _ => None,
            }
        } else {
            None
        }
    }

    /// The table in which the read in flight under `tag` holds `bytes` in
    /// its buffer.
    pub open spec fn with_read_buffer(self, tag: u64, bytes: Seq<u8>) -> InFlightView
        recommends
            self.read_buffer(tag) is Some,
    {
        match self.operations[tag] {
            OperationView::ReadPending { data } => InFlightView {
                operations: self.operations.insert(
                    tag,
                    OperationView::ReadPending { data: data.with_read_buf(bytes) },
                ),
                ..self
            },
            _ => self,
        }
    }

    /// New bytes in a read buffer leave the table well formed.
    pub proof fn lemma_with_read_buffer_wf(self, tag: u64, bytes: Seq<u8>)
        requires
            self.wf(),
            self.read_buffer(tag) is Some,
            bytes.len() == READ_BUFFER_SIZE,
        ensures
            self.with_read_buffer(tag, bytes).wf(),
    {
        let after = self.with_read_buffer(tag, bytes);
        assert forall|other: u64| #[trigger] after.operations.contains_key(other) implies {
            &&& NULL_TAG < other < after.next_tag
            &&& after.operations[other].is_pending()
            &&& after.operations[other].wf()
        } by {
            assert(self.operations.contains_key(other));
        }
    }
}

/// The operations that have been handed to the kernel and not yet given
/// back, each under the tag that its completion will carry.
pub struct InFlight {
    operations: HashMap<u64, Box<Operation>>,
    next_tag: u64,
}

impl View for InFlight {
    type V = InFlightView;

    closed spec fn view(&self) -> InFlightView {
        InFlightView {
            operations: self.operations@.map_values(|op: Box<Operation>| op@),
            next_tag: self.next_tag,
        }
    }
}

/// Something that can take a pending operation into its keeping and say how
/// to submit it.
pub trait PrepareOperation {
    /// Takes `op` and returns the entry to put on the submission ring, or
    /// hands `op` back when it cannot be taken.
    fn prepare_operation(&mut self, op: Box<Operation>) -> (prepared: Result<
        SubmissionQueueEvent,
        Box<Operation>,
    >)
        requires
            op@.is_pending(),
    ;
}

impl InFlight {
    /// A table with nothing in flight.
    pub fn new() -> (table: Self)
        ensures
            table@ == InFlightView::empty(1),
            table@.wf(),
    {
        InFlight::with_first_tag(1)
    }

    /// A table with nothing in flight that hands out `first_tag` first.
    pub fn with_first_tag(first_tag: u64) -> (table: Self)
        requires
            first_tag != NULL_TAG,
        ensures
            table@ == InFlightView::empty(first_tag),
            table@.wf(),
    {
        let table = InFlight { operations: HashMap::new(), next_tag: first_tag };
        assert(table@.operations =~= Map::empty());
        table
    }

    /// How many operations are in flight.
    pub fn len(&self) -> (n: usize)
        ensures
            n == self@.operations.len(),
    {
        proof {
            self.lemma_view_dom();
        }
        self.operations.len()
    }

    /// Whether a tag is left for one more submission.
    pub fn has_room(&self) -> (b: bool)
        ensures
            b == self@.has_room(),
    {
        self.next_tag < RESERVED_TAG
    }

    /// Whether `tag` names a submission in flight.
    pub fn contains(&self, tag: u64) -> (b: bool)
        ensures
            b == self@.operations.contains_key(tag),
    {
        self.operations.contains_key(&tag)
    }

    /// Takes the operation submitted under `tag` out of the table.
    pub fn reclaim(&mut self, tag: u64) -> (reclaimed: Option<Box<Operation>>)
        ensures
            match reclaimed {
                Some(op) => old(self)@.operations.contains_key(tag) && op@ == old(
                    self,
                )@.operations[tag],
                None => !old(self)@.operations.contains_key(tag),
            },
            final(self)@ == old(self)@.reclaim(tag),
            old(self)@.wf() ==> final(self)@.wf(),
    {
        let reclaimed = self.operations.remove(&tag);
        assert(self@.operations =~= old(self)@.operations.remove(tag));
        reclaimed
    }

    /// The bytes to hand to the kernel for the write in flight under `tag`.
    pub fn write_buffer(&self, tag: u64) -> (buf: Option<&[u8]>)
        ensures
            match buf {
                Some(bytes) => self@.write_buffer(tag) == Some(bytes@),
                None => self@.write_buffer(tag) is None,
            },
    {
        match self.operations.get(&tag) {
            Some(op) => match &**op {
                Operation::ConnectionWrite(state) => if state.is_pending() {
                    Some(state.as_pending().data.write_buf())
                } else {
                    None
                },
                _ => None,
            },
            None => None,
        }
    }

    /// Whether a read is in flight under `tag`.
    pub fn is_read(&self, tag: u64) -> (b: bool)
        ensures
            b == (self@.read_buffer(tag) is Some),
    {
        match self.operations.get(&tag) {
            Some(op) => match &**op {
                Operation::ConnectionRead(state) => state.is_pending(),
                _ => false,
            },
            None => false,
        }
    }

    /// The buffer to hand to the kernel for the read in flight under `tag`.
    /// What is written through the borrow is what the connection holds
    /// afterwards; nothing else in the table changes.
    pub fn read_buffer_mut(&mut self, tag: u64) -> (buf: Option<&mut [u8; READ_BUFFER_SIZE]>)
        ensures
            match buf {
                Some(bytes) => old(self)@.read_buffer(tag) == Some(bytes@) && final(self)@ =~= old(
                    self,
                )@.with_read_buffer(tag, final(bytes)@),
                None => old(self)@.read_buffer(tag) is None && final(self)@ == old(self)@,
            },
            buf matches Some(bytes) ==> final(bytes)@.len() == READ_BUFFER_SIZE,
            old(self)@.wf() ==> final(self)@.wf(),
    {
        if !self.is_read(tag) {
            return None;
        }
        proof {
            let table = self@;
            assert forall|bytes: Seq<u8>|
                table.wf() && bytes.len() == READ_BUFFER_SIZE implies #[trigger] table.with_read_buffer(
                tag,
                bytes,
            ).wf() by {
                table.lemma_with_read_buffer_wf(tag, bytes);
            }
        }
        match self.operations.entry(tag) {
            Entry::Occupied(entry) => {
                let op = entry.into_mut();
                match &mut **op {
                    Operation::ConnectionRead(state) => Some(
                        state.as_pending_mut().data.read_buf_mut(),
                    ),
                    _ => unreached(),
                }
            },
            Entry::Vacant(_) => unreached(),
        }
    }

    proof fn lemma_view_dom(&self)
        ensures
            self@.operations.dom() == self.operations@.dom(),
    {
        assert(self@.operations.dom() =~= self.operations@.dom());
    }
}

impl PrepareOperation for InFlight {
    /// Files `op` under the next tag, or hands it back when the tags have
    /// run out.
    fn prepare_operation(&mut self, op: Box<Operation>) -> (prepared: Result<
        SubmissionQueueEvent,
        Box<Operation>,
    >)
        ensures
            old(self)@.has_room() ==> prepared == Ok::<SubmissionQueueEvent, Box<Operation>>(
                SubmissionQueueEvent { request: op@.request(), user_data: old(self)@.next_tag },
            ) && final(self)@ == old(self)@.submit(op@),
            !old(self)@.has_room() ==> prepared == Err::<SubmissionQueueEvent, Box<Operation>>(op)
                && final(self)@ == old(self)@,
            old(self)@.wf() && op@.wf() ==> final(self)@.wf(),
    {
        if self.next_tag < RESERVED_TAG {
            let user_data = self.next_tag;
            let request = op.request();
            self.operations.insert(user_data, op);
            self.next_tag = user_data + 1;
            assert(self@.operations =~= old(self)@.operations.insert(user_data, op@));
            Ok(SubmissionQueueEvent { request, user_data })
        } else {
            Err(op)
        }
    }
}

} // verus!
