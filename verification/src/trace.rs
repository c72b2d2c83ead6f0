//! What holds of every run of the loop: of any sequence of submissions,
//! buffer fills and completions, in any order and with any contents.

use vstd::prelude::*;

use crate::census::count;
use crate::census::count_waiting;
use crate::census::lemma_count_complete;
use crate::census::lemma_count_fill;
use crate::census::lemma_count_submit;
use crate::census::lemma_count_waiting_one;
use crate::census::lemma_count_waiting_two;
use crate::connection::RawFd;
use crate::event_loop::EventLoopView;
use crate::operation::OperationView;
use crate::submission::CompletionQueueEvent;

verus! {

/// One thing that happens to the loop.
pub enum Step {
    /// The next submission is made, if one can be.
    Submit,
    /// `bytes` arrive in the buffer of the read in flight under `tag`.
    Fill { tag: u64, bytes: Seq<u8> },
    /// The completion `cqe` is handled.
    Complete { cqe: CompletionQueueEvent },
}

/// 1 where `b` holds, 0 where it does not.
pub open spec fn one_if(b: bool) -> nat {
    if b {
        1
    } else {
        0
    }
}

/// The state after one step.
pub open spec fn step(s: EventLoopView, e: Step) -> EventLoopView {
    match e {
        Step::Submit => s.submit(),
        Step::Fill { tag, bytes } => s.fill(tag, bytes),
        Step::Complete { cqe } => s.complete(cqe),
    }
}

/// The state after the steps of `steps`, first to last.
pub open spec fn run(s: EventLoopView, steps: Seq<Step>) -> EventLoopView
    decreases steps.len(),
{
    if steps.len() == 0 {
        s
    } else {
        step(run(s, steps.drop_last()), steps.last())
    }
}

/// `n` submissions in a row.
pub open spec fn submit_steps(n: nat) -> Seq<Step> {
    Seq::new(n, |i: int| Step::Submit)
}

/// The completions `cqes` as steps, in their order.
pub open spec fn complete_steps(cqes: Seq<CompletionQueueEvent>) -> Seq<Step> {
    Seq::new(cqes.len(), |i: int| Step::Complete { cqe: cqes[i] })
}

/// A round of submissions is a run: with `slots` free slots it does what
/// as many single submissions do as the round makes.
pub proof fn lemma_batch_is_run(s: EventLoopView, slots: nat)
    requires
        s.wf(),
    ensures
        s.submit_batch(slots) == run(s, submit_steps(s.batch_len(slots))),
    decreases s.batch_len(slots),
{
    let n = s.batch_len(slots);
    assert(s.submit_batch(slots) == s.submit_batch(n));
    if n == 0 {
        s.lemma_batch_none();
    } else {
        let m = (n - 1) as nat;
        assert(s.batch_len(m) == m);
        lemma_batch_is_run(s, m);
        s.lemma_batch_step(m);
        assert(submit_steps(n).drop_last() =~= submit_steps(m));
    }
}

/// Handling a sequence of completions is a run of its completions.
pub proof fn lemma_complete_all_is_run(s: EventLoopView, cqes: Seq<CompletionQueueEvent>)
    ensures
        s.complete_all(cqes) == run(s, complete_steps(cqes)),
    decreases cqes.len(),
{
    if cqes.len() > 0 {
        lemma_complete_all_is_run(s, cqes.drop_last());
        assert(complete_steps(cqes).drop_last() =~= complete_steps(cqes.drop_last()));
    }
}

/// The step `e`, taken in state `s`, submits an operation under `tag`.
pub open spec fn submits(s: EventLoopView, e: Step, tag: u64) -> bool {
    e is Submit && s.can_submit() && s.in_flight.next_tag == tag
}

/// The step `e`, taken in state `s`, gives back the operation in flight
/// under `tag`.
pub open spec fn reclaims(s: EventLoopView, e: Step, tag: u64) -> bool {
    e matches Step::Complete { cqe } && cqe.user_data == tag
        && s.in_flight.operations.contains_key(tag)
}

/// How often the run of `steps` from `s` submits an operation under `tag`.
pub open spec fn submissions(s: EventLoopView, steps: Seq<Step>, tag: u64) -> nat
    decreases steps.len(),
{
    if steps.len() == 0 {
        0
    } else {
        submissions(s, steps.drop_last(), tag) + one_if(
            submits(run(s, steps.drop_last()), steps.last(), tag),
        )
    }
}

/// How often the run of `steps` from `s` gives back an operation in flight
/// under `tag`.
pub open spec fn reclamations(s: EventLoopView, steps: Seq<Step>, tag: u64) -> nat
    decreases steps.len(),
{
    if steps.len() == 0 {
        0
    } else {
        reclamations(s, steps.drop_last(), tag) + one_if(
            reclaims(run(s, steps.drop_last()), steps.last(), tag),
        )
    }
}

/// One step keeps the state well formed and never takes back a tag.
pub proof fn lemma_step_wf(s: EventLoopView, e: Step)
    requires
        s.wf(),
    ensures
        step(s, e).wf(),
        s.in_flight.next_tag <= step(s, e).in_flight.next_tag,
{
    match e {
        Step::Submit => {
            crate::laws::lemma_submit(s);
        },
        Step::Fill { tag, bytes } => {
            if s.fill(tag, bytes) != s {
                s.in_flight.lemma_with_read_buffer_wf(tag, bytes);
            }
        },
        Step::Complete { cqe } => {
            crate::laws::lemma_complete_wf(s, cqe);
        },
    }
}

/// Every run keeps the state well formed, whatever the steps and their
/// order, and never takes back a tag.
pub proof fn lemma_run_wf(s: EventLoopView, steps: Seq<Step>)
    requires
        s.wf(),
    ensures
        run(s, steps).wf(),
        s.in_flight.next_tag <= run(s, steps).in_flight.next_tag,
    decreases steps.len(),
{
    if steps.len() > 0 {
        lemma_run_wf(s, steps.drop_last());
        lemma_step_wf(run(s, steps.drop_last()), steps.last());
    }
}

/// Over every run, an operation is given back exactly as often as it was
/// submitted, less the one time that is still to come while it is in
/// flight.
///
/// For every tag: what was in flight under it at the start plus the
/// submissions under it equals the times it was given back plus what is in
/// flight under it at the end. A tag is used for at most one submission,
/// and only a tag that was still to come at the start is used at all; so
/// nothing is given back twice, nothing that was given back is in flight
/// again, and what is no longer in flight has been given back as often as
/// it was submitted.
pub proof fn theorem_reclaimed_as_submitted(s: EventLoopView, steps: Seq<Step>, tag: u64)
    requires
        s.wf(),
    ensures
        one_if(s.in_flight.operations.contains_key(tag)) + submissions(s, steps, tag)
            == reclamations(s, steps, tag) + one_if(
            run(s, steps).in_flight.operations.contains_key(tag),
        ),
        submissions(s, steps, tag) == one_if(
            s.in_flight.next_tag <= tag < run(s, steps).in_flight.next_tag,
        ),
        one_if(s.in_flight.operations.contains_key(tag)) + submissions(s, steps, tag) <= 1,
    decreases steps.len(),
{
    if steps.len() > 0 {
        let before = run(s, steps.drop_last());
        theorem_reclaimed_as_submitted(s, steps.drop_last(), tag);
        lemma_run_wf(s, steps.drop_last());
        lemma_step_wf(before, steps.last());
        match steps.last() {
            Step::Submit => {
                crate::laws::lemma_submit(before);
            },
            Step::Fill { tag: filled, bytes } => {
                let after = before.fill(filled, bytes);
                assert(after.in_flight.operations.contains_key(tag)
                    == before.in_flight.operations.contains_key(tag));
            },
            Step::Complete { cqe } => {},
        }
    }
}

/// An operation that starts out waiting in the initial state of a server
/// and everything that follows it: each tag is given back at most as often
/// as it was submitted, at most once, and exactly as often once it is no
/// longer in flight.
pub proof fn theorem_reclaimed_as_submitted_from_start(listen_fd: RawFd, steps: Seq<Step>, tag: u64)
    ensures
        ({
            let s = EventLoopView::start(listen_fd);
            &&& reclamations(s, steps, tag) <= submissions(s, steps, tag) <= 1
            &&& !run(s, steps).in_flight.operations.contains_key(tag) ==> reclamations(
                s,
                steps,
                tag,
            ) == submissions(s, steps, tag)
        }),
{
    let s = EventLoopView::start(listen_fd);
    lemma_start_wf(listen_fd);
    theorem_reclaimed_as_submitted(s, steps, tag);
}

/// The initial state of a server is well formed.
pub proof fn lemma_start_wf(listen_fd: RawFd)
    ensures
        EventLoopView::start(listen_fd).wf(),
{
}

/// The operation owns a connection whose descriptor is `fd`.
pub open spec fn holds(fd: RawFd) -> spec_fn(OperationView) -> bool {
    |op: OperationView| op.descriptor() == Some(fd)
}

/// How many operations of `s`, waiting or in flight, own a connection whose
/// descriptor is `fd`.
pub open spec fn holders(s: EventLoopView, fd: RawFd) -> nat {
    count(s, holds(fd))
}

/// The step `e`, taken in state `s`, completes an accept with the new
/// descriptor `fd`.
pub open spec fn accepts(s: EventLoopView, e: Step, fd: RawFd) -> bool {
    &&& e matches Step::Complete { cqe }
    &&& s.in_flight.operations.contains_key(cqe.user_data)
    &&& s.in_flight.operations[cqe.user_data] is AcceptPending
    &&& cqe.result >= 0
    &&& cqe.result == fd
}

/// The step `e`, taken in state `s`, tells the caller to close `fd`.
pub open spec fn closes(s: EventLoopView, e: Step, fd: RawFd) -> bool {
    e matches Step::Complete { cqe } && s.outcome(cqe).close == Some(fd)
}

/// How often the run of `steps` from `s` accepts a connection with the
/// descriptor `fd`.
pub open spec fn acceptances(s: EventLoopView, steps: Seq<Step>, fd: RawFd) -> nat
    decreases steps.len(),
{
    if steps.len() == 0 {
        0
    } else {
        acceptances(s, steps.drop_last(), fd) + one_if(
            accepts(run(s, steps.drop_last()), steps.last(), fd),
        )
    }
}

/// How often the run of `steps` from `s` tells the caller to close `fd`.
pub open spec fn closings(s: EventLoopView, steps: Seq<Step>, fd: RawFd) -> nat
    decreases steps.len(),
{
    if steps.len() == 0 {
        0
    } else {
        closings(s, steps.drop_last(), fd) + one_if(
            closes(run(s, steps.drop_last()), steps.last(), fd),
        )
    }
}

/// In one step a descriptor is neither lost nor doubled: the operations
/// that own `fd` afterwards, plus one if the step has it closed, are those
/// that owned it before, plus one if the step accepted it.
pub proof fn lemma_step_descriptors(s: EventLoopView, e: Step, fd: RawFd)
    requires
        s.wf(),
    ensures
        holders(step(s, e), fd) + one_if(closes(s, e, fd)) == holders(s, fd) + one_if(
            accepts(s, e, fd),
        ),
{
    let p = holds(fd);
    match e {
        Step::Submit => {
            lemma_count_submit(s, p);
        },
        Step::Fill { tag, bytes } => {
            lemma_count_fill(s, tag, bytes, p);
        },
        Step::Complete { cqe } => {
            lemma_count_complete(s, cqe, p);
            if s.in_flight.operations.contains_key(cqe.user_data) && cqe.result >= 0 {
                let op = s.in_flight.operations[cqe.user_data];
                let next = op.completed(cqe.result).successors();
                assert(op.is_pending());
                match op {
                    OperationView::AcceptPending { listen_fd } => {
                        lemma_count_waiting_two(next[0], next[1], p);
                        assert(next =~= seq![next[0], next[1]]);
                    },
                    OperationView::ReadPending { data } => {
                        if cqe.result > 0 {
                            lemma_count_waiting_one(next[0], p);
                            assert(next =~= seq![next[0]]);
                        }
                    },
                    OperationView::WritePending { data } => {
                        lemma_count_waiting_one(next[0], p);
                        assert(next =~= seq![next[0]]);
                    },
                    _ => {},
                }
            }
        },
    }
}

/// Over every run, each descriptor is closed exactly once for each time it
/// was accepted, and not before the last operation that owns it is gone.
///
/// For every descriptor: the operations that owned it at the start plus the
/// times it was accepted equal the times the caller was told to close it
/// plus the operations that own it at the end. So a descriptor that no
/// operation owns any more has been closed as often as it was accepted,
/// and one that an operation still owns has one closing yet to come.
pub proof fn theorem_closed_as_accepted(s: EventLoopView, steps: Seq<Step>, fd: RawFd)
    requires
        s.wf(),
    ensures
        holders(s, fd) + acceptances(s, steps, fd) == closings(s, steps, fd) + holders(
            run(s, steps),
            fd,
        ),
    decreases steps.len(),
{
    if steps.len() > 0 {
        theorem_closed_as_accepted(s, steps.drop_last(), fd);
        lemma_run_wf(s, steps.drop_last());
        lemma_step_descriptors(run(s, steps.drop_last()), steps.last(), fd);
    }
}

/// A server starts without connections: no operation of the initial state
/// owns a descriptor. So over every run from there, the closings of a
/// descriptor and the operations that still own it add up to its
/// acceptances.
pub proof fn theorem_closed_as_accepted_from_start(listen_fd: RawFd, steps: Seq<Step>, fd: RawFd)
    ensures
        ({
            let s = EventLoopView::start(listen_fd);
            acceptances(s, steps, fd) == closings(s, steps, fd) + holders(run(s, steps), fd)
        }),
{
    let s = EventLoopView::start(listen_fd);
    lemma_count_waiting_one(s.pending[0], holds(fd));
    assert(s.pending =~= seq![s.pending[0]]);
    assert(crate::census::tags_with(s.in_flight.operations, holds(fd)) =~= Set::<u64>::empty());
    theorem_closed_as_accepted(s, steps, fd);
}

/// The operation is an accept that waits on the listener `listen_fd`.
pub open spec fn arms(listen_fd: RawFd) -> spec_fn(OperationView) -> bool {
    |op: OperationView| op == (OperationView::AcceptPending { listen_fd })
}

/// How many accepts on the listener `listen_fd` are waiting or in flight
/// in `s`.
pub open spec fn armed(s: EventLoopView, listen_fd: RawFd) -> nat {
    count(s, arms(listen_fd))
}

/// The step `e`, taken in state `s`, completes an accept on the listener
/// `listen_fd` with an error.
pub open spec fn disarms(s: EventLoopView, e: Step, listen_fd: RawFd) -> bool {
    &&& e matches Step::Complete { cqe }
    &&& s.in_flight.operations.contains_key(cqe.user_data)
    &&& s.in_flight.operations[cqe.user_data] == (OperationView::AcceptPending { listen_fd })
    &&& cqe.result < 0
}

/// How often an accept on the listener `listen_fd` fails in the run of
/// `steps` from `s`.
pub open spec fn disarmings(s: EventLoopView, steps: Seq<Step>, listen_fd: RawFd) -> nat
    decreases steps.len(),
{
    if steps.len() == 0 {
        0
    } else {
        disarmings(s, steps.drop_last(), listen_fd) + one_if(
            disarms(run(s, steps.drop_last()), steps.last(), listen_fd),
        )
    }
}

/// One step changes the number of accepts on a listener only where an
/// accept on it fails: a completed accept is replaced by exactly one new
/// one, and nothing else adds or removes one.
pub proof fn lemma_step_armed(s: EventLoopView, e: Step, listen_fd: RawFd)
    requires
        s.wf(),
    ensures
        armed(step(s, e), listen_fd) + one_if(disarms(s, e, listen_fd)) == armed(s, listen_fd),
{
    let p = arms(listen_fd);
    match e {
        Step::Submit => {
            lemma_count_submit(s, p);
        },
        Step::Fill { tag, bytes } => {
            lemma_count_fill(s, tag, bytes, p);
        },
        Step::Complete { cqe } => {
            lemma_count_complete(s, cqe, p);
            if s.in_flight.operations.contains_key(cqe.user_data) && cqe.result >= 0 {
                let op = s.in_flight.operations[cqe.user_data];
                let next = op.completed(cqe.result).successors();
                assert(op.is_pending());
                match op {
                    OperationView::AcceptPending { listen_fd } => {
                        lemma_count_waiting_two(next[0], next[1], p);
                        assert(next =~= seq![next[0], next[1]]);
                    },
                    OperationView::ReadPending { data } => {
                        if cqe.result > 0 {
                            lemma_count_waiting_one(next[0], p);
                            assert(next =~= seq![next[0]]);
                        }
                    },
                    OperationView::WritePending { data } => {
                        lemma_count_waiting_one(next[0], p);
                        assert(next =~= seq![next[0]]);
                    },
                    _ => {},
                }
            }
        },
    }
}

/// Over every run, the accepts on a listener that wait or are in flight,
/// together with those that have failed, stay as many as at the start.
pub proof fn theorem_listener_armed(s: EventLoopView, steps: Seq<Step>, listen_fd: RawFd)
    requires
        s.wf(),
    ensures
        armed(run(s, steps), listen_fd) + disarmings(s, steps, listen_fd) == armed(s, listen_fd),
    decreases steps.len(),
{
    if steps.len() > 0 {
        theorem_listener_armed(s, steps.drop_last(), listen_fd);
        lemma_run_wf(s, steps.drop_last());
        lemma_step_armed(run(s, steps.drop_last()), steps.last(), listen_fd);
    }
}

/// A server has exactly one accept on its listener, waiting or in flight,
/// for as long as no accept has failed: never none, never two. Each failed
/// accept takes one away.
pub proof fn theorem_listener_armed_from_start(listen_fd: RawFd, steps: Seq<Step>)
    ensures
        ({
            let s = EventLoopView::start(listen_fd);
            armed(run(s, steps), listen_fd) + disarmings(s, steps, listen_fd) == 1
        }),
{
    let s = EventLoopView::start(listen_fd);
    lemma_count_waiting_one(s.pending[0], arms(listen_fd));
    assert(s.pending =~= seq![s.pending[0]]);
    assert(crate::census::tags_with(s.in_flight.operations, arms(listen_fd))
        =~= Set::<u64>::empty());
    theorem_listener_armed(s, steps, listen_fd);
}

} // verus!
