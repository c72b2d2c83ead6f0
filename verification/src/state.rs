//! The two observable phases of a request, and the placeholder that stands
//! in while one phase is swapped for the other.

use vstd::prelude::*;

verus! {

/// Phase of one request: `Pending` until the kernel reports its completion,
/// `Ready` once the result has been absorbed. `Temp` is what [`take`] leaves
/// behind; no state handed to a caller rests in it.
///
/// [`take`]: OperationState::take
#[derive(Debug)]
pub enum OperationState<P, R> {
    Pending(P),
    Ready(R),
    Temp,
}

impl<P, R> OperationState<P, R> {
    /// Whether the state is `Pending`.
    pub fn is_pending(&self) -> (b: bool)
        ensures
            b == (*self is Pending),
    {
        match self {
            OperationState::Pending(_) => true,
            _ => false,
        }
    }

    /// Whether the state is `Ready`.
    pub fn is_ready(&self) -> (b: bool)
        ensures
            b == (*self is Ready),
    {
        match self {
            OperationState::Ready(_) => true,
            _ => false,
        }
    }

    /// Borrows the pending data.
    pub fn as_pending(&self) -> (p: &P)
        requires
            *self is Pending,
        ensures
            *p == self->Pending_0,
    {
        match self {
            OperationState::Pending(p) => p,
            _ => unreached(),
        }
    }

    /// Unwraps the pending data.
    pub fn into_pending(self) -> (p: P)
        requires
            self is Pending,
        ensures
            p == self->Pending_0,
    {
        match self {
            OperationState::Pending(p) => p,
            _ => unreached(),
        }
    }

    /// Borrows the pending data for writing; the state stays `Pending` and
    /// holds whatever the borrower leaves in place.
    pub fn as_pending_mut(&mut self) -> (p: &mut P)
        requires
            *old(self) is Pending,
        ensures
            *p == old(self)->Pending_0,
            *final(self) == OperationState::<P, R>::Pending(*final(p)),
    {
        match self {
            OperationState::Pending(p) => p,
            _ => unreached(),
        }
    }

    /// Borrows the ready data.
    pub fn as_ready(&self) -> (r: &R)
        requires
            *self is Ready,
        ensures
            *r == self->Ready_0,
    {
        match self {
            OperationState::Ready(r) => r,
            _ => unreached(),
        }
    }

    /// Unwraps the ready data.
    pub fn into_ready(self) -> (r: R)
        requires
            self is Ready,
        ensures
            r == self->Ready_0,
    {
        match self {
            OperationState::Ready(r) => r,
            _ => unreached(),
        }
    }

    /// Moves the state out, leaving `Temp` in its place.
    pub fn take(&mut self) -> (taken: OperationState<P, R>)
        ensures
            taken == *old(self),
            *final(self) == OperationState::<P, R>::Temp,
    {
        let mut taken = OperationState::Temp;
        core::mem::swap(self, &mut taken);
        taken
    }
}

} // verus!
