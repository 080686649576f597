//! The caller-facing submission path: a bounded intake queue.
//!
//! Many caller tasks share one handle and submit through a bounded
//! multi-producer channel that the actor alone consumes. The queue is the
//! single point of backpressure: once it holds as many submissions as its
//! capacity, further submissions are rejected immediately with `Full`,
//! without suspending and without touching any other state. Submissions
//! the actor dequeues leave in exact first-in, first-out order.

use vstd::prelude::*;

use crate::error::Error;
use crate::websocket::{SocketRequest, SocketRequestView};

verus! {

/// One submission: a request envelope and the token that stands for the
/// fresh one-shot reply channel allocated for it.
#[derive(Clone, Debug, PartialEq)]
pub struct Submission {
    pub request: SocketRequest,
    pub token: u64,
}

/// Mathematical model of a [`Submission`].
#[verifier::ext_equal]
pub ghost struct SubmissionView {
    pub request: SocketRequestView,
    pub token: u64,
}

impl View for Submission {
    type V = SubmissionView;

    open spec fn view(&self) -> SubmissionView {
        SubmissionView { request: self.request@, token: self.token }
    }
}

/// What the actor sees when it polls the intake queue.
pub enum IntakePoll {
    /// The oldest submission still queued.
    Item(Submission),
    /// Empty, and every handle is gone: the actor may shut down
    /// gracefully.
    Disconnected,
    /// Empty, but a handle may still submit: suspend until woken.
    Pending,
}

/// The bounded multi-producer intake channel, seen as one queue.
///
/// `close_senders` models the last client handle going away;
/// `close_receiver` models the actor going away.
pub struct IntakeQueue {
    cap: usize,
    items: Vec<Submission>,
    senders_gone: bool,
    receiver_gone: bool,
}

impl View for IntakeQueue {
    type V = Seq<SubmissionView>;

    closed spec fn view(&self) -> Seq<SubmissionView> {
        self.items@.map_values(|s: Submission| s@)
    }
}

impl IntakeQueue {
    /// How many submissions may wait at once.
    pub closed spec fn capacity(&self) -> int {
        self.cap as int
    }

    /// Whether every client handle is gone.
    pub closed spec fn senders_closed(&self) -> bool {
        self.senders_gone
    }

    /// Whether the actor's receiving end is gone.
    pub closed spec fn receiver_closed(&self) -> bool {
        self.receiver_gone
    }

    pub fn new(capacity: usize) -> (r: Self)
        ensures
            r@ == Seq::<SubmissionView>::empty(),
            r.capacity() == capacity,
            !r.senders_closed(),
            !r.receiver_closed(),
    {
        let r = IntakeQueue { cap: capacity, items: Vec::new(), senders_gone: false, receiver_gone: false };
        proof {
            assert(r@ =~= Seq::<SubmissionView>::empty());
        }
        r
    }

    pub fn len(&self) -> (n: usize)
        ensures
            n == self@.len(),
    {
        self.items.len()
    }

    /// The synchronous half of `submit`: try to enqueue one submission.
    ///
    /// Rejected with `Closed` when the actor's receiving end is gone, and
    /// with `Full` when the queue already holds `capacity` submissions —
    /// in both cases immediately, leaving the queue exactly as it was.
    pub fn try_submit(&mut self, s: Submission) -> (r: Result<(), Error>)
        ensures
            final(self).capacity() == old(self).capacity(),
            final(self).senders_closed() == old(self).senders_closed(),
            final(self).receiver_closed() == old(self).receiver_closed(),
            old(self).receiver_closed() ==> r == Err::<(), Error>(Error::Closed) && final(self)@
                == old(self)@,
            !old(self).receiver_closed() && old(self)@.len() >= old(self).capacity() ==> r
                == Err::<(), Error>(Error::Full) && final(self)@ == old(self)@,
            !old(self).receiver_closed() && old(self)@.len() < old(self).capacity() ==> r
                == Ok::<(), Error>(()) && final(self)@ == old(self)@.push(s@),
    {
        if self.receiver_gone {
            Err(Error::Closed)
        } else if self.items.len() >= self.cap {
            Err(Error::Full)
        } else {
            self.items.push(s);
            proof {
                assert(self@ =~= old(self)@.push(s@));
            }
            Ok(())
        }
    }

    /// The actor's side: take the oldest submission, learn that every
    /// handle is gone, or learn that it must wait.
    pub fn poll_next(&mut self) -> (r: IntakePoll)
        ensures
            final(self).capacity() == old(self).capacity(),
            final(self).senders_closed() == old(self).senders_closed(),
            final(self).receiver_closed() == old(self).receiver_closed(),
            old(self)@.len() > 0 ==> (r matches IntakePoll::Item(s) && s@ == old(self)@[0]
                && final(self)@ == old(self)@.skip(1)),
            old(self)@.len() == 0 && old(self).senders_closed() ==> r
                is Disconnected && final(self)@ == old(self)@,
            old(self)@.len() == 0 && !old(self).senders_closed() ==> r is Pending && final(self)@
                == old(self)@,
    {
        if self.items.len() > 0 {
            let s = self.items.remove(0);
            proof {
                assert(self@ =~= old(self)@.skip(1));
            }
            IntakePoll::Item(s)
        } else if self.senders_gone {
            IntakePoll::Disconnected
        } else {
            IntakePoll::Pending
        }
    }

    /// The last client handle goes away.
    pub fn close_senders(&mut self)
        ensures
            final(self)@ == old(self)@,
            final(self).capacity() == old(self).capacity(),
            final(self).senders_closed(),
            final(self).receiver_closed() == old(self).receiver_closed(),
    {
        self.senders_gone = true;
    }

    /// The actor goes away: every later submission is rejected with
    /// `Closed`.
    pub fn close_receiver(&mut self)
        ensures
            final(self)@ == old(self)@,
            final(self).capacity() == old(self).capacity(),
            final(self).senders_closed() == old(self).senders_closed(),
            final(self).receiver_closed(),
    {
        self.receiver_gone = true;
    }
}

} // verus!
