//! The connection actor: the multiplexing engine's decision core.
//!
//! Exactly one actor owns a connection. It assigns correlation ids from a
//! monotonically increasing counter, keeps the pending ledger, encodes
//! accepted submissions into frames, and matches decoded reply envelopes
//! back to their reply tokens. The surrounding event loop performs the
//! actual reads, writes and flushes and feeds the outcome of each as one
//! [`Event`]; the actor answers with the one [`Effect`] to perform. Every
//! terminal event resolves every pending request exactly once — a matched
//! reply individually, and any fatal condition through a single
//! ledger-wide broadcast — after which the actor is terminated and is
//! never stepped again.

use vstd::prelude::*;

use crate::codec::{decode_response, dec_response, enc_request, encode_request};
use crate::error::Error;
use crate::intake::Submission;
use crate::intake::SubmissionView;
use crate::ledger::{
    has_id, ids_sorted, idx_of, lemma_sorted_ids_unique, tokens_of, PendingCommand, PendingLedger,
};
use crate::websocket::{SocketRequestView, SocketResponse, SocketResponseView};
use vstd::multiset::Multiset;

verus! {

/// One outcome of the event loop's outside work, handed to the actor.
pub enum Event {
    /// One whole frame was read from the transport.
    Frame(Vec<u8>),
    /// The transport reported a read error or end-of-stream.
    ReadFailed,
    /// The oldest submission was dequeued while the transport was ready
    /// to take a frame.
    Accept(Submission),
    /// The intake queue is empty and every client handle is gone.
    IntakeClosed,
    /// The transport reported a write or flush error.
    WriteFailed,
}

/// The one thing the event loop must do after a step.
pub enum Effect {
    /// A matched reply: hand `response` to the caller standing behind
    /// `token`. If that caller abandoned its reply channel, dropping the
    /// delivery is harmless.
    Deliver { token: u64, response: SocketResponse },
    /// A reply whose id matches no pending request: a non-fatal protocol
    /// anomaly, logged and discarded.
    Ignore,
    /// An accepted submission: write `frame` to the transport.
    Send { frame: Vec<u8> },
    /// A fatal condition: resolve every request in `tokens` with the one
    /// shared `error`. The actor is terminated.
    Fail { tokens: Vec<u64>, error: Error },
    /// Graceful shutdown: the requests in `tokens` resolve `Cancelled`
    /// as their reply channels are dropped. The actor is terminated.
    Stop { tokens: Vec<u64> },
}

/// The actor's connection-local state: the next correlation id and the
/// pending ledger, plus ghost histories that carry the exactly-once
/// argument.
pub struct ConnectionActor {
    next_id: u64,
    pending: PendingLedger,
    terminated: bool,
    issued: Ghost<Seq<u64>>,
    accepted: Ghost<Multiset<u64>>,
    resolved: Ghost<Multiset<u64>>,
}

impl ConnectionActor {
    /// The id the next accepted submission will carry.
    pub closed spec fn next_correlation_id(&self) -> u64 {
        self.next_id
    }

    /// The pending ledger's entries.
    pub closed spec fn ledger(&self) -> Seq<PendingCommand> {
        self.pending@
    }

    /// Whether a terminal event has been handled. A terminated actor is
    /// never stepped again.
    pub closed spec fn is_terminated(&self) -> bool {
        self.terminated
    }

    /// Every correlation id ever issued, in order of issue.
    pub closed spec fn issued(&self) -> Seq<u64> {
        self.issued@
    }

    /// The reply tokens of every submission ever accepted.
    pub closed spec fn accepted(&self) -> Multiset<u64> {
        self.accepted@
    }

    /// The reply tokens resolved so far: delivered a reply, or included
    /// in a terminal broadcast.
    pub closed spec fn resolved(&self) -> Multiset<u64> {
        self.resolved@
    }

    /// The actor's invariant. The ledger ascends strictly below the next
    /// id; issued ids ascend strictly; a terminated actor holds nothing;
    /// and every accepted token is either resolved or pending — never
    /// both, never twice.
    pub open spec fn wf(&self) -> bool {
        &&& ids_sorted(self.ledger())
        &&& forall|i: int|
            0 <= i < self.ledger().len() ==> (#[trigger] self.ledger()[i]).id
                < self.next_correlation_id()
        &&& forall|i: int, j: int|
            0 <= i < j < self.issued().len() ==> self.issued()[i] < self.issued()[j]
        &&& forall|i: int|
            0 <= i < self.issued().len() ==> #[trigger] self.issued()[i]
                < self.next_correlation_id()
        &&& (self.is_terminated() ==> self.ledger().len() == 0)
        &&& forall|t: u64|
            #[trigger] self.accepted().count(t) == self.resolved().count(t) + tokens_of(
                self.ledger(),
            ).to_multiset().count(t)
        &&& forall|t: u64| #[trigger] self.accepted().count(t) <= 1
    }

    /// A fresh actor for a fresh connection: ids start at zero, nothing
    /// pending, nothing accepted, nothing resolved.
    pub fn new() -> (r: Self)
        ensures
            r.wf(),
            r.next_correlation_id() == 0,
            r.ledger() == Seq::<PendingCommand>::empty(),
            !r.is_terminated(),
            r.issued() == Seq::<u64>::empty(),
            r.accepted() == Multiset::<u64>::empty(),
            r.resolved() == Multiset::<u64>::empty(),
    {
        let r = ConnectionActor {
            next_id: 0,
            pending: PendingLedger::new(),
            terminated: false,
            issued: Ghost(Seq::empty()),
            accepted: Ghost(Multiset::empty()),
            resolved: Ghost(Multiset::empty()),
        };
        proof {
            broadcast use vstd::seq_lib::group_to_multiset_ensures;
            broadcast use vstd::multiset::group_multiset_axioms;

            assert(tokens_of(r.ledger()) =~= Seq::<u64>::empty());
            assert forall|t: u64| #[trigger] r.accepted().count(t) == r.resolved().count(t)
                + tokens_of(r.ledger()).to_multiset().count(t) by {
                assert(!tokens_of(r.ledger()).contains(t));
            }
        }
        r
    }

    /// Whether a terminal event has been handled: such an actor may not
    /// be stepped again.
    pub fn terminated(&self) -> (b: bool)
        ensures
            b == self.is_terminated(),
    {
        self.terminated
    }

    /// How many correlation ids have been issued; the next submission
    /// accepted takes exactly this value as its id.
    pub fn issued_count(&self) -> (n: u64)
        ensures
            n == self.next_correlation_id(),
    {
        self.next_id
    }

    /// How many requests are outstanding.
    pub fn pending_count(&self) -> (n: usize)
        ensures
            n == self.ledger().len(),
    {
        self.pending.len()
    }

    fn fail_all(&mut self, error: Error) -> (eff: Effect)
        requires
            old(self).wf(),
        ensures
            fails_all(*old(self), *final(self), eff, error),
            final(self).wf(),
    {
        let ghost p = self.pending@;
        let tokens = self.pending.drain();
        self.terminated = true;
        proof {
            self.resolved@ = self.resolved@.add(tokens_of(p).to_multiset());
            broadcast use vstd::seq_lib::group_to_multiset_ensures;
            broadcast use vstd::multiset::group_multiset_axioms;

            assert(tokens_of(self.ledger()) =~= Seq::<u64>::empty());
            assert forall|t: u64| #[trigger] self.accepted().count(t) == self.resolved().count(t)
                + tokens_of(self.ledger()).to_multiset().count(t) by {
                assert(old(self).accepted().count(t) == old(self).resolved().count(t)
                    + tokens_of(p).to_multiset().count(t));
                assert(self.resolved().count(t) == old(self).resolved().count(t) + tokens_of(
                    p,
                ).to_multiset().count(t));
                assert(!tokens_of(self.ledger()).contains(t));
            }
        }
        Effect::Fail { tokens, error }
    }

    /// Handle one event; never called once terminated. A freshly accepted
    /// submission must carry a token never accepted before — each caller
    /// allocates a fresh one-shot reply channel per request — and the id
    /// counter must not be exhausted (a connection never lives long
    /// enough to issue 2^64 ids).
    pub fn step(&mut self, event: Event) -> (eff: Effect)
        requires
            old(self).wf(),
            !old(self).is_terminated(),
            event matches Event::Accept(s) ==> old(self).next_correlation_id() < u64::MAX && old(
                self,
            ).accepted().count(s.token) == 0,
        ensures
            final(self).wf(),
            (event matches Event::Frame(frame) ==> match dec_response(frame@) {
                None => fails_all(*old(self), *final(self), eff, Error::Decode),
                Some(v) => if has_id(old(self).ledger(), v.request_id) {
                    delivers(*old(self), v, *final(self), eff)
                } else {
                    ignores(*old(self), *final(self), eff)
                },
            }),
            event == Event::ReadFailed ==> fails_all(
                *old(self),
                *final(self),
                eff,
                Error::Socket,
            ),
            event == Event::WriteFailed ==> fails_all(
                *old(self),
                *final(self),
                eff,
                Error::Socket,
            ),
            event matches Event::Accept(s) ==> sends(*old(self), s@, *final(self), eff),
            event == Event::IntakeClosed ==> stops(*old(self), *final(self), eff),
    {
        broadcast use vstd::seq_lib::group_to_multiset_ensures;
        broadcast use vstd::multiset::group_multiset_axioms;

        match event {
            Event::Frame(frame) => {
                match decode_response(&frame) {
                    None => self.fail_all(Error::Decode),
                    Some(response) => {
                        let ghost p = self.pending@;
                        let id = response.request_id;
                        match self.pending.take(id) {
                            None => Effect::Ignore,
                            Some(token) => {
                                proof {
                                    let i = idx_of(p, id);
                                    self.resolved@ = self.resolved@.insert(token);
                                    lemma_sorted_ids_unique(p);
                                    assert(tokens_of(p)[i] == token);
                                    assert(tokens_of(p).contains(token));
                                    assert forall|k: int|
                                        0 <= k < self.ledger().len() implies (
                                    #[trigger] self.ledger()[k]).id < self.next_correlation_id() by {
                                        if k < i {
                                            assert(self.ledger()[k] == p[k]);
                                        } else {
                                            assert(self.ledger()[k] == p[k + 1]);
                                        }
                                    }
                                    assert(tokens_of(self.ledger()) =~= tokens_of(p).remove(i));
                                    assert(tokens_of(p).remove(i).to_multiset() =~= tokens_of(
                                        p,
                                    ).to_multiset().remove(token));
                                    assert forall|t: u64| #[trigger] self.accepted().count(t)
                                        == self.resolved().count(t) + tokens_of(
                                        self.ledger(),
                                    ).to_multiset().count(t) by {
                                        assert(old(self).accepted().count(t) == old(
                                            self,
                                        ).resolved().count(t) + tokens_of(p).to_multiset().count(
                                            t,
                                        ));
                                        if t == token {
                                            assert(tokens_of(p).to_multiset().count(token) > 0);
                                        }
                                    }
                                }
                                Effect::Deliver { token, response }
                            },
                        }
                    },
                }
            },
            Event::ReadFailed => self.fail_all(Error::Socket),
            Event::WriteFailed => self.fail_all(Error::Socket),
            Event::IntakeClosed => {
                let ghost p = self.pending@;
                let tokens = self.pending.drain();
                self.terminated = true;
                proof {
                    self.resolved@ = self.resolved@.add(tokens_of(p).to_multiset());
                    assert(tokens_of(self.ledger()) =~= Seq::<u64>::empty());
                    assert forall|t: u64| #[trigger] self.accepted().count(t)
                        == self.resolved().count(t) + tokens_of(
                        self.ledger(),
                    ).to_multiset().count(t) by {
                        assert(old(self).accepted().count(t) == old(self).resolved().count(t)
                            + tokens_of(p).to_multiset().count(t));
                        assert(self.resolved().count(t) == old(self).resolved().count(t)
                            + tokens_of(p).to_multiset().count(t));
                        assert(!tokens_of(self.ledger()).contains(t));
                    }
                }
                Effect::Stop { tokens }
            },
            Event::Accept(s) => {
                let ghost p = self.pending@;
                let id = self.next_id;
                self.next_id = self.next_id + 1;
                let mut request = s.request;
                request.request_id = id;
                let cmd = PendingCommand { id, token: s.token };
                self.pending.push_tail(cmd);
                let frame = encode_request(&request);
                proof {
                    self.issued@ = self.issued@.push(id);
                    self.accepted@ = self.accepted@.insert(s.token);
                    assert(tokens_of(self.ledger()) =~= tokens_of(p).push(s.token));
                    assert(tokens_of(p).push(s.token).to_multiset() =~= tokens_of(
                        p,
                    ).to_multiset().insert(s.token));
                    assert forall|i: int, j: int|
                        0 <= i < j < self.issued().len() implies self.issued()[i]
                        < self.issued()[j] by {
                        assert(old(self).issued()[i] < old(self).next_correlation_id());
                        if j < old(self).issued().len() {
                            assert(old(self).issued()[j] == self.issued()[j]);
                        }
                    }
                    assert forall|t: u64| #[trigger] self.accepted().count(t)
                        == self.resolved().count(t) + tokens_of(
                        self.ledger(),
                    ).to_multiset().count(t) by {
                        assert(old(self).accepted().count(t) == old(self).resolved().count(t)
                            + tokens_of(p).to_multiset().count(t));
                    }
                    assert forall|t: u64| #[trigger] self.accepted().count(t) <= 1 by {
                        assert(old(self).accepted().count(t) <= 1);
                    }
                }
                Effect::Send { frame }
            },
        }
    }
}

/// The token recorded for the pending entry that carries `v`'s id.
pub open spec fn matched_token(pre: ConnectionActor, v: SocketResponseView) -> u64 {
    pre.ledger()[idx_of(pre.ledger(), v.request_id)].token
}

/// A decoded reply matched a pending request: that one entry left the
/// ledger, its token was resolved with exactly this response, and nothing
/// else moved.
pub open spec fn delivers(
    pre: ConnectionActor,
    v: SocketResponseView,
    post: ConnectionActor,
    eff: Effect,
) -> bool {
    &&& (eff matches Effect::Deliver { token, response } && token == matched_token(pre, v)
        && response@ == v)
    &&& post.ledger() == pre.ledger().remove(idx_of(pre.ledger(), v.request_id))
    &&& !post.is_terminated()
    &&& post.next_correlation_id() == pre.next_correlation_id()
    &&& post.issued() == pre.issued()
    &&& post.accepted() == pre.accepted()
    &&& post.resolved() == pre.resolved().insert(matched_token(pre, v))
}

/// A reply that matched nothing was discarded and the actor is exactly
/// as it was.
pub open spec fn ignores(pre: ConnectionActor, post: ConnectionActor, eff: Effect) -> bool {
    &&& eff is Ignore
    &&& post.ledger() == pre.ledger()
    &&& post.next_correlation_id() == pre.next_correlation_id()
    &&& post.is_terminated() == pre.is_terminated()
    &&& post.issued() == pre.issued()
    &&& post.accepted() == pre.accepted()
    &&& post.resolved() == pre.resolved()
}

/// A terminal failure: one broadcast resolves every pending token with
/// the one shared error, the ledger empties, and the actor is
/// terminated.
pub open spec fn fails_all(
    pre: ConnectionActor,
    post: ConnectionActor,
    eff: Effect,
    err: Error,
) -> bool {
    &&& (eff matches Effect::Fail { tokens, error } && tokens@ == tokens_of(pre.ledger())
        && error == err)
    &&& post.is_terminated()
    &&& post.ledger() == Seq::<PendingCommand>::empty()
    &&& post.next_correlation_id() == pre.next_correlation_id()
    &&& post.issued() == pre.issued()
    &&& post.accepted() == pre.accepted()
    &&& post.resolved() == pre.resolved().add(tokens_of(pre.ledger()).to_multiset())
}

/// Graceful shutdown: as the reply channels are dropped, every pending
/// token resolves `Cancelled`; the actor is terminated.
pub open spec fn stops(pre: ConnectionActor, post: ConnectionActor, eff: Effect) -> bool {
    &&& (eff matches Effect::Stop { tokens } && tokens@ == tokens_of(pre.ledger()))
    &&& post.is_terminated()
    &&& post.ledger() == Seq::<PendingCommand>::empty()
    &&& post.next_correlation_id() == pre.next_correlation_id()
    &&& post.issued() == pre.issued()
    &&& post.accepted() == pre.accepted()
    &&& post.resolved() == pre.resolved().add(tokens_of(pre.ledger()).to_multiset())
}

/// An accepted submission took the next correlation id, entered the
/// ledger at the tail, and left as a frame encoding the request under
/// that id; the id counter advanced by one.
pub open spec fn sends(
    pre: ConnectionActor,
    s: SubmissionView,
    post: ConnectionActor,
    eff: Effect,
) -> bool {
    &&& (eff matches Effect::Send { frame } && frame@ == enc_request(
        SocketRequestView { request_id: pre.next_correlation_id(), kind: s.request.kind },
    ))
    &&& post.next_correlation_id() == pre.next_correlation_id() + 1
    &&& post.ledger() == pre.ledger().push(
        PendingCommand { id: pre.next_correlation_id(), token: s.token },
    )
    &&& !post.is_terminated()
    &&& post.issued() == pre.issued().push(pre.next_correlation_id())
    &&& post.accepted() == pre.accepted().insert(s.token)
    &&& post.resolved() == pre.resolved()
}

/// Correlation ids issued by one actor instance are strictly increasing
/// over its lifetime, hence pairwise distinct; the ids still pending are
/// likewise strictly ascending and below the next id to be issued.
pub proof fn lemma_correlation_ids_strictly_increasing(a: ConnectionActor)
    requires
        a.wf(),
    ensures
        forall|i: int, j: int| 0 <= i < j < a.issued().len() ==> a.issued()[i] < a.issued()[j],
        forall|i: int, j: int|
            0 <= i < a.issued().len() && 0 <= j < a.issued().len() && i != j ==> a.issued()[i]
                != a.issued()[j],
        forall|i: int, j: int|
            0 <= i < j < a.ledger().len() ==> a.ledger()[i].id < a.ledger()[j].id,
        forall|i: int|
            0 <= i < a.ledger().len() ==> #[trigger] a.ledger()[i].id < a.next_correlation_id(),
{
    lemma_sorted_ids_unique(a.ledger());
    assert forall|i: int, j: int|
        0 <= i < a.issued().len() && 0 <= j < a.issued().len() && i != j implies a.issued()[i]
        != a.issued()[j] by {
        if i < j {
            assert(a.issued()[i] < a.issued()[j]);
        } else {
            assert(a.issued()[j] < a.issued()[i]);
        }
    }
}

/// Once the actor has terminated, the resolved tokens are exactly the
/// accepted tokens, each exactly once: every submitted request resolved,
/// none twice, none silently dropped.
pub proof fn lemma_each_request_resolves_exactly_once(a: ConnectionActor)
    requires
        a.wf(),
        a.is_terminated(),
    ensures
        forall|t: u64| #[trigger] a.resolved().count(t) == a.accepted().count(t),
        forall|t: u64| #[trigger] a.resolved().count(t) <= 1,
{
    broadcast use vstd::seq_lib::group_to_multiset_ensures;
    broadcast use vstd::multiset::group_multiset_axioms;

    assert(tokens_of(a.ledger()) =~= Seq::<u64>::empty());
    assert forall|t: u64| #[trigger] a.resolved().count(t) == a.accepted().count(t) by {
        assert(!tokens_of(a.ledger()).contains(t));
        assert(a.accepted().count(t) == a.resolved().count(t) + tokens_of(
            a.ledger(),
        ).to_multiset().count(t));
    }
}

/// Once a reply with some id has been matched and its entry removed, no
/// entry with that id remains: a duplicate reply can only be ignored.
pub proof fn lemma_no_double_delivery(a: ConnectionActor, id: u64)
    requires
        a.wf(),
        has_id(a.ledger(), id),
    ensures
        !has_id(a.ledger().remove(idx_of(a.ledger(), id)), id),
{
    let p = a.ledger();
    let i = idx_of(p, id);
    lemma_sorted_ids_unique(p);
    assert forall|k: int| 0 <= k < p.remove(i).len() implies (#[trigger] p.remove(i)[k]).id
        != id by {
        if k < i {
            assert(p.remove(i)[k] == p[k]);
        } else {
            assert(p.remove(i)[k] == p[k + 1]);
        }
    }
}

} // verus!
