//! Building the two cache operations and interpreting their results.
//!
//! These are the pure halves of the workload-level get and set commands:
//! turning a key (and value and expiry) into a request envelope before it
//! is submitted, and reading the caller-level outcome out of the response
//! envelope that comes back. Sending, timing out and counting stay with
//! the caller.

use vstd::prelude::*;

use crate::cache_request;
use crate::cache_response;
use crate::get_response;
use crate::socket_request::{self, CacheRequest, CacheRequestView};
use crate::socket_response;
use crate::websocket::{
    Get, GetView, SetOp, SetOpView, SocketRequest, SocketRequestView, SocketResponse,
    SocketResponseView,
};

verus! {

/// The expiry a set is given when the workload names none.
pub const DEFAULT_TTL_MILLISECONDS: u64 = 60000;

/// The caller-level outcome of a get: the stored bytes, a clean miss, or
/// anything else — an error status, a missing payload, or a result of
/// the wrong operation — which the caller records as an exception.
#[derive(Clone, Debug, PartialEq)]
pub enum GetOutcome {
    Hit(Vec<u8>),
    Miss,
    Exception,
}

/// Mathematical model of a [`GetOutcome`].
pub ghost enum GetOutcomeView {
    Hit(Seq<u8>),
    Miss,
    Exception,
}

impl View for GetOutcome {
    type V = GetOutcomeView;

    open spec fn view(&self) -> GetOutcomeView {
        match self {
            GetOutcome::Hit(b) => GetOutcomeView::Hit(b@),
            GetOutcome::Miss => GetOutcomeView::Miss,
            GetOutcome::Exception => GetOutcomeView::Exception,
        }
    }
}

/// The caller-level outcome of a set: stored, or anything else.
#[derive(Clone, Copy, Debug, PartialEq, Eq, Structural)]
pub enum SetOutcome {
    Stored,
    Exception,
}

/// What a get resolves to, given the response envelope it was answered
/// with.
pub open spec fn get_outcome_of(v: SocketResponseView) -> GetOutcomeView {
    match v.kind {
        Some(socket_response::KindView::Cache(c)) => match c.kind {
            Some(cache_response::KindView::Get(g)) => match g.kind {
                Some(get_response::KindView::Hit(b)) => GetOutcomeView::Hit(b),
                Some(get_response::KindView::Miss(_)) => GetOutcomeView::Miss,
                None => GetOutcomeView::Exception,
            },
            _ => GetOutcomeView::Exception,
        },
        _ => GetOutcomeView::Exception,
    }
}

/// What a set resolves to, given the response envelope it was answered
/// with.
pub open spec fn set_outcome_of(v: SocketResponseView) -> SetOutcome {
    match v.kind {
        Some(socket_response::KindView::Cache(c)) => match c.kind {
            Some(cache_response::KindView::SetOp(_)) => SetOutcome::Stored,
            _ => SetOutcome::Exception,
        },
        _ => SetOutcome::Exception,
    }
}

/// The request envelope for a get of `cache_key`. The correlation id is
/// left at zero; the actor assigns the real one when it accepts the
/// submission.
pub fn build_get_request(cache_key: Vec<u8>) -> (r: SocketRequest)
    ensures
        r@ == (SocketRequestView {
            request_id: 0,
            kind: Some(
                socket_request::KindView::Cache(
                    CacheRequestView {
                        kind: Some(cache_request::KindView::Get(GetView { cache_key: cache_key@ })),
                    },
                ),
            ),
        }),
{
    SocketRequest {
        request_id: 0,
        kind: Some(
            socket_request::Kind::Cache(
                CacheRequest { kind: Some(cache_request::Kind::Get(Get { cache_key })) },
            ),
        ),
    }
}

/// The request envelope for a set of `cache_body` under `cache_key` with
/// expiry `ttl_milliseconds`. The correlation id is left at zero; the
/// actor assigns the real one.
pub fn build_set_request(cache_key: Vec<u8>, cache_body: Vec<u8>, ttl_milliseconds: u64) -> (r:
    SocketRequest)
    ensures
        r@ == (SocketRequestView {
            request_id: 0,
            kind: Some(
                socket_request::KindView::Cache(
                    CacheRequestView {
                        kind: Some(
                            cache_request::KindView::SetOp(
                                SetOpView {
                                    cache_key: cache_key@,
                                    cache_body: cache_body@,
                                    ttl_milliseconds,
                                },
                            ),
                        ),
                    },
                ),
            ),
        }),
{
    SocketRequest {
        request_id: 0,
        kind: Some(
            socket_request::Kind::Cache(
                CacheRequest {
                    kind: Some(
                        cache_request::Kind::SetOp(
                            SetOp { cache_key, cache_body, ttl_milliseconds },
                        ),
                    ),
                },
            ),
        ),
    }
}

/// Read a get's outcome out of the response envelope it resolved to.
pub fn classify_get_response(r: SocketResponse) -> (o: GetOutcome)
    ensures
        o@ == get_outcome_of(r@),
{
    match r.kind {
        Some(socket_response::Kind::Cache(c)) => match c.kind {
            Some(cache_response::Kind::Get(g)) => match g.kind {
                Some(get_response::Kind::Hit(b)) => GetOutcome::Hit(b),
                Some(get_response::Kind::Miss(_)) => GetOutcome::Miss,
                None => GetOutcome::Exception,
            },
            _ => GetOutcome::Exception,
        },
        _ => GetOutcome::Exception,
    }
}

/// Read a set's outcome out of the response envelope it resolved to.
pub fn classify_set_response(r: &SocketResponse) -> (o: SetOutcome)
    ensures
        o == set_outcome_of(r@),
{
    match &r.kind {
        Some(socket_response::Kind::Cache(c)) => match &c.kind {
            Some(cache_response::Kind::SetOp(_)) => SetOutcome::Stored,
            _ => SetOutcome::Exception,
        },
        _ => SetOutcome::Exception,
    }
}

} // verus!
