//! The wire envelope schema: one frame carries exactly one envelope.
//!
//! The request envelope carries a correlation id (`request_id`) and a cache
//! operation; the response envelope echoes the id and carries either a cache
//! result or an error status. The core correlates the two through the id
//! alone and treats the operation payloads opaquely.

use vstd::prelude::*;

use crate::get_response;
use crate::socket_request;
use crate::socket_response;

verus! {

/// A request envelope, sent to the peer as one binary frame.
#[derive(Clone, Debug, PartialEq)]
pub struct SocketRequest {
    /// Local to the socket: the actor assigns these starting at 0,
    /// incrementing one by one.
    pub request_id: u64,
    pub kind: Option<socket_request::Kind>,
}

/// Mathematical model of a [`SocketRequest`].
#[verifier::ext_equal]
pub ghost struct SocketRequestView {
    pub request_id: u64,
    pub kind: Option<socket_request::KindView>,
}

impl View for SocketRequest {
    type V = SocketRequestView;

    open spec fn view(&self) -> SocketRequestView {
        SocketRequestView {
            request_id: self.request_id,
            kind: match self.kind {
                Some(k) => Some(k@),
                None => None,
            },
        }
    }
}

/// A response envelope, received from the peer as one binary frame.
#[derive(Clone, Debug, PartialEq)]
pub struct SocketResponse {
    /// Echo of the correlation id of the request this answers.
    pub request_id: u64,
    pub kind: Option<socket_response::Kind>,
}

/// Mathematical model of a [`SocketResponse`].
#[verifier::ext_equal]
pub ghost struct SocketResponseView {
    pub request_id: u64,
    pub kind: Option<socket_response::KindView>,
}

impl View for SocketResponse {
    type V = SocketResponseView;

    open spec fn view(&self) -> SocketResponseView {
        SocketResponseView {
            request_id: self.request_id,
            kind: match self.kind {
                Some(k) => Some(k@),
                None => None,
            },
        }
    }
}

/// A get operation: look one key up.
#[derive(Clone, Debug, PartialEq)]
pub struct Get {
    pub cache_key: Vec<u8>,
}

/// Mathematical model of a [`Get`].
#[verifier::ext_equal]
pub ghost struct GetView {
    pub cache_key: Seq<u8>,
}

impl View for Get {
    type V = GetView;

    open spec fn view(&self) -> GetView {
        GetView { cache_key: self.cache_key@ }
    }
}

/// A set operation: store one value under a key with a time to live.
#[derive(Clone, Debug, PartialEq)]
pub struct SetOp {
    pub cache_key: Vec<u8>,
    pub cache_body: Vec<u8>,
    pub ttl_milliseconds: u64,
}

/// Mathematical model of a [`SetOp`].
#[verifier::ext_equal]
pub ghost struct SetOpView {
    pub cache_key: Seq<u8>,
    pub cache_body: Seq<u8>,
    pub ttl_milliseconds: u64,
}

impl View for SetOp {
    type V = SetOpView;

    open spec fn view(&self) -> SetOpView {
        SetOpView {
            cache_key: self.cache_key@,
            cache_body: self.cache_body@,
            ttl_milliseconds: self.ttl_milliseconds,
        }
    }
}

/// The result of a get operation: a hit with the stored bytes, or a miss.
#[derive(Clone, Debug, PartialEq)]
pub struct GetResponse {
    pub kind: Option<get_response::Kind>,
}

/// Mathematical model of a [`GetResponse`].
#[verifier::ext_equal]
pub ghost struct GetResponseView {
    pub kind: Option<get_response::KindView>,
}

impl View for GetResponse {
    type V = GetResponseView;

    open spec fn view(&self) -> GetResponseView {
        GetResponseView {
            kind: match self.kind {
                Some(k) => Some(k@),
                None => None,
            },
        }
    }
}

/// The result of a set operation: the value was stored.
#[derive(Clone, Debug, PartialEq)]
pub struct SetResponse {}

/// Mathematical model of a [`SetResponse`].
#[verifier::ext_equal]
pub ghost struct SetResponseView {}

impl View for SetResponse {
    type V = SetResponseView;

    open spec fn view(&self) -> SetResponseView {
        SetResponseView {}
    }
}

} // verus!
