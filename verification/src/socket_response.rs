//! Payload types nested in a response envelope.

use vstd::prelude::*;

use crate::cache_response;

verus! {

/// A cache response: the successful payload of a response envelope.
#[derive(Clone, Debug, PartialEq)]
pub struct CacheResponse {
    pub kind: Option<cache_response::Kind>,
}

/// Mathematical model of a [`CacheResponse`].
#[verifier::ext_equal]
pub ghost struct CacheResponseView {
    pub kind: Option<cache_response::KindView>,
}

impl View for CacheResponse {
    type V = CacheResponseView;

    open spec fn view(&self) -> CacheResponseView {
        CacheResponseView {
            kind: match self.kind {
                Some(k) => Some(k@),
                None => None,
            },
        }
    }
}

/// An application-level error status reported by the peer: a numeric code
/// and a developer-facing message. The core delivers it to the caller
/// unchanged; interpreting the code is a caller concern.
#[derive(Clone, Debug, PartialEq)]
pub struct Status {
    pub code: i32,
    pub message: String,
}

/// Mathematical model of a [`Status`].
#[verifier::ext_equal]
pub ghost struct StatusView {
    pub code: i32,
    pub message: Seq<char>,
}

impl View for Status {
    type V = StatusView;

    open spec fn view(&self) -> StatusView {
        StatusView { code: self.code, message: self.message@ }
    }
}

/// The payload alternatives of a response envelope: an error status or a
/// cache result.
#[derive(Clone, Debug, PartialEq)]
pub enum Kind {
    Error(Status),
    Cache(CacheResponse),
}

/// Mathematical model of a response envelope payload.
pub ghost enum KindView {
    Error(StatusView),
    Cache(CacheResponseView),
}

impl View for Kind {
    type V = KindView;

    open spec fn view(&self) -> KindView {
        match self {
            Kind::Error(s) => KindView::Error(s@),
            Kind::Cache(c) => KindView::Cache(c@),
        }
    }
}

} // verus!
