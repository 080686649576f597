//! Payload types nested in a request envelope.

use vstd::prelude::*;

use crate::cache_request;

verus! {

/// A cache request: the one payload a request envelope can carry.
#[derive(Clone, Debug, PartialEq)]
pub struct CacheRequest {
    pub kind: Option<cache_request::Kind>,
}

/// Mathematical model of a [`CacheRequest`].
#[verifier::ext_equal]
pub ghost struct CacheRequestView {
    pub kind: Option<cache_request::KindView>,
}

impl View for CacheRequest {
    type V = CacheRequestView;

    open spec fn view(&self) -> CacheRequestView {
        CacheRequestView {
            kind: match self.kind {
                Some(k) => Some(k@),
                None => None,
            },
        }
    }
}

/// The payload alternatives of a request envelope.
#[derive(Clone, Debug, PartialEq)]
pub enum Kind {
    Cache(CacheRequest),
}

/// Mathematical model of a request envelope payload.
pub ghost enum KindView {
    Cache(CacheRequestView),
}

impl View for Kind {
    type V = KindView;

    open spec fn view(&self) -> KindView {
        match self {
            Kind::Cache(c) => KindView::Cache(c@),
        }
    }
}

} // verus!
