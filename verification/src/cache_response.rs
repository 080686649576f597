//! The result alternatives of a cache response.

use vstd::prelude::*;

use crate::websocket::{GetResponse, GetResponseView, SetResponse, SetResponseView};

verus! {

/// The result carried by a cache response: a get result or a set result.
#[derive(Clone, Debug, PartialEq)]
pub enum Kind {
    Get(GetResponse),
    SetOp(SetResponse),
}

/// Mathematical model of a cache response result.
pub ghost enum KindView {
    Get(GetResponseView),
    SetOp(SetResponseView),
}

impl View for Kind {
    type V = KindView;

    open spec fn view(&self) -> KindView {
        match self {
            Kind::Get(g) => KindView::Get(g@),
            Kind::SetOp(s) => KindView::SetOp(s@),
        }
    }
}

} // verus!
