//! The operation alternatives of a cache request.

use vstd::prelude::*;

use crate::websocket::{Get, GetView, SetOp, SetOpView};

verus! {

/// The operation carried by a cache request: a get or a set.
#[derive(Clone, Debug, PartialEq)]
pub enum Kind {
    Get(Get),
    SetOp(SetOp),
}

/// Mathematical model of a cache request operation.
pub ghost enum KindView {
    Get(GetView),
    SetOp(SetOpView),
}

impl View for Kind {
    type V = KindView;

    open spec fn view(&self) -> KindView {
        match self {
            Kind::Get(g) => KindView::Get(g@),
            Kind::SetOp(s) => KindView::SetOp(s@),
        }
    }
}

} // verus!
