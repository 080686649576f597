//! The alternatives of a get result.

use vstd::prelude::*;

verus! {

/// The outcome of a get: the stored bytes, or a miss.
#[derive(Clone, Debug, PartialEq)]
pub enum Kind {
    Hit(Vec<u8>),
    Miss(bool),
}

/// Mathematical model of a get outcome.
pub ghost enum KindView {
    Hit(Seq<u8>),
    Miss(bool),
}

impl View for Kind {
    type V = KindView;

    open spec fn view(&self) -> KindView {
        match self {
            Kind::Hit(v) => KindView::Hit(v@),
            Kind::Miss(m) => KindView::Miss(*m),
        }
    }
}

} // verus!
