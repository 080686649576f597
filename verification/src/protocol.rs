//! The protocols a benchmark run can target.

use vstd::prelude::*;

verus! {

/// Which wire protocol a client speaks.
#[derive(Clone, Copy, Debug, PartialEq, Eq, Structural)]
pub enum Protocol {
    Blabber,
    Http1,
    Http2,
    Memcache,
    Momento,
    MomentoWs,
    Ping,
    Resp,
    Kafka,
}

} // verus!
