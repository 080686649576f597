//! The error taxonomy of the core.

use vstd::prelude::*;

verus! {

/// Every terminal outcome a submitted request can see besides a response.
///
/// `Socket` and `Decode` are connection-fatal: the actor broadcasts one such
/// value to every pending request and terminates. `Full` and `Closed` reject
/// a single submission and leave the connection untouched. `Cancelled` means
/// the actor went away without answering this one request.
#[derive(Clone, Copy, Debug, PartialEq, Eq, Structural)]
pub enum Error {
    /// The transport failed or reached end-of-stream.
    Socket,
    /// A response frame did not decode: fatal protocol corruption.
    Decode,
    /// The actor's receiving end is gone; the submission was not accepted.
    Closed,
    /// The bounded intake queue is saturated; the submission was not accepted.
    Full,
    /// The reply channel was dropped without an answer.
    Cancelled,
}

} // verus!
