//! Everything that can go wrong between receiving a request and committing
//! the response head. Each of these is recovered locally into a `400` or
//! `500` response; none of them aborts the process.

use vstd::prelude::*;

verus! {

/// Failure modes of one gateway round trip.
#[derive(Clone, Copy, Debug, PartialEq, Eq, Structural)]
pub enum GatewayError {
    /// The request target is not a recognizable absolute-path form.
    MalformedRequest,
    /// The application raised during the invocation.
    ApplicationInvocation,
    /// The value the application returned is not a chunk sequence.
    ApplicationResult,
    /// The captured status line is empty or its leading token does not
    /// parse as an integer status code.
    StatusParse,
}

} // verus!
