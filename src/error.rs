//! The error taxonomy of the signaling path.
use vstd::prelude::*;

verus! {

/// Why a create or join request was refused.
#[derive(Debug, Clone, Copy, PartialEq, Eq, Structural)]
pub enum ApiError {
    /// The client identifier in the request is malformed.
    BadRequest,
    /// The referenced room does not exist.
    NotFound,
    /// The room-id counter is exhausted, the client is bound to a different
    /// room, or the target room already has a guest.
    Conflict,
    /// Any unexpected failure, reported without detail.
    Internal,
}

} // verus!
