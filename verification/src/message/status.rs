//! The status a response reports.
use vstd::prelude::*;

verus! {

/// The outcome a response reports for its request.
#[derive(Debug, Clone, Copy, PartialEq, Eq)]
pub enum StatusCode {
    /// The request was served.
    Success,
    /// The requested block is not there.
    NotFound,
    /// The server failed while serving the request.
    InternalError,
    /// The request's version does not match the server's.
    VersionMismatch,
}

impl StatusCode {
    /// The byte that stands for the status on the wire.
    pub open spec fn code(self) -> u8 {
        match self {
            StatusCode::Success => 0,
            StatusCode::NotFound => 1,
            StatusCode::InternalError => 2,
            StatusCode::VersionMismatch => 3,
        }
    }

    /// The status a wire byte stands for, if any.
    pub open spec fn from_code(code: u8) -> Option<StatusCode> {
        if code == 0 {
            Some(StatusCode::Success)
        } else if code == 1 {
            Some(StatusCode::NotFound)
        } else if code == 2 {
            Some(StatusCode::InternalError)
        } else if code == 3 {
            Some(StatusCode::VersionMismatch)
        } else {
            None
        }
    }
}

/// Every status is read back from its own wire byte, and no two statuses
/// share a byte.
pub proof fn lemma_status_code_round_trip(s: StatusCode)
    ensures
        StatusCode::from_code(s.code()) == Some(s),
{
}

} // verus!
