//! The error that decoding reports.
use vstd::prelude::*;

verus! {

/// What went wrong while handling an RPC message.
#[derive(Debug, PartialEq, Eq)]
pub enum RpcError {
    /// A message could not be read; the text says why.
    InternalError(String),
}

/// `e` is an internal error whose text is `msg`.
pub open spec fn is_internal_error(e: RpcError, msg: Seq<char>) -> bool {
    e matches RpcError::InternalError(text) && text@ == msg
}

/// The error a decoder reports when the buffer ends too early.
pub open spec fn is_insufficient_bytes(e: RpcError) -> bool {
    is_internal_error(e, "Insufficient bytes"@)
}

/// Builds an internal error with the given text.
pub fn internal_error(msg: &str) -> (e: RpcError)
    ensures
        is_internal_error(e, msg@),
{
    RpcError::InternalError(msg.to_owned())
}

/// The error a decoder reports when the buffer ends too early.
pub fn insufficient_bytes() -> (e: RpcError)
    ensures
        is_insufficient_bytes(e),
{
    let msg = "Insufficient bytes";
    internal_error(msg)
}

} // verus!
