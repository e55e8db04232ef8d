//! Results of remote calls: a call may fail with an [`RpcError`], or
//! succeed with or without a value.
use vstd::prelude::*;

verus! {

/// The outcome of a remote call: an error, or a value that may be absent.
pub type RpcResult<T, E = RpcError> = Result<Option<T>, E>;

/// Why a remote call failed.
#[derive(Debug)]
pub enum RpcError {
    ConnectionError,
    TimeoutError,
    DataError,
}

impl Default for RpcError {
    /// The default error is [`RpcError::DataError`].
    fn default() -> (e: Self)
        ensures
            e == RpcError::DataError,
    {
        RpcError::DataError
    }
}

/// The error that [`RpcError::default`] produces is a data error.
pub proof fn law_rpc_error_default(e: RpcError)
    requires
        call_ensures(RpcError::default, (), e),
    ensures
        e == RpcError::DataError,
{
}

} // verus!
