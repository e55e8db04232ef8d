//! A two-level outcome: either the result of a remote call or an error.
use vstd::prelude::*;
use crate::rpc::{RpcError, RpcResult};

verus! {

/// Either the result of a remote call, or an error of its own.
pub enum MyEnum<T, E = RpcError> {
    /// The call was made; this is its result.
    Response(RpcResult<T, E>),
    /// The call could not be made.
    Failure(E),
}

impl<T, E: Default> MyEnum<T, E> {
    /// Collapses the outcome into a plain `Result`: a present value is `Ok`,
    /// an absent value becomes the default error, and every error is kept.
    pub fn flatten(self) -> (res: Result<T, E>)
        ensures
            match self {
                MyEnum::Response(Ok(Some(v))) => res == Ok::<T, E>(v),
                MyEnum::Response(Ok(None)) => res matches Err(e) && call_ensures(E::default, (), e),
                MyEnum::Response(Err(e)) => res == Err::<T, E>(e),
                MyEnum::Failure(e) => res == Err::<T, E>(e),
            },
    {
        match self {
            MyEnum::Response(Ok(Some(value))) => Ok(value),
            MyEnum::Response(Ok(None)) => Err(Default::default()),
            MyEnum::Response(Err(e)) => Err(e),
            MyEnum::Failure(e) => Err(e),
        }
    }
}

} // verus!
