//! A result that carries the name of the strategy to apply to it.

use vstd::prelude::*;

verus! {

/// Result wrapper that carries strategy information.
///
/// It wraps a standard `Result<T, E>` along with the name of the error
/// handling strategy that should be applied to it, so that a pipeline can
/// apply different strategies depending on the function that produced it.
#[derive(Debug, PartialEq)]
pub struct PipexResult<T, E> {
    /// The actual result value
    pub result: Result<T, E>,
    /// The name of the error handling strategy to apply
    pub strategy_name: &'static str,
}

impl<T: Clone, E: Clone> Clone for PipexResult<T, E> {
    fn clone(&self) -> (r: Self)
        ensures
            r.strategy_name == self.strategy_name,
            self.result matches Ok(v) ==> r.result matches Ok(w) && cloned(v, w),
            self.result matches Err(e) ==> r.result matches Err(w) && cloned(e, w),
    {
        let result = match &self.result {
            Ok(v) => Ok(v.clone()),
            Err(e) => Err(e.clone()),
        };
        PipexResult { result, strategy_name: self.strategy_name }
    }
}

impl<T, E> PipexResult<T, E> {
    /// Create a new PipexResult with the given result and strategy name
    pub fn new(result: Result<T, E>, strategy_name: &'static str) -> (r: Self)
        ensures
            r.result == result,
            r.strategy_name == strategy_name,
    {
        Self { result, strategy_name }
    }

    /// Get a reference to the inner result
    pub fn as_result(&self) -> (r: &Result<T, E>)
        ensures
            *r == self.result,
    {
        &self.result
    }

    /// Convert into the inner result, discarding strategy information
    pub fn into_result(self) -> (r: Result<T, E>)
        ensures
            r == self.result,
    {
        self.result
    }

    /// Check if the result is Ok
    pub fn is_ok(&self) -> (b: bool)
        ensures
            b == (self.result is Ok),
    {
        self.result.is_ok()
    }

    /// Check if the result is Err
    pub fn is_err(&self) -> (b: bool)
        ensures
            b == (self.result is Err),
    {
        self.result.is_err()
    }
}

} // verus!
