//! Core traits for pipeline functionality over fixed-size batches of
//! results.

use vstd::prelude::*;
use crate::result::PipexResult;

verus! {

/// `v` is a value that `T::default()` returns.
pub open spec fn is_default<T: Default>(v: T) -> bool {
    call_ensures(T::default, (), v)
}

/// The success values among `rs`, in order.
pub open spec fn ok_values<T, E>(rs: Seq<Result<T, E>>) -> Seq<T>
    decreases rs.len(),
{
    if rs.len() == 0 {
        Seq::empty()
    } else {
        let before = ok_values(rs.drop_last());
        match rs.last() {
            Ok(v) => before.push(v),
            Err(_) => before,
        }
    }
}

/// The first error among `rs`, if there is one.
pub open spec fn first_error<T, E>(rs: Seq<Result<T, E>>) -> Option<E>
    decreases rs.len(),
{
    if rs.len() == 0 {
        None
    } else {
        match rs[0] {
            Err(e) => Some(e),
            Ok(_) => first_error(rs.drop_first()),
        }
    }
}

/// The success values are the successful results, in their order, with
/// their values taken out: nothing is dropped, repeated or reordered.
pub proof fn law_ok_values_are_the_successes<T, E>(rs: Seq<Result<T, E>>)
    ensures
        ok_values(rs) == rs.filter(|r: Result<T, E>| r is Ok).map_values(|r: Result<T, E>| r->Ok_0),
        ok_values(rs).len() == rs.filter(|r: Result<T, E>| r is Ok).len(),
    decreases rs.len(),
{
    reveal(Seq::filter);
    if rs.len() > 0 {
        law_ok_values_are_the_successes(rs.drop_last());
        let before = rs.drop_last().filter(|r: Result<T, E>| r is Ok);
        if rs.last() is Ok {
            assert(rs.filter(|r: Result<T, E>| r is Ok) == before.push(rs.last()));
            assert(rs.filter(|r: Result<T, E>| r is Ok).map_values(|r: Result<T, E>| r->Ok_0)
                =~= before.map_values(|r: Result<T, E>| r->Ok_0).push(rs.last()->Ok_0));
        } else {
            assert(rs.filter(|r: Result<T, E>| r is Ok) == before);
        }
    }
}

/// The first error is the error of the earliest failing result: when
/// `rs[k]` is an error and every result before it succeeded, the first
/// error is the one that `rs[k]` holds.
pub proof fn law_first_error_is_earliest<T, E>(rs: Seq<Result<T, E>>, k: int)
    requires
        0 <= k < rs.len(),
        rs[k] is Err,
        forall|i: int| 0 <= i < k ==> (#[trigger] rs[i]) is Ok,
    ensures
        first_error(rs) == Some(rs[k]->Err_0),
    decreases k,
{
    if k > 0 {
        let tail = rs.drop_first();
        assert(tail[k - 1] == rs[k]);
        assert forall|i: int| 0 <= i < k - 1 implies (#[trigger] tail[i]) is Ok by {
            assert(tail[i] == rs[i + 1]);
        }
        assert(rs[0] is Ok);
        law_first_error_is_earliest(tail, k - 1);
    }
}

/// There is no first error exactly when every result succeeded.
pub proof fn law_first_error_none<T, E>(rs: Seq<Result<T, E>>)
    ensures
        first_error(rs) is None <==> (forall|i: int| 0 <= i < rs.len() ==> (#[trigger] rs[i]) is Ok),
    decreases rs.len(),
{
    if rs.len() > 0 {
        let tail = rs.drop_first();
        law_first_error_none(tail);
        assert(forall|i: int| 0 <= i < tail.len() ==> #[trigger] tail[i] == rs[i + 1]);
        if (forall|i: int| 0 <= i < tail.len() ==> (#[trigger] tail[i]) is Ok) && rs[0] is Ok {
            assert forall|i: int| 0 <= i < rs.len() implies (#[trigger] rs[i]) is Ok by {
                if i > 0 {
                    assert(rs[i] == tail[i - 1]);
                }
            }
        }
    }
}

/// Trait for handling pipeline results
pub trait PipelineResultHandler<T, E, const N: usize> {
    /// Handle the results according to the strategy
    fn handle_pipeline_results(self) -> [Result<T, E>; N];
}

/// Default implementation for arrays of Results: they are handed on as
/// they are.
impl<T, E: Copy, const N: usize> PipelineResultHandler<T, E, N> for [Result<T, E>; N] {
    fn handle_pipeline_results(self) -> (out: [Result<T, E>; N])
        ensures
            out == self,
    {
        self
    }
}

/// Trait for extracting successful values from results
pub trait ExtractSuccessful<T, E, const N: usize> {
    /// Extract only successful values into a new array.
    /// Returns the array, the successful values first, and their count.
    fn extract_successful(self) -> ([T; N], usize);
}

impl<T: Copy + Default, E, const N: usize> ExtractSuccessful<T, E, N> for [Result<T, E>; N] {
    fn extract_successful(self) -> (out: ([T; N], usize))
        ensures
            out.1 == ok_values(self@).len(),
            out.0@.take(out.1 as int) == ok_values(self@),
            forall|i: int| out.1 <= i < N ==> is_default(#[trigger] out.0@[i]),
            out.1 == self@.filter(|r: Result<T, E>| r is Ok).len(),
            out.0@.take(out.1 as int)
                == self@.filter(|r: Result<T, E>| r is Ok).map_values(|r: Result<T, E>| r->Ok_0),
    {
        let filler = T::default();
        let mut successful: [T; N] = [filler; N];
        let mut count: usize = 0;
        let mut i: usize = 0;
        while i < N
            invariant
                i <= N,
                self@.len() == N,
                successful@.len() == N,
                count == ok_values(self@.take(i as int)).len(),
                count <= i,
                successful@.take(count as int) == ok_values(self@.take(i as int)),
                is_default(filler),
                forall|j: int| count <= j < N ==> #[trigger] successful@[j] == filler,
            decreases N - i,
        {
            proof {
                assert(self@.take(i + 1).drop_last() =~= self@.take(i as int));
                assert(self@.take(i + 1).last() == self@[i as int]);
            }
            if let Ok(value) = &self[i] {
                let v: T = *value;
                successful[count] = v;
                proof {
                    assert(successful@.take(count + 1) =~= ok_values(self@.take(i as int)).push(v));
                }
                count = count + 1;
            }
            i = i + 1;
        }
        proof {
            assert(self@.take(N as int) =~= self@);
            law_ok_values_are_the_successes(self@);
        }
        (successful, count)
    }
}

/// Trait to convert various result types into standard Result
///
/// This trait provides a uniform interface for converting different
/// result-like types into standard `Result<T, E>`.
pub trait IntoResult<T, E> {
    /// Convert into a standard Result
    fn into_result(self) -> Result<T, E>;
}

impl<T, E> IntoResult<T, E> for Result<T, E> {
    fn into_result(self) -> (r: Result<T, E>)
        ensures
            r == self,
    {
        self
    }
}

impl<T, E> IntoResult<T, E> for PipexResult<T, E> {
    fn into_result(self) -> (r: Result<T, E>)
        ensures
            r == self.result,
    {
        self.result
    }
}

/// Trait to create errors that match a step's result type
///
/// This trait is used by a pipeline to carry an earlier error along in
/// the form of the current step's results.
pub trait CreateError<E>: Sized {
    /// Create an error value from the given error
    fn create_error(error_msg: E) -> Self;
}

impl<T, E> CreateError<E> for Result<T, E> {
    fn create_error(error_msg: E) -> (r: Self)
        ensures
            r == Err::<T, E>(error_msg),
    {
        Err(error_msg)
    }
}

impl<T, E> CreateError<E> for PipexResult<T, E> {
    fn create_error(error_msg: E) -> (r: Self)
        ensures
            r.result == Err::<T, E>(error_msg),
            r.strategy_name@ == "preserve_error"@,
    {
        PipexResult::new(Err(error_msg), "preserve_error")
    }
}

/// Core trait for pipeline operations
pub trait PipelineOp<T, E, const N: usize> {
    /// What the operation produces
    type Output;

    /// Process a batch of results
    fn process(input: [Result<T, E>; N]) -> Self::Output;
}

/// Trait for converting types into pipeline items
pub trait IntoPipelineItem<T, E> {
    /// The item as a plain result
    fn into_pipeline_item(self) -> Result<T, E>;
}

/// Implementation for Result types
impl<T, E> IntoPipelineItem<T, E> for Result<T, E> {
    fn into_pipeline_item(self) -> (r: Result<T, E>)
        ensures
            r == self,
    {
        self
    }
}

/// Error handling trait for pipeline operations
pub trait ErrorHandler<T, E, const N: usize> {
    /// Handle an array of Results according to the strategy
    fn handle_results(results: [Result<T, E>; N]) -> [Result<T, E>; N];
}

/// Ignore errors strategy: every error is replaced by a success holding
/// the default value.
pub struct IgnoreHandler;

impl<T: Default, E, const N: usize> ErrorHandler<T, E, N> for IgnoreHandler {
    fn handle_results(results: [Result<T, E>; N]) -> (out: [Result<T, E>; N])
        ensures
            forall|i: int| 0 <= i < N ==> (#[trigger] out@[i]) is Ok,
            forall|i: int| 0 <= i < N && results@[i] is Ok ==> out@[i] == results@[i],
            forall|i: int| 0 <= i < N && results@[i] is Err ==> is_default(#[trigger] out@[i]->Ok_0),
    {
        let mut results = results;
        let ghost original = results@;
        let mut i: usize = 0;
        while i < N
            invariant
                i <= N,
                results@.len() == N,
                original.len() == N,
                forall|j: int| 0 <= j < i ==> (#[trigger] results@[j]) is Ok,
                forall|j: int| 0 <= j < N && original[j] is Ok ==> results@[j] == original[j],
                forall|j: int| 0 <= j < i && original[j] is Err ==> is_default(#[trigger] results@[j]->Ok_0),
                forall|j: int| i <= j < N ==> results@[j] == original[j],
            decreases N - i,
        {
            if results[i].is_err() {
                let filler = T::default();
                results[i] = Ok(filler);
            }
            i = i + 1;
        }
        results
    }
}

/// Collect errors strategy: the results are kept as they are.
pub struct CollectHandler;

impl<T, E, const N: usize> ErrorHandler<T, E, N> for CollectHandler {
    fn handle_results(results: [Result<T, E>; N]) -> (out: [Result<T, E>; N])
        ensures
            out == results,
    {
        results
    }
}

/// FailFast handler: once any result is an error, every result becomes
/// the first error.
pub struct FailFastHandler;

impl<T, E: Copy, const N: usize> ErrorHandler<T, E, N> for FailFastHandler {
    fn handle_results(results: [Result<T, E>; N]) -> (out: [Result<T, E>; N])
        ensures
            first_error(results@) is None ==> out == results,
            first_error(results@) matches Some(e) ==>
                forall|i: int| 0 <= i < N ==> #[trigger] out@[i] == Err::<T, E>(e),
            (forall|i: int| 0 <= i < N ==> (#[trigger] results@[i]) is Ok) ==> out == results,
            forall|k: int, j: int|
                0 <= k < N && 0 <= j < N && (#[trigger] results@[k]) is Err
                    && (forall|i: int| 0 <= i < k ==> (#[trigger] results@[i]) is Ok)
                    ==> #[trigger] out@[j] == Err::<T, E>(results@[k]->Err_0),
    {
        let mut results = results;
        let ghost original = results@;
        let mut first: Option<E> = None;
        let mut i: usize = 0;
        proof {
            assert(original.skip(0) =~= original);
        }
        while i < N
            invariant
                i <= N,
                results@ == original,
                original.len() == N,
                first is None ==> first_error(original) == first_error(original.skip(i as int)),
                first is Some ==> first_error(original) == first,
            decreases N - i,
        {
            proof {
                assert(original.skip(i as int).drop_first() =~= original.skip(i + 1));
                assert(original.skip(i as int)[0] == original[i as int]);
            }
            if first.is_none() {
                if let Err(e) = &results[i] {
                    first = Some(*e);
                }
            }
            i = i + 1;
        }
        proof {
            assert(original.skip(N as int) =~= Seq::<Result<T, E>>::empty());
            law_first_error_none(original);
            assert forall|k: int| 0 <= k < N && (#[trigger] original[k]) is Err
                && (forall|i: int| 0 <= i < k ==> (#[trigger] original[i]) is Ok)
                implies first_error(original) == Some(original[k]->Err_0) by {
                law_first_error_is_earliest(original, k);
            }
        }
        let err = match first {
            Some(e) => e,
            None => return results,
        };
        let mut k: usize = 0;
        while k < N
            invariant
                k <= N,
                results@.len() == N,
                forall|j: int| 0 <= j < k ==> #[trigger] results@[j] == Err::<T, E>(err),
            decreases N - k,
        {
            results[k] = Err(err);
            k = k + 1;
        }
        results
    }
}

/// A marker trait for pure functions.
pub trait IsPure {}

} // verus!
