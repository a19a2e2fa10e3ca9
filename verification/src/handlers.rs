//! Error handling strategies over collections of results.

use vstd::prelude::*;
use crate::result::PipexResult;
use crate::strategy::{apply_named_strategy, named_outcome};

verus! {

/// Whether a result is a success.
pub open spec fn succeeded<T, E>(r: Result<T, E>) -> bool {
    r is Ok
}

/// Whether a result is a failure.
pub open spec fn failed<T, E>(r: Result<T, E>) -> bool {
    r is Err
}

/// The successes of `rs`, in their original order.
pub open spec fn successes<T, E>(rs: Seq<Result<T, E>>) -> Seq<Result<T, E>> {
    rs.filter(|r: Result<T, E>| succeeded(r))
}

/// The failures of `rs`, in their original order.
pub open spec fn failures<T, E>(rs: Seq<Result<T, E>>) -> Seq<Result<T, E>> {
    rs.filter(|r: Result<T, E>| failed(r))
}

/// Trait for custom error handling strategies.
///
/// A strategy takes the results of a pipeline step and decides which of
/// them (and in what form) go on to the next step.
pub trait ErrorHandler<T, E> {
    /// Handle a collection of results according to the strategy
    fn handle_results(results: Vec<Result<T, E>>) -> Vec<Result<T, E>>;
}

/// Ignore errors strategy: only the successful results are kept.
pub struct IgnoreHandler;

impl<T, E> ErrorHandler<T, E> for IgnoreHandler {
    fn handle_results(results: Vec<Result<T, E>>) -> (out: Vec<Result<T, E>>)
        ensures
            out@ == successes(results@),
    {
        keep_successes(results)
    }
}

/// Collect all strategy: every result, success or error, is kept as it is.
pub struct CollectHandler;

impl<T, E> ErrorHandler<T, E> for CollectHandler {
    fn handle_results(results: Vec<Result<T, E>>) -> (out: Vec<Result<T, E>>)
        ensures
            out@ == results@,
    {
        results
    }
}

/// Fail fast strategy: only the error results are kept, so that the
/// caller deals with the failures and nothing else goes on.
pub struct FailFastHandler;

impl<T, E> ErrorHandler<T, E> for FailFastHandler {
    fn handle_results(results: Vec<Result<T, E>>) -> (out: Vec<Result<T, E>>)
        ensures
            out@ == failures(results@),
    {
        let (_kept, failed) = partition_results(results);
        failed
    }
}

/// Log and ignore errors strategy: the successes go on, and the errors are
/// handed out to be reported before they are dropped.
pub struct LogAndIgnoreHandler;

impl LogAndIgnoreHandler {
    /// Splits `results` into the successes, which go on, and the errors that
    /// are to be reported, both in their original order.
    pub fn separate<T, E>(results: Vec<Result<T, E>>) -> (out: (Vec<Result<T, E>>, Vec<Result<T, E>>))
        ensures
            out.0@ == successes(results@),
            out.1@ == failures(results@),
    {
        partition_results(results)
    }
}

impl<T, E> ErrorHandler<T, E> for LogAndIgnoreHandler {
    fn handle_results(results: Vec<Result<T, E>>) -> (out: Vec<Result<T, E>>)
        ensures
            out@ == successes(results@),
    {
        let (kept, _reported) = LogAndIgnoreHandler::separate(results);
        kept
    }
}

/// Splits `results` into its successes and its failures, each in order.
fn partition_results<T, E>(results: Vec<Result<T, E>>) -> (out: (Vec<Result<T, E>>, Vec<Result<T, E>>))
    ensures
        out.0@ == successes(results@),
        out.1@ == failures(results@),
{
    let ghost all = results@;
    let mut oks: Vec<Result<T, E>> = Vec::new();
    let mut errs: Vec<Result<T, E>> = Vec::new();
    for r in it: results
        invariant
            it.seq() == all,
            oks@ == successes(all.take(it.index() as int)),
            errs@ == failures(all.take(it.index() as int)),
    {
        proof {
            assert(all.take(it.index() + 1).drop_last() =~= all.take(it.index() as int));
            reveal_with_fuel(Seq::filter, 1);
        }
        if r.is_ok() {
            oks.push(r);
        } else {
            errs.push(r);
        }
    }
    proof {
        assert(all.take(all.len() as int) =~= all);
    }
    (oks, errs)
}

/// The successes of `results`, in order.
fn keep_successes<T, E>(results: Vec<Result<T, E>>) -> (out: Vec<Result<T, E>>)
    ensures
        out@ == successes(results@),
{
    let ghost all = results@;
    let mut out: Vec<Result<T, E>> = Vec::new();
    for r in it: results
        invariant
            it.seq() == all,
            out@ == successes(all.take(it.index() as int)),
    {
        proof {
            assert(all.take(it.index() + 1).drop_last() =~= all.take(it.index() as int));
            reveal_with_fuel(Seq::filter, 1);
        }
        if r.is_ok() {
            out.push(r);
        }
    }
    proof {
        assert(all.take(all.len() as int) =~= all);
    }
    out
}

/// The plain results that a sequence of strategy-carrying results holds.
pub open spec fn inner_results<T, E>(rs: Seq<PipexResult<T, E>>) -> Seq<Result<T, E>> {
    rs.map_values(|p: PipexResult<T, E>| p.result)
}

/// What a pipeline step hands on: the strategy named by the first result,
/// applied to all the results; nothing when there are no results.
pub open spec fn pipeline_outcome<T, E>(rs: Seq<PipexResult<T, E>>) -> Seq<Result<T, E>> {
    if rs.len() == 0 {
        Seq::empty()
    } else {
        named_outcome(rs[0].strategy_name@, inner_results(rs))
    }
}

/// Trait to handle pipeline results uniformly
pub trait PipelineResultHandler<T, E> {
    /// Turns the results of a step into the plain results that go on.
    fn handle_pipeline_results(self) -> Vec<Result<T, E>>;
}

impl<T, E> PipelineResultHandler<T, E> for Vec<PipexResult<T, E>> {
    fn handle_pipeline_results(self) -> (out: Vec<Result<T, E>>)
        ensures
            out@ == pipeline_outcome(self@),
    {
        if self.len() == 0 {
            return Vec::new();
        }
        let (strategy_name, inner) = split_strategy(self);
        apply_named_strategy(strategy_name, inner)
    }
}

impl<T, E> PipelineResultHandler<T, E> for Vec<Result<T, E>> {
    fn handle_pipeline_results(self) -> (out: Vec<Result<T, E>>)
        ensures
            out@ == self@,
    {
        self
    }
}

/// The strategy named by the first of `rs` (which must not be empty), and
/// the plain results inside `rs`, in order.
pub fn split_strategy<T, E>(rs: Vec<PipexResult<T, E>>) -> (out: (&'static str, Vec<Result<T, E>>))
    requires
        rs@.len() > 0,
    ensures
        out.0 == rs@[0].strategy_name,
        out.1@ == inner_results(rs@),
{
    let strategy_name: &'static str = rs[0].strategy_name;
    let ghost all = rs@;
    let mut out: Vec<Result<T, E>> = Vec::new();
    for p in it: rs
        invariant
            it.seq() == all,
            out@ == inner_results(all.take(it.index() as int)),
    {
        proof {
            assert(inner_results(all.take(it.index() + 1)) =~= inner_results(all.take(it.index() as int)).push(p.result));
        }
        out.push(p.result);
    }
    proof {
        assert(all.take(all.len() as int) =~= all);
    }
    (strategy_name, out)
}

/// Every result is either kept by the ignore strategy or by the fail fast
/// strategy, never both: together they account for all the results.
pub proof fn law_strategies_partition<T, E>(rs: Seq<Result<T, E>>)
    ensures
        successes(rs).len() + failures(rs).len() == rs.len(),
        forall|i: int| 0 <= i < successes(rs).len() ==> (#[trigger] successes(rs)[i]) is Ok,
        forall|i: int| 0 <= i < failures(rs).len() ==> (#[trigger] failures(rs)[i]) is Err,
    decreases rs.len(),
{
    reveal_with_fuel(Seq::filter, 1);
    if rs.len() > 0 {
        law_strategies_partition(rs.drop_last());
        broadcast use vstd::seq_lib::group_filter_ensures;
    }
}

/// Ignoring errors twice keeps what ignoring them once keeps, and failing
/// fast on what is left after ignoring errors keeps nothing.
pub proof fn law_ignore_idempotent<T, E>(rs: Seq<Result<T, E>>)
    ensures
        successes(successes(rs)) == successes(rs),
        failures(successes(rs)) == Seq::<Result<T, E>>::empty(),
{
    law_strategies_partition(rs);
    lemma_filter_all_kept(successes(rs));
    lemma_filter_none_kept(successes(rs));
}

/// Filtering the successes out of a sequence of successes keeps it whole.
proof fn lemma_filter_all_kept<T, E>(rs: Seq<Result<T, E>>)
    requires
        forall|i: int| 0 <= i < rs.len() ==> (#[trigger] rs[i]) is Ok,
    ensures
        successes(rs) == rs,
    decreases rs.len(),
{
    reveal_with_fuel(Seq::filter, 1);
    if rs.len() > 0 {
        lemma_filter_all_kept(rs.drop_last());
        assert(rs.drop_last().push(rs.last()) =~= rs);
    } else {
        assert(successes(rs) =~= rs);
    }
}

/// A sequence of successes has no failures.
proof fn lemma_filter_none_kept<T, E>(rs: Seq<Result<T, E>>)
    requires
        forall|i: int| 0 <= i < rs.len() ==> (#[trigger] rs[i]) is Ok,
    ensures
        failures(rs) == Seq::<Result<T, E>>::empty(),
    decreases rs.len(),
{
    reveal_with_fuel(Seq::filter, 1);
    if rs.len() > 0 {
        lemma_filter_none_kept(rs.drop_last());
        assert(rs.last() == rs[rs.len() - 1]);
    } else {
        assert(failures(rs) =~= Seq::<Result<T, E>>::empty());
    }
}

} // verus!
