//! Strategies chosen by name, and the registry of custom strategies.

use vstd::prelude::*;
use crate::handlers::{
    successes, failures, succeeded, failed, CollectHandler, ErrorHandler, FailFastHandler, IgnoreHandler,
    LogAndIgnoreHandler,
};

verus! {

/// The strategies that the library provides, by the names that
/// `error_strategy` records (the handler's type name).
#[derive(Debug, Clone, Copy, PartialEq, Eq, Structural)]
pub enum BuiltinStrategy {
    Ignore,
    Collect,
    FailFast,
    LogAndIgnore,
}

/// The built-in strategy called `name`, if there is one.
pub open spec fn builtin_named(name: Seq<char>) -> Option<BuiltinStrategy> {
    if name == "IgnoreHandler"@ {
        Some(BuiltinStrategy::Ignore)
    } else if name == "CollectHandler"@ {
        Some(BuiltinStrategy::Collect)
    } else if name == "FailFastHandler"@ {
        Some(BuiltinStrategy::FailFast)
    } else if name == "LogAndIgnoreHandler"@ {
        Some(BuiltinStrategy::LogAndIgnore)
    } else {
        None
    }
}

/// What a built-in strategy makes of a sequence of results.
pub open spec fn builtin_outcome<T, E>(kind: BuiltinStrategy, rs: Seq<Result<T, E>>) -> Seq<Result<T, E>> {
    match kind {
        BuiltinStrategy::Ignore => successes(rs),
        BuiltinStrategy::Collect => rs,
        BuiltinStrategy::FailFast => failures(rs),
        BuiltinStrategy::LogAndIgnore => successes(rs),
    }
}

/// What the strategy called `name` makes of `rs` when no custom strategy
/// of that name is registered: a built-in one applies, an unknown name
/// leaves the results as they are.
pub open spec fn named_outcome<T, E>(name: Seq<char>, rs: Seq<Result<T, E>>) -> Seq<Result<T, E>> {
    match builtin_named(name) {
        Some(kind) => builtin_outcome(kind, rs),
        None => rs,
    }
}

/// Whether two strings hold the same characters.
fn same_text(a: &str, b: &str) -> (r: bool)
    ensures
        r == (a@ == b@),
{
    let x = a.to_owned();
    let y = b.to_owned();
    x == y
}

/// The built-in strategy called `name`, if there is one.
pub fn builtin_strategy(name: &str) -> (r: Option<BuiltinStrategy>)
    ensures
        r == builtin_named(name@),
{
    if same_text(name, "IgnoreHandler") {
        Some(BuiltinStrategy::Ignore)
    } else if same_text(name, "CollectHandler") {
        Some(BuiltinStrategy::Collect)
    } else if same_text(name, "FailFastHandler") {
        Some(BuiltinStrategy::FailFast)
    } else if same_text(name, "LogAndIgnoreHandler") {
        Some(BuiltinStrategy::LogAndIgnore)
    } else {
        None
    }
}

/// Applies a built-in strategy.
pub fn apply_builtin<T, E>(kind: BuiltinStrategy, results: Vec<Result<T, E>>) -> (out: Vec<Result<T, E>>)
    ensures
        out@ == builtin_outcome(kind, results@),
{
    match kind {
        BuiltinStrategy::Ignore => IgnoreHandler::handle_results(results),
        BuiltinStrategy::Collect => CollectHandler::handle_results(results),
        BuiltinStrategy::FailFast => FailFastHandler::handle_results(results),
        BuiltinStrategy::LogAndIgnore => LogAndIgnoreHandler::handle_results(results),
    }
}

/// Applies the built-in strategy called `strategy_name`; under a name that
/// no built-in strategy has, the results come back unchanged.
pub fn apply_named_strategy<T, E>(strategy_name: &str, results: Vec<Result<T, E>>) -> (out: Vec<Result<T, E>>)
    ensures
        out@ == named_outcome(strategy_name@, results@),
{
    match builtin_strategy(strategy_name) {
        Some(kind) => apply_builtin(kind, results),
        None => results,
    }
}

/// The errors that the strategy called `name` drops and reports: those of
/// the log-and-ignore strategy; none for any other.
pub open spec fn reported_outcome<T, E>(name: Seq<char>, rs: Seq<Result<T, E>>) -> Seq<Result<T, E>> {
    if builtin_named(name) == Some(BuiltinStrategy::LogAndIgnore) {
        failures(rs)
    } else {
        Seq::empty()
    }
}

/// Applies the built-in strategy called `strategy_name`, as
/// `apply_named_strategy` does, and hands out the errors that are to be
/// reported.
pub fn apply_named_strategy_reporting<T, E>(strategy_name: &str, results: Vec<Result<T, E>>) -> (out: (Vec<Result<T, E>>, Vec<Result<T, E>>))
    ensures
        out.0@ == named_outcome(strategy_name@, results@),
        out.1@ == reported_outcome(strategy_name@, results@),
{
    match builtin_strategy(strategy_name) {
        Some(BuiltinStrategy::LogAndIgnore) => LogAndIgnoreHandler::separate(results),
        Some(kind) => (apply_builtin(kind, results), Vec::new()),
        None => (results, Vec::new()),
    }
}


/// The four built-in strategies by name: ignoring keeps exactly the
/// successes, collecting keeps everything, failing fast keeps exactly the
/// errors, and logging-and-ignoring keeps exactly the successes; each keeps
/// the order of the results.
pub proof fn law_builtin_strategies_by_name<T, E>(rs: Seq<Result<T, E>>)
    ensures
        named_outcome("IgnoreHandler"@, rs) == rs.filter(|r: Result<T, E>| r is Ok),
        named_outcome("CollectHandler"@, rs) == rs,
        named_outcome("FailFastHandler"@, rs) == rs.filter(|r: Result<T, E>| r is Err),
        named_outcome("LogAndIgnoreHandler"@, rs) == rs.filter(|r: Result<T, E>| r is Ok),
        reported_outcome("LogAndIgnoreHandler"@, rs) == rs.filter(|r: Result<T, E>| r is Err),
        reported_outcome("FailFastHandler"@, rs) == Seq::<Result<T, E>>::empty(),
{
    reveal_strlit("IgnoreHandler");
    reveal_strlit("CollectHandler");
    reveal_strlit("FailFastHandler");
    reveal_strlit("LogAndIgnoreHandler");
    assert("CollectHandler"@[0] != "IgnoreHandler"@[0]);
    assert("FailFastHandler"@[0] != "IgnoreHandler"@[0]);
    assert("FailFastHandler"@[0] != "CollectHandler"@[0]);
    assert("LogAndIgnoreHandler"@[0] != "IgnoreHandler"@[0]);
    assert("LogAndIgnoreHandler"@[0] != "CollectHandler"@[0]);
    assert("LogAndIgnoreHandler"@[0] != "FailFastHandler"@[0]);
    assert((|r: Result<T, E>| succeeded(r)) =~= (|r: Result<T, E>| r is Ok));
    assert((|r: Result<T, E>| failed(r)) =~= (|r: Result<T, E>| r is Err));
}

/// A batch without errors has no failures.
proof fn lemma_no_failures<T, E>(rs: Seq<Result<T, E>>)
    requires
        forall|i: int| 0 <= i < rs.len() ==> (#[trigger] rs[i]) is Ok,
    ensures
        failures(rs).len() == 0,
    decreases rs.len(),
{
    reveal(Seq::filter);
    if rs.len() > 0 {
        assert(forall|i: int| 0 <= i < rs.drop_last().len() ==> rs.drop_last()[i] == rs[i]);
        lemma_no_failures(rs.drop_last());
        assert(rs[rs.len() - 1] is Ok);
    }
}

/// The fail-fast strategy by name keeps only errors: every result it hands
/// on is an error, so a batch without errors gives nothing.
pub proof fn law_failfast_by_name_only_errors<T, E>(rs: Seq<Result<T, E>>)
    ensures
        forall|i: int| 0 <= i < named_outcome("FailFastHandler"@, rs).len()
            ==> (#[trigger] named_outcome("FailFastHandler"@, rs)[i]) is Err,
        (forall|i: int| 0 <= i < rs.len() ==> (#[trigger] rs[i]) is Ok)
            ==> named_outcome("FailFastHandler"@, rs).len() == 0,
{
    law_builtin_strategies_by_name(rs);
    broadcast use vstd::seq_lib::group_filter_ensures;
    reveal_strlit("IgnoreHandler");
    reveal_strlit("CollectHandler");
    reveal_strlit("FailFastHandler");
    assert("FailFastHandler"@[0] != "IgnoreHandler"@[0]);
    assert("FailFastHandler"@[0] != "CollectHandler"@[0]);
    assert(named_outcome("FailFastHandler"@, rs) == failures(rs));
    if forall|i: int| 0 <= i < rs.len() ==> (#[trigger] rs[i]) is Ok {
        lemma_no_failures(rs);
    }
}

} // verus!
