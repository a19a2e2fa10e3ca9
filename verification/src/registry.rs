//! The registry of custom strategies, looked up by name before the
//! built-in ones.

use vstd::prelude::*;
use crate::strategy::{apply_named_strategy_reporting, named_outcome, reported_outcome};
use crate::handlers::{inner_results, split_strategy};
use crate::result::PipexResult;

verus! {

/// The handlers that a list of registrations leaves in place: a later
/// registration under a name replaces an earlier one.
pub open spec fn registered_map<H>(entries: Seq<(String, H)>) -> Map<Seq<char>, H>
    decreases entries.len(),
{
    if entries.len() == 0 {
        Map::empty()
    } else {
        registered_map(entries.drop_last()).insert(entries.last().0@, entries.last().1)
    }
}

/// Registrations after position `i` leave a name that none of them holds as
/// the earlier registrations left it.
proof fn lemma_later_entries_keep<H>(entries: Seq<(String, H)>, i: int, name: Seq<char>)
    requires
        0 <= i <= entries.len(),
        forall|j: int| i <= j < entries.len() ==> (#[trigger] entries[j]).0@ != name,
    ensures
        registered_map(entries).dom().contains(name) == registered_map(entries.take(i)).dom().contains(name),
        registered_map(entries).dom().contains(name) ==> registered_map(entries)[name] == registered_map(entries.take(i))[name],
    decreases entries.len() - i,
{
    if i < entries.len() {
        let shorter = entries.drop_last();
        assert(shorter.take(i) =~= entries.take(i));
        assert(entries[entries.len() - 1] == entries.last());
        lemma_later_entries_keep(shorter, i, name);
    } else {
        assert(entries.take(i) =~= entries);
    }
}

/// `copy` holds, element by element, clones of what `original` holds.
pub open spec fn is_copy_of<A: Clone>(original: Seq<A>, copy: Seq<A>) -> bool {
    &&& copy.len() == original.len()
    &&& forall|i: int| 0 <= i < original.len() ==> cloned(original[i], #[trigger] copy[i])
}

/// `out` is what `handler` returns for a copy of `results`.
pub open spec fn handled_copy<H, T: Clone, E: Clone>(handler: H, results: Seq<Result<T, E>>, out: Vec<Result<T, E>>) -> bool
    where H: Fn(Vec<Result<T, E>>) -> Vec<Result<T, E>>,
{
    exists|copy: Vec<Result<T, E>>| #[trigger] call_ensures(handler, (copy,), out) && is_copy_of(results, copy@)
}

/// A registry of custom strategies of one handler type, by name.
pub struct StrategyRegistry<H> {
    entries: Vec<(String, H)>,
}

impl<H> StrategyRegistry<H> {
    /// The handler registered under each name.
    pub closed spec fn handlers(&self) -> Map<Seq<char>, H> {
        registered_map(self.entries@)
    }

    /// An empty registry.
    pub fn new() -> (r: Self)
        ensures
            r.handlers() == Map::<Seq<char>, H>::empty(),
    {
        StrategyRegistry { entries: Vec::new() }
    }

    /// Register a custom strategy handler under `name`, replacing any
    /// handler registered under that name before.
    pub fn register_strategy(&mut self, name: &str, handler: H)
        ensures
            final(self).handlers() == old(self).handlers().insert(name@, handler),
    {
        let key = name.to_owned();
        let ghost before = self.entries@;
        self.entries.push((key, handler));
        proof {
            assert(self.entries@.drop_last() =~= before);
        }
    }

    /// The handler registered under `name`, if any.
    pub fn registered_handler(&self, name: &str) -> (r: Option<&H>)
        ensures
            r is Some <==> self.handlers().dom().contains(name@),
            r matches Some(h) ==> *h == self.handlers()[name@],
    {
        let mut i = self.entries.len();
        while i > 0
            invariant
                i <= self.entries@.len(),
                forall|j: int| i <= j < self.entries@.len() ==> (#[trigger] self.entries@[j]).0@ != name@,
            decreases i,
        {
            let same = self.entries[i - 1].0 == name.to_owned();
            if same {
                proof {
                    lemma_later_entries_keep(self.entries@, i as int, name@);
                    assert(self.entries@.take(i as int).drop_last() =~= self.entries@.take(i - 1));
                    assert(self.entries@.take(i as int).last() == self.entries@[i - 1]);
                }
                return Some(&self.entries[i - 1].1);
            }
            i = i - 1;
        }
        proof {
            lemma_later_entries_keep(self.entries@, 0, name@);
        }
        None
    }

    /// Every registered handler accepts every collection of results.
    pub open spec fn handlers_accept_all<T, E>(&self) -> bool
        where H: Fn(Vec<Result<T, E>>) -> Vec<Result<T, E>>,
    {
        forall|name: Seq<char>, rs: Vec<Result<T, E>>|
            #![trigger self.handlers()[name], call_requires(self.handlers()[name], (rs,))]
            self.handlers().dom().contains(name) ==> call_requires(self.handlers()[name], (rs,))
    }

    /// Runs the custom strategy registered under `strategy_name` on a copy of
    /// `results`; `None` when no custom strategy has that name.
    pub fn try_registered_strategy<T: Clone, E: Clone>(&self, strategy_name: &str, results: &Vec<Result<T, E>>) -> (out: Option<Vec<Result<T, E>>>)
        where H: Fn(Vec<Result<T, E>>) -> Vec<Result<T, E>>,
        requires
            self.handlers_accept_all::<T, E>(),
        ensures
            out is Some <==> self.handlers().dom().contains(strategy_name@),
            out matches Some(handled) ==> handled_copy(self.handlers()[strategy_name@], results@, handled),
    {
        match self.registered_handler(strategy_name) {
            Some(handler) => {
                let copy = results.clone();
                let ghost witness = copy;
                assert forall|i: int| 0 <= i < results@.len() implies cloned(results@[i], #[trigger] witness@[i]) by {
                    assert(cloned::<Result<T, E>>(results[i], copy[i]));
                }
                let handled = handler(copy);
                assert(call_ensures(self.handlers()[strategy_name@], (witness,), handled));
                assert(is_copy_of(results@, witness@));
                assert(handled_copy(self.handlers()[strategy_name@], results@, handled));
                Some(handled)
            },
            None => None,
        }
    }

    /// Apply a strategy by name: a custom strategy registered under the name
    /// comes first, then the built-in ones; under an unknown name the results
    /// come back unchanged.
    pub fn apply_strategy<T, E>(&self, strategy_name: &str, results: Vec<Result<T, E>>) -> (out: Vec<Result<T, E>>)
        where H: Fn(Vec<Result<T, E>>) -> Vec<Result<T, E>>,
        requires
            self.handlers_accept_all::<T, E>(),
        ensures
            self.handlers().dom().contains(strategy_name@) ==> call_ensures(self.handlers()[strategy_name@], (results,), out),
            !self.handlers().dom().contains(strategy_name@) ==> out@ == named_outcome(strategy_name@, results@),
    {
        let (out, _reported) = self.apply_strategy_reporting(strategy_name, results);
        out
    }

    /// Apply a strategy by name as `apply_strategy` does, and hand out the
    /// errors that the log-and-ignore strategy drops, to be reported.
    pub fn apply_strategy_reporting<T, E>(&self, strategy_name: &str, results: Vec<Result<T, E>>) -> (out: (Vec<Result<T, E>>, Vec<Result<T, E>>))
        where H: Fn(Vec<Result<T, E>>) -> Vec<Result<T, E>>,
        requires
            self.handlers_accept_all::<T, E>(),
        ensures
            self.handlers().dom().contains(strategy_name@) ==> call_ensures(self.handlers()[strategy_name@], (results,), out.0)
                && out.1@ == Seq::<Result<T, E>>::empty(),
            !self.handlers().dom().contains(strategy_name@) ==> out.0@ == named_outcome(strategy_name@, results@)
                && out.1@ == reported_outcome(strategy_name@, results@),
    {
        match self.registered_handler(strategy_name) {
            Some(handler) => (handler(results), Vec::new()),
            None => apply_named_strategy_reporting(strategy_name, results),
        }
    }

    /// Turns the results of a pipeline step into the results that go on:
    /// the strategy named by the first result, a registered one before a
    /// built-in one, applies to all of them. The errors that the
    /// log-and-ignore strategy drops are handed out to be reported.
    pub fn handle_pipeline_results<T, E>(&self, results: Vec<PipexResult<T, E>>) -> (out: (Vec<Result<T, E>>, Vec<Result<T, E>>))
        where H: Fn(Vec<Result<T, E>>) -> Vec<Result<T, E>>,
        requires
            self.handlers_accept_all::<T, E>(),
        ensures
            registry_outcome(self.handlers(), results@, out),
    {
        if results.len() == 0 {
            return (Vec::new(), Vec::new());
        }
        let ghost steps = results@;
        let (name, inner) = split_strategy(results);
        let ghost moved = inner;
        let out = self.apply_strategy_reporting(name, inner);
        proof {
            if self.handlers().dom().contains(name@) {
                assert(call_ensures(self.handlers()[name@], (moved,), out.0));
            }
        }
        out
    }
}

/// What a pipeline step hands on and what it reports, given the registered
/// handlers: nothing for no results; otherwise the strategy named by the
/// first result applies to all of them, a registered one first.
pub open spec fn registry_outcome<H, T, E>(
    handlers: Map<Seq<char>, H>,
    rs: Seq<PipexResult<T, E>>,
    out: (Vec<Result<T, E>>, Vec<Result<T, E>>),
) -> bool
    where H: Fn(Vec<Result<T, E>>) -> Vec<Result<T, E>>,
{
    if rs.len() == 0 {
        out.0@.len() == 0 && out.1@.len() == 0
    } else {
        let name = rs[0].strategy_name@;
        if handlers.dom().contains(name) {
            &&& exists|inner: Vec<Result<T, E>>| inner@ == inner_results(rs) && #[trigger] call_ensures(handlers[name], (inner,), out.0)
            &&& out.1@ == Seq::<Result<T, E>>::empty()
        } else {
            &&& out.0@ == named_outcome(name, inner_results(rs))
            &&& out.1@ == reported_outcome(name, inner_results(rs))
        }
    }
}

/// What registering gives back: after `handler` is registered under `name`,
/// looking `name` up finds that handler, and every other name finds what it
/// found before.
pub proof fn law_register_then_lookup<H>(before: Map<Seq<char>, H>, after: Map<Seq<char>, H>, name: Seq<char>, handler: H)
    requires
        after == before.insert(name, handler),
    ensures
        after.dom().contains(name),
        after[name] == handler,
        forall|other: Seq<char>| other != name ==> (after.dom().contains(other) == before.dom().contains(other)),
        forall|other: Seq<char>| other != name && before.dom().contains(other) ==> after[other] == before[other],
{
}

} // verus!
