//! Pipeline steps: items enter as successes, each step maps the successful
//! values and carries the errors of earlier steps along as messages.

use vstd::prelude::*;
use crate::result::PipexResult;
use crate::traits::CreateError;
use crate::handlers::PipelineResultHandler;
use crate::registry::{registry_outcome, StrategyRegistry};
use crate::text::{chars_of, string_of};

verus! {

/// The text that `format!("{:?}", s)` gives for a string `s`.
pub uninterp spec fn debug_text(s: Seq<char>) -> Seq<char>;

/// `format!("{:?}", s)` for a string. The contract claims what std's
/// Debug for `str` does by its documentation (`str::escape_debug`): the text
/// stands between double quotes, and every double quote inside it is
/// escaped with a backslash. Which other characters are escaped, and how,
/// is left unsaid: the text is only named.
#[verifier::external_body]
fn debug_string(s: &String) -> (r: String)
    ensures
        r@ == debug_text(s@),
        r@.len() >= 2,
        r@[0] == '"',
        r@[r@.len() - 1] == '"',
        forall|i: int| 1 <= i < r@.len() - 1 && #[trigger] r@[i] == '"' ==> r@[i - 1] == '\\',
{
    format!("{:?}", s)
}

/// Whether `s` begins and ends with a double quote, as two characters.
pub open spec fn quoted(s: Seq<char>) -> bool {
    s.len() >= 2 && s[0] == '"' && s[s.len() - 1] == '"'
}

/// `s` with enclosing pairs of double quotes removed, one pair after another.
pub open spec fn unquoted(s: Seq<char>) -> Seq<char>
    decreases s.len(),
{
    if quoted(s) {
        unquoted(s.subrange(1, s.len() - 1))
    } else {
        s
    }
}

/// Whether removing enclosing quotes never comes to a lone double quote,
/// which counts as both beginning and ending with one but cannot be cut.
pub open spec fn unquotes_cleanly(s: Seq<char>) -> bool
    decreases s.len(),
{
    if s.len() == 1 && s[0] == '"' {
        false
    } else if quoted(s) {
        unquotes_cleanly(s.subrange(1, s.len() - 1))
    } else {
        true
    }
}

/// Unquoting removes enclosing quotes and nothing else: one more enclosing
/// pair makes no difference, and what is left is not enclosed in quotes.
pub proof fn law_unquote_removes_enclosing_quotes(s: Seq<char>)
    ensures
        unquoted(seq!['"'] + s + seq!['"']) == unquoted(s),
        !quoted(unquoted(s)),
    decreases s.len(),
{
    let q = seq!['"'] + s + seq!['"'];
    assert(quoted(q));
    assert(q.subrange(1, q.len() - 1) =~= s);
    if quoted(s) {
        law_unquote_removes_enclosing_quotes(s.subrange(1, s.len() - 1));
    }
}

/// Removes enclosing pairs of double quotes, for as long as the text both
/// begins and ends with one.
pub fn strip_nested_quotes(s: &str) -> (r: String)
    requires
        unquotes_cleanly(s@),
    ensures
        r@ == unquoted(s@),
{
    let chars = chars_of(s);
    let mut lo: usize = 0;
    let mut hi: usize = chars.len();
    proof {
        assert(chars@.subrange(0, chars@.len() as int) =~= chars@);
    }
    while lo < hi && chars[lo] == '"' && chars[hi - 1] == '"'
        invariant
            lo <= hi <= chars@.len(),
            chars@ == s@,
            unquoted(s@) == unquoted(chars@.subrange(lo as int, hi as int)),
            unquotes_cleanly(chars@.subrange(lo as int, hi as int)),
        decreases hi - lo,
    {
        let ghost cur = chars@.subrange(lo as int, hi as int);
        proof {
            assert(cur[0] == chars@[lo as int]);
            assert(cur[cur.len() - 1] == chars@[hi - 1]);
            assert(cur.subrange(1, cur.len() - 1) =~= chars@.subrange(lo + 1, hi - 1));
        }
        lo = lo + 1;
        hi = hi - 1;
    }
    let mut out: Vec<char> = Vec::new();
    let mut k = lo;
    while k < hi
        invariant
            lo <= k <= hi <= chars@.len(),
            out@ == chars@.subrange(lo as int, k as int),
        decreases hi - k,
    {
        proof {
            assert(chars@.subrange(lo as int, k + 1) =~= chars@.subrange(lo as int, k as int).push(chars@[k as int]));
        }
        out.push(chars[k]);
        k = k + 1;
    }
    proof {
        let cur = chars@.subrange(lo as int, hi as int);
        if lo < hi {
            assert(cur[0] == chars@[lo as int]);
            assert(cur[cur.len() - 1] == chars@[hi - 1]);
        }
    }
    string_of(&out)
}

/// The message under which a step carries an earlier error along: the error
/// in its Debug form, with enclosing quotes removed.
pub open spec fn carried_message(e: Seq<char>) -> Seq<char> {
    unquoted(debug_text(e))
}

/// The message under which a step carries the error `e` along.
pub fn carry_error(e: &String) -> (m: String)
    ensures
        m@ == carried_message(e@),
        m@ == debug_text(e@).subrange(1, debug_text(e@).len() - 1),
{
    let d = debug_string(e);
    let ghost t = d@;
    let ghost inner = t.subrange(1, t.len() - 1);
    proof {
        assert(quoted(t));
        if inner.len() >= 1 {
            assert(inner[0] == t[1]);
            if inner[0] == '"' {
                assert(t[0] == '\\');
            }
        }
        assert(!quoted(inner));
        assert(unquoted(inner) == inner);
        assert(unquotes_cleanly(inner));
        assert(unquoted(t) == inner);
    }
    strip_nested_quotes(d.as_str())
}

/// The items of a pipeline's input, each as a success.
pub fn into_pipeline<T>(input: Vec<T>) -> (items: Vec<Result<T, String>>)
    ensures
        items@ == input@.map_values(|x: T| Ok::<T, String>(x)),
{
    let ghost all = input@;
    let mut items: Vec<Result<T, String>> = Vec::new();
    for x in it: input
        invariant
            it.seq() == all,
            items@ == all.take(it.index() as int).map_values(|x: T| Ok::<T, String>(x)),
    {
        proof {
            assert(all.take(it.index() + 1).map_values(|x: T| Ok::<T, String>(x))
                =~= all.take(it.index() as int).map_values(|x: T| Ok::<T, String>(x)).push(Ok(x)));
        }
        items.push(Ok(x));
    }
    proof {
        assert(all.take(all.len() as int) =~= all);
    }
    items
}

/// What a step makes of one item: a success goes through the step's
/// function, an error is carried along as a message.
pub open spec fn step_item<T, U, F: Fn(T) -> Result<U, String>>(f: F, item: Result<T, String>, out: Result<U, String>) -> bool {
    match item {
        Ok(x) => call_ensures(f, (x,), out),
        Err(e) => out matches Err(m) && m@ == carried_message(e@),
    }
}

/// Whether the step's function can be applied to every success among `items`.
pub open spec fn applies_to_all<T, R, F: Fn(T) -> R>(f: F, items: Seq<Result<T, String>>) -> bool {
    forall|i: int| 0 <= i < items.len() && items[i] is Ok ==> call_requires(f, (#[trigger] items[i]->Ok_0,))
}

/// A pipeline step: each success is mapped by `f`, each error is carried
/// along, and the items keep their order and number.
pub fn pipeline_step<T, U, F: Fn(T) -> Result<U, String>>(items: Vec<Result<T, String>>, f: F) -> (out: Vec<Result<U, String>>)
    requires
        applies_to_all(f, items@),
    ensures
        out@.len() == items@.len(),
        forall|i: int| 0 <= i < items@.len() ==> step_item(f, items@[i], #[trigger] out@[i]),
{
    let ghost all = items@;
    let mut out: Vec<Result<U, String>> = Vec::new();
    for item in it: items
        invariant
            it.seq() == all,
            applies_to_all(f, all),
            out@.len() == it.index(),
            forall|i: int| 0 <= i < it.index() ==> step_item(f, all[i], #[trigger] out@[i]),
    {
        let next = match item {
            Ok(x) => f(x),
            Err(e) => Err(carry_error(&e)),
        };
        out.push(next);
    }
    let handled = out.handle_pipeline_results();
    handled
}

/// What a step with a strategy makes of one item: a success goes through
/// the step's function, an error is carried along as a message under the
/// strategy that preserves it.
pub open spec fn strategy_step_item<T, U, F: Fn(T) -> PipexResult<U, String>>(f: F, item: Result<T, String>, out: PipexResult<U, String>) -> bool {
    match item {
        Ok(x) => call_ensures(f, (x,), out),
        Err(e) => out.result matches Err(m) && m@ == carried_message(e@) && out.strategy_name@ == "preserve_error"@,
    }
}

/// The results of a step with a strategy, before the strategy applies.
pub open spec fn strategy_step_results<T, U, F: Fn(T) -> PipexResult<U, String>>(f: F, items: Seq<Result<T, String>>, results: Seq<PipexResult<U, String>>) -> bool {
    &&& results.len() == items.len()
    &&& forall|i: int| 0 <= i < items.len() ==> strategy_step_item(f, items[i], #[trigger] results[i])
}

/// A pipeline step whose function names the strategy of its results: each
/// success is mapped by `f`, each error is carried along, and then the
/// strategy named by the first result decides what goes on, a strategy
/// registered in `registry` before a built-in one. The second vector holds
/// the errors that the log-and-ignore strategy drops, to be reported.
pub fn pipeline_step_with_strategy<T, U, H, F>(
    items: Vec<Result<T, String>>,
    registry: &StrategyRegistry<H>,
    f: F,
) -> (out: (Vec<Result<U, String>>, Vec<Result<U, String>>))
    where
        F: Fn(T) -> PipexResult<U, String>,
        H: Fn(Vec<Result<U, String>>) -> Vec<Result<U, String>>,
    requires
        applies_to_all(f, items@),
        registry.handlers_accept_all::<U, String>(),
    ensures
        exists|results: Seq<PipexResult<U, String>>|
            strategy_step_results(f, items@, results) && registry_outcome(registry.handlers(), results, out),
{
    let ghost all = items@;
    let mut results: Vec<PipexResult<U, String>> = Vec::new();
    for item in it: items
        invariant
            it.seq() == all,
            applies_to_all(f, all),
            results@.len() == it.index(),
            forall|i: int| 0 <= i < it.index() ==> strategy_step_item(f, all[i], #[trigger] results@[i]),
    {
        let next = match item {
            Ok(x) => f(x),
            Err(e) => PipexResult::<U, String>::create_error(carry_error(&e)),
        };
        results.push(next);
    }
    let ghost stepped = results@;
    assert(strategy_step_results(f, all, stepped));
    registry.handle_pipeline_results(results)
}

} // verus!
