//! The decisions behind the `pure`, `error_strategy` and `memoized`
//! attributes, on plain values: what a pure function may contain, and the
//! names of the items that the attributes generate.

use vstd::prelude::*;
use crate::naming::ascii_upper;

verus! {

/// The kinds of expression that the purity check tells apart.
#[derive(Debug, Clone, PartialEq, Eq)]
pub enum ExprShape {
    /// An `unsafe` block
    UnsafeBlock,
    /// A macro call; `is_asm` when the macro is `asm`
    MacroCall { is_asm: bool },
    /// A method call
    MethodCall,
    /// A call of a function named by a path whose last segment is given
    PathCall { last_segment: String },
    /// A call of anything that is not a path, such as a closure
    OtherCall,
    /// Any other expression
    Other,
}

/// What the purity check does with an expression; in every case it goes on
/// into the expression's parts.
#[derive(Debug, Clone, PartialEq, Eq)]
pub enum PurityAction {
    /// The expression makes the function impure, for the reason given
    Reject(String),
    /// A call of `Ok` or `Err`, which is pure
    Allow,
    /// A call of a function that must itself be marked pure: the check
    /// names its marker
    RequirePure,
    /// Nothing to check here
    Continue,
}

/// The message for an `unsafe` block.
pub open spec fn unsafe_message() -> Seq<char> {
    "impure `unsafe` block found in function marked as `pure`"@
}

/// The message for inline assembly.
pub open spec fn asm_message() -> Seq<char> {
    "impure inline assembly found in function marked as `pure`"@
}

/// The message for a method call.
pub open spec fn method_message() -> Seq<char> {
    "method calls are not supported in pure functions"@
}

/// The message for a call of something that is not a path.
pub open spec fn complex_call_message() -> Seq<char> {
    "closures and other complex function call expressions are not supported in pure functions"@
}

/// What the purity check does with an expression of the given shape.
pub open spec fn purity_action_of(shape: ExprShape) -> Option<Seq<char>> {
    match shape {
        ExprShape::UnsafeBlock => Some(unsafe_message()),
        ExprShape::MacroCall { is_asm } => if is_asm { Some(asm_message()) } else { None },
        ExprShape::MethodCall => Some(method_message()),
        ExprShape::OtherCall => Some(complex_call_message()),
        _ => None,
    }
}

/// Whether a call of a path ending in `segment` is a call of `Ok` or `Err`.
pub open spec fn is_result_constructor(segment: Seq<char>) -> bool {
    segment == "Ok"@ || segment == "Err"@
}

/// Whether two strings hold the same characters.
fn same_text(a: &str, b: &str) -> (r: bool)
    ensures
        r == (a@ == b@),
{
    a.to_owned() == b.to_owned()
}

/// The purity check's decision for an expression: `unsafe` blocks, inline
/// assembly, method calls and calls of anything but a path are rejected;
/// calls of `Ok` and `Err` are allowed; a call of any other path requires
/// the called function to be marked pure.
pub fn purity_action(shape: &ExprShape) -> (action: PurityAction)
    ensures
        purity_action_of(*shape) matches Some(message) ==> action matches PurityAction::Reject(m) && m@ == message,
        purity_action_of(*shape) is None ==> match *shape {
            ExprShape::PathCall { last_segment } =>
                if is_result_constructor(last_segment@) { action == PurityAction::Allow } else { action == PurityAction::RequirePure },
            _ => action == PurityAction::Continue,
        },
{
    match shape {
        ExprShape::UnsafeBlock => PurityAction::Reject(String::from_str("impure `unsafe` block found in function marked as `pure`")),
        ExprShape::MacroCall { is_asm } => {
            if *is_asm {
                PurityAction::Reject(String::from_str("impure inline assembly found in function marked as `pure`"))
            } else {
                PurityAction::Continue
            }
        },
        ExprShape::MethodCall => PurityAction::Reject(String::from_str("method calls are not supported in pure functions")),
        ExprShape::PathCall { last_segment } => {
            if same_text(last_segment.as_str(), "Ok") || same_text(last_segment.as_str(), "Err") {
                PurityAction::Allow
            } else {
                PurityAction::RequirePure
            }
        },
        ExprShape::OtherCall => PurityAction::Reject(
            String::from_str("closures and other complex function call expressions are not supported in pure functions"),
        ),
        ExprShape::Other => PurityAction::Continue,
    }
}

/// The name under which `error_strategy` keeps the undecorated function.
pub fn original_impl_name(fn_name: &str) -> (name: String)
    ensures
        name@ == fn_name@ + "_original_impl"@,
{
    let mut name = String::from_str(fn_name);
    name.append("_original_impl");
    name
}

/// The name under which `memoized` keeps the undecorated function.
pub fn memo_original_name(fn_name: &str) -> (name: String)
    ensures
        name@ == fn_name@ + "_original"@,
{
    let mut name = String::from_str(fn_name);
    name.append("_original");
    name
}

/// The tokens of the arguments of `memoized`, as its grammar tells them apart.
#[derive(Debug, Clone, PartialEq, Eq)]
pub enum ArgToken {
    /// An identifier that is not a keyword
    Ident(String),
    /// A keyword other than `true` and `false`
    Keyword,
    /// `=`
    Equals,
    /// `,`
    Comma,
    /// An integer literal, with its sign; `None` when its value does not
    /// fit in `usize`
    IntLit(Option<usize>),
    /// Any other literal, `true` and `false` among them
    OtherLit,
    /// Anything else
    Other,
}

/// What is wrong with the arguments of `memoized`.
#[derive(Debug, Clone, Copy, PartialEq, Eq, Structural)]
pub enum ArgsErrorKind {
    /// An identifier was expected
    ExpectedIdentifier,
    /// The identifier is not `capacity`
    UnknownArgument,
    /// `=` was expected
    ExpectedEquals,
    /// A literal was expected
    ExpectedLiteral,
    /// The literal is not an integer
    NotAnInteger,
    /// The integer does not fit in `usize`
    IntegerOutOfRange,
}

/// An error in the arguments of `memoized`, at the position of the token
/// where it was found (the number of tokens when the arguments end early).
#[derive(Debug, Clone, Copy, PartialEq, Eq, Structural)]
pub struct ArgsError {
    pub kind: ArgsErrorKind,
    pub at: usize,
}

/// The message that each argument error is reported with.
pub open spec fn args_error_message(kind: ArgsErrorKind) -> Seq<char> {
    match kind {
        ArgsErrorKind::ExpectedIdentifier => "expected identifier"@,
        ArgsErrorKind::UnknownArgument => "unknown attribute argument"@,
        ArgsErrorKind::ExpectedEquals => "expected `=`"@,
        ArgsErrorKind::ExpectedLiteral => "expected literal"@,
        ArgsErrorKind::NotAnInteger => "capacity must be an integer"@,
        ArgsErrorKind::IntegerOutOfRange => "number too large to fit in target type"@,
    }
}

/// The message that an argument error is reported with.
pub fn args_error_text(kind: ArgsErrorKind) -> (text: String)
    ensures
        text@ == args_error_message(kind),
{
    match kind {
        ArgsErrorKind::ExpectedIdentifier => String::from_str("expected identifier"),
        ArgsErrorKind::UnknownArgument => String::from_str("unknown attribute argument"),
        ArgsErrorKind::ExpectedEquals => String::from_str("expected `=`"),
        ArgsErrorKind::ExpectedLiteral => String::from_str("expected literal"),
        ArgsErrorKind::NotAnInteger => String::from_str("capacity must be an integer"),
        ArgsErrorKind::IntegerOutOfRange => String::from_str("number too large to fit in target type"),
    }
}

/// The capacity that the arguments of `memoized` from position `i` on give,
/// `capacity` being what the arguments before `i` gave: a sequence of
/// `capacity = N` items, each followed by an optional comma; the last one
/// counts.
pub open spec fn memo_args_from(tokens: Seq<ArgToken>, i: int, capacity: Option<usize>) -> Result<Option<usize>, ArgsError>
    decreases tokens.len() - i,
{
    if i < 0 || i >= tokens.len() {
        Ok(capacity)
    } else {
        match tokens[i] {
            ArgToken::Ident(name) => if name@ != "capacity"@ {
                Err(ArgsError { kind: ArgsErrorKind::UnknownArgument, at: i as usize })
            } else if i + 1 >= tokens.len() || !(tokens[i + 1] is Equals) {
                Err(ArgsError { kind: ArgsErrorKind::ExpectedEquals, at: (i + 1) as usize })
            } else if i + 2 >= tokens.len() {
                Err(ArgsError { kind: ArgsErrorKind::ExpectedLiteral, at: (i + 2) as usize })
            } else {
                match tokens[i + 2] {
                    ArgToken::IntLit(Some(n)) => {
                        let next = if i + 3 < tokens.len() && tokens[i + 3] is Comma { i + 4 } else { i + 3 };
                        memo_args_from(tokens, next, Some(n))
                    },
                    ArgToken::IntLit(None) => Err(ArgsError { kind: ArgsErrorKind::IntegerOutOfRange, at: (i + 2) as usize }),
                    ArgToken::OtherLit => Err(ArgsError { kind: ArgsErrorKind::NotAnInteger, at: (i + 2) as usize }),
                    _ => Err(ArgsError { kind: ArgsErrorKind::ExpectedLiteral, at: (i + 2) as usize }),
                }
            },
            _ => Err(ArgsError { kind: ArgsErrorKind::ExpectedIdentifier, at: i as usize }),
        }
    }
}

/// The capacity that the arguments of `memoized` give, if they give one.
pub open spec fn memo_args(tokens: Seq<ArgToken>) -> Result<Option<usize>, ArgsError> {
    memo_args_from(tokens, 0, None)
}

/// Reading the arguments up to the end of a well-formed prefix, and then
/// what follows it, gives what reading the whole gives, when what follows
/// does not begin with a comma.
proof fn lemma_parse_through_prefix(prefix: Seq<ArgToken>, suffix: Seq<ArgToken>, i: int, capacity: Option<usize>)
    requires
        0 <= i <= prefix.len(),
        memo_args_from(prefix, i, capacity) is Ok,
        suffix.len() > 0 ==> !(suffix[0] is Comma),
    ensures
        memo_args_from(prefix + suffix, i, capacity)
            == memo_args_from(prefix + suffix, prefix.len() as int, memo_args_from(prefix, i, capacity)->Ok_0),
    decreases prefix.len() - i,
{
    let whole = prefix + suffix;
    if i < prefix.len() {
        assert(whole[i] == prefix[i]);
        match prefix[i] {
            ArgToken::Ident(name) => {
                assert(name@ == "capacity"@);
                assert(i + 2 < prefix.len());
                assert(whole[i + 1] == prefix[i + 1]);
                assert(whole[i + 2] == prefix[i + 2]);
                match prefix[i + 2] {
                    ArgToken::IntLit(Some(n)) => {
                        if i + 3 < prefix.len() {
                            assert(whole[i + 3] == prefix[i + 3]);
                        } else if suffix.len() > 0 {
                            assert(whole[i + 3] == suffix[0]);
                        }
                        let next = if i + 3 < prefix.len() && prefix[i + 3] is Comma { i + 4 } else { i + 3 };
                        lemma_parse_through_prefix(prefix, suffix, next, Some(n));
                    },
                    _ => {},
                }
            },
            _ => {},
        }
    }
}

/// The capacity that `capacity = n` gives is the integer written, whatever
/// its size.
pub proof fn law_capacity_is_the_integer_written(name: String, n: usize)
    requires
        name@ == "capacity"@,
    ensures
        memo_args(seq![ArgToken::Ident(name), ArgToken::Equals, ArgToken::IntLit(Some(n))]) == Ok::<Option<usize>, ArgsError>(Some(n)),
{
    law_last_capacity_counts(Seq::empty(), name, n);
    assert(Seq::<ArgToken>::empty() + seq![ArgToken::Ident(name), ArgToken::Equals, ArgToken::IntLit(Some(n))]
        =~= seq![ArgToken::Ident(name), ArgToken::Equals, ArgToken::IntLit(Some(n))]);
}

/// The last `capacity = n` item counts: after any arguments that parse, one
/// more such item makes the capacity `n`.
pub proof fn law_last_capacity_counts(prefix: Seq<ArgToken>, name: String, n: usize)
    requires
        memo_args(prefix) is Ok,
        name@ == "capacity"@,
    ensures
        memo_args(prefix + seq![ArgToken::Ident(name), ArgToken::Equals, ArgToken::IntLit(Some(n))])
            == Ok::<Option<usize>, ArgsError>(Some(n)),
{
    let item = seq![ArgToken::Ident(name), ArgToken::Equals, ArgToken::IntLit(Some(n))];
    let whole = prefix + item;
    let p = prefix.len() as int;
    lemma_parse_through_prefix(prefix, item, 0, None);
    let c = memo_args(prefix)->Ok_0;
    assert(whole[p] == ArgToken::Ident(name));
    assert(whole[p + 1] == ArgToken::Equals);
    assert(whole[p + 2] == ArgToken::IntLit(Some(n)));
    assert(memo_args_from(whole, p + 3, Some(n)) == Ok::<Option<usize>, ArgsError>(Some(n)));
    assert(memo_args_from(whole, p, c) == memo_args_from(whole, p + 3, Some(n)));
}

/// Parses the arguments of `memoized`: `capacity = N` items, each followed
/// by an optional comma; the last one counts. Any other argument, or an
/// item cut short, is an error at the token where it shows.
pub fn parse_memoized_args(tokens: &Vec<ArgToken>) -> (r: Result<Option<usize>, ArgsError>)
    requires
        tokens@.len() < usize::MAX - 4,
    ensures
        r == memo_args(tokens@),
{
    let n = tokens.len();
    let mut i: usize = 0;
    let mut capacity: Option<usize> = None;
    while i < n
        invariant
            n == tokens@.len(),
            n < usize::MAX - 4,
            i <= n + 1,
            memo_args(tokens@) == memo_args_from(tokens@, i as int, capacity),
        decreases n + 1 - i,
    {
        match &tokens[i] {
            ArgToken::Ident(name) => {
                if !same_text(name.as_str(), "capacity") {
                    return Err(ArgsError { kind: ArgsErrorKind::UnknownArgument, at: i });
                }
            },
            _ => return Err(ArgsError { kind: ArgsErrorKind::ExpectedIdentifier, at: i }),
        }
        if i + 1 >= n || !matches!(tokens[i + 1], ArgToken::Equals) {
            return Err(ArgsError { kind: ArgsErrorKind::ExpectedEquals, at: i + 1 });
        }
        if i + 2 >= n {
            return Err(ArgsError { kind: ArgsErrorKind::ExpectedLiteral, at: i + 2 });
        }
        match &tokens[i + 2] {
            ArgToken::IntLit(Some(value)) => {
                capacity = Some(*value);
            },
            ArgToken::IntLit(None) => return Err(ArgsError { kind: ArgsErrorKind::IntegerOutOfRange, at: i + 2 }),
            ArgToken::OtherLit => return Err(ArgsError { kind: ArgsErrorKind::NotAnInteger, at: i + 2 }),
            _ => return Err(ArgsError { kind: ArgsErrorKind::ExpectedLiteral, at: i + 2 }),
        }
        if i + 3 < n && matches!(tokens[i + 3], ArgToken::Comma) {
            i = i + 4;
        } else {
            i = i + 3;
        }
    }
    Ok(capacity)
}

/// The capacity of a memoized function's cache when its arguments do not
/// give one.
pub const DEFAULT_MEMO_CAPACITY: usize = 1000;

/// The capacity of a memoized function's cache: what the arguments give,
/// or the default.
pub fn memo_capacity(requested: Option<usize>) -> (capacity: usize)
    ensures
        capacity == match requested {
            Some(c) => c,
            None => DEFAULT_MEMO_CAPACITY,
        },
{
    match requested {
        Some(c) => c,
        None => DEFAULT_MEMO_CAPACITY,
    }
}

/// The text that `str::to_uppercase` gives for `s`.
pub uninterp spec fn uppercase_text(s: Seq<char>) -> Seq<char>;

/// `str::to_uppercase`: the upper-case form of `s` by Unicode's rules. The
/// contract names the result, and states what the documentation gives for
/// ASCII text: each lower-case letter becomes its upper-case letter.
#[verifier::external_body]
fn to_upper(s: &str) -> (r: String)
    ensures
        r@ == uppercase_text(s@),
        (forall|i: int| 0 <= i < s@.len() ==> (#[trigger] s@[i] as u32) < 128)
            ==> r@ == s@.map_values(|c: char| ascii_upper(c)),
{
    s.to_uppercase()
}

/// The name of the cache that `memoized` gives a function: its name in
/// upper case, then `_CACHE`.
pub fn cache_name(fn_name: &str) -> (name: String)
    ensures
        name@ == uppercase_text(fn_name@) + "_CACHE"@,
{
    let mut name = to_upper(fn_name);
    name.append("_CACHE");
    name
}

/// How a generic argument of a type path looks, as the `Result` check tells
/// them apart.
#[derive(Debug, Clone, Copy, PartialEq, Eq, Structural)]
pub enum GenericArgShape {
    /// A type
    Type,
    /// A lifetime, a constant or anything else
    Other,
}

/// How a type looks, as the `Result` check tells them apart.
#[derive(Debug, Clone, PartialEq, Eq)]
pub enum TypeShape {
    /// A type path: the name of its last segment (if it has one), and that
    /// segment's generic arguments (if they are in angle brackets)
    Path { last_segment: Option<String>, angle_args: Option<Vec<GenericArgShape>> },
    /// Any other type
    Other,
}

/// Whether a type of this shape is `Result<T, E>`, with two types inside.
pub open spec fn is_result_shape(shape: TypeShape) -> bool {
    match shape {
        TypeShape::Path { last_segment: Some(name), angle_args: Some(args) } => {
            &&& name@ == "Result"@
            &&& args@.len() == 2
            &&& args@[0] == GenericArgShape::Type
            &&& args@[1] == GenericArgShape::Type
        },
        _ => false,
    }
}

/// Whether a type of this shape is `Result<T, E>`, the two types being
/// what `error_strategy` takes as the success and the error types.
pub fn is_result_type(shape: &TypeShape) -> (b: bool)
    ensures
        b == is_result_shape(*shape),
{
    match shape {
        TypeShape::Path { last_segment: Some(name), angle_args: Some(args) } => {
            same_text(name.as_str(), "Result") && args.len() == 2 && args[0] == GenericArgShape::Type
                && args[1] == GenericArgShape::Type
        },
        _ => false,
    }
}

} // verus!
