use pipex::gpu::{handle_method_calls, transpile_rust_expression, GpuError};
use pipex::handlers::PipelineResultHandler as VecResultHandler;
use pipex::memo::{pair_key, MemoCache};
use pipex::naming::to_pascal_case;
use pipex::pipeline::{carry_error, into_pipeline, pipeline_step, pipeline_step_with_strategy, strip_nested_quotes};
use pipex::registry::StrategyRegistry;
use pipex::strategy::{apply_named_strategy, builtin_strategy, BuiltinStrategy};
use pipex::text::{chars_of, find_first, replace_chars, string_of};
use pipex::attributes::{
    cache_name, is_result_type, memo_capacity, memo_original_name, original_impl_name, parse_memoized_args, purity_action,
    ArgToken, ArgsErrorKind, ExprShape, GenericArgShape, PurityAction, TypeShape, DEFAULT_MEMO_CAPACITY,
};
use pipex::traits::{
    CollectHandler as BatchCollect, ErrorHandler as BatchHandler, FailFastHandler as BatchFailFast,
    IgnoreHandler as BatchIgnore,
};
use pipex::workload::{heavy_cpu_work, mixed_cpu_work};
use pipex::{
    CollectHandler, CreateError, ErrorHandler, ExtractSuccessful, FailFastHandler, IgnoreHandler, IntoResult,
    LogAndIgnoreHandler, PipelineResultHandler, PipexResult,
};

type Strategy = fn(Vec<Result<i32, String>>) -> Vec<Result<i32, String>>;

fn no_custom_strategies() -> StrategyRegistry<Strategy> {
    StrategyRegistry::new()
}

fn mixed() -> Vec<Result<i32, String>> {
    vec![Ok(1), Err("a".to_string()), Ok(3), Err("b".to_string()), Ok(5)]
}

fn process(x: i32) -> Result<i32, String> {
    if x == 3 {
        Err("failed on 3".to_string())
    } else {
        Ok(x * 2)
    }
}

// --- strategies ---

#[test]
fn ignore_handler_keeps_successes_in_order() {
    let out = <IgnoreHandler as ErrorHandler<i32, String>>::handle_results(mixed());
    assert_eq!(out, vec![Ok(1), Ok(3), Ok(5)]);
}

#[test]
fn collect_handler_keeps_everything() {
    let out = <CollectHandler as ErrorHandler<i32, String>>::handle_results(mixed());
    assert_eq!(out, mixed());
}

#[test]
fn failfast_handler_keeps_only_errors() {
    let out = <FailFastHandler as ErrorHandler<i32, String>>::handle_results(mixed());
    assert_eq!(out, vec![Err("a".to_string()), Err("b".to_string())]);
}

#[test]
fn failfast_handler_keeps_each_failing_item() {
    // The items 1..5 and 3 again: both instances of 3 fail and both stay.
    let items: Vec<Result<i32, String>> = vec![1, 2, 3, 4, 5, 3].into_iter().map(process).collect();
    let out = <FailFastHandler as ErrorHandler<i32, String>>::handle_results(items);
    assert_eq!(out.len(), 2);
    assert!(out.iter().all(|r| r.is_err()));
}

#[test]
fn log_and_ignore_separates_reported_errors() {
    let (kept, reported) = LogAndIgnoreHandler::separate(mixed());
    assert_eq!(kept, vec![Ok(1), Ok(3), Ok(5)]);
    assert_eq!(reported, vec![Err("a".to_string()), Err("b".to_string())]);
    let out = <LogAndIgnoreHandler as ErrorHandler<i32, String>>::handle_results(mixed());
    assert_eq!(out, vec![Ok(1), Ok(3), Ok(5)]);
}

#[test]
fn strategies_partition_the_results() {
    let kept = <IgnoreHandler as ErrorHandler<i32, String>>::handle_results(mixed());
    let failed = <FailFastHandler as ErrorHandler<i32, String>>::handle_results(mixed());
    assert_eq!(kept.len() + failed.len(), mixed().len());
    let again = <IgnoreHandler as ErrorHandler<i32, String>>::handle_results(kept.clone());
    assert_eq!(again, kept);
    let none = <FailFastHandler as ErrorHandler<i32, String>>::handle_results(kept);
    assert!(none.is_empty());
}

#[test]
fn builtin_strategies_by_name() {
    assert_eq!(builtin_strategy("IgnoreHandler"), Some(BuiltinStrategy::Ignore));
    assert_eq!(builtin_strategy("CollectHandler"), Some(BuiltinStrategy::Collect));
    assert_eq!(builtin_strategy("FailFastHandler"), Some(BuiltinStrategy::FailFast));
    assert_eq!(builtin_strategy("LogAndIgnoreHandler"), Some(BuiltinStrategy::LogAndIgnore));
    assert_eq!(builtin_strategy("ignore"), None);
    assert_eq!(apply_named_strategy("IgnoreHandler", mixed()), vec![Ok(1), Ok(3), Ok(5)]);
    assert_eq!(apply_named_strategy("SomethingElse", mixed()), mixed());
}

#[test]
fn strategy_named_by_first_result_applies_to_all() {
    let results = vec![
        PipexResult::new(Ok(1), "IgnoreHandler"),
        PipexResult::new(Err("x".to_string()), "CollectHandler"),
        PipexResult::new(Ok(3), "CollectHandler"),
    ];
    assert_eq!(results.handle_pipeline_results(), vec![Ok(1), Ok(3)]);
    let empty: Vec<PipexResult<i32, String>> = Vec::new();
    assert!(empty.handle_pipeline_results().is_empty());
    let plain = mixed();
    assert_eq!(VecResultHandler::handle_pipeline_results(plain), mixed());
}

// --- registry ---

fn first_error_handler(results: Vec<Result<i32, String>>) -> Vec<Result<i32, String>> {
    results.into_iter().find(|r| r.is_err()).map_or(Vec::new(), |e| vec![e])
}

fn keep_all(results: Vec<Result<i32, String>>) -> Vec<Result<i32, String>> {
    results
}

#[test]
fn registered_strategy_comes_first() {
    let mut registry: StrategyRegistry<Strategy> = StrategyRegistry::new();
    assert!(registry.registered_handler("FirstErrorHandler").is_none());
    registry.register_strategy("FirstErrorHandler", first_error_handler);
    assert!(registry.registered_handler("FirstErrorHandler").is_some());

    let items: Vec<Result<i32, String>> = vec![1, 2, 3, 4, 5].into_iter().map(process).collect();
    let out = registry.apply_strategy("FirstErrorHandler", items.clone());
    assert_eq!(out.len(), 1);
    assert!(out[0].is_err());

    // a custom strategy under a built-in name replaces the built-in one
    registry.register_strategy("IgnoreHandler", keep_all);
    assert_eq!(registry.apply_strategy("IgnoreHandler", items.clone()), items);
    // unregistered names fall back to the built-in strategies
    assert_eq!(registry.apply_strategy("FailFastHandler", items.clone()).len(), 1);
    assert_eq!(registry.apply_strategy("Unknown", items.clone()), items);
    assert!(registry.try_registered_strategy("Unknown", &items).is_none());
}

#[test]
fn test_custom_first_error_handler() {
    let mut registry: StrategyRegistry<Strategy> = StrategyRegistry::new();
    registry.register_strategy("FirstErrorHandler", first_error_handler);
    let items = into_pipeline(vec![1, 2, 3, 4, 5]);
    let (result, reported) =
        pipeline_step_with_strategy(items, &registry, |x| PipexResult::new(process(x), "FirstErrorHandler"));

    // Should return only the first error
    assert_eq!(result.len(), 1);
    assert!(result[0].is_err());
    assert!(reported.is_empty());
}

#[test]
fn registered_strategy_overrides_builtin_in_a_step() {
    let mut registry: StrategyRegistry<Strategy> = StrategyRegistry::new();
    registry.register_strategy("IgnoreHandler", keep_all);
    let items = into_pipeline(vec![1, 2, 3]);
    let (result, _) = pipeline_step_with_strategy(items, &registry, |x| PipexResult::new(process(x), "IgnoreHandler"));
    assert_eq!(result, vec![Ok(2), Ok(4), Err("failed on 3".to_string())]);
}

#[test]
fn log_and_ignore_step_hands_out_dropped_errors() {
    let items = into_pipeline(vec![1, 3, 4]);
    let (result, reported) =
        pipeline_step_with_strategy(items, &no_custom_strategies(), |x| PipexResult::new(process(x), "LogAndIgnoreHandler"));
    assert_eq!(result, vec![Ok(2), Ok(8)]);
    assert_eq!(reported, vec![Err("failed on 3".to_string())]);
}

#[test]
fn registry_handles_pipeline_results() {
    let registry = no_custom_strategies();
    let results = vec![PipexResult::new(Ok(1), "FailFastHandler"), PipexResult::new(Err("x".to_string()), "IgnoreHandler")];
    let (out, reported) = registry.handle_pipeline_results(results);
    assert_eq!(out, vec![Err("x".to_string())]);
    assert!(reported.is_empty());
    let (none, _) = registry.handle_pipeline_results(Vec::<PipexResult<i32, String>>::new());
    assert!(none.is_empty());
}

#[test]
fn later_registration_replaces_earlier() {
    let mut registry: StrategyRegistry<Strategy> = StrategyRegistry::new();
    registry.register_strategy("Custom", first_error_handler);
    registry.register_strategy("Custom", keep_all);
    assert_eq!(registry.apply_strategy("Custom", mixed()), mixed());
}

// --- pipelines ---

#[test]
fn lib_test_sync_pipeline() {
    let items = into_pipeline(vec![1, 2, 3, 4, 5]);
    let items = pipeline_step(items, |x| Ok::<i32, String>(x * 2));
    let result = pipeline_step(items, |x| Ok::<i32, String>(x + 1));
    let values: Vec<i32> = result.into_iter().map(|r| r.unwrap()).collect();
    assert_eq!(values, vec![3, 5, 7, 9, 11]);
}

#[test]
fn sync_pipeline_carries_errors_along() {
    let items = into_pipeline(vec![1, 2, 3, 4, 5]);
    let items = pipeline_step(items, process);
    let result = pipeline_step(items, |x| Ok::<i32, String>(x + 1));
    assert_eq!(result.len(), 5);
    assert_eq!(result[2], Err("failed on 3".to_string()));
    assert_eq!(result[4], Ok(11));
}

#[test]
fn lib_test_strategy_collect() {
    let items = into_pipeline(vec![1, 2, 3, 4, 5]);
    let (result, _reported) = pipeline_step_with_strategy(items, &no_custom_strategies(), |x| PipexResult::new(process(x), "CollectHandler"));
    assert_eq!(result.len(), 5);
    assert!(result.iter().any(|r| r.is_err()));
}

#[test]
fn lib_test_strategy_ignore() {
    let items = into_pipeline(vec![1, 2, 3, 4, 5]);
    let (result, _reported) = pipeline_step_with_strategy(items, &no_custom_strategies(), |x| PipexResult::new(process(x), "IgnoreHandler"));
    assert_eq!(result.len(), 4); // 3 is filtered out
    assert!(result.iter().all(|r| r.is_ok()));
}

#[test]
fn lib_test_strategy_log_and_ignore() {
    let items = into_pipeline(vec![1, 2, 3, 4, 5]);
    let (result, _reported) = pipeline_step_with_strategy(items, &no_custom_strategies(), |x| PipexResult::new(process(x), "LogAndIgnoreHandler"));
    let values: Vec<i32> = result.into_iter().map(|r| r.unwrap()).collect();
    assert_eq!(values, vec![2, 4, 8, 10]);
}

#[test]
fn test_strategy_failfast() {
    let items = into_pipeline(vec![1, 2, 3, 4, 5, 3]);
    let (result, _reported) = pipeline_step_with_strategy(items, &no_custom_strategies(), |x| PipexResult::new(process(x), "FailFastHandler"));
    assert_eq!(result.len(), 2);
    assert!(result.iter().all(|r| r.is_err()));
}

#[test]
fn earlier_errors_pass_a_strategy_step_as_preserved_errors() {
    let items = into_pipeline(vec![1, 3, 4]);
    let items = pipeline_step(items, process);
    // the first result is a success under the collect strategy
    let (result, _reported) = pipeline_step_with_strategy(items, &no_custom_strategies(), |x| PipexResult::new(Ok::<i32, String>(x - 1), "CollectHandler"));
    assert_eq!(result, vec![Ok(1), Err("failed on 3".to_string()), Ok(7)]);
}

#[test]
fn carried_error_is_the_debug_text_without_its_quotes() {
    assert_eq!(carry_error(&"failed on 3".to_string()), "failed on 3");
    assert_eq!(carry_error(&"line\nbreak".to_string()), "line\\nbreak");
    assert_eq!(carry_error(&"say \"hi\"".to_string()), "say \\\"hi\\\"");
}

#[test]
fn nested_quotes_are_stripped() {
    assert_eq!(strip_nested_quotes("\"\"abc\"\""), "abc");
    assert_eq!(strip_nested_quotes("\"abc"), "\"abc");
    assert_eq!(strip_nested_quotes("plain"), "plain");
    assert_eq!(strip_nested_quotes("\"\""), "");
    let once = strip_nested_quotes("\"\"x\"\"");
    assert_eq!(strip_nested_quotes(&once), once);
}

// --- results ---

#[test]
fn pipex_result_accessors() {
    let result: PipexResult<i32, String> = PipexResult::new(Ok(42), "IgnoreHandler");
    assert_eq!(result.strategy_name, "IgnoreHandler");
    assert_eq!(result.result, Ok(42));
    assert!(result.is_ok());
    assert!(!result.is_err());
    assert_eq!(result.as_result(), &Ok(42));
    assert_eq!(result.into_result(), Ok(42));
    let failed: PipexResult<i32, String> = CreateError::create_error("boom".to_string());
    assert!(failed.is_err());
    assert_eq!(failed.strategy_name, "preserve_error");
    assert_eq!(IntoResult::into_result(failed), Err("boom".to_string()));
    let plain: Result<i32, String> = CreateError::create_error("e".to_string());
    assert_eq!(plain, Err("e".to_string()));
}

// --- fixed-size batches ---

#[test]
fn batch_ignore_replaces_errors_with_defaults() {
    let out = <BatchIgnore as BatchHandler<i32, &str, 3>>::handle_results([Ok(1), Err("x"), Ok(3)]);
    assert_eq!(out, [Ok(1), Ok(0), Ok(3)]);
}

#[test]
fn batch_failfast_spreads_first_error() {
    let out = <BatchFailFast as BatchHandler<i32, &str, 3>>::handle_results([Ok(1), Err("x"), Err("y")]);
    assert_eq!(out, [Err("x"), Err("x"), Err("x")]);
    let clean = <BatchFailFast as BatchHandler<i32, &str, 2>>::handle_results([Ok(1), Ok(2)]);
    assert_eq!(clean, [Ok(1), Ok(2)]);
    let kept = <BatchCollect as BatchHandler<i32, &str, 2>>::handle_results([Ok(1), Err("z")]);
    assert_eq!(kept, [Ok(1), Err("z")]);
}

#[test]
fn batch_extract_successful_packs_values() {
    let batch: [Result<i32, &str>; 4] = [Err("a"), Ok(7), Err("b"), Ok(9)];
    let (values, count) = batch.extract_successful();
    assert_eq!(count, 2);
    assert_eq!(&values[..count], &[7, 9]);
    let same: [Result<i32, &str>; 2] = [Ok(1), Err("c")];
    assert_eq!(PipelineResultHandler::handle_pipeline_results(same), [Ok(1), Err("c")]);
}

// --- text ---

#[test]
fn pascal_case_of_snake_case() {
    assert_eq!(to_pascal_case("fibonacci_memoized"), "FibonacciMemoized");
    assert_eq!(to_pascal_case("pure_add"), "PureAdd");
    assert_eq!(to_pascal_case("__a__b_"), "AB");
    assert_eq!(to_pascal_case("already"), "Already");
    assert_eq!(to_pascal_case(""), "");
    assert!(!to_pascal_case("x_y_z").contains('_'));
}

#[test]
fn replace_like_std() {
    let cases = [("abcabc", "b", "XY"), ("aaaa", "aa", "b"), ("abc", "", "-"), ("abc", "z", "q"), ("", "", "!")];
    for (s, pat, rep) in cases {
        let out = string_of(&replace_chars(&chars_of(s), &chars_of(pat), &chars_of(rep)));
        assert_eq!(out, s.replace(pat, rep));
    }
    assert_eq!(find_first(&chars_of("a.cos()b"), &chars_of(".cos()")), Some(1));
    assert_eq!(find_first(&chars_of("abc"), &chars_of("d")), None);
}

#[test]
fn method_calls_on_brackets_become_function_calls() {
    assert_eq!(handle_method_calls("(input[index] / 2.0).cos()", "cos"), "cos(input[index] / 2.0)");
    assert_eq!(handle_method_calls("a + (b * (c)).abs() - 1", "abs"), "a + abs(b * (c)) - 1");
    assert_eq!(handle_method_calls("(a).sin() + (b).sin()", "sin"), "sin(a) + sin(b)");
    assert_eq!(handle_method_calls("x.tan()", "tan"), "x.tan()");
    assert_eq!(handle_method_calls("nothing here", "cos"), "nothing here");
}

fn kernel_with(body: &str) -> String {
    format!(
        "\n@group(0) @binding(0) var<storage, read> input: array<f32>;\n@group(0) @binding(1) var<storage, read_write> output: array<f32>;\n\n@compute @workgroup_size(64)\nfn main(@builtin(global_invocation_id) global_id: vec3<u32>) {{\n    let index = global_id.x;\n    if (index >= arrayLength(&input)) {{ return; }}\n    output[index] = {};\n}}\n",
        body
    )
}

#[test]
fn transpiles_simple_expressions() {
    assert_eq!(transpile_rust_expression("x * x + 1.0", "x"), kernel_with("input[index] * input[index] + 1.0"));
    assert_eq!(transpile_rust_expression("x.sqrt() + 2 * x", "x"), kernel_with("sqrt(input[index]) + 2.0 * input[index]"));
    assert_eq!(transpile_rust_expression("1 + x + 1", "x"), kernel_with("1.0 + input[index] + 1.0"));
    assert_eq!(transpile_rust_expression("(x / 2).cos()", "x"), kernel_with("cos(input[index] / 2)"));
    assert_eq!(transpile_rust_expression("x * 3 + 2", "x"), kernel_with("input[index] * 3.0 + 2.0"));
    // a trailing ` 2` makes every ` 2` a float literal
    assert_eq!(transpile_rust_expression("x * 2.5 + 2", "x"), kernel_with("input[index] * 2.0.5 + 2.0"));
    // every occurrence of the variable's name is replaced
    assert_eq!(transpile_rust_expression("t.sqrt()", "t"), kernel_with("input[index].sqrinput[index]()"));
    assert_eq!(transpile_rust_expression("exp_x + x", "x"), kernel_with("einput[index]p_input[index] + input[index]"));
}

#[test]
fn gpu_error_messages() {
    assert_eq!(
        GpuError::InitializationFailed("No suitable GPU adapter found".to_string()).message(),
        "GPU device initialization failed: No suitable GPU adapter found"
    );
    assert_eq!(GpuError::ShaderCompilationFailed("bad".to_string()).message(), "Shader compilation failed: bad");
    assert_eq!(GpuError::BufferCreationFailed("b".to_string()).message(), "Buffer creation failed: b");
    assert_eq!(GpuError::ComputeExecutionFailed("c".to_string()).message(), "Compute execution failed: c");
    assert_eq!(GpuError::DataTransferFailed("d".to_string()).message(), "Data transfer failed: d");
}

// --- memoization ---

#[test]
fn cache_gives_back_what_was_stored() {
    let mut cache: MemoCache<String> = MemoCache::new(2);
    assert_eq!(cache.lookup(7), None);
    cache.store(7, "seven".to_string());
    assert_eq!(cache.lookup(7), Some("seven".to_string()));
    cache.store(7, "SEVEN".to_string());
    assert_eq!(cache.lookup(7), Some("SEVEN".to_string()));
    assert_eq!(cache.len(), 1);
    cache.store(8, "eight".to_string());
    assert_eq!(cache.len(), 2);
    // full: nothing more is stored, not even a replacement
    cache.store(9, "nine".to_string());
    cache.store(7, "again".to_string());
    assert_eq!(cache.lookup(9), None);
    assert_eq!(cache.lookup(7), Some("SEVEN".to_string()));
    assert_eq!(cache.len(), 2);
    assert_eq!(cache.capacity(), 2);
}

#[test]
fn pair_keys_differ_for_different_arguments() {
    assert_ne!(pair_key(1, 2), pair_key(2, 1));
    assert_ne!(pair_key(-1, 0), pair_key(0, -1));
    assert_eq!(pair_key(0, 5), 5);
    assert_eq!(pair_key(1, 0), 1u64 << 32);
}

// --- workloads ---

#[test]
fn workloads_match_their_sums() {
    fn reference(n: u32, factor: u64, modulus: u64) -> u32 {
        let n = n.min(1000) as u64;
        ((1..=n * factor).sum::<u64>() % modulus) as u32
    }
    for n in [0, 1, 7, 999, 1000, 5000, u32::MAX] {
        assert_eq!(heavy_cpu_work(n), reference(n, 10, 1000));
        assert_eq!(mixed_cpu_work(n), reference(n, 5, 100));
    }
    assert_eq!(heavy_cpu_work(1), 55);
    assert_eq!(mixed_cpu_work(2), 55);
}

#[test]
fn memo_call_computes_once_and_caches() {
    let mut cache: MemoCache<u64> = MemoCache::new(1);
    let calls = std::cell::Cell::new(0);
    let square = |k: u64| {
        calls.set(calls.get() + 1);
        k * k
    };
    assert_eq!(cache.memo_call(7, &square), 49);
    assert_eq!(cache.memo_call(7, &square), 49);
    assert_eq!(calls.get(), 1);
    // the cache is full: 8 is computed every time
    assert_eq!(cache.memo_call(8, &square), 64);
    assert_eq!(cache.memo_call(8, &square), 64);
    assert_eq!(calls.get(), 3);
    assert_eq!(cache.lookup(8), None);
}

#[test]
fn batch_defaults_fill_the_rest() {
    let batch: [Result<i32, &str>; 3] = [Ok(4), Err("a"), Err("b")];
    let (values, count) = batch.extract_successful();
    assert_eq!(count, 1);
    assert_eq!(values, [4, 0, 0]);
}

#[test]
fn purity_decisions() {
    assert_eq!(
        purity_action(&ExprShape::UnsafeBlock),
        PurityAction::Reject("impure `unsafe` block found in function marked as `pure`".to_string())
    );
    assert_eq!(
        purity_action(&ExprShape::MacroCall { is_asm: true }),
        PurityAction::Reject("impure inline assembly found in function marked as `pure`".to_string())
    );
    assert_eq!(purity_action(&ExprShape::MacroCall { is_asm: false }), PurityAction::Continue);
    assert_eq!(
        purity_action(&ExprShape::MethodCall),
        PurityAction::Reject("method calls are not supported in pure functions".to_string())
    );
    assert_eq!(purity_action(&ExprShape::PathCall { last_segment: "Ok".to_string() }), PurityAction::Allow);
    assert_eq!(purity_action(&ExprShape::PathCall { last_segment: "Err".to_string() }), PurityAction::Allow);
    assert_eq!(purity_action(&ExprShape::PathCall { last_segment: "pure_add".to_string() }), PurityAction::RequirePure);
    assert!(matches!(purity_action(&ExprShape::OtherCall), PurityAction::Reject(_)));
    assert_eq!(purity_action(&ExprShape::Other), PurityAction::Continue);
    assert_eq!(original_impl_name("process"), "process_original_impl");
    assert_eq!(memo_original_name("fib"), "fib_original");
}

#[test]
fn memoized_argument_grammar() {
    let cap = |n: usize| ArgToken::IntLit(Some(n));
    let ident = |s: &str| ArgToken::Ident(s.to_string());
    assert_eq!(parse_memoized_args(&vec![]), Ok(None));
    assert_eq!(parse_memoized_args(&vec![ident("capacity"), ArgToken::Equals, cap(200)]), Ok(Some(200)));
    assert_eq!(
        parse_memoized_args(&vec![
            ident("capacity"), ArgToken::Equals, cap(5), ArgToken::Comma,
            ident("capacity"), ArgToken::Equals, cap(7),
        ]),
        Ok(Some(7))
    );
    let err = parse_memoized_args(&vec![ident("size"), ArgToken::Equals, cap(5)]).unwrap_err();
    assert_eq!((err.kind, err.at), (ArgsErrorKind::UnknownArgument, 0));
    let err = parse_memoized_args(&vec![ident("capacity"), cap(5)]).unwrap_err();
    assert_eq!((err.kind, err.at), (ArgsErrorKind::ExpectedEquals, 1));
    let err = parse_memoized_args(&vec![ident("capacity"), ArgToken::Equals]).unwrap_err();
    assert_eq!((err.kind, err.at), (ArgsErrorKind::ExpectedLiteral, 2));
    let err = parse_memoized_args(&vec![ident("capacity"), ArgToken::Equals, ArgToken::OtherLit]).unwrap_err();
    assert_eq!(err.kind, ArgsErrorKind::NotAnInteger);
    let err = parse_memoized_args(&vec![ident("capacity"), ArgToken::Equals, ArgToken::IntLit(None)]).unwrap_err();
    assert_eq!(err.kind, ArgsErrorKind::IntegerOutOfRange);
    let err = parse_memoized_args(&vec![ArgToken::Comma]).unwrap_err();
    assert_eq!((err.kind, err.at), (ArgsErrorKind::ExpectedIdentifier, 0));
    let err = parse_memoized_args(&vec![ident("capacity"), ArgToken::Equals, cap(1), ArgToken::Comma, ArgToken::Comma]).unwrap_err();
    assert_eq!((err.kind, err.at), (ArgsErrorKind::ExpectedIdentifier, 4));
}

#[test]
fn memoized_names_and_capacity() {
    assert_eq!(cache_name("fibonacci_memoized"), "FIBONACCI_MEMOIZED_CACHE");
    assert_eq!(cache_name("straße"), "STRASSE_CACHE");
    assert_eq!(memo_capacity(None), 1000);
    assert_eq!(DEFAULT_MEMO_CAPACITY, 1000);
    assert_eq!(memo_capacity(Some(200)), 200);
}

#[test]
fn result_type_shapes() {
    let shape = |name: &str, args: Option<Vec<GenericArgShape>>| TypeShape::Path { last_segment: Some(name.to_string()), angle_args: args };
    assert!(is_result_type(&shape("Result", Some(vec![GenericArgShape::Type, GenericArgShape::Type]))));
    assert!(!is_result_type(&shape("Result", Some(vec![GenericArgShape::Type]))));
    assert!(!is_result_type(&shape("Result", Some(vec![GenericArgShape::Type, GenericArgShape::Other]))));
    assert!(!is_result_type(&shape("Option", Some(vec![GenericArgShape::Type, GenericArgShape::Type]))));
    assert!(!is_result_type(&shape("Result", None)));
    assert!(!is_result_type(&TypeShape::Other));
}

#[test]
fn pascal_case_is_idempotent_and_keeps_letters() {
    for s in ["fibonacci_memoized", "__a__b_", "x", "", "already_Pascal"] {
        let once = to_pascal_case(s);
        assert_eq!(to_pascal_case(&once), once);
        assert_eq!(once.chars().count(), s.chars().filter(|c| *c != '_').count());
    }
}

#[test]
fn pipex_result_clones_and_compares() {
    let original: PipexResult<i32, String> = PipexResult::new(Err("e".to_string()), "CollectHandler");
    let copy = original.clone();
    assert_eq!(copy, original);
    assert_ne!(copy, PipexResult::new(Ok(1), "CollectHandler"));
}
