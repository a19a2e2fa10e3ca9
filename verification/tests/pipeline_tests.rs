use std::cell::RefCell;
use std::time::Instant;

use pipex::memo::{pair_key, MemoCache};
use pipex::pipeline::{into_pipeline, pipeline_step, pipeline_step_with_strategy};
use pipex::registry::StrategyRegistry;
use pipex::PipexResult;

// Test sync function with the ignore strategy attached to its results
fn sync_process_and_ignore(x: i32) -> PipexResult<i32, String> {
    let result = if x == 3 { Err("failed on 3".to_string()) } else { Ok(x * 2) };
    PipexResult::new(result, "IgnoreHandler")
}

#[test]
fn test_sync_step_with_error_strategy() {
    let items = into_pipeline(vec![1, 2, 3, 4, 5]);
    let no_custom_strategies: StrategyRegistry<fn(Vec<Result<i32, String>>) -> Vec<Result<i32, String>>> =
        StrategyRegistry::new();
    let (items, _reported) = pipeline_step_with_strategy(items, &no_custom_strategies, |x| sync_process_and_ignore(x));
    let result = pipeline_step(items, |x| Ok::<i32, String>(x + 1));

    // Should ignore errors due to IgnoreHandler strategy, only return successes
    assert_eq!(result.len(), 4); // 3 is filtered out by IgnoreHandler
    assert!(result.iter().all(|r| r.is_ok()));

    println!("result: {:?}", result);

    let values: Vec<i32> = result.into_iter().map(|r| r.unwrap()).collect();
    let expected_values = vec![3, 5, 9, 11]; // (1*2)+1, (2*2)+1, (4*2)+1, (5*2)+1 (3 filtered out)
    let mut actual_values = values;
    actual_values.sort(); // Ensure order for comparison
    assert_eq!(actual_values, expected_values);
}

// === Pure function tests ===

fn pure_add(a: i32, b: i32) -> i32 {
    a + b
}

fn pure_multiply(a: i32, b: i32) -> i32 {
    pure_add(a, b) * 2
}

fn pure_transform(x: i32) -> i32 {
    x * x + 1
}

#[test]
fn test_pure_functions() {
    assert_eq!(pure_add(5, 3), 8);
    assert_eq!(pure_multiply(4, 2), 12); // (4+2)*2
    assert_eq!(pure_transform(6), 37); // 6*6+1
}

#[test]
fn test_pure_function_composition() {
    let result = pure_multiply(3, 4);
    assert_eq!(result, 14); // (3+4)*2

    let step1 = pure_add(2, 3); // = 5
    let step2 = pure_transform(step1); // = 5*5+1 = 26
    let step3 = pure_add(step2, 4); // = 26+4 = 30
    assert_eq!(step3, 30);
}

#[test]
fn test_pure_functions_in_pipeline() {
    let items = into_pipeline(vec![1, 2, 3, 4, 5]);
    let items = pipeline_step(items, |x| Ok::<i32, String>(pure_transform(x)));
    let result = pipeline_step(items, |x| Ok::<i32, String>(pure_add(x, 10)));

    assert_eq!(result.len(), 5);
    assert!(result.iter().all(|r| r.is_ok()));

    let values: Vec<i32> = result.into_iter().map(|r| r.unwrap()).collect();
    // [(1*1+1)+10, (2*2+1)+10, (3*3+1)+10, (4*4+1)+10, (5*5+1)+10]
    assert_eq!(values, vec![12, 15, 20, 27, 36]);
}

// === Memoization tests ===

fn fibonacci_memoized(cache: &mut MemoCache<u64>, n: u64) -> u64 {
    if let Some(cached) = cache.lookup(n) {
        return cached;
    }
    let result = if n <= 1 {
        n
    } else {
        fibonacci_memoized(cache, n - 1) + fibonacci_memoized(cache, n - 2)
    };
    cache.store(n, result);
    result
}

fn expensive_computation(cache: &mut MemoCache<i32>, x: i32, y: i32) -> i32 {
    cache.memo_call(pair_key(x, y), |_key| {
        let mut result = x * x + y * y;
        for i in 0..1000 {
            result = result + (i % 2);
        }
        result
    })
}

fn advanced_mathematical_operation(cache: &mut MemoCache<Result<i32, String>>, x: i32, y: i32) -> Result<i32, String> {
    let key = pair_key(x, y);
    if let Some(cached) = cache.lookup(key) {
        return cached;
    }
    let result = if x < 0 || y < 0 {
        Err(format!("Negative inputs not supported: x={}, y={}", x, y))
    } else if x > 100 || y > 100 {
        Err(format!("Inputs too large: x={}, y={}", x, y))
    } else {
        let mut result = x * x + y * y;
        for i in 1..10 {
            result = result + (i * (x + y)) / (i + 1);
        }
        Ok(result)
    };
    cache.store(key, result.clone());
    result
}

#[test]
fn test_memoized_basic_functionality() {
    let mut fib_cache = MemoCache::new(1000);
    assert_eq!(fibonacci_memoized(&mut fib_cache, 10), 55);
    assert_eq!(fibonacci_memoized(&mut fib_cache, 15), 610);

    let mut cache = MemoCache::new(100);
    let result1 = expensive_computation(&mut cache, 3, 4);
    let result2 = expensive_computation(&mut cache, 5, 12);

    assert_eq!(expensive_computation(&mut cache, 3, 4), result1);
    assert_eq!(expensive_computation(&mut cache, 5, 12), result2);
}

#[test]
fn test_memoized_performance_improvement() {
    let mut cache = MemoCache::new(100);

    // First call - computes and caches
    let start = Instant::now();
    let result1 = expensive_computation(&mut cache, 10, 20);
    let duration1 = start.elapsed();

    // Second call - from the cache
    let start = Instant::now();
    let result2 = expensive_computation(&mut cache, 10, 20);
    let duration2 = start.elapsed();

    assert_eq!(result1, result2);

    if duration2 > duration1 {
        println!("Cache wasn't faster this time (timing variance): {:?} vs {:?}", duration2, duration1);
        println!("  This is normal in test environments with timing variance");
    } else {
        println!("Cache was faster: {:?} vs {:?}", duration2, duration1);
    }
}

#[test]
fn test_memoized_with_different_parameters() {
    let mut cache = MemoCache::new(100);
    let result1 = expensive_computation(&mut cache, 1, 1);
    let result2 = expensive_computation(&mut cache, 2, 2);
    let result3 = expensive_computation(&mut cache, 3, 3);

    assert_eq!(expensive_computation(&mut cache, 1, 1), result1);
    assert_eq!(expensive_computation(&mut cache, 2, 2), result2);
    assert_eq!(expensive_computation(&mut cache, 3, 3), result3);
}

#[test]
fn test_memoized_in_pipeline() {
    let cache = RefCell::new(MemoCache::new(100));
    let items = into_pipeline(vec![(1, 1), (2, 2), (3, 3), (1, 1)]); // (1,1) appears twice
    let items = pipeline_step(items, |pair: (i32, i32)| {
        Ok::<i32, String>(expensive_computation(&mut cache.borrow_mut(), pair.0, pair.1))
    });
    let result = pipeline_step(items, |x| Ok::<i32, String>(x * 2));

    assert_eq!(result.len(), 4);
    assert!(result.iter().all(|r| r.is_ok()));

    let values: Vec<i32> = result.into_iter().map(|r| r.unwrap()).collect();

    assert_eq!(values.len(), 4);
    assert_eq!(values[0], values[3]); // (1,1) appears twice, should be same result
}

#[test]
fn test_fibonacci_memoization() {
    let mut cache = MemoCache::new(1000);
    assert_eq!(fibonacci_memoized(&mut cache, 20), 6765);
    assert_eq!(fibonacci_memoized(&mut cache, 25), 75025);

    // Calling again uses the cached intermediate results
    assert_eq!(fibonacci_memoized(&mut cache, 22), 17711);
}

#[test]
fn test_triple_power_error_pure_memoized() {
    let cache = RefCell::new(MemoCache::new(200));

    // Successful operations are memoized
    let result1 = advanced_mathematical_operation(&mut cache.borrow_mut(), 5, 10);
    assert!(result1.is_ok());
    let value1 = result1.unwrap();

    // Same parameters again - from the cache
    let result2 = advanced_mathematical_operation(&mut cache.borrow_mut(), 5, 10);
    assert!(result2.is_ok());
    assert_eq!(result2.unwrap(), value1);

    // Error cases
    let error_result1 = advanced_mathematical_operation(&mut cache.borrow_mut(), -1, 5);
    assert!(error_result1.is_err());
    assert!(error_result1.unwrap_err().contains("Negative inputs not supported"));

    let error_result2 = advanced_mathematical_operation(&mut cache.borrow_mut(), 150, 10);
    assert!(error_result2.is_err());
    assert!(error_result2.unwrap_err().contains("Inputs too large"));

    // In a pipeline with mixed success/error cases
    let input_data = vec![
        (5, 10),  // valid - cached
        (-1, 5),  // error - negative input
        (10, 20), // valid
        (5, 10),  // valid - from the cache
        (200, 5), // error - too large
    ];

    let items = into_pipeline(input_data);
    let items = pipeline_step(items, |pair: (i32, i32)| {
        advanced_mathematical_operation(&mut cache.borrow_mut(), pair.0, pair.1)
    });
    let pipeline_result = pipeline_step(items, |x| Ok::<i32, String>(x + 100));

    assert_eq!(pipeline_result.len(), 5);

    assert!(pipeline_result[0].is_ok());
    assert!(pipeline_result[1].is_err());
    assert!(pipeline_result[2].is_ok());
    assert!(pipeline_result[3].is_ok());
    assert!(pipeline_result[4].is_err());

    let first_success = pipeline_result[0].as_ref().unwrap();
    let cached_success = pipeline_result[3].as_ref().unwrap();
    assert_eq!(first_success, cached_success);

    let success_count = pipeline_result.iter().filter(|r| r.is_ok()).count();
    let error_count = pipeline_result.iter().filter(|r| r.is_err()).count();

    assert_eq!(success_count, 3);
    assert_eq!(error_count, 2);

    println!("Results: {} success, {} errors", success_count, error_count);
}
