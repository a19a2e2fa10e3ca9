//! The computations that the benchmark pipelines run on their items.

use vstd::prelude::*;

verus! {

/// The sum `1 + 2 + ... + m`.
pub open spec fn triangle(m: nat) -> nat
    decreases m,
{
    if m == 0 {
        0
    } else {
        m + triangle((m - 1) as nat)
    }
}

/// A larger bound gives a larger sum.
proof fn lemma_triangle_monotonic(i: nat, j: nat)
    requires
        i <= j,
    ensures
        triangle(i) <= triangle(j),
    decreases j,
{
    if i < j {
        lemma_triangle_monotonic(i, (j - 1) as nat);
    }
}

/// Twice the sum is `m * (m + 1)`.
proof fn lemma_triangle_closed_form(m: nat)
    ensures
        2 * triangle(m) == m * (m + 1),
    decreases m,
{
    if m > 0 {
        let p = (m - 1) as nat;
        lemma_triangle_closed_form(p);
        assert(2 * m + p * (p + 1) == m * (m + 1)) by (nonlinear_arith)
            requires
                p + 1 == m,
        ;
    } else {
        assert(m * (m + 1) == 0) by (nonlinear_arith)
            requires
                m == 0,
        ;
    }
}

/// The sum `1 + 2 + ... + m`, for `m` up to 10000.
fn sum_up_to(m: u64) -> (total: u64)
    requires
        m <= 10000,
    ensures
        total == triangle(m as nat),
        total <= 50_005_000,
{
    let mut total: u64 = 0;
    let mut x: u64 = 1;
    proof {
        lemma_triangle_closed_form(10000);
    }
    while x <= m
        invariant
            1 <= x <= m + 1,
            m <= 10000,
            total == triangle((x - 1) as nat),
            triangle(10000) == 50_005_000,
        decreases m + 1 - x,
    {
        proof {
            lemma_triangle_monotonic(x as nat, 10000);
        }
        total = total + x;
        x = x + 1;
    }
    proof {
        lemma_triangle_monotonic(m as nat, 10000);
    }
    total
}

/// The CPU-heavy work of the benchmarks: the input is capped at 1000, and
/// the sum `1 + ... + 10 * n` is taken modulo 1000.
pub fn heavy_cpu_work(n: u32) -> (r: u32)
    ensures
        r == triangle(10 * (if n < 1000 { n as nat } else { 1000 })) % 1000,
{
    let capped: u32 = if n < 1000 { n } else { 1000 };
    let total = sum_up_to(capped as u64 * 10);
    (total as u32) % 1000
}

/// The CPU part of the mixed benchmark work: the input is capped at 1000,
/// and the sum `1 + ... + 5 * n` is taken modulo 100.
pub fn mixed_cpu_work(n: u32) -> (r: u32)
    ensures
        r == triangle(5 * (if n < 1000 { n as nat } else { 1000 })) % 100,
{
    let capped: u32 = if n < 1000 { n } else { 1000 };
    let total = sum_up_to(capped as u64 * 5);
    (total as u32) % 100
}

} // verus!
