//! Standalone modular scalar routines: a factorial and a triple-sum, both
//! reduced modulo the prime 1_000_000_007.

use vstd::prelude::*;

verus! {

use vstd::arithmetic::div_mod::{lemma_add_mod_noop, lemma_mod_twice};

/// `n! mod 1_000_000_007`, with the reduction applied after every factor.
pub open spec fn fact_mod(n: int) -> int
    decreases n,
{
    if n <= 0 {
        1
    } else {
        (fact_mod(n - 1) * n) % 1_000_000_007
    }
}

/// One term of the triple sum: `((i + k) mod 10) * ((k + j) mod 10)`.
pub open spec fn cell(i: int, k: int, j: int) -> int {
    ((i + k) % 10) * ((k + j) % 10)
}

/// Sum of `cell(i, k, j')` over `j' < j`.
pub open spec fn sum_j(i: int, k: int, j: int) -> int
    decreases j,
{
    if j <= 0 {
        0
    } else {
        sum_j(i, k, j - 1) + cell(i, k, j - 1)
    }
}

/// Sum of `sum_j(i, k', n)` over `k' < k`.
pub open spec fn sum_k(i: int, k: int, n: int) -> int
    decreases k,
{
    if k <= 0 {
        0
    } else {
        sum_k(i, k - 1, n) + sum_j(i, k - 1, n)
    }
}

/// Sum of `sum_k(i', n, n)` over `i' < i`.
pub open spec fn sum_i(i: int, n: int) -> int
    decreases i,
{
    if i <= 0 {
        0
    } else {
        sum_i(i - 1, n) + sum_k(i - 1, n, n)
    }
}

/// The triple sum over all `i, k, j < n`, reduced mod 1_000_000_007.
pub open spec fn matmul_spec(n: int) -> int {
    sum_i(n, n) % 1_000_000_007
}

/// Congruence mod 1_000_000_007 is preserved by adding the same term.
proof fn lemma_cong_add(a: int, b: int, c: int)
    requires
        a % 1_000_000_007 == b % 1_000_000_007,
    ensures
        (a + c) % 1_000_000_007 == (b + c) % 1_000_000_007,
{
    lemma_add_mod_noop(a, c, 1_000_000_007);
    lemma_add_mod_noop(b, c, 1_000_000_007);
}

/// `n! mod 1_000_000_007`: the running product is reduced after every
/// factor, exactly as `fact_mod` states.
pub fn factorial_mod(n: u32) -> (r: u32)
    ensures
        r as int == fact_mod(n as int),
{
    let limit = n as u64;
    let mut res: u64 = 1;
    let mut i: u64 = 1;
    while i <= limit
        invariant
            1 <= i <= limit + 1,
            limit == n,
            res < 1_000_000_007,
            res as int == fact_mod(i as int - 1),
        decreases limit + 1 - i,
    {
        proof {
            assert(0 <= (res as int) * (i as int) <= 1_000_000_006 * 0xFFFF_FFFF)
                by (nonlinear_arith)
                requires
                    0 <= res as int <= 1_000_000_006,
                    0 <= i as int <= 0xFFFF_FFFF,
            ;
        }
        res = (res * i) % 1_000_000_007;
        i += 1;
    }
    res as u32
}

/// The modular triple sum: for every `i, k, j < n` the term
/// `((i + k) mod 10) * ((k + j) mod 10)` is accumulated, reducing mod
/// 1_000_000_007 whenever the accumulator reaches the modulus; the result
/// is the whole sum mod 1_000_000_007.
#[verifier::loop_isolation(false)]
pub fn matmul_sum(n: u32) -> (r: u64)
    ensures
        r as int == matmul_spec(n as int),
{
    let nn = n as u64;
    let mut sum: u64 = 0;
    let mut i: u64 = 0;
    while i < nn
        invariant
            i <= nn,
            sum < 1_000_000_007,
            (sum as int) % 1_000_000_007 == sum_i(i as int, n as int) % 1_000_000_007,
        decreases nn - i,
    {
        let mut k: u64 = 0;
        while k < nn
            invariant
                i < nn,
                k <= nn,
                sum < 1_000_000_007,
                (sum as int) % 1_000_000_007 == (sum_i(i as int, n as int) + sum_k(
                    i as int, k as int, n as int,
                )) % 1_000_000_007,
            decreases nn - k,
        {
            let a = (i + k) % 10;
            let mut j: u64 = 0;
            while j < nn
                invariant
                    i < nn,
                    k < nn,
                    j <= nn,
                    a == ((i + k) as int) % 10,
                    sum < 1_000_000_007,
                    (sum as int) % 1_000_000_007 == (sum_i(i as int, n as int) + sum_k(
                        i as int, k as int, n as int,
                    ) + sum_j(i as int, k as int, j as int)) % 1_000_000_007,
                decreases nn - j,
            {
                let b = (k + j) % 10;
                proof {
                    assert(0 <= (a as int) * (b as int) <= 81) by (nonlinear_arith)
                        requires
                            0 <= a as int <= 9,
                            0 <= b as int <= 9,
                    ;
                }
                let ab = a * b;
                let ghost acc_old = sum as int;
                let ghost partial = sum_i(i as int, n as int) + sum_k(i as int, k as int, n as int)
                    + sum_j(i as int, k as int, j as int);
                sum = sum + ab;
                if sum >= 1_000_000_007 {
                    sum = sum % 1_000_000_007;
                }
                proof {
                    lemma_cong_add(acc_old, partial, ab as int);
                    lemma_mod_twice(acc_old + ab, 1_000_000_007);
                    assert(cell(i as int, k as int, j as int) == ab);
                }
                j += 1;
            }
            k += 1;
        }
        i += 1;
    }
    let r = sum % 1_000_000_007;
    proof {
        lemma_mod_twice(sum as int, 1_000_000_007);
    }
    r
}

} // verus!
