//! Circuit sizing: the smallest power of two that holds a number of rows.

use vstd::arithmetic::power2::{
    lemma2_to64, lemma_pow2_strictly_increases, lemma_pow2_unfold, pow2,
};
use vstd::prelude::*;

verus! {

/// `k` is the smallest exponent with `2^k >= n`.
pub open spec fn is_ceil_log2(k: nat, n: nat) -> bool {
    &&& pow2(k) >= n
    &&& forall|j: nat| j < k ==> #[trigger] pow2(j) < n
}

/// The smallest exponent `k` with `2^k >= n`.
pub open spec fn ceil_log2(n: nat) -> nat {
    choose|k: nat| is_ceil_log2(k, n)
}

/// Two exponents that are both minimal for `n` are equal.
pub proof fn lemma_ceil_log2_unique(a: nat, b: nat, n: nat)
    requires
        is_ceil_log2(a, n),
        is_ceil_log2(b, n),
    ensures
        a == b,
{
    if a < b {
        assert(pow2(a) < n);
    } else if b < a {
        assert(pow2(b) < n);
    }
}

/// `ceil_log2(n)` is the smallest exponent whose power of two reaches `n`.
pub proof fn lemma_ceil_log2_spec(n: nat)
    ensures
        is_ceil_log2(ceil_log2(n), n),
    decreases n,
{
    lemma2_to64();
    if n <= 1 {
        assert(is_ceil_log2(0, n));
    } else {
        let m: nat = ((n + 1) / 2) as nat;
        lemma_ceil_log2_spec(m);
        let k = ceil_log2(m);
        lemma_pow2_unfold(k + 1);
        assert forall|j: nat| j < k + 1 implies #[trigger] pow2(j) < n by {
            if j > 0 {
                assert(pow2((j - 1) as nat) < m);
                lemma_pow2_unfold(j);
            }
        }
        assert(is_ceil_log2(k + 1, n));
    }
}

/// The exponent never decreases when the row count grows.
pub proof fn lemma_ceil_log2_monotonic(n1: nat, n2: nat)
    requires
        n1 <= n2,
    ensures
        ceil_log2(n1) <= ceil_log2(n2),
{
    lemma_ceil_log2_spec(n1);
    lemma_ceil_log2_spec(n2);
    if ceil_log2(n2) < ceil_log2(n1) {
        assert(pow2(ceil_log2(n2)) < n1);
    }
}

/// Rows kept free of tables and trace for the proving engine's own use.
pub const SIZE_MARGIN: usize = 64;

/// The circuit size exponent for the three row budgets: each budget plus the
/// margin is rounded up to a power of two, and the largest exponent is taken.
pub open spec fn size_exponent(fixed_rows: nat, bytecode_rows: nat, trace_rows: nat) -> nat {
    let a = ceil_log2((SIZE_MARGIN + fixed_rows) as nat);
    let b = ceil_log2((SIZE_MARGIN + bytecode_rows) as nat);
    let c = ceil_log2((SIZE_MARGIN + trace_rows) as nat);
    let ab = if a >= b { a } else { b };
    if ab >= c { ab } else { c }
}

/// Growing any of the three budgets never shrinks the size exponent.
pub proof fn lemma_size_exponent_monotonic(
    fixed1: nat,
    bytecode1: nat,
    trace1: nat,
    fixed2: nat,
    bytecode2: nat,
    trace2: nat,
)
    requires
        fixed1 <= fixed2,
        bytecode1 <= bytecode2,
        trace1 <= trace2,
    ensures
        size_exponent(fixed1, bytecode1, trace1) <= size_exponent(fixed2, bytecode2, trace2),
{
    lemma_ceil_log2_monotonic((SIZE_MARGIN + fixed1) as nat, (SIZE_MARGIN + fixed2) as nat);
    lemma_ceil_log2_monotonic((SIZE_MARGIN + bytecode1) as nat, (SIZE_MARGIN + bytecode2) as nat);
    lemma_ceil_log2_monotonic((SIZE_MARGIN + trace1) as nat, (SIZE_MARGIN + trace2) as nat);
}

/// A circuit of size exponent `size_exponent(..)` holds each budget plus the
/// margin.
pub proof fn lemma_size_exponent_fits(fixed_rows: nat, bytecode_rows: nat, trace_rows: nat)
    ensures
        pow2(size_exponent(fixed_rows, bytecode_rows, trace_rows)) >= SIZE_MARGIN + fixed_rows,
        pow2(size_exponent(fixed_rows, bytecode_rows, trace_rows)) >= SIZE_MARGIN + bytecode_rows,
        pow2(size_exponent(fixed_rows, bytecode_rows, trace_rows)) >= SIZE_MARGIN + trace_rows,
{
    let k = size_exponent(fixed_rows, bytecode_rows, trace_rows);
    lemma_ceil_log2_spec((SIZE_MARGIN + fixed_rows) as nat);
    lemma_ceil_log2_spec((SIZE_MARGIN + bytecode_rows) as nat);
    lemma_ceil_log2_spec((SIZE_MARGIN + trace_rows) as nat);
    let a = ceil_log2((SIZE_MARGIN + fixed_rows) as nat);
    let b = ceil_log2((SIZE_MARGIN + bytecode_rows) as nat);
    let c = ceil_log2((SIZE_MARGIN + trace_rows) as nat);
    if a < k {
        lemma_pow2_strictly_increases(a, k);
    }
    if b < k {
        lemma_pow2_strictly_increases(b, k);
    }
    if c < k {
        lemma_pow2_strictly_increases(c, k);
    }
}

/// The size exponent for a fixed table of `fixed_rows` rows, `bytecode_rows`
/// bytecode bytes and a trace of `trace_rows` rows.
pub fn min_size_exponent(fixed_rows: usize, bytecode_rows: usize, trace_rows: usize) -> (k: u32)
    requires
        SIZE_MARGIN + fixed_rows <= usize::MAX,
        SIZE_MARGIN + bytecode_rows <= usize::MAX,
        SIZE_MARGIN + trace_rows <= usize::MAX,
    ensures
        k == size_exponent(fixed_rows as nat, bytecode_rows as nat, trace_rows as nat),
{
    let k = log2_ceil(SIZE_MARGIN + fixed_rows);
    let b = log2_ceil(SIZE_MARGIN + bytecode_rows);
    let k = if k >= b { k } else { b };
    let c = log2_ceil(SIZE_MARGIN + trace_rows);
    if k >= c { k } else { c }
}

/// Smallest `k` with `2^k >= n`.
pub fn log2_ceil(n: usize) -> (k: u32)
    ensures
        k as nat == ceil_log2(n as nat),
{
    let mut p: u128 = 1;
    let mut k: u32 = 0;
    proof {
        lemma2_to64();
    }
    while p < n as u128
        invariant
            p as nat == pow2(k as nat),
            p >= 1,
            k <= 64,
            forall|j: nat| j < k ==> #[trigger] pow2(j) < n,
        decreases 64 - k,
    {
        assert(k < 64) by {
            if k >= 64 {
                lemma_pow2_64(k as nat);
            }
        }
        proof {
            lemma_pow2_unfold((k + 1) as nat);
        }
        p = p * 2;
        k = k + 1;
    }
    proof {
        lemma_ceil_log2_spec(n as nat);
        lemma_ceil_log2_unique(k as nat, ceil_log2(n as nat), n as nat);
    }
    k
}

proof fn lemma_pow2_64(k: nat)
    requires
        k >= 64,
    ensures
        pow2(k) > usize::MAX,
{
    lemma2_to64();
    if k > 64 {
        lemma_pow2_strictly_increases(64, k);
    }
}

} // verus!
