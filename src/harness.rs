//! Instance inputs for checking a circuit: the powers of the random challenge,
//! one column per power.

use crate::sizing::SIZE_MARGIN;
use vstd::arithmetic::power2::{
    lemma2_to64, lemma_pow2_strictly_increases, lemma_pow2_unfold, pow2,
};
use vstd::prelude::*;

verus! {

/// Number of challenge powers handed to the circuit: `r^1` through `r^31`.
pub const NUM_POWERS: usize = 31;

/// Usable rows of a circuit of size exponent `k`: all but the margin.
pub open spec fn usable_rows(k: nat) -> int {
    pow2(k) - SIZE_MARGIN
}

/// One column per entry of `powers`, each holding that power on every usable
/// row of a circuit of size exponent `k`.
pub fn power_of_randomness_columns<T: Copy>(powers: &Vec<T>, k: u32) -> (r: Vec<Vec<T>>)
    requires
        SIZE_MARGIN <= pow2(k as nat) <= usize::MAX,
    ensures
        r@.len() == powers@.len(),
        forall|i: int|
            0 <= i < r@.len() ==> #[trigger] r@[i]@ == Seq::new(
                usable_rows(k as nat) as nat,
                |_j: int| powers@[i],
            ),
{
    let mut size: usize = 1;
    let mut e: u32 = 0;
    proof {
        lemma2_to64();
    }
    while e < k
        invariant
            e <= k,
            size == pow2(e as nat),
            pow2(k as nat) <= usize::MAX,
        decreases k - e,
    {
        proof {
            lemma_pow2_unfold((e + 1) as nat);
            if e + 1 < k {
                lemma_pow2_strictly_increases((e + 1) as nat, k as nat);
            }
        }
        size = size * 2;
        e = e + 1;
    }
    let n: usize = size - SIZE_MARGIN;
    let mut r: Vec<Vec<T>> = Vec::new();
    let mut i: usize = 0;
    while i < powers.len()
        invariant
            i <= powers@.len(),
            n == usable_rows(k as nat),
            r@.len() == i,
            forall|m: int|
                0 <= m < i ==> #[trigger] r@[m]@ == Seq::new(n as nat, |_j: int| powers@[m]),
        decreases powers@.len() - i,
    {
        let value = powers[i];
        let mut column: Vec<T> = Vec::new();
        let mut j: usize = 0;
        while j < n
            invariant
                j <= n,
                column@.len() == j,
                forall|m: int| 0 <= m < j ==> column@[m] == value,
            decreases n - j,
        {
            column.push(value);
            j = j + 1;
        }
        proof {
            assert(column@ =~= Seq::new(n as nat, |_j: int| powers@[i as int]));
        }
        r.push(column);
        i = i + 1;
    }
    r
}

} // verus!
