//! The fixed candidate evaluation order.
//!
//! The language model ranks candidates probability-descending, and
//! probability-adjacent words are often orthographically similar, so their
//! ideal paths are geometrically correlated and the best-so-far threshold
//! tightens slowly when they are visited in that order.  The search
//! therefore walks the candidate list in one fixed pseudo-random
//! permutation, generated deterministically once at construction and
//! reused for every query; it is an ordering strategy, not a source of
//! nondeterminism.

use vstd::prelude::*;

verus! {

/// The sequence is a permutation of `0 .. n`: right length, in range,
/// no repeats.
pub open spec fn is_permutation(s: Seq<usize>, n: int) -> bool {
    &&& s.len() == n
    &&& forall|i: int| 0 <= i < s.len() ==> (#[trigger] s[i]) < n
    &&& forall|i: int, j: int| 0 <= i < j < s.len() ==> s[i] != s[j]
}

/// One step of the xorshift pseudo-random generator.
fn xorshift(state: u64) -> u64 {
    let mut x = state;
    x = x ^ (x << 13u64);
    x = x ^ (x >> 7u64);
    x = x ^ (x << 17u64);
    x
}

/// A fixed pseudo-random permutation of `0 .. n`, the same on every run:
/// the identity shuffled by a deterministically seeded Fisher-Yates pass.
pub fn make_candidate_order(n: usize) -> (r: Vec<usize>)
    ensures
        is_permutation(r@, n as int),
{
    let mut order: Vec<usize> = Vec::new();
    let mut i: usize = 0;
    while i < n
        invariant
            0 <= i <= n,
            order@.len() == i,
            forall|k: int| 0 <= k < i ==> (#[trigger] order@[k]) == k,
        decreases n - i,
    {
        order.push(i);
        i = i + 1;
    }
    let mut state: u64 = 0x9E37_79B9_7F4A_7C15;
    let mut i: usize = n;
    while i > 1
        invariant
            0 <= i <= n,
            order@.len() == n,
            forall|k: int| 0 <= k < n ==> (#[trigger] order@[k]) < n,
            forall|a: int, b: int| 0 <= a < b < n ==> order@[a] != order@[b],
        decreases i,
    {
        state = xorshift(state);
        let j: usize = (state % (i as u64)) as usize;
        let last = i - 1;
        let vi = order[last];
        let vj = order[j];
        order[last] = vj;
        order[j] = vi;
        proof {
            assert(forall|a: int, b: int| 0 <= a < b < n ==> order@[a] != order@[b]);
        }
        i = i - 1;
    }
    order
}

} // verus!
