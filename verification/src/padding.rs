//! Power-of-two batch padding.
//!
//! Aggregated range proofs operate on batches whose length is a power of two.
//! A shorter batch is padded by repeating its *last* element unchanged — never
//! with zero or random filler — so the padded entries are indistinguishable
//! from genuine duplicates and the true batch size is not leaked.

use vstd::prelude::*;

use crate::errors::RangeProofError;

verus! {

/// The smallest power of two that is at least `n` (and 1 when `n` is 0).
pub open spec fn next_pow2(n: nat) -> nat
    decreases n,
{
    if n <= 1 {
        1
    } else {
        2 * next_pow2(((n + 1) / 2) as nat)
    }
}

/// Whether `m` is a power of two.
pub open spec fn is_pow2(m: nat) -> bool
    decreases m,
{
    if m == 0 {
        false
    } else if m == 1 {
        true
    } else {
        m % 2 == 0 && is_pow2((m / 2) as nat)
    }
}

/// Any two powers of two are separated by at least a factor of two.
pub proof fn lemma_pow2_gap(a: nat, b: nat)
    requires
        is_pow2(a),
        is_pow2(b),
        a < b,
    ensures
        2 * a <= b,
    decreases a,
{
    if a == 1 {
        assert(b % 2 == 0);
    } else {
        lemma_pow2_gap((a / 2) as nat, (b / 2) as nat);
    }
}

/// `next_pow2` never returns zero.
pub proof fn lemma_next_pow2_pos(n: nat)
    ensures
        next_pow2(n) >= 1,
    decreases n,
{
    if n > 1 {
        lemma_next_pow2_pos(((n + 1) / 2) as nat);
    }
}

/// `next_pow2(n)` is a power of two, is at least `n`, and stays below `2 * n`.
pub proof fn lemma_next_pow2_bounds(n: nat)
    requires
        n >= 1,
    ensures
        is_pow2(next_pow2(n)),
        next_pow2(n) >= n,
        next_pow2(n) < 2 * n,
    decreases n,
{
    if n > 1 {
        lemma_next_pow2_bounds(((n + 1) / 2) as nat);
    }
}

/// Minimality: no smaller power of two lies at or above `n`, so `next_pow2(n)`
/// is the *smallest* power of two that is at least `n`.
pub proof fn lemma_next_pow2_minimal(n: nat, p: nat)
    requires
        n >= 1,
        is_pow2(p),
        p >= n,
    ensures
        p >= next_pow2(n),
    decreases n,
{
    if n > 1 {
        assert(p % 2 == 0);
        lemma_next_pow2_minimal(((n + 1) / 2) as nat, (p / 2) as nat);
    }
}

/// The next power of two at or above `n`, or `None` when it would not fit in
/// `usize`.
pub fn checked_next_pow2(n: usize) -> (r: Option<usize>)
    ensures
        match r {
            Some(p) => p as nat == next_pow2(n as nat),
            None => next_pow2(n as nat) > usize::MAX,
        },
{
    proof {
        lemma_next_pow2_pos(n as nat);
    }
    let mut p: usize = 1;
    while p < n
        invariant
            1 <= p,
            is_pow2(p as nat),
            p as nat <= next_pow2(n as nat),
        decreases next_pow2(n as nat) - p,
    {
        proof {
            lemma_next_pow2_bounds(n as nat);
            lemma_pow2_gap(p as nat, next_pow2(n as nat));
        }
        if p > usize::MAX / 2 {
            return None;
        }
        p = p * 2;
    }
    proof {
        if n >= 1 {
            lemma_next_pow2_minimal(n as nat, p as nat);
        }
    }
    Some(p)
}

/// Return a vector which is the slice plus enough copies of its final element
/// that the length of the vector is a power of two.
///
/// The original elements keep their positions; every added element equals the
/// original last element. If no representable power of two lies at or above
/// the current length, `PaddingOverflow` is returned.
pub fn resize_slice_to_pow2<T: Copy>(slice: &Vec<T>) -> (r: Result<Vec<T>, RangeProofError>)
    requires
        slice@.len() >= 1,
    ensures
        match r {
            Ok(v) => {
                &&& v@.len() == next_pow2(slice@.len() as nat)
                &&& (forall|i: int| 0 <= i < slice@.len() ==> v@[i] == slice@[i])
                &&& (forall|i: int|
                    slice@.len() <= i < v@.len() ==> v@[i] == slice@[slice@.len() - 1])
            },
            Err(e) => {
                &&& e == RangeProofError::PaddingOverflow
                &&& next_pow2(slice@.len() as nat) > usize::MAX
            },
        },
{
    let target = match checked_next_pow2(slice.len()) {
        Some(p) => p,
        None => {
            return Err(RangeProofError::PaddingOverflow);
        },
    };
    proof {
        lemma_next_pow2_bounds(slice@.len() as nat);
    }
    let mut v: Vec<T> = Vec::new();
    let mut i: usize = 0;
    while i < slice.len()
        invariant
            i <= slice@.len(),
            v@.len() == i,
            forall|k: int| 0 <= k < i ==> v@[k] == slice@[k],
        decreases slice@.len() - i,
    {
        v.push(slice[i]);
        i = i + 1;
    }
    let last = slice[slice.len() - 1];
    while v.len() < target
        invariant
            slice@.len() <= v@.len() <= target,
            last == slice@[slice@.len() - 1],
            forall|k: int| 0 <= k < slice@.len() ==> v@[k] == slice@[k],
            forall|k: int| slice@.len() <= k < v@.len() ==> v@[k] == slice@[slice@.len() - 1],
        decreases target - v@.len(),
    {
        v.push(last);
    }
    Ok(v)
}

} // verus!
