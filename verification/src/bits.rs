//! Bit counts of 64-bit words, as used to compare fingerprints.
use vstd::prelude::*;

verus! {

/// Number of set bits of `x`.
pub open spec fn popcount(x: nat) -> nat
    decreases x,
{
    if x == 0 {
        0
    } else {
        (x % 2) + popcount(x / 2)
    }
}

/// Number of bits in which `a` and `b` differ.
pub open spec fn hamming(a: u64, b: u64) -> nat {
    popcount((a ^ b) as nat)
}

/// A number below `2^k` has at most `k` set bits.
pub proof fn lemma_popcount_bound(x: nat, k: nat)
    requires
        x < vstd::arithmetic::power2::pow2(k),
    ensures
        popcount(x) <= k,
    decreases k,
{
    if k > 0 && x > 0 {
        vstd::arithmetic::power2::lemma_pow2_unfold(k);
        lemma_popcount_bound(x / 2, (k - 1) as nat);
    } else if x > 0 {
        vstd::arithmetic::power2::lemma2_to64();
        assert(false);
    }
}

/// A 64-bit word has at most 64 set bits.
pub proof fn lemma_popcount_u64(x: u64)
    ensures
        popcount(x as nat) <= 64,
{
    vstd::arithmetic::power2::lemma2_to64();
    vstd::arithmetic::power2::lemma2_to64_rest();
    lemma_popcount_bound(x as nat, 64);
}

/// Clearing the lowest set bit, `n & (n - 1)`, removes exactly one set bit.
pub proof fn lemma_clear_lowest(n: u64)
    requires
        n > 0,
    ensures
        popcount((n & ((n - 1) as u64)) as nat) + 1 == popcount(n as nat),
    decreases n,
{
    if n % 2 == 1 {
        assert(n & ((n - 1) as u64) == ((n - 1) as u64)) by (bit_vector)
            requires
                n % 2 == 1,
        ;
        assert(popcount((n - 1) as nat) == popcount(((n - 1) / 2) as nat));
    } else {
        let m: u64 = n / 2;
        assert(n & ((n - 1) as u64) == 2 * (m & ((m - 1) as u64))) by (bit_vector)
            requires
                n % 2 == 0,
                n > 0,
                m == n / 2,
        ;
        assert((m & ((m - 1) as u64)) <= m) by (bit_vector);
        lemma_clear_lowest(m);
        let k = (m & ((m - 1) as u64)) as nat;
        assert((2 * k) % 2 == 0 && (2 * k) / 2 == k);
        if k > 0 {
            assert(popcount(2 * k) == popcount(k));
        }
    }
}

/// Number of set bits of `x`.
pub fn count_ones(x: u64) -> (r: u32)
    ensures
        r == popcount(x as nat),
{
    proof {
        lemma_popcount_u64(x);
    }
    let mut n = x;
    let mut c: u32 = 0;
    while n > 0
        invariant
            c + popcount(n as nat) == popcount(x as nat),
            popcount(x as nat) <= 64,
        decreases n,
    {
        c = c + (n % 2) as u32;
        n = n / 2;
    }
    c
}

} // verus!
