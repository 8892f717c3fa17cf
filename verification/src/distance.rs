use vstd::prelude::*;
use vstd::arithmetic::power2::pow2;
use vstd::arithmetic::power2::lemma2_to64;
use vstd::arithmetic::power2::lemma_pow2_unfold;

verus! {

/// The number of bits that are set in `x`.
pub open spec fn bits_set(x: u64) -> nat
    decreases x,
{
    if x == 0 {
        0
    } else {
        (x % 2) as nat + bits_set(x / 2)
    }
}

/// The Hamming distance of two image hashes: the number of bits in which they differ.
pub open spec fn hamming_distance(a: u64, b: u64) -> nat {
    bits_set(a ^ b)
}

/// Calls `hamming::distance_fast` on the bytes of the two hashes.
///
/// Claimed of it: it counts the bits in which its arguments differ. Eight bytes are too few for
/// the block-wise path, the only one that can fail, so the result is always `Ok`.
#[verifier::external_body]
fn distance_of_bytes(a: u64, b: u64) -> (distance: u64)
    ensures
        distance == hamming_distance(a, b),
{
    hamming::distance_fast(&a.to_be_bytes(), &b.to_be_bytes()).unwrap()
}

/// Distance metric to use with the search tree.
pub struct Hamming;

impl bk_tree::Metric<u64> for Hamming {
    fn distance(&self, a: &u64, b: &u64) -> (distance: u64)
        ensures
            distance == hamming_distance(*a, *b),
    {
        distance_of_bytes(*a, *b)
    }
}

/// Halving peels off the lowest bit.
proof fn lemma_bits_set_step(x: u64)
    ensures
        bits_set(x) == (x % 2) as nat + bits_set(x / 2),
{
    if x == 0 {
        assert(bits_set(0) == 0);
    }
}

proof fn lemma_bits_set_zero(x: u64)
    ensures
        bits_set(x) == 0 <==> x == 0,
    decreases x,
{
    if x > 0 {
        lemma_bits_set_zero(x / 2);
    }
}

proof fn lemma_bits_set_xor(x: u64, y: u64)
    ensures
        bits_set(x ^ y) <= bits_set(x) + bits_set(y),
    decreases x, y,
{
    if x == 0 {
        assert(0u64 ^ y == y) by (bit_vector);
    } else {
        lemma_bits_set_xor(x / 2, y / 2);
        lemma_bits_set_step(x);
        lemma_bits_set_step(y);
        lemma_bits_set_step(x ^ y);
        assert((x ^ y) / 2 == (x / 2) ^ (y / 2)) by (bit_vector);
        assert((x ^ y) % 2 <= (x % 2) + (y % 2)) by (bit_vector);
    }
}

proof fn lemma_bits_set_bound(x: u64, bits: nat)
    requires
        bits <= 64,
        x < pow2(bits),
    ensures
        bits_set(x) <= bits,
    decreases bits,
{
    if bits == 0 {
        lemma2_to64();
    } else {
        lemma_pow2_unfold(bits);
        lemma_bits_set_step(x);
        lemma_bits_set_bound(x / 2, (bits - 1) as nat);
    }
}

/// The distance of two hashes is zero exactly if they are the same hash.
pub proof fn law_distance_identity(a: u64, b: u64)
    ensures
        hamming_distance(a, b) == 0 <==> a == b,
{
    lemma_bits_set_zero(a ^ b);
    assert((a ^ b) == 0 <==> a == b) by (bit_vector);
}

/// The distance does not depend on the order of the two hashes.
pub proof fn law_distance_symmetry(a: u64, b: u64)
    ensures
        hamming_distance(a, b) == hamming_distance(b, a),
{
    assert(a ^ b == b ^ a) by (bit_vector);
}

/// A detour over a third hash is never shorter.
pub proof fn law_distance_triangle(a: u64, b: u64, c: u64)
    ensures
        hamming_distance(a, c) <= hamming_distance(a, b) + hamming_distance(b, c),
{
    lemma_bits_set_xor(a ^ b, b ^ c);
    assert((a ^ b) ^ (b ^ c) == a ^ c) by (bit_vector);
}

/// Hashes have 64 bits, so they differ in 64 bits at most.
pub proof fn law_distance_bound(a: u64, b: u64)
    ensures
        hamming_distance(a, b) <= 64,
{
    lemma2_to64();
    lemma_bits_set_bound(a ^ b, 64);
}

proof fn lemma_bits_set_flip(x: u64, i: u64)
    requires
        i < 64,
        x & (1u64 << i) == 0,
    ensures
        bits_set(x ^ (1u64 << i)) == bits_set(x) + 1,
    decreases i,
{
    let y = x ^ (1u64 << i);
    lemma_bits_set_step(x);
    lemma_bits_set_step(y);
    if i == 0 {
        assert(x & (1u64 << 0u64) == 0 ==> (x ^ (1u64 << 0u64)) / 2 == x / 2 && (x ^ (1u64
            << 0u64)) % 2 == 1 && x % 2 == 0) by (bit_vector);
    } else {
        let j = (i - 1) as u64;
        assert(0 < i < 64 && j == i - 1 && x & (1u64 << i) == 0 ==> (x / 2) & (1u64 << j) == 0 && (x
            ^ (1u64 << i)) / 2 == (x / 2) ^ (1u64 << j) && (x ^ (1u64 << i)) % 2 == x % 2)
            by (bit_vector);
        lemma_bits_set_flip(x / 2, j);
    }
}

/// Every bit counts for one: flipping a bit in which two hashes agree adds one to their distance.
/// As a hash has no distance from itself, this fixes the distance of any two hashes.
pub proof fn law_distance_counts_every_bit(a: u64, b: u64, i: u64)
    requires
        i < 64,
        a & (1u64 << i) == b & (1u64 << i),
    ensures
        hamming_distance(a, b ^ (1u64 << i)) == hamming_distance(a, b) + 1,
{
    let bit = 1u64 << i;
    assert(a & bit == b & bit ==> (a ^ b) & bit == 0) by (bit_vector);
    assert(a ^ (b ^ bit) == (a ^ b) ^ bit) by (bit_vector);
    lemma_bits_set_flip(a ^ b, i);
}

} // verus!
