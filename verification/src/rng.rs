//! The xorshift pseudo-random generator that drives the laser scene.

use vstd::prelude::*;

verus! {

/// One round of Marsaglia's 32-bit xorshift with shifts 13, 17, 5.
pub open spec fn xorshift32(x: u32) -> u32 {
    let a = x ^ (x << 13u32);
    let b = a ^ (a >> 17u32);
    b ^ (b << 5u32)
}

/// The next value of the generator after `seed`; a zero seed, which
/// xorshift would keep at zero forever, is taken as one.
pub open spec fn prng_spec(seed: u32) -> u32 {
    xorshift32(if seed == 0 { 1 } else { seed })
}

/// The next pseudo-random value after `seed`.
pub fn prng(seed: u32) -> (next: u32)
    ensures
        next == prng_spec(seed),
{
    let mut x = seed;
    if x == 0 {
        x = 1;
    }
    x ^= x << 13;
    x ^= x >> 17;
    x ^= x << 5;
    x
}

/// The generator never yields zero, so it never gets stuck.
pub proof fn lemma_prng_nonzero(seed: u32)
    ensures
        prng_spec(seed) != 0,
{
    let x: u32 = if seed == 0 { 1 } else { seed };
    assert(x != 0 ==> (((x ^ (x << 13u32)) ^ ((x ^ (x << 13u32)) >> 17u32)) ^ (((x ^ (x << 13u32))
        ^ ((x ^ (x << 13u32)) >> 17u32)) << 5u32)) != 0) by (bit_vector);
}

/// A zero seed behaves as the seed one.
pub proof fn lemma_prng_zero_seed()
    ensures
        prng_spec(0) == prng_spec(1),
{
}

/// Each xorshift step can be undone: two words that differ still differ after
/// `x ^= x << 13`, `x ^= x >> 17` or `x ^= x << 5`.
proof fn lemma_xorshift_steps_injective(x: u32, y: u32)
    requires
        x != y,
    ensures
        x ^ (x << 13u32) != y ^ (y << 13u32),
        x ^ (x >> 17u32) != y ^ (y >> 17u32),
        x ^ (x << 5u32) != y ^ (y << 5u32),
{
    assert(x != y ==> x ^ (x << 13u32) != y ^ (y << 13u32)) by (bit_vector);
    assert(x != y ==> x ^ (x >> 17u32) != y ^ (y >> 17u32)) by (bit_vector);
    assert(x != y ==> x ^ (x << 5u32) != y ^ (y << 5u32)) by (bit_vector);
}

/// Different non-zero seeds lead to different next values: the generator
/// loses no state, so its sequence only repeats after a full cycle.
pub proof fn lemma_prng_injective(s1: u32, s2: u32)
    requires
        s1 != 0,
        s2 != 0,
        s1 != s2,
    ensures
        prng_spec(s1) != prng_spec(s2),
{
    let a1 = s1 ^ (s1 << 13u32);
    let a2 = s2 ^ (s2 << 13u32);
    lemma_xorshift_steps_injective(s1, s2);
    let b1 = a1 ^ (a1 >> 17u32);
    let b2 = a2 ^ (a2 >> 17u32);
    lemma_xorshift_steps_injective(a1, a2);
    lemma_xorshift_steps_injective(b1, b2);
}

} // verus!
