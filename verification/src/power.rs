//! Powers of two: the padded length of the lookup array and the number of
//! stages of the sorting network.

use vstd::prelude::*;
use vstd::arithmetic::power2::{
    is_pow2, is_pow2_equiv, lemma_pow2_pos, lemma_pow2_strictly_increases, lemma_pow2_unfold, pow2,
};
use vstd::arithmetic::power::pow;

verus! {

/// Largest particle count whose padded length fits in 32 bits.
pub const MAX_PARTICLES: u32 = 0x8000_0000;

/// The smallest power of two that is not below `count`.
pub open spec fn padded_len(count: nat) -> nat
    decreases count,
{
    if count <= 1 {
        1
    } else {
        2 * padded_len((count + 1) / 2)
    }
}

/// The exponent of `padded_len(count)`: the number of stages of the network.
pub open spec fn stage_count(count: nat) -> nat
    decreases count,
{
    if count <= 1 {
        0
    } else {
        1 + stage_count((count + 1) / 2)
    }
}

/// `std`'s `u32::next_power_of_two`: the smallest power of two that is not
/// below `x`. It overflows above 2^31, which the `requires` leaves out.
pub assume_specification[ u32::next_power_of_two ](x: u32) -> (r: u32)
    requires
        x <= 0x8000_0000,
    ensures
        is_pow2(r as int),
        x <= r,
        r < 2 * x || r == 1,
;

/// `std`'s `u32::ilog2`: the base 2 logarithm, rounded down. It panics on
/// zero, which the `requires` leaves out.
pub assume_specification[ u32::ilog2 ](x: u32) -> (r: u32)
    requires
        x > 0,
    ensures
        pow2(r as nat) <= x < 2 * pow2(r as nat),
;

/// `padded_len(count)` is two to the power `stage_count(count)`, is not below
/// `count`, and is below `2 * count` unless it is 1.
pub proof fn lemma_padded_len(count: nat)
    ensures
        padded_len(count) == pow2(stage_count(count)),
        count <= padded_len(count),
        padded_len(count) < 2 * count || padded_len(count) == 1,
    decreases count,
{
    if count <= 1 {
        vstd::arithmetic::power2::lemma2_to64();
    } else {
        lemma_padded_len((count + 1) / 2);
        lemma_pow2_unfold(stage_count(count));
    }
}

/// A power of two between `pow2(e)` and `2 * pow2(e)` is `pow2(e)`.
pub(crate) proof fn lemma_pow2_between(n: int, e: nat)
    requires
        is_pow2(n),
        pow2(e) <= n < 2 * pow2(e),
    ensures
        n == pow2(e),
{
    is_pow2_equiv(n);
    let i = choose|i: nat| pow(2, i) == n;
    assert(pow2(i) == n);
    if i < e {
        lemma_pow2_strictly_increases(i, e);
    } else if i > e {
        lemma_pow2_unfold(e + 1);
        if i > e + 1 {
            lemma_pow2_strictly_increases(e + 1, i);
        }
    }
}

/// Every `pow2(e)` is a power of two.
pub(crate) proof fn lemma_pow2_is_pow2(e: nat)
    ensures
        is_pow2(pow2(e) as int),
{
    vstd::arithmetic::power::lemma_pow_positive(2, e);
    is_pow2_equiv(pow2(e) as int);
    assert(pow(2, e) == pow2(e) as int);
}

/// A power of two that is not below `count`, and below `2 * count` unless it
/// is 1, is `padded_len(count)`.
proof fn lemma_padded_len_unique(count: nat, n: int)
    requires
        is_pow2(n),
        count <= n,
        n < 2 * count || n == 1,
    ensures
        n == padded_len(count),
{
    lemma_padded_len(count);
    let e = stage_count(count);
    if count <= 1 {
        vstd::arithmetic::power2::lemma2_to64();
        if n != 1 {
            assert(count == 1 && n < 2);
            reveal(is_pow2);
        }
    } else {
        // both are powers of two in the half-open range from count to 2 * count
        is_pow2_equiv(n);
        let i = choose|i: nat| pow(2, i) == n;
        assert(pow2(i) == n);
        if i < e {
            lemma_pow2_unfold(i + 1);
            if i + 1 < e {
                lemma_pow2_strictly_increases(i + 1, e);
            }
        } else if i > e {
            lemma_pow2_unfold(e + 1);
            if e + 1 < i {
                lemma_pow2_strictly_increases(e + 1, i);
            }
        }
    }
}

/// The padded length of the lookup array for `particle_count` particles.
pub fn padded_length(particle_count: u32) -> (n: u32)
    requires
        particle_count <= MAX_PARTICLES,
    ensures
        n == padded_len(particle_count as nat),
{
    let n = particle_count.next_power_of_two();
    proof {
        lemma_padded_len_unique(particle_count as nat, n as int);
    }
    n
}

/// The number of stages of the network over the padded lookup array.
pub fn sort_stages(particle_count: u32) -> (stages: u32)
    requires
        particle_count <= MAX_PARTICLES,
    ensures
        stages == stage_count(particle_count as nat),
        stages <= 31,
{
    let n = padded_length(particle_count);
    proof {
        lemma_padded_len(particle_count as nat);
        lemma_pow2_pos(stage_count(particle_count as nat));
    }
    let stages = n.ilog2();
    proof {
        let e = stage_count(particle_count as nat);
        let r = stages as nat;
        // pow2(e) lies between pow2(r) and 2 * pow2(r)
        if e < r {
            lemma_pow2_strictly_increases(e, r);
        } else if e > r {
            lemma_pow2_unfold(r + 1);
            if r + 1 < e {
                lemma_pow2_strictly_increases(r + 1, e);
            }
        }
        vstd::arithmetic::power2::lemma2_to64();
        if r > 32 {
            lemma_pow2_strictly_increases(32, r);
        }
    }
    stages
}

/// Different exponents give different powers of two.
proof fn lemma_pow2_injective(a: nat, b: nat)
    requires
        pow2(a) == pow2(b),
    ensures
        a == b,
{
    if a < b {
        lemma_pow2_strictly_increases(a, b);
    } else if b < a {
        lemma_pow2_strictly_increases(b, a);
    }
}

/// A power of two is its own padded length.
pub(crate) proof fn lemma_stage_count_of_pow2(e: nat)
    ensures
        padded_len(pow2(e)) == pow2(e),
        stage_count(pow2(e)) == e,
{
    lemma_pow2_is_pow2(e);
    lemma_pow2_pos(e);
    lemma_padded_len_unique(pow2(e), pow2(e) as int);
    lemma_padded_len(pow2(e));
    lemma_pow2_injective(stage_count(pow2(e)), e);
}

/// The network over at most 2^31 particles has at most 31 stages.
pub(crate) proof fn lemma_stage_count_bound(count: nat)
    requires
        count <= MAX_PARTICLES,
    ensures
        stage_count(count) <= 31,
        padded_len(count) <= MAX_PARTICLES,
{
    lemma_padded_len(count);
    vstd::arithmetic::power2::lemma2_to64();
    let e = stage_count(count);
    if e > 31 {
        lemma_pow2_unfold(32);
        if e > 32 {
            lemma_pow2_strictly_increases(32, e);
        }
    }
    if e < 31 {
        lemma_pow2_strictly_increases(e, 31);
    }
}

} // verus!
