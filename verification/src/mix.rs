//! Building blocks of the integer mixers: arithmetic modulo a power of two,
//! xor-shift rounds and bit rotations, each with its mathematical meaning.

use vstd::prelude::*;

verus! {

/// `a + b` modulo 2^32.
pub open spec fn add32(a: u32, b: u32) -> u32 {
    ((a as nat + b as nat) % 0x1_0000_0000nat) as u32
}

/// `a * b` modulo 2^32.
pub open spec fn mul32(a: u32, b: u32) -> u32 {
    ((a as nat * b as nat) % 0x1_0000_0000nat) as u32
}

/// `a + b` modulo 2^64.
pub open spec fn add64(a: u64, b: u64) -> u64 {
    ((a as nat + b as nat) % 0x1_0000_0000_0000_0000nat) as u64
}

/// `a * b` modulo 2^64.
pub open spec fn mul64(a: u64, b: u64) -> u64 {
    ((a as nat * b as nat) % 0x1_0000_0000_0000_0000nat) as u64
}

/// One xor-shift round on 32 bits: every bit is combined with the bit `s`
/// places above it.
pub open spec fn xor_shift32(h: u32, s: u32) -> u32 {
    h ^ (h >> s)
}

/// One xor-shift round on 64 bits.
pub open spec fn xor_shift64(h: u64, s: u32) -> u64 {
    h ^ (h >> s)
}

/// `x` rotated left by `n` places; the places are counted modulo 32, and the
/// bits that leave at the top come back at the bottom.
pub open spec fn rotl32(x: u32, n: u32) -> u32 {
    let k = n % 32;
    if k == 0 {
        x
    } else {
        (x << k) | (x >> ((32 - k) as u32))
    }
}

/// `x` rotated right by `n` places, counted modulo 32.
pub open spec fn rotr32(x: u32, n: u32) -> u32 {
    let k = n % 32;
    if k == 0 {
        x
    } else {
        (x >> k) | (x << ((32 - k) as u32))
    }
}

/// Whether bit `i` of `x` is set, bit 0 being the lowest.
pub open spec fn bit32(x: u32, i: u32) -> bool {
    (x >> i) & 1 == 1
}

/// Rotates `x` left by `n` places. Every `n` is accepted.
pub fn rotate_left32(x: u32, n: u32) -> (r: u32)
    ensures
        r == rotl32(x, n),
{
    let k: u32 = n % 32;
    if k == 0 {
        x
    } else {
        (x << k) | (x >> (32 - k))
    }
}

/// Rotates `x` right by `n` places. Every `n` is accepted.
pub fn rotate_right32(x: u32, n: u32) -> (r: u32)
    ensures
        r == rotr32(x, n),
{
    let k: u32 = n % 32;
    if k == 0 {
        x
    } else {
        (x >> k) | (x << (32 - k))
    }
}

/// What a rotation is: the rotation to the left by `n` moves bit `i` to
/// place `i + n`, counted modulo 32, and the rotation to the right moves the
/// bit at that place to `i`.
pub proof fn lemma_rotate_moves_bits(x: u32, n: u32, i: u32)
    requires
        i < 32,
    ensures
        bit32(rotl32(x, n), ((i + n % 32) % 32) as u32) == bit32(x, i),
        bit32(rotr32(x, n), i) == bit32(x, ((i + n % 32) % 32) as u32),
{
    let k: u32 = n % 32;
    let to: u32 = ((i + k) % 32) as u32;
    if k != 0 {
        let j: u32 = (32 - k) as u32;
        assert(((((x << k) | (x >> j)) >> to) & 1) == ((x >> i) & 1)) by (bit_vector)
            requires
                0 < k < 32,
                i < 32,
                j == 32 - k,
                to == (i + k) % 32,
        ;
        assert(((((x >> k) | (x << j)) >> i) & 1) == ((x >> to) & 1)) by (bit_vector)
            requires
                0 < k < 32,
                i < 32,
                j == 32 - k,
                to == (i + k) % 32,
        ;
    }
}

/// A rotation to the right undoes the rotation to the left by the same
/// number of places.
pub proof fn lemma_rotate_round_trip(x: u32, n: u32)
    ensures
        rotr32(rotl32(x, n), n) == x,
        rotl32(rotr32(x, n), n) == x,
{
    let k: u32 = n % 32;
    if k != 0 {
        let j: u32 = (32 - k) as u32;
        assert(((((x << k) | (x >> j)) >> k) | (((x << k) | (x >> j)) << j)) == x) by (bit_vector)
            requires
                0 < k < 32,
                j == 32 - k,
        ;
        assert(((((x >> k) | (x << j)) << k) | (((x >> k) | (x << j)) >> j)) == x) by (bit_vector)
            requires
                0 < k < 32,
                j == 32 - k,
        ;
    }
}

} // verus!
