//! The six families of coordinate hashes. Each maps a coordinate and a few
//! shift or rotation amounts to a bucket index of `TARGET_BITS` bits.
//!
//! A coordinate enters a mixer as its two's complement bit pattern. All
//! additions and multiplications are taken modulo the word size.

use vstd::prelude::*;
use vstd::arithmetic::power2::{lemma2_to64, pow2};
use crate::mix::{add32, add64, mul32, mul64, rotl32, rotr32, xor_shift32, xor_shift64};
use crate::mix::{rotate_left32, rotate_right32};

verus! {

/// Width of a bucket index in bits.
pub const TARGET_BITS: u32 = 18;

/// The bits of a word that a bucket index keeps.
pub const MASK_TARGET_BITS: u32 = 0x3_ffff;

/// Number of bucket indices: two to the power `TARGET_BITS`.
pub const BUCKET_COUNT: u32 = 0x4_0000;

/// The low `TARGET_BITS` bits of a mixed word.
pub open spec fn bucket_of(h: u32) -> u32 {
    h & MASK_TARGET_BITS
}

/// Murmur-style: the three components are scaled by distinct odd constants
/// and combined, then three xor-shifts alternate with two multiplications.
pub open spec fn murmur_style(v: [i32; 3], s1: u32, s2: u32, s3: u32) -> u32 {
    let h0 = mul32(v[0] as u32, 0xcc9e_2d51) ^ mul32(v[1] as u32, 0x1b87_3593) ^ mul32(
        v[2] as u32,
        0xe654_6b64,
    );
    let h1 = mul32(xor_shift32(h0, s1), 0x85eb_ca6b);
    let h2 = mul32(xor_shift32(h1, s2), 0xc2b2_ae35);
    bucket_of(xor_shift32(h2, s3))
}

/// The state of the xxHash-style mixer after its three components are
/// absorbed: a seed is added to the first, and each of the other two is
/// scaled, rotated left and folded in before a multiplication.
pub open spec fn xxhash_absorb(v: [i32; 3], r1: u32, r2: u32) -> u32 {
    let h0 = add32(v[0] as u32, 0x9e37_79b1);
    let h1 = mul32(h0 ^ rotl32(mul32(v[1] as u32, 0x85eb_ca77), r1), 0x27d4_eb2f);
    mul32(h1 ^ rotl32(mul32(v[2] as u32, 0x85eb_ca77), r2), 0x27d4_eb2f)
}

/// xxHash-style: absorption with rotations `r1` and `r2`, then a xor-shift, a
/// multiplication and a second xor-shift.
pub open spec fn xxhash_style(v: [i32; 3], r1: u32, r2: u32, s1: u32, s2: u32) -> u32 {
    let h = xxhash_absorb(v, r1, r2);
    bucket_of(xor_shift32(mul32(xor_shift32(h, s1), 0x85eb_ca77), s2))
}

/// The 64-bit word that the SplitMix-style mixer starts from. Each component
/// is sign-extended to 64 bits; the first is moved up by 32 places, the
/// second by 16, and the three are joined by bitwise or. The three occupy
/// separate bits only where the second and the third lie in `0..65536`.
pub open spec fn splitmix_pack(v: [i32; 3]) -> u64 {
    ((v[0] as u64) << 32u32) | ((v[1] as u64) << 16u32) | (v[2] as u64)
}

/// SplitMix-style: the packed word plus the golden-ratio increment, then the
/// SplitMix64 finisher with shifts `s1`, `s2`, `s3`, cut to 32 bits.
pub open spec fn splitmix_style(v: [i32; 3], s1: u32, s2: u32, s3: u32) -> u32 {
    let h0 = add64(splitmix_pack(v), 0x9e37_79b9_7f4a_7c15);
    let h1 = mul64(xor_shift64(h0, s1), 0xbf58_476d_1ce4_e5b9);
    let h2 = mul64(xor_shift64(h1, s2), 0x94d0_49bb_1331_11eb);
    bucket_of(xor_shift64(h2, s3) as u32)
}

/// The state of the PCG-style generator after one step: the sign-extended
/// components are joined by shift and xor, then advanced by the linear
/// congruence.
pub open spec fn pcg_state(v: [i32; 3], sh1: u32, sh2: u32) -> u64 {
    let seed = ((v[0] as u64) << sh1) ^ ((v[1] as u64) << sh2) ^ (v[2] as u64);
    add64(mul64(seed, 6364136223846793005), 1442695040888963407)
}

/// PCG-style: the output permutation of the state. A xor-shift by `s1` is
/// moved down by `s2` and cut to 32 bits, then rotated right by the top five
/// bits of the state.
pub open spec fn pcg_style(v: [i32; 3], s1: u32, s2: u32, sh1: u32, sh2: u32) -> u32 {
    let state = pcg_state(v, sh1, sh2);
    let xorshifted = (((state >> s1) ^ state) >> s2) as u32;
    bucket_of(rotr32(xorshifted, (state >> 59u32) as u32))
}

/// Wang-style: the components are joined by shift and xor, then run through
/// the Wang avalanche with shifts `s1`, `s2`, `s3`.
pub open spec fn wang_style(v: [i32; 3], sh1: u32, sh2: u32, s1: u32, s2: u32, s3: u32) -> u32 {
    let h0 = (v[0] as u32) ^ ((v[1] as u32) << sh1) ^ ((v[2] as u32) << sh2);
    let h1 = (h0 ^ 61) ^ (h0 >> s1);
    let h2 = xor_shift32(add32(h1, h1 << 3u32), s2);
    bucket_of(xor_shift32(mul32(h2, 0x27d4_eb2d), s3))
}

/// The FNV-1 fold of the three components: starting from the offset basis,
/// each component is xored in and the state multiplied by the FNV prime.
pub open spec fn fnv_fold(v: [i32; 3]) -> u32 {
    let h0 = mul32(0x811c_9dc5u32 ^ (v[0] as u32), 0x0100_0193);
    let h1 = mul32(h0 ^ (v[1] as u32), 0x0100_0193);
    mul32(h1 ^ (v[2] as u32), 0x0100_0193)
}

/// FNV-style: the FNV-1 fold, then a xor-shift, a multiplication and a second
/// xor-shift.
pub open spec fn fnv_style(v: [i32; 3], s1: u32, s2: u32) -> u32 {
    bucket_of(xor_shift32(mul32(xor_shift32(fnv_fold(v), s1), 0xc2b2_ae3d), s2))
}

/// Every bucket index lies below `BUCKET_COUNT`, which is two to the power
/// `TARGET_BITS`, and is the remainder of the mixed word on division by it.
pub proof fn lemma_bucket_range(h: u32)
    ensures
        bucket_of(h) < BUCKET_COUNT,
        bucket_of(h) == h % BUCKET_COUNT,
        bucket_of(bucket_of(h)) == bucket_of(h),
        BUCKET_COUNT == pow2(TARGET_BITS as nat),
        MASK_TARGET_BITS == BUCKET_COUNT - 1,
{
    lemma2_to64();
    assert(h & 0x3_ffff < 0x4_0000) by (bit_vector);
    assert(h & 0x3_ffff == h % 0x4_0000) by (bit_vector);
    assert((h & 0x3_ffff) & 0x3_ffff == h & 0x3_ffff) by (bit_vector);
}

/// Determinism: whatever two calls of one hash return for one coordinate
/// and the same amounts, it is the same bucket.
pub proof fn lemma_hash_deterministic(
    v: [i32; 3],
    a: u32,
    b: u32,
    c: u32,
    d: u32,
    e: u32,
    first: u32,
    second: u32,
)
    ensures
        call_ensures(hash_murmur_style, (v, a, b, c), first) && call_ensures(
            hash_murmur_style,
            (v, a, b, c),
            second,
        ) ==> first == second,
        call_ensures(hash_xxhash_style, (v, a, b, c, d), first) && call_ensures(
            hash_xxhash_style,
            (v, a, b, c, d),
            second,
        ) ==> first == second,
        call_ensures(hash_splitmix_style, (v, a, b, c), first) && call_ensures(
            hash_splitmix_style,
            (v, a, b, c),
            second,
        ) ==> first == second,
        call_ensures(hash_pcg_style, (v, a, b, c, d), first) && call_ensures(
            hash_pcg_style,
            (v, a, b, c, d),
            second,
        ) ==> first == second,
        call_ensures(hash_wang_style, (v, a, b, c, d, e), first) && call_ensures(
            hash_wang_style,
            (v, a, b, c, d, e),
            second,
        ) ==> first == second,
        call_ensures(hash_fnv_style, (v, a, b), first) && call_ensures(
            hash_fnv_style,
            (v, a, b),
            second,
        ) ==> first == second,
{
}

/// The Murmur-style hash of `v` with shifts `s1`, `s2`, `s3`.
pub fn hash_murmur_style(v: [i32; 3], s1: u32, s2: u32, s3: u32) -> (h: u32)
    requires
        s1 < 32,
        s2 < 32,
        s3 < 32,
    ensures
        h == murmur_style(v, s1, s2, s3),
        h < BUCKET_COUNT,
{
    let x: u32 = v[0] as u32;
    let y: u32 = v[1] as u32;
    let z: u32 = v[2] as u32;

    let mut h: u32 = x.wrapping_mul(0xcc9e_2d51) ^ y.wrapping_mul(0x1b87_3593) ^ z.wrapping_mul(
        0xe654_6b64,
    );

    h = h ^ (h >> s1);
    h = h.wrapping_mul(0x85eb_ca6b);
    h = h ^ (h >> s2);
    h = h.wrapping_mul(0xc2b2_ae35);
    h = h ^ (h >> s3);

    proof {
        lemma_bucket_range(h);
    }
    h & MASK_TARGET_BITS
}

/// The xxHash-style hash of `v` with rotations `r1`, `r2` and shifts `s1`,
/// `s2`. A rotation takes any amount.
pub fn hash_xxhash_style(v: [i32; 3], r1: u32, r2: u32, s1: u32, s2: u32) -> (h: u32)
    requires
        s1 < 32,
        s2 < 32,
    ensures
        h == xxhash_style(v, r1, r2, s1, s2),
        h < BUCKET_COUNT,
{
    let x: u32 = v[0] as u32;
    let y: u32 = v[1] as u32;
    let z: u32 = v[2] as u32;

    let mut h: u32 = x.wrapping_add(0x9e37_79b1);
    h = h ^ rotate_left32(y.wrapping_mul(0x85eb_ca77), r1);
    h = h.wrapping_mul(0x27d4_eb2f);
    h = h ^ rotate_left32(z.wrapping_mul(0x85eb_ca77), r2);
    h = h.wrapping_mul(0x27d4_eb2f);

    h = h ^ (h >> s1);
    h = h.wrapping_mul(0x85eb_ca77);
    h = h ^ (h >> s2);

    proof {
        lemma_bucket_range(h);
    }
    h & MASK_TARGET_BITS
}

/// The SplitMix-style hash of `v` with shifts `s1`, `s2`, `s3`.
pub fn hash_splitmix_style(v: [i32; 3], s1: u32, s2: u32, s3: u32) -> (h: u32)
    requires
        s1 < 64,
        s2 < 64,
        s3 < 64,
    ensures
        h == splitmix_style(v, s1, s2, s3),
        h < BUCKET_COUNT,
{
    let x: u64 = v[0] as u64;
    let y: u64 = v[1] as u64;
    let z: u64 = v[2] as u64;

    let mut h: u64 = (x << 32u32) | (y << 16u32) | z;
    h = h.wrapping_add(0x9e37_79b9_7f4a_7c15);
    h = (h ^ (h >> s1)).wrapping_mul(0xbf58_476d_1ce4_e5b9);
    h = (h ^ (h >> s2)).wrapping_mul(0x94d0_49bb_1331_11eb);
    h = h ^ (h >> s3);

    let low: u32 = h as u32;
    proof {
        lemma_bucket_range(low);
    }
    low & MASK_TARGET_BITS
}

/// The PCG-style hash of `v` with output shifts `s1`, `s2` and seed shifts
/// `sh1`, `sh2`.
pub fn hash_pcg_style(v: [i32; 3], s1: u32, s2: u32, sh1: u32, sh2: u32) -> (h: u32)
    requires
        s1 < 64,
        s2 < 64,
        sh1 < 64,
        sh2 < 64,
    ensures
        h == pcg_style(v, s1, s2, sh1, sh2),
        h < BUCKET_COUNT,
{
    let x: u64 = v[0] as u64;
    let y: u64 = v[1] as u64;
    let z: u64 = v[2] as u64;

    let seed: u64 = (x << sh1) ^ (y << sh2) ^ z;
    let state: u64 = seed.wrapping_mul(6364136223846793005).wrapping_add(1442695040888963407);

    let xorshifted: u32 = (((state >> s1) ^ state) >> s2) as u32;
    let rot: u32 = (state >> 59u32) as u32;

    let mixed: u32 = rotate_right32(xorshifted, rot);
    proof {
        lemma_bucket_range(mixed);
    }
    mixed & MASK_TARGET_BITS
}

/// The Wang-style hash of `v` with seed shifts `sh1`, `sh2` and avalanche
/// shifts `s1`, `s2`, `s3`.
pub fn hash_wang_style(v: [i32; 3], sh1: u32, sh2: u32, s1: u32, s2: u32, s3: u32) -> (h: u32)
    requires
        sh1 < 32,
        sh2 < 32,
        s1 < 32,
        s2 < 32,
        s3 < 32,
    ensures
        h == wang_style(v, sh1, sh2, s1, s2, s3),
        h < BUCKET_COUNT,
{
    let x: u32 = v[0] as u32;
    let y: u32 = v[1] as u32;
    let z: u32 = v[2] as u32;

    let mut h: u32 = x ^ (y << sh1) ^ (z << sh2);
    h = (h ^ 61) ^ (h >> s1);
    h = h.wrapping_add(h << 3u32);
    h = h ^ (h >> s2);
    h = h.wrapping_mul(0x27d4_eb2d);
    h = h ^ (h >> s3);

    proof {
        lemma_bucket_range(h);
    }
    h & MASK_TARGET_BITS
}

/// The FNV-style hash of `v` with shifts `s1`, `s2`.
pub fn hash_fnv_style(v: [i32; 3], s1: u32, s2: u32) -> (h: u32)
    requires
        s1 < 32,
        s2 < 32,
    ensures
        h == fnv_style(v, s1, s2),
        h < BUCKET_COUNT,
{
    let x: u32 = v[0] as u32;
    let y: u32 = v[1] as u32;
    let z: u32 = v[2] as u32;

    let mut h: u32 = 0x811c_9dc5;
    h = (h ^ x).wrapping_mul(0x0100_0193);
    h = (h ^ y).wrapping_mul(0x0100_0193);
    h = (h ^ z).wrapping_mul(0x0100_0193);

    h = h ^ (h >> s1);
    h = h.wrapping_mul(0xc2b2_ae3d);
    h = h ^ (h >> s2);

    proof {
        lemma_bucket_range(h);
    }
    h & MASK_TARGET_BITS
}

} // verus!
