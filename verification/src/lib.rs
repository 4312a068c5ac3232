//! Integer hashes of three-dimensional coordinates, the occupancy of their
//! buckets over a cubic domain, and the search for the shift parameters
//! that spread a domain most evenly.

use vstd::prelude::*;
use crate::hash::{lemma_bucket_range, xxhash_style, BUCKET_COUNT, MASK_TARGET_BITS};
use crate::mix::rotate_left32;

pub mod domain;
pub mod family;
pub mod hash;
pub mod mix;
pub mod sampler;
pub mod search;
pub mod stats;

verus! {

/// Hashes a coordinate to 18 bits: the xxHash-style hash with rotations by 2
/// and 13 and both shifts by 1.
pub fn u32x3_to_18_bits(v: [i32; 3]) -> (h: u32)
    ensures
        h == xxhash_style(v, 2, 13, 1, 1),
        h < BUCKET_COUNT,
{
    let mut h: u32 = (v[0] as u32).wrapping_add(0x9e37_79b1);
    h = h ^ rotate_left32((v[1] as u32).wrapping_mul(0x85eb_ca77), 2);
    h = h.wrapping_mul(0x27d4_eb2f);
    h = h ^ rotate_left32((v[2] as u32).wrapping_mul(0x85eb_ca77), 13);
    h = h.wrapping_mul(0x27d4_eb2f);

    h = h ^ (h >> 1u32);
    h = h.wrapping_mul(0x85eb_ca77);
    h = h ^ (h >> 1u32);

    proof {
        lemma_bucket_range(h);
    }
    h & MASK_TARGET_BITS
}

} // verus!
