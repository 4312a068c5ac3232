//! The cubic coordinate domain `[-bounds, bounds)^3` and its lexicographic
//! enumeration.

use vstd::prelude::*;
use vstd::arithmetic::div_mod::lemma_fundamental_div_mod_converse;
use vstd::arithmetic::div_mod::lemma_fundamental_div_mod;
use vstd::arithmetic::div_mod::lemma_div_pos_is_pos;

verus! {

/// Largest half-extent of a domain: the number of coordinates of a domain
/// must fit a `u32` counter, and `1624^3 <= u32::MAX < 1626^3`.
pub const MAX_BOUNDS: i32 = 812;

/// Number of coordinates in the domain: `(2 * bounds)^3`.
pub open spec fn domain_size(bounds: int) -> int {
    (2 * bounds) * (2 * bounds) * (2 * bounds)
}

/// Whether `v` lies in `[-bounds, bounds)^3`.
pub open spec fn in_domain(bounds: int, v: [i32; 3]) -> bool {
    &&& -bounds <= v[0] < bounds
    &&& -bounds <= v[1] < bounds
    &&& -bounds <= v[2] < bounds
}

/// Position of `(x, y, z)` in the lexicographic order of the domain, in
/// which the last component moves fastest.
pub open spec fn coord_index(bounds: int, x: int, y: int, z: int) -> int {
    ((x + bounds) * (2 * bounds) + (y + bounds)) * (2 * bounds) + (z + bounds)
}

/// The coordinate at position `i` of the lexicographic order.
pub open spec fn coord_at(bounds: int, i: int) -> [i32; 3] {
    let w = 2 * bounds;
    let q = i / w;
    [(q / w - bounds) as i32, (q % w - bounds) as i32, (i % w - bounds) as i32]
}

/// The domain of half-extent at most `MAX_BOUNDS` has at most `u32::MAX`
/// coordinates, and at least eight.
pub proof fn lemma_domain_size_bounds(bounds: int)
    requires
        1 <= bounds <= MAX_BOUNDS,
    ensures
        8 <= domain_size(bounds) <= 0xffff_ffff,
{
    assert(8 <= (2 * bounds) * (2 * bounds) * (2 * bounds) <= 1624 * 1624 * 1624)
        by (nonlinear_arith)
        requires
            1 <= bounds <= 812,
    ;
}

/// A coordinate of the domain has a position below the size of the domain,
/// and `coord_at` leads from that position back to the coordinate.
pub proof fn lemma_coord_at_index(bounds: int, x: int, y: int, z: int)
    requires
        1 <= bounds <= MAX_BOUNDS,
        -bounds <= x < bounds,
        -bounds <= y < bounds,
        -bounds <= z < bounds,
    ensures
        0 <= coord_index(bounds, x, y, z) < domain_size(bounds),
        coord_at(bounds, coord_index(bounds, x, y, z)) == [x as i32, y as i32, z as i32],
{
    let w = 2 * bounds;
    let q = (x + bounds) * w + (y + bounds);
    let i = q * w + (z + bounds);
    assert(0 <= q < w * w && 0 <= i < w * w * w) by (nonlinear_arith)
        requires
            0 <= x + bounds < w,
            0 <= y + bounds < w,
            0 <= z + bounds < w,
            q == (x + bounds) * w + (y + bounds),
            i == q * w + (z + bounds),
    ;
    lemma_fundamental_div_mod_converse(i, w, q, z + bounds);
    lemma_fundamental_div_mod_converse(q, w, x + bounds, y + bounds);
}

/// Every position below the size of the domain holds a coordinate of the
/// domain, and that coordinate has this position: the enumeration visits
/// each coordinate once.
pub proof fn lemma_index_coord_at(bounds: int, i: int)
    requires
        1 <= bounds <= MAX_BOUNDS,
        0 <= i < domain_size(bounds),
    ensures
        in_domain(bounds, coord_at(bounds, i)),
        coord_index(
            bounds,
            coord_at(bounds, i)[0] as int,
            coord_at(bounds, i)[1] as int,
            coord_at(bounds, i)[2] as int,
        ) == i,
{
    let w = 2 * bounds;
    let q = i / w;
    lemma_fundamental_div_mod(i, w);
    lemma_fundamental_div_mod(q, w);
    lemma_div_pos_is_pos(i, w);
    lemma_div_pos_is_pos(q, w);
    assert(q < w * w) by (nonlinear_arith)
        requires
            i == w * q + i % w,
            0 <= i % w,
            i < w * w * w,
            w > 0,
    ;
    assert(q / w < w) by (nonlinear_arith)
        requires
            q == w * (q / w) + q % w,
            0 <= q % w,
            q < w * w,
            w > 0,
    ;
    assert((q / w) * w == w * (q / w) && q * w == w * q) by (nonlinear_arith);
}

} // verus!
