//! The distribution sampler: one hash is applied to every coordinate of a
//! cubic domain, and each bucket counts the coordinates that fall into it.

use vstd::prelude::*;
use vstd::arithmetic::power2::{pow2, lemma2_to64, lemma_pow2_strictly_increases};
use vstd::bits::lemma_u64_shl_is_mul;
use crate::domain::{coord_at, coord_index, domain_size, in_domain, MAX_BOUNDS};
use crate::domain::{lemma_coord_at_index, lemma_domain_size_bounds};
use crate::hash::{BUCKET_COUNT, TARGET_BITS};
use crate::stats::HashStats;

verus! {

/// Widest bucket index for which a table can be laid out: `2^31 + 1`
/// counters are the most that every `usize` can number.
pub const MAX_BITS: u32 = 31;

/// Number of times that `k` occurs in `hs`.
pub open spec fn occurrences(hs: Seq<u32>, k: int) -> nat
    decreases hs.len(),
{
    if hs.len() == 0 {
        0
    } else {
        occurrences(hs.drop_last(), k) + if hs.last() == k {
            1nat
        } else {
            0nat
        }
    }
}

/// Sum of the counters of a table.
pub open spec fn table_sum(table: Seq<u32>) -> nat
    decreases table.len(),
{
    if table.len() == 0 {
        0
    } else {
        table_sum(table.drop_last()) + table.last() as nat
    }
}

/// Whether `f` may be called on every coordinate of the domain and returns
/// no index above `limit` there.
pub open spec fn hashes_domain<F: Fn([i32; 3]) -> u32>(f: F, bounds: int, limit: int) -> bool {
    &&& forall|v: [i32; 3]| in_domain(bounds, v) ==> call_requires(f, (v,))
    &&& forall|v: [i32; 3], h: u32| in_domain(bounds, v) && call_ensures(f, (v,), h) ==> h <= limit
}

/// Whether `hs` lists what `f` returned on the first coordinates of the
/// domain, taken in lexicographic order.
pub open spec fn is_partial_run<F: Fn([i32; 3]) -> u32>(f: F, bounds: int, hs: Seq<u32>) -> bool {
    forall|i: int| 0 <= i < hs.len() ==> call_ensures(f, (coord_at(bounds, i),), #[trigger] hs[i])
}

/// Whether `hs` lists what `f` returned on all coordinates of the domain,
/// taken in lexicographic order.
pub open spec fn is_run<F: Fn([i32; 3]) -> u32>(f: F, bounds: int, hs: Seq<u32>) -> bool {
    hs.len() == domain_size(bounds) && is_partial_run(f, bounds, hs)
}

/// Whether each counter of `table` holds the number of occurrences of its
/// index in `hs`, and every value of `hs` has a counter.
pub open spec fn tallies(table: Seq<u32>, hs: Seq<u32>) -> bool {
    &&& forall|k: int| 0 <= k < table.len() ==> #[trigger] table[k] == occurrences(hs, k)
    &&& forall|i: int| 0 <= i < hs.len() ==> #[trigger] hs[i] < table.len()
}

/// The table of `len` counters that tallies `hs`.
pub open spec fn tally(hs: Seq<u32>, len: nat) -> Seq<u32> {
    Seq::new(len, |k: int| occurrences(hs, k) as u32)
}

/// The statistics of the table of `len` counters that tallies `hs`, for the
/// domain of half-extent `bounds`.
pub open spec fn stats_of_run(hs: Seq<u32>, len: nat, bounds: int) -> HashStats {
    HashStats::of_table(tally(hs, len), bounds)
}

/// A value occurs in a sequence at most as often as the sequence is long.
pub proof fn lemma_occurrences_le_len(hs: Seq<u32>, k: int)
    ensures
        occurrences(hs, k) <= hs.len(),
    decreases hs.len(),
{
    if hs.len() > 0 {
        lemma_occurrences_le_len(hs.drop_last(), k);
    }
}

/// Setting one counter changes the sum of the table by as much as the
/// counter changes.
pub proof fn lemma_table_sum_update(table: Seq<u32>, k: int, c: u32)
    requires
        0 <= k < table.len(),
    ensures
        table_sum(table.update(k, c)) == table_sum(table) - table[k] + c,
    decreases table.len(),
{
    let next = table.update(k, c);
    if k == table.len() - 1 {
        assert(next.drop_last() =~= table.drop_last());
    } else {
        lemma_table_sum_update(table.drop_last(), k, c);
        assert(next.drop_last() =~= table.drop_last().update(k, c));
    }
}

/// Counting one more value: the counter of `h` goes up by one.
pub proof fn lemma_tally_push(table: Seq<u32>, hs: Seq<u32>, h: u32)
    requires
        tallies(table, hs),
        h < table.len(),
        hs.len() < u32::MAX,
    ensures
        table[h as int] < u32::MAX,
        tallies(table.update(h as int, (table[h as int] + 1) as u32), hs.push(h)),
{
    let next = table.update(h as int, (table[h as int] + 1) as u32);
    let longer = hs.push(h);
    lemma_occurrences_le_len(hs, h as int);
    assert(longer.drop_last() =~= hs);
    assert forall|k: int| 0 <= k < next.len() implies #[trigger] next[k] == occurrences(
        longer,
        k,
    ) by {
        assert(table[k] == occurrences(hs, k));
    }
    assert forall|i: int| 0 <= i < longer.len() implies #[trigger] longer[i] < next.len() by {
        if i < hs.len() {
            assert(longer[i] == hs[i]);
        }
    }
}

/// A table of zeros sums to zero.
pub proof fn lemma_table_sum_zero(table: Seq<u32>)
    requires
        forall|k: int| 0 <= k < table.len() ==> table[k] == 0,
    ensures
        table_sum(table) == 0,
    decreases table.len(),
{
    if table.len() > 0 {
        lemma_table_sum_zero(table.drop_last());
    }
}

/// Conservation: a table that tallies `hs` sums to the length of `hs`.
pub proof fn lemma_tally_conserves(table: Seq<u32>, hs: Seq<u32>)
    requires
        tallies(table, hs),
    ensures
        table_sum(table) == hs.len(),
    decreases hs.len(),
{
    if hs.len() == 0 {
        lemma_table_sum_zero(table);
    } else {
        let k = hs.last() as int;
        let before = table.update(k, (table[k] - 1) as u32);
        assert(hs.drop_last().len() == hs.len() - 1);
        assert(tallies(before, hs.drop_last())) by {
            assert forall|j: int| 0 <= j < before.len() implies #[trigger] before[j]
                == occurrences(hs.drop_last(), j) by {
                assert(table[j] == occurrences(hs, j));
            }
            assert forall|i: int| 0 <= i < hs.drop_last().len() implies #[trigger] hs.drop_last()[i]
                < before.len() by {
                assert(hs[i] < table.len());
            }
        }
        lemma_tally_conserves(before, hs.drop_last());
        lemma_table_sum_update(table, k, (table[k] - 1) as u32);
    }
}

/// Number of counters in the table for bucket indices of `bits` bits: one
/// for each index and one guard counter above them.
pub fn table_len(bits: u32) -> (len: usize)
    requires
        bits <= MAX_BITS,
    ensures
        len == pow2(bits as nat) + 1,
{
    proof {
        lemma2_to64();
        if bits < 31 {
            lemma_pow2_strictly_increases(bits as nat, 31);
        }
        lemma_u64_shl_is_mul(1, bits as u64);
    }
    let buckets: u64 = 1u64 << (bits as u64);
    (buckets + 1) as usize
}

/// Applies `f` to every coordinate of `[-bounds, bounds)^3`, in lexicographic
/// order, and counts for each bucket index the coordinates that `f` sent to
/// it. The table has `2^bits + 1` counters: `f` may return `2^bits` itself.
pub fn occupancy_table<F: Fn([i32; 3]) -> u32>(bounds: i32, bits: u32, f: F) -> (table: Vec<u32>)
    requires
        1 <= bounds <= MAX_BOUNDS,
        bits <= MAX_BITS,
        hashes_domain(f, bounds as int, pow2(bits as nat) as int),
    ensures
        table.len() == pow2(bits as nat) + 1,
        exists|hs: Seq<u32>| is_run(f, bounds as int, hs) && tallies(table@, hs),
        table_sum(table@) == domain_size(bounds as int),
{
    let len: usize = table_len(bits);
    let mut table: Vec<u32> = vec![0u32; len];
    let ghost b = bounds as int;
    let ghost mut hs: Seq<u32> = Seq::empty();
    proof {
        lemma_domain_size_bounds(b);
        assert(coord_index(b, -b, -b, -b) == 0) by (nonlinear_arith);
    }
    let mut x: i32 = -bounds;
    while x < bounds
        invariant
            1 <= bounds <= MAX_BOUNDS,
            b == bounds,
            -b <= x <= b,
            table.len() == pow2(bits as nat) + 1,
            domain_size(b) <= u32::MAX,
            hashes_domain(f, b, pow2(bits as nat) as int),
            hs.len() == coord_index(b, x as int, -b, -b),
            is_partial_run(f, b, hs),
            tallies(table@, hs),
        decreases bounds - x,
    {
        let mut y: i32 = -bounds;
        while y < bounds
            invariant
                1 <= bounds <= MAX_BOUNDS,
                b == bounds,
                -b <= x < b,
                -b <= y <= b,
                table.len() == pow2(bits as nat) + 1,
                domain_size(b) <= u32::MAX,
                hashes_domain(f, b, pow2(bits as nat) as int),
                hs.len() == coord_index(b, x as int, y as int, -b),
                is_partial_run(f, b, hs),
                tallies(table@, hs),
            decreases bounds - y,
        {
            let mut z: i32 = -bounds;
            while z < bounds
                invariant
                    1 <= bounds <= MAX_BOUNDS,
                    b == bounds,
                    -b <= x < b,
                    -b <= y < b,
                    -b <= z <= b,
                    table.len() == pow2(bits as nat) + 1,
                    domain_size(b) <= u32::MAX,
                    hashes_domain(f, b, pow2(bits as nat) as int),
                    hs.len() == coord_index(b, x as int, y as int, z as int),
                    is_partial_run(f, b, hs),
                    tallies(table@, hs),
                decreases bounds - z,
            {
                let v: [i32; 3] = [x, y, z];
                assert(in_domain(b, v));
                let h: u32 = f(v);
                proof {
                    lemma_coord_at_index(b, x as int, y as int, z as int);
                    lemma_tally_push(table@, hs, h);
                    hs = hs.push(h);
                }
                let slot: usize = h as usize;
                let count: u32 = table[slot];
                table.set(slot, count + 1);
                z = z + 1;
            }
            proof {
                assert(coord_index(b, x as int, y as int, b) == coord_index(
                    b,
                    x as int,
                    y + 1,
                    -b,
                )) by (nonlinear_arith);
            }
            y = y + 1;
        }
        proof {
            assert(coord_index(b, x as int, b, -b) == coord_index(b, x + 1, -b, -b))
                by (nonlinear_arith);
        }
        x = x + 1;
    }
    proof {
        assert(coord_index(b, b, -b, -b) == domain_size(b)) by (nonlinear_arith);
        lemma_tally_conserves(table@, hs);
    }
    table
}

/// Measures `f` on the domain `[-bounds, bounds)^3` with bucket indices of
/// `TARGET_BITS` bits: the statistics of the occupancy table of `f`.
pub fn ivec_range<F: Fn([i32; 3]) -> u32>(bounds: i32, f: F) -> (stats: HashStats)
    requires
        1 <= bounds <= MAX_BOUNDS,
        hashes_domain(f, bounds as int, BUCKET_COUNT as int),
    ensures
        exists|hs: Seq<u32>|
            is_run(f, bounds as int, hs) && stats == stats_of_run(
                hs,
                (BUCKET_COUNT + 1) as nat,
                bounds as int,
            ),
        stats.wf(),
        stats.samples == domain_size(bounds as int),
        stats.slots == BUCKET_COUNT + 1,
{
    proof {
        lemma2_to64();
        lemma_domain_size_bounds(bounds as int);
    }
    let table: Vec<u32> = occupancy_table(bounds, TARGET_BITS, f);
    let stats = HashStats::new(table.as_slice(), bounds);
    proof {
        let hs = choose|hs: Seq<u32>| is_run(f, bounds as int, hs) && tallies(table@, hs);
        assert(table@ =~= tally(hs, (BUCKET_COUNT + 1) as nat));
    }
    stats
}

} // verus!
