//! The six hash families behind one name each, and the search for the best
//! amounts of a family on a domain.

use vstd::prelude::*;
use crate::domain::{coord_at, domain_size, MAX_BOUNDS};
use crate::hash::{fnv_style, murmur_style, pcg_style, splitmix_style, wang_style, xxhash_style};
use crate::hash::{hash_fnv_style, hash_murmur_style, hash_pcg_style};
use crate::hash::{hash_splitmix_style, hash_wang_style, hash_xxhash_style, BUCKET_COUNT};
use crate::sampler::{is_run, ivec_range, stats_of_run};
use crate::search::{is_evaluation, is_first_minimum, limits, permute5, HashConsts};
use crate::stats::HashStats;

verus! {

/// One of the six families of coordinate hashes.
#[derive(Clone, Copy, Debug, PartialEq, Eq, Structural)]
pub enum HashFamily {
    /// Amounts `a`, `b`, `c`: the three shifts.
    Murmur,
    /// Amounts `a`, `b`: the two rotations; `c`, `d`: the two shifts.
    XxHash,
    /// Amounts `a`, `b`, `c`: the three shifts.
    SplitMix,
    /// Amounts `a`, `b`: the output shifts; `c`, `d`: the seed shifts.
    Pcg,
    /// Amounts `a`, `b`: the seed shifts; `c`, `d`, `e`: the avalanche shifts.
    Wang,
    /// Amounts `a`, `b`: the two shifts.
    Fnv,
}

impl HashFamily {
    /// Whether every shift among the amounts `k` is below the width of the
    /// word that it shifts. Amounts that the family does not use are free,
    /// and so are rotations.
    pub open spec fn accepts(self, k: HashConsts) -> bool {
        match self {
            HashFamily::Murmur => k.a < 32 && k.b < 32 && k.c < 32,
            HashFamily::XxHash => k.c < 32 && k.d < 32,
            HashFamily::SplitMix => k.a < 64 && k.b < 64 && k.c < 64,
            HashFamily::Pcg => k.a < 64 && k.b < 64 && k.c < 64 && k.d < 64,
            HashFamily::Wang => k.a < 32 && k.b < 32 && k.c < 32 && k.d < 32 && k.e < 32,
            HashFamily::Fnv => k.a < 32 && k.b < 32,
        }
    }

    /// The widest shifts that the family accepts: for each amount the width
    /// of the word that it shifts, less one, and zero where the family has no
    /// such amount.
    pub open spec fn widest(self) -> HashConsts {
        match self {
            HashFamily::Murmur => limits(31, 31, 31, 0, 0),
            HashFamily::XxHash => limits(31, 31, 31, 31, 0),
            HashFamily::SplitMix => limits(63, 63, 63, 0, 0),
            HashFamily::Pcg => limits(63, 63, 63, 63, 0),
            HashFamily::Wang => limits(31, 31, 31, 31, 31),
            HashFamily::Fnv => limits(31, 31, 0, 0, 0),
        }
    }

    /// The bucket of `v` under the family's hash with the amounts `k`.
    pub open spec fn bucket(self, v: [i32; 3], k: HashConsts) -> u32 {
        match self {
            HashFamily::Murmur => murmur_style(v, k.a, k.b, k.c),
            HashFamily::XxHash => xxhash_style(v, k.a, k.b, k.c, k.d),
            HashFamily::SplitMix => splitmix_style(v, k.a, k.b, k.c),
            HashFamily::Pcg => pcg_style(v, k.a, k.b, k.c, k.d),
            HashFamily::Wang => wang_style(v, k.a, k.b, k.c, k.d, k.e),
            HashFamily::Fnv => fnv_style(v, k.a, k.b),
        }
    }

    /// The buckets of all coordinates of the domain, in lexicographic order.
    pub open spec fn run(self, k: HashConsts, bounds: int) -> Seq<u32> {
        Seq::new(domain_size(bounds) as nat, |i: int| self.bucket(coord_at(bounds, i), k))
    }

    /// The statistics of the family's hash with the amounts `k` on the
    /// domain of half-extent `bounds`.
    pub open spec fn stats(self, k: HashConsts, bounds: int) -> HashStats {
        stats_of_run(self.run(k, bounds), (BUCKET_COUNT + 1) as nat, bounds)
    }

    /// Tests whether the family accepts the amounts `k`.
    pub fn admits(self, k: HashConsts) -> (ok: bool)
        ensures
            ok == self.accepts(k),
    {
        match self {
            HashFamily::Murmur => k.a < 32 && k.b < 32 && k.c < 32,
            HashFamily::XxHash => k.c < 32 && k.d < 32,
            HashFamily::SplitMix => k.a < 64 && k.b < 64 && k.c < 64,
            HashFamily::Pcg => k.a < 64 && k.b < 64 && k.c < 64 && k.d < 64,
            HashFamily::Wang => k.a < 32 && k.b < 32 && k.c < 32 && k.d < 32 && k.e < 32,
            HashFamily::Fnv => k.a < 32 && k.b < 32,
        }
    }

    /// Hashes `v` with the amounts `k`.
    pub fn hash(self, v: [i32; 3], k: HashConsts) -> (h: u32)
        requires
            self.accepts(k),
        ensures
            h == self.bucket(v, k),
            h < BUCKET_COUNT,
    {
        match self {
            HashFamily::Murmur => hash_murmur_style(v, k.a, k.b, k.c),
            HashFamily::XxHash => hash_xxhash_style(v, k.a, k.b, k.c, k.d),
            HashFamily::SplitMix => hash_splitmix_style(v, k.a, k.b, k.c),
            HashFamily::Pcg => hash_pcg_style(v, k.a, k.b, k.c, k.d),
            HashFamily::Wang => hash_wang_style(v, k.a, k.b, k.c, k.d, k.e),
            HashFamily::Fnv => hash_fnv_style(v, k.a, k.b),
        }
    }

    /// Measures the family's hash with the amounts `k` on the domain
    /// `[-bounds, bounds)^3`.
    pub fn measure(self, bounds: i32, k: HashConsts) -> (stats: HashStats)
        requires
            1 <= bounds <= MAX_BOUNDS,
            self.accepts(k),
        ensures
            stats == self.stats(k, bounds as int),
            stats.wf(),
            stats.samples == domain_size(bounds as int),
            stats.slots == BUCKET_COUNT + 1,
    {
        let probe = |v: [i32; 3]| -> (h: u32)
            ensures
                h == self.bucket(v, k),
                h < BUCKET_COUNT,
            { self.hash(v, k) };
        let stats = ivec_range(bounds, probe);
        proof {
            let hs = choose|hs: Seq<u32>|
                is_run(probe, bounds as int, hs) && stats == stats_of_run(
                    hs,
                    (BUCKET_COUNT + 1) as nat,
                    bounds as int,
                );
            assert(hs =~= self.run(k, bounds as int));
        }
        stats
    }
}

/// The ends of the range of shifts are accepted by every family: zero for
/// every amount, the widest shift for every amount, and all that lies
/// between them.
pub proof fn lemma_boundary_shifts_accepted(family: HashFamily, k: HashConsts)
    ensures
        family.accepts(limits(0, 0, 0, 0, 0)),
        family.accepts(family.widest()),
        k.within(family.widest()) ==> family.accepts(k),
{
}

/// Searches the amounts of `family` up to the limits `max` for the tuple
/// that spreads the domain `[-bounds, bounds)^3` most evenly: the first
/// tuple, in the order in which `e` moves fastest, whose coefficient of
/// variation is least.
pub fn evaluate_family(family: HashFamily, bounds: i32, max: HashConsts) -> (found: (
    HashConsts,
    HashStats,
))
    requires
        1 <= bounds <= MAX_BOUNDS,
        family.accepts(max),
    ensures
        found.0.within(max),
        found.1 == family.stats(found.0, bounds as int),
        forall|t: HashConsts|
            t.within(max) ==> !(#[trigger] family.stats(t, bounds as int)).cv_lt(found.1),
        forall|t: HashConsts|
            t.within(max) && t.before(found.0) ==> found.1.cv_lt(
                #[trigger] family.stats(t, bounds as int),
            ),
{
    let trial = |a: u32, b: u32, c: u32, d: u32, e: u32| -> (stats: HashStats)
        requires
            limits(a, b, c, d, e).within(max),
        ensures
            stats == family.stats(limits(a, b, c, d, e), bounds as int),
            stats.wf(),
            stats.samples == domain_size(bounds as int),
            stats.slots == BUCKET_COUNT + 1,
        { family.measure(bounds, HashConsts { a, b, c, d, e }) };
    let found = permute5(max.a, max.b, max.c, max.d, max.e, trial);
    proof {
        assert(max == limits(max.a, max.b, max.c, max.d, max.e));
        let evals = choose|evals: Map<HashConsts, HashStats>|
            is_evaluation(trial, max, evals) && is_first_minimum(evals, max, found.0, found.1);
        assert forall|t: HashConsts| t.within(max) implies #[trigger] family.stats(
            t,
            bounds as int,
        ) == evals[t] by {
            assert(evals.contains_key(t));
            assert(t == limits(t.a, t.b, t.c, t.d, t.e));
        }
    }
    found
}

} // verus!
