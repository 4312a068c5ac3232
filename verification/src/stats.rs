//! The statistics engine: from an occupancy table to the mean, the variance
//! and the coefficient of variation of its counters, kept as exact
//! fractions of integers.

use vstd::prelude::*;
use crate::domain::{domain_size, MAX_BOUNDS};
use crate::domain::lemma_domain_size_bounds;
use crate::sampler::table_sum;

verus! {

/// Most counters that a table may have: `2^31 + 1`.
pub const MAX_SLOTS: usize = 0x8000_0001;

/// A fraction `num / den` of integers, with `den > 0`.
pub struct Ratio {
    pub num: int,
    pub den: int,
}

impl Ratio {
    /// Whether `self` is the smaller fraction.
    pub open spec fn lt(self, other: Ratio) -> bool {
        self.num * other.den < other.num * self.den
    }

    /// Whether both fractions have the same value.
    pub open spec fn same(self, other: Ratio) -> bool {
        self.num * other.den == other.num * self.den
    }

    /// The product of two fractions.
    pub open spec fn times(self, other: Ratio) -> Ratio {
        Ratio { num: self.num * other.num, den: self.den * other.den }
    }
}

/// The counters that were hit at least once.
pub open spec fn is_hit() -> spec_fn(u32) -> bool {
    |c: u32| c > 0
}

/// Sum of the squares of the counters.
pub open spec fn sum_squares(table: Seq<u32>) -> nat
    decreases table.len(),
{
    if table.len() == 0 {
        0
    } else {
        sum_squares(table.drop_last()) + (table.last() as nat) * (table.last() as nat)
    }
}

/// Sum over all counters `c` of `(m * c - t)^2`. With `t / m` for the mean
/// this is `m^2` times the sum of the squared deviations from the mean.
pub open spec fn sq_deviation(table: Seq<u32>, m: int, t: int) -> int
    decreases table.len(),
{
    if table.len() == 0 {
        0
    } else {
        sq_deviation(table.drop_last(), m, t) + (m * table.last() - t) * (m * table.last() - t)
    }
}

/// A sum of squares is not negative.
pub proof fn lemma_sq_deviation_nonneg(table: Seq<u32>, m: int, t: int)
    ensures
        0 <= sq_deviation(table, m, t),
    decreases table.len(),
{
    if table.len() > 0 {
        lemma_sq_deviation_nonneg(table.drop_last(), m, t);
        let d = m * table.last() - t;
        assert(0 <= d * d) by (nonlinear_arith);
    }
}

/// The squared deviations written out:
/// `sum (m c - t)^2 = m^2 sum c^2 - 2 m t sum c + n t^2`.
pub proof fn lemma_sq_deviation_expand(table: Seq<u32>, m: int, t: int)
    ensures
        sq_deviation(table, m, t) == m * m * sum_squares(table) - 2 * m * t * table_sum(table)
            + table.len() * t * t,
    decreases table.len(),
{
    if table.len() > 0 {
        let rest = table.drop_last();
        let c = table.last() as int;
        lemma_sq_deviation_expand(rest, m, t);
        let s2 = sum_squares(rest) as int;
        let s1 = table_sum(rest) as int;
        let n = rest.len() as int;
        let dev = sq_deviation(table, m, t);
        let dev_rest = sq_deviation(rest, m, t);
        let big_s2 = sum_squares(table) as int;
        let big_s1 = table_sum(table) as int;
        let big_n = table.len() as int;
        assert(dev == m * m * big_s2 - 2 * m * t * big_s1 + big_n * t * t) by (nonlinear_arith)
            requires
                dev_rest == m * m * s2 - 2 * m * t * s1 + n * t * t,
                dev == dev_rest + (m * c - t) * (m * c - t),
                big_s2 == s2 + c * c,
                big_s1 == s1 + c,
                big_n == n + 1,
        ;
    } else {
        assert(m * m * 0 - 2 * m * t * 0 + 0 * t * t == 0) by (nonlinear_arith);
    }
}

/// The squares of counters sum to at most the square of their sum.
pub proof fn lemma_sum_squares_le(table: Seq<u32>)
    ensures
        sum_squares(table) <= table_sum(table) * table_sum(table),
    decreases table.len(),
{
    if table.len() > 0 {
        let rest = table.drop_last();
        let c = table.last() as int;
        lemma_sum_squares_le(rest);
        let s2 = sum_squares(rest) as int;
        let s1 = table_sum(rest) as int;
        assert(s2 + c * c <= (s1 + c) * (s1 + c)) by (nonlinear_arith)
            requires
                s2 <= s1 * s1,
                0 <= s1,
                0 <= c,
        ;
    }
}

/// The counters of a prefix sum to at most the sum of the table.
pub proof fn lemma_table_sum_prefix(table: Seq<u32>, i: int)
    requires
        0 <= i <= table.len(),
    ensures
        table_sum(table.take(i)) <= table_sum(table),
    decreases table.len(),
{
    if i == table.len() {
        assert(table.take(i) =~= table);
    } else {
        lemma_table_sum_prefix(table.drop_last(), i);
        assert(table.drop_last().take(i) =~= table.take(i));
    }
}

/// Among statistics that may be compared, the smaller coefficient of
/// variation belongs to the smaller spread.
pub proof fn lemma_cv_lt_by_spread(x: HashStats, y: HashStats)
    requires
        x.wf(),
        x.comparable(y),
    ensures
        x.cv_lt(y) == (x.spread < y.spread),
        !x.cv_lt(x),
{
    let d = x.slots * (x.samples * x.samples);
    let a = x.spread as int;
    let b = y.spread as int;
    assert(0 < d) by (nonlinear_arith)
        requires
            d == x.slots * (x.samples * x.samples),
            1 <= x.samples,
            2 <= x.slots,
    ;
    assert((a < b) == (a * d < b * d)) by (nonlinear_arith)
        requires
            0 < d,
    ;
}

/// The coefficient of variation is the standard deviation over the mean:
/// its square times the square of the mean is the variance.
pub proof fn lemma_cv_squared_times_mean_squared(s: HashStats)
    requires
        s.wf(),
    ensures
        s.cv_squared().times(s.mean()).times(s.mean()).same(s.variance()),
        0 < s.mean().den,
        0 < s.variance().den,
        0 < s.cv_squared().den,
{
    let m = s.slots - 1;
    let n = s.slots as int;
    let t = s.samples as int;
    let d = s.spread as int;
    assert(((d * t) * t) * ((m * m) * n) == d * (((n * (t * t)) * m) * m)) by (nonlinear_arith);
    assert(0 < (m * m) * n && 0 < n * (t * t)) by (nonlinear_arith)
        requires
            1 <= m,
            2 <= n,
            1 <= t,
    ;
}

/// What was measured of one hash on one domain.
///
/// The mean, the variance and the squared coefficient of variation are
/// fractions over `samples`, `slots` and `spread`; none of them is rounded.
#[derive(Clone, Copy, Debug, PartialEq, Eq, Structural)]
pub struct HashStats {
    /// Number of counters that were hit at least once.
    pub unique: usize,
    /// Number of coordinates of the domain.
    pub samples: u64,
    /// Number of counters of the table, the guard counter included.
    pub slots: u64,
    /// Sum over all counters `c` of `((slots - 1) * c - samples)^2`.
    pub spread: u128,
}

impl HashStats {
    /// The statistics of `table` for a domain of half-extent `bounds`.
    pub open spec fn of_table(table: Seq<u32>, bounds: int) -> HashStats {
        HashStats {
            unique: table.filter(is_hit()).len() as usize,
            samples: domain_size(bounds) as u64,
            slots: table.len() as u64,
            spread: sq_deviation(table, table.len() - 1, domain_size(bounds)) as u128,
        }
    }

    /// A mean and a coefficient of variation exist: there are samples, and
    /// at least one counter besides the guard.
    pub open spec fn wf(self) -> bool {
        &&& 1 <= self.samples
        &&& 2 <= self.slots
    }

    /// Expected number of samples in a bucket: the samples divided by the
    /// number of counters without the guard.
    pub open spec fn mean(self) -> Ratio {
        Ratio { num: self.samples as int, den: self.slots - 1 }
    }

    /// Average over all counters, the guard included, of the squared
    /// deviation of the counter from the mean.
    pub open spec fn variance(self) -> Ratio {
        Ratio { num: self.spread as int, den: (self.slots - 1) * (self.slots - 1) * self.slots }
    }

    /// Square of the coefficient of variation: the variance divided by the
    /// square of the mean. The coefficient itself is its square root, and
    /// is never negative.
    pub open spec fn cv_squared(self) -> Ratio {
        Ratio { num: self.spread as int, den: self.slots * (self.samples * self.samples) }
    }

    /// Whether the coefficients of variation of `self` and `other` may be
    /// compared: both were measured on domains of one size with tables of
    /// one length.
    pub open spec fn comparable(self, other: HashStats) -> bool {
        self.samples == other.samples && self.slots == other.slots
    }

    /// Whether the coefficient of variation of `self` is the smaller one.
    pub open spec fn cv_lt(self, other: HashStats) -> bool {
        self.cv_squared().lt(other.cv_squared())
    }

    /// Computes the statistics of an occupancy table for the domain of
    /// half-extent `bounds`.
    pub fn new(hashes: &[u32], bounds: i32) -> (s: HashStats)
        requires
            1 <= bounds <= MAX_BOUNDS,
            2 <= hashes.len() <= MAX_SLOTS,
            table_sum(hashes@) <= u32::MAX,
        ensures
            s == HashStats::of_table(hashes@, bounds as int),
            s.wf(),
            s.unique == hashes@.filter(is_hit()).len(),
            s.samples == domain_size(bounds as int),
            s.slots == hashes.len(),
            s.spread == sq_deviation(hashes@, hashes.len() - 1, domain_size(bounds as int)),
            s.mean() == (Ratio { num: domain_size(bounds as int), den: hashes.len() - 1 }),
    {
        let n: usize = hashes.len();
        let mut unique: usize = 0;
        let mut total: u64 = 0;
        let mut squares: u64 = 0;
        let mut i: usize = 0;
        assert(hashes@.take(0) =~= Seq::<u32>::empty());
        while i < n
            invariant
                n == hashes.len(),
                0 <= i <= n,
                table_sum(hashes@) <= u32::MAX,
                unique == hashes@.take(i as int).filter(is_hit()).len(),
                unique <= i,
                total == table_sum(hashes@.take(i as int)),
                squares == sum_squares(hashes@.take(i as int)),
            decreases n - i,
        {
            let c: u32 = hashes[i];
            proof {
                let prefix = hashes@.take(i as int);
                let next = hashes@.take(i + 1);
                assert(next =~= prefix.push(c));
                assert(next.drop_last() =~= prefix);
                prefix.lemma_filter_len_push(is_hit(), c);
                lemma_table_sum_prefix(hashes@, i + 1);
                lemma_sum_squares_le(next);
                let s1 = table_sum(next) as int;
                assert(s1 * s1 <= 0xffff_ffff * 0xffff_ffff) by (nonlinear_arith)
                    requires
                        0 <= s1 <= 0xffff_ffff,
                ;
            }
            if c > 0 {
                unique = unique + 1;
            }
            total = total + c as u64;
            squares = squares + (c as u64) * (c as u64);
            i = i + 1;
        }
        let side: u64 = 2 * (bounds as u64);
        proof {
            lemma_domain_size_bounds(bounds as int);
            assert(side * side <= 1624 * 1624) by (nonlinear_arith)
                requires
                    side <= 1624,
            ;
        }
        let samples: u64 = side * side * side;
        let m: u128 = (n - 1) as u128;
        let t: u128 = samples as u128;
        let s1: u128 = total as u128;
        let s2: u128 = squares as u128;
        proof {
            assert(hashes@.take(n as int) =~= hashes@);
            lemma_sq_deviation_expand(hashes@, m as int, t as int);
            lemma_sq_deviation_nonneg(hashes@, m as int, t as int);
            lemma_sum_squares_le(hashes@);
            let mm = m * m;
            let tt = t * t;
            let mt = m * t;
            assert(mm <= 0x4000_0000_0000_0000 && tt <= 0x1_0000_0000_0000_0000 && mt
                <= 0x8000_0000_0000_0000 && s2 <= 0x1_0000_0000_0000_0000) by (nonlinear_arith)
                requires
                    mm == m * m,
                    tt == t * t,
                    mt == m * t,
                    m <= 0x8000_0000,
                    t <= 0xffff_ffff,
                    s1 <= 0xffff_ffff,
                    s2 <= s1 * s1,
            ;
            assert(mm * s2 <= 0x4000_0000_0000_0000_0000_0000_0000_0000 && (n as int) * tt
                <= 0x8000_0001_0000_0000_0000_0000 && 2 * mt * s1
                <= 0x1_0000_0000_0000_0000_0000_0000) by (nonlinear_arith)
                requires
                    0 <= mm <= 0x4000_0000_0000_0000,
                    0 <= tt <= 0x1_0000_0000_0000_0000,
                    0 <= mt <= 0x8000_0000_0000_0000,
                    0 <= s2 <= 0x1_0000_0000_0000_0000,
                    0 <= s1 <= 0xffff_ffff,
                    0 <= n <= 0x8000_0001,
            ;
            assert(m * m * s2 - 2 * m * t * s1 + n * t * t == mm * s2 + (n as int) * tt - 2 * mt
                * s1) by (nonlinear_arith)
                requires
                    mm == m * m,
                    tt == t * t,
                    mt == m * t,
            ;
        }
        let spread: u128 = m * m * s2 + (n as u128) * (t * t) - 2 * (m * t) * s1;
        HashStats { unique, samples, slots: n as u64, spread }
    }

    /// Whether the coefficient of variation of `self` is smaller than that
    /// of `other`.
    pub fn cv_less(&self, other: &HashStats) -> (less: bool)
        requires
            self.wf(),
            other.wf(),
            self.comparable(*other),
        ensures
            less == self.cv_lt(*other),
    {
        proof {
            lemma_cv_lt_by_spread(*self, *other);
        }
        self.spread < other.spread
    }
}

} // verus!
