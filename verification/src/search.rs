//! The parameter search: every tuple of amounts up to given limits is
//! measured, and the first tuple with the least coefficient of variation is
//! kept.

use vstd::prelude::*;
use crate::stats::{lemma_cv_lt_by_spread, HashStats};

verus! {

/// Five amounts for one hash; a hash with fewer amounts leaves the last
/// ones at zero.
#[derive(Clone, Copy, Debug, PartialEq, Eq, Structural)]
pub struct HashConsts {
    pub a: u32,
    pub b: u32,
    pub c: u32,
    pub d: u32,
    pub e: u32,
}

/// Whether `t` comes before the position `(a, b, c, d, e)` in the order of
/// the search, in which the last amount moves fastest.
pub open spec fn lex_before(t: HashConsts, a: int, b: int, c: int, d: int, e: int) -> bool {
    t.a < a || (t.a == a && (t.b < b || (t.b == b && (t.c < c || (t.c == c && (t.d < d || (t.d
        == d && t.e < e)))))))
}

/// The tuple of the limits of a search.
pub open spec fn limits(a_max: u32, b_max: u32, c_max: u32, d_max: u32, e_max: u32) -> HashConsts {
    HashConsts { a: a_max, b: b_max, c: c_max, d: d_max, e: e_max }
}

impl HashConsts {
    /// Whether no amount exceeds its limit.
    pub open spec fn within(self, max: HashConsts) -> bool {
        &&& self.a <= max.a
        &&& self.b <= max.b
        &&& self.c <= max.c
        &&& self.d <= max.d
        &&& self.e <= max.e
    }

    /// Whether the search reaches `self` before `other`.
    pub open spec fn before(self, other: HashConsts) -> bool {
        lex_before(self, other.a as int, other.b as int, other.c as int, other.d as int, other.e as int)
    }
}

impl Default for HashConsts {
    /// All five amounts at zero.
    fn default() -> (k: HashConsts)
        ensures
            k == limits(0, 0, 0, 0, 0),
    {
        HashConsts { a: 0, b: 0, c: 0, d: 0, e: 0 }
    }
}

/// The best tuple that a search has met so far. Before the first tuple is
/// measured there are no statistics, and every measurement is better.
#[derive(Clone, Copy, Debug)]
pub struct BestResult {
    pub consts: HashConsts,
    pub stats: Option<HashStats>,
}

impl BestResult {
    /// Whether a measurement replaces the record: it does when nothing was
    /// measured before, or when its coefficient of variation is smaller. A
    /// tie does not replace.
    pub open spec fn beaten_by(self, stats: HashStats) -> bool {
        match self.stats {
            None => true,
            Some(held) => stats.cv_lt(held),
        }
    }

    /// The record after the measurement `stats` of the tuple `consts`.
    pub open spec fn step(self, consts: HashConsts, stats: HashStats) -> BestResult {
        if self.beaten_by(stats) {
            BestResult { consts, stats: Some(stats) }
        } else {
            self
        }
    }

    /// Whether the coefficient of variation of `self` is at most that of
    /// `other`, an empty record counting as larger than any measurement.
    pub open spec fn no_worse_than(self, other: BestResult) -> bool {
        match (self.stats, other.stats) {
            (_, None) => true,
            (None, Some(_)) => false,
            (Some(s), Some(o)) => !o.cv_lt(s),
        }
    }

    /// The record of a search that has measured nothing.
    pub fn new() -> (best: BestResult)
        ensures
            best.stats is None,
            best.consts == limits(0, 0, 0, 0, 0),
    {
        BestResult { consts: HashConsts::default(), stats: None }
    }

    /// Takes the measurement `stats` of the tuple `consts` into the record.
    pub fn offer(&mut self, consts: HashConsts, stats: HashStats)
        requires
            stats.wf(),
            old(self).stats matches Some(held) ==> held.wf() && held.comparable(stats),
        ensures
            *final(self) == old(self).step(consts, stats),
            final(self).no_worse_than(*old(self)),
            !old(self).beaten_by(stats) ==> *final(self) == *old(self),
    {
        let better = match &self.stats {
            None => true,
            Some(held) => stats.cv_less(held),
        };
        if better {
            proof {
                lemma_step_monotone(*self, consts, stats);
            }
            self.consts = consts;
            self.stats = Some(stats);
        }
    }
}

/// The running best never gets worse: after any measurement the record's
/// coefficient of variation is at most what it was before.
pub proof fn lemma_step_monotone(best: BestResult, consts: HashConsts, stats: HashStats)
    requires
        stats.wf(),
        best.stats matches Some(held) ==> held.wf() && held.comparable(stats),
    ensures
        best.step(consts, stats).no_worse_than(best),
{
    match best.stats {
        None => {},
        Some(held) => {
            lemma_cv_lt_by_spread(stats, held);
            lemma_cv_lt_by_spread(held, stats);
            lemma_cv_lt_by_spread(held, held);
        },
    }
}

/// A tie leaves the record as it is: a measurement whose coefficient of
/// variation equals that of the record does not replace it.
pub proof fn lemma_step_keeps_tie(best: BestResult, consts: HashConsts, stats: HashStats)
    requires
        best.stats matches Some(held) && stats.cv_squared().same(held.cv_squared()),
    ensures
        best.step(consts, stats) == best,
{
}

/// Whether `evals` holds, for every tuple within the limits, statistics
/// that `f` returned for it.
pub open spec fn is_evaluation<F: Fn(u32, u32, u32, u32, u32) -> HashStats>(
    f: F,
    max: HashConsts,
    evals: Map<HashConsts, HashStats>,
) -> bool {
    forall|t: HashConsts|
        #![trigger evals.contains_key(t)]
        #![trigger evals[t]]
        t.within(max) ==> evals.contains_key(t) && call_ensures(
            f,
            (t.a, t.b, t.c, t.d, t.e),
            evals[t],
        )
}

/// Whether `best` with its statistics `stats` is the first tuple within the
/// limits whose coefficient of variation is least: no tuple has a smaller
/// one, and every tuple before `best` has a strictly larger one.
pub open spec fn is_first_minimum(
    evals: Map<HashConsts, HashStats>,
    max: HashConsts,
    best: HashConsts,
    stats: HashStats,
) -> bool {
    &&& best.within(max)
    &&& evals[best] == stats
    &&& forall|t: HashConsts| #![trigger evals[t]] t.within(max) ==> !evals[t].cv_lt(stats)
    &&& forall|t: HashConsts|
        #![trigger evals[t]]
        t.within(max) && t.before(best) ==> stats.cv_lt(evals[t])
}

/// Whether `f` may be called on every tuple within the limits.
pub open spec fn callable<F: Fn(u32, u32, u32, u32, u32) -> HashStats>(f: F, max: HashConsts) -> bool {
    forall|a: u32, b: u32, c: u32, d: u32, e: u32|
        limits(a, b, c, d, e).within(max) ==> call_requires(f, (a, b, c, d, e))
}

/// Whether all that `f` returns within the limits is well formed and may be
/// compared with each other.
pub open spec fn uniform<F: Fn(u32, u32, u32, u32, u32) -> HashStats>(f: F, max: HashConsts) -> bool {
    forall|t: HashConsts, u: HashConsts, s: HashStats, r: HashStats|
        t.within(max) && u.within(max) && #[trigger] call_ensures(f, (t.a, t.b, t.c, t.d, t.e), s)
            && #[trigger] call_ensures(f, (u.a, u.b, u.c, u.d, u.e), r) ==> s.wf() && s.comparable(
            r,
        )
}

/// Among tuples of equal coefficient of variation the search keeps the one
/// that it met first: no tuple that ties with the result comes before it.
pub proof fn lemma_first_of_ties(
    evals: Map<HashConsts, HashStats>,
    max: HashConsts,
    best: HashConsts,
    stats: HashStats,
    t: HashConsts,
)
    requires
        is_first_minimum(evals, max, best, stats),
        t.within(max),
        evals[t].cv_squared().same(stats.cv_squared()),
    ensures
        !t.before(best),
{
}

/// What holds of a tuple `t` once the search has measured it: its
/// statistics are on record, and the best record beats it or ties with it,
/// and beats it where `t` came first.
spec fn measured<F: Fn(u32, u32, u32, u32, u32) -> HashStats>(
    f: F,
    evals: Map<HashConsts, HashStats>,
    best: BestResult,
    t: HashConsts,
) -> bool {
    &&& evals.contains_key(t)
    &&& call_ensures(f, (t.a, t.b, t.c, t.d, t.e), evals[t])
    &&& evals[t].wf()
    &&& best.stats matches Some(held) ==> {
        &&& evals[t].comparable(held)
        &&& !evals[t].cv_lt(held)
        &&& t.before(best.consts) ==> held.cv_lt(evals[t])
    }
}

/// What holds of a search that stands at the position `(a, b, c, d, e)`:
/// every tuple before it has been measured, and the record holds one of
/// them, unless the search stands at its start.
spec fn search_inv<F: Fn(u32, u32, u32, u32, u32) -> HashStats>(
    f: F,
    max: HashConsts,
    evals: Map<HashConsts, HashStats>,
    best: BestResult,
    a: int,
    b: int,
    c: int,
    d: int,
    e: int,
) -> bool {
    &&& forall|t: HashConsts|
        t.within(max) && lex_before(t, a, b, c, d, e) ==> #[trigger] measured(f, evals, best, t)
    &&& match best.stats {
        None => a == 0 && b == 0 && c == 0 && d == 0 && e == 0,
        Some(held) => {
            &&& best.consts.within(max)
            &&& lex_before(best.consts, a, b, c, d, e)
            &&& evals[best.consts] == held
        },
    }
}

/// A position may take the place of another where the same tuples within
/// the limits come before both.
proof fn lemma_search_carry<F: Fn(u32, u32, u32, u32, u32) -> HashStats>(
    f: F,
    max: HashConsts,
    evals: Map<HashConsts, HashStats>,
    best: BestResult,
    here: (int, int, int, int, int),
    there: (int, int, int, int, int),
)
    requires
        search_inv(f, max, evals, best, here.0, here.1, here.2, here.3, here.4),
        best.stats is Some,
        forall|t: HashConsts|
            t.within(max) ==> (#[trigger] lex_before(t, there.0, there.1, there.2, there.3, there.4)
                == lex_before(t, here.0, here.1, here.2, here.3, here.4)),
    ensures
        search_inv(f, max, evals, best, there.0, there.1, there.2, there.3, there.4),
{
    assert(lex_before(best.consts, there.0, there.1, there.2, there.3, there.4));
    assert forall|t: HashConsts|
        t.within(max) && lex_before(
            t,
            there.0,
            there.1,
            there.2,
            there.3,
            there.4,
        ) implies #[trigger] measured(f, evals, best, t) by {
        assert(lex_before(t, here.0, here.1, here.2, here.3, here.4));
    }
}

/// One measurement moves the search one position on.
proof fn lemma_search_step<F: Fn(u32, u32, u32, u32, u32) -> HashStats>(
    f: F,
    max: HashConsts,
    evals: Map<HashConsts, HashStats>,
    best: BestResult,
    at: HashConsts,
    stats: HashStats,
)
    requires
        search_inv(f, max, evals, best, at.a as int, at.b as int, at.c as int, at.d as int, at.e as int),
        at.within(max),
        call_ensures(f, (at.a, at.b, at.c, at.d, at.e), stats),
        uniform(f, max),
    ensures
        stats.wf(),
        best.stats matches Some(held) ==> held.wf() && held.comparable(stats),
        search_inv(
            f,
            max,
            evals.insert(at, stats),
            best.step(at, stats),
            at.a as int,
            at.b as int,
            at.c as int,
            at.d as int,
            at.e + 1,
        ),
{
    let next = best.step(at, stats);
    let evals2 = evals.insert(at, stats);
    lemma_cv_lt_by_spread(stats, stats);
    match best.stats {
        None => {},
        Some(held) => {
            assert(measured(f, evals, best, best.consts));
            lemma_cv_lt_by_spread(stats, held);
            lemma_cv_lt_by_spread(held, stats);
        },
    }
    assert forall|t: HashConsts|
        t.within(max) && lex_before(
            t,
            at.a as int,
            at.b as int,
            at.c as int,
            at.d as int,
            at.e + 1,
        ) implies #[trigger] measured(f, evals2, next, t) by {
        if t != at {
            assert(measured(f, evals, best, t));
            lemma_cv_lt_by_spread(evals[t], stats);
            lemma_cv_lt_by_spread(stats, evals[t]);
            match best.stats {
                None => {},
                Some(held) => {
                    lemma_cv_lt_by_spread(evals[t], held);
                    lemma_cv_lt_by_spread(held, evals[t]);
                },
            }
        }
    }
}

/// Measures every tuple `(a, b, c, d, e)` with `a <= a_max`, ...,
/// `e <= e_max` by one call of `f`, in the order in which `e` moves fastest,
/// and returns the first tuple whose coefficient of variation is least,
/// with its statistics.
pub fn permute5<F: Fn(u32, u32, u32, u32, u32) -> HashStats>(
    a_max: u32,
    b_max: u32,
    c_max: u32,
    d_max: u32,
    e_max: u32,
    f: F,
) -> (found: (HashConsts, HashStats))
    requires
        callable(f, limits(a_max, b_max, c_max, d_max, e_max)),
        uniform(f, limits(a_max, b_max, c_max, d_max, e_max)),
    ensures
        exists|evals: Map<HashConsts, HashStats>|
            is_evaluation(f, limits(a_max, b_max, c_max, d_max, e_max), evals) && is_first_minimum(
                evals,
                limits(a_max, b_max, c_max, d_max, e_max),
                found.0,
                found.1,
            ),
{
    let ghost max = limits(a_max, b_max, c_max, d_max, e_max);
    let ghost mut evals: Map<HashConsts, HashStats> = Map::empty();
    let mut best = BestResult::new();
    let mut a: u64 = 0;
    while a <= a_max as u64
        invariant
            max == limits(a_max, b_max, c_max, d_max, e_max),
            0 <= a <= a_max + 1,
            search_inv(f, max, evals, best, a as int, 0, 0, 0, 0),
            uniform(f, max),
            callable(f, max),
        decreases a_max + 1 - a,
    {
        let mut b: u64 = 0;
        while b <= b_max as u64
            invariant
                max == limits(a_max, b_max, c_max, d_max, e_max),
                0 <= a <= a_max,
                0 <= b <= b_max + 1,
                search_inv(f, max, evals, best, a as int, b as int, 0, 0, 0),
                uniform(f, max),
                callable(f, max),
            decreases b_max + 1 - b,
        {
            let mut c: u64 = 0;
            while c <= c_max as u64
                invariant
                    max == limits(a_max, b_max, c_max, d_max, e_max),
                    0 <= a <= a_max,
                    0 <= b <= b_max,
                    0 <= c <= c_max + 1,
                    search_inv(f, max, evals, best, a as int, b as int, c as int, 0, 0),
                    uniform(f, max),
                    callable(f, max),
                decreases c_max + 1 - c,
            {
                let mut d: u64 = 0;
                while d <= d_max as u64
                    invariant
                        max == limits(a_max, b_max, c_max, d_max, e_max),
                        0 <= a <= a_max,
                        0 <= b <= b_max,
                        0 <= c <= c_max,
                        0 <= d <= d_max + 1,
                        search_inv(f, max, evals, best, a as int, b as int, c as int, d as int, 0),
                        uniform(f, max),
                        callable(f, max),
                    decreases d_max + 1 - d,
                {
                    let mut e: u64 = 0;
                    while e <= e_max as u64
                        invariant
                            max == limits(a_max, b_max, c_max, d_max, e_max),
                            0 <= a <= a_max,
                            0 <= b <= b_max,
                            0 <= c <= c_max,
                            0 <= d <= d_max,
                            0 <= e <= e_max + 1,
                            search_inv(
                                f,
                                max,
                                evals,
                                best,
                                a as int,
                                b as int,
                                c as int,
                                d as int,
                                e as int,
                            ),
                            uniform(f, max),
                            callable(f, max),
                        decreases e_max + 1 - e,
                    {
                        let consts = HashConsts {
                            a: a as u32,
                            b: b as u32,
                            c: c as u32,
                            d: d as u32,
                            e: e as u32,
                        };
                        assert(consts == limits(consts.a, consts.b, consts.c, consts.d, consts.e));
                        let stats = f(consts.a, consts.b, consts.c, consts.d, consts.e);
                        proof {
                            lemma_search_step(f, max, evals, best, consts, stats);
                            evals = evals.insert(consts, stats);
                        }
                        best.offer(consts, stats);
                        e = e + 1;
                    }
                    proof {
                        lemma_search_carry(
                            f,
                            max,
                            evals,
                            best,
                            (a as int, b as int, c as int, d as int, e as int),
                            (a as int, b as int, c as int, d + 1, 0),
                        );
                    }
                    d = d + 1;
                }
                proof {
                    lemma_search_carry(
                        f,
                        max,
                        evals,
                        best,
                        (a as int, b as int, c as int, d as int, 0),
                        (a as int, b as int, c + 1, 0, 0),
                    );
                }
                c = c + 1;
            }
            proof {
                lemma_search_carry(
                    f,
                    max,
                    evals,
                    best,
                    (a as int, b as int, c as int, 0, 0),
                    (a as int, b + 1, 0, 0, 0),
                );
            }
            b = b + 1;
        }
        proof {
            lemma_search_carry(
                f,
                max,
                evals,
                best,
                (a as int, b as int, 0, 0, 0),
                (a + 1, 0, 0, 0, 0),
            );
        }
        a = a + 1;
    }
    let stats = best.stats.unwrap();
    proof {
        assert forall|t: HashConsts| t.within(max) implies measured(f, evals, best, t) by {
            assert(lex_before(t, a as int, 0, 0, 0, 0));
        }
        assert(is_evaluation(f, max, evals));
        assert(is_first_minimum(evals, max, best.consts, stats));
    }
    (best.consts, stats)
}

} // verus!
