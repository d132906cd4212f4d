//! The built-in fuzzy scorer: a pure subsequence match with a gap penalty,
//! used to rank candidates when no external finder runs.
//!
//! Scores are fixed-point numbers: `SCORE_ONE` stands for 1.0, and every
//! score lies in `[0, SCORE_ONE]`.

use vstd::prelude::*;

use crate::text::{chars_of, fold_case, lower_of};

verus! {

/// The fixed-point representation of the score 1.0.
pub const SCORE_ONE: u64 = 1000000;

/// The longest case-folded query the scorer accepts; beyond it the
/// fixed-point arithmetic could overflow.
pub const MAX_QUERY_LEN: usize = 16777216;

/// The greedy walk over the candidate: starting from `m` query characters
/// matched and `g` candidate characters skipped since the first match, the
/// final pair `(matched, skipped)` after reading all of `c`.
pub open spec fn walk(c: Seq<char>, q: Seq<char>, m: nat, g: nat) -> (nat, nat)
    decreases c.len(),
{
    if c.len() == 0 {
        (m, g)
    } else if m < q.len() && c[0] == q[m as int] {
        walk(c.skip(1), q, m + 1, g)
    } else if m > 0 {
        walk(c.skip(1), q, m, g + 1)
    } else {
        walk(c.skip(1), q, m, g)
    }
}

/// The score computed from the walk statistics: with `m` of `qlen` query
/// characters matched and `g` candidate characters skipped, the fixed-point
/// value of `(m/qlen)^3 * max(1 - (g/(m-1))/10, 0)`, rounded down. The gap
/// penalty applies only when more than one query character matched; matching
/// every query character in a row scores `SCORE_ONE`, matching nothing
/// scores 0.
pub open spec fn score_from_stats(qlen: nat, m: nat, g: nat) -> int {
    if m == 0 {
        0
    } else {
        let d: int = if m > 1 {
            m - 1
        } else {
            1
        };
        let t: int = if m == 1 {
            10 * d
        } else if 10 * d >= g {
            10 * d - g
        } else {
            0
        };
        (SCORE_ONE as int) * m * m * m * t / ((qlen * qlen * qlen) as int * 10 * d)
    }
}

/// The score of a case-folded candidate against a case-folded query.
/// An empty query scores 1.0 on every candidate.
pub open spec fn score_of(c: Seq<char>, q: Seq<char>) -> int {
    if q.len() == 0 {
        SCORE_ONE as int
    } else {
        let s = walk(c, q, 0, 0);
        score_from_stats(q.len(), s.0, s.1)
    }
}

/// The walk never matches more query characters than exist, and skips at
/// most one candidate character per candidate character.
proof fn lemma_walk_bounds(c: Seq<char>, q: Seq<char>, m: nat, g: nat)
    requires
        m <= q.len(),
    ensures
        walk(c, q, m, g).0 <= q.len(),
        walk(c, q, m, g).1 <= g + c.len(),
        walk(c, q, m, g).0 >= m,
    decreases c.len(),
{
    if c.len() > 0 {
        if m < q.len() && c[0] == q[m as int] {
            lemma_walk_bounds(c.skip(1), q, m + 1, g);
        } else if m > 0 {
            lemma_walk_bounds(c.skip(1), q, m, g + 1);
        } else {
            lemma_walk_bounds(c.skip(1), q, m, g);
        }
    }
}

/// If no candidate character equals the first query character, the walk
/// never matches anything.
proof fn lemma_walk_no_first(c: Seq<char>, q: Seq<char>)
    requires
        q.len() > 0,
        forall|i: int| 0 <= i < c.len() ==> c[i] != q[0],
    ensures
        walk(c, q, 0, 0).0 == 0,
    decreases c.len(),
{
    if c.len() > 0 {
        assert(c[0] != q[0]);
        assert forall|i: int| 0 <= i < c.skip(1).len() implies c.skip(1)[i] != q[0] by {
            assert(c.skip(1)[i] == c[i + 1]);
        }
        lemma_walk_no_first(c.skip(1), q);
    }
}

/// A candidate that nowhere contains the first character of a non-empty
/// query scores zero. (The full claim "every non-subsequence query scores
/// zero" does not hold of this scorer: partial matches earn partial credit.)
pub proof fn lemma_score_zero_without_first_char(c: Seq<char>, q: Seq<char>)
    requires
        q.len() > 0,
        forall|i: int| 0 <= i < c.len() ==> c[i] != q[0],
    ensures
        score_of(c, q) == 0,
{
    lemma_walk_no_first(c, q);
}

/// The score never exceeds 1.0: `m <= qlen` and the penalty factor is at
/// most one, so the quotient is at most `SCORE_ONE`.
pub proof fn lemma_score_le_one(c: Seq<char>, q: Seq<char>)
    ensures
        0 <= score_of(c, q) <= SCORE_ONE as int,
{
    if q.len() > 0 {
        lemma_walk_bounds(c, q, 0, 0);
        let s = walk(c, q, 0, 0);
        let m = s.0;
        let g = s.1;
        if m > 0 {
            let qlen = q.len();
            let d: int = if m > 1 {
                m - 1
            } else {
                1
            };
            let t: int = if m == 1 {
                10 * d
            } else if 10 * d >= g {
                10 * d - g
            } else {
                0
            };
            let num: int = (SCORE_ONE as int) * m * m * m * t;
            let den: int = (qlen * qlen * qlen) as int * 10 * d;
            assert(num >= 0 && den > 0) by (nonlinear_arith)
                requires
                    1 <= m,
                    0 <= t,
                    1 <= d,
                    1 <= qlen,
                    num == (SCORE_ONE as int) * m * m * m * t,
                    den == (qlen * qlen * qlen) as int * 10 * d,
            ;
            assert(num <= den * (SCORE_ONE as int)) by (nonlinear_arith)
                requires
                    1 <= m <= qlen,
                    0 <= t <= 10 * d,
                    1 <= d,
                    num == (SCORE_ONE as int) * m * m * m * t,
                    den == (qlen * qlen * qlen) as int * 10 * d,
            ;
            assert(0 <= num / den <= SCORE_ONE as int) by (nonlinear_arith)
                requires
                    num >= 0,
                    den > 0,
                    num <= den * (SCORE_ONE as int),
            ;
        }
    }
}

/// An empty query scores 1.0 on every candidate, also the empty one.
pub proof fn lemma_empty_query_scores_one(c: Seq<char>)
    ensures
        score_of(c, Seq::empty()) == SCORE_ONE as int,
{
}

/// The scorer itself; it has no state.
pub struct FuzzyScorer;

impl FuzzyScorer {
    /// The score of an already case-folded candidate against an already
    /// case-folded query, both as character vectors.
    pub fn score_folded(cand: &Vec<char>, query: &Vec<char>) -> (r: u64)
        requires
            query@.len() <= MAX_QUERY_LEN,
        ensures
            r as int == score_of(cand@, query@),
            r <= SCORE_ONE,
    {
        proof {
            lemma_score_le_one(cand@, query@);
        }
        let qlen: usize = query.len();
        if qlen == 0 {
            return SCORE_ONE;
        }
        let n: usize = cand.len();
        let mut m: usize = 0;
        let mut g: usize = 0;
        let mut i: usize = 0;
        proof {
            assert(cand@.skip(0) =~= cand@);
        }
        while i < n
            invariant
                i <= n,
                n == cand@.len(),
                qlen == query@.len(),
                m <= qlen,
                g <= i,
                walk(cand@, query@, 0, 0) == walk(cand@.skip(i as int), query@, m as nat, g as nat),
            decreases n - i,
        {
            proof {
                assert(cand@.skip(i as int)[0] == cand@[i as int]);
                assert(cand@.skip(i as int).skip(1) =~= cand@.skip(i as int + 1));
            }
            if m < qlen && cand[i] == query[m] {
                m = m + 1;
            } else if m > 0 {
                g = g + 1;
            }
            i = i + 1;
        }
        proof {
            assert(cand@.skip(n as int) =~= Seq::<char>::empty());
        }
        if m == 0 {
            return 0;
        }
        let d: u64 = if m > 1 {
            (m - 1) as u64
        } else {
            1
        };
        let td: u128 = 10 * (d as u128);
        let t: u128 = if m == 1 {
            td
        } else if td >= g as u128 {
            td - g as u128
        } else {
            0
        };
        let mw: u128 = m as u128;
        let qw: u128 = qlen as u128;
        proof {
            assert(t <= 167772160);
            assert(mw * mw <= 0x1000000000000 && mw * mw * mw <= 0x1000000000000000000 && mw * mw
                * mw * t <= 0xa000000000000000000000000 && mw * mw * mw * t * (SCORE_ONE as u128)
                < u128::MAX) by (nonlinear_arith)
                requires
                    1 <= mw <= 16777216,
                    0 <= t <= 167772160,
            ;
        }
        let num: u128 = mw * mw * mw * t * (SCORE_ONE as u128);
        proof {
            assert(qw * qw <= 0x1000000000000 && qw * qw * qw <= 0x1000000000000000000 && qw * qw
                * qw * 10 <= 0xa000000000000000000 && qw * qw * qw * 10 * (d as u128)
                < u128::MAX) by (nonlinear_arith)
                requires
                    1 <= qw <= 16777216,
                    1 <= d as u128 <= qw,
            ;
        }
        let den: u128 = qw * qw * qw * 10 * (d as u128);
        proof {
            assert(den >= 10) by (nonlinear_arith)
                requires
                    den == qw * qw * qw * 10 * (d as u128),
                    1 <= qw,
                    1 <= d as u128,
            ;
        }
        let r: u128 = num / den;
        proof {
            let mi: int = m as int;
            let qi: int = qlen as int;
            let di: int = d as int;
            let ti: int = t as int;
            assert(num as int == (SCORE_ONE as int) * mi * mi * mi * ti) by (nonlinear_arith)
                requires
                    num as int == mi * mi * mi * ti * (SCORE_ONE as int),
            ;
            assert(den as int == (qi * qi * qi) * 10 * di) by (nonlinear_arith)
                requires
                    den as int == qi * qi * qi * 10 * di,
            ;
            assert(r as int == score_from_stats(qlen as nat, m as nat, g as nat));
        }
        r as u64
    }
}
/// The order in which ranked entries are laid out: higher scores first, and
/// among equal scores the lower (earlier) candidate index first.
pub open spec fn rank_le(a: (usize, u64), b: (usize, u64)) -> bool {
    a.1 > b.1 || (a.1 == b.1 && a.0 <= b.0)
}

/// Executable check for `rank_le`.
fn rank_before(a: (usize, u64), b: (usize, u64)) -> (r: bool)
    ensures
        r == rank_le(a, b),
{
    a.1 > b.1 || (a.1 == b.1 && a.0 <= b.0)
}

impl FuzzyScorer {
    /// The score of `candidate` against `query`, both case-folded first.
    /// `None` only when the folded query exceeds `MAX_QUERY_LEN`.
    pub fn score(candidate: &str, query: &str) -> (r: Option<u64>)
        ensures
            r matches Some(s) ==> s as int == score_of(lower_of(candidate@), lower_of(query@)),
            r is Some <==> lower_of(query@).len() <= MAX_QUERY_LEN,
    {
        let q = chars_of(fold_case(query).as_str());
        if q.len() > MAX_QUERY_LEN {
            return None;
        }
        let c = chars_of(fold_case(candidate).as_str());
        Some(Self::score_folded(&c, &q))
    }

    /// Every candidate scored against `query`, highest score first; equal
    /// scores keep the candidates' input order. Each entry pairs a candidate
    /// index with its score. `None` only when the folded query exceeds
    /// `MAX_QUERY_LEN`.
    pub fn rank(items: &Vec<String>, query: &str) -> (r: Option<Vec<(usize, u64)>>)
        ensures
            r is Some <==> lower_of(query@).len() <= MAX_QUERY_LEN,
            r matches Some(rr) ==> {
                &&& rr@.len() == items@.len()
                &&& forall|k: int|
                    0 <= k < rr@.len() ==> (#[trigger] rr@[k]).0 < items@.len() && rr@[k].1 as int
                        == score_of(lower_of(items@[rr@[k].0 as int]@), lower_of(query@))
                &&& forall|k: int, l: int|
                    0 <= k < l < rr@.len() ==> (#[trigger] rr@[k]).0 != (#[trigger] rr@[l]).0
                &&& forall|k: int, l: int|
                    0 <= k < l < rr@.len() ==> (#[trigger] rr@[k]).1 > (#[trigger] rr@[l]).1 || (
                    rr@[k].1 == rr@[l].1 && rr@[k].0 < rr@[l].0)
            },
    {
        let q = chars_of(fold_case(query).as_str());
        if q.len() > MAX_QUERY_LEN {
            return None;
        }
        let n: usize = items.len();
        let mut scored: Vec<(usize, u64)> = Vec::new();
        let mut i: usize = 0;
        while i < n
            invariant
                i <= n,
                n == items@.len(),
                q@ == lower_of(query@),
                q@.len() <= MAX_QUERY_LEN,
                scored@.len() == i,
                forall|k: int|
                    0 <= k < i ==> (#[trigger] scored@[k]).0 == k && scored@[k].1 as int
                        == score_of(lower_of(items@[k]@), lower_of(query@)),
            decreases n - i,
        {
            let c = chars_of(fold_case(items[i].as_str()).as_str());
            let s = Self::score_folded(&c, &q);
            scored.push((i, s));
            i = i + 1;
        }
        Some(Self::sort_ranked(scored))
    }

    /// Insertion sort by `rank_le`. Keeps every entry (the index payloads
    /// stay pairwise distinct and every element property is preserved), and
    /// leaves the entries sorted.
    fn sort_ranked(v: Vec<(usize, u64)>) -> (r: Vec<(usize, u64)>)
        requires
            forall|k: int, l: int|
                0 <= k < l < v@.len() ==> (#[trigger] v@[k]).0 != (#[trigger] v@[l]).0,
            forall|k: int| 0 <= k < v@.len() ==> (#[trigger] v@[k]).0 == k,
        ensures
            r@.len() == v@.len(),
            forall|k: int|
                0 <= k < r@.len() ==> (#[trigger] r@[k]).0 < v@.len() && v@[r@[k].0 as int]
                    == r@[k],
            forall|k: int, l: int|
                0 <= k < l < r@.len() ==> (#[trigger] r@[k]).0 != (#[trigger] r@[l]).0,
            forall|k: int, l: int|
                0 <= k < l < r@.len() ==> rank_le(#[trigger] r@[k], #[trigger] r@[l]),
    {
        let ghost orig = v@;
        let mut r = v;
        let n: usize = r.len();
        let mut i: usize = 1;
        if n == 0 {
            return r;
        }
        while i < n
            invariant
                1 <= i <= n,
                n == r@.len(),
                forall|k: int|
                    0 <= k < n ==> (#[trigger] r@[k]).0 < orig.len() && orig[r@[k].0 as int]
                        == r@[k],
                forall|k: int, l: int|
                    0 <= k < l < n ==> (#[trigger] r@[k]).0 != (#[trigger] r@[l]).0,
                forall|k: int, l: int|
                    0 <= k < l < i ==> rank_le(#[trigger] r@[k], #[trigger] r@[l]),
                orig.len() == n,
            decreases n - i,
        {
            let mut j: usize = i;
            while j > 0 && !rank_before(r[j - 1], r[j])
                invariant
                    0 <= j <= i < n,
                    n == r@.len(),
                    orig.len() == n,
                    forall|k: int|
                        0 <= k < n ==> (#[trigger] r@[k]).0 < orig.len() && orig[r@[k].0 as int]
                            == r@[k],
                    forall|k: int, l: int|
                        0 <= k < l < n ==> (#[trigger] r@[k]).0 != (#[trigger] r@[l]).0,
                    forall|k: int, l: int|
                        0 <= k < l <= i && k != j && l != j ==> rank_le(
                            #[trigger] r@[k],
                            #[trigger] r@[l],
                        ),
                    forall|l: int| j < l <= i ==> rank_le(r@[j as int], #[trigger] r@[l]),
                decreases j,
            {
                let a = r[j - 1];
                let b = r[j];
                r.set(j - 1, b);
                r.set(j, a);
                j = j - 1;
            }
            i = i + 1;
        }
        r
    }
}

/// Every candidate scored and ranked against the query: the pairs
/// `(candidate index, score)` sorted by descending score, input order kept
/// among equal scores. `None` only when the folded query exceeds
/// `MAX_QUERY_LEN`.
pub fn fuzzy_search(items: &Vec<String>, query: &str) -> (r: Option<Vec<(usize, u64)>>)
    ensures
        r is Some <==> lower_of(query@).len() <= MAX_QUERY_LEN,
        r matches Some(rr) ==> {
            &&& rr@.len() == items@.len()
            &&& forall|k: int|
                0 <= k < rr@.len() ==> (#[trigger] rr@[k]).0 < items@.len() && rr@[k].1 as int
                    == score_of(lower_of(items@[rr@[k].0 as int]@), lower_of(query@))
            &&& forall|k: int, l: int|
                0 <= k < l < rr@.len() ==> (#[trigger] rr@[k]).0 != (#[trigger] rr@[l]).0
            &&& forall|k: int, l: int|
                0 <= k < l < rr@.len() ==> (#[trigger] rr@[k]).1 > (#[trigger] rr@[l]).1 || (
                rr@[k].1 == rr@[l].1 && rr@[k].0 < rr@[l].0)
        },
{
    FuzzyScorer::rank(items, query)
}

} // verus!
