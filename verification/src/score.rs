//! Fixed-point selection scores for the search.
//!
//! The UCT (Upper Confidence bound for Trees) score of a visited node is
//! `mean + C * sqrt(ln(parent_visits) / visits)` with `C = sqrt(2)`.  All
//! quantities here are kept in milli-units (a scale of 1000) over the
//! integers: the mean is `value_sum * 1000 / visits`, the natural logarithm
//! is approximated by `floor(log2(n)) * 693` (milli-units of `ln 2`), and the
//! square root is the integer square root.  An unvisited node scores
//! [`Score::Infinite`], which beats every finite score.
//!
//! The log2-based approximation is coarser than a floating-point
//! `ln`/`sqrt` UCT: scores agree in shape and scale but not digit for
//! digit (three parent visits put 693 rather than about 1099 milli-units
//! under the square root), so selection can order near-tied children
//! differently than a float implementation would.

use vstd::prelude::*;
use vstd::arithmetic::power2::{pow2, lemma_pow2_unfold, lemma2_to64};
use vstd::arithmetic::div_mod::{lemma_div_is_ordered, lemma_div_multiples_vanish};

verus! {

/// The fixed-point scale: values carry three decimal digits.
pub const MILLI: u64 = 1000;

/// `ln 2` in milli-units.
pub const LN2_MILLI: u64 = 693;

/// Largest visit count the score arithmetic accepts without overflow.
pub const MAX_VISITS: u64 = 0x20_0000_0000_0000;

/// `floor(log2(n))`, with `spec_log2(0) == 0`.
pub open spec fn spec_log2(n: nat) -> nat
    decreases n,
{
    if n < 2 {
        0
    } else {
        1 + spec_log2(n / 2)
    }
}

/// `floor(sqrt(n))`, by the classical bit-doubling recursion.
pub open spec fn spec_isqrt(n: nat) -> nat
    decreases n,
{
    if n < 2 {
        n
    } else {
        let s = 2 * spec_isqrt(n / 4);
        if (s + 1) * (s + 1) <= n {
            s + 1
        } else {
            s
        }
    }
}

/// `spec_isqrt(n)` really is the integer square root of `n`.
pub proof fn lemma_isqrt_bounds(n: nat)
    ensures
        spec_isqrt(n) * spec_isqrt(n) <= n,
        n < (spec_isqrt(n) + 1) * (spec_isqrt(n) + 1),
    decreases n,
{
    if n < 2 {
        assert(spec_isqrt(n) == n);
        assert(n * n <= n && n < (n + 1) * (n + 1)) by (nonlinear_arith)
            requires
                n < 2,
        ;
    } else {
        lemma_isqrt_bounds(n / 4);
        let r = spec_isqrt(n / 4);
        let s = 2 * r;
        assert(4 * (n / 4) <= n);
        assert(n < 4 * (n / 4) + 4);
        assert(s * s <= 4 * (n / 4)) by (nonlinear_arith)
            requires
                r * r <= n / 4,
                s == 2 * r,
        ;
        assert(4 * (n / 4) + 4 <= (s + 2) * (s + 2)) by (nonlinear_arith)
            requires
                n / 4 < (r + 1) * (r + 1),
                s == 2 * r,
        ;
        if (s + 1) * (s + 1) <= n {
            assert(spec_isqrt(n) == s + 1);
            assert(spec_isqrt(n) * spec_isqrt(n) <= n);
            assert(n < (spec_isqrt(n) + 1) * (spec_isqrt(n) + 1));
        } else {
            assert(spec_isqrt(n) == s);
            assert(spec_isqrt(n) * spec_isqrt(n) <= n);
            assert(n < (spec_isqrt(n) + 1) * (spec_isqrt(n) + 1));
        }
    }
}

/// The integer square root never exceeds its argument.
pub proof fn lemma_isqrt_le(n: nat)
    ensures
        spec_isqrt(n) <= n,
{
    lemma_isqrt_bounds(n);
    let r = spec_isqrt(n);
    assert(r <= r * r || r == 0) by (nonlinear_arith);
}

/// `n < 2^k` bounds `floor(log2(n))` below `k`.
pub proof fn lemma_log2_below(n: nat, k: nat)
    requires
        1 <= n,
        n < pow2(k),
    ensures
        spec_log2(n) < k,
    decreases n,
{
    lemma2_to64();
    if n < 2 {
        if k == 0 {
            assert(pow2(0) == 1);
        }
    } else {
        assert(k >= 2) by {
            if k < 2 {
                lemma2_to64();
            }
        }
        lemma_pow2_unfold(k);
        assert(n / 2 < pow2((k - 1) as nat));
        lemma_log2_below(n / 2, (k - 1) as nat);
    }
}

/// Integer square root.
pub fn isqrt(n: u64) -> (r: u64)
    ensures
        r == spec_isqrt(n as nat),
    decreases n,
{
    if n < 2 {
        n
    } else {
        let h = isqrt(n / 4);
        proof {
            lemma_isqrt_bounds((n / 4) as nat);
            assert(h < 0x8000_0000) by (nonlinear_arith)
                requires
                    h * h <= n as nat / 4,
                    n as nat / 4 < 0x4000_0000_0000_0000,
            ;
        }
        let s = 2 * h;
        let s1 = s + 1;
        proof {
            assert((s1 as int) * (s1 as int) <= 0x1_0000_0000_0000_0000) by (nonlinear_arith)
                requires
                    s1 as int <= 0x1_0000_0000,
            ;
        }
        if (s1 as u128) * (s1 as u128) <= n as u128 {
            s1
        } else {
            s
        }
    }
}

/// `floor(log2(n))` for `n >= 1`; the result fits in six bits.
pub fn log2_floor(n: u64) -> (r: u64)
    requires
        n >= 1,
    ensures
        r == spec_log2(n as nat),
        r <= 63,
    decreases n,
{
    proof {
        lemma2_to64();
        assert(pow2(64) == 0x1_0000_0000_0000_0000) by {
            lemma_pow2_unfold(64);
        }
        lemma_log2_below(n as nat, 64);
    }
    if n < 2 {
        0
    } else {
        let k = log2_floor(n / 2);
        k + 1
    }
}

/// A selection score: unvisited nodes rank above every finite score.
#[derive(Clone, Copy, PartialEq, Eq, Structural, Debug)]
pub enum Score {
    Infinite,
    Finite(i64),
}

/// When `a` ranks strictly above `b`.  Two infinite scores do not outrank
/// each other, so a scan that replaces only on a strict win keeps the first.
pub open spec fn spec_score_gt(a: Score, b: Score) -> bool {
    match (a, b) {
        (Score::Infinite, Score::Infinite) => false,
        (Score::Infinite, Score::Finite(_)) => true,
        (Score::Finite(_), Score::Infinite) => false,
        (Score::Finite(x), Score::Finite(y)) => x > y,
    }
}

/// Strict comparison of two scores.
pub fn score_gt(a: Score, b: Score) -> (r: bool)
    ensures
        r == spec_score_gt(a, b),
{
    match (a, b) {
        (Score::Infinite, Score::Infinite) => false,
        (Score::Infinite, Score::Finite(_)) => true,
        (Score::Finite(_), Score::Infinite) => false,
        (Score::Finite(x), Score::Finite(y)) => x > y,
    }
}

/// The mean value in milli-units, `value_sum * 1000 / visits`, rounded
/// toward zero.
pub open spec fn spec_mean_milli(value_sum: int, visits: nat) -> int
    recommends
        visits >= 1,
{
    if value_sum >= 0 {
        (value_sum * MILLI) / (visits as int)
    } else {
        -(((-value_sum) * MILLI) / (visits as int))
    }
}

/// The exploration term in milli-units:
/// `1000 * sqrt(2 * ln(parent) / visits)`, with `parent` floored at 1 and
/// `ln` approximated through `floor(log2)`.
pub open spec fn spec_explore_milli(visits: nat, parent_visits: nat) -> nat
    recommends
        visits >= 1,
{
    let p: nat = if parent_visits < 1 {
        1
    } else {
        parent_visits
    };
    let num: nat = 2 * (MILLI as nat) * ((LN2_MILLI as nat) * spec_log2(p));
    spec_isqrt(num / visits)
}

/// The full UCT score of a visited node, in milli-units.
pub open spec fn spec_uct_milli(value_sum: int, visits: nat, parent_visits: nat) -> int {
    spec_mean_milli(value_sum, visits) + spec_explore_milli(visits, parent_visits)
}

/// Computes the UCT score of a visited node.
pub fn uct_milli(value_sum: i64, visits: u64, parent_visits: u64) -> (r: i64)
    requires
        1 <= visits <= MAX_VISITS,
        -(visits as int) <= value_sum as int <= visits as int,
    ensures
        r as int == spec_uct_milli(value_sum as int, visits as nat, parent_visits as nat),
{
    let mean: i64 = if value_sum >= 0 {
        let q = (value_sum as u64 * MILLI) / visits;
        proof {
            lemma_div_is_ordered(value_sum * MILLI, visits * MILLI, visits as int);
            lemma_div_multiples_vanish(MILLI as int, visits as int);
        }
        q as i64
    } else {
        let q = ((-value_sum) as u64 * MILLI) / visits;
        proof {
            lemma_div_is_ordered((-value_sum) * MILLI, visits * MILLI, visits as int);
            lemma_div_multiples_vanish(MILLI as int, visits as int);
        }
        -(q as i64)
    };
    let p: u64 = if parent_visits < 1 {
        1
    } else {
        parent_visits
    };
    let lg = log2_floor(p);
    let arg = (2 * MILLI * (LN2_MILLI * lg)) / visits;
    let explore = isqrt(arg);
    proof {
        lemma_isqrt_le(arg as nat);
    }
    mean + (explore as i64)
}

} // verus!
