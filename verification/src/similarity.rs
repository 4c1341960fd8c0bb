//! Exact cosine-similarity scoring over fixed-point embeddings.
//!
//! An embedding coordinate is a fixed-point integer (the caller scales the
//! backend's unit-range reals); bounds on coordinate magnitude and on the
//! dimension keep every computation inside machine integers. The cosine of
//! two vectors is `sign * sqrt(num_sq / den_sq)`; a [`Score`] carries that
//! value exactly, so ranking never rounds and never divides by zero.

use vstd::prelude::*;

verus! {

/// Largest magnitude a fixed-point embedding coordinate may have.
pub const COORD_LIMIT: i64 = 1024;

/// Largest dimension an embedding may have.
pub const DIM_LIMIT: usize = 1024;

/// Dot product of the first `n` coordinates of `a` and `b`.
pub open spec fn dot_prefix(a: Seq<i64>, b: Seq<i64>, n: int) -> int
    decreases n,
{
    if n <= 0 {
        0
    } else {
        dot_prefix(a, b, n - 1) + a[n - 1] * b[n - 1]
    }
}

/// Dot product of two vectors, read over the length of the first.
pub open spec fn dot(a: Seq<i64>, b: Seq<i64>) -> int {
    dot_prefix(a, b, a.len() as int)
}

/// Sum of squared coordinates: the squared Euclidean norm.
pub open spec fn norm_sq(a: Seq<i64>) -> int {
    dot(a, a)
}

/// Every coordinate within the fixed-point range.
pub open spec fn coords_bounded(a: Seq<i64>) -> bool {
    forall|i: int| 0 <= i < a.len() ==> -COORD_LIMIT <= #[trigger] a[i] <= COORD_LIMIT
}

/// A vector the scorer accepts: bounded coordinates, bounded dimension.
pub open spec fn bounded(a: Seq<i64>) -> bool {
    a.len() <= DIM_LIMIT && coords_bounded(a)
}

/// An exact cosine-similarity value.
///
/// The cosine of two vectors is `sign * sqrt(num_sq / den_sq)`: `num_sq` is
/// the squared dot product, `den_sq` the product of the two squared norms,
/// and `neg` records a negative dot product. Degenerate pairs (length
/// mismatch, empty vector, zero norm) score exactly zero.
#[derive(Clone, Copy, PartialEq, Eq, Structural, Debug)]
pub struct Score {
    pub neg: bool,
    pub num_sq: u64,
    pub den_sq: u64,
}

/// The score of exactly zero.
pub open spec fn zero_score() -> Score {
    Score { neg: false, num_sq: 0, den_sq: 1 }
}

/// The score of exactly one, the largest a cosine can take.
pub open spec fn unit_score() -> Score {
    Score { neg: false, num_sq: 1, den_sq: 1 }
}

/// A representable score: positive denominator, and a negative sign only on
/// a non-zero magnitude, so zero has one representation.
pub open spec fn score_wf(s: Score) -> bool {
    &&& s.den_sq >= 1
    &&& (s.neg ==> s.num_sq >= 1)
}

/// `a` is a strictly smaller similarity value than `b`.
pub open spec fn score_lt(a: Score, b: Score) -> bool {
    if a.neg && !b.neg {
        true
    } else if !a.neg && b.neg {
        false
    } else if !a.neg && !b.neg {
        a.num_sq * b.den_sq < b.num_sq * a.den_sq
    } else {
        a.num_sq * b.den_sq > b.num_sq * a.den_sq
    }
}

/// `a` and `b` are the same similarity value.
pub open spec fn score_eqv(a: Score, b: Score) -> bool {
    a.neg == b.neg && a.num_sq * b.den_sq == b.num_sq * a.den_sq
}

/// The exact cosine similarity of `a` and `b`.
pub open spec fn spec_cosine(a: Seq<i64>, b: Seq<i64>) -> Score {
    if a.len() != b.len() || a.len() == 0 || norm_sq(a) == 0 || norm_sq(b) == 0 {
        zero_score()
    } else {
        Score {
            neg: dot(a, b) < 0,
            num_sq: (dot(a, b) * dot(a, b)) as u64,
            den_sq: (norm_sq(a) * norm_sq(b)) as u64,
        }
    }
}

proof fn lemma_mul_bounds(x: int, y: int, c: int)
    by (nonlinear_arith)
    requires
        0 <= c,
        -c <= x <= c,
        -c <= y <= c,
    ensures
        -(c * c) <= x * y <= c * c,
        x * x >= 0,
        x != 0 ==> x * x >= 1,
{
}

/// The dot product of bounded prefixes is bounded by `n * limit^2`.
proof fn lemma_dot_prefix_bound(a: Seq<i64>, b: Seq<i64>, n: int)
    requires
        coords_bounded(a),
        coords_bounded(b),
        0 <= n <= a.len(),
        n <= b.len(),
    ensures
        -(n * COORD_LIMIT * COORD_LIMIT) <= dot_prefix(a, b, n) <= n * COORD_LIMIT * COORD_LIMIT,
    decreases n,
{
    if n > 0 {
        lemma_dot_prefix_bound(a, b, n - 1);
        lemma_mul_bounds(a[n - 1] as int, b[n - 1] as int, COORD_LIMIT as int);
        assert((n - 1) * COORD_LIMIT * COORD_LIMIT + COORD_LIMIT * COORD_LIMIT == n * COORD_LIMIT
            * COORD_LIMIT) by (nonlinear_arith);
    }
}

/// A squared-norm prefix is non-negative.
proof fn lemma_norm_prefix_nonneg(a: Seq<i64>, n: int)
    requires
        0 <= n <= a.len(),
    ensures
        dot_prefix(a, a, n) >= 0,
    decreases n,
{
    if n > 0 {
        lemma_norm_prefix_nonneg(a, n - 1);
        assert(a[n - 1] * a[n - 1] >= 0) by (nonlinear_arith);
    }
}

/// The squared norm is zero exactly on the all-zero vector.
pub proof fn lemma_norm_sq_zero_iff(a: Seq<i64>)
    ensures
        norm_sq(a) == 0 <==> (forall|i: int| 0 <= i < a.len() ==> a[i] == 0),
{
    lemma_norm_prefix_zero_iff(a, a.len() as int);
}

proof fn lemma_norm_prefix_zero_iff(a: Seq<i64>, n: int)
    requires
        0 <= n <= a.len(),
    ensures
        dot_prefix(a, a, n) == 0 <==> (forall|i: int| 0 <= i < n ==> a[i] == 0),
    decreases n,
{
    if n > 0 {
        lemma_norm_prefix_zero_iff(a, n - 1);
        lemma_norm_prefix_nonneg(a, n - 1);
        assert(a[n - 1] * a[n - 1] >= 0 && (a[n - 1] * a[n - 1] == 0 <==> a[n - 1] == 0))
            by (nonlinear_arith);
    }
}

proof fn lemma_dot_prefix_comm(a: Seq<i64>, b: Seq<i64>, n: int)
    requires
        0 <= n <= a.len(),
        n <= b.len(),
    ensures
        dot_prefix(a, b, n) == dot_prefix(b, a, n),
    decreases n,
{
    if n > 0 {
        lemma_dot_prefix_comm(a, b, n - 1);
    }
}

/// Cosine similarity is symmetric: the score of `(a, b)` is the score of
/// `(b, a)`.
pub proof fn lemma_cosine_symmetric(a: Seq<i64>, b: Seq<i64>)
    ensures
        spec_cosine(a, b) == spec_cosine(b, a),
{
    if a.len() == b.len() {
        lemma_dot_prefix_comm(a, b, a.len() as int);
    }
}

/// A non-zero vector has cosine similarity exactly one with itself.
pub proof fn lemma_cosine_self(v: Seq<i64>)
    requires
        exists|i: int| 0 <= i < v.len() && v[i] != 0,
    ensures
        score_eqv(spec_cosine(v, v), unit_score()),
{
    lemma_norm_sq_zero_iff(v);
    lemma_norm_prefix_nonneg(v, v.len() as int);
    let s = norm_sq(v);
    assert(s >= 1);
    assert(spec_cosine(v, v).num_sq == (s * s) as u64);
    assert(spec_cosine(v, v).den_sq == (s * s) as u64);
}

/// Degenerate pairs score exactly zero: a length mismatch, an empty vector,
/// or a zero norm on either side.
pub proof fn lemma_cosine_degenerate(a: Seq<i64>, b: Seq<i64>)
    requires
        a.len() != b.len() || a.len() == 0 || norm_sq(a) == 0 || norm_sq(b) == 0,
    ensures
        spec_cosine(a, b) == zero_score(),
{
}

/// A score computed from bounded vectors is representable.
pub proof fn lemma_cosine_wf(a: Seq<i64>, b: Seq<i64>)
    requires
        bounded(a),
        bounded(b),
    ensures
        score_wf(spec_cosine(a, b)),
{
    if !(a.len() != b.len() || a.len() == 0 || norm_sq(a) == 0 || norm_sq(b) == 0) {
        let climit = COORD_LIMIT as int;
        lemma_dot_prefix_bound(a, b, a.len() as int);
        lemma_dot_prefix_bound(a, a, a.len() as int);
        lemma_dot_prefix_bound(b, b, b.len() as int);
        lemma_norm_prefix_nonneg(a, a.len() as int);
        lemma_norm_prefix_nonneg(b, b.len() as int);
        let d = dot(a, b);
        let na = norm_sq(a);
        let nb = norm_sq(b);
        assert(a.len() as int * climit * climit <= 1024 * climit * climit) by (nonlinear_arith)
            requires
                0 <= climit,
                a.len() as int <= 1024,
        ;
        assert(b.len() as int * climit * climit <= 1024 * climit * climit) by (nonlinear_arith)
            requires
                0 <= climit,
                b.len() as int <= 1024,
        ;
        assert(1024 * climit * climit <= 0x4000_0000);
        assert(na * nb >= 1 && na * nb <= 0x4000_0000 * 0x4000_0000) by (nonlinear_arith)
            requires
                1 <= na <= 0x4000_0000,
                1 <= nb <= 0x4000_0000,
        ;
        assert(d * d >= 0 && d * d <= 0x4000_0000 * 0x4000_0000) by (nonlinear_arith)
            requires
                -0x4000_0000 <= d <= 0x4000_0000,
        ;
        assert(d < 0 ==> d * d >= 1) by (nonlinear_arith);
    }
}

proof fn lemma_frac_lt_trans(n1: int, d1: int, n2: int, d2: int, n3: int, d3: int)
    by (nonlinear_arith)
    requires
        d1 >= 1,
        d2 >= 1,
        d3 >= 1,
        n1 * d2 <= n2 * d1,
        n2 * d3 <= n3 * d2,
        n1 * d2 < n2 * d1 || n2 * d3 < n3 * d2,
    ensures
        n1 * d3 < n3 * d1,
{
    assert((n1 * d2) * d3 <= (n2 * d1) * d3);
    assert((n2 * d3) * d1 <= (n3 * d2) * d1);
}

/// The strict order on scores is transitive, also across ties: a chain with
/// at least one strict step stays strict.
pub proof fn lemma_score_le_lt_trans(a: Score, b: Score, c: Score)
    requires
        score_wf(a),
        score_wf(b),
        score_wf(c),
        score_lt(a, b) || score_eqv(a, b),
        score_lt(b, c) || score_eqv(b, c),
        score_lt(a, b) || score_lt(b, c),
    ensures
        score_lt(a, c),
{
    let (an, ad) = (a.num_sq as int, a.den_sq as int);
    let (bn, bd) = (b.num_sq as int, b.den_sq as int);
    let (cn, cd) = (c.num_sq as int, c.den_sq as int);
    if !a.neg && !b.neg && !c.neg {
        lemma_frac_lt_trans(an, ad, bn, bd, cn, cd);
    } else if a.neg && b.neg && c.neg {
        lemma_frac_lt_trans(cn, cd, bn, bd, an, ad);
    } else if a.neg && b.neg && !c.neg {
    } else if a.neg && !b.neg {
    } else {
        // the remaining sign patterns contradict the requires
    }
}

/// Any two scores compare: strictly one way, strictly the other, or as a
/// tie, and those three cases exclude one another.
pub proof fn lemma_score_trichotomy(a: Score, b: Score)
    requires
        score_wf(a),
        score_wf(b),
    ensures
        score_lt(a, b) || score_lt(b, a) || score_eqv(a, b),
        score_lt(a, b) ==> !score_lt(b, a) && !score_eqv(a, b),
        score_lt(b, a) ==> !score_lt(a, b) && !score_eqv(a, b),
        score_eqv(a, b) ==> score_eqv(b, a),
{
}

proof fn lemma_u64_mul_fits(x: int, y: int)
    by (nonlinear_arith)
    requires
        0 <= x < 0x1_0000_0000_0000_0000,
        0 <= y < 0x1_0000_0000_0000_0000,
    ensures
        0 <= x * y < 0x1_0000_0000_0000_0000_0000_0000_0000_0000,
{
}

/// Compares two scores as exact rationals.
pub fn score_is_lt(a: &Score, b: &Score) -> (r: bool)
    ensures
        r == score_lt(*a, *b),
{
    if a.neg && !b.neg {
        true
    } else if !a.neg && b.neg {
        false
    } else {
        proof {
            lemma_u64_mul_fits(a.num_sq as int, b.den_sq as int);
            lemma_u64_mul_fits(b.num_sq as int, a.den_sq as int);
        }
        let left: u128 = (a.num_sq as u128) * (b.den_sq as u128);
        let right: u128 = (b.num_sq as u128) * (a.den_sq as u128);
        if !a.neg {
            left < right
        } else {
            left > right
        }
    }
}

/// The exact cosine similarity of two fixed-point vectors. Pairs that
/// mismatch in length, are empty, or have a zero norm score exactly zero;
/// nothing is ever divided by zero and nothing fails.
pub fn cosine_similarity(v1: &Vec<i64>, v2: &Vec<i64>) -> (s: Score)
    requires
        bounded(v1@),
        bounded(v2@),
    ensures
        s == spec_cosine(v1@, v2@),
        score_wf(s),
{
    let n = v1.len();
    if n != v2.len() || n == 0 {
        return Score { neg: false, num_sq: 0, den_sq: 1 };
    }
    let ghost climit = COORD_LIMIT as int;
    let mut i: usize = 0;
    let mut d: i64 = 0;
    let mut s1: i64 = 0;
    let mut s2: i64 = 0;
    while i < n
        invariant
            n == v1@.len(),
            n == v2@.len(),
            n <= DIM_LIMIT,
            coords_bounded(v1@),
            coords_bounded(v2@),
            climit == COORD_LIMIT as int,
            0 <= i <= n,
            d == dot_prefix(v1@, v2@, i as int),
            s1 == dot_prefix(v1@, v1@, i as int),
            s2 == dot_prefix(v2@, v2@, i as int),
            -(i as int * climit * climit) <= d <= i as int * climit * climit,
            0 <= s1 <= i as int * climit * climit,
            0 <= s2 <= i as int * climit * climit,
        decreases n - i,
    {
        let x = v1[i];
        let y = v2[i];
        proof {
            lemma_mul_bounds(x as int, y as int, climit);
            lemma_mul_bounds(x as int, x as int, climit);
            lemma_mul_bounds(y as int, y as int, climit);
            assert(i as int * climit * climit + climit * climit == (i + 1) as int * climit
                * climit) by (nonlinear_arith);
            assert(i as int * climit * climit <= 1024 * climit * climit) by (nonlinear_arith)
                requires
                    0 <= climit,
                    i as int <= 1024,
            ;
        }
        d = d + x * y;
        s1 = s1 + x * x;
        s2 = s2 + y * y;
        i = i + 1;
    }
    proof {
        assert(1024 * climit * climit <= 0x4000_0000i64 as int);
        assert(n as int * climit * climit <= 1024 * climit * climit) by (nonlinear_arith)
            requires
                0 <= climit,
                n as int <= 1024,
        ;
    }
    if s1 == 0 || s2 == 0 {
        return Score { neg: false, num_sq: 0, den_sq: 1 };
    }
    proof {
        let bound: int = 0x4000_0001i64 as int;
        assert(d * d >= 0 && d * d < bound * bound) by (nonlinear_arith)
            requires
                -bound < (d as int) < bound,
        ;
        assert(s1 * s2 >= 1 && s1 * s2 < bound * bound) by (nonlinear_arith)
            requires
                1 <= (s1 as int) < bound,
                1 <= (s2 as int) < bound,
        ;
        assert(d < 0 ==> d * d >= 1) by (nonlinear_arith);
    }
    let num_sq: u64 = (d * d) as u64;
    let den_sq: u64 = (s1 * s2) as u64;
    Score { neg: d < 0, num_sq, den_sq }
}

} // verus!
