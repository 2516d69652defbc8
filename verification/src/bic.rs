//! The whole-number side of Bayesian Information Criterion scoring, and the order of scores.
//!
//! A score balances how well a clustering fits against how many values it had to
//! estimate: the lower score is the better one. The sums, roots and logarithms that
//! produce a score need real arithmetic and are done by the caller. What is decided here
//! are the counts that go into a score, when a variance can be estimated at all, and
//! which of two finished scores is the lower.

use vstd::prelude::*;

verus! {

/// The number of values that a model of `k` clusters in `d` dimensions estimates:
/// `k - 1` independent mixture weights, `d * k` centroid coordinates, and one variance
/// shared by all.
pub open spec fn free_params_spec(k: nat, d: nat) -> nat
    recommends
        k >= 1,
{
    ((k - 1) + d * k + 1) as nat
}

/// With at least one cluster, the count is `k * (d + 1)`.
pub proof fn lemma_free_params_closed_form(k: nat, d: nat)
    requires
        k >= 1,
    ensures
        free_params_spec(k, d) == k * (d + 1),
        free_params_spec(k, d) >= d + 1,
{
    assert(k * (d + 1) == d * k + k) by (nonlinear_arith);
    assert(k * (d + 1) >= d + 1) by (nonlinear_arith)
        requires
            k >= 1,
    ;
}

/// A model with more clusters, or in more dimensions, estimates more values.
pub proof fn lemma_free_params_grow(k1: nat, d1: nat, k2: nat, d2: nat)
    requires
        1 <= k1 <= k2,
        d1 <= d2,
    ensures
        free_params_spec(k1, d1) <= free_params_spec(k2, d2),
        k1 < k2 ==> free_params_spec(k1, d1) < free_params_spec(k2, d2),
{
    lemma_free_params_closed_form(k1, d1);
    lemma_free_params_closed_form(k2, d2);
    assert(k1 * (d1 + 1) <= k2 * (d2 + 1)) by (nonlinear_arith)
        requires
            k1 <= k2,
            d1 <= d2,
    ;
    if k1 < k2 {
        assert(k1 * (d1 + 1) < k2 * (d2 + 1)) by (nonlinear_arith)
            requires
                k1 < k2,
                d1 <= d2,
        ;
    }
}

/// The number of free parameters of a model of `k` clusters in `d` dimensions.
///
/// There is none for a model without clusters, nor where the count does not fit the
/// machine word.
pub fn compute_free_params(k: usize, d: usize) -> (r: Option<usize>)
    ensures
        r is Some <==> k >= 1 && free_params_spec(k as nat, d as nat) <= usize::MAX,
        r matches Some(n) ==> n == free_params_spec(k as nat, d as nat),
{
    if k == 0 {
        return None;
    }
    proof {
        lemma_free_params_closed_form(k as nat, d as nat);
        assert(d * k >= d) by (nonlinear_arith)
            requires
                k >= 1,
                d >= 0,
        ;
    }
    match d.checked_mul(k) {
        None => None,
        Some(coordinates) => coordinates.checked_add(k),
    }
}

/// The divisor of the pooled variance of `n` residuals under `free` free parameters.
///
/// There is none when the points do not outnumber the parameters: the variance cannot
/// then be estimated, the pooled standard deviation stands at positive infinity, and the
/// group's log-likelihood counts as zero. Otherwise the divisor is `n - free`, which is
/// at least one.
pub fn degrees_of_freedom(n: usize, free: usize) -> (r: Option<usize>)
    ensures
        r is None <==> n <= free,
        r matches Some(dof) ==> dof == n - free && dof >= 1,
{
    if n > free {
        Some(n - free)
    } else {
        None
    }
}

/// The highest bit of a score: set for the numbers below zero.
pub const SIGN_BIT: u64 = 0x8000_0000_0000_0000;

/// The bits of positive infinity. Every magnitude above it is no number.
pub const INFINITY_BITS: u64 = 0x7ff0_0000_0000_0000;

/// A score, held as the 64 bits of an IEEE 754 double-precision number.
///
/// The verified code never computes with a score; it only asks which of two is lower.
/// For doubles that question has an answer in whole numbers: with the sign bit taken
/// off, the bits of a number grow with its size.
#[derive(Clone, Copy, Debug)]
pub struct Score {
    pub bits: u64,
}

impl Score {
    /// The bits without the sign.
    pub open spec fn magnitude(self) -> int {
        if self.bits >= SIGN_BIT {
            self.bits - SIGN_BIT
        } else {
            self.bits as int
        }
    }

    /// Whether the bits stand for no number at all.
    pub open spec fn is_nan(self) -> bool {
        self.magnitude() > INFINITY_BITS
    }

    /// Whether the sign bit is set.
    pub open spec fn is_negative(self) -> bool {
        self.bits >= SIGN_BIT
    }

    /// Where the score stands on the number line: two scores that are numbers compare as
    /// their ranks do. Both zeros have rank zero.
    pub open spec fn rank(self) -> int {
        if self.is_negative() {
            -self.magnitude()
        } else {
            self.magnitude()
        }
    }

    /// Whether this score is strictly lower than `other`. What is no number is neither
    /// lower nor higher than anything.
    pub open spec fn below(self, other: Score) -> bool {
        !self.is_nan() && !other.is_nan() && self.rank() < other.rank()
    }

    /// The score with the given bits.
    pub fn from_bits(bits: u64) -> (r: Score)
        ensures
            r.bits == bits,
    {
        Score { bits }
    }

    /// The bits of the score.
    pub fn to_bits(&self) -> (r: u64)
        ensures
            r == self.bits,
    {
        self.bits
    }

    /// Whether this score is strictly lower than `other`.
    pub fn is_below(&self, other: &Score) -> (r: bool)
        ensures
            r == self.below(*other),
    {
        let mine: u64 = if self.bits >= SIGN_BIT {
            self.bits - SIGN_BIT
        } else {
            self.bits
        };
        let theirs: u64 = if other.bits >= SIGN_BIT {
            other.bits - SIGN_BIT
        } else {
            other.bits
        };
        if mine > INFINITY_BITS || theirs > INFINITY_BITS {
            false
        } else if self.bits >= SIGN_BIT {
            if other.bits >= SIGN_BIT {
                mine > theirs
            } else {
                mine > 0 || theirs > 0
            }
        } else {
            other.bits < SIGN_BIT && mine < theirs
        }
    }
}

/// "Lower than" is a strict order on scores: nothing is lower than itself, no two scores
/// are each lower than the other, and lower than lower is lower.
pub proof fn lemma_below_is_strict_order(a: Score, b: Score, c: Score)
    ensures
        !a.below(a),
        a.below(b) ==> !b.below(a),
        a.below(b) && b.below(c) ==> a.below(c),
{
}

/// What is no number is lower than nothing, and nothing is lower than it.
pub proof fn lemma_nan_is_unordered(a: Score, b: Score)
    requires
        a.is_nan(),
    ensures
        !a.below(b),
        !b.below(a),
{
}

} // verus!
