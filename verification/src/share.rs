//! The mathematical model of an ownership share.

use vstd::arithmetic::mul::{lemma_mul_basics, lemma_mul_is_associative};
use vstd::arithmetic::power2::{lemma2_to64, lemma_pow2_adds, lemma_pow2_pos, lemma_pow2_unfold, pow2};
use vstd::prelude::*;

verus! {

/// An ownership share: the rational number `numerator / 2^exponent`.
pub struct Share {
    pub numerator: nat,
    pub exponent: nat,
}

impl Share {
    /// The share of a sole owner, `1 / 2^0`.
    pub open spec fn whole() -> Share {
        Share { numerator: 1, exponent: 0 }
    }

    /// Whether this share is complete ownership.
    pub open spec fn is_whole(self) -> bool {
        self.numerator == 1 && self.exponent == 0
    }

    /// A share in canonical form that lies in `(0, 1]`: the numerator is odd,
    /// so the fraction cannot be reduced, and it does not exceed the
    /// denominator.
    pub open spec fn valid(self) -> bool {
        self.numerator % 2 == 1 && self.numerator <= pow2(self.exponent)
    }

    /// Exactly half of this share.
    pub open spec fn half(self) -> Share {
        Share { numerator: self.numerator, exponent: self.exponent + 1 }
    }

    /// The size of this share counted in pieces of `1 / 2^depth`.
    pub open spec fn units(self, depth: nat) -> nat
        recommends
            self.exponent <= depth,
    {
        self.numerator * pow2((depth - self.exponent) as nat)
    }

    /// The smallest depth at which both shares are a whole number of pieces.
    pub open spec fn common_depth(self, other: Share) -> nat {
        if self.exponent <= other.exponent {
            other.exponent
        } else {
            self.exponent
        }
    }

    /// The two shares together, counted in pieces of their common depth.
    pub open spec fn joint_units(self, other: Share) -> nat {
        self.units(self.common_depth(other)) + other.units(self.common_depth(other))
    }

    /// Whether the two shares together are at most one whole.
    pub open spec fn fits_with(self, other: Share) -> bool {
        self.joint_units(other) <= pow2(self.common_depth(other))
    }

    /// Whether `self` is the canonical form of the exact sum `a + b`.
    pub open spec fn is_sum_of(self, a: Share, b: Share) -> bool {
        &&& self.numerator % 2 == 1
        &&& self.exponent <= a.common_depth(b)
        &&& self.units(a.common_depth(b)) == a.joint_units(b)
    }
    /// Counting in pieces that are `extra` levels finer multiplies the count
    /// by `2^extra`.
    pub proof fn lemma_units_deeper(self, depth: nat, extra: nat)
        requires
            self.exponent <= depth,
        ensures
            self.units(depth + extra) == self.units(depth) * pow2(extra),
    {
        let shallow = (depth - self.exponent) as nat;
        lemma_pow2_adds(shallow, extra);
        lemma_mul_is_associative(self.numerator as int, pow2(shallow) as int, pow2(extra) as int);
    }

    /// A sum has one canonical form.
    pub proof fn lemma_sum_unique(self, a: Share, b: Share, other: Share)
        requires
            self.is_sum_of(a, b),
            other.is_sum_of(a, b),
        ensures
            self == other,
    {
        let depth = a.common_depth(b);
        if self.exponent <= other.exponent {
            lemma_same_units_same_share(self, other, depth);
        } else {
            lemma_same_units_same_share(other, self, depth);
        }
    }

    /// The order of the two summands does not matter.
    pub proof fn lemma_sum_commutes(self, a: Share, b: Share)
        ensures
            self.is_sum_of(a, b) == self.is_sum_of(b, a),
    {
    }

    /// The canonical sum of two valid shares that together are at most one
    /// whole is a valid share again.
    pub proof fn lemma_sum_valid(self, a: Share, b: Share)
        requires
            self.is_sum_of(a, b),
            a.fits_with(b),
        ensures
            self.valid(),
    {
        let depth = a.common_depth(b);
        let n = self.numerator;
        let top = pow2(self.exponent);
        let scale = pow2((depth - self.exponent) as nat);
        lemma_pow2_adds(self.exponent, (depth - self.exponent) as nat);
        lemma_pow2_pos((depth - self.exponent) as nat);
        assert(n <= top) by (nonlinear_arith)
            requires
                n * scale <= top * scale,
                scale >= 1,
        ;
    }

    /// The two halves of a share add up to that share again.
    pub proof fn lemma_halves_sum(self)
        requires
            self.numerator % 2 == 1,
        ensures
            self.is_sum_of(self.half(), self.half()),
            self.valid() ==> self.half().valid() && self.half().fits_with(self.half()),
    {
        let depth = self.exponent + 1;
        lemma2_to64();
        lemma_mul_basics(self.numerator as int);
        assert(self.half().common_depth(self.half()) == depth);
        assert(self.units(depth) == self.numerator * 2);
        assert(self.half().units(depth) == self.numerator);
        lemma_pow2_unfold(depth);
    }
}

/// Two shares with odd numerators that count the same number of pieces at
/// some depth are the same share.
proof fn lemma_same_units_same_share(low: Share, high: Share, depth: nat)
    requires
        low.numerator % 2 == 1,
        high.numerator % 2 == 1,
        low.exponent <= high.exponent <= depth,
        low.units(depth) == high.units(depth),
    ensures
        low == high,
{
    let gap = (high.exponent - low.exponent) as nat;
    let scale = pow2((depth - high.exponent) as nat);
    lemma_pow2_adds(gap, (depth - high.exponent) as nat);
    lemma_pow2_pos((depth - high.exponent) as nat);
    lemma_mul_is_associative(low.numerator as int, pow2(gap) as int, scale as int);
    let lifted = low.numerator * pow2(gap);
    assert(lifted == high.numerator) by (nonlinear_arith)
        requires
            lifted * scale == high.numerator * scale,
            scale >= 1,
    ;
    if gap > 0 {
        lemma_pow2_unfold(gap);
        let rest = pow2((gap - 1) as nat);
        assert(low.numerator * (2 * rest) == 2 * (low.numerator * rest)) by (nonlinear_arith);
    } else {
        lemma2_to64();
        lemma_mul_basics(low.numerator as int);
    }
}

} // verus!
