//! The fraction engine: an ownership share held in two machine words.

use crate::share::Share;
use crate::text::{decimal, push_decimal, push_text};
use vstd::arithmetic::mul::lemma_mul_basics;
use vstd::arithmetic::power2::{lemma2_to64, lemma_pow2_pos, lemma_pow2_strictly_increases, lemma_pow2_unfold, pow2};
use vstd::bits::{lemma_usize_mul_pow2_le_max_iff_max_shr, lemma_usize_shl_is_mul};
use vstd::prelude::*;

verus! {

/// A share of ownership, `num / 2^(den - 1)`, kept in canonical form.
///
/// `den` is one more than the exponent of the denominator, so a fresh
/// fraction is `num == 1, den == 1`. The numerator is always odd and never
/// larger than the denominator: the value lies in `(0, 1]`.
#[derive(Debug, Clone, Copy)]
pub struct Frac {
    num: usize,
    den: usize,
}

/// A merge was refused: the combined share cannot be represented.
#[derive(Debug)]
pub struct MergeErr();

/// A split was refused: the denominator is at its ceiling.
#[derive(Debug)]
pub struct SplitErr();

impl MergeErr {
    /// What `to_string` says.
    pub open spec fn message() -> Seq<char> {
        "Nominator became too big, could not merge!"@
    }

    /// The error in words.
    pub fn to_string(&self) -> (r: String)
        ensures
            r@ == Self::message(),
    {
        "Nominator became too big, could not merge!".to_owned()
    }
}

impl SplitErr {
    /// What `to_string` says.
    pub open spec fn message() -> Seq<char> {
        "Denominater was about to overflow, could not split!"@
    }

    /// The error in words.
    pub fn to_string(&self) -> (r: String)
        ensures
            r@ == Self::message(),
    {
        "Denominater was about to overflow, could not split!".to_owned()
    }
}

impl View for Frac {
    type V = Share;

    closed spec fn view(&self) -> Share {
        Share { numerator: self.num as nat, exponent: (self.den - 1) as nat }
    }
}

impl Frac {
    /// What holds of every fraction: the stored denominator is at least
    /// one, and the share is valid.
    #[verifier::type_invariant]
    pub closed spec fn well_formed(self) -> bool {
        &&& self.den >= 1
        &&& self.num % 2 == 1
        &&& self.num <= pow2((self.den - 1) as nat)
    }

    /// The share of a well-formed fraction is valid.
    pub proof fn lemma_well_formed(self)
        requires
            self.well_formed(),
        ensures
            self@.valid(),
    {
    }

    /// Whether a share can still be halved: its stored denominator is below
    /// the largest machine word.
    pub open spec fn splittable(share: Share) -> bool {
        share.exponent + 1 < usize::MAX
    }

    /// Whether the sum of two shares can be held: the sum is at most one
    /// whole, and its numerator at the common depth fits the machine word.
    pub open spec fn mergeable(a: Share, b: Share) -> bool {
        a.fits_with(b) && a.joint_units(b) <= usize::MAX
    }

    /// Merging is blind to the order of the two shares.
    pub proof fn lemma_mergeable_commutes(a: Share, b: Share)
        ensures
            Self::mergeable(a, b) == Self::mergeable(b, a),
    {
    }

    /// A split can be undone: the two halves of a valid share are mergeable
    /// as long as twice its numerator fits the machine word, which is so for
    /// the whole share, and their sum is the share that was split.
    pub proof fn lemma_split_then_merge(share: Share, merged: Share)
        requires
            share.valid(),
            2 * share.numerator <= usize::MAX,
            merged.is_sum_of(share.half(), share.half()),
        ensures
            Self::mergeable(share.half(), share.half()),
            merged == share,
    {
        share.lemma_halves_sum();
        merged.lemma_sum_unique(share.half(), share.half(), share);
        lemma2_to64();
        lemma_mul_basics(share.numerator as int);
    }

    /// The whole share.
    pub fn new() -> (r: Frac)
        ensures
            r@ == Share::whole(),
            r@.valid(),
    {
        proof {
            lemma2_to64();
        }
        Frac { num: 1, den: 1 }
    }

    /// The fraction `num / 2^(den - 1)`, if that is a share in canonical
    /// form: `den` is at least one, `num` is odd and at most `2^(den - 1)`.
    pub fn from_parts(num: usize, den: usize) -> (r: Option<Frac>)
        ensures
            match r {
                Some(frac) => {
                    &&& den >= 1
                    &&& frac@ == Share { numerator: num as nat, exponent: (den - 1) as nat }
                    &&& frac@.valid()
                },
                None => den == 0 || !(Share {
                    numerator: num as nat,
                    exponent: (den - 1) as nat,
                }).valid(),
            },
    {
        if den >= 1 && num % 2 == 1 && within_pow2(num, den - 1) {
            Some(Frac { num, den })
        } else {
            None
        }
    }

    /// The numerator.
    pub fn num(&self) -> (r: usize)
        ensures
            r == self@.numerator,
            self@.valid(),
    {
        proof {
            use_type_invariant(self);
        }
        self.num
    }

    /// One more than the exponent of the denominator.
    pub fn den(&self) -> (r: usize)
        ensures
            r == self@.exponent + 1,
            self@.valid(),
    {
        proof {
            use_type_invariant(self);
        }
        self.den
    }

    /// Whether this is the whole share.
    pub fn is_one(&self) -> (r: bool)
        ensures
            r == self@.is_whole(),
            self@.valid(),
    {
        proof {
            use_type_invariant(self);
        }
        self.num == 1 && self.den == 1
    }

    /// A share in writing: the numerator, then the stored denominator, which
    /// is one more than the exponent.
    pub open spec fn rendered(share: Share) -> Seq<char> {
        decimal(share.numerator) + "/((2^"@ + decimal(share.exponent + 1) + ") - 1)"@
    }

    /// This fraction in writing.
    pub fn to_string(&self) -> (r: String)
        ensures
            r@ == Self::rendered(self@),
    {
        proof {
            use_type_invariant(self);
        }
        let mut text = String::new();
        push_decimal(&mut text, self.num);
        push_text(&mut text, "/((2^");
        push_decimal(&mut text, self.den);
        push_text(&mut text, ") - 1)");
        assert(text@ =~= Self::rendered(self@));
        text
    }

    /// Halves this share in place and returns the other half.
    pub fn split(&mut self) -> (r: Result<Frac, SplitErr>)
        ensures
            old(self)@.valid(),
            final(self)@.valid(),
            match r {
                Ok(other) => {
                    &&& Self::splittable(old(self)@)
                    &&& final(self)@ == old(self)@.half()
                    &&& other@ == old(self)@.half()
                },
                Err(_) => !Self::splittable(old(self)@) && *final(self) == *old(self),
            },
    {
        proof {
            use_type_invariant(&*self);
        }
        match self.den.checked_add(1) {
            Some(den) => {
                proof {
                    lemma_pow2_strictly_increases((self.den - 1) as nat, self.den as nat);
                }
                let half = Frac { num: self.num, den };
                *self = half;
                Ok(half)
            },
            None => Err(SplitErr()),
        }
    }

    /// Merges `other` into this share: the two are brought to a common
    /// denominator, added, and the sum is reduced until its numerator is odd.
    ///
    /// The merge is refused, and this share left as it was, when the sum
    /// cannot be held: its numerator at the common depth overflows the
    /// machine word, or the sum is more than one whole.
    pub fn merge(&mut self, other: Frac) -> (r: Result<(), MergeErr>)
        ensures
            old(self)@.valid(),
            other@.valid(),
            final(self)@.valid(),
            match r {
                Ok(()) => {
                    &&& Self::mergeable(old(self)@, other@)
                    &&& final(self)@.is_sum_of(old(self)@, other@)
                },
                Err(_) => !Self::mergeable(old(self)@, other@) && *final(self) == *old(self),
            },
    {
        proof {
            use_type_invariant(&*self);
            use_type_invariant(&other);
            lemma2_to64();
        }
        let (lo, hi) = if self.den < other.den {
            (*self, other)
        } else {
            (other, *self)
        };
        let diff: usize = hi.den - lo.den;
        let ghost depth = self@.common_depth(other@);
        assert(self@.joint_units(other@) == lo.num * pow2(diff as nat) + hi.num) by {
            assert(depth == hi.den - 1);
            lemma_mul_basics(hi.num as int);
        }
        let lifted: usize = match shift_up(lo.num, diff) {
            Some(lifted) => lifted,
            None => {
                return Err(MergeErr());
            },
        };
        let sum: usize = match lifted.checked_add(hi.num) {
            Some(sum) => sum,
            None => {
                return Err(MergeErr());
            },
        };
        if !within_pow2(sum, hi.den - 1) {
            return Err(MergeErr());
        }
        *self = reduce(sum, hi.den);
        Ok(())
    }
}

/// `num * 2^by`, or `None` when that does not fit the machine word.
fn shift_up(num: usize, by: usize) -> (r: Option<usize>)
    ensures
        match r {
            Some(v) => v == num * pow2(by as nat),
            None => num * pow2(by as nat) > usize::MAX,
        },
{
    if num == 0 {
        assert(0 * pow2(by as nat) == 0) by (nonlinear_arith);
        return Some(0);
    }
    if by >= usize::BITS as usize {
        proof {
            lemma2_to64();
            if by > usize::BITS {
                lemma_pow2_strictly_increases(usize::BITS as nat, by as nat);
            }
            assert(pow2(by as nat) > usize::MAX);
            assert(num * pow2(by as nat) >= pow2(by as nat)) by (nonlinear_arith)
                requires
                    num >= 1,
            ;
        }
        return None;
    }
    proof {
        lemma_usize_mul_pow2_le_max_iff_max_shr(num, by, usize::MAX);
    }
    if num > (usize::MAX >> by) {
        None
    } else {
        proof {
            lemma_usize_shl_is_mul(num, by);
        }
        Some(num << by)
    }
}

/// Whether `n <= 2^e`.
fn within_pow2(n: usize, e: usize) -> (r: bool)
    ensures
        r == (n <= pow2(e as nat)),
{
    proof {
        lemma2_to64();
    }
    if e >= usize::BITS as usize {
        proof {
            if e > usize::BITS {
                lemma_pow2_strictly_increases(usize::BITS as nat, e as nat);
            }
        }
        true
    } else {
        proof {
            lemma_usize_mul_pow2_le_max_iff_max_shr(1, e, usize::MAX);
            lemma_pow2_pos(e as nat);
        }
        if 1 > (usize::MAX >> e) {
            true
        } else {
            proof {
                lemma_usize_shl_is_mul(1, e);
            }
            n <= (1usize << e)
        }
    }
}

/// The canonical form of `num / 2^(den - 1)`: trailing zero bits of the
/// numerator are stripped, each one lowering the exponent by one.
fn reduce(num: usize, den: usize) -> (r: Frac)
    requires
        1 <= num <= pow2((den - 1) as nat),
        den >= 1,
    ensures
        r@.valid(),
        r@.exponent <= den - 1,
        r@.units((den - 1) as nat) == num,
{
    let mut n: usize = num;
    let mut d: usize = den;
    proof {
        lemma2_to64();
        lemma_mul_basics(num as int);
    }
    while n % 2 == 0
        invariant
            1 <= n <= pow2((d - 1) as nat),
            1 <= d <= den,
            n * pow2((den - d) as nat) == num,
        decreases n,
    {
        proof {
            lemma2_to64();
            lemma_pow2_unfold((d - 1) as nat);
            lemma_pow2_unfold((den - d + 1) as nat);
            let half = n / 2;
            let scale = pow2((den - d) as nat);
            assert(half * (2 * scale) == n * scale) by (nonlinear_arith)
                requires
                    n == 2 * half,
            ;
        }
        n = n / 2;
        d = d - 1;
    }
    Frac { num: n, den: d }
}

} // verus!
