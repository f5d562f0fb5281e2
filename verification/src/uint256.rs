//! The 256-bit value type, its mathematical model and its named values.

use crate::limbs::{lemma_prefix_value_four, limb_base, modulus, prefix_value};
use vstd::prelude::*;
use vstd::std_specs::cmp::PartialEqSpecImpl;

verus! {

/// A 256-bit unsigned integer held as four 64-bit limbs, least significant
/// limb first. Every pattern of the four limbs is a value, and each number
/// below 2^256 has exactly one pattern.
#[derive(Clone, Copy, Eq)]
pub struct Uint256(pub [u64; 4]);

impl View for Uint256 {
    type V = nat;

    /// The number the limbs denote:
    /// `limb[0] + limb[1]·2^64 + limb[2]·2^128 + limb[3]·2^192`.
    open spec fn view(&self) -> nat {
        (self.0[0] as nat) + (self.0[1] as nat) * 0x1_0000_0000_0000_0000 + (self.0[2] as nat)
            * 0x1_0000_0000_0000_0000_0000_0000_0000_0000nat + (self.0[3] as nat)
            * 0x1_0000_0000_0000_0000_0000_0000_0000_0000_0000_0000_0000_0000nat
    }
}

impl PartialEq for Uint256 {
    /// Two values are equal when their limbs are pairwise equal; what `==`
    /// means in contracts is stated by `eq_spec`.
    fn eq(&self, other: &Self) -> (r: bool) {
        let r = self.0[0] == other.0[0] && self.0[1] == other.0[1] && self.0[2] == other.0[2]
            && self.0[3] == other.0[3];
        proof {
            if r {
                assert(self.0 =~= other.0);
            }
        }
        r
    }
}

impl PartialEqSpecImpl for Uint256 {
    open spec fn obeys_eq_spec() -> bool {
        true
    }

    /// Equality of the limbs, which is equality of the numbers they denote.
    open spec fn eq_spec(&self, other: &Self) -> bool {
        *self == *other
    }
}

impl Uint256 {
    /// The value whose view is `n`, for `n` below 2^256; of a larger number
    /// the low 256 bits are kept. Limb `k` is `n / 2^(64·k) % 2^64`.
    pub open spec fn from_nat(n: nat) -> Uint256 {
        Uint256(
            [
                (n % limb_base()) as u64,
                (n / limb_base() % limb_base()) as u64,
                (n / limb_base() / limb_base() % limb_base()) as u64,
                (n / limb_base() / limb_base() / limb_base() % limb_base()) as u64,
            ],
        )
    }

    /// The value 0 in contracts.
    pub open spec fn spec_zero() -> Uint256 {
        Uint256([0, 0, 0, 0])
    }

    /// The value 1 in contracts.
    pub open spec fn spec_one() -> Uint256 {
        Uint256([1, 0, 0, 0])
    }

    /// The value 2 in contracts.
    pub open spec fn spec_two() -> Uint256 {
        Uint256([2, 0, 0, 0])
    }

    /// The value 2^256 − 1 in contracts.
    pub open spec fn spec_max_value() -> Uint256 {
        Uint256(
            [0xffff_ffff_ffff_ffff, 0xffff_ffff_ffff_ffff, 0xffff_ffff_ffff_ffff, 0xffff_ffff_ffff_ffff],
        )
    }

    /// Builds a value from its limbs, least significant first.
    pub fn from_limbs(limbs: [u64; 4]) -> (r: Uint256)
        ensures
            r.0 == limbs,
    {
        Uint256(limbs)
    }

    /// The value 0: every limb zero.
    #[verifier::when_used_as_spec(spec_zero)]
    pub fn zero() -> (r: Uint256)
        ensures
            r == Uint256::spec_zero(),
            r@ == 0,
    {
        Uint256([0, 0, 0, 0])
    }

    /// The value 1.
    #[verifier::when_used_as_spec(spec_one)]
    pub fn one() -> (r: Uint256)
        ensures
            r == Uint256::spec_one(),
            r@ == 1,
    {
        Uint256([1, 0, 0, 0])
    }

    /// The value 2.
    #[verifier::when_used_as_spec(spec_two)]
    pub fn two() -> (r: Uint256)
        ensures
            r == Uint256::spec_two(),
            r@ == 2,
    {
        Uint256([2, 0, 0, 0])
    }

    /// The largest value, 2^256 − 1: every limb 2^64 − 1.
    #[verifier::when_used_as_spec(spec_max_value)]
    pub fn max_value() -> (r: Uint256)
        ensures
            r == Uint256::spec_max_value(),
            r@ == modulus() - 1,
    {
        Uint256([u64::MAX, u64::MAX, u64::MAX, u64::MAX])
    }

    /// Whether the value is 0, that is, whether every limb is zero.
    pub fn is_zero(&self) -> (r: bool)
        ensures
            r == (*self == Uint256::zero()),
            r == (self@ == 0),
    {
        let r = self.0[0] == 0 && self.0[1] == 0 && self.0[2] == 0 && self.0[3] == 0;
        proof {
            if r {
                assert(self.0 =~= Uint256::zero().0);
            }
        }
        r
    }

    /// Resets the value to 0 in place.
    pub fn set_zero(&mut self)
        ensures
            *final(self) == Uint256::zero(),
    {
        self.0 = [0, 0, 0, 0];
    }

    /// The view is the four-limb prefix value of the limbs.
    pub proof fn lemma_view_is_prefix_value(self)
        ensures
            self@ == prefix_value(self.0@, 4),
    {
        lemma_prefix_value_four(self.0@);
    }

    /// Every value lies below 2^256.
    pub proof fn lemma_view_bound(self)
        ensures
            self@ < modulus(),
    {
    }

    /// `from_nat` inverts the view on numbers below 2^256.
    pub proof fn lemma_from_nat_view(n: nat)
        requires
            n < modulus(),
        ensures
            Uint256::from_nat(n)@ == n,
    {
        let b = limb_base();
        let q1 = n / b;
        let q2 = q1 / b;
        let q3 = q2 / b;
        assert(n == b * q1 + n % b);
        assert(q1 == b * q2 + q1 % b);
        assert(q2 == b * q3 + q2 % b);
        assert(q3 < b);
        assert(q3 % b == q3);
    }

    /// The view determines the value: equal numbers have equal limbs.
    pub proof fn lemma_view_injective(self, other: Uint256)
        requires
            self@ == other@,
        ensures
            self == other,
    {
        assert(self.0 =~= other.0);
    }

    /// `from_nat` of the view gives the value back.
    pub proof fn lemma_from_nat_of_view(self)
        ensures
            Uint256::from_nat(self@) == self,
    {
        self.lemma_view_bound();
        Uint256::lemma_from_nat_view(self@);
        Uint256::from_nat(self@).lemma_view_injective(self);
    }
}

} // verus!
