//! Wrapping addition and subtraction: one pass over the limbs, least
//! significant first, handing a carry or a borrow from each limb to the next.

use crate::limbs::{
    carried, lemma_pow_base_values, lemma_prefix_value_update, limb_base, modulus, pow_base,
    prefix_value,
};
use crate::uint256::Uint256;
use std::ops::{Add, Sub};
use vstd::prelude::*;
use vstd::std_specs::ops::{AddSpecImpl, SubSpecImpl};

verus! {

/// Adds two limbs and an incoming carry. The carry that comes out is set if
/// either of the two additions left the 64 bits of a limb.
pub(crate) fn add_limbs(x: u64, y: u64, carry: bool) -> (out: (u64, bool))
    ensures
        out.0 + carried(out.1, limb_base()) == x + y + carried(carry, 1),
{
    let first = x.wrapping_add(y);
    let first_overflowed = first < x;
    let second = first.wrapping_add(if carry { 1 } else { 0 });
    let second_overflowed = second < first;
    (second, first_overflowed || second_overflowed)
}

/// Subtracts a limb and an incoming borrow from a limb. The borrow that comes
/// out is set if either of the two subtractions fell below zero.
pub(crate) fn sub_limbs(x: u64, y: u64, borrow: bool) -> (out: (u64, bool))
    ensures
        out.0 - carried(out.1, limb_base()) == x - y - carried(borrow, 1),
{
    let first = x.wrapping_sub(y);
    let first_underflowed = x < y;
    let step: u64 = if borrow { 1 } else { 0 };
    let second = first.wrapping_sub(step);
    let second_underflowed = first < step;
    (second, first_underflowed || second_underflowed)
}

/// The full sum of two values and an incoming carry: the low 256 bits, and
/// whether a carry left the top limb.
pub(crate) fn add_with_carry(a: &Uint256, b: &Uint256, carry_in: bool) -> (out: (Uint256, bool))
    ensures
        out.0@ + carried(out.1, modulus()) == a@ + b@ + carried(carry_in, 1),
{
    let mut sum = Uint256([0, 0, 0, 0]);
    let mut carry = carry_in;
    let mut i: usize = 0;
    while i < 4
        invariant
            i <= 4,
            prefix_value(sum.0@, i as nat) + carried(carry, pow_base(i as nat)) == prefix_value(
                a.0@,
                i as nat,
            ) + prefix_value(b.0@, i as nat) + carried(carry_in, 1),
        decreases 4 - i,
    {
        let (limb, next) = add_limbs(a.0[i], b.0[i], carry);
        proof {
            let weight = pow_base(i as nat);
            let x = a.0[i as int] as nat;
            let y = b.0[i as int] as nat;
            let c = carried(carry, 1);
            let n = carried(next, limb_base());
            lemma_prefix_value_update(sum.0@, i as nat, limb, i as nat);
            assert(limb * weight + n * weight == x * weight + y * weight + c * weight)
                by (nonlinear_arith)
                requires
                    limb + n == x + y + c,
            ;
            assert(c * weight == carried(carry, weight)) by (nonlinear_arith)
                requires
                    c == carried(carry, 1),
            ;
            assert(n * weight == carried(next, pow_base((i + 1) as nat)));
        }
        sum.0[i] = limb;
        carry = next;
        i += 1;
    }
    proof {
        lemma_pow_base_values();
        sum.lemma_view_is_prefix_value();
        a.lemma_view_is_prefix_value();
        b.lemma_view_is_prefix_value();
    }
    (sum, carry)
}

/// The full difference of two values and an incoming borrow: the low 256
/// bits, and whether a borrow left the top limb.
pub(crate) fn sub_with_borrow(a: &Uint256, b: &Uint256, borrow_in: bool) -> (out: (Uint256, bool))
    ensures
        out.0@ - carried(out.1, modulus()) == a@ - b@ - carried(borrow_in, 1),
{
    let mut difference = Uint256([0, 0, 0, 0]);
    let mut borrow = borrow_in;
    let mut i: usize = 0;
    while i < 4
        invariant
            i <= 4,
            prefix_value(difference.0@, i as nat) - carried(borrow, pow_base(i as nat))
                == prefix_value(a.0@, i as nat) - prefix_value(b.0@, i as nat) - carried(
                borrow_in,
                1,
            ),
        decreases 4 - i,
    {
        let (limb, next) = sub_limbs(a.0[i], b.0[i], borrow);
        proof {
            let weight = pow_base(i as nat);
            let x = a.0[i as int] as nat;
            let y = b.0[i as int] as nat;
            let c = carried(borrow, 1);
            let n = carried(next, limb_base());
            lemma_prefix_value_update(difference.0@, i as nat, limb, i as nat);
            assert(limb * weight - n * weight == x * weight - y * weight - c * weight)
                by (nonlinear_arith)
                requires
                    limb - n == x - y - c,
            ;
            assert(c * weight == carried(borrow, weight)) by (nonlinear_arith)
                requires
                    c == carried(borrow, 1),
            ;
            assert(n * weight == carried(next, pow_base((i + 1) as nat)));
        }
        difference.0[i] = limb;
        borrow = next;
        i += 1;
    }
    proof {
        lemma_pow_base_values();
        difference.lemma_view_is_prefix_value();
        a.lemma_view_is_prefix_value();
        b.lemma_view_is_prefix_value();
    }
    (difference, borrow)
}

impl AddSpecImpl for Uint256 {
    open spec fn obeys_add_spec() -> bool {
        true
    }

    open spec fn add_req(self, rhs: Uint256) -> bool {
        true
    }

    /// The sum modulo 2^256.
    open spec fn add_spec(self, rhs: Uint256) -> Uint256 {
        Uint256::from_nat((self@ + rhs@) % modulus())
    }
}

impl Add for Uint256 {
    type Output = Uint256;

    /// Wrapping addition: the sum modulo 2^256. A carry out of the top limb
    /// is dropped, so the largest value plus one is zero. It never fails.
    fn add(self, rhs: Uint256) -> (sum: Uint256)
        ensures
            sum@ == (self@ + rhs@) % modulus(),
    {
        let (sum, _) = add_with_carry(&self, &rhs, false);
        proof {
            sum.lemma_view_bound();
            sum.lemma_from_nat_of_view();
        }
        sum
    }
}

impl SubSpecImpl for Uint256 {
    open spec fn obeys_sub_spec() -> bool {
        true
    }

    open spec fn sub_req(self, rhs: Uint256) -> bool {
        true
    }

    /// The difference modulo 2^256.
    open spec fn sub_spec(self, rhs: Uint256) -> Uint256 {
        Uint256::from_nat(((self@ - rhs@) % (modulus() as int)) as nat)
    }
}

impl Sub for Uint256 {
    type Output = Uint256;

    /// Wrapping subtraction: the difference modulo 2^256. Like addition it
    /// wraps and never fails: it does not stop at zero, so zero minus one is
    /// the largest value.
    fn sub(self, rhs: Uint256) -> (difference: Uint256)
        ensures
            difference@ == (self@ - rhs@) % (modulus() as int),
    {
        let (difference, _) = sub_with_borrow(&self, &rhs, false);
        proof {
            difference.lemma_view_bound();
            self.lemma_view_bound();
            rhs.lemma_view_bound();
            difference.lemma_from_nat_of_view();
        }
        difference
    }
}

} // verus!
