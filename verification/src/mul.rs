//! Wrapping multiplication: the schoolbook product of the limbs, kept to the
//! low 256 bits. Each pair of limbs gives a 128-bit partial product, which is
//! added into the result at the position of the pair with its carry handed
//! upward; what would land above the top limb is dropped.

use crate::limbs::{
    lemma_pow_base_add, lemma_pow_base_values, lemma_prefix_value_split,
    lemma_prefix_value_update, limb_base, modulus, pow_base, prefix_value, upper_value,
};
use crate::uint256::Uint256;
use std::ops::Mul;
use vstd::arithmetic::div_mod::lemma_fundamental_div_mod_converse;
use vstd::prelude::*;
use vstd::std_specs::ops::MulSpecImpl;

verus! {

/// The product of two limbs plus two more limbs, as a low and a high limb.
/// The sum always fits in 128 bits.
fn mul_add_limbs(x: u64, y: u64, acc: u64, carry: u64) -> (out: (u64, u64))
    ensures
        out.0 + out.1 * limb_base() == x * y + acc + carry,
{
    assert(x * y <= 0xffff_ffff_ffff_ffff * 0xffff_ffff_ffff_ffff) by (nonlinear_arith)
        requires
            x <= 0xffff_ffff_ffff_ffff,
            y <= 0xffff_ffff_ffff_ffff,
    ;
    let wide: u128 = (x as u128) * (y as u128) + (acc as u128) + (carry as u128);
    let low = (wide % 0x1_0000_0000_0000_0000) as u64;
    let high = (wide / 0x1_0000_0000_0000_0000) as u64;
    (low, high)
}

/// Adds the row of partial products of limb `x` at position `shift` with the
/// limbs of `b` that stay within 256 bits into `acc`, and returns the carry
/// that left the top limb.
fn add_row(acc: &mut Uint256, x: u64, b: &Uint256, shift: usize) -> (carry: u64)
    requires
        shift < 4,
    ensures
        final(acc)@ + carry * modulus() == old(acc)@ + x * pow_base(shift as nat) * prefix_value(
            b.0@,
            (4 - shift) as nat,
        ),
{
    let ghost start = prefix_value(acc.0@, 4);
    let ghost scaled = x as nat * pow_base(shift as nat);
    let mut carry: u64 = 0;
    let mut j: usize = 0;
    proof {
        assert(scaled * 0 == 0) by (nonlinear_arith);
        assert(0 * pow_base(shift as nat) == 0) by (nonlinear_arith);
    }
    while j < 4 - shift
        invariant
            shift < 4,
            j <= 4 - shift,
            scaled == x as nat * pow_base(shift as nat),
            prefix_value(acc.0@, 4) + carry * pow_base((shift + j) as nat) == start + scaled
                * prefix_value(b.0@, j as nat),
        decreases 4 - shift - j,
    {
        let at = shift + j;
        let (low, high) = mul_add_limbs(x, b.0[j], acc.0[at], carry);
        proof {
            let weight = pow_base(at as nat);
            let row = pow_base(shift as nat);
            let column = pow_base(j as nat);
            let y = b.0[j as int] as nat;
            let held = acc.0[at as int] as nat;
            lemma_prefix_value_update(acc.0@, at as nat, low, 4);
            lemma_pow_base_add(shift as nat, j as nat);
            assert((low - held) * weight + high * (limb_base() * weight) == carry * weight + (x
                * y) * weight) by (nonlinear_arith)
                requires
                    low + high * limb_base() == x * y + held + carry,
            ;
            assert((x * y) * weight == scaled * (y * column)) by (nonlinear_arith)
                requires
                    weight == row * column,
                    scaled == x * row,
            ;
            assert(scaled * (prefix_value(b.0@, j as nat) + y * column) == scaled * prefix_value(
                b.0@,
                j as nat,
            ) + scaled * (y * column)) by (nonlinear_arith);
        }
        acc.0[at] = low;
        carry = high;
        j += 1;
    }
    proof {
        lemma_pow_base_values();
        acc.lemma_view_is_prefix_value();
        old(acc).lemma_view_is_prefix_value();
    }
    carry
}

impl MulSpecImpl for Uint256 {
    open spec fn obeys_mul_spec() -> bool {
        true
    }

    open spec fn mul_req(self, rhs: Uint256) -> bool {
        true
    }

    /// The product modulo 2^256.
    open spec fn mul_spec(self, rhs: Uint256) -> Uint256 {
        Uint256::from_nat((self@ * rhs@) % modulus())
    }
}

impl Mul for Uint256 {
    type Output = Uint256;

    /// Wrapping multiplication: the low 256 bits of the 512-bit product.
    fn mul(self, rhs: Uint256) -> (product: Uint256)
        ensures
            product@ == (self@ * rhs@) % modulus(),
    {
        let mut product = Uint256([0, 0, 0, 0]);
        let ghost mut dropped: nat = 0;
        let mut i: usize = 0;
        proof {
            assert(0 * rhs@ == 0) by (nonlinear_arith);
            assert(0 * modulus() == 0) by (nonlinear_arith);
        }
        while i < 4
            invariant
                i <= 4,
                product@ + dropped * modulus() == prefix_value(self.0@, i as nat) * rhs@,
            decreases 4 - i,
        {
            let ghost before = product@;
            let carry = add_row(&mut product, self.0[i], &rhs, i);
            proof {
                let x = self.0[i as int] as nat;
                let row = pow_base(i as nat);
                let low = prefix_value(rhs.0@, (4 - i) as nat);
                let high = upper_value(rhs.0@, (4 - i) as nat, 4);
                let rest = pow_base((4 - i) as nat);
                let sofar = prefix_value(self.0@, i as nat);
                rhs.lemma_view_is_prefix_value();
                lemma_prefix_value_split(rhs.0@, (4 - i) as nat, 4);
                lemma_pow_base_add(i as nat, (4 - i) as nat);
                lemma_pow_base_values();
                assert(x * row * rhs@ == x * row * low + (x * high) * modulus())
                    by (nonlinear_arith)
                    requires
                        rhs@ == low + rest * high,
                        row * rest == modulus(),
                ;
                assert((sofar + x * row) * rhs@ == sofar * rhs@ + x * row * rhs@)
                    by (nonlinear_arith);
                assert((dropped + carry + x * high) * modulus() == dropped * modulus() + carry
                    * modulus() + (x * high) * modulus()) by (nonlinear_arith);
                dropped = dropped + carry as nat + x * high;
            }
            i += 1;
        }
        proof {
            self.lemma_view_is_prefix_value();
            product.lemma_view_bound();
            lemma_fundamental_div_mod_converse(
                (self@ * rhs@) as int,
                modulus() as int,
                dropped as int,
                product@ as int,
            );
            product.lemma_from_nat_of_view();
        }
        product
    }
}

} // verus!
