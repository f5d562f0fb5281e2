//! Division and remainder by binary long division: 256 rounds that bring the
//! dividend's bits down one at a time, most significant first, and subtract
//! the divisor wherever it fits.

use crate::add_sub::{add_with_carry, sub_with_borrow};
use crate::error::ArithmeticError;
use crate::limbs::{carried, modulus};
use crate::uint256::Uint256;
use std::ops::{Div, Rem};
use vstd::arithmetic::div_mod::lemma_fundamental_div_mod_converse;
use vstd::arithmetic::power2::{
    lemma2_to64, lemma_pow2_adds, lemma_pow2_strictly_increases, lemma_pow2_unfold, pow2,
};
use vstd::prelude::*;
use vstd::std_specs::ops::{DivSpecImpl, RemSpecImpl};

verus! {

/// 2^256 is the number of values.
proof fn lemma_pow2_256()
    ensures
        pow2(256) == modulus(),
{
    lemma2_to64();
    lemma_pow2_adds(64, 64);
    lemma_pow2_adds(128, 128);
    let b = pow2(64);
    let c = pow2(128);
    assert(b * b == 0x1_0000_0000_0000_0000_0000_0000_0000_0000nat) by (nonlinear_arith)
        requires
            b == 0x1_0000_0000_0000_0000,
    ;
    assert(c * c == modulus()) by (nonlinear_arith)
        requires
            c == 0x1_0000_0000_0000_0000_0000_0000_0000_0000nat,
            modulus()
                == 0x1_0000_0000_0000_0000_0000_0000_0000_0000_0000_0000_0000_0000_0000_0000_0000_0000nat,
    ;
}

/// The quotient and the remainder of a division by a nonzero divisor.
pub(crate) fn div_rem(a: &Uint256, b: &Uint256) -> (out: (Uint256, Uint256))
    requires
        b@ != 0,
    ensures
        out.0@ == a@ / b@,
        out.1@ == a@ % b@,
{
    let mut quotient = Uint256([0, 0, 0, 0]);
    let mut remainder = Uint256([0, 0, 0, 0]);
    // The dividend's bits that are still to come, moved up to the top.
    let mut pending = *a;
    // The dividend's bits that have come down, as a number.
    let ghost mut taken: nat = 0;
    let mut round: usize = 0;
    proof {
        lemma2_to64();
        assert(a@ * 1 == a@) by (nonlinear_arith);
        assert(0 * b@ == 0) by (nonlinear_arith);
    }
    while round < 256
        invariant
            round <= 256,
            b@ != 0,
            a@ * pow2(round as nat) == taken * modulus() + pending@,
            taken == quotient@ * b@ + remainder@,
            remainder@ < b@,
            quotient@ < pow2(round as nat),
        decreases 256 - round,
    {
        let (shifted, top) = add_with_carry(&pending, &pending, false);
        let (doubled, over) = add_with_carry(&remainder, &remainder, top);
        let (reduced, borrow) = sub_with_borrow(&doubled, b, false);
        let fits = over || !borrow;
        let (next_quotient, lost) = add_with_carry(&quotient, &quotient, fits);
        proof {
            let scale = pow2(round as nat);
            let q = quotient@;
            let d = b@;
            shifted.lemma_view_bound();
            doubled.lemma_view_bound();
            reduced.lemma_view_bound();
            next_quotient.lemma_view_bound();
            b.lemma_view_bound();
            lemma_pow2_unfold((round + 1) as nat);
            lemma_pow2_256();
            if round + 1 < 256 {
                lemma_pow2_strictly_increases((round + 1) as nat, 256);
            }
            assert(!lost);
            assert(a@ * (2 * scale) == 2 * (a@ * scale)) by (nonlinear_arith);
            assert((2 * q + 1) * d == 2 * (q * d) + d) by (nonlinear_arith);
            assert((2 * q) * d == 2 * (q * d)) by (nonlinear_arith);
            taken = 2 * taken + carried(top, 1);
        }
        pending = shifted;
        remainder = if fits { reduced } else { doubled };
        quotient = next_quotient;
        round += 1;
    }
    proof {
        lemma_pow2_256();
        pending.lemma_view_bound();
        a.lemma_view_bound();
        let m = modulus();
        let value = a@;
        let rest = pending@;
        assert(taken == value) by (nonlinear_arith)
            requires
                value * m == taken * m + rest,
                rest < m,
        ;
        lemma_fundamental_div_mod_converse(a@ as int, b@ as int, quotient@ as int, remainder@ as int);
    }
    (quotient, remainder)
}

impl DivSpecImpl for Uint256 {
    open spec fn obeys_div_spec() -> bool {
        true
    }

    open spec fn div_req(self, rhs: Uint256) -> bool {
        true
    }

    /// The quotient rounded down, or the failure for a zero divisor.
    open spec fn div_spec(self, rhs: Uint256) -> Result<Uint256, ArithmeticError> {
        if rhs@ == 0 {
            Err(ArithmeticError::DivisionByZero)
        } else {
            Ok(Uint256::from_nat(self@ / rhs@))
        }
    }
}

impl Div for Uint256 {
    type Output = Result<Uint256, ArithmeticError>;

    /// Integer division, rounded down. A zero divisor gives
    /// `DivisionByZero` and nothing else does.
    fn div(self, rhs: Uint256) -> (out: Result<Uint256, ArithmeticError>)
        ensures
            rhs@ == 0 <==> out == Err::<Uint256, ArithmeticError>(ArithmeticError::DivisionByZero),
            rhs@ != 0 <==> out is Ok,
            out matches Ok(quotient) ==> quotient@ == self@ / rhs@,
    {
        if rhs.is_zero() {
            Err(ArithmeticError::DivisionByZero)
        } else {
            let (quotient, _) = div_rem(&self, &rhs);
            proof {
                quotient.lemma_from_nat_of_view();
            }
            Ok(quotient)
        }
    }
}

impl RemSpecImpl for Uint256 {
    open spec fn obeys_rem_spec() -> bool {
        true
    }

    open spec fn rem_req(self, rhs: Uint256) -> bool {
        true
    }

    /// The remainder of the division, or the failure for a zero divisor.
    open spec fn rem_spec(self, rhs: Uint256) -> Result<Uint256, ArithmeticError> {
        if rhs@ == 0 {
            Err(ArithmeticError::DivisionByZero)
        } else {
            Ok(Uint256::from_nat(self@ % rhs@))
        }
    }
}

impl Rem for Uint256 {
    type Output = Result<Uint256, ArithmeticError>;

    /// The remainder of integer division. A zero divisor gives
    /// `DivisionByZero` and nothing else does.
    fn rem(self, rhs: Uint256) -> (out: Result<Uint256, ArithmeticError>)
        ensures
            rhs@ == 0 <==> out == Err::<Uint256, ArithmeticError>(ArithmeticError::DivisionByZero),
            rhs@ != 0 <==> out is Ok,
            out matches Ok(remainder) ==> remainder@ == self@ % rhs@,
    {
        if rhs.is_zero() {
            Err(ArithmeticError::DivisionByZero)
        } else {
            let (_, remainder) = div_rem(&self, &rhs);
            proof {
                remainder.lemma_from_nat_of_view();
            }
            Ok(remainder)
        }
    }
}

} // verus!
