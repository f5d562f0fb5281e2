use uint256::{ArithmeticError, Uint256};

const A: Uint256 = Uint256([
    0x8796a5b4c3d2e1f0,
    0x0f1e2d3c4b5a6978,
    0xfedcba9876543210,
    0x0123456789abcdef,
]);
const B: Uint256 = Uint256([
    0xffffffff00000001,
    0x00000000ffffffff,
    0x0123456789abcdef,
    0xdeadbeefcafebabe,
]);
const C: Uint256 = Uint256([0x1234, u64::MAX, 7, 0x8000_0000_0000_0000]);

#[test]
fn test_add() {
    let a = Uint256([1, 0, 0, 0]);
    let b = Uint256([2, 0, 0, 0]);
    assert_eq!(a + b, Uint256([3, 0, 0, 0]));

    let max_u64 = Uint256([u64::MAX, 0, 0, 0]);
    let one = Uint256([1, 0, 0, 0]);
    assert_eq!(max_u64 + one, Uint256([0, 1, 0, 0]));

    let almost_max = Uint256([u64::MAX - 1, u64::MAX, u64::MAX, u64::MAX]);
    let one = Uint256::one();
    assert_eq!(almost_max + one, Uint256::max_value());

    assert_eq!(Uint256::max_value() + Uint256::one(), Uint256::zero());
    assert_eq!(Uint256::max_value() + Uint256::zero(), Uint256::max_value());
}

#[test]
fn add_exact_value() {
    assert_eq!(
        A + B,
        Uint256([
            0x8796a5b3c3d2e1f1,
            0x0f1e2d3d4b5a6978,
            0xffffffffffffffff,
            0xdfd1045754aa88ad
        ])
    );
}

#[test]
fn add_carry_runs_through_every_limb() {
    assert_eq!(
        Uint256([u64::MAX, u64::MAX, u64::MAX, 0]) + Uint256::one(),
        Uint256([0, 0, 0, 1])
    );
    assert_eq!(
        Uint256([u64::MAX, u64::MAX, 0, 0]) + Uint256([1, 0, u64::MAX, 0]),
        Uint256([0, 0, 0, 1])
    );
}

#[test]
fn add_is_commutative_on_samples() {
    assert_eq!(A + B, B + A);
    assert_eq!(A + C, C + A);
    assert_eq!(Uint256::max_value() + C, C + Uint256::max_value());
}

#[test]
fn add_is_associative_on_samples() {
    assert_eq!((A + B) + C, A + (B + C));
    assert_eq!(
        (Uint256::max_value() + Uint256::max_value()) + C,
        Uint256::max_value() + (Uint256::max_value() + C)
    );
}

#[test]
fn add_zero_is_identity() {
    assert_eq!(A + Uint256::zero(), A);
    assert_eq!(Uint256::zero() + B, B);
    assert_eq!(Uint256::zero() + Uint256::zero(), Uint256::zero());
}

#[test]
fn sub_exact_values() {
    assert_eq!(
        A - B,
        Uint256([
            0x8796a5b5c3d2e1ef,
            0x0f1e2d3b4b5a6978,
            0xfdb97530eca86421,
            0x22758677bead1331
        ])
    );
    assert_eq!(
        B - A,
        Uint256([
            0x78695a4a3c2d1e11,
            0xf0e1d2c4b4a59687,
            0x02468acf13579bde,
            0xdd8a79884152ecce
        ])
    );
    assert_eq!(Uint256([5, 0, 0, 0]) - Uint256([3, 0, 0, 0]), Uint256([2, 0, 0, 0]));
}

#[test]
fn sub_wraps_below_zero() {
    assert_eq!(Uint256::zero() - Uint256::one(), Uint256::max_value());
    assert_eq!(
        Uint256([0, 0, 0, 1]) - Uint256::one(),
        Uint256([u64::MAX, u64::MAX, u64::MAX, 0])
    );
    assert_eq!(A - A, Uint256::zero());
}

#[test]
fn sub_undoes_add_on_samples() {
    assert_eq!((A + B) - B, A);
    assert_eq!((B + A) - A, B);
    assert_eq!((Uint256::max_value() + C) - C, Uint256::max_value());
    assert_eq!((A - B) + B, A);
}

#[test]
fn mul_exact_values() {
    assert_eq!(
        A * B,
        Uint256([
            0xc3c3c3c4c3d2e1f0,
            0x8796a5b3c3c3c3c3,
            0xed52a6e9faeac998,
            0x8b6f044bed6a7a55
        ])
    );
    assert_eq!(Uint256([3, 0, 0, 0]) * Uint256([5, 0, 0, 0]), Uint256([15, 0, 0, 0]));
    assert_eq!(
        Uint256([u64::MAX, u64::MAX, 0, 0]) * Uint256([u64::MAX, u64::MAX, 0, 0]),
        Uint256([1, 0, 0xfffffffffffffffe, u64::MAX])
    );
}

#[test]
fn mul_drops_what_leaves_the_top_limb() {
    assert_eq!(Uint256::max_value() * Uint256::max_value(), Uint256::one());
    assert_eq!(
        A * Uint256([0, 0, 0, 0xff]),
        Uint256([0, 0, 0, 0x0f0f0f0f0f0f0e10])
    );
    assert_eq!(Uint256([0, 0, 1, 0]) * Uint256([0, 0, 1, 0]), Uint256::zero());
    assert_eq!(Uint256::max_value() * Uint256::two(), Uint256::max_value() - Uint256::one());
}

#[test]
fn mul_by_zero_and_one() {
    assert_eq!(A * Uint256::zero(), Uint256::zero());
    assert_eq!(Uint256::zero() * A, Uint256::zero());
    assert_eq!(A * Uint256::one(), A);
    assert_eq!(Uint256::one() * A, A);
    assert_eq!(A * B, B * A);
}

#[test]
fn div_and_rem_exact_values() {
    assert_eq!(B / A, Ok(Uint256([0xc3, 0, 0, 0])));
    assert_eq!(
        B % A,
        Ok(Uint256([
            0xb83fc74dd65de631,
            0x7c038b139a21a930,
            0xdf0123456789abb3,
            0x00cfe111ed20dcee
        ]))
    );
    let d = Uint256([1, 1, 0, 0]);
    assert_eq!(
        A / d,
        Ok(Uint256([0x1164b80b5eb20558, 0xfdb97530eca86420, 0x0123456789abcdef, 0]))
    );
    assert_eq!(A % d, Ok(Uint256([0x7631eda96520dc98, 0, 0, 0])));
    assert_eq!(Uint256([17, 0, 0, 0]) / Uint256([5, 0, 0, 0]), Ok(Uint256([3, 0, 0, 0])));
    assert_eq!(Uint256([17, 0, 0, 0]) % Uint256([5, 0, 0, 0]), Ok(Uint256([2, 0, 0, 0])));
}

#[test]
fn div_and_rem_at_the_edges() {
    let max = Uint256::max_value();
    assert_eq!(A / B, Ok(Uint256::zero()));
    assert_eq!(A % B, Ok(A));
    assert_eq!(A / A, Ok(Uint256::one()));
    assert_eq!(A % A, Ok(Uint256::zero()));
    assert_eq!(A / Uint256::one(), Ok(A));
    assert_eq!(A % Uint256::one(), Ok(Uint256::zero()));
    assert_eq!(Uint256::zero() / A, Ok(Uint256::zero()));
    assert_eq!(Uint256::zero() % A, Ok(Uint256::zero()));
    assert_eq!(
        max / Uint256([3, 0, 0, 0]),
        Ok(Uint256([0x5555555555555555; 4]))
    );
    assert_eq!(max % Uint256([3, 0, 0, 0]), Ok(Uint256::zero()));
    let top_bit = Uint256([0, 0, 0, 0x8000_0000_0000_0000]);
    assert_eq!(max / top_bit, Ok(Uint256::one()));
    assert_eq!(
        max % top_bit,
        Ok(Uint256([u64::MAX, u64::MAX, u64::MAX, 0x7fff_ffff_ffff_ffff]))
    );
    let below_max = Uint256([u64::MAX - 1, u64::MAX, u64::MAX, u64::MAX]);
    assert_eq!(max / below_max, Ok(Uint256::one()));
    assert_eq!(max % below_max, Ok(Uint256::one()));
    assert_eq!(below_max / max, Ok(Uint256::zero()));
    assert_eq!(below_max % max, Ok(below_max));
}

#[test]
fn division_by_zero_is_an_error() {
    assert_eq!(A / Uint256::zero(), Err(ArithmeticError::DivisionByZero));
    assert_eq!(A % Uint256::zero(), Err(ArithmeticError::DivisionByZero));
    assert_eq!(Uint256::zero() / Uint256::zero(), Err(ArithmeticError::DivisionByZero));
    assert_eq!(Uint256::zero() % Uint256([0, 0, 0, 0]), Err(ArithmeticError::DivisionByZero));
}

#[test]
fn quotient_and_remainder_recompose_on_samples() {
    let pairs = [(A, B), (B, A), (A, C), (C, B), (Uint256::max_value(), Uint256([7, 0, 0, 0]))];
    for (a, b) in pairs {
        let q = (a / b).unwrap();
        let r = (a % b).unwrap();
        assert_eq!(q * b + r, a);
        assert_eq!((a - r) / b, Ok(q));
    }
}
