use uint256::Uint256;

#[test]
fn named_values_have_their_limbs() {
    assert_eq!(Uint256::zero().0, [0, 0, 0, 0]);
    assert_eq!(Uint256::one().0, [1, 0, 0, 0]);
    assert_eq!(Uint256::two().0, [2, 0, 0, 0]);
    assert_eq!(Uint256::max_value().0, [u64::MAX, u64::MAX, u64::MAX, u64::MAX]);
}

#[test]
fn from_limbs_keeps_the_limbs() {
    assert_eq!(Uint256::from_limbs([1, 2, 3, 4]).0, [1, 2, 3, 4]);
    assert_eq!(Uint256::from_limbs([0, 0, 0, 0]), Uint256::zero());
    assert_eq!(Uint256::from_limbs([9, 8, 7, 6]), Uint256([9, 8, 7, 6]));
}

#[test]
fn is_zero_looks_at_every_limb() {
    assert!(Uint256::zero().is_zero());
    assert!(Uint256([0, 0, 0, 0]).is_zero());
    assert!(!Uint256([1, 0, 0, 0]).is_zero());
    assert!(!Uint256([0, 1, 0, 0]).is_zero());
    assert!(!Uint256([0, 0, 1, 0]).is_zero());
    assert!(!Uint256([0, 0, 0, 1]).is_zero());
    assert!(!Uint256::max_value().is_zero());
}

#[test]
fn set_zero_resets_in_place() {
    let mut x = Uint256([1, 2, 3, 4]);
    x.set_zero();
    assert_eq!(x, Uint256::zero());
    assert!(x.is_zero());
    let mut y = Uint256::zero();
    y.set_zero();
    assert_eq!(y.0, [0, 0, 0, 0]);
}

#[test]
fn equality_compares_limb_by_limb() {
    assert_eq!(Uint256([1, 2, 3, 4]), Uint256([1, 2, 3, 4]));
    assert_ne!(Uint256([1, 2, 3, 4]), Uint256([0, 2, 3, 4]));
    assert_ne!(Uint256([1, 2, 3, 4]), Uint256([1, 0, 3, 4]));
    assert_ne!(Uint256([1, 2, 3, 4]), Uint256([1, 2, 0, 4]));
    assert_ne!(Uint256([1, 2, 3, 4]), Uint256([1, 2, 3, 0]));
    assert_ne!(Uint256([1, 0, 0, 0]), Uint256([0, 0, 0, 1]));
}

#[test]
fn values_are_copied() {
    let a = Uint256([5, 6, 7, 8]);
    let mut b = a;
    b.set_zero();
    assert_eq!(a, Uint256([5, 6, 7, 8]));
    assert_eq!(b, Uint256::zero());
}
