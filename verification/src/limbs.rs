//! Positional arithmetic on sequences of 64-bit limbs: the weights of the
//! limb positions and the value of a prefix of a limb sequence.

use vstd::prelude::*;

verus! {

/// 2^64, the weight of one limb position.
pub open spec fn limb_base() -> nat {
    0x1_0000_0000_0000_0000
}

/// 2^256, the number of values a `Uint256` can take.
pub open spec fn modulus() -> nat {
    0x1_0000_0000_0000_0000_0000_0000_0000_0000_0000_0000_0000_0000_0000_0000_0000_0000nat
}

/// What a carry or a borrow counts for: `weight` if it is set, nothing if not.
pub open spec fn carried(flag: bool, weight: nat) -> nat {
    if flag {
        weight
    } else {
        0
    }
}

/// `limb_base()` raised to the power `k`: the weight of limb position `k`.
pub open spec fn pow_base(k: nat) -> nat
    decreases k,
{
    if k == 0 {
        1
    } else {
        limb_base() * pow_base((k - 1) as nat)
    }
}

/// The number denoted by the first `k` limbs of `limbs`, least significant first.
pub open spec fn prefix_value(limbs: Seq<u64>, k: nat) -> nat
    decreases k,
{
    if k == 0 {
        0
    } else {
        prefix_value(limbs, (k - 1) as nat) + (limbs[k - 1] as nat) * pow_base((k - 1) as nat)
    }
}

/// The weights of the five positions that a four-limb computation meets.
pub proof fn lemma_pow_base_values()
    ensures
        pow_base(0) == 1,
        pow_base(1) == 0x1_0000_0000_0000_0000,
        pow_base(2) == 0x1_0000_0000_0000_0000_0000_0000_0000_0000nat,
        pow_base(3) == 0x1_0000_0000_0000_0000_0000_0000_0000_0000_0000_0000_0000_0000nat,
        pow_base(4) == modulus(),
{
    reveal_with_fuel(pow_base, 5);
}

/// Weights multiply as their positions add.
pub proof fn lemma_pow_base_add(i: nat, j: nat)
    ensures
        pow_base(i + j) == pow_base(i) * pow_base(j),
    decreases j,
{
    if j == 0 {
        assert(pow_base(i) * 1 == pow_base(i)) by (nonlinear_arith);
    } else {
        lemma_pow_base_add(i, (j - 1) as nat);
        let pi = pow_base(i);
        let pj = pow_base((j - 1) as nat);
        assert(limb_base() * (pi * pj) == pi * (limb_base() * pj)) by (nonlinear_arith);
        assert(pow_base(i + j) == limb_base() * pow_base((i + j - 1) as nat));
    }
}

/// Writing limb `at` leaves shorter prefixes alone and moves longer ones by
/// the difference of the limbs, weighted by the position.
pub proof fn lemma_prefix_value_update(limbs: Seq<u64>, at: nat, limb: u64, k: nat)
    requires
        at < limbs.len(),
        k <= limbs.len(),
    ensures
        k <= at ==> prefix_value(limbs.update(at as int, limb), k) == prefix_value(limbs, k),
        k > at ==> prefix_value(limbs.update(at as int, limb), k) == prefix_value(limbs, k) + (limb
            - limbs[at as int]) * pow_base(at),
    decreases k,
{
    if k > 0 {
        lemma_prefix_value_update(limbs, at, limb, (k - 1) as nat);
        if k - 1 == at {
            let p = pow_base(at);
            let old_limb = limbs[at as int] as int;
            assert(limb * p == old_limb * p + (limb - old_limb) * p) by (nonlinear_arith);
        }
    }
}

/// The number denoted by limbs `from` up to `to`, with limb `from` at weight one.
pub open spec fn upper_value(limbs: Seq<u64>, from: nat, to: nat) -> nat
    decreases to,
{
    if to <= from {
        0
    } else {
        upper_value(limbs, from, (to - 1) as nat) + (limbs[to - 1] as nat) * pow_base(
            (to - 1 - from) as nat,
        )
    }
}

/// A prefix splits at any position into a shorter prefix and the limbs
/// above it, which weigh as much as the position.
pub proof fn lemma_prefix_value_split(limbs: Seq<u64>, at: nat, k: nat)
    requires
        at <= k,
    ensures
        prefix_value(limbs, k) == prefix_value(limbs, at) + pow_base(at) * upper_value(
            limbs,
            at,
            k,
        ),
    decreases k,
{
    if k == at {
        assert(pow_base(at) * 0 == 0) by (nonlinear_arith);
    } else {
        lemma_prefix_value_split(limbs, at, (k - 1) as nat);
        lemma_pow_base_add(at, (k - 1 - at) as nat);
        let limb = limbs[k - 1] as nat;
        let low = pow_base(at);
        let high = pow_base((k - 1 - at) as nat);
        let rest = upper_value(limbs, at, (k - 1) as nat);
        assert(low * (rest + limb * high) == low * rest + limb * (low * high))
            by (nonlinear_arith);
    }
}

/// The four-limb prefix written out position by position.
pub proof fn lemma_prefix_value_four(limbs: Seq<u64>)
    requires
        limbs.len() == 4,
    ensures
        prefix_value(limbs, 4) == limbs[0] + limbs[1] * 0x1_0000_0000_0000_0000 + limbs[2]
            * 0x1_0000_0000_0000_0000_0000_0000_0000_0000nat + limbs[3]
            * 0x1_0000_0000_0000_0000_0000_0000_0000_0000_0000_0000_0000_0000nat,
{
    lemma_pow_base_values();
    assert(prefix_value(limbs, 0) == 0);
    assert(prefix_value(limbs, 1) == prefix_value(limbs, 0) + (limbs[0] as nat) * 1);
    assert(prefix_value(limbs, 2) == prefix_value(limbs, 1) + (limbs[1] as nat)
        * 0x1_0000_0000_0000_0000);
    assert(prefix_value(limbs, 3) == prefix_value(limbs, 2) + (limbs[2] as nat)
        * 0x1_0000_0000_0000_0000_0000_0000_0000_0000nat);
    assert(prefix_value(limbs, 4) == prefix_value(limbs, 3) + (limbs[3] as nat)
        * 0x1_0000_0000_0000_0000_0000_0000_0000_0000_0000_0000_0000_0000nat);
}

} // verus!
