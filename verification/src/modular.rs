//! Facts about sums, differences and products taken modulo a positive number.

use vstd::arithmetic::div_mod::{lemma_fundamental_div_mod, lemma_fundamental_div_mod_converse};
use vstd::prelude::*;

verus! {

/// A number from `-m` up to `2m` is reduced modulo `m` by at most one step.
pub proof fn lemma_mod_one_step(x: int, m: int)
    requires
        0 < m,
        -m <= x < 2 * m,
    ensures
        x % m == (if x < 0 {
            x + m
        } else if x < m {
            x
        } else {
            x - m
        }),
{
    if x < 0 {
        lemma_fundamental_div_mod_converse(x, m, -1, x + m);
    } else if x < m {
        lemma_fundamental_div_mod_converse(x, m, 0, x);
    } else {
        lemma_fundamental_div_mod_converse(x, m, 1, x - m);
    }
}

/// Sums modulo `m` may be grouped either way.
pub proof fn lemma_mod_add_associative(a: nat, b: nat, c: nat, m: nat)
    requires
        a < m,
        b < m,
        c < m,
    ensures
        (((a + b) % m) + c) % m == (a + ((b + c) % m)) % m,
{
    lemma_mod_one_step((a + b) as int, m as int);
    lemma_mod_one_step((b + c) as int, m as int);
    lemma_mod_one_step((((a + b) % m) + c) as int, m as int);
    lemma_mod_one_step((a + ((b + c) % m)) as int, m as int);
}

/// Modulo `m`, taking `b` away after adding it gives the number back.
pub proof fn lemma_mod_add_then_sub(a: nat, b: nat, m: nat)
    requires
        a < m,
        b < m,
    ensures
        (((a + b) % m) - b) % (m as int) == a,
{
    lemma_mod_one_step((a + b) as int, m as int);
    lemma_mod_one_step(((a + b) % m) - b, m as int);
}

/// Modulo `m`, adding `b` after taking it away gives the number back.
pub proof fn lemma_mod_sub_then_add(a: nat, b: nat, m: nat)
    requires
        a < m,
        b < m,
    ensures
        0 <= (a - b) % (m as int) < m,
        (((a - b) % (m as int)) + b) % (m as int) == a,
{
    lemma_mod_one_step(a - b, m as int);
    lemma_mod_one_step(((a - b) % (m as int)) + b, m as int);
}

/// Quotient times divisor plus remainder is the dividend, and below `m`
/// nothing on the way is reduced.
pub proof fn lemma_mod_recompose(a: nat, b: nat, m: nat)
    requires
        a < m,
        0 < b,
    ensures
        a / b < m,
        a % b < b,
        a % b < m,
        ((a / b) * b) % m == (a / b) * b,
        (((a / b) * b) % m + a % b) % m == a,
        (a / b) * b + a % b == a,
{
    let q = a / b;
    let r = a % b;
    lemma_fundamental_div_mod(a as int, b as int);
    assert(q * b == b * q) by (nonlinear_arith);
    assert(q <= q * b) by (nonlinear_arith)
        requires
            0 <= q,
            1 <= b,
    ;
    lemma_mod_one_step((q * b) as int, m as int);
    lemma_mod_one_step((q * b + r) as int, m as int);
}

} // verus!
