//! Greatest common divisors and the arithmetic behind a full-period
//! traversal: stepping through the residues modulo `n` by a stride that is
//! coprime to `n` visits each residue exactly once before it comes back to
//! where it began.

use vstd::prelude::*;
use vstd::arithmetic::div_mod::*;
use vstd::arithmetic::mul::*;

verus! {

/// The greatest common divisor of two naturals, by Euclid's recursion.
/// `gcd(a, 0) == a`, so `gcd(0, 0) == 0`.
pub open spec fn gcd(a: nat, b: nat) -> nat
    decreases b,
{
    if b == 0 {
        a
    } else {
        gcd(b, a % b)
    }
}

/// The residue reached after `k` steps of stride `step` from `first`,
/// modulo `n`.
pub open spec fn residue_at(n: int, first: int, step: int, k: int) -> int {
    (first + k * step) % n
}

/// Bezout's identity: the greatest common divisor of `a` and `b` is an
/// integer combination of the two.
pub proof fn lemma_bezout(a: nat, b: nat) -> (c: (int, int))
    ensures
        c.0 * a + c.1 * b == gcd(a, b),
    decreases b,
{
    if b == 0 {
        (1, 0)
    } else {
        let r = lemma_bezout(b, a % b);
        let q: int = (a / b) as int;
        let m: int = (a % b) as int;
        lemma_fundamental_div_mod(a as int, b as int);
        assert(a == b * q + m);
        // r.0 * b + r.1 * m == gcd, and m == a - b * q
        assert(r.1 * m == r.1 * a - r.1 * (b * q)) by {
            lemma_mul_is_distributive_sub(r.1, a as int, b * q);
        }
        assert(r.1 * (b * q) == (r.1 * q) * b) by {
            lemma_mul_is_associative(r.1, b as int, q);
            lemma_mul_is_commutative(b as int, q);
            lemma_mul_is_associative(r.1, q, b as int);
        }
        assert((r.0 - r.1 * q) * b == r.0 * b - (r.1 * q) * b) by {
            lemma_mul_is_distributive_sub_other_way(b as int, r.0, r.1 * q);
        }
        (r.1, r.0 - r.1 * q)
    }
}

/// A positive number and its predecessor share no divisor but 1.
pub proof fn lemma_predecessor_is_coprime(n: nat)
    requires
        n >= 1,
    ensures
        gcd(n, (n - 1) as nat) == 1,
{
    if n == 1 {
        assert(gcd(1, 0) == 1);
    } else if n == 2 {
        assert(2nat % 1nat == 0);
        assert(gcd(1, 0) == 1);
        assert(gcd(2, 1) == gcd(1, 2nat % 1nat));
    } else {
        let m: nat = (n - 1) as nat;
        assert(n % m == 1) by {
            lemma_fundamental_div_mod_converse(n as int, m as int, 1, 1);
        }
        assert(m % 1 == 0);
        assert(gcd(1, 0) == 1);
        assert(gcd(m, 1) == gcd(1, m % 1));
        assert(gcd(n, m) == gcd(m, n % m));
    }
}

/// With a stride coprime to `n`, only the multiples of `n` are carried to
/// zero: if `k * step` is a multiple of `n`, so is `k`.
pub proof fn lemma_coprime_cancels(n: nat, step: nat, k: int)
    requires
        n > 0,
        gcd(n, step) == 1,
        (k * step) % (n as int) == 0,
    ensures
        k % (n as int) == 0,
{
    let c = lemma_bezout(n, step);
    let ni: int = n as int;
    let si: int = step as int;
    let q: int = (k * si) / ni;
    lemma_fundamental_div_mod(k * si, ni);
    assert(k * si == ni * q);
    assert(c.0 * ni + c.1 * si == 1);
    assert(k == k * (c.0 * ni + c.1 * si)) by {
        lemma_mul_basics(k);
    }
    assert(k * (c.0 * ni + c.1 * si) == k * (c.0 * ni) + k * (c.1 * si)) by {
        lemma_mul_is_distributive_add(k, c.0 * ni, c.1 * si);
    }
    assert(k * (c.0 * ni) == (k * c.0) * ni) by {
        lemma_mul_is_associative(k, c.0, ni);
    }
    assert(k * (c.1 * si) == c.1 * (ni * q)) by {
        lemma_mul_is_commutative(c.1, si);
        lemma_mul_is_associative(k, si, c.1);
        lemma_mul_is_commutative(k * si, c.1);
    }
    assert(c.1 * (ni * q) == (c.1 * q) * ni) by {
        lemma_mul_is_commutative(ni, q);
        lemma_mul_is_associative(c.1, q, ni);
    }
    assert(k == (k * c.0 + c.1 * q) * ni) by {
        lemma_mul_is_distributive_add_other_way(ni, k * c.0, c.1 * q);
    }
    lemma_mod_multiples_basic(k * c.0 + c.1 * q, ni);
}

/// Two different step counts below `n` reach two different residues.
pub proof fn lemma_steps_are_distinct(n: nat, first: int, step: nat, i: int, j: int)
    requires
        n > 0,
        gcd(n, step) == 1,
        0 <= i < j < n,
    ensures
        residue_at(n as int, first, step as int, i) != residue_at(n as int, first, step as int, j),
{
    let ni: int = n as int;
    let si: int = step as int;
    if residue_at(ni, first, si, i) == residue_at(ni, first, si, j) {
        lemma_mod_equivalence(first + j * si, first + i * si, ni);
        assert((first + j * si) - (first + i * si) == (j - i) * si) by {
            lemma_mul_is_distributive_sub_other_way(si, j, i);
        }
        lemma_coprime_cancels(n, step, j - i);
        lemma_small_mod((j - i) as nat, n);
        assert(false);
    }
}

/// Every residue below `n` is reached by some step count below `n`.
pub proof fn lemma_every_residue_is_reached(n: nat, first: int, step: nat, target: int) -> (k: int)
    requires
        n > 0,
        gcd(n, step) == 1,
        0 <= target < n,
    ensures
        0 <= k < n,
        residue_at(n as int, first, step as int, k) == target,
{
    let c = lemma_bezout(n, step);
    let ni: int = n as int;
    let si: int = step as int;
    let d: int = target - first;
    let k: int = (d * c.1) % ni;
    lemma_mod_bound(d * c.1, ni);
    // k * step is congruent to d * c.1 * step
    assert((k * si) % ni == ((d * c.1) * si) % ni) by {
        lemma_mul_mod_noop_left(d * c.1, si, ni);
    }
    // c.1 * step == 1 - c.0 * n
    assert((d * c.1) * si == d * (c.1 * si)) by {
        lemma_mul_is_associative(d, c.1, si);
    }
    assert(c.1 * si == 1 - c.0 * ni);
    assert(d * (1 - c.0 * ni) == d - d * (c.0 * ni)) by {
        lemma_mul_is_distributive_sub(d, 1, c.0 * ni);
        lemma_mul_basics(d);
    }
    assert(d * (c.0 * ni) == ni * (d * c.0)) by {
        lemma_mul_is_associative(d, c.0, ni);
        lemma_mul_is_commutative(d * c.0, ni);
    }
    assert((d * c.1) * si == ni * (-(d * c.0)) + d) by {
        lemma_mul_unary_negation(ni, d * c.0);
    }
    assert(((d * c.1) * si) % ni == d % ni) by {
        lemma_mod_multiples_vanish(-(d * c.0), d, ni);
    }
    // first + k * step is congruent to first + d == target
    assert((first + k * si) % ni == (first + d) % ni) by {
        lemma_add_mod_noop_right(first, k * si, ni);
        lemma_add_mod_noop_right(first, d, ni);
    }
    lemma_small_mod(target as nat, n);
    k
}

/// After `n` steps the traversal is back at the residue where it began.
pub proof fn lemma_period_returns(n: nat, first: int, step: nat)
    requires
        n > 0,
        0 <= first < n,
    ensures
        residue_at(n as int, first, step as int, n as int) == first,
{
    lemma_mod_multiples_vanish(step as int, first, n as int);
    lemma_small_mod(first as nat, n);
}

} // verus!
