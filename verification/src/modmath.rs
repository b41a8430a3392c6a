//! Facts about remainders that the limb arithmetic and the field laws use.

use vstd::arithmetic::div_mod::{lemma_fundamental_div_mod, lemma_fundamental_div_mod_converse, lemma_mod_bound};
use vstd::prelude::*;

verus! {

/// A value written as `q * m + r` with `0 <= r < m` has remainder `r`.
pub proof fn lemma_mod_of(x: int, m: int, q: int, r: int)
    requires
        m > 0,
        0 <= r < m,
        x == q * m + r,
    ensures
        x % m == r,
{
    lemma_fundamental_div_mod_converse(x, m, q, r);
}

/// Values that differ by a multiple of `m` have the same remainder.
pub proof fn lemma_mod_shift(x: int, y: int, k: int, m: int)
    requires
        m > 0,
        x == y + k * m,
    ensures
        x % m == y % m,
{
    lemma_fundamental_div_mod(y, m);
    lemma_mod_bound(y, m);
    let q = y / m;
    assert(x == (q + k) * m + y % m) by (nonlinear_arith)
        requires
            x == y + k * m,
            y == m * q + y % m,
    ;
    lemma_fundamental_div_mod_converse(x, m, q + k, y % m);
}

/// Reducing one factor before a product does not change the remainder.
pub proof fn lemma_mul_mod_left(x: int, y: int, m: int)
    requires
        m > 0,
    ensures
        ((x % m) * y) % m == (x * y) % m,
{
    lemma_fundamental_div_mod(x, m);
    let q = x / m;
    assert(x * y == (x % m) * y + (q * y) * m) by (nonlinear_arith)
        requires
            x == m * q + x % m,
    ;
    lemma_mod_shift(x * y, (x % m) * y, q * y, m);
}

/// Reducing the other factor before a product does not change the remainder.
pub proof fn lemma_mul_mod_right(x: int, y: int, m: int)
    requires
        m > 0,
    ensures
        (x * (y % m)) % m == (x * y) % m,
{
    lemma_mul_mod_left(y, x, m);
    assert(x * (y % m) == (y % m) * x) by (nonlinear_arith);
    assert(x * y == y * x) by (nonlinear_arith);
}

/// Reducing one summand before a sum does not change the remainder.
pub proof fn lemma_add_mod_left(x: int, y: int, m: int)
    requires
        m > 0,
    ensures
        ((x % m) + y) % m == (x + y) % m,
{
    lemma_fundamental_div_mod(x, m);
    let q = x / m;
    assert(x + y == (x % m) + y + q * m) by (nonlinear_arith)
        requires
            x == m * q + x % m,
    ;
    lemma_mod_shift(x + y, (x % m) + y, q, m);
}

/// A product of two bounded non-negative factors is bounded by the product of the bounds.
pub proof fn lemma_mul_bound(x: int, y: int, bx: int, by: int)
    requires
        0 <= x <= bx,
        0 <= y <= by,
    ensures
        0 <= x * y <= bx * by,
{
    assert(0 <= x * y <= bx * by) by (nonlinear_arith)
        requires
            0 <= x <= bx,
            0 <= y <= by,
    ;
}

/// The power `a^e` modulo `m`: the product of `e` factors `a`, reduced.
pub open spec fn pow_mod(a: int, e: nat, m: int) -> int
    decreases e,
{
    if e == 0 {
        1int % m
    } else {
        (a * pow_mod(a, (e - 1) as nat, m)) % m
    }
}

/// A power is a reduced residue.
pub proof fn lemma_pow_reduced(a: int, e: nat, m: int)
    requires
        m > 0,
    ensures
        0 <= pow_mod(a, e, m) < m,
{
    if e == 0 {
        lemma_mod_bound(1, m);
    } else {
        lemma_mod_bound(a * pow_mod(a, (e - 1) as nat, m), m);
    }
}

/// Exponents add up: `a^(x + y) = a^x * a^y`.
pub proof fn lemma_pow_adds(a: int, x: nat, y: nat, m: int)
    requires
        m > 0,
    ensures
        pow_mod(a, x + y, m) == (pow_mod(a, x, m) * pow_mod(a, y, m)) % m,
    decreases x,
{
    let py = pow_mod(a, y, m);
    lemma_pow_reduced(a, y, m);
    if x == 0 {
        lemma_mul_mod_left(1, py, m);
        lemma_mod_of(1 * py, m, 0, py);
        assert(x + y == y);
    } else {
        let px = pow_mod(a, (x - 1) as nat, m);
        lemma_pow_adds(a, (x - 1) as nat, y, m);
        assert(((x + y) - 1) as nat == (x - 1) as nat + y);
        lemma_mul_mod_right(a, px * py, m);
        lemma_mul_mod_left(a * px, py, m);
        assert(a * (px * py) == (a * px) * py) by (nonlinear_arith);
    }
}

/// Whether `u` is a reduced multiplicative inverse of `a` modulo `m`.
pub open spec fn is_inverse(a: int, u: int, m: int) -> bool {
    0 <= u < m && (a * u) % m == 1
}

/// A reduced value has at most one reduced inverse.
pub proof fn lemma_inverse_unique(a: int, u: int, v: int, m: int)
    requires
        m > 1,
        is_inverse(a, u, m),
        is_inverse(a, v, m),
    ensures
        u == v,
{
    // u = u * (a * v) = (u * a) * v = v, all modulo m
    lemma_mul_mod_right(u, a * v, m);
    lemma_mul_mod_left(a * u, v, m);
    assert(u * (a * v) == (a * u) * v) by (nonlinear_arith);
    lemma_mod_of(u * 1, m, 0, u);
    lemma_mod_of(1 * v, m, 0, v);
}

/// Whether two integers leave the same remainder.
pub open spec fn cong(a: int, b: int, m: int) -> bool {
    a % m == b % m
}

/// A remainder is congruent to what it is the remainder of.
pub proof fn lemma_cong_mod(a: int, m: int)
    requires
        m > 0,
    ensures
        cong(a % m, a, m),
{
    lemma_mod_bound(a, m);
    lemma_mod_of(a % m, m, 0, a % m);
}

/// Congruent integers differ by a multiple of the modulus.
pub proof fn lemma_cong_gap(a: int, b: int, m: int)
    requires
        m > 0,
        cong(a, b, m),
    ensures
        a == b + (a / m - b / m) * m,
{
    lemma_fundamental_div_mod(a, m);
    lemma_fundamental_div_mod(b, m);
    assert(a == b + (a / m - b / m) * m) by (nonlinear_arith)
        requires
            a == m * (a / m) + a % m,
            b == m * (b / m) + b % m,
            a % m == b % m,
    ;
}

/// Products of congruent factors are congruent.
pub proof fn lemma_cong_mul(a: int, a2: int, b: int, b2: int, m: int)
    requires
        m > 0,
        cong(a, a2, m),
        cong(b, b2, m),
    ensures
        cong(a * b, a2 * b2, m),
{
    lemma_cong_gap(a, a2, m);
    lemma_cong_gap(b, b2, m);
    let k1 = a / m - a2 / m;
    let k2 = b / m - b2 / m;
    assert(a * b == a2 * b2 + (k1 * b + a2 * k2) * m) by (nonlinear_arith)
        requires
            a == a2 + k1 * m,
            b == b2 + k2 * m,
    ;
    lemma_mod_shift(a * b, a2 * b2, k1 * b + a2 * k2, m);
}

/// Sums of congruent summands are congruent.
pub proof fn lemma_cong_add(a: int, a2: int, b: int, b2: int, m: int)
    requires
        m > 0,
        cong(a, a2, m),
        cong(b, b2, m),
    ensures
        cong(a + b, a2 + b2, m),
        cong(a - b, a2 - b2, m),
{
    lemma_cong_gap(a, a2, m);
    lemma_cong_gap(b, b2, m);
    let k1 = a / m - a2 / m;
    let k2 = b / m - b2 / m;
    assert(a + b == a2 + b2 + (k1 + k2) * m) by (nonlinear_arith)
        requires
            a == a2 + k1 * m,
            b == b2 + k2 * m,
    ;
    assert(a - b == a2 - b2 + (k1 - k2) * m) by (nonlinear_arith)
        requires
            a == a2 + k1 * m,
            b == b2 + k2 * m,
    ;
    lemma_mod_shift(a + b, a2 + b2, k1 + k2, m);
    lemma_mod_shift(a - b, a2 - b2, k1 - k2, m);
}

/// Congruent reduced residues are equal.
pub proof fn lemma_cong_reduced(a: int, b: int, m: int)
    requires
        m > 0,
        0 <= a < m,
        0 <= b < m,
        cong(a, b, m),
    ensures
        a == b,
{
    lemma_mod_of(a, m, 0, a);
    lemma_mod_of(b, m, 0, b);
}

} // verus!
