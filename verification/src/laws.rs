//! Laws of the group operations, stated over the points' mathematical content.

use crate::batch::{batch_affine, batch_ok, fp_inverse};
use crate::curve::{
    aff_identity, aff_on_curve, aff_to_jac, curve_rhs, decode_choice, header_of, jac_add,
    jac_chord, jac_double, jac_double_formula, jac_height, jac_identity, jac_mul, jac_neg, jac_on_curve,
    jac_same, jac_scale, jac_self_inverse, jac_to_affine, lemma_double_identity, lemma_mul_step,
    lemma_neg_square, AffPoint, JacPoint,
};
use crate::fp::{fp_add, fp_inv_candidate, fp_modulus, fp_mul, fp_neg, fp_sqrt, fp_sub};
use crate::modmath::{
    cong, is_inverse, lemma_cong_add, lemma_cong_gap, lemma_cong_mod, lemma_cong_mul,
    lemma_cong_reduced, lemma_inverse_unique, lemma_mod_of, lemma_mod_shift, lemma_mul_mod_left,
};
use vstd::arithmetic::div_mod::{lemma_fundamental_div_mod, lemma_mod_bound};
use vstd::prelude::*;

verus! {

/// Whether the three coordinates are reduced residues.
pub open spec fn jac_reduced(p: JacPoint) -> bool {
    &&& 0 <= p.x < fp_modulus()
    &&& 0 <= p.y < fp_modulus()
    &&& 0 <= p.z < fp_modulus()
}

/// Every triple stands for the same point as itself.
pub proof fn lemma_same_reflexive(p: JacPoint)
    ensures
        jac_same(p, p),
{
}

/// The identity is neutral: added on the left it gives the other operand
/// back unchanged, and added on the right it gives the same point back.
pub proof fn lemma_add_identity(p: JacPoint)
    ensures
        jac_add(jac_identity(), p) == p,
        p.z != 0 ==> jac_add(p, jac_identity()) == p,
        jac_same(jac_add(p, jac_identity()), p),
{
}

/// Negating a factor negates the product.
pub proof fn lemma_neg_mul(a: int, b: int)
    ensures
        fp_mul(fp_neg(a), b) == fp_neg(fp_mul(a, b)),
{
    let p = fp_modulus();
    let ab = a * b;
    lemma_mul_mod_left(p - a, b, p);
    assert((p - a) * b == -ab + b * p) by (nonlinear_arith)
        requires
            ab == a * b,
    ;
    lemma_mod_shift((p - a) * b, -ab, b, p);
    lemma_fundamental_div_mod(ab, p);
    lemma_mod_bound(ab, p);
    let q = ab / p;
    assert(p - ab % p == -ab + (q + 1) * p) by (nonlinear_arith)
        requires
            ab == p * q + ab % p,
    ;
    lemma_mod_shift(p - ab % p, -ab, q + 1, p);
}

/// A point and its inverse add up to the identity.
pub proof fn lemma_add_inverse(p: JacPoint)
    ensures
        jac_add(p, jac_neg(p)).z == 0,
        jac_same(jac_add(p, jac_neg(p)), jac_identity()),
{
    let m = fp_modulus();
    let q = jac_neg(p);
    if p.z != 0 {
        let zz = fp_mul(p.z, p.z);
        let s1 = fp_mul(fp_mul(p.y, p.z), zz);
        let s2 = fp_mul(fp_mul(q.y, p.z), zz);
        lemma_neg_mul(p.y, p.z);
        lemma_neg_mul(fp_mul(p.y, p.z), zz);
        assert(s2 == fp_neg(s1));
        lemma_mod_bound(fp_mul(p.y, p.z) * zz, m);
        assert(s1 == jac_height(p));
        if s1 == s2 {
            if s1 == 0 {
                assert(fp_add(s1, s1) == 0);
            } else {
                lemma_mod_of(m - s1, m, 0, m - s1);
                lemma_mod_of(s1 + s1, m, 1, 0);
            }
            assert(jac_self_inverse(p));
        }
    }
}

/// Doubling a point gives the same point as adding it to itself.
pub proof fn lemma_double_is_add(p: JacPoint)
    ensures
        jac_same(jac_add(p, p), jac_double(p)),
{
    if p.z == 0 {
        assert(p.y * p.z == 0) by (nonlinear_arith)
            requires
                p.z == 0,
        ;
        let zz = fp_mul(p.z, p.z);
        assert(0 * zz == 0) by (nonlinear_arith);
        assert(jac_height(p) == 0);
    } else {
        lemma_same_reflexive(jac_double(p));
    }
}

/// Zero times a point is the identity, and one times a point is the point.
pub proof fn lemma_mul_zero_one(p: JacPoint)
    ensures
        jac_mul(p, 0) == jac_identity(),
        jac_mul(p, 1) == p,
{
    lemma_mul_step(p, 0, 1);
    lemma_double_identity();
    assert(jac_mul(p, 0) == jac_identity());
}

/// An even multiple is the double of the half multiple, and so the same
/// point as the half multiple added to itself; the next odd multiple adds
/// the point once more.
pub proof fn lemma_mul_binary(p: JacPoint, k: nat)
    ensures
        jac_mul(p, 2 * k) == jac_double(jac_mul(p, k)),
        jac_same(jac_add(jac_mul(p, k), jac_mul(p, k)), jac_mul(p, 2 * k)),
        jac_mul(p, 2 * k + 1) == jac_add(jac_mul(p, 2 * k), p),
{
    lemma_mul_step(p, k, 0);
    lemma_mul_step(p, k, 1);
    lemma_double_is_add(jac_mul(p, k));
}

/// The inverse of a point on the curve is on the curve.
pub proof fn lemma_neg_on_curve(p: JacPoint)
    requires
        jac_reduced(p),
        jac_on_curve(p),
    ensures
        jac_on_curve(jac_neg(p)),
{
    lemma_neg_square(p.y);
}

/// The batch gives each point the affine form that converting it alone
/// gives, for every point that is the identity or whose `Z` is inverted by
/// its `(p - 2)`-th power.
pub proof fn lemma_batch_matches_single(ps: Seq<JacPoint>, i: int)
    requires
        0 <= i < ps.len(),
        ps[i].z == 0 || is_inverse(ps[i].z, fp_inv_candidate(ps[i].z), fp_modulus()),
    ensures
        batch_affine(ps, i) == jac_to_affine(ps[i]),
{
    let z = ps[i].z;
    let u = fp_inv_candidate(z);
    if batch_ok(ps) {
        if z == 0 {
            assert(z * u == 0) by (nonlinear_arith)
                requires
                    z == 0,
            ;
        } else {
            lemma_inverse_unique(z, u, fp_inverse(z), fp_modulus());
        }
    }
}

/// Decoding undoes encoding for every finite point for which the field's
/// square root of `x^3 + 7` is `y` or its negative: the header's parity
/// then singles out `y`.
pub proof fn lemma_decode_encoded(p: AffPoint)
    requires
        0 <= p.x < fp_modulus(),
        0 <= p.y < fp_modulus(),
        !p.infinity,
        fp_sqrt(curve_rhs(p.x)) == Some(p.y) || fp_sqrt(curve_rhs(p.x)) == Some(fp_neg(p.y)),
    ensures
        decode_choice(header_of(p), p.x, fp_sqrt(curve_rhs(p.x))) == Some(p),
{
    let m = fp_modulus();
    let r = fp_sqrt(curve_rhs(p.x))->0;
    if p.y == 0 {
        lemma_mod_of(m - p.y, m, 1, 0);
    } else {
        lemma_mod_of(m - p.y, m, 0, m - p.y);
        lemma_mod_of(m - (m - p.y), m, 0, p.y);
    }
}

/// The identity converts to the affine identity.
pub proof fn lemma_identity_to_affine()
    ensures
        jac_to_affine(jac_identity()) == aff_identity(),
{
    let u = fp_inv_candidate(0);
    assert(0 * u == 0) by (nonlinear_arith);
}

/// A field product is congruent to the product of anything congruent to its factors.
pub proof fn lemma_fp_mul_cong(a: int, a2: int, b: int, b2: int)
    requires
        cong(a, a2, fp_modulus()),
        cong(b, b2, fp_modulus()),
    ensures
        cong(fp_mul(a, b), a2 * b2, fp_modulus()),
        0 <= fp_mul(a, b) < fp_modulus(),
{
    lemma_cong_mod(a * b, fp_modulus());
    lemma_cong_mul(a, a2, b, b2, fp_modulus());
    lemma_mod_bound(a * b, fp_modulus());
}

/// Conversion to affine form and back loses nothing: for a point whose `Z`
/// is inverted by its `(p - 2)`-th power, the affine form stands for the
/// same point.
pub proof fn lemma_affine_round_trip(p: JacPoint)
    requires
        jac_reduced(p),
        is_inverse(p.z, fp_inv_candidate(p.z), fp_modulus()),
    ensures
        jac_same(aff_to_jac(jac_to_affine(p)), p),
{
    let m = fp_modulus();
    let u = fp_inv_candidate(p.z);
    let z = p.z;
    let q = aff_to_jac(jac_scale(p, u));
    assert(z != 0) by {
        if z == 0 {
            assert(z * u == 0) by (nonlinear_arith)
                requires
                    z == 0,
            ;
        }
    }
    let uz = u * z;
    assert(cong(uz, 1, m)) by {
        assert(u * z == z * u) by (nonlinear_arith);
        lemma_mod_of(1, m, 0, 1);
    }
    lemma_cong_mul(uz, 1, uz, 1, m);
    lemma_cong_mul(uz * uz, 1, uz, 1, m);
    // the factors
    let u2 = fp_mul(u, u);
    let u3 = fp_mul(u2, u);
    let zz = fp_mul(z, z);
    lemma_fp_mul_cong(u, u, u, u);
    lemma_fp_mul_cong(u2, u * u, u, u);
    lemma_fp_mul_cong(z, z, z, z);
    // x
    lemma_fp_mul_cong(p.x, p.x, u2, u * u);
    lemma_fp_mul_cong(q.x, p.x * (u * u), zz, z * z);
    assert((p.x * (u * u)) * (z * z) == p.x * (uz * uz)) by (nonlinear_arith)
        requires
            uz == u * z,
    ;
    lemma_cong_mul(p.x, p.x, uz * uz, 1, m);
    let u1 = fp_mul(q.x, zz);
    lemma_cong_reduced(u1, p.x, m);
    lemma_mod_of(1, m, 0, 1);
    lemma_mod_of(p.x, m, 0, p.x);
    // y
    lemma_fp_mul_cong(p.y, p.y, u3, (u * u) * u);
    lemma_fp_mul_cong(q.y, p.y * ((u * u) * u), z, z);
    let s1 = fp_mul(fp_mul(q.y, z), zz);
    lemma_fp_mul_cong(fp_mul(q.y, z), (p.y * ((u * u) * u)) * z, zz, z * z);
    assert(((p.y * ((u * u) * u)) * z) * (z * z) == p.y * ((uz * uz) * uz)) by (nonlinear_arith)
        requires
            uz == u * z,
    ;
    lemma_cong_mul(p.y, p.y, (uz * uz) * uz, 1, m);
    lemma_cong_reduced(s1, p.y, m);
    lemma_mod_of(p.y, m, 0, p.y);
}

/// A field sum is congruent to the sum of anything congruent to its summands.
pub proof fn lemma_fp_add_cong(a: int, a2: int, b: int, b2: int)
    requires
        cong(a, a2, fp_modulus()),
        cong(b, b2, fp_modulus()),
    ensures
        cong(fp_add(a, b), a2 + b2, fp_modulus()),
        0 <= fp_add(a, b) < fp_modulus(),
{
    lemma_cong_mod(a + b, fp_modulus());
    lemma_cong_add(a, a2, b, b2, fp_modulus());
    lemma_mod_bound(a + b, fp_modulus());
}

/// A field difference is congruent to the difference of anything congruent to its terms.
pub proof fn lemma_fp_sub_cong(a: int, a2: int, b: int, b2: int)
    requires
        cong(a, a2, fp_modulus()),
        cong(b, b2, fp_modulus()),
    ensures
        cong(fp_sub(a, b), a2 - b2, fp_modulus()),
        0 <= fp_sub(a, b) < fp_modulus(),
{
    lemma_cong_mod(a - b, fp_modulus());
    lemma_cong_add(a, a2, b, b2, fp_modulus());
    lemma_mod_bound(a - b, fp_modulus());
}

/// The curve's equation, lifted to the integers: `Y^2` and `X^3 + 7 Z^6` are congruent.
pub open spec fn jac_equation(p: JacPoint) -> bool {
    cong(p.y * p.y, (p.x * p.x) * p.x + 7 * (((p.z * p.z) * (p.z * p.z)) * (p.z * p.z)), fp_modulus())
}

/// A triple with `Z != 0` is on the curve exactly if its coordinates satisfy
/// the lifted equation.
pub proof fn lemma_on_curve_lifted(p: JacPoint)
    requires
        p.z != 0,
    ensures
        jac_on_curve(p) == jac_equation(p),
{
    let m = fp_modulus();
    let z2 = fp_mul(p.z, p.z);
    lemma_fp_mul_cong(p.z, p.z, p.z, p.z);
    lemma_fp_mul_cong(z2, p.z * p.z, z2, p.z * p.z);
    lemma_fp_mul_cong(fp_mul(z2, z2), (p.z * p.z) * (p.z * p.z), z2, p.z * p.z);
    let z6 = fp_mul(fp_mul(z2, z2), z2);
    lemma_fp_mul_cong(7, 7, z6, ((p.z * p.z) * (p.z * p.z)) * (p.z * p.z));
    lemma_fp_mul_cong(p.x, p.x, p.x, p.x);
    lemma_fp_mul_cong(fp_mul(p.x, p.x), p.x * p.x, p.x, p.x);
    let x3 = fp_mul(fp_mul(p.x, p.x), p.x);
    lemma_fp_add_cong(x3, (p.x * p.x) * p.x, fp_mul(7, z6), 7 * (((p.z * p.z) * (p.z * p.z)) * (p.z * p.z)));
    lemma_fp_mul_cong(p.y, p.y, p.y, p.y);
    let lhs = fp_mul(p.y, p.y);
    let rhs = fp_add(x3, fp_mul(7, z6));
    if jac_equation(p) {
        lemma_cong_reduced(lhs, rhs, m);
    }
}

/// The polynomial identity behind the doubling formula:
/// `(36 t b - 27 t^2 - 8 b^2)^2 - t (9 t - 8 b)^3 = 64 b^3 (b - t)`.
pub proof fn lemma_quartic_identity(t: int, b: int)
    ensures
        ({
            let y = 36 * (t * b) - 27 * (t * t) - 8 * (b * b);
            let g = 9 * t - 8 * b;
            y * y - t * ((g * g) * g) == 64 * (((b * b) * b) * (b - t))
        }),
{
    let tt = t * t;
    let tb = t * b;
    let bb = b * b;
    let t4 = tt * tt;
    let t3b = tt * tb;
    let t2b2 = tb * tb;
    let tb3 = tb * bb;
    let b4 = bb * bb;
    let y = 36 * tb - 27 * tt - 8 * bb;
    let g = 9 * t - 8 * b;
    let g2 = g * g;
    let tg = t * g;
    assert(tt * bb == t2b2) by (nonlinear_arith)
        requires
            tt == t * t,
            bb == b * b,
            t2b2 == (t * b) * (t * b),
    ;
    assert(y * y == 729 * t4 - 1944 * t3b + 1728 * t2b2 - 576 * tb3 + 64 * b4) by (nonlinear_arith)
        requires
            y == 36 * tb - 27 * tt - 8 * bb,
            t4 == tt * tt,
            t3b == tt * tb,
            t2b2 == tb * tb,
            tb3 == tb * bb,
            b4 == bb * bb,
            tt * bb == t2b2,
    ;
    assert(g2 == 81 * tt - 144 * tb + 64 * bb) by (nonlinear_arith)
        requires
            g2 == g * g,
            g == 9 * t - 8 * b,
            tt == t * t,
            tb == t * b,
            bb == b * b,
    ;
    assert(tg == 9 * tt - 8 * tb) by (nonlinear_arith)
        requires
            tg == t * g,
            g == 9 * t - 8 * b,
            tt == t * t,
            tb == t * b,
    ;
    assert(t * ((g * g) * g) == tg * g2) by (nonlinear_arith)
        requires
            tg == t * g,
            g2 == g * g,
    ;
    assert(tg * g2 == 729 * t4 - 1944 * t3b + 1728 * t2b2 - 512 * tb3) by (nonlinear_arith)
        requires
            tg == 9 * tt - 8 * tb,
            g2 == 81 * tt - 144 * tb + 64 * bb,
            t4 == tt * tt,
            t3b == tt * tb,
            t2b2 == tb * tb,
            tb3 == tb * bb,
            tt * bb == t2b2,
    ;
    assert(((b * b) * b) * (b - t) == b4 - tb3) by (nonlinear_arith)
        requires
            b4 == (b * b) * (b * b),
            tb3 == (t * b) * (b * b),
    ;
}

/// The doubling formula keeps a point on the curve.
pub proof fn lemma_double_on_curve(p: JacPoint)
    requires
        jac_on_curve(p),
    ensures
        jac_on_curve(jac_double(p)),
{
    let m = fp_modulus();
    let r = jac_double_formula(p);
    if !jac_self_inverse(p) && r.z != 0 {
        assert(p.z != 0) by {
            if p.z == 0 {
                assert(p.y * p.z == 0) by (nonlinear_arith)
                    requires
                        p.z == 0,
                ;
                assert(0 * fp_mul(p.z, p.z) == 0) by (nonlinear_arith);
            }
        }
        lemma_on_curve_lifted(p);
        let (x, y, z) = (p.x, p.y, p.z);
        // the formula, step by step, with its integer counterpart
        let a = fp_mul(x, x);
        let ia = x * x;
        lemma_fp_mul_cong(x, x, x, x);
        let b = fp_mul(y, y);
        let ib = y * y;
        lemma_fp_mul_cong(y, y, y, y);
        let c = fp_mul(b, b);
        let ic = ib * ib;
        lemma_fp_mul_cong(b, ib, b, ib);
        let xb = fp_add(x, b);
        let ixb = x + ib;
        lemma_fp_add_cong(x, x, b, ib);
        lemma_fp_mul_cong(xb, ixb, xb, ixb);
        lemma_fp_sub_cong(fp_mul(xb, xb), ixb * ixb, a, ia);
        let d0 = fp_sub(fp_sub(fp_mul(xb, xb), a), c);
        let id0 = ixb * ixb - ia - ic;
        lemma_fp_sub_cong(fp_sub(fp_mul(xb, xb), a), ixb * ixb - ia, c, ic);
        let d = fp_add(d0, d0);
        let id = id0 + id0;
        lemma_fp_add_cong(d0, id0, d0, id0);
        lemma_fp_add_cong(a, ia, a, ia);
        let e = fp_add(fp_add(a, a), a);
        let ie = ia + ia + ia;
        lemma_fp_add_cong(fp_add(a, a), ia + ia, a, ia);
        let f = fp_mul(e, e);
        lemma_fp_mul_cong(e, ie, e, ie);
        lemma_fp_add_cong(d, id, d, id);
        let x3 = fp_sub(f, fp_add(d, d));
        let ix3 = ie * ie - (id + id);
        lemma_fp_sub_cong(f, ie * ie, fp_add(d, d), id + id);
        let c2 = fp_add(c, c);
        lemma_fp_add_cong(c, ic, c, ic);
        let c4 = fp_add(c2, c2);
        lemma_fp_add_cong(c2, ic + ic, c2, ic + ic);
        let c8 = fp_add(c4, c4);
        lemma_fp_add_cong(c4, ic + ic + (ic + ic), c4, ic + ic + (ic + ic));
        lemma_fp_sub_cong(d, id, x3, ix3);
        lemma_fp_mul_cong(e, ie, fp_sub(d, x3), id - ix3);
        let y3 = fp_sub(fp_mul(e, fp_sub(d, x3)), c8);
        let iy3 = ie * (id - ix3) - 8 * ic;
        lemma_fp_sub_cong(fp_mul(e, fp_sub(d, x3)), ie * (id - ix3), c8, 8 * ic);
        let yz = fp_mul(y, z);
        lemma_fp_mul_cong(y, y, z, z);
        let z3 = fp_add(yz, yz);
        let iz3 = y * z + y * z;
        lemma_fp_add_cong(yz, y * z, yz, y * z);
        assert(r == JacPoint { x: x3, y: y3, z: z3 });
        let ir = JacPoint { x: ix3, y: iy3, z: iz3 };
        // the lifted equation of the integer counterpart
        let t = ia * x;
        let w = ((z * z) * (z * z)) * (z * z);
        lemma_cong_gap(ib, t + 7 * w, m);
        let k = ib / m - (t + 7 * w) / m;
        assert(ib == t + 7 * w + k * m);
        assert(id == 4 * (x * ib)) by (nonlinear_arith)
            requires
                id == id0 + id0,
                id0 == ixb * ixb - ia - ic,
                ixb == x + ib,
                ia == x * x,
                ic == ib * ib,
        ;
        assert(ix3 == x * (9 * t - 8 * ib)) by (nonlinear_arith)
            requires
                ix3 == ie * ie - (id + id),
                ie == ia + ia + ia,
                id == 4 * (x * ib),
                t == ia * x,
                ia == x * x,
        ;
        assert(iy3 == 36 * (t * ib) - 27 * (t * t) - 8 * (ib * ib)) by (nonlinear_arith)
            requires
                iy3 == ie * (id - ix3) - 8 * ic,
                ie == ia + ia + ia,
                id == 4 * (x * ib),
                ix3 == x * (9 * t - 8 * ib),
                t == ia * x,
                ic == ib * ib,
        ;
        let g = 9 * t - 8 * ib;
        let g3 = (g * g) * g;
        assert((ix3 * ix3) * ix3 == t * g3) by (nonlinear_arith)
            requires
                ix3 == x * g,
                t == ia * x,
                ia == x * x,
                g3 == (g * g) * g,
        ;
        let b3 = (ib * ib) * ib;
        lemma_quartic_identity(t, ib);
        assert(iy3 * iy3 - t * g3 == 64 * (b3 * (ib - t)));
        let iz2 = iz3 * iz3;
        assert((iz2 * iz2) * iz2 == 64 * (b3 * w)) by (nonlinear_arith)
            requires
                iz2 == iz3 * iz3,
                iz3 == y * z + y * z,
                ib == y * y,
                b3 == (ib * ib) * ib,
                w == ((z * z) * (z * z)) * (z * z),
        ;
        assert(iy3 * iy3 == (ix3 * ix3) * ix3 + 7 * ((iz2 * iz2) * iz2) + (64 * (b3 * k)) * m)
            by (nonlinear_arith)
            requires
                iy3 * iy3 - t * g3 == 64 * (b3 * (ib - t)),
                (ix3 * ix3) * ix3 == t * g3,
                (iz2 * iz2) * iz2 == 64 * (b3 * w),
                ib == t + 7 * w + k * m,
        ;
        lemma_mod_shift(iy3 * iy3, (ix3 * ix3) * ix3 + 7 * ((iz2 * iz2) * iz2), 64 * (b3 * k), m);
        assert(jac_equation(ir));
        // back to the field
        lemma_cong_mul(y3, iy3, y3, iy3, m);
        lemma_cong_mul(x3, ix3, x3, ix3, m);
        lemma_cong_mul(x3 * x3, ix3 * ix3, x3, ix3, m);
        lemma_cong_mul(z3, iz3, z3, iz3, m);
        lemma_cong_mul(z3 * z3, iz2, z3 * z3, iz2, m);
        lemma_cong_mul((z3 * z3) * (z3 * z3), iz2 * iz2, z3 * z3, iz2, m);
        lemma_cong_mul(7, 7, ((z3 * z3) * (z3 * z3)) * (z3 * z3), (iz2 * iz2) * iz2, m);
        lemma_cong_add(
            (x3 * x3) * x3,
            (ix3 * ix3) * ix3,
            7 * (((z3 * z3) * (z3 * z3)) * (z3 * z3)),
            7 * ((iz2 * iz2) * iz2),
            m,
        );
        assert(jac_equation(r));
        lemma_on_curve_lifted(r);
    }
}

/// An affine point on the curve is on the curve in Jacobian form.
pub proof fn lemma_to_curve_on_curve(a: AffPoint)
    requires
        aff_on_curve(a),
    ensures
        jac_on_curve(aff_to_jac(a)),
{
    if !a.infinity {
        let m = fp_modulus();
        lemma_mod_of(1, m, 0, 1);
        lemma_mod_of(7, m, 0, 7);
    }
}

/// The affine form of a point on the curve is on the curve.
pub proof fn lemma_to_affine_on_curve(p: JacPoint)
    requires
        jac_on_curve(p),
    ensures
        aff_on_curve(jac_to_affine(p)),
{
    let m = fp_modulus();
    let u = fp_inv_candidate(p.z);
    if is_inverse(p.z, u, m) {
        let (x, y, z) = (p.x, p.y, p.z);
        assert(z != 0) by {
            if z == 0 {
                assert(z * u == 0) by (nonlinear_arith)
                    requires
                        z == 0,
                ;
            }
        }
        lemma_on_curve_lifted(p);
        let t = (x * x) * x;
        let w = ((z * z) * (z * z)) * (z * z);
        lemma_cong_gap(y * y, t + 7 * w, m);
        let k = (y * y) / m - (t + 7 * w) / m;
        // (u z)^6 is congruent to one
        let uz = z * u;
        lemma_mod_of(1, m, 0, 1);
        lemma_cong_mul(uz, 1, uz, 1, m);
        lemma_cong_mul(uz * uz, 1, uz * uz, 1, m);
        lemma_cong_mul((uz * uz) * (uz * uz), 1, uz * uz, 1, m);
        let uz6 = ((uz * uz) * (uz * uz)) * (uz * uz);
        lemma_cong_gap(uz6, 1, m);
        let j = uz6 / m - 1int / m;
        // the affine coordinates and their integer counterparts
        let u2 = fp_mul(u, u);
        let u3 = fp_mul(u2, u);
        lemma_fp_mul_cong(u, u, u, u);
        lemma_fp_mul_cong(u2, u * u, u, u);
        let ax = fp_mul(x, u2);
        let ay = fp_mul(y, u3);
        let ix = x * (u * u);
        let iy = y * ((u * u) * u);
        lemma_fp_mul_cong(x, x, u2, u * u);
        lemma_fp_mul_cong(y, y, u3, (u * u) * u);
        let v = u * u;
        let v3 = (v * v) * v;
        assert(iy * iy == (y * y) * v3) by (nonlinear_arith)
            requires
                iy == y * (v * u),
                v == u * u,
                v3 == (v * v) * v,
        ;
        assert((ix * ix) * ix == t * v3) by (nonlinear_arith)
            requires
                ix == x * v,
                t == (x * x) * x,
                v3 == (v * v) * v,
        ;
        assert(w * v3 == uz6) by (nonlinear_arith)
            requires
                w == ((z * z) * (z * z)) * (z * z),
                v3 == (v * v) * v,
                v == u * u,
                uz6 == ((uz * uz) * (uz * uz)) * (uz * uz),
                uz == z * u,
        ;
        assert(iy * iy == (ix * ix) * ix + 7 + (7 * j + k * v3) * m) by (nonlinear_arith)
            requires
                iy * iy == (y * y) * v3,
                (ix * ix) * ix == t * v3,
                w * v3 == uz6,
                y * y == t + 7 * w + k * m,
                uz6 == 1 + j * m,
        ;
        lemma_mod_shift(iy * iy, (ix * ix) * ix + 7, 7 * j + k * v3, m);
        // back to the field
        lemma_fp_mul_cong(ay, iy, ay, iy);
        lemma_fp_mul_cong(ax, ix, ax, ix);
        lemma_fp_mul_cong(fp_mul(ax, ax), ix * ix, ax, ix);
        lemma_fp_add_cong(fp_mul(fp_mul(ax, ax), ax), (ix * ix) * ix, 7, 7);
        lemma_cong_reduced(fp_mul(ay, ay), curve_rhs(ax), m);
    }
}

/// The scaled chord abscissa `r^2 - h^2 (2 u + h)`.
pub open spec fn chord_x(u: int, h: int, r: int) -> int {
    r * r - (h * h) * (2 * u + h)
}

/// The scaled chord ordinate `r (u h^2 - x) - s h^3`.
pub open spec fn chord_y(u: int, h: int, s: int, r: int) -> int {
    r * (u * (h * h) - chord_x(u, h, r)) - s * ((h * h) * h)
}

/// How far `(u, s)` is from satisfying `s^2 = u^3 + c`.
pub open spec fn cubic_defect(u: int, s: int, c: int) -> int {
    s * s - (u * u) * u - c
}

/// The polynomial identity behind the chord formula: the defect of the
/// chord's third point, scaled by `h^6`, is a combination of the defects of
/// the two points it is drawn through.
pub proof fn lemma_chord_identity(u: int, h: int, s: int, r: int, c: int)
    ensures
        ({
            let x = chord_x(u, h, r);
            let y = chord_y(u, h, s, r);
            let h3 = (h * h) * h;
            let e1 = cubic_defect(u, s, c);
            let e2 = cubic_defect(u + h, s + r, c);
            y * y - (x * x) * x - c * (h3 * h3) == (h3 * h3) * e1 + (h3 * (x - u * (h * h))) * (e2
                - e1)
        }),
{
    let x = chord_x(u, h, r);
    let y = chord_y(u, h, s, r);
    let h2 = h * h;
    let h3 = h2 * h;
    let h6 = h3 * h3;
    let b = u * h2;
    let a = x - b;
    let e1 = cubic_defect(u, s, c);
    let e2 = cubic_defect(u + h, s + r, c);
    let uu = u * u;
    let rr = r * r;
    assert(h2 * (2 * u + h) == 2 * b + h3) by (nonlinear_arith)
        requires
            b == u * h2,
            h3 == h2 * h,
    ;
    assert(rr == a + 3 * b + h3);
    let p = r * a;
    let q = s * h3;
    assert(y == -p - q) by (nonlinear_arith)
        requires
            y == r * (b - x) - q,
            a == x - b,
            p == r * a,
    ;
    assert(y * y == p * p + 2 * (p * q) + q * q) by (nonlinear_arith)
        requires
            y == -p - q,
    ;
    let a2 = a * a;
    let b2 = b * b;
    assert((x * x) * x == a2 * a + 3 * (a2 * b) + 3 * (a * b2) + b2 * b) by (nonlinear_arith)
        requires
            x == a + b,
            a2 == a * a,
            b2 == b * b,
    ;
    assert(q * q == (s * s) * h6) by (nonlinear_arith)
        requires
            q == s * h3,
            h6 == h3 * h3,
    ;
    assert(h2 * h2 == h * h3) by (nonlinear_arith)
        requires
            h2 == h * h,
            h3 == h2 * h,
    ;
    assert(b2 == uu * (h * h3)) by (nonlinear_arith)
        requires
            b2 == b * b,
            b == u * h2,
            uu == u * u,
            h2 * h2 == h * h3,
    ;
    assert(h2 * (h * h3) == h6) by (nonlinear_arith)
        requires
            h2 == h * h,
            h3 == h2 * h,
            h6 == h3 * h3,
    ;
    assert(b2 * b == (uu * u) * h6) by (nonlinear_arith)
        requires
            b2 == uu * (h * h3),
            b == u * h2,
            h2 * (h * h3) == h6,
    ;
    assert(q * q - b2 * b - c * h6 == h6 * e1) by (nonlinear_arith)
        requires
            q * q == (s * s) * h6,
            b2 * b == (uu * u) * h6,
            e1 == s * s - (uu * u) - c,
    ;
    assert(p * p == a2 * a + 3 * (a2 * b) + a2 * h3) by (nonlinear_arith)
        requires
            p == r * a,
            a2 == a * a,
            r * r == a + 3 * b + h3,
    ;
    let d = e2 - e1;
    assert(d == 2 * (s * r) + rr - 3 * (uu * h) - 3 * b - h3) by (nonlinear_arith)
        requires
            d == ((s + r) * (s + r) - ((u + h) * (u + h)) * (u + h) - c) - (s * s - (uu * u) - c),
            rr == r * r,
            uu == u * u,
            b == u * h2,
            h2 == h * h,
            h3 == h2 * h,
    ;
    assert(d == 2 * (s * r) + a - 3 * (uu * h));
    assert(p * q == (h3 * a) * (s * r)) by (nonlinear_arith)
        requires
            p == r * a,
            q == s * h3,
    ;
    assert(a * b2 == (h3 * a) * (uu * h)) by (nonlinear_arith)
        requires
            b2 == uu * (h * h3),
    ;
    assert((h3 * a) * d == 2 * (p * q) + a2 * h3 - 3 * (a * b2)) by (nonlinear_arith)
        requires
            d == 2 * (s * r) + a - 3 * (uu * h),
            p * q == (h3 * a) * (s * r),
            a * b2 == (h3 * a) * (uu * h),
            a2 == a * a,
    ;
}

/// The chord formula keeps two finite points of the curve on the curve.
pub proof fn lemma_chord_on_curve(p: JacPoint, q: JacPoint)
    requires
        jac_on_curve(p),
        jac_on_curve(q),
        p.z != 0,
        q.z != 0,
    ensures
        jac_on_curve(jac_chord(p, q)),
{
    let m = fp_modulus();
    let res = jac_chord(p, q);
    if res.z != 0 {
        lemma_on_curve_lifted(p);
        lemma_on_curve_lifted(q);
        let (x1, y1, z1) = (p.x, p.y, p.z);
        let (x2, y2, z2) = (q.x, q.y, q.z);
        let a1 = z1 * z1;
        let a2 = z2 * z2;
        // the formula, step by step, with its integer counterpart
        let z1z1 = fp_mul(z1, z1);
        lemma_fp_mul_cong(z1, z1, z1, z1);
        let z2z2 = fp_mul(z2, z2);
        lemma_fp_mul_cong(z2, z2, z2, z2);
        let u1 = fp_mul(x1, z2z2);
        let iu1 = x1 * a2;
        lemma_fp_mul_cong(x1, x1, z2z2, a2);
        let u2 = fp_mul(x2, z1z1);
        let iu2 = x2 * a1;
        lemma_fp_mul_cong(x2, x2, z1z1, a1);
        lemma_fp_mul_cong(y1, y1, z2, z2);
        let s1 = fp_mul(fp_mul(y1, z2), z2z2);
        let is1 = (y1 * z2) * a2;
        lemma_fp_mul_cong(fp_mul(y1, z2), y1 * z2, z2z2, a2);
        lemma_fp_mul_cong(y2, y2, z1, z1);
        let s2 = fp_mul(fp_mul(y2, z1), z1z1);
        let is2 = (y2 * z1) * a1;
        lemma_fp_mul_cong(fp_mul(y2, z1), y2 * z1, z1z1, a1);
        let h = fp_sub(u2, u1);
        let ih = iu2 - iu1;
        lemma_fp_sub_cong(u2, iu2, u1, iu1);
        let hh = fp_add(h, h);
        lemma_fp_add_cong(h, ih, h, ih);
        let i = fp_mul(hh, hh);
        let ii = (ih + ih) * (ih + ih);
        lemma_fp_mul_cong(hh, ih + ih, hh, ih + ih);
        let j = fp_mul(h, i);
        let ij = ih * ii;
        lemma_fp_mul_cong(h, ih, i, ii);
        let r0 = fp_sub(s2, s1);
        let ir0 = is2 - is1;
        lemma_fp_sub_cong(s2, is2, s1, is1);
        let r = fp_add(r0, r0);
        let ir = ir0 + ir0;
        lemma_fp_add_cong(r0, ir0, r0, ir0);
        let v = fp_mul(u1, i);
        let iv = iu1 * ii;
        lemma_fp_mul_cong(u1, iu1, i, ii);
        lemma_fp_mul_cong(r, ir, r, ir);
        lemma_fp_sub_cong(fp_mul(r, r), ir * ir, j, ij);
        lemma_fp_add_cong(v, iv, v, iv);
        let x3 = fp_sub(fp_sub(fp_mul(r, r), j), fp_add(v, v));
        let ix3 = ir * ir - ij - (iv + iv);
        lemma_fp_sub_cong(fp_sub(fp_mul(r, r), j), ir * ir - ij, fp_add(v, v), iv + iv);
        let sj = fp_mul(s1, j);
        let isj = is1 * ij;
        lemma_fp_mul_cong(s1, is1, j, ij);
        lemma_fp_sub_cong(v, iv, x3, ix3);
        lemma_fp_mul_cong(r, ir, fp_sub(v, x3), iv - ix3);
        lemma_fp_add_cong(sj, isj, sj, isj);
        let y3 = fp_sub(fp_mul(r, fp_sub(v, x3)), fp_add(sj, sj));
        let iy3 = ir * (iv - ix3) - (isj + isj);
        lemma_fp_sub_cong(fp_mul(r, fp_sub(v, x3)), ir * (iv - ix3), fp_add(sj, sj), isj + isj);
        let zs = fp_add(z1, z2);
        let izs = z1 + z2;
        lemma_fp_add_cong(z1, z1, z2, z2);
        lemma_fp_mul_cong(zs, izs, zs, izs);
        lemma_fp_sub_cong(fp_mul(zs, zs), izs * izs, z1z1, a1);
        lemma_fp_sub_cong(fp_sub(fp_mul(zs, zs), z1z1), izs * izs - a1, z2z2, a2);
        let zf = fp_sub(fp_sub(fp_mul(zs, zs), z1z1), z2z2);
        let z3 = fp_mul(zf, h);
        let iz3 = (izs * izs - a1 - a2) * ih;
        lemma_fp_mul_cong(zf, izs * izs - a1 - a2, h, ih);
        assert(res == JacPoint { x: x3, y: y3, z: z3 });
        // the integer counterpart in terms of the scaled chord
        let h2i = ih * ih;
        let h3i = h2i * ih;
        let h6i = h3i * h3i;
        let cx = chord_x(iu1, ih, ir0);
        let cy = chord_y(iu1, ih, is1, ir0);
        assert(ii == 4 * h2i) by (nonlinear_arith)
            requires
                ii == (ih + ih) * (ih + ih),
                h2i == ih * ih,
        ;
        assert(ij == 4 * h3i) by (nonlinear_arith)
            requires
                ij == ih * ii,
                ii == 4 * h2i,
                h3i == h2i * ih,
        ;
        let uh = iu1 * h2i;
        assert(iv == 4 * uh) by (nonlinear_arith)
            requires
                iv == iu1 * ii,
                ii == 4 * h2i,
                uh == iu1 * h2i,
        ;
        assert(h2i * (2 * iu1 + ih) == 2 * uh + h3i) by (nonlinear_arith)
            requires
                uh == iu1 * h2i,
                h3i == h2i * ih,
        ;
        assert(ir * ir == 4 * (ir0 * ir0)) by (nonlinear_arith)
            requires
                ir == ir0 + ir0,
        ;
        assert(ix3 == 4 * cx);
        assert(ir * (iv - ix3) == 8 * (ir0 * (uh - cx))) by (nonlinear_arith)
            requires
                ir == ir0 + ir0,
                iv == 4 * uh,
                ix3 == 4 * cx,
        ;
        assert(isj == 4 * (is1 * h3i)) by (nonlinear_arith)
            requires
                isj == is1 * ij,
                ij == 4 * h3i,
        ;
        assert(iy3 == 8 * cy);
        let g = z1 * z2;
        assert(iz3 == 2 * (g * ih)) by (nonlinear_arith)
            requires
                iz3 == (izs * izs - a1 - a2) * ih,
                izs == z1 + z2,
                a1 == z1 * z1,
                a2 == z2 * z2,
                g == z1 * z2,
        ;
        let w1 = (a1 * a1) * a1;
        let w2 = (a2 * a2) * a2;
        let g2 = g * g;
        let g6 = (g2 * g2) * g2;
        assert(g2 == a1 * a2) by (nonlinear_arith)
            requires
                g2 == (z1 * z2) * (z1 * z2),
                a1 == z1 * z1,
                a2 == z2 * z2,
        ;
        assert(g6 == w1 * w2) by (nonlinear_arith)
            requires
                g6 == (g2 * g2) * g2,
                g2 == a1 * a2,
                w1 == (a1 * a1) * a1,
                w2 == (a2 * a2) * a2,
        ;
        let iz2 = iz3 * iz3;
        let gh = g * ih;
        assert(iz2 == 4 * (gh * gh)) by (nonlinear_arith)
            requires
                iz2 == iz3 * iz3,
                iz3 == 2 * gh,
        ;
        assert((gh * gh) == g2 * h2i) by (nonlinear_arith)
            requires
                gh == g * ih,
                g2 == g * g,
                h2i == ih * ih,
        ;
        let n2 = g2 * h2i;
        assert((n2 * n2) * n2 == g6 * h6i) by (nonlinear_arith)
            requires
                n2 == g2 * h2i,
                g6 == (g2 * g2) * g2,
                h6i == (h2i * ih) * (h2i * ih),
                h2i == ih * ih,
        ;
        assert((iz2 * iz2) * iz2 == 64 * ((n2 * n2) * n2)) by (nonlinear_arith)
            requires
                iz2 == 4 * n2,
        ;
        let c = 7 * g6;
        // the two points' equations, scaled to the common denominator
        lemma_cong_gap(y1 * y1, (x1 * x1) * x1 + 7 * w1, m);
        let k1 = (y1 * y1) / m - ((x1 * x1) * x1 + 7 * w1) / m;
        lemma_cong_gap(y2 * y2, (x2 * x2) * x2 + 7 * w2, m);
        let k2 = (y2 * y2) / m - ((x2 * x2) * x2 + 7 * w2) / m;
        let e1 = cubic_defect(iu1, is1, c);
        let e2 = cubic_defect(iu2, is2, c);
        assert(is1 * is1 == (y1 * y1) * w2) by (nonlinear_arith)
            requires
                is1 == (y1 * z2) * a2,
                a2 == z2 * z2,
                w2 == (a2 * a2) * a2,
        ;
        assert((iu1 * iu1) * iu1 == ((x1 * x1) * x1) * w2) by (nonlinear_arith)
            requires
                iu1 == x1 * a2,
                w2 == (a2 * a2) * a2,
        ;
        assert(e1 == (w2 * k1) * m) by (nonlinear_arith)
            requires
                e1 == is1 * is1 - (iu1 * iu1) * iu1 - 7 * g6,
                is1 * is1 == (y1 * y1) * w2,
                (iu1 * iu1) * iu1 == ((x1 * x1) * x1) * w2,
                g6 == w1 * w2,
                y1 * y1 == (x1 * x1) * x1 + 7 * w1 + k1 * m,
        ;
        assert(is2 * is2 == (y2 * y2) * w1) by (nonlinear_arith)
            requires
                is2 == (y2 * z1) * a1,
                a1 == z1 * z1,
                w1 == (a1 * a1) * a1,
        ;
        assert((iu2 * iu2) * iu2 == ((x2 * x2) * x2) * w1) by (nonlinear_arith)
            requires
                iu2 == x2 * a1,
                w1 == (a1 * a1) * a1,
        ;
        assert(e2 == (w1 * k2) * m) by (nonlinear_arith)
            requires
                e2 == is2 * is2 - (iu2 * iu2) * iu2 - 7 * g6,
                is2 * is2 == (y2 * y2) * w1,
                (iu2 * iu2) * iu2 == ((x2 * x2) * x2) * w1,
                g6 == w1 * w2,
                y2 * y2 == (x2 * x2) * x2 + 7 * w2 + k2 * m,
        ;
        lemma_chord_identity(iu1, ih, is1, ir0, c);
        assert(iu1 + ih == iu2 && is1 + ir0 == is2);
        let t = h3i * (cx - uh);
        let kk = h6i * (w2 * k1) + t * (w1 * k2 - w2 * k1);
        assert(cy * cy - (cx * cx) * cx - c * h6i == h6i * e1 + t * (e2 - e1));
        assert(h6i * e1 + t * (e2 - e1) == kk * m) by (nonlinear_arith)
            requires
                e1 == (w2 * k1) * m,
                e2 == (w1 * k2) * m,
                kk == h6i * (w2 * k1) + t * (w1 * k2 - w2 * k1),
        ;
        assert(iy3 * iy3 == 64 * (cy * cy)) by (nonlinear_arith)
            requires
                iy3 == 8 * cy,
        ;
        assert((ix3 * ix3) * ix3 == 64 * ((cx * cx) * cx)) by (nonlinear_arith)
            requires
                ix3 == 4 * cx,
        ;
        assert(7 * ((iz2 * iz2) * iz2) == 64 * (c * h6i)) by (nonlinear_arith)
            requires
                (iz2 * iz2) * iz2 == 64 * ((n2 * n2) * n2),
                (n2 * n2) * n2 == g6 * h6i,
                c == 7 * g6,
        ;
        assert(iy3 * iy3 == (ix3 * ix3) * ix3 + 7 * ((iz2 * iz2) * iz2) + (64 * kk) * m)
            by (nonlinear_arith)
            requires
                iy3 * iy3 == 64 * (cy * cy),
                (ix3 * ix3) * ix3 == 64 * ((cx * cx) * cx),
                7 * ((iz2 * iz2) * iz2) == 64 * (c * h6i),
                cy * cy - (cx * cx) * cx - c * h6i == kk * m,
        ;
        lemma_mod_shift(iy3 * iy3, (ix3 * ix3) * ix3 + 7 * ((iz2 * iz2) * iz2), 64 * kk, m);
        // back to the field
        lemma_cong_mul(y3, iy3, y3, iy3, m);
        lemma_cong_mul(x3, ix3, x3, ix3, m);
        lemma_cong_mul(x3 * x3, ix3 * ix3, x3, ix3, m);
        lemma_cong_mul(z3, iz3, z3, iz3, m);
        lemma_cong_mul(z3 * z3, iz2, z3 * z3, iz2, m);
        lemma_cong_mul((z3 * z3) * (z3 * z3), iz2 * iz2, z3 * z3, iz2, m);
        lemma_cong_mul(7, 7, ((z3 * z3) * (z3 * z3)) * (z3 * z3), (iz2 * iz2) * iz2, m);
        lemma_cong_add(
            (x3 * x3) * x3,
            (ix3 * ix3) * ix3,
            7 * (((z3 * z3) * (z3 * z3)) * (z3 * z3)),
            7 * ((iz2 * iz2) * iz2),
            m,
        );
        assert(jac_equation(res));
        lemma_on_curve_lifted(res);
    }
}

/// Closure: the sum of two points of the curve is a point of the curve.
pub proof fn lemma_add_on_curve(p: JacPoint, q: JacPoint)
    requires
        jac_on_curve(p),
        jac_on_curve(q),
    ensures
        jac_on_curve(jac_add(p, q)),
{
    if p.z != 0 && q.z != 0 {
        lemma_double_on_curve(p);
        lemma_chord_on_curve(p, q);
    }
}

/// Closure: every scalar multiple of a point of the curve is a point of the curve.
pub proof fn lemma_mul_on_curve(p: JacPoint, k: nat)
    requires
        jac_on_curve(p),
    ensures
        jac_on_curve(jac_mul(p, k)),
    decreases k,
{
    if k > 0 {
        lemma_mul_on_curve(p, k / 2);
        lemma_double_on_curve(jac_mul(p, k / 2));
        lemma_add_on_curve(jac_double(jac_mul(p, k / 2)), p);
    }
}

} // verus!
