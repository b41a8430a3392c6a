//! Conversion of many Jacobian points to affine form with one field inversion.

use crate::curve::{aff_identity, jac_scale, jac_to_affine, AffPoint, JacPoint, Secq256k1, Secq256k1Affine};
use crate::fp::{fp_inv_candidate, fp_modulus, fp_mul, Fp};
use crate::modmath::{is_inverse, lemma_inverse_unique, lemma_mul_mod_left, lemma_mul_mod_right};
use vstd::prelude::*;

verus! {

/// The factor that a point contributes to the shared product: its `Z`, or
/// one in place of the identity's zero.
pub open spec fn padded(z: int) -> int {
    if z == 0 {
        1
    } else {
        z
    }
}

/// The product of the factors of the first `n` points.
pub open spec fn running(ps: Seq<JacPoint>, n: nat) -> int
    decreases n,
{
    if n == 0 {
        1
    } else {
        fp_mul(running(ps, (n - 1) as nat), padded(ps[n - 1].z))
    }
}

/// Whether the one inversion of the batch succeeds: the product of all
/// factors is inverted by its own `(p - 2)`-th power.
pub open spec fn batch_ok(ps: Seq<JacPoint>) -> bool {
    let t = running(ps, ps.len());
    is_inverse(t, fp_inv_candidate(t), fp_modulus())
}

/// The inverse of a residue, where it has one.
pub open spec fn fp_inverse(z: int) -> int {
    choose|u: int| is_inverse(z, u, fp_modulus())
}

/// The affine form that the batch gives the point at index `i`: the identity
/// for an identity, else `(X / Z^2, Y / Z^3)`. Where the shared inversion
/// fails, every point is converted on its own.
pub open spec fn batch_affine(ps: Seq<JacPoint>, i: int) -> AffPoint {
    if batch_ok(ps) {
        if ps[i].z == 0 {
            aff_identity()
        } else {
            jac_scale(ps[i], fp_inverse(ps[i].z))
        }
    } else {
        jac_to_affine(ps[i])
    }
}

/// The mathematical content of a vector of points.
pub open spec fn models(points: Seq<Secq256k1>) -> Seq<JacPoint> {
    points.map_values(|p: Secq256k1| p@)
}

/// An inverse `t` of a product `a * b` gives the inverses `t * a` of `b` and
/// `t * b` of `a`.
pub proof fn lemma_split_inverse(a: int, b: int, t: int, m: int)
    requires
        m > 1,
        is_inverse((a * b) % m, t, m),
    ensures
        is_inverse(b, (t * a) % m, m),
        is_inverse(a, (t * b) % m, m),
{
    lemma_mul_mod_left(a * b, t, m);
    lemma_mul_mod_right(b, t * a, m);
    lemma_mul_mod_right(a, t * b, m);
    assert(b * (t * a) == (a * b) * t) by (nonlinear_arith);
    assert(a * (t * b) == (a * b) * t) by (nonlinear_arith);
    vstd::arithmetic::div_mod::lemma_mod_bound(t * a, m);
    vstd::arithmetic::div_mod::lemma_mod_bound(t * b, m);
}

/// Converts every point of the vector to affine form, in order, with one
/// field inversion for the whole vector.
pub fn batch_to_affine(points: &Vec<Secq256k1>) -> (out: Vec<Secq256k1Affine>)
    requires
        forall|i: int| 0 <= i < points.len() ==> (#[trigger] points[i]).wf(),
    ensures
        out.len() == points.len(),
        forall|i: int|
            0 <= i < points.len() ==> (#[trigger] out[i]).wf() && out[i]@ == batch_affine(
                models(points@),
                i,
            ),
{
    let n = points.len();
    let ghost ms = models(points@);
    let mut prefix: Vec<Fp> = Vec::new();
    let mut acc = Fp::one();
    let mut i: usize = 0;
    while i < n
        invariant
            i <= n,
            n == points.len(),
            ms == models(points@),
            prefix.len() == i,
            acc.wf(),
            acc.value() == running(ms, i as nat),
            forall|j: int| 0 <= j < points.len() ==> (#[trigger] points[j]).wf(),
            forall|j: int|
                0 <= j < i ==> (#[trigger] prefix[j]).wf() && prefix[j].value() == running(
                    ms,
                    j as nat,
                ),
        decreases n - i,
    {
        prefix.push(acc);
        let z = points[i].z;
        let factor = Fp::select(&z, &Fp::one(), z.is_zero());
        acc = acc.mul(&factor);
        i = i + 1;
    }
    let mut out: Vec<Secq256k1Affine> = Vec::new();
    match acc.invert() {
        None => {
            let mut k: usize = 0;
            while k < n
                invariant
                    k <= n,
                    n == points.len(),
                    ms == models(points@),
                    out.len() == k,
                    !batch_ok(ms),
                    forall|j: int| 0 <= j < points.len() ==> (#[trigger] points[j]).wf(),
                    forall|j: int|
                        0 <= j < k ==> (#[trigger] out[j]).wf() && out[j]@ == batch_affine(ms, j),
                decreases n - k,
            {
                out.push(points[k].to_affine());
                k = k + 1;
            }
        },
        Some(total_inv) => {
            let mut k: usize = 0;
            while k < n
                invariant
                    k <= n,
                    out.len() == k,
                decreases n - k,
            {
                out.push(Secq256k1Affine::identity());
                k = k + 1;
            }
            let mut inv = total_inv;
            let mut i: usize = n;
            while i > 0
                invariant
                    i <= n,
                    n == points.len(),
                    ms == models(points@),
                    out.len() == n,
                    prefix.len() == n,
                    batch_ok(ms),
                    inv.wf(),
                    is_inverse(running(ms, i as nat), inv.value(), fp_modulus()),
                    forall|j: int| 0 <= j < points.len() ==> (#[trigger] points[j]).wf(),
                    forall|j: int|
                        0 <= j < n ==> (#[trigger] prefix[j]).wf() && prefix[j].value() == running(
                            ms,
                            j as nat,
                        ),
                    forall|j: int|
                        i <= j < n ==> (#[trigger] out[j]).wf() && out[j]@ == batch_affine(ms, j),
                decreases i,
            {
                i = i - 1;
                let p = points[i];
                let at_infinity = p.z.is_zero();
                let factor = Fp::select(&p.z, &Fp::one(), at_infinity);
                let u = inv.mul(&prefix[i]);
                let next_inv = inv.mul(&factor);
                let u2 = u.square();
                let u3 = u2.mul(&u);
                let finite = Secq256k1Affine { x: p.x.mul(&u2), y: p.y.mul(&u3), infinity: false };
                let item = Secq256k1Affine::select(&finite, &Secq256k1Affine::identity(), at_infinity);
                proof {
                    let a = running(ms, i as nat);
                    let b = padded(ms[i as int].z);
                    assert(running(ms, (i + 1) as nat) == fp_mul(a, b));
                    lemma_split_inverse(a, b, inv.value(), fp_modulus());
                    if !at_infinity {
                        let w = fp_inverse(p@.z);
                        lemma_inverse_unique(p@.z, u.value(), w, fp_modulus());
                    }
                }
                out.set(i, item);
                inv = next_inv;
            }
        },
    }
    out
}

} // verus!
