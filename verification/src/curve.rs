//! Points of the curve `y^2 = x^3 + 7` over the base field, in Jacobian
//! coordinates: `(X, Y, Z)` with `Z != 0` stands for the affine point
//! `(X / Z^2, Y / Z^3)`, and every triple with `Z = 0` for the identity.

use crate::bytes::{le_value, pack33, read_u256};
use crate::fp::{fp_add, fp_inv_candidate, fp_modulus, fp_mul, fp_neg, fp_sqrt, fp_sub, Fp};
use crate::fq::Fq;
use crate::laws::{
    lemma_add_on_curve, lemma_double_on_curve, lemma_mul_on_curve, lemma_neg_on_curve,
    lemma_to_affine_on_curve, lemma_to_curve_on_curve,
};
use crate::limbs::{lemma_bit_step, lemma_bits_done, lemma_pow2_256, radix4, U256};
use crate::modmath::{is_inverse, lemma_mod_of, lemma_mod_shift, lemma_mul_mod_left, lemma_mul_mod_right};
use vstd::arithmetic::power2::{lemma2_to64, lemma_pow2_unfold, pow2};
use vstd::prelude::*;

verus! {

/// The mathematical content of a Jacobian point: three residues.
pub struct JacPoint {
    pub x: int,
    pub y: int,
    pub z: int,
}

/// The identity's canonical representative.
pub open spec fn jac_identity() -> JacPoint {
    JacPoint { x: 0, y: 1, z: 0 }
}

/// The curve's constant term.
pub open spec fn curve_b() -> int {
    7
}

/// `Y * Z^3`, the quantity by which two points with the same `X / Z^2` are told apart.
pub open spec fn jac_height(p: JacPoint) -> int {
    fp_mul(fp_mul(p.y, p.z), fp_mul(p.z, p.z))
}

/// Whether a point is its own inverse: the identity, or a point with `Y = 0`.
pub open spec fn jac_self_inverse(p: JacPoint) -> bool {
    fp_add(jac_height(p), jac_height(p)) == 0
}

/// The Jacobian doubling formula for a curve with `a = 0`.
pub open spec fn jac_double_formula(p: JacPoint) -> JacPoint {
    let a = fp_mul(p.x, p.x);
    let b = fp_mul(p.y, p.y);
    let c = fp_mul(b, b);
    let xb = fp_add(p.x, b);
    let d0 = fp_sub(fp_sub(fp_mul(xb, xb), a), c);
    let d = fp_add(d0, d0);
    let e = fp_add(fp_add(a, a), a);
    let f = fp_mul(e, e);
    let x3 = fp_sub(f, fp_add(d, d));
    let c2 = fp_add(c, c);
    let c4 = fp_add(c2, c2);
    let c8 = fp_add(c4, c4);
    let y3 = fp_sub(fp_mul(e, fp_sub(d, x3)), c8);
    let yz = fp_mul(p.y, p.z);
    JacPoint { x: x3, y: y3, z: fp_add(yz, yz) }
}

/// Twice a point: the identity for a point that is its own inverse, the
/// doubling formula otherwise.
pub open spec fn jac_double(p: JacPoint) -> JacPoint {
    if jac_self_inverse(p) {
        jac_identity()
    } else {
        jac_double_formula(p)
    }
}

/// The Jacobian chord formula, meant for two points with different `X / Z^2`.
pub open spec fn jac_chord(p: JacPoint, q: JacPoint) -> JacPoint {
    let z1z1 = fp_mul(p.z, p.z);
    let z2z2 = fp_mul(q.z, q.z);
    let u1 = fp_mul(p.x, z2z2);
    let u2 = fp_mul(q.x, z1z1);
    let s1 = fp_mul(fp_mul(p.y, q.z), z2z2);
    let s2 = fp_mul(fp_mul(q.y, p.z), z1z1);
    let h = fp_sub(u2, u1);
    let h2 = fp_add(h, h);
    let i = fp_mul(h2, h2);
    let j = fp_mul(h, i);
    let r0 = fp_sub(s2, s1);
    let r = fp_add(r0, r0);
    let v = fp_mul(u1, i);
    let x3 = fp_sub(fp_sub(fp_mul(r, r), j), fp_add(v, v));
    let sj = fp_mul(s1, j);
    let y3 = fp_sub(fp_mul(r, fp_sub(v, x3)), fp_add(sj, sj));
    let zs = fp_add(p.z, q.z);
    let z3 = fp_mul(fp_sub(fp_sub(fp_mul(zs, zs), z1z1), z2z2), h);
    JacPoint { x: x3, y: y3, z: z3 }
}

/// The sum of two points. An identity operand gives the other operand; two
/// points with the same `X / Z^2` give the double when their heights agree
/// and the identity when they do not; all other pairs go by the chord formula.
pub open spec fn jac_add(p: JacPoint, q: JacPoint) -> JacPoint {
    let z1z1 = fp_mul(p.z, p.z);
    let z2z2 = fp_mul(q.z, q.z);
    let u1 = fp_mul(p.x, z2z2);
    let u2 = fp_mul(q.x, z1z1);
    let s1 = fp_mul(fp_mul(p.y, q.z), z2z2);
    let s2 = fp_mul(fp_mul(q.y, p.z), z1z1);
    if p.z == 0 {
        q
    } else if q.z == 0 {
        p
    } else if u1 == u2 {
        if s1 == s2 {
            jac_double(p)
        } else {
            jac_identity()
        }
    } else {
        jac_chord(p, q)
    }
}

/// The inverse of a point: the same point with `Y` negated.
pub open spec fn jac_neg(p: JacPoint) -> JacPoint {
    JacPoint { x: p.x, y: fp_neg(p.y), z: p.z }
}

/// Whether two triples stand for the same point: both are the identity, or
/// neither is and the cross-multiplied coordinates agree.
pub open spec fn jac_same(p: JacPoint, q: JacPoint) -> bool {
    let z1z1 = fp_mul(p.z, p.z);
    let z2z2 = fp_mul(q.z, q.z);
    let u1 = fp_mul(p.x, z2z2);
    let u2 = fp_mul(q.x, z1z1);
    let s1 = fp_mul(fp_mul(p.y, q.z), z2z2);
    let s2 = fp_mul(fp_mul(q.y, p.z), z1z1);
    if p.z == 0 || q.z == 0 {
        p.z == 0 && q.z == 0
    } else {
        u1 == u2 && s1 == s2
    }
}

/// Whether a triple satisfies `Y^2 = X^3 + 7 Z^6`, or is an identity.
pub open spec fn jac_on_curve(p: JacPoint) -> bool {
    let z2 = fp_mul(p.z, p.z);
    let z6 = fp_mul(fp_mul(z2, z2), z2);
    let x3 = fp_mul(fp_mul(p.x, p.x), p.x);
    p.z == 0 || fp_mul(p.y, p.y) == fp_add(x3, fp_mul(curve_b(), z6))
}

/// The scalar multiple `k * P`, defined along the binary digits of `k`:
/// `(2h) * P = 2 * (h * P)` and `(2h + 1) * P = 2 * (h * P) + P`.
pub open spec fn jac_mul(p: JacPoint, k: nat) -> JacPoint
    decreases k,
{
    if k == 0 {
        jac_identity()
    } else {
        let d = jac_double(jac_mul(p, k / 2));
        if k % 2 == 1 {
            jac_add(d, p)
        } else {
            d
        }
    }
}

/// A point of the curve in Jacobian coordinates.
#[derive(Clone, Copy, Debug)]
pub struct Secq256k1 {
    pub x: Fp,
    pub y: Fp,
    pub z: Fp,
}

impl View for Secq256k1 {
    type V = JacPoint;

    open spec fn view(&self) -> JacPoint {
        JacPoint { x: self.x.value(), y: self.y.value(), z: self.z.value() }
    }
}

impl Secq256k1 {
    /// The three coordinates are reduced.
    pub open spec fn wf(self) -> bool {
        self.x.wf() && self.y.wf() && self.z.wf()
    }

    /// Points with the same coordinates are the same value.
    pub proof fn lemma_view_injective(a: Secq256k1, b: Secq256k1)
        requires
            a@ == b@,
        ensures
            a == b,
    {
        Fp::lemma_value_injective(a.x, b.x);
        Fp::lemma_value_injective(a.y, b.y);
        Fp::lemma_value_injective(a.z, b.z);
    }

    /// Whether the three coordinates are reduced.
    pub fn is_reduced(&self) -> (r: bool)
        ensures
            r == self.wf(),
    {
        let rx = self.x.is_reduced();
        let ry = self.y.is_reduced();
        let rz = self.z.is_reduced();
        rx && ry && rz
    }

    /// The group's identity, the point at infinity.
    pub fn identity() -> (r: Secq256k1)
        ensures
            r.wf(),
            r@ == jac_identity(),
    {
        Secq256k1 { x: Fp::zero(), y: Fp::one(), z: Fp::zero() }
    }

    /// Whether the point is the identity.
    pub fn is_identity(&self) -> (r: bool)
        ensures
            r == (self@.z == 0),
    {
        self.z.is_zero()
    }

    /// Branch-free choice between two points.
    pub fn select(a: &Secq256k1, b: &Secq256k1, pick_second: bool) -> (r: Secq256k1)
        ensures
            r == if pick_second { *b } else { *a },
    {
        Secq256k1 {
            x: Fp::select(&a.x, &b.x, pick_second),
            y: Fp::select(&a.y, &b.y, pick_second),
            z: Fp::select(&a.z, &b.z, pick_second),
        }
    }

    /// Whether the coordinates satisfy the curve's equation.
    pub fn is_on_curve(&self) -> (r: bool)
        requires
            self.wf(),
        ensures
            r == jac_on_curve(self@),
    {
        let z2 = self.z.square();
        let z6 = z2.mul(&z2).mul(&z2);
        let x3 = self.x.square().mul(&self.x);
        let rhs = x3.add(&Fp::from_u64(7).mul(&z6));
        let on = self.y.square().equals(&rhs);
        let inf = self.z.is_zero();
        on || inf
    }

    /// Whether two points are the same group element, by cross-multiplication.
    pub fn equals(&self, other: &Secq256k1) -> (r: bool)
        requires
            self.wf(),
            other.wf(),
        ensures
            r == jac_same(self@, other@),
    {
        let z1z1 = self.z.square();
        let z2z2 = other.z.square();
        let u1 = self.x.mul(&z2z2);
        let u2 = other.x.mul(&z1z1);
        let s1 = self.y.mul(&other.z).mul(&z2z2);
        let s2 = other.y.mul(&self.z).mul(&z1z1);
        let inf1 = self.z.is_zero();
        let inf2 = other.z.is_zero();
        let same_x = u1.equals(&u2);
        let same_y = s1.equals(&s2);
        (inf1 && inf2) || (!inf1 && !inf2 && same_x && same_y)
    }

    /// The inverse of the point.
    pub fn neg(&self) -> (r: Secq256k1)
        requires
            self.wf(),
        ensures
            r.wf(),
            r@ == jac_neg(self@),
            jac_on_curve(self@) ==> jac_on_curve(r@),
    {
        proof {
            if jac_on_curve(self@) {
                lemma_neg_on_curve(self@);
            }
        }
        Secq256k1 { x: self.x, y: self.y.neg(), z: self.z }
    }

    /// Twice the point.
    pub fn double(&self) -> (r: Secq256k1)
        requires
            self.wf(),
        ensures
            r.wf(),
            r@ == jac_double(self@),
            jac_on_curve(self@) ==> jac_on_curve(r@),
    {
        proof {
            if jac_on_curve(self@) {
                lemma_double_on_curve(self@);
            }
        }
        let a = self.x.square();
        let b = self.y.square();
        let c = b.square();
        let d = self.x.add(&b).square().sub(&a).sub(&c).double();
        let e = a.double().add(&a);
        let f = e.square();
        let x3 = f.sub(&d.double());
        let c8 = c.double().double().double();
        let y3 = e.mul(&d.sub(&x3)).sub(&c8);
        let yz = self.y.mul(&self.z);
        let z3 = yz.double();
        let formula = Secq256k1 { x: x3, y: y3, z: z3 };
        let height = yz.mul(&self.z.square());
        let self_inverse = height.double().is_zero();
        let id = Self::identity();
        Self::select(&formula, &id, self_inverse)
    }

    /// The sum of two points.
    pub fn add(&self, rhs: &Secq256k1) -> (r: Secq256k1)
        requires
            self.wf(),
            rhs.wf(),
        ensures
            r.wf(),
            r@ == jac_add(self@, rhs@),
            jac_on_curve(self@) && jac_on_curve(rhs@) ==> jac_on_curve(r@),
    {
        proof {
            if jac_on_curve(self@) && jac_on_curve(rhs@) {
                lemma_add_on_curve(self@, rhs@);
            }
        }
        let z1z1 = self.z.square();
        let z2z2 = rhs.z.square();
        let u1 = self.x.mul(&z2z2);
        let u2 = rhs.x.mul(&z1z1);
        let s1 = self.y.mul(&rhs.z).mul(&z2z2);
        let s2 = rhs.y.mul(&self.z).mul(&z1z1);
        let h = u2.sub(&u1);
        let i = h.double().square();
        let j = h.mul(&i);
        let r = s2.sub(&s1).double();
        let v = u1.mul(&i);
        let x3 = r.square().sub(&j).sub(&v.double());
        let y3 = r.mul(&v.sub(&x3)).sub(&s1.mul(&j).double());
        let z3 = self.z.add(&rhs.z).square().sub(&z1z1).sub(&z2z2).mul(&h);
        let chord = Secq256k1 { x: x3, y: y3, z: z3 };
        let same_x = u1.equals(&u2);
        let same_y = s1.equals(&s2);
        let dbl = self.double();
        let id = Self::identity();
        let special = Self::select(&id, &dbl, same_y);
        let finite = Self::select(&chord, &special, same_x);
        let right = Self::select(&finite, self, rhs.is_identity());
        Self::select(&right, rhs, self.is_identity())
    }

    /// The difference of two points: the sum with the second one negated.
    pub fn sub(&self, rhs: &Secq256k1) -> (r: Secq256k1)
        requires
            self.wf(),
            rhs.wf(),
        ensures
            r.wf(),
            r@ == jac_add(self@, jac_neg(rhs@)),
            jac_on_curve(self@) && jac_on_curve(rhs@) ==> jac_on_curve(r@),
    {
        self.add(&rhs.neg())
    }
}


/// The mathematical content of an affine point: two residues, or the identity.
pub struct AffPoint {
    pub x: int,
    pub y: int,
    pub infinity: bool,
}

/// The identity in affine form.
pub open spec fn aff_identity() -> AffPoint {
    AffPoint { x: 0, y: 0, infinity: true }
}

/// Whether an affine point is the identity or satisfies `y^2 = x^3 + 7`.
pub open spec fn aff_on_curve(a: AffPoint) -> bool {
    a.infinity || fp_mul(a.y, a.y) == curve_rhs(a.x)
}

/// The affine point `(X u^2, Y u^3)` for a given inverse `u` of `Z`.
pub open spec fn jac_scale(p: JacPoint, u: int) -> AffPoint {
    let u2 = fp_mul(u, u);
    let u3 = fp_mul(u2, u);
    AffPoint { x: fp_mul(p.x, u2), y: fp_mul(p.y, u3), infinity: false }
}

/// The affine form of a Jacobian point: `(X / Z^2, Y / Z^3)` where `Z^(p-2)`
/// inverts `Z`, the identity where it does not (as for `Z = 0`).
pub open spec fn jac_to_affine(p: JacPoint) -> AffPoint {
    let u = fp_inv_candidate(p.z);
    if is_inverse(p.z, u, fp_modulus()) {
        jac_scale(p, u)
    } else {
        aff_identity()
    }
}

/// The Jacobian form of an affine point, with `Z = 1`.
pub open spec fn aff_to_jac(a: AffPoint) -> JacPoint {
    if a.infinity {
        jac_identity()
    } else {
        JacPoint { x: a.x, y: a.y, z: 1 }
    }
}

/// The generator's `x` coordinate.
pub open spec fn generator_x() -> int {
    0x9214b8774eb1412be7590cbef17c26fc2cabb9347a25101b860fee175831bb20int
}

/// The generator's `y` coordinate.
pub open spec fn generator_y() -> int {
    0x28cb5b51a30b5532ecc5b53440a7598a836a6e341a88892a14a1bc519466eb6bint
}

/// The header byte of an affine point's encoding: `0x80` for the identity,
/// otherwise the parity of `y`.
pub open spec fn header_of(a: AffPoint) -> int {
    if a.infinity {
        0x80
    } else if a.y % 2 == 1 {
        1
    } else {
        0
    }
}

/// The point that a header, an `x` coordinate and a square root of
/// `x^3 + 7` (or the lack of one) decode to. The root with the header's
/// parity is taken; where neither root has it, nothing is decoded.
pub open spec fn decode_choice(header: int, x: int, root: Option<int>) -> Option<AffPoint> {
    match root {
        None => None,
        Some(r) => {
            let y = if (r % 2 == 1) == (header == 1) {
                r
            } else {
                fp_neg(r)
            };
            if (y % 2 == 1) == (header == 1) {
                Some(AffPoint { x: x, y: y, infinity: false })
            } else {
                None
            }
        },
    }
}

/// The right-hand side `x^3 + 7` of the curve's equation.
pub open spec fn curve_rhs(x: int) -> int {
    fp_add(fp_mul(fp_mul(x, x), x), curve_b())
}

/// The mathematical content of a decoding result.
pub open spec fn aff_view(r: Option<Secq256k1Affine>) -> Option<AffPoint> {
    match r {
        Some(a) => Some(a@),
        None => None,
    }
}

/// A point of the curve in affine coordinates.
#[derive(Clone, Copy, Debug, PartialEq, Eq, Structural)]
pub struct Secq256k1Affine {
    pub x: Fp,
    pub y: Fp,
    pub infinity: bool,
}

impl View for Secq256k1Affine {
    type V = AffPoint;

    open spec fn view(&self) -> AffPoint {
        AffPoint { x: self.x.value(), y: self.y.value(), infinity: self.infinity }
    }
}

/// The 33 bytes of a compressed point: a header byte, then `x` in 32 bytes,
/// least significant first.
#[derive(Clone, Copy, Debug)]
pub struct Secq256k1Compressed {
    pub bytes: [u8; 33],
}

impl Secq256k1Affine {
    /// The coordinates are reduced, and the identity is held with zero coordinates.
    pub open spec fn wf(self) -> bool {
        &&& self.x.wf()
        &&& self.y.wf()
        &&& self.infinity ==> self.x.value() == 0 && self.y.value() == 0
    }

    /// Affine points with the same content are the same value.
    pub proof fn lemma_view_injective(a: Secq256k1Affine, b: Secq256k1Affine)
        requires
            a@ == b@,
        ensures
            a == b,
    {
        Fp::lemma_value_injective(a.x, b.x);
        Fp::lemma_value_injective(a.y, b.y);
    }

    /// Whether the coordinates are reduced and an identity is held with zero coordinates.
    pub fn is_reduced(&self) -> (r: bool)
        ensures
            r == self.wf(),
    {
        let rx = self.x.is_reduced();
        let ry = self.y.is_reduced();
        let zx = self.x.is_zero();
        let zy = self.y.is_zero();
        rx && ry && (!self.infinity || (zx && zy))
    }

    /// The identity.
    pub fn identity() -> (r: Secq256k1Affine)
        ensures
            r.wf(),
            r@ == aff_identity(),
    {
        Secq256k1Affine { x: Fp::zero(), y: Fp::zero(), infinity: true }
    }

    /// The generator.
    pub fn generator() -> (r: Secq256k1Affine)
        ensures
            r.wf(),
            r@ == (AffPoint { x: generator_x(), y: generator_y(), infinity: false }),
            aff_on_curve(r@),
    {
        let x = Fp { limbs: U256 { l0: 0x860fee175831bb20, l1: 0x2cabb9347a25101b, l2: 0xe7590cbef17c26fc, l3: 0x9214b8774eb1412b } };
        let y = Fp { limbs: U256 { l0: 0x14a1bc519466eb6b, l1: 0x836a6e341a88892a, l2: 0xecc5b53440a7598a, l3: 0x28cb5b51a30b5532 } };
        proof {
            lemma_generator_on_curve();
        }
        Secq256k1Affine { x, y, infinity: false }
    }

    /// Whether the point is the identity.
    pub fn is_identity(&self) -> (r: bool)
        ensures
            r == self@.infinity,
    {
        self.infinity
    }

    /// Whether the point is the identity or satisfies the curve's equation.
    pub fn is_on_curve(&self) -> (r: bool)
        requires
            self.wf(),
        ensures
            r == aff_on_curve(self@),
    {
        let rhs = self.x.square().mul(&self.x).add(&Fp::from_u64(7));
        let on = self.y.square().equals(&rhs);
        on || self.infinity
    }

    /// Whether two affine points are the same.
    pub fn equals(&self, other: &Secq256k1Affine) -> (r: bool)
        requires
            self.wf(),
            other.wf(),
        ensures
            r == (self@ == other@),
            r == (*self == *other),
    {
        let ex = self.x.equals(&other.x);
        let ey = self.y.equals(&other.y);
        let ei = self.infinity == other.infinity;
        ex && ey && ei
    }

    /// Branch-free choice between two affine points.
    pub fn select(a: &Secq256k1Affine, b: &Secq256k1Affine, pick_second: bool) -> (r: Secq256k1Affine)
        ensures
            r == if pick_second { *b } else { *a },
    {
        Secq256k1Affine {
            x: Fp::select(&a.x, &b.x, pick_second),
            y: Fp::select(&a.y, &b.y, pick_second),
            infinity: (a.infinity && !pick_second) || (b.infinity && pick_second),
        }
    }

    /// The inverse of the point.
    pub fn neg(&self) -> (r: Secq256k1Affine)
        requires
            self.wf(),
        ensures
            r.wf(),
            r@ == (AffPoint { x: self@.x, y: fp_neg(self@.y), infinity: self@.infinity }),
    {
        Secq256k1Affine { x: self.x, y: self.y.neg(), infinity: self.infinity }
    }

    /// The same point in Jacobian coordinates.
    pub fn to_curve(&self) -> (r: Secq256k1)
        requires
            self.wf(),
        ensures
            r.wf(),
            r@ == aff_to_jac(self@),
            aff_on_curve(self@) ==> jac_on_curve(r@),
    {
        proof {
            if aff_on_curve(self@) {
                lemma_to_curve_on_curve(self@);
            }
        }
        let finite = Secq256k1 { x: self.x, y: self.y, z: Fp::one() };
        let id = Secq256k1::identity();
        Secq256k1::select(&finite, &id, self.infinity)
    }

    /// The two coordinates, or `None` for the identity.
    pub fn coordinates(&self) -> (r: Option<(Fp, Fp)>)
        ensures
            r == if self.infinity { None } else { Some((self.x, self.y)) },
    {
        if self.infinity {
            None
        } else {
            Some((self.x, self.y))
        }
    }

    /// The two coordinates as they are held.
    pub fn into_coordinates(self) -> (r: (Fp, Fp))
        ensures
            r == (self.x, self.y),
    {
        (self.x, self.y)
    }

    /// The compressed encoding.
    pub fn to_bytes(&self) -> (r: Secq256k1Compressed)
        requires
            self.wf(),
        ensures
            r.bytes@[0] == header_of(self@),
            le_value(r.bytes@, 1) == self@.x,
    {
        let parity: u8 = if self.y.is_odd() { 1 } else { 0 };
        let header: u8 = if self.infinity { 0x80 } else { parity };
        Secq256k1Compressed { bytes: pack33(header, self.x.limbs) }
    }

    /// The point that a header, a coordinate and a root decode to.
    pub fn decode_with_root(header: u8, x: &Fp, root: Option<Fp>) -> (r: Option<Secq256k1Affine>)
        requires
            x.wf(),
            root is Some ==> root->0.wf(),
        ensures
            r is Some ==> r->0.wf(),
            aff_view(r) == decode_choice(
                header as int,
                x.value(),
                match root {
                    Some(v) => Some(v.value()),
                    None => None,
                },
            ),
    {
        match root {
            None => None,
            Some(v) => {
                let want_odd = header == 1;
                let flip = v.is_odd() != want_odd;
                let y = Fp::select(&v, &v.neg(), flip);
                if y.is_odd() == want_odd {
                    Some(Secq256k1Affine { x: *x, y, infinity: false })
                } else {
                    None
                }
            },
        }
    }

    /// Decodes a compressed point. The header must be `0x80` with `x = 0`
    /// for the identity, or `0` or `1` with a reduced `x` for which
    /// `x^3 + 7` has a square root with the header's parity.
    pub fn from_bytes(c: &Secq256k1Compressed) -> (r: Option<Secq256k1Affine>)
        ensures
            r is Some ==> r->0.wf() && aff_on_curve(r->0@),
            r is Some ==> header_of(r->0@) == c.bytes@[0] && r->0@.x == le_value(c.bytes@, 1),
            c.bytes@[0] == 0x80 ==> (r is Some <==> le_value(c.bytes@, 1) == 0),
            c.bytes@[0] == 0x80 && r is Some ==> r->0@ == aff_identity(),
            c.bytes@[0] != 0x80 && c.bytes@[0] != 0 && c.bytes@[0] != 1 ==> r is None,
            le_value(c.bytes@, 1) >= fp_modulus() ==> r is None,
            (c.bytes@[0] == 0 || c.bytes@[0] == 1) && le_value(c.bytes@, 1) < fp_modulus() ==> aff_view(r)
                == decode_choice(
                c.bytes@[0] as int,
                le_value(c.bytes@, 1),
                fp_sqrt(curve_rhs(le_value(c.bytes@, 1))),
            ),
    {
        let header = c.bytes[0];
        let raw = read_u256(&c.bytes, 1);
        let md = Fp::params();
        let (_d, borrow) = U256::sub_borrow(raw, md.m);
        if borrow != 1 {
            return None;
        }
        let x = Fp { limbs: raw };
        if header == 0x80 {
            if x.is_zero() {
                return Some(Self::identity());
            } else {
                return None;
            }
        }
        if header != 0 && header != 1 {
            return None;
        }
        let t = x.square().mul(&x).add(&Fp::from_u64(7));
        let root = t.sqrt();
        proof {
            if root is Some {
                lemma_neg_square(root->0.value());
            }
        }
        Self::decode_with_root(header, &x, root)
    }
}

impl Secq256k1 {
    /// The generator.
    pub fn generator() -> (r: Secq256k1)
        ensures
            r.wf(),
            r@ == (JacPoint { x: generator_x(), y: generator_y(), z: 1 }),
            r@ == aff_to_jac(AffPoint { x: generator_x(), y: generator_y(), infinity: false }),
            jac_on_curve(r@),
    {
        Secq256k1Affine::generator().to_curve()
    }

    /// The affine form of the point.
    pub fn to_affine(&self) -> (r: Secq256k1Affine)
        requires
            self.wf(),
        ensures
            r.wf(),
            r@ == jac_to_affine(self@),
            jac_on_curve(self@) ==> aff_on_curve(r@),
    {
        proof {
            if jac_on_curve(self@) {
                lemma_to_affine_on_curve(self@);
            }
        }
        match self.z.invert() {
            Some(u) => {
                let u2 = u.square();
                let u3 = u2.mul(&u);
                Secq256k1Affine { x: self.x.mul(&u2), y: self.y.mul(&u3), infinity: false }
            },
            None => Secq256k1Affine::identity(),
        }
    }

    /// The scalar multiple of the point. Every one of the scalar's 256 bits
    /// costs one doubling, one addition and one branch-free choice.
    pub fn scalar_mul(&self, k: &Fq) -> (r: Secq256k1)
        requires
            self.wf(),
        ensures
            r.wf(),
            r@ == jac_mul(self@, k.value() as nat),
            jac_on_curve(self@) ==> jac_on_curve(r@),
    {
        proof {
            if jac_on_curve(self@) {
                lemma_mul_on_curve(self@, k.value() as nat);
            }
        }
        let mut acc = Self::identity();
        let mut rem = k.limbs;
        let ghost mut hi: nat = 0;
        let mut i: u32 = 0;
        proof {
            lemma2_to64();
        }
        while i < 256
            invariant
                self.wf(),
                acc.wf(),
                i <= 256,
                k.value() * pow2(i as nat) == hi * radix4() + rem.value(),
                acc@ == jac_mul(self@, hi),
            decreases 256 - i,
        {
            let (next, c) = U256::add_carry(rem, rem);
            let d = acc.double();
            let s = d.add(self);
            proof {
                lemma_pow2_unfold((i + 1) as nat);
                lemma_bit_step(k.value(), pow2(i as nat) as int, hi, rem.value(), next.value(), c as int);
                lemma_mul_step(self@, hi, c as nat);
                hi = 2 * hi + c as nat;
            }
            acc = Self::select(&d, &s, c == 1);
            rem = next;
            i = i + 1;
        }
        proof {
            lemma_pow2_256();
            lemma_bits_done(k.value(), hi, rem.value());
        }
        acc
    }

    /// Maps the point into the prime-order subgroup. The cofactor is one, so
    /// the point stays as it is.
    pub fn clear_cofactor(&self) -> (r: Secq256k1)
        ensures
            r == *self,
    {
        *self
    }

    /// The point as a member of the prime-order subgroup, which is the whole group.
    pub fn into_subgroup(self) -> (r: Option<Secq256k1>)
        ensures
            r == Some(self),
    {
        Some(self)
    }

    /// Whether the point lies in the prime-order subgroup, which is the whole group.
    pub fn is_torsion_free(&self) -> (r: bool)
        ensures
            r,
    {
        true
    }

    /// Whether the curve declares a base for its efficient endomorphism.
    pub open spec fn has_endomorphism_base() -> bool {
        false
    }

    /// The image of the point under the curve's efficient endomorphism. This
    /// curve declares none, so no call can meet the precondition.
    pub fn endomorphism_base(&self) -> (r: Secq256k1)
        requires
            Self::has_endomorphism_base(),
        ensures
            r == *self,
    {
        *self
    }
}

/// Doubling the identity gives the identity.
pub proof fn lemma_double_identity()
    ensures
        jac_double(jac_identity()) == jac_identity(),
{
}

/// One more scalar bit doubles the multiple and, for a set bit, adds the point.
pub proof fn lemma_mul_step(p: JacPoint, hi: nat, c: nat)
    requires
        c <= 1,
    ensures
        jac_mul(p, 2 * hi + c) == {
            let d = jac_double(jac_mul(p, hi));
            if c == 1 {
                jac_add(d, p)
            } else {
                d
            }
        },
{
    let e = 2 * hi + c;
    if e == 0 {
        lemma_double_identity();
        assert(jac_mul(p, 0) == jac_identity());
    } else {
        assert(e / 2 == hi);
        assert(e % 2 == c);
    }
}

/// The generator satisfies the curve's equation.
pub proof fn lemma_generator_on_curve()
    ensures
        aff_on_curve(AffPoint { x: generator_x(), y: generator_y(), infinity: false }),
{
    let p = fp_modulus();
    let xx = 0xffc8c77c409a56b775ec9509146808f601788cca1d9685f2cd79b251e19590c5int;
    let xxx = 0x68d5bc96140303ee4935d31c686d08b5f2265c8cade3e67a6de59d7c3259420int;
    assert(0x9214b8774eb1412be7590cbef17c26fc2cabb9347a25101b860fee175831bb20int * 0x9214b8774eb1412be7590cbef17c26fc2cabb9347a25101b860fee175831bb20int == 0x535ba4156d5232c15167ea46d0ab2c6fda6603a946463671852aba732921997bint * 0xfffffffffffffffffffffffffffffffebaaedce6af48a03bbfd25e8cd0364141int + 0xffc8c77c409a56b775ec9509146808f601788cca1d9685f2cd79b251e19590c5int);
    assert(0xffc8c77c409a56b775ec9509146808f601788cca1d9685f2cd79b251e19590c5int * 0x9214b8774eb1412be7590cbef17c26fc2cabb9347a25101b860fee175831bb20int == 0x91f535c3f6e3626bfec734773d4c2a05e91a7a824fd7bed5ed39d70b06530b80int * 0xfffffffffffffffffffffffffffffffebaaedce6af48a03bbfd25e8cd0364141int + 0x68d5bc96140303ee4935d31c686d08b5f2265c8cade3e67a6de59d7c3259420int);
    assert(0x28cb5b51a30b5532ecc5b53440a7598a836a6e341a88892a14a1bc519466eb6bint * 0x28cb5b51a30b5532ecc5b53440a7598a836a6e341a88892a14a1bc519466eb6bint == 0x6802e1376ff428bac56d7bb61419f85f5eedeca89b0e2b701828552c4ba7412int * 0xfffffffffffffffffffffffffffffffebaaedce6af48a03bbfd25e8cd0364141int + 0x68d5bc96140303ee4935d31c686d08b5f2265c8cade3e67a6de59d7c3259427int);
    lemma_mod_of(generator_x() * generator_x(), p, 0x535ba4156d5232c15167ea46d0ab2c6fda6603a946463671852aba732921997bint, xx);
    lemma_mod_of(xx * generator_x(), p, 0x91f535c3f6e3626bfec734773d4c2a05e91a7a824fd7bed5ed39d70b06530b80int, xxx);
    lemma_mod_of(generator_y() * generator_y(), p, 0x6802e1376ff428bac56d7bb61419f85f5eedeca89b0e2b701828552c4ba7412int, 0x68d5bc96140303ee4935d31c686d08b5f2265c8cade3e67a6de59d7c3259427int);
    lemma_mod_of(xxx + 7, p, 0, xxx + 7);
}

/// A residue and its negative have the same square.
pub proof fn lemma_neg_square(r: int)
    requires
        0 <= r < fp_modulus(),
    ensures
        fp_mul(fp_neg(r), fp_neg(r)) == fp_mul(r, r),
{
    let p = fp_modulus();
    let d = p - r;
    lemma_mul_mod_left(d, d % p, p);
    lemma_mul_mod_right(d, d, p);
    assert(d * d == r * r + (p - 2 * r) * p) by (nonlinear_arith)
        requires
            d == p - r,
    ;
    lemma_mod_shift(d * d, r * r, p - 2 * r, p);
}

} // verus!
