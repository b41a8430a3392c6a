//! The scalar field: integers modulo the prime `2^256 - 2^32 - 977`.

use crate::bytes::{le_value, pack32, read_u256};
use crate::entropy::os_bytes;
use crate::limbs::{radix4, Modulus, U256};
use crate::modmath::{is_inverse, lemma_add_mod_left, lemma_mod_of, lemma_mod_shift, pow_mod};
use vstd::prelude::*;

verus! {

/// The field's prime modulus.
pub open spec fn fq_modulus() -> int {
    0xfffffffffffffffffffffffffffffffffffffffffffffffffffffffefffffc2fint
}

/// Sum in the field.
pub open spec fn fq_add(a: int, b: int) -> int {
    (a + b) % fq_modulus()
}

/// Difference in the field.
pub open spec fn fq_sub(a: int, b: int) -> int {
    (a - b) % fq_modulus()
}

/// Product in the field.
pub open spec fn fq_mul(a: int, b: int) -> int {
    (a * b) % fq_modulus()
}

/// Additive inverse in the field.
pub open spec fn fq_neg(a: int) -> int {
    (fq_modulus() - a) % fq_modulus()
}

/// The candidate inverse `a^(p - 2)`.
pub open spec fn fq_inv_candidate(a: int) -> int {
    pow_mod(a, (fq_modulus() - 2) as nat, fq_modulus())
}

/// An element of the field, held as its least non-negative residue.
#[derive(Clone, Copy, Debug, PartialEq, Eq, Structural)]
pub struct Fq {
    pub limbs: U256,
}

impl Fq {
    /// The residue as an integer.
    pub open spec fn value(self) -> int {
        self.limbs.value()
    }

    /// The residue is reduced.
    pub open spec fn wf(self) -> bool {
        self.limbs.value() < fq_modulus()
    }

    /// Elements with the same residue are the same element.
    pub proof fn lemma_value_injective(a: Fq, b: Fq)
        requires
            a.value() == b.value(),
        ensures
            a == b,
    {
        U256::lemma_value_injective(a.limbs, b.limbs);
    }

    /// The modulus and its complement to 2^256.
    pub fn params() -> (md: Modulus)
        ensures
            md.wf(),
            md.p() == fq_modulus(),
    {
        Modulus {
            m: U256 { l0: 0xfffffffefffffc2f, l1: 0xffffffffffffffff, l2: 0xffffffffffffffff, l3: 0xffffffffffffffff },
            c: U256 { l0: 0x1000003d1, l1: 0x0, l2: 0x0, l3: 0 },
        }
    }

    /// Whether the limbs hold a reduced residue.
    pub fn is_reduced(&self) -> (r: bool)
        ensures
            r == self.wf(),
    {
        let (_d, borrow) = U256::sub_borrow(self.limbs, Self::params().m);
        borrow == 1
    }

    pub fn zero() -> (r: Fq)
        ensures
            r.wf(),
            r.value() == 0,
    {
        Fq { limbs: U256::zero() }
    }

    pub fn one() -> (r: Fq)
        ensures
            r.wf(),
            r.value() == 1,
    {
        Fq { limbs: U256::one() }
    }

    /// The element that a machine word stands for.
    pub fn from_u64(w: u64) -> (r: Fq)
        ensures
            r.wf(),
            r.value() == w,
    {
        Fq { limbs: U256 { l0: w, l1: 0, l2: 0, l3: 0 } }
    }

    /// The element that four limbs, least significant first, stand for, reduced.
    pub fn from_raw(l: [u64; 4]) -> (r: Fq)
        ensures
            r.wf(),
            r.value() == (U256 { l0: l@[0], l1: l@[1], l2: l@[2], l3: l@[3] }).value() % fq_modulus(),
    {
        let md = Self::params();
        let raw = U256 { l0: l[0], l1: l[1], l2: l[2], l3: l[3] };
        Fq { limbs: md.reduce_once(raw, 0) }
    }

    pub fn add(&self, rhs: &Fq) -> (r: Fq)
        requires
            self.wf(),
            rhs.wf(),
        ensures
            r.wf(),
            r.value() == fq_add(self.value(), rhs.value()),
    {
        Fq { limbs: Self::params().add_mod(self.limbs, rhs.limbs) }
    }

    pub fn sub(&self, rhs: &Fq) -> (r: Fq)
        requires
            self.wf(),
            rhs.wf(),
        ensures
            r.wf(),
            r.value() == fq_sub(self.value(), rhs.value()),
    {
        Fq { limbs: Self::params().sub_mod(self.limbs, rhs.limbs) }
    }

    pub fn neg(&self) -> (r: Fq)
        requires
            self.wf(),
        ensures
            r.wf(),
            r.value() == fq_neg(self.value()),
    {
        Fq { limbs: Self::params().neg_mod(self.limbs) }
    }

    pub fn double(&self) -> (r: Fq)
        requires
            self.wf(),
        ensures
            r.wf(),
            r.value() == fq_add(self.value(), self.value()),
    {
        self.add(self)
    }

    pub fn mul(&self, rhs: &Fq) -> (r: Fq)
        requires
            self.wf(),
            rhs.wf(),
        ensures
            r.wf(),
            r.value() == fq_mul(self.value(), rhs.value()),
    {
        Fq { limbs: Self::params().mul_mod(self.limbs, rhs.limbs) }
    }

    pub fn square(&self) -> (r: Fq)
        requires
            self.wf(),
        ensures
            r.wf(),
            r.value() == fq_mul(self.value(), self.value()),
    {
        self.mul(self)
    }

    /// The power with a 256-bit exponent.
    pub fn pow(&self, e: U256) -> (r: Fq)
        requires
            self.wf(),
        ensures
            r.wf(),
            r.value() == pow_mod(self.value(), e.value() as nat, fq_modulus()),
    {
        Fq { limbs: Self::params().pow(self.limbs, e) }
    }

    /// The multiplicative inverse, found as `a^(p - 2)` and checked by one
    /// multiplication. Zero has none.
    pub fn invert(&self) -> (r: Option<Fq>)
        requires
            self.wf(),
        ensures
            r is Some <==> is_inverse(self.value(), fq_inv_candidate(self.value()), fq_modulus()),
            r is Some ==> r->0.wf() && r->0.value() == fq_inv_candidate(self.value()),
            self.value() == 0 ==> r is None,
    {
        let e = U256 { l0: 0xfffffffefffffc2d, l1: 0xffffffffffffffff, l2: 0xffffffffffffffff, l3: 0xffffffffffffffff };
        let cand = self.pow(e);
        let check = self.mul(&cand);
        let ok = check.limbs.equals(U256::one());
        proof {
            if self.value() == 0 {
                assert(self.value() * cand.value() == 0) by (nonlinear_arith)
                    requires
                        self.value() == 0,
                ;
            }
        }
        if ok {
            Some(cand)
        } else {
            None
        }
    }

    pub fn is_zero(&self) -> (r: bool)
        ensures
            r == (self.value() == 0),
    {
        self.limbs.equals(U256::zero())
    }

    /// Branch-free equality test.
    pub fn equals(&self, other: &Fq) -> (r: bool)
        ensures
            r == (self.value() == other.value()),
            r == (*self == *other),
    {
        self.limbs.equals(other.limbs)
    }

    /// Whether the residue is odd.
    pub fn is_odd(&self) -> (r: bool)
        ensures
            r == (self.value() % 2 == 1),
    {
        self.limbs.l0 % 2 == 1
    }

    /// Branch-free choice between two elements.
    pub fn select(a: &Fq, b: &Fq, pick_second: bool) -> (r: Fq)
        ensures
            r == if pick_second { *b } else { *a },
    {
        Fq { limbs: U256::select(a.limbs, b.limbs, pick_second) }
    }

    /// The 32 bytes of the residue, least significant first.
    pub fn to_repr(&self) -> (r: [u8; 32])
        ensures
            le_value(r@, 0) == self.value(),
    {
        pack32(self.limbs)
    }

    /// The element whose residue the 32 bytes spell, if they spell a reduced one.
    pub fn from_repr(bytes: &[u8; 32]) -> (r: Option<Fq>)
        ensures
            r is Some <==> le_value(bytes@, 0) < fq_modulus(),
            r is Some ==> r->0.wf() && r->0.value() == le_value(bytes@, 0),
    {
        let v = read_u256(bytes, 0);
        let md = Self::params();
        let (_d, borrow) = U256::sub_borrow(v, md.m);
        if borrow == 1 {
            Some(Fq { limbs: v })
        } else {
            None
        }
    }

    /// The 512-bit integer that 64 bytes spell, least significant first, reduced.
    pub fn from_bytes_wide(bytes: &[u8; 64]) -> (r: Fq)
        ensures
            r.wf(),
            r.value() == (le_value(bytes@, 0) + le_value(bytes@, 32) * radix4()) % fq_modulus(),
    {
        let md = Self::params();
        let lo = read_u256(bytes, 0);
        let hi = read_u256(bytes, 32);
        let lo_r = md.reduce_once(lo, 0);
        let hi_r = md.mul_mod(hi, md.c);
        let r = md.add_mod(lo_r, hi_r);
        proof {
            let p = fq_modulus();
            let cv = md.c.value();
            let t = hi.value() * cv;
            assert(hi.value() * radix4() == t + hi.value() * p) by (nonlinear_arith)
                requires
                    t == hi.value() * cv,
                    p + cv == radix4(),
            ;
            lemma_add_mod_left(lo.value(), hi_r.value(), p);
            lemma_add_mod_left(t, lo.value(), p);
            lemma_mod_shift(lo.value() + hi.value() * radix4(), lo.value() + t, hi.value(), p);
        }
        Fq { limbs: r }
    }

    /// An element drawn from the operating system's random source, or `None`
    /// where the source fails.
    pub fn random() -> (r: Option<Fq>)
        ensures
            r is Some ==> r->0.wf(),
    {
        Self::from_drawn(os_bytes())
    }

    /// The element that a draw from a random source gives: the 64 bytes
    /// reduced as a 512-bit integer, or `None` where the draw failed.
    pub fn from_drawn(drawn: Option<[u8; 64]>) -> (r: Option<Fq>)
        ensures
            r is Some <==> drawn is Some,
            drawn is Some ==> r->0.wf() && r->0.value() == (le_value(drawn->0@, 0) + le_value(
                drawn->0@,
                32,
            ) * radix4()) % fq_modulus(),
    {
        match drawn {
            Some(bytes) => Some(Self::from_bytes_wide(&bytes)),
            None => None,
        }
    }
}

} // verus!
