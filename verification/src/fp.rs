//! The base field: integers modulo the prime
//! `0xfffffffffffffffffffffffffffffffebaaedce6af48a03bbfd25e8cd0364141`.

use crate::bytes::{le_value, pack32, read_u256};
use crate::entropy::os_bytes;
use crate::limbs::{radix4, Modulus, U256};
use crate::modmath::{is_inverse, lemma_add_mod_left, lemma_mod_of, lemma_mod_shift, pow_mod};
use vstd::prelude::*;

verus! {

/// The field's prime modulus.
pub open spec fn fp_modulus() -> int {
    0xfffffffffffffffffffffffffffffffebaaedce6af48a03bbfd25e8cd0364141int
}

/// Sum in the field.
pub open spec fn fp_add(a: int, b: int) -> int {
    (a + b) % fp_modulus()
}

/// Difference in the field.
pub open spec fn fp_sub(a: int, b: int) -> int {
    (a - b) % fp_modulus()
}

/// Product in the field.
pub open spec fn fp_mul(a: int, b: int) -> int {
    (a * b) % fp_modulus()
}

/// Additive inverse in the field.
pub open spec fn fp_neg(a: int) -> int {
    (fp_modulus() - a) % fp_modulus()
}

/// The candidate inverse `a^(p - 2)`.
pub open spec fn fp_inv_candidate(a: int) -> int {
    pow_mod(a, (fp_modulus() - 2) as nat, fp_modulus())
}

/// The odd part `t` of `p - 1 = 64 * t`.
pub open spec fn fp_odd_part() -> nat {
    0x3fffffffffffffffffffffffffffffffaeabb739abd2280eeff497a3340d905nat
}

/// The square `z^2` of the 64th root of unity `z = 5^t`.
pub open spec fn fp_root_sq() -> int {
    0x4d9f73b0d6881f081744b161cd7d308a0598b473b237889d31aadb7b9dfe179fint
}

/// The inverse `z^(-1)` of the 64th root of unity `z = 5^t`.
pub open spec fn fp_root_inv() -> int {
    0xa8fd58ee0db34c3cdeb688eb1ac7b4ddc043c6f21c701f3e395de4d54d49888dint
}

/// The even power `z^(2j)` of the root of unity.
pub open spec fn root_even_power(j: nat) -> int
    decreases j,
{
    if j == 0 {
        1
    } else {
        fp_mul(root_even_power((j - 1) as nat), fp_root_sq())
    }
}

/// The power `z^(-j)` of the root of unity.
pub open spec fn root_correction(j: nat) -> int
    decreases j,
{
    if j == 0 {
        1
    } else {
        fp_mul(root_correction((j - 1) as nat), fp_root_inv())
    }
}

/// The corrected candidate `x * z^(-i)` for the greatest `i` below `j` with
/// `z^(2i) = b`, or zero where no such `i` exists.
pub open spec fn sqrt_search(x: int, b: int, j: nat) -> int
    decreases j,
{
    if j == 0 {
        0
    } else if root_even_power((j - 1) as nat) == b {
        fp_mul(x, root_correction((j - 1) as nat))
    } else {
        sqrt_search(x, b, (j - 1) as nat)
    }
}

/// The candidate square root of `a`: with `x = a^((t + 1) / 2)` and
/// `b = a^t`, so that `x^2 = a * b`, the product `x * z^(-i)` for the `i`
/// below 32 with `z^(2i) = b`. Zero for `a = 0`.
pub open spec fn fp_sqrt_candidate(a: int) -> int {
    if a == 0 {
        0
    } else {
        sqrt_search(
            pow_mod(a, (fp_odd_part() + 1) / 2, fp_modulus()),
            pow_mod(a, fp_odd_part(), fp_modulus()),
            32,
        )
    }
}

/// The square root that the field finds: the candidate where its square is
/// `a`, nothing otherwise.
pub open spec fn fp_sqrt(a: int) -> Option<int> {
    let c = fp_sqrt_candidate(a);
    if fp_mul(c, c) == a {
        Some(c)
    } else {
        None
    }
}

/// An element of the field, held as its least non-negative residue.
#[derive(Clone, Copy, Debug, PartialEq, Eq, Structural)]
pub struct Fp {
    pub limbs: U256,
}

impl Fp {
    /// The residue as an integer.
    pub open spec fn value(self) -> int {
        self.limbs.value()
    }

    /// The residue is reduced.
    pub open spec fn wf(self) -> bool {
        self.limbs.value() < fp_modulus()
    }

    /// Elements with the same residue are the same element.
    pub proof fn lemma_value_injective(a: Fp, b: Fp)
        requires
            a.value() == b.value(),
        ensures
            a == b,
    {
        U256::lemma_value_injective(a.limbs, b.limbs);
    }

    /// The modulus and its complement to 2^256.
    pub fn params() -> (md: Modulus)
        ensures
            md.wf(),
            md.p() == fp_modulus(),
    {
        Modulus {
            m: U256 { l0: 0xbfd25e8cd0364141, l1: 0xbaaedce6af48a03b, l2: 0xfffffffffffffffe, l3: 0xffffffffffffffff },
            c: U256 { l0: 0x402da1732fc9bebf, l1: 0x4551231950b75fc4, l2: 0x1, l3: 0 },
        }
    }

    /// Whether the limbs hold a reduced residue.
    pub fn is_reduced(&self) -> (r: bool)
        ensures
            r == self.wf(),
    {
        let (_d, borrow) = U256::sub_borrow(self.limbs, Self::params().m);
        borrow == 1
    }

    pub fn zero() -> (r: Fp)
        ensures
            r.wf(),
            r.value() == 0,
    {
        Fp { limbs: U256::zero() }
    }

    pub fn one() -> (r: Fp)
        ensures
            r.wf(),
            r.value() == 1,
    {
        Fp { limbs: U256::one() }
    }

    /// The element that a machine word stands for.
    pub fn from_u64(w: u64) -> (r: Fp)
        ensures
            r.wf(),
            r.value() == w,
    {
        Fp { limbs: U256 { l0: w, l1: 0, l2: 0, l3: 0 } }
    }

    /// The element that four limbs, least significant first, stand for, reduced.
    pub fn from_raw(l: [u64; 4]) -> (r: Fp)
        ensures
            r.wf(),
            r.value() == (U256 { l0: l@[0], l1: l@[1], l2: l@[2], l3: l@[3] }).value() % fp_modulus(),
    {
        let md = Self::params();
        let raw = U256 { l0: l[0], l1: l[1], l2: l[2], l3: l[3] };
        Fp { limbs: md.reduce_once(raw, 0) }
    }

    pub fn add(&self, rhs: &Fp) -> (r: Fp)
        requires
            self.wf(),
            rhs.wf(),
        ensures
            r.wf(),
            r.value() == fp_add(self.value(), rhs.value()),
    {
        Fp { limbs: Self::params().add_mod(self.limbs, rhs.limbs) }
    }

    pub fn sub(&self, rhs: &Fp) -> (r: Fp)
        requires
            self.wf(),
            rhs.wf(),
        ensures
            r.wf(),
            r.value() == fp_sub(self.value(), rhs.value()),
    {
        Fp { limbs: Self::params().sub_mod(self.limbs, rhs.limbs) }
    }

    pub fn neg(&self) -> (r: Fp)
        requires
            self.wf(),
        ensures
            r.wf(),
            r.value() == fp_neg(self.value()),
    {
        Fp { limbs: Self::params().neg_mod(self.limbs) }
    }

    pub fn double(&self) -> (r: Fp)
        requires
            self.wf(),
        ensures
            r.wf(),
            r.value() == fp_add(self.value(), self.value()),
    {
        self.add(self)
    }

    pub fn mul(&self, rhs: &Fp) -> (r: Fp)
        requires
            self.wf(),
            rhs.wf(),
        ensures
            r.wf(),
            r.value() == fp_mul(self.value(), rhs.value()),
    {
        Fp { limbs: Self::params().mul_mod(self.limbs, rhs.limbs) }
    }

    pub fn square(&self) -> (r: Fp)
        requires
            self.wf(),
        ensures
            r.wf(),
            r.value() == fp_mul(self.value(), self.value()),
    {
        self.mul(self)
    }

    /// The power with a 256-bit exponent.
    pub fn pow(&self, e: U256) -> (r: Fp)
        requires
            self.wf(),
        ensures
            r.wf(),
            r.value() == pow_mod(self.value(), e.value() as nat, fp_modulus()),
    {
        Fp { limbs: Self::params().pow(self.limbs, e) }
    }

    /// The multiplicative inverse, found as `a^(p - 2)` and checked by one
    /// multiplication. Zero has none.
    pub fn invert(&self) -> (r: Option<Fp>)
        requires
            self.wf(),
        ensures
            r is Some <==> is_inverse(self.value(), fp_inv_candidate(self.value()), fp_modulus()),
            r is Some ==> r->0.wf() && r->0.value() == fp_inv_candidate(self.value()),
            self.value() == 0 ==> r is None,
    {
        let e = U256 { l0: 0xbfd25e8cd036413f, l1: 0xbaaedce6af48a03b, l2: 0xfffffffffffffffe, l3: 0xffffffffffffffff };
        let cand = self.pow(e);
        let check = self.mul(&cand);
        let ok = check.limbs.equals(U256::one());
        proof {
            if self.value() == 0 {
                assert(self.value() * cand.value() == 0) by (nonlinear_arith)
                    requires
                        self.value() == 0,
                ;
            }
        }
        if ok {
            Some(cand)
        } else {
            None
        }
    }

    /// A square root, if the search finds one: the candidate is computed
    /// and checked by one squaring.
    pub fn sqrt(&self) -> (r: Option<Fp>)
        requires
            self.wf(),
        ensures
            r is Some ==> r->0.wf() && fp_mul(r->0.value(), r->0.value()) == self.value(),
            (match r {
                Some(y) => Some(y.value()),
                None => None,
            }) == fp_sqrt(self.value()),
            self.value() == 0 ==> r is Some && r->0.value() == 0,
    {
        let md = Self::params();
        let half = U256 { l0: 0x777fa4bd19a06c83, l1: 0xfd755db9cd5e9140, l2: 0xffffffffffffffff, l3: 0x1ffffffffffffff };
        let odd = U256 { l0: 0xeeff497a3340d905, l1: 0xfaeabb739abd2280, l2: 0xffffffffffffffff, l3: 0x3ffffffffffffff };
        let root_sq = U256 { l0: 0x31aadb7b9dfe179f, l1: 0x598b473b237889d, l2: 0x1744b161cd7d308a, l3: 0x4d9f73b0d6881f08 };
        let root_inv = U256 { l0: 0x395de4d54d49888d, l1: 0xc043c6f21c701f3e, l2: 0xdeb688eb1ac7b4dd, l3: 0xa8fd58ee0db34c3c };
        let x = md.pow(self.limbs, half);
        let b = md.pow(self.limbs, odd);
        let nonzero = !self.is_zero();
        let mut found = U256::zero();
        let mut even_power = U256::one();
        let mut correction = U256::one();
        let mut j: u32 = 0;
        while j < 32
            invariant
                j <= 32,
                md.wf(),
                md.p() == fp_modulus(),
                root_sq.value() == fp_root_sq(),
                root_inv.value() == fp_root_inv(),
                nonzero == (self.value() != 0),
                0 <= found.value() < fp_modulus(),
                found.value() == if nonzero { sqrt_search(x.value(), b.value(), j as nat) } else { 0 },
                even_power.value() == root_even_power(j as nat),
                correction.value() == root_correction(j as nat),
            decreases 32 - j,
        {
            let hit = even_power.equals(b) && nonzero;
            let cand = md.mul_mod(x, correction);
            found = U256::select(found, cand, hit);
            even_power = md.mul_mod(even_power, root_sq);
            correction = md.mul_mod(correction, root_inv);
            j = j + 1;
        }
        let check = md.mul_mod(found, found);
        let ok = check.equals(self.limbs);
        proof {
            if self.value() == 0 {
                assert(found.value() * found.value() == 0) by (nonlinear_arith)
                    requires
                        found.value() == 0,
                ;
            }
        }
        if ok {
            Some(Fp { limbs: found })
        } else {
            None
        }
    }

    pub fn is_zero(&self) -> (r: bool)
        ensures
            r == (self.value() == 0),
    {
        self.limbs.equals(U256::zero())
    }

    /// Branch-free equality test.
    pub fn equals(&self, other: &Fp) -> (r: bool)
        ensures
            r == (self.value() == other.value()),
            r == (*self == *other),
    {
        self.limbs.equals(other.limbs)
    }

    /// Whether the residue is odd.
    pub fn is_odd(&self) -> (r: bool)
        ensures
            r == (self.value() % 2 == 1),
    {
        self.limbs.l0 % 2 == 1
    }

    /// Branch-free choice between two elements.
    pub fn select(a: &Fp, b: &Fp, pick_second: bool) -> (r: Fp)
        ensures
            r == if pick_second { *b } else { *a },
    {
        Fp { limbs: U256::select(a.limbs, b.limbs, pick_second) }
    }

    /// The 32 bytes of the residue, least significant first.
    pub fn to_repr(&self) -> (r: [u8; 32])
        ensures
            le_value(r@, 0) == self.value(),
    {
        pack32(self.limbs)
    }

    /// The element whose residue the 32 bytes spell, if they spell a reduced one.
    pub fn from_repr(bytes: &[u8; 32]) -> (r: Option<Fp>)
        ensures
            r is Some <==> le_value(bytes@, 0) < fp_modulus(),
            r is Some ==> r->0.wf() && r->0.value() == le_value(bytes@, 0),
    {
        let v = read_u256(bytes, 0);
        let md = Self::params();
        let (_d, borrow) = U256::sub_borrow(v, md.m);
        if borrow == 1 {
            Some(Fp { limbs: v })
        } else {
            None
        }
    }

    /// The 512-bit integer that 64 bytes spell, least significant first, reduced.
    pub fn from_bytes_wide(bytes: &[u8; 64]) -> (r: Fp)
        ensures
            r.wf(),
            r.value() == (le_value(bytes@, 0) + le_value(bytes@, 32) * radix4()) % fp_modulus(),
    {
        let md = Self::params();
        let lo = read_u256(bytes, 0);
        let hi = read_u256(bytes, 32);
        let lo_r = md.reduce_once(lo, 0);
        let hi_r = md.mul_mod(hi, md.c);
        let r = md.add_mod(lo_r, hi_r);
        proof {
            let p = fp_modulus();
            let cv = md.c.value();
            let t = hi.value() * cv;
            assert(hi.value() * radix4() == t + hi.value() * p) by (nonlinear_arith)
                requires
                    t == hi.value() * cv,
                    p + cv == radix4(),
            ;
            lemma_add_mod_left(lo.value(), hi_r.value(), p);
            lemma_add_mod_left(t, lo.value(), p);
            lemma_mod_shift(lo.value() + hi.value() * radix4(), lo.value() + t, hi.value(), p);
        }
        Fp { limbs: r }
    }

    /// An element drawn from the operating system's random source, or `None`
    /// where the source fails.
    pub fn random() -> (r: Option<Fp>)
        ensures
            r is Some ==> r->0.wf(),
    {
        Self::from_drawn(os_bytes())
    }

    /// The element that a draw from a random source gives: the 64 bytes
    /// reduced as a 512-bit integer, or `None` where the draw failed.
    pub fn from_drawn(drawn: Option<[u8; 64]>) -> (r: Option<Fp>)
        ensures
            r is Some <==> drawn is Some,
            drawn is Some ==> r->0.wf() && r->0.value() == (le_value(drawn->0@, 0) + le_value(
                drawn->0@,
                32,
            ) * radix4()) % fp_modulus(),
    {
        match drawn {
            Some(bytes) => Some(Self::from_bytes_wide(&bytes)),
            None => None,
        }
    }
}

} // verus!
