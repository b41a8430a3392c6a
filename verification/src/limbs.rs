//! 256-bit integers of four 64-bit limbs, and arithmetic on them modulo a
//! modulus above 2^255.

use crate::ct::{select_word, words_equal};
use crate::modmath::{lemma_add_mod_left, lemma_mod_of, lemma_mod_shift, lemma_mul_bound, lemma_mul_mod_left};
use crate::modmath::{lemma_pow_adds, pow_mod};
use vstd::arithmetic::power2::{lemma2_to64, lemma_pow2_adds, lemma_pow2_unfold, pow2};
use vstd::prelude::*;

verus! {

/// The limb radix, 2^64.
pub const RADIX: u128 = 0x1_0000_0000_0000_0000;

/// 2^128.
pub open spec fn radix2() -> int {
    0x1_0000_0000_0000_0000_0000_0000_0000_0000int
}

/// 2^192.
pub open spec fn radix3() -> int {
    0x1_0000_0000_0000_0000_0000_0000_0000_0000_0000_0000_0000_0000int
}

/// 2^256.
pub open spec fn radix4() -> int {
    0x1_0000_0000_0000_0000_0000_0000_0000_0000_0000_0000_0000_0000_0000_0000_0000_0000int
}

/// A 256-bit unsigned integer, least significant limb first.
#[derive(Clone, Copy, Debug, PartialEq, Eq, Structural)]
pub struct U256 {
    pub l0: u64,
    pub l1: u64,
    pub l2: u64,
    pub l3: u64,
}

impl U256 {
    /// The integer that the four limbs stand for.
    pub open spec fn value(self) -> int {
        self.l0 + self.l1 * (RADIX as int) + self.l2 * radix2() + self.l3 * radix3()
    }

    /// Two limb vectors with the same value have the same limbs.
    pub proof fn lemma_value_injective(a: U256, b: U256)
        requires
            a.value() == b.value(),
        ensures
            a == b,
    {
        let b1 = RADIX as int;
        let ha = a.l1 + a.l2 * b1 + a.l3 * radix2();
        let hb = b.l1 + b.l2 * b1 + b.l3 * radix2();
        lemma_mod_of(a.value(), b1, ha, a.l0 as int);
        lemma_mod_of(b.value(), b1, hb, b.l0 as int);
        assert(ha == hb);
        let ga = a.l2 + a.l3 * b1;
        let gb = b.l2 + b.l3 * b1;
        lemma_mod_of(ha, b1, ga, a.l1 as int);
        lemma_mod_of(hb, b1, gb, b.l1 as int);
        assert(ga == gb);
        lemma_mod_of(ga, b1, a.l3 as int, a.l2 as int);
        lemma_mod_of(gb, b1, b.l3 as int, b.l2 as int);
    }

    pub fn zero() -> (r: U256)
        ensures
            r.value() == 0,
    {
        U256 { l0: 0, l1: 0, l2: 0, l3: 0 }
    }

    pub fn one() -> (r: U256)
        ensures
            r.value() == 1,
    {
        U256 { l0: 1, l1: 0, l2: 0, l3: 0 }
    }

    /// Branch-free choice between two integers.
    pub fn select(a: U256, b: U256, pick_second: bool) -> (r: U256)
        ensures
            r == if pick_second { b } else { a },
    {
        U256 {
            l0: select_word(a.l0, b.l0, pick_second),
            l1: select_word(a.l1, b.l1, pick_second),
            l2: select_word(a.l2, b.l2, pick_second),
            l3: select_word(a.l3, b.l3, pick_second),
        }
    }

    /// Branch-free equality test.
    pub fn equals(self, other: U256) -> (r: bool)
        ensures
            r == (self.value() == other.value()),
            r == (self == other),
    {
        let e0 = words_equal(self.l0, other.l0);
        let e1 = words_equal(self.l1, other.l1);
        let e2 = words_equal(self.l2, other.l2);
        let e3 = words_equal(self.l3, other.l3);
        proof {
            if self.value() == other.value() {
                U256::lemma_value_injective(self, other);
            }
        }
        e0 && e1 && e2 && e3
    }

    /// Sum with carry out.
    pub fn add_carry(a: U256, b: U256) -> (r: (U256, u64))
        ensures
            r.1 <= 1,
            r.0.value() + r.1 * radix4() == a.value() + b.value(),
    {
        let s0: u128 = a.l0 as u128 + b.l0 as u128;
        let s1: u128 = a.l1 as u128 + b.l1 as u128 + s0 / RADIX;
        let s2: u128 = a.l2 as u128 + b.l2 as u128 + s1 / RADIX;
        let s3: u128 = a.l3 as u128 + b.l3 as u128 + s2 / RADIX;
        let r = U256 {
            l0: (s0 % RADIX) as u64,
            l1: (s1 % RADIX) as u64,
            l2: (s2 % RADIX) as u64,
            l3: (s3 % RADIX) as u64,
        };
        (r, (s3 / RADIX) as u64)
    }

    /// Difference with borrow out.
    pub fn sub_borrow(a: U256, b: U256) -> (r: (U256, u64))
        ensures
            r.1 <= 1,
            r.0.value() - r.1 * radix4() == a.value() - b.value(),
    {
        let t0: u128 = RADIX + a.l0 as u128 - b.l0 as u128;
        let k0: u128 = 1 - t0 / RADIX;
        let t1: u128 = RADIX + a.l1 as u128 - b.l1 as u128 - k0;
        let k1: u128 = 1 - t1 / RADIX;
        let t2: u128 = RADIX + a.l2 as u128 - b.l2 as u128 - k1;
        let k2: u128 = 1 - t2 / RADIX;
        let t3: u128 = RADIX + a.l3 as u128 - b.l3 as u128 - k2;
        let k3: u128 = 1 - t3 / RADIX;
        let r = U256 {
            l0: (t0 % RADIX) as u64,
            l1: (t1 % RADIX) as u64,
            l2: (t2 % RADIX) as u64,
            l3: (t3 % RADIX) as u64,
        };
        (r, k3 as u64)
    }

    /// Product with one limb: a 256-bit low part and a high limb.
    pub fn mul_word(x: U256, w: u64) -> (r: (U256, u64))
        ensures
            r.0.value() + r.1 * radix4() == x.value() * w,
    {
        proof {
            lemma_mul_bound(x.l0 as int, w as int, 0xffff_ffff_ffff_ffff, 0xffff_ffff_ffff_ffff);
            lemma_mul_bound(x.l1 as int, w as int, 0xffff_ffff_ffff_ffff, 0xffff_ffff_ffff_ffff);
            lemma_mul_bound(x.l2 as int, w as int, 0xffff_ffff_ffff_ffff, 0xffff_ffff_ffff_ffff);
            lemma_mul_bound(x.l3 as int, w as int, 0xffff_ffff_ffff_ffff, 0xffff_ffff_ffff_ffff);
        }
        let g0: u128 = (x.l0 as u128) * (w as u128);
        let g1: u128 = (x.l1 as u128) * (w as u128) + g0 / RADIX;
        let g2: u128 = (x.l2 as u128) * (w as u128) + g1 / RADIX;
        let g3: u128 = (x.l3 as u128) * (w as u128) + g2 / RADIX;
        let r = U256 {
            l0: (g0 % RADIX) as u64,
            l1: (g1 % RADIX) as u64,
            l2: (g2 % RADIX) as u64,
            l3: (g3 % RADIX) as u64,
        };
        let hi: u64 = (g3 / RADIX) as u64;
        proof {
            let a0 = x.l0 as int * w as int;
            let a1 = x.l1 as int * w as int;
            let a2 = x.l2 as int * w as int;
            let a3 = x.l3 as int * w as int;
            assert(x.value() * w == a0 + a1 * (RADIX as int) + a2 * radix2() + a3 * radix3())
                by (nonlinear_arith)
                requires
                    x.value() == x.l0 + x.l1 * (RADIX as int) + x.l2 * radix2() + x.l3 * radix3(),
                    a0 == x.l0 as int * w as int,
                    a1 == x.l1 as int * w as int,
                    a2 == x.l2 as int * w as int,
                    a3 == x.l3 as int * w as int,
            ;
        }
        (r, hi)
    }
}


/// A modulus `m` above 2^255 together with `c = 2^256 - m`, where `c` is below 2^192.
#[derive(Clone, Copy, Debug)]
pub struct Modulus {
    pub m: U256,
    pub c: U256,
}

impl Modulus {
    /// The modulus as an integer.
    pub open spec fn p(self) -> int {
        self.m.value()
    }

    /// The two fields belong together and the modulus is large enough for one
    /// subtraction to finish every reduction.
    pub open spec fn wf(self) -> bool {
        &&& self.m.value() + self.c.value() == radix4()
        &&& self.c.l3 == 0
        &&& 2 * self.m.value() > radix4()
    }

    /// Reduces a value below twice the modulus, given as 256 bits and a carry.
    pub fn reduce_once(&self, a: U256, carry: u64) -> (r: U256)
        requires
            self.wf(),
            carry <= 1,
            a.value() + carry * radix4() < 2 * self.p(),
        ensures
            r.value() == (a.value() + carry * radix4()) % self.p(),
            0 <= r.value() < self.p(),
    {
        let (d, borrow) = U256::sub_borrow(a, self.m);
        let take = carry == 1 || borrow == 0;
        let r = U256::select(a, d, take);
        proof {
            let v = a.value() + carry * radix4();
            if take {
                lemma_mod_of(v, self.p(), 1, r.value());
            } else {
                lemma_mod_of(v, self.p(), 0, r.value());
            }
        }
        r
    }

    /// Sum of two reduced values.
    pub fn add_mod(&self, a: U256, b: U256) -> (r: U256)
        requires
            self.wf(),
            a.value() < self.p(),
            b.value() < self.p(),
        ensures
            r.value() == (a.value() + b.value()) % self.p(),
            0 <= r.value() < self.p(),
    {
        let (s, carry) = U256::add_carry(a, b);
        self.reduce_once(s, carry)
    }

    /// Additive inverse of a reduced value.
    pub fn neg_mod(&self, a: U256) -> (r: U256)
        requires
            self.wf(),
            a.value() < self.p(),
        ensures
            r.value() == (self.p() - a.value()) % self.p(),
            0 <= r.value() < self.p(),
    {
        let (d, _borrow) = U256::sub_borrow(self.m, a);
        let is_zero = a.equals(U256::zero());
        let r = U256::select(d, a, is_zero);
        proof {
            if is_zero {
                lemma_mod_of(self.p() - a.value(), self.p(), 1, 0);
            } else {
                lemma_mod_of(self.p() - a.value(), self.p(), 0, r.value());
            }
        }
        r
    }

    /// Difference of two reduced values.
    pub fn sub_mod(&self, a: U256, b: U256) -> (r: U256)
        requires
            self.wf(),
            a.value() < self.p(),
            b.value() < self.p(),
        ensures
            r.value() == (a.value() - b.value()) % self.p(),
            0 <= r.value() < self.p(),
    {
        let nb = self.neg_mod(b);
        let r = self.add_mod(a, nb);
        proof {
            lemma_add_mod_left(self.p() - b.value(), a.value(), self.p());
            lemma_mod_shift(self.p() - b.value() + a.value(), a.value() - b.value(), 1, self.p());
        }
        r
    }

    /// Reduces a 320-bit value given as 256 low bits and one high limb.
    pub fn fold(&self, lo: U256, hi: u64) -> (r: U256)
        requires
            self.wf(),
        ensures
            r.value() == (lo.value() + hi * radix4()) % self.p(),
            0 <= r.value() < self.p(),
    {
        let (t, th) = U256::mul_word(self.c, hi);
        let ghost cv = self.c.value();
        proof {
            lemma_mul_bound(cv, hi as int, radix3() - 1, 0xffff_ffff_ffff_ffff);
            assert(th == 0);
        }
        let (s, k) = U256::add_carry(lo, t);
        let extra = U256::select(U256::zero(), self.c, k == 1);
        let (u, k2) = U256::add_carry(s, extra);
        proof {
            assert(cv * hi + cv <= cv * 0x1_0000_0000_0000_0000) by (nonlinear_arith)
                requires
                    0 <= cv,
                    0 <= hi <= 0xffff_ffff_ffff_ffff,
            ;
            assert(k2 == 0);
            let v = lo.value() + hi * radix4();
            assert(hi * radix4() == hi * self.p() + cv * hi) by (nonlinear_arith)
                requires
                    self.p() + cv == radix4(),
            ;
            assert(v == u.value() + (k + hi) * self.p()) by (nonlinear_arith)
                requires
                    v == lo.value() + hi * radix4(),
                    hi * radix4() == hi * self.p() + cv * hi,
                    s.value() + k * radix4() == lo.value() + cv * hi,
                    u.value() == s.value() + k * cv,
                    self.p() + cv == radix4(),
            ;
            lemma_mod_shift(v, u.value(), k + hi, self.p());
        }
        self.reduce_once(u, 0)
    }

    /// One step of limb-wise multiplication: `acc * 2^64 + a * w`, reduced.
    pub fn mul_step(&self, acc: U256, a: U256, w: u64) -> (r: U256)
        requires
            self.wf(),
        ensures
            r.value() == (acc.value() * (RADIX as int) + a.value() * w) % self.p(),
            0 <= r.value() < self.p(),
    {
        let shifted = U256 { l0: 0, l1: acc.l0, l2: acc.l1, l3: acc.l2 };
        let x = self.fold(shifted, acc.l3);
        let (pl, ph) = U256::mul_word(a, w);
        let y = self.fold(pl, ph);
        let r = self.add_mod(x, y);
        proof {
            let e = acc.value() * (RADIX as int);
            let t = a.value() * w;
            assert(shifted.value() + acc.l3 * radix4() == e);
            lemma_add_mod_left(e, y.value(), self.p());
            lemma_add_mod_left(t, e, self.p());
        }
        r
    }

    /// Product of two values, reduced.
    pub fn mul_mod(&self, a: U256, b: U256) -> (r: U256)
        requires
            self.wf(),
        ensures
            r.value() == (a.value() * b.value()) % self.p(),
            0 <= r.value() < self.p(),
    {
        let r3 = self.mul_step(U256::zero(), a, b.l3);
        let r2 = self.mul_step(r3, a, b.l2);
        let r1 = self.mul_step(r2, a, b.l1);
        let r0 = self.mul_step(r1, a, b.l0);
        proof {
            let m = self.p();
            let av = a.value();
            let e3 = av * b.l3;
            let e2 = e3 * (RADIX as int) + av * b.l2;
            let e1 = e2 * (RADIX as int) + av * b.l1;
            let e0 = e1 * (RADIX as int) + av * b.l0;
            lemma_horner(e3, av * b.l2, m);
            lemma_horner(e2, av * b.l1, m);
            lemma_horner(e1, av * b.l0, m);
            assert(e0 == av * b.value()) by (nonlinear_arith)
                requires
                    e3 == av * b.l3,
                    e2 == e3 * (RADIX as int) + av * b.l2,
                    e1 == e2 * (RADIX as int) + av * b.l1,
                    e0 == e1 * (RADIX as int) + av * b.l0,
                    b.value() == b.l0 + b.l1 * (RADIX as int) + b.l2 * radix2() + b.l3 * radix3(),
                    RADIX as int == 0x1_0000_0000_0000_0000,
                    radix2() == 0x1_0000_0000_0000_0000 * 0x1_0000_0000_0000_0000,
                    radix3() == 0x1_0000_0000_0000_0000 * radix2(),
            ;
        }
        r0
    }

    /// Power of a reduced value, walking the exponent from its top bit down.
    pub fn pow(&self, a: U256, e: U256) -> (r: U256)
        requires
            self.wf(),
        ensures
            r.value() == pow_mod(a.value(), e.value() as nat, self.p()),
            0 <= r.value() < self.p(),
    {
        let mut acc = U256::one();
        let mut rem = e;
        let ghost mut hi: nat = 0;
        let mut i: u32 = 0;
        proof {
            lemma2_to64();
            lemma_mod_of(1, self.p(), 0, 1);
        }
        while i < 256
            invariant
                self.wf(),
                i <= 256,
                e.value() * pow2(i as nat) == hi * radix4() + rem.value(),
                acc.value() == pow_mod(a.value(), hi, self.p()),
                0 <= acc.value() < self.p(),
            decreases 256 - i,
        {
            let (next, c) = U256::add_carry(rem, rem);
            let sq = self.mul_mod(acc, acc);
            let prod = self.mul_mod(sq, a);
            proof {
                lemma_pow2_unfold((i + 1) as nat);
                lemma_bit_step(e.value(), pow2(i as nat) as int, hi, rem.value(), next.value(), c as int);
                lemma_pow_step(a.value(), hi, c as nat, self.p());
                hi = 2 * hi + c as nat;
            }
            acc = U256::select(sq, prod, c == 1);
            rem = next;
            i = i + 1;
        }
        proof {
            lemma_pow2_256();
            lemma_bits_done(e.value(), hi, rem.value());
        }
        acc
    }
}

/// Reducing the accumulator before a multiplication step does not change the step's result.
pub proof fn lemma_horner(e: int, t: int, m: int)
    requires
        m > 0,
    ensures
        ((e % m) * (RADIX as int) + t) % m == (e * (RADIX as int) + t) % m,
{
    lemma_mul_mod_left(e, RADIX as int, m);
    lemma_add_mod_left((e % m) * (RADIX as int), t, m);
    lemma_add_mod_left(e * (RADIX as int), t, m);
}

/// 2^256 as a power of two.
pub proof fn lemma_pow2_256()
    ensures
        pow2(256) == radix4(),
{
    lemma2_to64();
    lemma_pow2_adds(64, 64);
    lemma_pow2_adds(128, 128);
    let b = pow2(64) as int;
    let b2 = pow2(128) as int;
    assert(b == 0x1_0000_0000_0000_0000);
    assert(b2 == b * b);
    assert(b2 == radix2());
    assert(pow2(256) == b2 * b2);
    assert(b2 * b2 == radix4()) by (nonlinear_arith)
        requires
            b2 == 0x1_0000_0000_0000_0000_0000_0000_0000_0000,
            radix4() == 0x1_0000_0000_0000_0000_0000_0000_0000_0000_0000_0000_0000_0000_0000_0000_0000_0000,
    ;
}

/// Shifting the rest of a number left by one bit moves its top bit into the
/// part already read.
pub proof fn lemma_bit_step(ev: int, w: int, hi: nat, remv: int, nextv: int, c: int)
    requires
        ev * w == hi * radix4() + remv,
        nextv + c * radix4() == 2 * remv,
    ensures
        ev * (2 * w) == (2 * hi + c) * radix4() + nextv,
{
    assert(ev * (2 * w) == 2 * (ev * w)) by (nonlinear_arith);
}

/// After 256 shifts the part already read is the whole number.
pub proof fn lemma_bits_done(ev: int, hi: nat, remv: int)
    requires
        ev * radix4() == hi * radix4() + remv,
        0 <= remv < radix4(),
    ensures
        hi == ev,
        remv == 0,
{
}

/// One more exponent bit squares the power and, for a set bit, multiplies by the base.
pub proof fn lemma_pow_step(a: int, hi: nat, c: nat, m: int)
    requires
        m > 1,
        c <= 1,
    ensures
        pow_mod(a, 2 * hi + c, m) == {
            let h = pow_mod(a, hi, m);
            let s = (h * h) % m;
            if c == 1 {
                (s * a) % m
            } else {
                s
            }
        },
{
    let h = pow_mod(a, hi, m);
    lemma_pow_adds(a, hi, hi, m);
    assert(hi + hi == 2 * hi);
    if c == 1 {
        assert(((2 * hi + 1) - 1) as nat == 2 * hi);
        let s = (h * h) % m;
        assert(a * s == s * a) by (nonlinear_arith);
    }
}

} // verus!
