//! Little-endian byte strings and the integers they stand for.

use crate::limbs::{radix2, radix3, U256, RADIX};
use vstd::prelude::*;

verus! {

/// The 64-bit word that eight bytes starting at `off` stand for, least significant first.
pub open spec fn word_at(s: Seq<u8>, off: int) -> int {
    s[off] + s[off + 1] * 0x100 + s[off + 2] * 0x1_0000 + s[off + 3] * 0x100_0000 + s[off + 4]
        * 0x1_0000_0000 + s[off + 5] * 0x100_0000_0000 + s[off + 6] * 0x1_0000_0000_0000 + s[off
        + 7] * 0x100_0000_0000_0000
}

/// The 256-bit integer that 32 bytes starting at `off` stand for, least significant first.
pub open spec fn le_value(s: Seq<u8>, off: int) -> int {
    word_at(s, off) + word_at(s, off + 8) * (RADIX as int) + word_at(s, off + 16) * radix2()
        + word_at(s, off + 24) * radix3()
}

/// Reads one word from a byte array.
pub fn read_word<const N: usize>(buf: &[u8; N], off: usize) -> (w: u64)
    requires
        off + 8 <= N,
    ensures
        w == word_at(buf@, off as int),
{
    let b0: u64 = buf[off] as u64;
    let b1: u64 = buf[off + 1] as u64;
    let b2: u64 = buf[off + 2] as u64;
    let b3: u64 = buf[off + 3] as u64;
    let b4: u64 = buf[off + 4] as u64;
    let b5: u64 = buf[off + 5] as u64;
    let b6: u64 = buf[off + 6] as u64;
    let b7: u64 = buf[off + 7] as u64;
    b0 + b1 * 0x100 + b2 * 0x1_0000 + b3 * 0x100_0000 + b4 * 0x1_0000_0000 + b5 * 0x100_0000_0000
        + b6 * 0x1_0000_0000_0000 + b7 * 0x100_0000_0000_0000
}

/// Reads a 256-bit integer from a byte array.
pub fn read_u256<const N: usize>(buf: &[u8; N], off: usize) -> (r: U256)
    requires
        off + 32 <= N,
    ensures
        r.value() == le_value(buf@, off as int),
{
    U256 {
        l0: read_word(buf, off),
        l1: read_word(buf, off + 8),
        l2: read_word(buf, off + 16),
        l3: read_word(buf, off + 24),
    }
}

/// The eight bytes of a word, least significant first.
pub fn word_bytes(w: u64) -> (r: [u8; 8])
    ensures
        word_at(r@, 0) == w,
{
    let q1: u64 = w / 0x100;
    let q2: u64 = q1 / 0x100;
    let q3: u64 = q2 / 0x100;
    let q4: u64 = q3 / 0x100;
    let q5: u64 = q4 / 0x100;
    let q6: u64 = q5 / 0x100;
    let q7: u64 = q6 / 0x100;
    assert(q7 < 0x100);
    [
        (w % 0x100) as u8,
        (q1 % 0x100) as u8,
        (q2 % 0x100) as u8,
        (q3 % 0x100) as u8,
        (q4 % 0x100) as u8,
        (q5 % 0x100) as u8,
        (q6 % 0x100) as u8,
        q7 as u8,
    ]
}

/// The 33 bytes made of a header byte and the 32 bytes of an integer.
pub fn pack33(header: u8, x: U256) -> (r: [u8; 33])
    ensures
        r@[0] == header,
        le_value(r@, 1) == x.value(),
{
    let a = word_bytes(x.l0);
    let b = word_bytes(x.l1);
    let c = word_bytes(x.l2);
    let d = word_bytes(x.l3);
    [
        header,
        a[0], a[1], a[2], a[3], a[4], a[5], a[6], a[7],
        b[0], b[1], b[2], b[3], b[4], b[5], b[6], b[7],
        c[0], c[1], c[2], c[3], c[4], c[5], c[6], c[7],
        d[0], d[1], d[2], d[3], d[4], d[5], d[6], d[7],
    ]
}

/// The 32 bytes of an integer.
pub fn pack32(x: U256) -> (r: [u8; 32])
    ensures
        le_value(r@, 0) == x.value(),
{
    let a = word_bytes(x.l0);
    let b = word_bytes(x.l1);
    let c = word_bytes(x.l2);
    let d = word_bytes(x.l3);
    [
        a[0], a[1], a[2], a[3], a[4], a[5], a[6], a[7],
        b[0], b[1], b[2], b[3], b[4], b[5], b[6], b[7],
        c[0], c[1], c[2], c[3], c[4], c[5], c[6], c[7],
        d[0], d[1], d[2], d[3], d[4], d[5], d[6], d[7],
    ]
}

} // verus!
