//! Little-endian integers as they appear on the wire.

use vstd::prelude::*;

verus! {

/// The unsigned 16-bit value stored little-endian at `off`.
pub open spec fn le_u16(s: Seq<u8>, off: int) -> int {
    s[off] + 256 * s[off + 1]
}

/// The unsigned 32-bit value stored little-endian at `off`.
pub open spec fn le_u32(s: Seq<u8>, off: int) -> int {
    s[off] + 256 * s[off + 1] + 65536 * s[off + 2] + 16777216 * s[off + 3]
}

/// Two's complement reading of a 16-bit value.
pub open spec fn signed16(u: int) -> int {
    if u < 0x8000 { u } else { u - 0x1_0000 }
}

/// Two's complement reading of a 32-bit value.
pub open spec fn signed32(u: int) -> int {
    if u < 0x8000_0000 { u } else { u - 0x1_0000_0000 }
}

/// Reads an unsigned 16-bit little-endian value at `off`.
pub fn read_u16_le(s: &[u8], off: usize) -> (r: u16)
    requires
        off + 2 <= s@.len(),
    ensures
        r == le_u16(s@, off as int),
{
    let b0 = s[off] as u16;
    let b1 = s[off + 1] as u16;
    b0 + b1 * 256
}

/// Reads an unsigned 32-bit little-endian value at `off`.
pub fn read_u32_le(s: &[u8], off: usize) -> (r: u32)
    requires
        off + 4 <= s@.len(),
    ensures
        r == le_u32(s@, off as int),
{
    let b0 = s[off] as u32;
    let b1 = s[off + 1] as u32;
    let b2 = s[off + 2] as u32;
    let b3 = s[off + 3] as u32;
    b0 + b1 * 256 + b2 * 65536 + b3 * 16777216
}

/// Reads a signed 16-bit little-endian value at `off`.
pub fn read_i16_le(s: &[u8], off: usize) -> (r: i16)
    requires
        off + 2 <= s@.len(),
    ensures
        r == signed16(le_u16(s@, off as int)),
{
    let u = read_u16_le(s, off);
    if u < 0x8000 {
        u as i16
    } else {
        ((u - 0x8000) as i16) + i16::MIN
    }
}

/// Reads a signed 32-bit little-endian value at `off`.
pub fn read_i32_le(s: &[u8], off: usize) -> (r: i32)
    requires
        off + 4 <= s@.len(),
    ensures
        r == signed32(le_u32(s@, off as int)),
{
    let u = read_u32_le(s, off);
    if u < 0x8000_0000 {
        u as i32
    } else {
        ((u - 0x8000_0000) as i32) + i32::MIN
    }
}


/// A 16-bit little-endian value gives its bytes back: the low byte is the
/// first, the high byte the second, and the value fits in 16 bits.
pub proof fn lemma_le_u16_bytes(s: Seq<u8>, off: int)
    requires
        0 <= off,
        off + 2 <= s.len(),
    ensures
        0 <= le_u16(s, off) < 0x1_0000,
        le_u16(s, off) % 256 == s[off],
        le_u16(s, off) / 256 == s[off + 1],
{
    let v = le_u16(s, off);
    vstd::arithmetic::div_mod::lemma_fundamental_div_mod_converse(v, 256, s[off + 1] as int, s[off] as int);
}

/// A 32-bit little-endian value gives its four bytes back, least
/// significant first, and fits in 32 bits.
pub proof fn lemma_le_u32_bytes(s: Seq<u8>, off: int)
    requires
        0 <= off,
        off + 4 <= s.len(),
    ensures
        0 <= le_u32(s, off) < 0x1_0000_0000,
        le_u32(s, off) % 256 == s[off],
        (le_u32(s, off) / 256) % 256 == s[off + 1],
        (le_u32(s, off) / 65536) % 256 == s[off + 2],
        le_u32(s, off) / 16777216 == s[off + 3],
{
    let (b0, b1, b2, b3) = (s[off] as int, s[off + 1] as int, s[off + 2] as int, s[off + 3] as int);
    let v = le_u32(s, off);
    let q1 = b1 + 256 * b2 + 65536 * b3;
    let q2 = b2 + 256 * b3;
    vstd::arithmetic::div_mod::lemma_fundamental_div_mod_converse(v, 256, q1, b0);
    vstd::arithmetic::div_mod::lemma_fundamental_div_mod_converse(q1, 256, q2, b1);
    vstd::arithmetic::div_mod::lemma_fundamental_div_mod_converse(q2, 256, b3, b2);
    vstd::arithmetic::div_mod::lemma_fundamental_div_mod_converse(v, 65536, q2, b0 + 256 * b1);
    vstd::arithmetic::div_mod::lemma_fundamental_div_mod_converse(v, 16777216, b3, b0 + 256 * b1 + 65536 * b2);
}

/// The signed reading of a 16-bit value lies in the `i16` range and agrees
/// with the value modulo 2^16.
pub proof fn lemma_signed16(u: int)
    requires
        0 <= u < 0x1_0000,
    ensures
        -0x8000 <= signed16(u) < 0x8000,
        (signed16(u) - u) % 0x1_0000 == 0,
        u < 0x8000 <==> signed16(u) >= 0,
{
    if u >= 0x8000 {
        vstd::arithmetic::div_mod::lemma_fundamental_div_mod_converse(signed16(u) - u, 0x1_0000, -1, 0);
    } else {
        vstd::arithmetic::div_mod::lemma_fundamental_div_mod_converse(0, 0x1_0000, 0, 0);
    }
}

/// The signed reading of a 32-bit value lies in the `i32` range and agrees
/// with the value modulo 2^32.
pub proof fn lemma_signed32(u: int)
    requires
        0 <= u < 0x1_0000_0000,
    ensures
        -0x8000_0000 <= signed32(u) < 0x8000_0000,
        (signed32(u) - u) % 0x1_0000_0000 == 0,
        u < 0x8000_0000 <==> signed32(u) >= 0,
{
    if u >= 0x8000_0000 {
        vstd::arithmetic::div_mod::lemma_fundamental_div_mod_converse(signed32(u) - u, 0x1_0000_0000, -1, 0);
    } else {
        vstd::arithmetic::div_mod::lemma_fundamental_div_mod_converse(0, 0x1_0000_0000, 0, 0);
    }
}

} // verus!
