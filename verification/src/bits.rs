//! Facts on single bits that several proofs share.

use vstd::prelude::*;

verus! {

/// Adding a number bit by bit twice changes nothing.
pub proof fn xor_twice(a: u32, b: u32, c: u8, d: u8, e: u64, f: u64)
    by (bit_vector)
    ensures
        (a ^ b) ^ b == a,
        (c ^ d) ^ d == c,
        (e ^ f) ^ f == e,
        0u32 ^ a == a,
        0u8 ^ c == c,
        a ^ 0u32 == a,
        c ^ 0u8 == c,
        a ^ a == 0,
        c ^ c == 0,
        a ^ b == b ^ a,
        c ^ d == d ^ c,
        ((c / 4 + 64 * (c % 4)) as u8) << 2u8 | ((c / 4 + 64 * (c % 4)) as u8) >> 6u8 == c,
        ((c / 8 + 32 * (c % 8)) as u8) << 3u8 | ((c / 8 + 32 * (c % 8)) as u8) >> 5u8 == c,
{
}

/// Pages and blocks by shifts and masks.
pub proof fn pages_by_shifts(x: u32, p: u32)
    by (bit_vector)
    requires
        p < 0x10_0000,
    ensures
        x >> 12u32 == x / 4096,
        p << 12u32 == p * 4096,
        x & 0xFu32 == x % 16,
        x & 0xFFFu32 == x % 4096,
        x >> 4u32 == x / 16,
{
}

/// A word that was turned left and is turned right again.
pub proof fn turns(x: u32, k: u32)
    by (bit_vector)
    requires
        k < 32,
    ensures
        (((x << k) | (x >> (((32 - k) % 32) as u32))) >> k) | (((x << k) | (x >> (((32 - k)
            % 32) as u32))) << (((32 - k) % 32) as u32)) == x,
{
}

/// A byte whose halves are exchanged twice.
pub proof fn half_turns(b: u8)
    by (bit_vector)
    ensures
        (((b / 16 + 16 * (b % 16)) as u8) >> 4u8) | (((b / 16 + 16 * (b % 16)) as u8) << 4u8) == b,
        b != 0 ==> (b / 16 + 16 * (b % 16)) as u8 != 0,
{
}

/// A number of words by shifts and complements.
pub proof fn four_by_shifts(size: u32, m: u32)
    by (bit_vector)
    requires
        m < 0x4000_0000,
        size == 4 * m,
    ensures
        size >> 2u32 == m,
        !size == 0xFFFF_FFFF - size,
{
}

/// The top bits of numbers.
pub proof fn tops(v: u64, w: u32)
    by (bit_vector)
    ensures
        v & 0x8000_0000_0000_0000u64 != 0 <==> v >= 0x8000_0000_0000_0000,
        w & 0x8000_0000u32 != 0 <==> w >= 0x8000_0000,
        v <= 0xFFFF_FFFF ==> (v as u32) as u64 == v,
{
}

/// What masks leave of a number.
pub proof fn masks(x: u32, y: u16)
    by (bit_vector)
    ensures
        x & 5u32 <= 5,
        x & 7u32 <= 7,
        x & 0xbu32 <= 11,
        x & 0xFu32 <= 15,
        x & 63u32 <= 63,
        x & 0xFFu32 <= 255,
        (x & 0xFFFu32) >> 4u32 <= 255,
        x >> 12u32 <= 0xF_FFFF,
        x & 0x00FF_FFFFu32 <= 0x00FF_FFFF,
        x & 0x8000_0000u32 == 0 <==> x < 0x8000_0000,
        x & 1u32 == x % 2,
        x >> 1u32 == x / 2,
        y & 0x7FFFu16 <= 0x7FFF,
{
}

/// The bits of a power of two.
pub proof fn power_bits(i: u32, j: u32)
    by (bit_vector)
    requires
        i < 32,
        j < 32,
    ensures
        ((1u32 << i) >> j) & 1 == (if i == j {
            1u32
        } else {
            0u32
        }),
{
}

/// The parts of a half-word and of a word.
pub proof fn parts_of_words(a: u8, b: u8, c: u8, d: u8)
    by (bit_vector)
    ensures
        ((a as u16) | ((b as u16) << 8u16)) as u8 == a,
        ((((a as u16) | ((b as u16) << 8u16)) >> 8u16) as u8) == b,
        ((a as u32) | ((b as u32) << 8u32) | ((c as u32) << 16u32) | ((d as u32) << 24u32)) as u8
            == a,
        (((a as u32) | ((b as u32) << 8u32) | ((c as u32) << 16u32) | ((d as u32) << 24u32))
            >> 8u32) as u8 == b,
        (((a as u32) | ((b as u32) << 8u32) | ((c as u32) << 16u32) | ((d as u32) << 24u32))
            >> 16u32) as u8 == c,
        (((a as u32) | ((b as u32) << 8u32) | ((c as u32) << 16u32) | ((d as u32) << 24u32))
            >> 24u32) as u8 == d,
        (a as u16) | ((b as u16) << 8u16) == a + 256 * b,
{
}

/// The parts of a table entry.
pub proof fn parts_of_entry(e: u16, pending: u32, payload: u32)
    by (bit_vector)
    requires
        pending < 256,
        payload < 256,
    ensures
        e & 0x8000u16 != 0 <==> e >= 0x8000,
        e & 0x7FFFu16 == e % 0x8000,
        ((e & 0x7FFFu16) as u32) & 0x300u32 == 256 * (e / 256 % 4),
        ((e & 0x7FFFu16) as u32) & 0xFFu32 == e % 256,
        (pending << 8u32) | payload == 256 * pending + payload,
{
}

/// A bit of a word of four bytes, and the low bits of a word.
pub proof fn bits_of_word(a: u8, b: u8, c: u8, d: u8, k: u32, w: u32, j: u32)
    by (bit_vector)
    requires
        k < 32,
        j < 32,
    ensures
        ((((a as u32) | ((b as u32) << 8u32) | ((c as u32) << 16u32) | ((d as u32) << 24u32)) >> k)
            & 1 == 1) <==> (((if k < 8 {
            a
        } else if k < 16 {
            b
        } else if k < 24 {
            c
        } else {
            d
        }) >> ((k % 8) as u8)) & 1 == 1),
        w & 0xFFu32 == (w & 1) + 2 * ((w >> 1u32) & 1) + 4 * ((w >> 2u32) & 1) + 8 * ((w >> 3u32)
            & 1) + 16 * ((w >> 4u32) & 1) + 32 * ((w >> 5u32) & 1) + 64 * ((w >> 6u32) & 1) + 128
            * ((w >> 7u32) & 1),
        w & (1u32 << j) != 0 <==> (w >> j) & 1 == 1,
        j < 31 ==> (1u32 << j) << 1u32 == 1u32 << ((j + 1) as u32),
        (w >> j) & 1 == 0 || (w >> j) & 1 == 1,
        w & 1 == (w >> 0u32) & 1,
{
}

/// Two shifts to the right are one.
pub proof fn shifts_add(w: u32, a: u32, b: u32)
    by (bit_vector)
    requires
        a < 8,
        b < 25,
    ensures
        (w >> a) >> b == w >> ((a + b) as u32),
{
}

/// Zero has no bits.
pub proof fn no_bits(j: u32, k: u8)
    by (bit_vector)
    ensures
        (0u8 >> k) & 1 == 0,
        (0u32 >> j) & 1 == 0,
{
}

} // verus!
