//! The block cipher of the protected payloads: AES decryption rounds over
//! big-endian words with a stored round-key schedule, chained as in CBC with a
//! zero first vector.
//!
//! A schedule is a four-byte header, whose second half is the round count,
//! followed by `rounds + 1` round keys of four little-endian words each.

use vstd::prelude::*;

use crate::bits::{masks, pages_by_shifts};
use crate::bytes::{fits, get_u16, get_u32, le16, le32, put32, sub_vec, write_u32};

verus! {

/// Inverse of the AES S-box.
pub const INV_SBOX: [u8; 256] = [
    0x52, 0x09, 0x6A, 0xD5, 0x30, 0x36, 0xA5, 0x38, 0xBF, 0x40, 0xA3, 0x9E,
    0x81, 0xF3, 0xD7, 0xFB, 0x7C, 0xE3, 0x39, 0x82, 0x9B, 0x2F, 0xFF, 0x87,
    0x34, 0x8E, 0x43, 0x44, 0xC4, 0xDE, 0xE9, 0xCB, 0x54, 0x7B, 0x94, 0x32,
    0xA6, 0xC2, 0x23, 0x3D, 0xEE, 0x4C, 0x95, 0x0B, 0x42, 0xFA, 0xC3, 0x4E,
    0x08, 0x2E, 0xA1, 0x66, 0x28, 0xD9, 0x24, 0xB2, 0x76, 0x5B, 0xA2, 0x49,
    0x6D, 0x8B, 0xD1, 0x25, 0x72, 0xF8, 0xF6, 0x64, 0x86, 0x68, 0x98, 0x16,
    0xD4, 0xA4, 0x5C, 0xCC, 0x5D, 0x65, 0xB6, 0x92, 0x6C, 0x70, 0x48, 0x50,
    0xFD, 0xED, 0xB9, 0xDA, 0x5E, 0x15, 0x46, 0x57, 0xA7, 0x8D, 0x9D, 0x84,
    0x90, 0xD8, 0xAB, 0x00, 0x8C, 0xBC, 0xD3, 0x0A, 0xF7, 0xE4, 0x58, 0x05,
    0xB8, 0xB3, 0x45, 0x06, 0xD0, 0x2C, 0x1E, 0x8F, 0xCA, 0x3F, 0x0F, 0x02,
    0xC1, 0xAF, 0xBD, 0x03, 0x01, 0x13, 0x8A, 0x6B, 0x3A, 0x91, 0x11, 0x41,
    0x4F, 0x67, 0xDC, 0xEA, 0x97, 0xF2, 0xCF, 0xCE, 0xF0, 0xB4, 0xE6, 0x73,
    0x96, 0xAC, 0x74, 0x22, 0xE7, 0xAD, 0x35, 0x85, 0xE2, 0xF9, 0x37, 0xE8,
    0x1C, 0x75, 0xDF, 0x6E, 0x47, 0xF1, 0x1A, 0x71, 0x1D, 0x29, 0xC5, 0x89,
    0x6F, 0xB7, 0x62, 0x0E, 0xAA, 0x18, 0xBE, 0x1B, 0xFC, 0x56, 0x3E, 0x4B,
    0xC6, 0xD2, 0x79, 0x20, 0x9A, 0xDB, 0xC0, 0xFE, 0x78, 0xCD, 0x5A, 0xF4,
    0x1F, 0xDD, 0xA8, 0x33, 0x88, 0x07, 0xC7, 0x31, 0xB1, 0x12, 0x10, 0x59,
    0x27, 0x80, 0xEC, 0x5F, 0x60, 0x51, 0x7F, 0xA9, 0x19, 0xB5, 0x4A, 0x0D,
    0x2D, 0xE5, 0x7A, 0x9F, 0x93, 0xC9, 0x9C, 0xEF, 0xA0, 0xE0, 0x3B, 0x4D,
    0xAE, 0x2A, 0xF5, 0xB0, 0xC8, 0xEB, 0xBB, 0x3C, 0x83, 0x53, 0x99, 0x61,
    0x17, 0x2B, 0x04, 0x7E, 0xBA, 0x77, 0xD6, 0x26, 0xE1, 0x69, 0x14, 0x63,
    0x55, 0x21, 0x0C, 0x7D,
];

/// Multiplication by x in GF(2^8) modulo x^8 + x^4 + x^3 + x + 1.
pub open spec fn xtime(b: u8) -> u8 {
    if b & 0x80u8 != 0 {
        (b << 1u8) ^ 0x1Bu8
    } else {
        b << 1u8
    }
}

/// The substituted byte of `x`.
pub open spec fn inv_sub(x: u32) -> u8 {
    INV_SBOX@[(x & 0xFFu32) as int]
}

/// Four bytes as a word, most significant first.
pub open spec fn word(a: u8, b: u8, c: u8, d: u8) -> u32 {
    ((a as u32) << 24u32) | ((b as u32) << 16u32) | ((c as u32) << 8u32) | (d as u32)
}

/// The column that the substituted low byte of `x` contributes under inverse
/// MixColumns: that byte times 14, 9, 13 and 11, turned right by `turn` places.
pub open spec fn mix(x: u32, turn: int) -> u32 {
    let s1 = inv_sub(x);
    let s2 = xtime(s1);
    let s4 = xtime(s2);
    let s8 = xtime(s4);
    let e = s8 ^ s4 ^ s2;
    let n = s8 ^ s1;
    let d = s8 ^ s4 ^ s1;
    let b = s8 ^ s2 ^ s1;
    if turn == 0 {
        word(e, n, d, b)
    } else if turn == 1 {
        word(b, e, n, d)
    } else if turn == 2 {
        word(d, b, e, n)
    } else {
        word(n, d, b, e)
    }
}

/// The bytes of `x` in reverse order.
pub open spec fn reversed(x: u32) -> u32 {
    (x >> 24u32) | ((x >> 8u32) & 0xFF00u32) | ((x << 8u32) & 0x00FF_0000u32) | (x << 24u32)
}

/// Four words: a cipher state or a round key.
pub type Quad = (u32, u32, u32, u32);

/// Whether the four words from `o` on lie inside `s`; offsets wrap at 2^32.
#[verifier::opaque]
pub open spec fn quad_fits(s: Seq<u8>, o: u32) -> bool {
    &&& fits(s, o as int, 4)
    &&& fits(s, o.wrapping_add(4) as int, 4)
    &&& fits(s, o.wrapping_add(8) as int, 4)
    &&& fits(s, o.wrapping_add(12) as int, 4)
}

/// The four words from `o` on.
pub open spec fn quad(s: Seq<u8>, o: u32) -> Quad {
    (
        le32(s, o as int),
        le32(s, o.wrapping_add(4) as int),
        le32(s, o.wrapping_add(8) as int),
        le32(s, o.wrapping_add(12) as int),
    )
}

/// `s` with the four words of `q` from `o` on.
pub open spec fn put_quad(s: Seq<u8>, o: u32, q: Quad) -> Seq<u8> {
    put32(
        put32(
            put32(put32(s, o as int, q.0), o.wrapping_add(4) as int, q.1),
            o.wrapping_add(8) as int,
            q.2,
        ),
        o.wrapping_add(12) as int,
        q.3,
    )
}

pub open spec fn xor_quad(a: Quad, b: Quad) -> Quad {
    (a.0 ^ b.0, a.1 ^ b.1, a.2 ^ b.2, a.3 ^ b.3)
}

pub open spec fn reversed_quad(q: Quad) -> Quad {
    (reversed(q.0), reversed(q.1), reversed(q.2), reversed(q.3))
}

/// One inner round before the key is added: inverse ShiftRows, SubBytes and
/// MixColumns.
pub open spec fn inner(n: Quad) -> Quad {
    (
        mix(n.0 >> 24u32, 0) ^ mix(n.3 >> 16u32, 1) ^ mix(n.2 >> 8u32, 2) ^ mix(n.1, 3),
        mix(n.1 >> 24u32, 0) ^ mix(n.0 >> 16u32, 1) ^ mix(n.3 >> 8u32, 2) ^ mix(n.2, 3),
        mix(n.2 >> 24u32, 0) ^ mix(n.1 >> 16u32, 1) ^ mix(n.0 >> 8u32, 2) ^ mix(n.3, 3),
        mix(n.3 >> 24u32, 0) ^ mix(n.2 >> 16u32, 1) ^ mix(n.1 >> 8u32, 2) ^ mix(n.0, 3),
    )
}

/// The last round before the key is added: inverse ShiftRows and SubBytes.
pub open spec fn outer(n: Quad) -> Quad {
    (
        word(inv_sub(n.0 >> 24u32), inv_sub(n.3 >> 16u32), inv_sub(n.2 >> 8u32), inv_sub(n.1)),
        word(inv_sub(n.1 >> 24u32), inv_sub(n.0 >> 16u32), inv_sub(n.3 >> 8u32), inv_sub(n.2)),
        word(inv_sub(n.2 >> 24u32), inv_sub(n.1 >> 16u32), inv_sub(n.0 >> 8u32), inv_sub(n.3)),
        word(inv_sub(n.3 >> 24u32), inv_sub(n.2 >> 16u32), inv_sub(n.1 >> 8u32), inv_sub(n.0)),
    )
}

/// Where round key `r` of a key array at `kb` starts.
pub open spec fn round_key(kb: u32, r: u32) -> u32 {
    kb.wrapping_add(r.wrapping_mul(16))
}

/// Whether the round keys `0..=rounds` at `kb` lie inside `ks`.
pub open spec fn keys_fit(ks: Seq<u8>, kb: u32, rounds: u32) -> bool {
    forall|r: u32| r <= rounds ==> quad_fits(ks, #[trigger] round_key(kb, r))
}

/// The state after the inner rounds `1..r`.
pub open spec fn inner_rounds(n: Quad, ks: Seq<u8>, kb: u32, r: nat) -> Quad
    decreases r,
{
    if r <= 1 {
        n
    } else {
        xor_quad(
            inner(inner_rounds(n, ks, kb, (r - 1) as nat)),
            quad(ks, round_key(kb, (r - 1) as u32)),
        )
    }
}

/// The deciphered state of `n`.
pub open spec fn decipher(n: Quad, ks: Seq<u8>, kb: u32, rounds: u32) -> Quad {
    xor_quad(
        outer(
            inner_rounds(xor_quad(n, quad(ks, round_key(kb, 0))), ks, kb, rounds as nat),
        ),
        quad(ks, round_key(kb, rounds)),
    )
}

/// `s` with the block at `pos` deciphered under the keys at `kb` of `ks`.
#[verifier::opaque]
pub open spec fn deciphered_block(
    s: Seq<u8>,
    pos: u32,
    ks: Seq<u8>,
    kb: u32,
    rounds: u32,
) -> Seq<u8> {
    put_quad(s, pos, reversed_quad(decipher(reversed_quad(quad(s, pos)), ks, kb, rounds)))
}

/// `s` with the sixteen bytes at `p` combined with those of `v`.
#[verifier::opaque]
pub open spec fn xor_block(s: Seq<u8>, p: int, v: Seq<u8>) -> Seq<u8> {
    Seq::new(
        s.len(),
        |i: int|
            if p <= i < p + 16 {
                s[i] ^ v[i - p]
            } else {
                s[i]
            },
    )
}

/// Where block `i` of the data at `pos` starts.
pub open spec fn block_pos(pos: u32, i: int) -> u32 {
    pos.wrapping_add((i as u32).wrapping_mul(16))
}

/// The chaining vector of block `i`: the ciphertext of the block before.
/// (`s` is the buffer as it was before that block was deciphered.)
pub open spec fn block_at(s: Seq<u8>, p: u32) -> Seq<u8> {
    s.subrange(p as int, p + 16)
}

/// The buffer and the chaining vector after `n` blocks, with the key schedule
/// read from the buffer that is being deciphered.
pub open spec fn cbc(s: Seq<u8>, pos: u32, kb: u32, rounds: u32, n: nat) -> (Seq<u8>, Seq<u8>)
    decreases n,
{
    if n == 0 {
        (s, Seq::new(16, |i: int| 0u8))
    } else {
        let (t, v) = cbc(s, pos, kb, rounds, (n - 1) as nat);
        let p = block_pos(pos, n - 1);
        (xor_block(deciphered_block(t, p, t, kb, rounds), p as int, v), block_at(t, p))
    }
}

/// The buffer and the chaining vector after `n` blocks, with the round keys
/// read from `ks`.
pub open spec fn cbc_ks(s: Seq<u8>, pos: u32, ks: Seq<u8>, rounds: u32, n: nat) -> (
    Seq<u8>,
    Seq<u8>,
)
    decreases n,
{
    if n == 0 {
        (s, Seq::new(16, |i: int| 0u8))
    } else {
        let (t, v) = cbc_ks(s, pos, ks, rounds, (n - 1) as nat);
        let p = block_pos(pos, n - 1);
        (xor_block(deciphered_block(t, p, ks, 0, rounds), p as int, v), block_at(t, p))
    }
}

/// The round count that the schedule header at `key_offset` gives.
pub open spec fn schedule_rounds(s: Seq<u8>, key_offset: u32) -> u32 {
    le16(s, key_offset.wrapping_add(2) as int) as u32
}

/// Whether block `i` at `pos` lies inside `s`.
pub open spec fn block_fits(s: Seq<u8>, p: u32) -> bool {
    fits(s, p as int, 16) && quad_fits(s, p)
}

/// Whether every byte that deciphering `size` bytes at `pos` touches lies
/// inside `s`.
pub open spec fn aes_in_range(s: Seq<u8>, pos: u32, size: u32, key_offset: u32) -> bool {
    let n = (size >> 4u32) as int;
    &&& fits(s, key_offset.wrapping_add(2) as int, 2)
    &&& n > 0 ==> keys_fit(s, key_offset.wrapping_add(4), schedule_rounds(s, key_offset))
    &&& forall|i: int| 0 <= i < n ==> block_fits(s, #[trigger] block_pos(pos, i))
}

/// `s` with the `size` bytes at `pos` deciphered (whole blocks only).
pub open spec fn aes_decrypted(s: Seq<u8>, pos: u32, size: u32, key_offset: u32) -> Seq<u8> {
    cbc(
        s,
        pos,
        key_offset.wrapping_add(4),
        schedule_rounds(s, key_offset),
        (size >> 4u32) as nat,
    ).0
}

/// [`aes_in_range`] for a schedule of its own.
pub open spec fn aes_ks_in_range(ks: Seq<u8>, s: Seq<u8>, pos: u32, size: u32) -> bool {
    let n = (size >> 4u32) as int;
    &&& ks.len() >= 4
    &&& n > 0 ==> keys_fit(ks.skip(4), 0, le16(ks, 2) as u32)
    &&& forall|i: int| 0 <= i < n ==> block_fits(s, #[trigger] block_pos(pos, i))
}

/// [`aes_decrypted`] for a schedule of its own.
pub open spec fn aes_ks_decrypted(ks: Seq<u8>, s: Seq<u8>, pos: u32, size: u32) -> Seq<u8> {
    cbc_ks(s, pos, ks.skip(4), le16(ks, 2) as u32, (size >> 4u32) as nat).0
}

/// The schedule at `key_offset`, cut out of `s`: `None` where the header or the
/// keys leave `s`, or where more than 64 rounds are asked for.
pub open spec fn schedule_of(s: Seq<u8>, key_offset: u32) -> Option<Seq<u8>> {
    let base = key_offset as int;
    if !fits(s, base + 2, 2) || le16(s, base + 2) > 64 || base + 4 + (le16(s, base + 2) + 1) * 16
        > s.len() {
        None
    } else {
        Some(s.subrange(base, base + 4 + (le16(s, base + 2) + 1) * 16))
    }
}

proof fn keys_fit_by_length(s: Seq<u8>, t: Seq<u8>, kb: u32, rounds: u32)
    requires
        keys_fit(s, kb, rounds),
        s.len() == t.len(),
    ensures
        keys_fit(t, kb, rounds),
{
    reveal(quad_fits);
    assert forall|r: u32| r <= rounds implies quad_fits(t, #[trigger] round_key(kb, r)) by {
        assert(quad_fits(s, round_key(kb, r)));
    }
}

fn reverse(x: u32) -> (r: u32)
    ensures
        r == reversed(x),
{
    (x >> 24u32) | ((x >> 8u32) & 0xFF00u32) | ((x << 8u32) & 0x00FF_0000u32) | (x << 24u32)
}

fn unsub(x: u32) -> (r: u8)
    ensures
        r == inv_sub(x),
{
    let i: u32 = x & 0xFFu32;
    proof {
        masks(x, 0);
    }
    INV_SBOX[i as usize]
}

fn times_x(b: u8) -> (r: u8)
    ensures
        r == xtime(b),
{
    if b & 0x80u8 != 0 {
        (b << 1u8) ^ 0x1Bu8
    } else {
        b << 1u8
    }
}

fn pack(a: u8, b: u8, c: u8, d: u8) -> (r: u32)
    ensures
        r == word(a, b, c, d),
{
    ((a as u32) << 24u32) | ((b as u32) << 16u32) | ((c as u32) << 8u32) | (d as u32)
}

fn mixed(x: u32, turn: u8) -> (r: u32)
    ensures
        r == mix(x, turn as int),
{
    let s1: u8 = unsub(x);
    let s2: u8 = times_x(s1);
    let s4: u8 = times_x(s2);
    let s8: u8 = times_x(s4);
    let e: u8 = s8 ^ s4 ^ s2;
    let n: u8 = s8 ^ s1;
    let d: u8 = s8 ^ s4 ^ s1;
    let b: u8 = s8 ^ s2 ^ s1;
    if turn == 0 {
        pack(e, n, d, b)
    } else if turn == 1 {
        pack(b, e, n, d)
    } else if turn == 2 {
        pack(d, b, e, n)
    } else {
        pack(n, d, b, e)
    }
}

fn load_quad(s: &[u8], o: u32) -> (q: Quad)
    requires
        quad_fits(s@, o),
    ensures
        q == quad(s@, o),
{
    proof {
        reveal(quad_fits);
    }
    (
        get_u32(s, o),
        get_u32(s, o.wrapping_add(4)),
        get_u32(s, o.wrapping_add(8)),
        get_u32(s, o.wrapping_add(12)),
    )
}

fn store_quad(s: &mut [u8], o: u32, q: Quad)
    requires
        quad_fits(old(s)@, o),
    ensures
        final(s)@ == put_quad(old(s)@, o, q),
        final(s)@.len() == old(s)@.len(),
{
    proof {
        reveal(quad_fits);
    }
    write_u32(s, o, q.0);
    write_u32(s, o.wrapping_add(4), q.1);
    write_u32(s, o.wrapping_add(8), q.2);
    write_u32(s, o.wrapping_add(12), q.3);
}

fn add_quad(a: Quad, b: Quad) -> (q: Quad)
    ensures
        q == xor_quad(a, b),
{
    (a.0 ^ b.0, a.1 ^ b.1, a.2 ^ b.2, a.3 ^ b.3)
}

fn reverse_quad(a: Quad) -> (q: Quad)
    ensures
        q == reversed_quad(a),
{
    (reverse(a.0), reverse(a.1), reverse(a.2), reverse(a.3))
}

fn inner_round(n: Quad) -> (q: Quad)
    ensures
        q == inner(n),
{
    (
        mixed(n.0 >> 24u32, 0) ^ mixed(n.3 >> 16u32, 1) ^ mixed(n.2 >> 8u32, 2) ^ mixed(n.1, 3),
        mixed(n.1 >> 24u32, 0) ^ mixed(n.0 >> 16u32, 1) ^ mixed(n.3 >> 8u32, 2) ^ mixed(n.2, 3),
        mixed(n.2 >> 24u32, 0) ^ mixed(n.1 >> 16u32, 1) ^ mixed(n.0 >> 8u32, 2) ^ mixed(n.3, 3),
        mixed(n.3 >> 24u32, 0) ^ mixed(n.2 >> 16u32, 1) ^ mixed(n.1 >> 8u32, 2) ^ mixed(n.0, 3),
    )
}

fn outer_round(n: Quad) -> (q: Quad)
    ensures
        q == outer(n),
{
    (
        pack(unsub(n.0 >> 24u32), unsub(n.3 >> 16u32), unsub(n.2 >> 8u32), unsub(n.1)),
        pack(unsub(n.1 >> 24u32), unsub(n.0 >> 16u32), unsub(n.3 >> 8u32), unsub(n.2)),
        pack(unsub(n.2 >> 24u32), unsub(n.1 >> 16u32), unsub(n.0 >> 8u32), unsub(n.3)),
        pack(unsub(n.3 >> 24u32), unsub(n.2 >> 16u32), unsub(n.1 >> 8u32), unsub(n.0)),
    )
}

fn key_at(kb: u32, r: u32) -> (o: u32)
    ensures
        o == round_key(kb, r),
{
    kb.wrapping_add(r.wrapping_mul(16))
}

fn quad_inside(s: &[u8], o: u32) -> (r: bool)
    ensures
        r == quad_fits(s@, o),
{
    proof {
        reveal(quad_fits);
    }
    let n: usize = s.len();
    if n < 4 {
        return false;
    }
    let last: usize = n - 4;
    o as usize <= last && o.wrapping_add(4) as usize <= last && o.wrapping_add(8) as usize <= last
        && o.wrapping_add(12) as usize <= last
}

fn keys_inside(ks: &[u8], kb: u32, rounds: u32) -> (r: bool)
    requires
        rounds < 0x1_0000,
    ensures
        r == keys_fit(ks@, kb, rounds),
{
    let mut r: u32 = 0;
    while r <= rounds
        invariant
            rounds < 0x1_0000,
            r <= rounds + 1,
            forall|k: u32| k < r ==> quad_fits(ks@, #[trigger] round_key(kb, k)),
        decreases rounds + 1 - r,
    {
        if !quad_inside(ks, key_at(kb, r)) {
            return false;
        }
        r = r + 1;
    }
    true
}

fn decipher_state(n: Quad, ks: &[u8], kb: u32, rounds: u32) -> (q: Quad)
    requires
        keys_fit(ks@, kb, rounds),
    ensures
        q == decipher(n, ks@, kb, rounds),
{
    let first: u32 = key_at(kb, 0);
    let start: Quad = add_quad(n, load_quad(ks, first));
    let mut state: Quad = start;
    let mut r: u32 = 1;
    while r < rounds
        invariant
            1 <= r,
            r <= rounds || r == 1,
            keys_fit(ks@, kb, rounds),
            state == inner_rounds(start, ks@, kb, r as nat),
        decreases rounds - r,
    {
        let o: u32 = key_at(kb, r);
        state = add_quad(inner_round(state), load_quad(ks, o));
        r = r + 1;
    }
    let last: u32 = key_at(kb, rounds);
    assert(state == inner_rounds(start, ks@, kb, rounds as nat));
    add_quad(outer_round(state), load_quad(ks, last))
}

/// Decipher the sixteen bytes at `pos` under the round keys at `key_offset` of
/// the same buffer.
pub fn aes_round(d: &mut [u8], pos: u32, key_offset: u32, round: u32)
    requires
        quad_fits(old(d)@, pos),
        keys_fit(old(d)@, key_offset, round),
    ensures
        final(d)@ == deciphered_block(old(d)@, pos, old(d)@, key_offset, round),
        final(d)@.len() == old(d)@.len(),
{
    proof {
        reveal(deciphered_block);
    }
    let n: Quad = reverse_quad(load_quad(d, pos));
    let m: Quad = decipher_state(n, d, key_offset, round);
    store_quad(d, pos, reverse_quad(m));
}

/// [`aes_round`] with the round keys in a slice of their own.
fn aes_round_ks(ks: &[u8], d: &mut [u8], pos: u32, round: u32)
    requires
        quad_fits(old(d)@, pos),
        keys_fit(ks@, 0, round),
    ensures
        final(d)@ == deciphered_block(old(d)@, pos, ks@, 0, round),
        final(d)@.len() == old(d)@.len(),
{
    proof {
        reveal(deciphered_block);
    }
    let n: Quad = reverse_quad(load_quad(d, pos));
    let m: Quad = decipher_state(n, ks, 0, round);
    store_quad(d, pos, reverse_quad(m));
}

fn add_block(d: &mut [u8], p: usize, v: &Vec<u8>)
    requires
        fits(old(d)@, p as int, 16),
        v@.len() == 16,
    ensures
        final(d)@ == xor_block(old(d)@, p as int, v@),
        final(d)@.len() == old(d)@.len(),
{
    let len: usize = d.len();
    let mut j: usize = 0;
    while j < 16
        invariant
            j <= 16,
            v@.len() == 16,
            p + 16 <= len,
            d@.len() == len == old(d)@.len(),
            forall|i: int|
                0 <= i < len ==> #[trigger] d@[i] == (if p <= i < p + j {
                    old(d)@[i] ^ v@[i - p]
                } else {
                    old(d)@[i]
                }),
        decreases 16 - j,
    {
        let b: u8 = d[p + j];
        d[p + j] = b ^ v[j];
        j = j + 1;
    }
    proof {
        reveal(xor_block);
    }
    assert(d@ =~= xor_block(old(d)@, p as int, v@));
}

fn block_inside(s: &[u8], p: u32) -> (r: bool)
    ensures
        r == block_fits(s@, p),
{
    s.len() >= 16 && p as usize <= s.len() - 16 && quad_inside(s, p)
}

fn block_start(pos: u32, i: u32) -> (p: u32)
    ensures
        p == block_pos(pos, i as int),
{
    pos.wrapping_add(i.wrapping_mul(16))
}

/// [`aes_decrypt`] for any arguments: where the data or the schedule leave the
/// buffer, `false` comes back and the buffer's contents are unspecified.
pub fn aes_decrypt_checked(d: &mut [u8], pos: u32, size: u32, key_offset: u32) -> (ok: bool)
    ensures
        ok == aes_in_range(old(d)@, pos, size, key_offset),
        ok ==> final(d)@ == aes_decrypted(old(d)@, pos, size, key_offset),
        final(d)@.len() == old(d)@.len(),
{
    let header: u32 = key_offset.wrapping_add(2);
    let len: usize = d.len();
    if len < 2 || header as usize > len - 2 {
        return false;
    }
    let rounds: u32 = get_u16(d, header) as u32;
    let kb: u32 = key_offset.wrapping_add(4);
    let blocks: u32 = size >> 4u32;
    if blocks > 0 && !keys_inside(d, kb, rounds) {
        return false;
    }
    let mut prev: Vec<u8> = vec![0u8; 16];
    assert(prev@ =~= Seq::new(16, |i: int| 0u8));
    let mut i: u32 = 0;
    while i < blocks
        invariant
            i <= blocks,
            blocks == size >> 4u32,
            rounds == schedule_rounds(old(d)@, key_offset),
            kb == key_offset.wrapping_add(4),
            fits(old(d)@, key_offset.wrapping_add(2) as int, 2),
            blocks > 0 ==> keys_fit(old(d)@, kb, rounds),
            d@.len() == old(d)@.len(),
            (d@, prev@) == cbc(old(d)@, pos, kb, rounds, i as nat),
            prev@.len() == 16,
            forall|k: int| 0 <= k < i ==> block_fits(old(d)@, #[trigger] block_pos(pos, k)),
        decreases blocks - i,
    {
        let p: u32 = block_start(pos, i);
        assert(block_fits(d@, p) == block_fits(old(d)@, p)) by {
            reveal(quad_fits);
        }
        if !block_inside(d, p) {
            assert(!block_fits(old(d)@, block_pos(pos, i as int)));
            return false;
        }
        let pi: usize = p as usize;
        let _len: usize = d.len();
        let cur: Vec<u8> = sub_vec(d, pi, pi + 16);
        assert(keys_fit(d@, kb, rounds)) by {
            keys_fit_by_length(old(d)@, d@, kb, rounds);
        }
        aes_round(d, p, kb, rounds);
        add_block(d, pi, &prev);
        prev = cur;
        assert(block_fits(old(d)@, block_pos(pos, i as int)));
        i = i + 1;
    }
    true
}

/// Decipher `size` bytes (whole blocks only) at `pos` with the schedule at
/// `key_offset` of the same buffer.
pub fn aes_decrypt(d: &mut [u8], pos: u32, size: u32, key_offset: u32)
    requires
        aes_in_range(old(d)@, pos, size, key_offset),
    ensures
        final(d)@ == aes_decrypted(old(d)@, pos, size, key_offset),
        final(d)@.len() == old(d)@.len(),
{
    let _ok = aes_decrypt_checked(d, pos, size, key_offset);
}

/// [`aes_decrypt_ks`] for any arguments; see [`aes_decrypt_checked`].
pub fn aes_decrypt_ks_checked(ks: &[u8], d: &mut [u8], pos: u32, size: u32) -> (ok: bool)
    ensures
        ok == aes_ks_in_range(ks@, old(d)@, pos, size),
        ok ==> final(d)@ == aes_ks_decrypted(ks@, old(d)@, pos, size),
        final(d)@.len() == old(d)@.len(),
{
    if ks.len() < 4 {
        return false;
    }
    let rounds: u32 = get_u16(ks, 2) as u32;
    let sched = vstd::slice::slice_subrange(ks, 4, ks.len());
    assert(sched@ =~= ks@.skip(4));
    let blocks: u32 = size >> 4u32;
    if blocks > 0 && !keys_inside(sched, 0, rounds) {
        return false;
    }
    let mut prev: Vec<u8> = vec![0u8; 16];
    assert(prev@ =~= Seq::new(16, |i: int| 0u8));
    let mut i: u32 = 0;
    while i < blocks
        invariant
            i <= blocks,
            blocks == size >> 4u32,
            ks@.len() >= 4,
            rounds == le16(ks@, 2) as u32,
            sched@ == ks@.skip(4),
            blocks > 0 ==> keys_fit(sched@, 0, rounds),
            d@.len() == old(d)@.len(),
            (d@, prev@) == cbc_ks(old(d)@, pos, sched@, rounds, i as nat),
            prev@.len() == 16,
            forall|k: int| 0 <= k < i ==> block_fits(old(d)@, #[trigger] block_pos(pos, k)),
        decreases blocks - i,
    {
        let p: u32 = block_start(pos, i);
        assert(block_fits(d@, p) == block_fits(old(d)@, p)) by {
            reveal(quad_fits);
        }
        if !block_inside(d, p) {
            assert(!block_fits(old(d)@, block_pos(pos, i as int)));
            return false;
        }
        let pi: usize = p as usize;
        let _len: usize = d.len();
        let cur: Vec<u8> = sub_vec(d, pi, pi + 16);
        aes_round_ks(sched, d, p, rounds);
        add_block(d, pi, &prev);
        prev = cur;
        assert(block_fits(old(d)@, block_pos(pos, i as int)));
        i = i + 1;
    }
    true
}

/// [`aes_decrypt`] with the schedule in a slice of its own.
pub fn aes_decrypt_ks(ks: &[u8], d: &mut [u8], pos: u32, size: u32)
    requires
        aes_ks_in_range(ks@, old(d)@, pos, size),
    ensures
        final(d)@ == aes_ks_decrypted(ks@, old(d)@, pos, size),
        final(d)@.len() == old(d)@.len(),
{
    let _ok = aes_decrypt_ks_checked(ks, d, pos, size);
}

/// Cut the schedule at `key_offset` out of `d` for [`aes_decrypt_ks`].
pub fn aes_schedule_snapshot(d: &[u8], key_offset: u32) -> (r: Option<Vec<u8>>)
    ensures
        match r {
            Some(v) => schedule_of(d@, key_offset) == Some(v@),
            None => schedule_of(d@, key_offset) is None,
        },
{
    let base: usize = key_offset as usize;
    let len: usize = d.len();
    if len < 4 || base > len - 4 {
        return None;
    }
    let rounds: usize = match crate::bytes::peek_u16(d, base + 2) {
        Some(v) => v as usize,
        None => return None,
    };
    if rounds > 64 {
        return None;
    }
    let need: usize = 4 + (rounds + 1) * 16;
    if need > len - base {
        return None;
    }
    Some(sub_vec(d, base, base + need))
}

/// Deciphering with a schedule that was cut out of the buffer gives what
/// deciphering with the schedule in place gives, wherever the data and the
/// schedule do not overlap and no block of them has an address beyond 32 bits.
pub proof fn snapshot_deciphers_alike(
    s: Seq<u8>,
    pos: u32,
    size: u32,
    key_offset: u32,
    ks: Seq<u8>,
)
    requires
        schedule_of(s, key_offset) == Some(ks),
        key_offset + ks.len() <= 0x1_0000_0000,
        pos + size <= s.len(),
        pos + 16 * (size as int / 16) <= 0x1_0000_0000,
        pos + size <= key_offset || key_offset + ks.len() <= pos,
    ensures
        aes_in_range(s, pos, size, key_offset),
        aes_ks_in_range(ks, s, pos, size),
        aes_ks_decrypted(ks, s, pos, size) == aes_decrypted(s, pos, size, key_offset),
{
    let n = (size >> 4u32) as nat;
    let rounds = schedule_rounds(s, key_offset);
    let kb = key_offset.wrapping_add(4);
    pages_by_shifts(size, 0);
    assert(le16(ks, 2) == le16(s, key_offset as int + 2));
    assert forall|i: int| 0 <= i < n implies block_fits(s, #[trigger] block_pos(pos, i)) by {
        reveal(quad_fits);
    }
    assert forall|r: u32| r <= rounds implies quad_fits(s, #[trigger] round_key(kb, r)) by {
        cut_key(s, s, key_offset, ks, r);
    }
    assert forall|r: u32| r <= rounds implies quad_fits(ks.skip(4), #[trigger] round_key(0, r)) by {
        cut_key(s, s, key_offset, ks, r);
    }
    cbc_alike(s, pos, size, key_offset, ks, n);
}

proof fn cut_key(s: Seq<u8>, t: Seq<u8>, key_offset: u32, ks: Seq<u8>, r: u32)
    requires
        schedule_of(s, key_offset) == Some(ks),
        key_offset + ks.len() <= 0x1_0000_0000,
        t.len() == s.len(),
        forall|i: int| key_offset <= i < key_offset + ks.len() ==> t[i] == s[i],
        r <= schedule_rounds(s, key_offset),
    ensures
        quad_fits(t, round_key(key_offset.wrapping_add(4), r)),
        quad_fits(ks.skip(4), round_key(0, r)),
        quad(t, round_key(key_offset.wrapping_add(4), r)) == quad(ks.skip(4), round_key(0, r)),
{
    reveal(quad_fits);
    let o = key_offset + 4 + 16 * r;
    assert(round_key(0, r) == 16 * r);
    assert(round_key(key_offset.wrapping_add(4), r) == o);
    let cut = ks.skip(4);
    assert forall|i: int| 0 <= i < 16 implies #[trigger] cut[16 * r + i] == t[o + i] by {
        assert(ks[4 + 16 * r + i] == s[o + i]);
    }
    assert(cut[16 * r + 0] == t[o + 0] && cut[16 * r + 1] == t[o + 1] && cut[16 * r + 2] == t[o + 2]
        && cut[16 * r + 3] == t[o + 3]);
    assert(cut[16 * r + 4] == t[o + 4] && cut[16 * r + 5] == t[o + 5] && cut[16 * r + 6] == t[o + 6]
        && cut[16 * r + 7] == t[o + 7]);
    assert(cut[16 * r + 8] == t[o + 8] && cut[16 * r + 9] == t[o + 9] && cut[16 * r + 10] == t[o
        + 10] && cut[16 * r + 11] == t[o + 11]);
    assert(cut[16 * r + 12] == t[o + 12] && cut[16 * r + 13] == t[o + 13] && cut[16 * r + 14] == t[o
        + 14] && cut[16 * r + 15] == t[o + 15]);
}

proof fn inner_rounds_alike(n: Quad, a: Seq<u8>, ka: u32, b: Seq<u8>, kb: u32, r: nat)
    requires
        r <= 0x1_0000,
        forall|k: u32|
            k < r ==> quad(a, #[trigger] round_key(ka, k)) == quad(b, round_key(kb, k)),
    ensures
        inner_rounds(n, a, ka, r) == inner_rounds(n, b, kb, r),
    decreases r,
{
    if r > 1 {
        inner_rounds_alike(n, a, ka, b, kb, (r - 1) as nat);
        let k = (r - 1) as u32;
        assert(quad(a, round_key(ka, k)) == quad(b, round_key(kb, k)));
    }
}

proof fn put_quad_frame(s: Seq<u8>, p: u32, q: Quad)
    requires
        p + 16 <= s.len(),
        p + 16 <= 0x1_0000_0000,
    ensures
        put_quad(s, p, q).len() == s.len(),
        forall|i: int|
            0 <= i < s.len() && !(p <= i < p + 16) ==> #[trigger] put_quad(s, p, q)[i] == s[i],
{
}

proof fn block_alike(s: Seq<u8>, t: Seq<u8>, key_offset: u32, ks: Seq<u8>, p: u32)
    requires
        schedule_of(s, key_offset) == Some(ks),
        key_offset + ks.len() <= 0x1_0000_0000,
        p + 16 <= s.len(),
        p + 16 <= 0x1_0000_0000,
        t.len() == s.len(),
        forall|i: int| key_offset <= i < key_offset + ks.len() ==> t[i] == s[i],
    ensures
        ({
            let rounds = schedule_rounds(s, key_offset);
            let kb = key_offset.wrapping_add(4);
            let b = deciphered_block(t, p, t, kb, rounds);
            &&& b == deciphered_block(t, p, ks.skip(4), 0, rounds)
            &&& b.len() == t.len()
            &&& forall|i: int| 0 <= i < t.len() && !(p <= i < p + 16) ==> #[trigger] b[i] == t[i]
        }),
{
    let rounds = schedule_rounds(s, key_offset);
    let kb = key_offset.wrapping_add(4);
    let cut = ks.skip(4);
    assert forall|r: u32| r <= rounds implies quad(t, #[trigger] round_key(kb, r)) == quad(
        cut,
        round_key(0, r),
    ) by {
        cut_key(s, t, key_offset, ks, r);
    }
    let state = xor_quad(reversed_quad(quad(t, p)), quad(t, round_key(kb, 0)));
    inner_rounds_alike(state, t, kb, cut, 0, rounds as nat);
    assert(quad(t, round_key(kb, rounds)) == quad(cut, round_key(0, rounds)));
    assert(quad(t, round_key(kb, 0)) == quad(cut, round_key(0, 0)));
    reveal(deciphered_block);
    put_quad_frame(t, p, reversed_quad(decipher(reversed_quad(quad(t, p)), t, kb, rounds)));
}

proof fn cbc_alike(s: Seq<u8>, pos: u32, size: u32, key_offset: u32, ks: Seq<u8>, n: nat)
    requires
        schedule_of(s, key_offset) == Some(ks),
        key_offset + ks.len() <= 0x1_0000_0000,
        pos + size <= s.len(),
        pos + size <= key_offset || key_offset + ks.len() <= pos,
        16 * n <= size,
        pos + 16 * n <= 0x1_0000_0000,
    ensures
        ({
            let rounds = schedule_rounds(s, key_offset);
            let a = cbc(s, pos, key_offset.wrapping_add(4), rounds, n);
            &&& a == cbc_ks(s, pos, ks.skip(4), rounds, n)
            &&& a.0.len() == s.len()
            &&& forall|i: int|
                0 <= i < s.len() && !(pos <= i < pos + size) ==> #[trigger] a.0[i] == s[i]
        }),
    decreases n,
{
    if n > 0 {
        cbc_alike(s, pos, size, key_offset, ks, (n - 1) as nat);
        let rounds = schedule_rounds(s, key_offset);
        let (t, v) = cbc(s, pos, key_offset.wrapping_add(4), rounds, (n - 1) as nat);
        let p = block_pos(pos, n - 1);
        assert(p == pos + 16 * (n - 1));
        block_alike(s, t, key_offset, ks, p);
        reveal(xor_block);
    }
}

/// Deciphering changes no length.
pub proof fn deciphering_keeps_the_length(ks: Seq<u8>, s: Seq<u8>, pos: u32, size: u32)
    requires
        aes_ks_in_range(ks, s, pos, size),
    ensures
        aes_ks_decrypted(ks, s, pos, size).len() == s.len(),
{
    cbc_length(s, pos, ks.skip(4), le16(ks, 2) as u32, (size >> 4u32) as nat);
}

proof fn cbc_length(s: Seq<u8>, pos: u32, ks: Seq<u8>, rounds: u32, n: nat)
    requires
        forall|i: int| 0 <= i < n ==> block_fits(s, #[trigger] block_pos(pos, i)),
    ensures
        cbc_ks(s, pos, ks, rounds, n).0.len() == s.len(),
    decreases n,
{
    if n > 0 {
        cbc_length(s, pos, ks, rounds, (n - 1) as nat);
        let (t, v) = cbc_ks(s, pos, ks, rounds, (n - 1) as nat);
        let p = block_pos(pos, n - 1);
        assert(block_fits(s, p));
        assert(quad_fits(t, p)) by {
            reveal(quad_fits);
        }
        block_length(t, p, ks, rounds);
        xor_length(deciphered_block(t, p, ks, 0, rounds), p as int, v);
    }
}

proof fn block_length(s: Seq<u8>, p: u32, ks: Seq<u8>, rounds: u32)
    requires
        quad_fits(s, p),
    ensures
        deciphered_block(s, p, ks, 0, rounds).len() == s.len(),
{
    reveal(deciphered_block);
    put_quad_length(s, p, reversed_quad(decipher(reversed_quad(quad(s, p)), ks, 0, rounds)));
}

proof fn put_quad_length(s: Seq<u8>, p: u32, q: Quad)
    requires
        quad_fits(s, p),
    ensures
        put_quad(s, p, q).len() == s.len(),
{
    reveal(quad_fits);
}

proof fn xor_length(s: Seq<u8>, p: int, v: Seq<u8>)
    ensures
        xor_block(s, p, v).len() == s.len(),
{
    reveal(xor_block);
}

} // verus!
