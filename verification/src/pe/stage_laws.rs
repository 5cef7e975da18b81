//! How the payload of a stage is sealed, and that it is opened.

use vstd::prelude::*;

use crate::aes::{aes_decrypted, aes_in_range};
use crate::bits::{four_by_shifts, xor_twice};
use crate::bytecode::{mapped, ops_on, Op};
use crate::bytes::{fits, le32};
use crate::cipher_laws::{has_words_sealed, sealed_words_are_read};
use crate::ciphers::{data3_in_range, word_pos};
use crate::huffman::{expanded, Outcome};
use crate::payload::opened;
use crate::pe::stage::{with_key, with_keys};
use crate::pe::steps::{byte4, data4};

verus! {

/// A byte turned right by three bits.
pub open spec fn turned(b: u8) -> u8 {
    (b / 8 + 32 * (b % 8)) as u8
}

/// What stands for the address of a table in the cipher of its bytes.
pub open spec fn table_mark(base: u32) -> u8 {
    ((((base >> 8u32).wrapping_add(base)) & 0xFFu32) as u8)
}

/// Byte `k` of a table at `base`, enciphered.
pub open spec fn sealed_byte(b: u8, base: u32, k: int) -> u8 {
    let m = table_mark(base).wrapping_add(k as u8);
    turned(turned(turned(b) ^ m) ^ m.wrapping_add(1))
}

proof fn sealed_byte_is_read(b: u8, base: u32, k: int)
    ensures
        byte4(sealed_byte(b, base, k), base, k) == b,
{
    let m = table_mark(base).wrapping_add(k as u8);
    let x = turned(b) ^ m;
    let y = turned(x) ^ m.wrapping_add(1);
    xor_twice(0, 0, b, m, 0, 0);
    xor_twice(0, 0, turned(b), m, 0, 0);
    xor_twice(0, 0, x, m, 0, 0);
    xor_twice(0, 0, turned(x), m.wrapping_add(1), 0, 0);
    xor_twice(0, 0, y, m, 0, 0);
}

/// Whether `c` is `s` with the table that the address and the length at `pos` name
/// enciphered.
pub open spec fn has_table_sealed(c: Seq<u8>, s: Seq<u8>, pos: u32) -> bool {
    let base = le32(s, pos as int);
    let n = le32(s, pos + 4);
    &&& c.len() == s.len() <= u32::MAX
    &&& pos + 8 <= s.len()
    &&& base + n <= s.len()
    &&& pos + 8 <= base || base + n <= pos
    &&& forall|a: int|
        0 <= a < s.len() ==> #[trigger] c[a] == (if base <= a < base + n {
            sealed_byte(s[a], base, a - base)
        } else {
            s[a]
        })
}

/// A table that was enciphered is deciphered, and nothing else changes.
pub proof fn sealed_table_is_read(c: Seq<u8>, s: Seq<u8>, pos: u32)
    requires
        has_table_sealed(c, s, pos),
    ensures
        with_key(c, pos) == Ok::<(Seq<u8>, u32), crate::error::UnpackError>(
            (s, le32(s, pos as int)),
        ),
{
    let base = le32(s, pos as int);
    assert(pos.wrapping_add(4) == pos + 4);
    assert(le32(c, pos as int) == base);
    assert(le32(c, pos + 4) == le32(s, pos + 4));
    let t = data4(c, pos);
    assert forall|a: int| 0 <= a < s.len() implies t[a] == s[a] by {
        if base <= a < base + le32(s, pos + 4) {
            sealed_byte_is_read(s[a], base, a - base);
        }
    }
    assert(t =~= s);
}

/// Four tables that were enciphered one upon the other are deciphered, and each gives its
/// address: those named at `p`, eight bytes behind it, and 32 bytes behind each of the two.
pub proof fn sealed_tables_are_read(
    c0: Seq<u8>,
    c1: Seq<u8>,
    c2: Seq<u8>,
    c3: Seq<u8>,
    s: Seq<u8>,
    p: u32,
)
    requires
        p + 48 <= s.len(),
        has_table_sealed(c0, c1, p),
        has_table_sealed(c1, c2, (p + 8) as u32),
        has_table_sealed(c2, c3, (p + 32) as u32),
        has_table_sealed(c3, s, (p + 40) as u32),
    ensures
        with_keys(c0, p) matches Ok((t, k)) && t == s && k.k0 == le32(c1, p as int) && k.k1 == le32(
            c2,
            p + 8,
        ) && k.k2 == le32(c3, p + 32) && k.k3 == le32(s, p + 40),
{
    assert(p.wrapping_add(8) == p + 8 && p.wrapping_add(32) == p + 32 && p.wrapping_add(
        32,
    ).wrapping_add(8) == p + 40);
    sealed_table_is_read(c0, c1, p);
    sealed_table_is_read(c1, c2, (p + 8) as u32);
    sealed_table_is_read(c2, c3, (p + 32) as u32);
    sealed_table_is_read(c3, s, (p + 40) as u32);
}

/// Whether the `n` bytes from `o` on of `a` become those of `b` under a transform, where
/// there is one, and all others are the same.
pub open spec fn transforms_to(a: Seq<u8>, b: Seq<u8>, o: int, n: int, ops: Option<Seq<Op>>) -> bool {
    &&& a.len() == b.len()
    &&& forall|i: int|
        0 <= i < a.len() ==> #[trigger] b[i] == (if ops is Some && o <= i < o + n {
            ops_on(ops->Some_0, a[i])
        } else {
            a[i]
        })
}

/// Whether the four words at `pos` describe a payload.
pub open spec fn is_described(s: Seq<u8>, pos: u32, src: u32, n: u32, dest: u32, m: u32) -> bool {
    &&& pos + 16 <= s.len() <= u32::MAX
    &&& le32(s, pos as int) == src
    &&& le32(s, pos + 4) == n
    &&& le32(s, pos + 8) == dest
    &&& le32(s, pos + 12) == m
}

/// A payload that was transformed back, enciphered word by word and then block by block is
/// opened: what was sealed comes out, expanded where its two lengths differ. The words are
/// under the stage's key, each turned by nineteen bits.
pub proof fn sealed_stage_is_opened(
    s: Seq<u8>,
    a: Seq<u8>,
    b: Seq<u8>,
    c: Seq<u8>,
    pos: u32,
    src: u32,
    n: u32,
    dest: u32,
    m: u32,
    key: u32,
    key1: u32,
    key3: u32,
    ops: Option<Seq<Op>>,
)
    requires
        is_described(s, pos, src, n, dest, m),
        is_described(a, pos, src, n, dest, m),
        is_described(c, pos, src, n, dest, m),
        src + n <= s.len(),
        n % 4 == 0,
        aes_in_range(s, src, n, key3),
        aes_decrypted(s, src, n, key3) == a,
        has_words_sealed(a, b, src, key, 19, (n / 4) as nat),
        transforms_to(b, c, src as int, n as int, ops),
    ensures
        n == m ==> opened(s, pos, key, key1, key3, ops) == (Outcome::Ended {
            data: c,
            result: Ok(()),
        }),
        n != m ==> opened(s, pos, key, key1, key3, ops) == expanded(None, c, src, dest, key1, n, m),
{
    assert(pos.wrapping_add(4) == pos + 4 && pos.wrapping_add(8) == pos + 8 && pos.wrapping_add(12)
        == pos + 12);
    four_by_shifts(n, n / 4);
    assert forall|i: int| 0 <= i < n / 4 implies fits(a, #[trigger] word_pos(src, i) as int, 4) by {
        assert((i as u32).wrapping_mul(4) == 4 * i);
    }
    assert(data3_in_range(a, pos));
    sealed_words_are_read(a, b, src, key, 19, (n / 4) as nat);
    match ops {
        Some(o) => {
            assert(mapped(b, src as int, n as int, o) =~= c);
        },
        None => {
            assert(b =~= c);
        },
    }
}

} // verus!
