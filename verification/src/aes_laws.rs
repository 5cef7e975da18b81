//! How blocks are chained.

use vstd::prelude::*;

use crate::aes::{block_at, block_pos, cbc_ks, deciphered_block, put_quad, quad, xor_block, Quad};
use crate::bytes::le32;

verus! {

/// Sixteen bytes by themselves, deciphered under the round keys `ks`.
pub open spec fn block_alone(b: Seq<u8>, ks: Seq<u8>, rounds: u32) -> Seq<u8> {
    deciphered_block(b, 0, ks, 0, rounds)
}

proof fn words_are_put(s: Seq<u8>, o: u32, q: Quad)
    requires
        o + 16 <= s.len() <= u32::MAX,
    ensures
        put_quad(s, o, q).len() == s.len(),
        forall|a: int|
            0 <= a < s.len() && !(o <= a < o + 16) ==> #[trigger] put_quad(s, o, q)[a] == s[a],
        forall|b: int|
            0 <= b < 16 ==> #[trigger] put_quad(s, o, q)[o + b] == quad_byte(q, b),
{
    assert(o.wrapping_add(4) == o + 4 && o.wrapping_add(8) == o + 8 && o.wrapping_add(12) == o + 12);
    assert forall|b: int| 0 <= b < 16 implies #[trigger] put_quad(s, o, q)[o + b] == quad_byte(q, b) by {
        assert(b == 0 || b == 1 || b == 2 || b == 3 || b == 4 || b == 5 || b == 6 || b == 7 || b == 8
            || b == 9 || b == 10 || b == 11 || b == 12 || b == 13 || b == 14 || b == 15);
    }
}

/// Byte `b` of four words.
pub open spec fn quad_byte(q: Quad, b: int) -> u8 {
    let w = if b < 4 {
        q.0
    } else if b < 8 {
        q.1
    } else if b < 12 {
        q.2
    } else {
        q.3
    };
    if b % 4 == 0 {
        w as u8
    } else if b % 4 == 1 {
        (w >> 8u32) as u8
    } else if b % 4 == 2 {
        (w >> 16u32) as u8
    } else {
        (w >> 24u32) as u8
    }
}

proof fn words_of_a_part(s: Seq<u8>, o: u32)
    requires
        o + 16 <= s.len() <= u32::MAX,
    ensures
        quad(s.subrange(o as int, o + 16), 0) == quad(s, o),
{
    assert(o.wrapping_add(4) == o + 4 && o.wrapping_add(8) == o + 8 && o.wrapping_add(12) == o + 12);
    let t = s.subrange(o as int, o + 16);
    assert(le32(t, 0) == le32(s, o as int));
    assert(le32(t, 4) == le32(s, o + 4));
    assert(le32(t, 8) == le32(s, o + 8));
    assert(le32(t, 12) == le32(s, o + 12));
}

/// A block of a buffer is deciphered as if it stood alone, and nothing else changes.
pub proof fn blocks_stand_alone(s: Seq<u8>, o: u32, ks: Seq<u8>, rounds: u32)
    requires
        o + 16 <= s.len() <= u32::MAX,
    ensures
        deciphered_block(s, o, ks, 0, rounds).len() == s.len(),
        forall|a: int|
            0 <= a < s.len() ==> #[trigger] deciphered_block(s, o, ks, 0, rounds)[a] == (if o <= a < o
                + 16 {
                block_alone(s.subrange(o as int, o + 16), ks, rounds)[a - o]
            } else {
                s[a]
            }),
{
    reveal(deciphered_block);
    words_of_a_part(s, o);
    let t = s.subrange(o as int, o + 16);
    let q = crate::aes::reversed_quad(
        crate::aes::decipher(crate::aes::reversed_quad(quad(s, o)), ks, 0, rounds),
    );
    words_are_put(s, o, q);
    words_are_put(t, 0, q);
    assert forall|a: int| 0 <= a < s.len() implies #[trigger] deciphered_block(s, o, ks, 0, rounds)[a]
        == (if o <= a < o + 16 {
        block_alone(t, ks, rounds)[a - o]
    } else {
        s[a]
    }) by {
        if o <= a < o + 16 {
            let b = a - o;
            assert(put_quad(s, o, q)[o + b] == quad_byte(q, b));
            assert(put_quad(t, 0, q)[0 + b] == quad_byte(q, b));
        }
    }
}

/// Byte `b` of what is added to block `i`: a byte of the block in front of it as it was
/// enciphered; nothing for the first.
pub open spec fn link(s: Seq<u8>, pos: u32, i: int, b: int) -> u8 {
    if i == 0 {
        0
    } else {
        s[pos + 16 * (i - 1) + b]
    }
}

/// Byte `a` of a buffer whose first `n` blocks from `pos` on are deciphered.
pub open spec fn unchained_byte(s: Seq<u8>, pos: u32, ks: Seq<u8>, rounds: u32, n: nat, a: int) -> u8 {
    if pos <= a < pos + 16 * n {
        let i = (a - pos) / 16;
        let b = (a - pos) % 16;
        block_alone(s.subrange(pos + 16 * i, pos + 16 * i + 16), ks, rounds)[b] ^ link(s, pos, i, b)
    } else {
        s[a]
    }
}

/// Each block of a chain is deciphered by itself and added to the block in front of it as it
/// was enciphered; nothing else changes.
pub proof fn chain_is_deciphered(s: Seq<u8>, pos: u32, ks: Seq<u8>, rounds: u32, n: nat)
    requires
        pos + 16 * n <= s.len() <= u32::MAX,
    ensures
        cbc_ks(s, pos, ks, rounds, n).0.len() == s.len(),
        cbc_ks(s, pos, ks, rounds, n).1.len() == 16,
        forall|b: int|
            0 <= b < 16 ==> #[trigger] cbc_ks(s, pos, ks, rounds, n).1[b] == link(s, pos, n as int, b),
        forall|a: int|
            0 <= a < s.len() ==> #[trigger] cbc_ks(s, pos, ks, rounds, n).0[a] == unchained_byte(
                s,
                pos,
                ks,
                rounds,
                n,
                a,
            ),
    decreases n,
{
    if n > 0 {
        let m = (n - 1) as nat;
        chain_is_deciphered(s, pos, ks, rounds, m);
        let (t, v) = cbc_ks(s, pos, ks, rounds, m);
        let p = block_pos(pos, m as int);
        assert((m as u32).wrapping_mul(16) == 16 * m);
        assert(p == pos + 16 * m);
        assert forall|a: int| p <= a < s.len() implies #[trigger] t[a] == s[a] by {
            assert(t[a] == unchained_byte(s, pos, ks, rounds, m, a));
        }
        assert(t.subrange(p as int, p + 16) =~= s.subrange(p as int, p + 16));
        blocks_stand_alone(t, p, ks, rounds);
        let d = deciphered_block(t, p, ks, 0, rounds);
        reveal(xor_block);
        let r = xor_block(d, p as int, v);
        assert(cbc_ks(s, pos, ks, rounds, n) == (r, block_at(t, p)));
        assert forall|a: int| 0 <= a < s.len() implies #[trigger] r[a] == unchained_byte(
            s,
            pos,
            ks,
            rounds,
            n,
            a,
        ) by {
            if p <= a < p + 16 {
                assert((a - pos) / 16 == m && (a - pos) % 16 == a - p);
                assert(v[a - p] == link(s, pos, m as int, a - p));
            } else {
                assert(t[a] == unchained_byte(s, pos, ks, rounds, m, a));
            }
        }
        assert forall|b: int| 0 <= b < 16 implies #[trigger] cbc_ks(s, pos, ks, rounds, n).1[b] == link(
            s,
            pos,
            n as int,
            b,
        ) by {
            assert(block_at(t, p)[b] == t[p + b]);
        }
    }
}

} // verus!
