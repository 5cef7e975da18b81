//! How headers, payloads, words and names are enciphered, and that they are deciphered.

use vstd::prelude::*;

use crate::bits::{half_turns, parts_of_words, turns, xor_twice};
use crate::bytes::{le32, write_then_read_32};
use crate::ciphers::{
    data3_run, data7, header_field, header_key, lfsr_next, lfsr_state, string_byte, word_pos,
};
use crate::pe::load::data2_run;

verus! {

/// The key behind the fields `0..=i` of a header.
pub open spec fn sealing_key(plain: Seq<u32>, i: nat) -> u32
    decreases i,
{
    if i == 0 {
        plain[0]
    } else {
        let j = (i - 1) as u32;
        let k = sealing_key(plain, (i - 1) as nat);
        j.wrapping_mul(j) ^ (plain[i as int] ^ k).wrapping_add(k).wrapping_sub(j)
    }
}

/// Field `i` of a header as the file holds it: the first one stands plain, each other one
/// is masked by what stands in front of it.
pub open spec fn sealed_field(plain: Seq<u32>, i: int) -> u32 {
    if i == 0 {
        plain[0]
    } else {
        plain[i] ^ sealing_key(plain, (i - 1) as nat)
    }
}

/// Whether a file holds the fields of a header, enciphered.
pub open spec fn holds_header(s: Seq<u8>, plain: Seq<u32>) -> bool {
    &&& plain.len() == 8
    &&& forall|i: int| 0 <= i < 8 ==> le32(s, #[trigger] header_place(i)) == sealed_field(plain, i)
}

/// Where field `i` of a header stands.
pub open spec fn header_place(i: int) -> int {
    4096 + 4 * i
}

proof fn header_keys_agree(s: Seq<u8>, plain: Seq<u32>, i: nat)
    requires
        holds_header(s, plain),
        i < 8,
    ensures
        header_key(s, i) == sealing_key(plain, i),
    decreases i,
{
    if i == 0 {
        assert(le32(s, header_place(0)) == sealed_field(plain, 0));
    } else {
        header_keys_agree(s, plain, (i - 1) as nat);
        assert(le32(s, header_place(i as int)) == sealed_field(plain, i as int));
    }
}

/// The fields that were enciphered into a header are read from it.
pub proof fn sealed_header_is_read(s: Seq<u8>, plain: Seq<u32>, i: int)
    requires
        holds_header(s, plain),
        0 <= i < 8,
    ensures
        header_field(s, i) == plain[i],
{
    assert(le32(s, header_place(i)) == sealed_field(plain, i));
    if i > 0 {
        header_keys_agree(s, plain, (i - 1) as nat);
        let k = sealing_key(plain, (i - 1) as nat);
        xor_twice(plain[i], k, 0, 0, 0, 0);
        xor_twice(plain[i] ^ k, k, 0, 0, 0, 0);
    }
}

/// The key in front of word `n` of a payload.
pub open spec fn payload_key(plain: Seq<u32>, key: u32, n: nat) -> u32
    decreases n,
{
    if n == 0 {
        key
    } else {
        let i = (n - 1) as u32;
        let k = payload_key(plain, key, (n - 1) as nat);
        i.wrapping_mul(i) ^ k.wrapping_add(plain[n - 1] ^ k).wrapping_add(i)
    }
}

/// Whether the words from `from` on of a file are `plain`, enciphered under `key`.
pub open spec fn holds_payload(f: Seq<u8>, from: u32, plain: Seq<u32>, key: u32) -> bool {
    &&& from + 4 * plain.len() <= u32::MAX
    &&& forall|i: int|
        0 <= i < plain.len() ==> #[trigger] le32(f, from + 4 * i) == plain[i] ^ payload_key(
            plain,
            key,
            i as nat,
        )
}

/// The words of a payload that was enciphered are loaded, and nothing else changes.
pub proof fn sealed_payload_is_loaded(
    s: Seq<u8>,
    f: Seq<u8>,
    to: u32,
    from: u32,
    plain: Seq<u32>,
    key: u32,
    n: nat,
)
    requires
        n <= plain.len(),
        holds_payload(f, from, plain, key),
        to + 4 * plain.len() <= s.len() <= u32::MAX,
    ensures
        data2_run(s, f, to, from, key, n).0.len() == s.len(),
        data2_run(s, f, to, from, key, n).1 == payload_key(plain, key, n),
        forall|i: int|
            0 <= i < n ==> #[trigger] le32(data2_run(s, f, to, from, key, n).0, to + 4 * i) == plain[i],
        forall|a: int|
            0 <= a < s.len() && !(to <= a < to + 4 * n) ==> #[trigger] data2_run(
                s,
                f,
                to,
                from,
                key,
                n,
            ).0[a] == s[a],
    decreases n,
{
    if n > 0 {
        let m = (n - 1) as nat;
        sealed_payload_is_loaded(s, f, to, from, plain, key, m);
        let (t, k) = data2_run(s, f, to, from, key, m);
        let o = word_pos(to, m as int) as int;
        assert((m as u32).wrapping_mul(4) == 4 * m);
        assert(o == to + 4 * m);
        assert(word_pos(from, m as int) == from + 4 * m);
        let cell = le32(f, from + 4 * m);
        assert(cell == plain[m as int] ^ k);
        xor_twice(plain[m as int], k, 0, 0, 0, 0);
        xor_twice(plain[m as int] ^ k, k, 0, 0, 0, 0);
        write_then_read_32(t, o, k ^ cell);
        let r = data2_run(s, f, to, from, key, n).0;
        assert forall|i: int| 0 <= i < n implies #[trigger] le32(r, to + 4 * i) == plain[i] by {
            if i < m {
                assert(le32(t, to + 4 * i) == plain[i]);
            }
        }
    }
}

/// A word turned left by `k` bits.
pub open spec fn turned_left(x: u32, k: u32) -> u32 {
    (x << (k % 32)) | (x >> (((32 - k % 32) % 32) as u32))
}

/// The key of word `i` of enciphered words.
pub open spec fn word_key(key: u32, i: nat) -> u32
    decreases i,
{
    if i == 0 {
        key
    } else {
        word_key(key, (i - 1) as nat).wrapping_add((i - 1) as u32)
    }
}

/// Word `i` of enciphered words.
pub open spec fn sealed_word(x: u32, key: u32, shift: u32, i: int) -> u32 {
    turned_left(x.wrapping_add(i as u32), shift) ^ word_key(key, i as nat)
}

/// Whether `c` is `s` with `n` words from `base` on enciphered.
pub open spec fn has_words_sealed(
    c: Seq<u8>,
    s: Seq<u8>,
    base: u32,
    key: u32,
    shift: u32,
    n: nat,
) -> bool {
    &&& c.len() == s.len()
    &&& base + 4 * n <= s.len() <= u32::MAX
    &&& forall|i: int|
        0 <= i < n ==> #[trigger] le32(c, base + 4 * i) == sealed_word(
            le32(s, base + 4 * i),
            key,
            shift,
            i,
        )
    &&& forall|a: int| 0 <= a < s.len() && !(base <= a < base + 4 * n) ==> #[trigger] c[a] == s[a]
}

proof fn words_are_read(
    c: Seq<u8>,
    s: Seq<u8>,
    base: u32,
    key: u32,
    shift: u32,
    n: nat,
    m: nat,
)
    requires
        has_words_sealed(c, s, base, key, shift, n),
        m <= n,
    ensures
        data3_run(c, base, key, shift, m).0.len() == s.len(),
        data3_run(c, base, key, shift, m).1 == word_key(key, m),
        forall|i: int|
            0 <= i < m ==> #[trigger] le32(data3_run(c, base, key, shift, m).0, base + 4 * i) == le32(
                s,
                base + 4 * i,
            ),
        forall|a: int|
            0 <= a < s.len() && !(base <= a < base + 4 * m) ==> #[trigger] data3_run(
                c,
                base,
                key,
                shift,
                m,
            ).0[a] == c[a],
    decreases m,
{
    if m > 0 {
        let j = (m - 1) as nat;
        words_are_read(c, s, base, key, shift, n, j);
        let (t, k) = data3_run(c, base, key, shift, j);
        let o = word_pos(base, j as int) as int;
        assert((j as u32).wrapping_mul(4) == 4 * j);
        assert(o == base + 4 * j);
        let x = le32(s, base + 4 * j);
        let y = turned_left(x.wrapping_add(j as u32), shift);
        assert(le32(c, base + 4 * j) == sealed_word(x, key, shift, j as int));
        assert(le32(t, o) == y ^ k);
        xor_twice(y, k, 0, 0, 0, 0);
        turns(x.wrapping_add(j as u32), shift % 32);
        let v = crate::ciphers::rotr32(le32(t, o) ^ k, shift).wrapping_sub(j as u32);
        assert(v == x);
        write_then_read_32(t, o, v);
        let r = data3_run(c, base, key, shift, m).0;
        assert forall|i: int| 0 <= i < m implies #[trigger] le32(r, base + 4 * i) == le32(
            s,
            base + 4 * i,
        ) by {
            if i < j {
                assert(le32(t, base + 4 * i) == le32(s, base + 4 * i));
            }
        }
    }
}

proof fn equal_words_have_equal_bytes(s: Seq<u8>, t: Seq<u8>, o: int)
    requires
        le32(s, o) == le32(t, o),
    ensures
        s[o] == t[o],
        s[o + 1] == t[o + 1],
        s[o + 2] == t[o + 2],
        s[o + 3] == t[o + 3],
{
    parts_of_words(s[o], s[o + 1], s[o + 2], s[o + 3]);
    parts_of_words(t[o], t[o + 1], t[o + 2], t[o + 3]);
}

/// Words that were enciphered are deciphered, and nothing else changes.
pub proof fn sealed_words_are_read(
    c: Seq<u8>,
    s: Seq<u8>,
    base: u32,
    key: u32,
    shift: u32,
    n: nat,
)
    requires
        has_words_sealed(c, s, base, key, shift, n),
    ensures
        data3_run(c, base, key, shift, n).0 == s,
{
    words_are_read(c, s, base, key, shift, n, n);
    let r = data3_run(c, base, key, shift, n).0;
    assert forall|a: int| 0 <= a < s.len() implies r[a] == s[a] by {
        if base <= a < base + 4 * n {
            let i = (a - base) / 4;
            assert(le32(r, base + 4 * i) == le32(s, base + 4 * i));
            equal_words_have_equal_bytes(r, s, base + 4 * i);
            assert(a == base + 4 * i || a == base + 4 * i + 1 || a == base + 4 * i + 2 || a == base
                + 4 * i + 3);
        } else {
            assert(c[a] == s[a]);
        }
    }
    assert(r =~= s);
}

/// A byte with its halves exchanged.
pub open spec fn halves_exchanged(b: u8) -> u8 {
    (b / 16 + 16 * (b % 16)) as u8
}

/// A byte of a name, enciphered under `k`; the one that would become zero, which ends a
/// name, takes the place of zero itself.
pub open spec fn sealed_byte(b: u8, k: u8) -> u8 {
    if b + k == 256 {
        halves_exchanged(k)
    } else {
        halves_exchanged(b.wrapping_add(k))
    }
}

proof fn sealed_byte_is_read(b: u8, k: u8)
    requires
        b != 0,
    ensures
        sealed_byte(b, k) != 0,
        string_byte(sealed_byte(b, k), k) == b,
{
    let x = if b + k == 256 {
        k
    } else {
        b.wrapping_add(k)
    };
    half_turns(x);
}

/// Whether `c` is `s` with the name at `i`, which has `n` bytes in front of its zero byte,
/// enciphered under `key`.
pub open spec fn has_name_sealed(c: Seq<u8>, s: Seq<u8>, i: int, n: nat, key: u8) -> bool {
    &&& c.len() == s.len() <= u32::MAX
    &&& 0 <= i
    &&& i + n < s.len()
    &&& s[i + n] == 0
    &&& forall|a: int|
        0 <= a < s.len() ==> #[trigger] c[a] == (if i <= a < i + n {
            sealed_byte(s[a], name_key(key, (a - i) as nat))
        } else {
            s[a]
        })
    &&& forall|a: int| i <= a < i + n ==> #[trigger] s[a] != 0
}

/// The key of byte `i` of a name.
pub open spec fn name_key(key: u8, i: nat) -> u8
    decreases i,
{
    if i == 0 {
        key
    } else {
        name_key(key, (i - 1) as nat).wrapping_add(67)
    }
}

proof fn name_keys_go_on(key: u8, i: nat)
    ensures
        name_key(key.wrapping_add(67), i) == name_key(key, i + 1),
    decreases i,
{
    reveal_with_fuel(name_key, 2);
    if i > 0 {
        name_keys_go_on(key, (i - 1) as nat);
    }
}

/// A name that was enciphered is deciphered, and nothing else changes.
pub proof fn sealed_name_is_read(c: Seq<u8>, s: Seq<u8>, i: int, n: nat, key: u8)
    requires
        has_name_sealed(c, s, i, n, key),
    ensures
        data7(c, i, key) == Some(s),
    decreases n,
{
    if n == 0 {
        assert(c =~= s);
    } else {
        assert(s[i] != 0);
        sealed_byte_is_read(s[i], key);
        let d = c.update(i, string_byte(c[i], key));
        let m = (n - 1) as nat;
        assert forall|a: int| 0 <= a < s.len() implies #[trigger] d[a] == (if i + 1 <= a < i + 1 + m {
            sealed_byte(s[a], name_key(key.wrapping_add(67), (a - (i + 1)) as nat))
        } else {
            s[a]
        }) by {
            if i < a < i + n {
                name_keys_go_on(key, (a - (i + 1)) as nat);
            }
        }
        sealed_name_is_read(d, s, i + 1, m, key.wrapping_add(67));
    }
}

/// Bit `n` of the keystream of bytecode blocks.
pub open spec fn register_bit(n: nat) -> u32 {
    lfsr_state(n) & 1
}

proof fn fifteen_steps(
    s0: u32,
    s1: u32,
    s2: u32,
    s3: u32,
    s4: u32,
    s5: u32,
    s6: u32,
    s7: u32,
    s8: u32,
    s9: u32,
    s10: u32,
    s11: u32,
    s12: u32,
    s13: u32,
    s14: u32,
    s15: u32,
)
    by (bit_vector)
    requires
        s0 < 0x8000,
        s1 == lfsr_next(s0),
        s2 == lfsr_next(s1),
        s3 == lfsr_next(s2),
        s4 == lfsr_next(s3),
        s5 == lfsr_next(s4),
        s6 == lfsr_next(s5),
        s7 == lfsr_next(s6),
        s8 == lfsr_next(s7),
        s9 == lfsr_next(s8),
        s10 == lfsr_next(s9),
        s11 == lfsr_next(s10),
        s12 == lfsr_next(s11),
        s13 == lfsr_next(s12),
        s14 == lfsr_next(s13),
        s15 == lfsr_next(s14),
    ensures
        s15 == s0 ^ s1,
        s15 & 1 == (s0 & 1) ^ (s1 & 1),
{
}

proof fn register_goes_on(s: u32, j: u32)
    by (bit_vector)
    ensures
        s < 0x8000 ==> lfsr_next(s) < 0x8000,
        j < 14 ==> lfsr_next(1u32 << j) == 1u32 << ((j + 1) as u32),
        0 < j < 32 ==> (1u32 << j) & 1 == 0,
        1u32 << 0u32 == 1,
        1u32 & 1 == 1,
{
}

proof fn register_is_short(n: nat)
    ensures
        lfsr_state(n) < 0x8000,
        n < 15 ==> lfsr_state(n) == 1u32 << (n as u32),
    decreases n,
{
    register_goes_on(0, 0);
    if n > 0 {
        register_is_short((n - 1) as nat);
        register_goes_on(lfsr_state((n - 1) as nat), 0);
        if n < 15 {
            register_goes_on(0, (n - 1) as u32);
        }
    }
}

/// The keystream of bytecode blocks begins with a one and fourteen zeroes, and each later
/// bit is the sum of those fifteen and fourteen places in front of it.
pub proof fn keystream_is_a_recurrence(n: nat)
    ensures
        register_bit(0) == 1,
        1 <= n < 15 ==> register_bit(n) == 0,
        register_bit(n + 15) == register_bit(n) ^ register_bit(n + 1),
{
    register_is_short(0);
    register_is_short(n);
    register_goes_on(0, 0);
    if 1 <= n < 15 {
        register_goes_on(0, n as u32);
    }
    fifteen_steps(
        lfsr_state(n),
        lfsr_state(n + 1),
        lfsr_state(n + 2),
        lfsr_state(n + 3),
        lfsr_state(n + 4),
        lfsr_state(n + 5),
        lfsr_state(n + 6),
        lfsr_state(n + 7),
        lfsr_state(n + 8),
        lfsr_state(n + 9),
        lfsr_state(n + 10),
        lfsr_state(n + 11),
        lfsr_state(n + 12),
        lfsr_state(n + 13),
        lfsr_state(n + 14),
        lfsr_state(n + 15),
    );
}

} // verus!
