//! The word, byte and string ciphers around the protected payloads, and their
//! checksums.

use vstd::prelude::*;

use crate::bits::xor_twice;
use crate::bytecode::{rotate_right, rotr8};
use crate::bytes::{fits, get_u32, le32, put32, range_error, write_u32};
use crate::crc32;
use crate::crc32::crc_append;
use crate::error::{BufferOperation, Error};

verus! {

/// The shift register after one bit.
pub open spec fn lfsr_next(state: u32) -> u32 {
    if (state << 1u32) & 0x8000u32 != 0 {
        (state << 1u32) ^ 0x8003u32
    } else {
        state << 1u32
    }
}

/// The shift register after `n` bits.
pub open spec fn lfsr_state(n: nat) -> u32
    decreases n,
{
    if n == 0 {
        1
    } else {
        lfsr_next(lfsr_state((n - 1) as nat))
    }
}

/// The low `k` bits of keystream byte `i`.
pub open spec fn lfsr_bits(i: nat, k: nat) -> u8
    decreases k,
{
    if k == 0 {
        0
    } else {
        lfsr_bits(i, (k - 1) as nat) | (((lfsr_state((8 * i + k - 1) as nat) & 1u32) << ((k
            - 1) as u32)) as u8)
    }
}

/// Keystream byte `i`: eight successive register bits, the first one lowest.
pub open spec fn lfsr_byte(i: nat) -> u8 {
    lfsr_bits(i, 8)
}

/// The first `n` keystream bytes.
pub open spec fn lfsr_stream(n: nat) -> Seq<u8> {
    Seq::new(n, |i: int| lfsr_byte(i as nat))
}

/// Fill `out` with the keystream that block ciphers of bytecode use.
pub fn lfsr_keystream(out: &mut [u8])
    ensures
        final(out)@ == lfsr_stream(old(out)@.len()),
{
    let mut state: u32 = 1;
    let mut i: usize = 0;
    let len: usize = out.len();
    while i < len
        invariant
            i <= len,
            out@.len() == len,
            state == lfsr_state((8 * i) as nat),
            forall|j: int| 0 <= j < i ==> #[trigger] out@[j] == lfsr_byte(j as nat),
        decreases len - i,
    {
        let mut b: u8 = 0;
        let mut k: u32 = 0;
        while k < 8
            invariant
                k <= 8,
                state == lfsr_state((8 * i + k) as nat),
                b == lfsr_bits(i as nat, k as nat),
            decreases 8 - k,
        {
            let bit: u8 = #[verifier::truncate]
            (((state & 1u32) << k) as u8);
            b = b | bit;
            state = state << 1u32;
            if state & 0x8000u32 != 0 {
                state = state ^ 0x8003u32;
            }
            k = k + 1;
        }
        out[i] = b;
        i = i + 1;
    }
    assert(out@ =~= lfsr_stream(len as nat));
}

/// The buffer with the first `n` bytes at `pos` combined with the keystream.
pub open spec fn lfsr_xored(s: Seq<u8>, pos: int, n: int) -> Seq<u8> {
    Seq::new(
        s.len(),
        |i: int|
            if pos <= i < pos + n {
                s[i] ^ lfsr_byte((i - pos) as nat)
            } else {
                s[i]
            },
    )
}

/// Whether the bytecode block at `pos`, whose length byte stands 95 bytes in,
/// lies inside `s`.
pub open spec fn block6_in_range(s: Seq<u8>, pos: u32) -> bool {
    &&& pos + 95 <= u32::MAX
    &&& pos + 95 < s.len()
    &&& pos + s[pos + 95] <= s.len()
}

/// The buffer with the bytecode block at `pos` deciphered.
pub open spec fn block6(s: Seq<u8>, pos: u32) -> Seq<u8> {
    lfsr_xored(s, pos as int, s[pos + 95] as int)
}

/// [`decrypt_data6`] for any position: outside the buffer nothing is done and
/// `false` comes back.
pub fn decrypt_data6_checked(d: &mut [u8], pos: u32) -> (ok: bool)
    ensures
        ok == block6_in_range(old(d)@, pos),
        final(d)@ == (if ok {
            block6(old(d)@, pos)
        } else {
            old(d)@
        }),
{
    let len: usize = d.len();
    let p: usize = pos as usize;
    if pos > 0xFFFF_FFFF - 95 || len < 96 || p > len - 96 {
        return false;
    }
    let n: usize = d[p + 95] as usize;
    if n > len - p {
        return false;
    }
    let mut ks: Vec<u8> = vec![0u8; 256];
    lfsr_keystream(&mut ks);
    let mut i: usize = 0;
    while i < n
        invariant
            i <= n <= 255,
            n == old(d)@[pos + 95],
            p == pos,
            p + n <= len,
            d@.len() == len == old(d)@.len(),
            ks@ == lfsr_stream(256),
            d@ =~= lfsr_xored(old(d)@, p as int, i as int),
        decreases n - i,
    {
        let b: u8 = d[p + i];
        d[p + i] = b ^ ks[i];
        i = i + 1;
    }
    true
}

/// Decipher the bytecode block at `pos`.
pub fn decrypt_data6(d: &mut [u8], pos: u32)
    requires
        block6_in_range(old(d)@, pos),
    ensures
        final(d)@ == block6(old(d)@, pos),
{
    let _ok = decrypt_data6_checked(d, pos);
}

/// Deciphering a bytecode block twice restores it, as long as the block does not
/// reach its own length byte.
pub proof fn block6_is_an_involution(s: Seq<u8>, pos: u32)
    requires
        block6_in_range(s, pos),
        s[pos + 95] <= 95,
    ensures
        block6_in_range(block6(s, pos), pos),
        block6(block6(s, pos), pos) == s,
{
    let t = block6(s, pos);
    assert(t[pos + 95] == s[pos + 95]);
    assert forall|i: int| 0 <= i < s.len() implies block6(t, pos)[i] == s[i] by {
        let a = s[i];
        let k = lfsr_byte((i - pos) as nat);
        xor_twice(0, 0, a, k, 0, 0);
    }
    assert(block6(t, pos) =~= s);
}

/// `v` rotated right by `k` bits.
pub open spec fn rotr32(v: u32, k: u32) -> u32 {
    (v >> (k % 32)) | (v << (((32 - k % 32) % 32) as u32))
}

fn rotate_word(v: u32, k: u32) -> (r: u32)
    ensures
        r == rotr32(v, k),
{
    let m: u32 = k % 32;
    let n: u32 = (32 - m) % 32;
    (v >> m) | (v << n)
}

/// Where word `i` of the data at `base` starts.
pub open spec fn word_pos(base: u32, i: int) -> u32 {
    base.wrapping_add((i as u32).wrapping_mul(4))
}

/// The buffer and the key after `n` words of the rolling word cipher.
pub open spec fn data3_run(s: Seq<u8>, base: u32, key: u32, shift: u32, n: nat) -> (Seq<u8>, u32)
    decreases n,
{
    if n == 0 {
        (s, key)
    } else {
        let (t, k) = data3_run(s, base, key, shift, (n - 1) as nat);
        let i = (n - 1) as u32;
        let o = word_pos(base, n - 1) as int;
        (
            put32(t, o, rotr32(le32(t, o) ^ k, shift).wrapping_sub(i)),
            k.wrapping_add(i),
        )
    }
}

/// Whether the address and length at `pos`, and the words that they name, lie
/// inside `s`.
pub open spec fn data3_in_range(s: Seq<u8>, pos: u32) -> bool {
    &&& fits(s, pos as int, 4)
    &&& fits(s, pos.wrapping_add(4) as int, 4)
    &&& forall|i: int|
        0 <= i < (le32(s, pos.wrapping_add(4) as int) >> 2u32) ==> fits(
            s,
            #[trigger] word_pos(le32(s, pos as int), i) as int,
            4,
        )
}

/// The buffer with the words that the address and length at `pos` name
/// deciphered.
pub open spec fn data3(s: Seq<u8>, pos: u32, key: u32, shift: u32) -> Seq<u8> {
    data3_run(
        s,
        le32(s, pos as int),
        key,
        shift,
        (le32(s, pos.wrapping_add(4) as int) >> 2u32) as nat,
    ).0
}

/// [`decrypt_data3`] for any position: where a word leaves the buffer, `false`
/// comes back and the buffer's contents are unspecified.
pub fn decrypt_data3_checked(d: &mut [u8], pos: u32, key: u32, shift: u32) -> (ok: bool)
    ensures
        ok == data3_in_range(old(d)@, pos),
        ok ==> final(d)@ == data3(old(d)@, pos, key, shift),
        final(d)@.len() == old(d)@.len(),
{
    let len: usize = d.len();
    let second: u32 = pos.wrapping_add(4);
    if len < 4 || pos as usize > len - 4 || second as usize > len - 4 {
        return false;
    }
    let base: u32 = get_u32(d, pos);
    let words: u32 = get_u32(d, second) >> 2u32;
    let mut k: u32 = key;
    let mut i: u32 = 0;
    while i < words
        invariant
            i <= words,
            len >= 4,
            len == old(d)@.len(),
            d@.len() == len,
            base == le32(old(d)@, pos as int),
            words == le32(old(d)@, pos.wrapping_add(4) as int) >> 2u32,
            (d@, k) == data3_run(old(d)@, base, key, shift, i as nat),
            forall|j: int| 0 <= j < i ==> fits(old(d)@, #[trigger] word_pos(base, j) as int, 4),
        decreases words - i,
    {
        let o: u32 = base.wrapping_add(i.wrapping_mul(4));
        assert(o == word_pos(base, i as int));
        if o as usize > len - 4 {
            return false;
        }
        let v: u32 = get_u32(d, o) ^ k;
        k = k.wrapping_add(i);
        write_u32(d, o, rotate_word(v, shift).wrapping_sub(i));
        i = i + 1;
    }
    true
}

/// Decipher the words that the address and length at `pos` name. `shift` is the
/// rotation.
pub fn decrypt_data3(d: &mut [u8], pos: u32, key: u32, shift: u32)
    requires
        data3_in_range(old(d)@, pos),
    ensures
        final(d)@ == data3(old(d)@, pos, key, shift),
        final(d)@.len() == old(d)@.len(),
{
    let _ok = decrypt_data3_checked(d, pos, key, shift);
}

/// The rolling key of header field `i`.
pub open spec fn header_key(s: Seq<u8>, i: nat) -> u32
    decreases i,
{
    if i == 0 {
        le32(s, 4096)
    } else {
        let j = (i - 1) as u32;
        let k = header_key(s, (i - 1) as nat);
        j.wrapping_mul(j) ^ k.wrapping_add(le32(s, 4096 + 4 * i as int)).wrapping_sub(j)
    }
}

/// Field `i` of the eight-field header at offset 4096 of a protected file.
pub open spec fn header_field(s: Seq<u8>, i: int) -> u32 {
    if i == 0 {
        le32(s, 4096)
    } else {
        header_key(s, (i - 1) as nat) ^ le32(s, 4096 + 4 * i)
    }
}

/// Decipher the eight-field header at offset 4096.
pub fn decrypt_data1(file_data: &[u8], info: &mut [u32; 8])
    requires
        file_data@.len() >= 4128,
    ensures
        forall|i: int| 0 <= i < 8 ==> #[trigger] final(info)@[i] == header_field(file_data@, i),
{
    let mut k: u32 = get_u32(file_data, 4096);
    info[0] = k;
    let mut i: u32 = 0;
    while i < 7
        invariant
            i <= 7,
            file_data@.len() >= 4128,
            k == header_key(file_data@, i as nat),
            info@.len() == 8,
            forall|j: int| 0 <= j <= i ==> #[trigger] info@[j] == header_field(file_data@, j),
        decreases 7 - i,
    {
        let cell: u32 = get_u32(file_data, 4100 + 4 * i);
        info[(i + 1) as usize] = k ^ cell;
        k = i.wrapping_mul(i) ^ k.wrapping_add(cell).wrapping_sub(i);
        i = i + 1;
    }
}

/// One byte of an enciphered string under the rolling key.
pub open spec fn string_byte(b: u8, key: u8) -> u8 {
    let v = rotr8(b, 4).wrapping_sub(key);
    if v == 0 {
        0u8.wrapping_sub(key)
    } else {
        v
    }
}

/// The buffer with the string at `i` deciphered up to its zero byte: `None`
/// where there is none.
pub open spec fn data7(s: Seq<u8>, i: int, key: u8) -> Option<Seq<u8>>
    decreases s.len() - i,
{
    if !(0 <= i < s.len()) || i > u32::MAX {
        None
    } else if s[i] == 0 {
        Some(s)
    } else {
        data7(s.update(i, string_byte(s[i], key)), i + 1, key.wrapping_add(67))
    }
}

/// [`decrypt_data7`] for any position: where the string does not end inside the
/// buffer, `false` comes back and the buffer's contents are unspecified.
pub fn decrypt_data7_checked(d: &mut [u8], pos: u32, key: u8) -> (ok: bool)
    ensures
        ok == (data7(old(d)@, pos as int, key) is Some),
        ok ==> data7(old(d)@, pos as int, key) == Some(final(d)@),
        final(d)@.len() == old(d)@.len(),
{
    let len: usize = d.len();
    let mut i: usize = pos as usize;
    let mut k: u8 = key;
    while i < len && i as u64 <= 0xFFFF_FFFFu64
        invariant
            d@.len() == len,
            old(d)@.len() == len,
            data7(old(d)@, pos as int, key) == data7(d@, i as int, k),
        decreases len - i,
    {
        let c: u8 = d[i];
        if c == 0 {
            return true;
        }
        let mut b: u8 = rotate_right(c, 4).wrapping_sub(k);
        if b == 0 {
            b = 0u8.wrapping_sub(k);
        }
        d[i] = b;
        k = k.wrapping_add(67);
        i = i + 1;
    }
    false
}

/// Decipher the string at `pos`.
pub fn decrypt_data7(d: &mut [u8], pos: u32, key: u8)
    requires
        data7(old(d)@, pos as int, key) is Some,
    ensures
        data7(old(d)@, pos as int, key) == Some(final(d)@),
        final(d)@.len() == old(d)@.len(),
{
    let _ok = decrypt_data7_checked(d, pos, key);
}

/// The checksum of the bytes that the address and length at `pos` name, combined
/// with the length: `None` where they leave `s`.
pub open spec fn checksum(s: Seq<u8>, pos: u32) -> Option<u32> {
    let second = pos.wrapping_add(4) as int;
    if !fits(s, pos as int, 4) || !fits(s, second, 4) {
        None
    } else {
        let o = le32(s, pos as int);
        let n = le32(s, second);
        if o + n > s.len() || o + n > u32::MAX {
            None
        } else {
            Some(crc_append(0, s.subrange(o as int, o + n)) ^ n)
        }
    }
}

/// [`calculate_checksum`] for any position.
pub fn calculate_checksum_checked(d: &[u8], pos: u32) -> (r: Option<u32>)
    ensures
        r == checksum(d@, pos),
{
    let len: usize = d.len();
    let second: u32 = pos.wrapping_add(4);
    if len < 4 || pos as usize > len - 4 || second as usize > len - 4 {
        return None;
    }
    let o: u32 = get_u32(d, pos);
    let n: u32 = get_u32(d, second);
    if n > 0xFFFF_FFFF - o || o as usize > len || n as usize > len - o as usize {
        return None;
    }
    Some(crc32::compute(vstd::slice::slice_subrange(d, o as usize, (o + n) as usize)) ^ n)
}

/// The checksum of the bytes that the address and length at `pos` name, combined
/// with the length.
pub fn calculate_checksum(d: &[u8], pos: u32) -> (r: u32)
    requires
        checksum(d@, pos) is Some,
    ensures
        checksum(d@, pos) == Some(r),
{
    match calculate_checksum_checked(d, pos) {
        Some(r) => r,
        None => 0,
    }
}

/// The checksum `start` continued over the bytes of `clean` that the address
/// and length at `pos` of `d` name.
pub open spec fn checksum2(d: Seq<u8>, clean: Seq<u8>, pos: u32, start: u32) -> Result<u32, Error> {
    let o = le32(d, pos as int);
    let n = le32(d, pos.wrapping_add(4) as int);
    if o + n > clean.len() {
        Err(range_error(BufferOperation::Read, o as usize, n as usize, clean.len() as usize))
    } else {
        Ok(crc_append(start, clean.subrange(o as int, o + n)))
    }
}

/// Continue the checksum `start` over the bytes of `clean` that the address and
/// length at `pos` of `d` name.
pub fn calculate_checksum2(d: &[u8], clean: &[u8], pos: u32, start: u32) -> (r: Result<u32, Error>)
    requires
        fits(d@, pos as int, 4),
        fits(d@, pos.wrapping_add(4) as int, 4),
    ensures
        r == checksum2(d@, clean@, pos, start),
{
    let o: usize = get_u32(d, pos) as usize;
    let n: usize = get_u32(d, pos.wrapping_add(4)) as usize;
    let len: usize = clean.len();
    if o > len || n > len - o {
        return Err(
            Error::BufferRangeOutOfBounds {
                operation: BufferOperation::Read,
                offset: o,
                size: n,
                buffer_len: len,
            },
        );
    }
    Ok(crc32::append(start, vstd::slice::slice_subrange(clean, o, o + n)))
}

} // verus!
