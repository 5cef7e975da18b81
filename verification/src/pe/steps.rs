//! Steps that the pipelines take on an image.
//!
//! Every step that would touch a byte outside the image, or outside the file,
//! ends in [`UnpackError::CorruptInput`].

use vstd::prelude::*;

use crate::aes::{aes_decrypt_checked, aes_decrypted, aes_in_range};
use crate::bytecode::{rotate_left, rotl8};
use crate::bytes::{
    clear_bytes, copy_bytes, fits, le16, le32, le64, overlay, peek_u16, peek_u32, peek_u64,
    poke_u16, poke_u32, put16, put32, sub_vec, zeroed,
};
use crate::ciphers::{
    block6, block6_in_range, calculate_checksum_checked, checksum, data3, data3_in_range, data7,
    decrypt_data3_checked, decrypt_data6_checked, decrypt_data7_checked,
};
use crate::error::{UnpackError, MAX_IMAGE_SIZE};
use crate::pe::discovery::{data5, decrypt_data5_checked, reach5, trial5, trial_decrypt5_u32};

verus! {

/// What a step gives back.
pub type Out<T> = Result<T, UnpackError>;

/// Whether an image has the size of one.
pub open spec fn sized(s: Seq<u8>) -> bool {
    s.len() <= MAX_IMAGE_SIZE
}

/// Whether 32-bit addresses reach an image and the 64 KiB behind it.
pub open spec fn addressable(s: Seq<u8>) -> bool {
    s.len() <= 0xFFFF_0000
}

/// The end of a step that leaves the image.
pub open spec fn corrupt<T>() -> Out<T> {
    Err(UnpackError::CorruptInput)
}

pub open spec fn has2(s: Seq<u8>, o: u32) -> bool {
    fits(s, o as int, 2)
}

pub open spec fn has4(s: Seq<u8>, o: u32) -> bool {
    fits(s, o as int, 4)
}

pub open spec fn has8(s: Seq<u8>, o: u32) -> bool {
    fits(s, o as int, 8)
}

pub open spec fn w16(s: Seq<u8>, o: u32) -> u16 {
    le16(s, o as int)
}

pub open spec fn w32(s: Seq<u8>, o: u32) -> u32 {
    le32(s, o as int)
}

pub open spec fn w64(s: Seq<u8>, o: u32) -> u64 {
    le64(s, o as int)
}

/// The half-word at `o`.
pub fn rd16(s: &[u8], o: u32) -> (r: Out<u16>)
    ensures
        r == (if has2(s@, o) {
            Ok(w16(s@, o))
        } else {
            corrupt()
        }),
{
    match peek_u16(s, o as usize) {
        Some(v) => Ok(v),
        None => Err(UnpackError::CorruptInput),
    }
}

/// The word at `o`.
pub fn rd32(s: &[u8], o: u32) -> (r: Out<u32>)
    ensures
        r == (if has4(s@, o) {
            Ok(w32(s@, o))
        } else {
            corrupt()
        }),
{
    match peek_u32(s, o as usize) {
        Some(v) => Ok(v),
        None => Err(UnpackError::CorruptInput),
    }
}

/// The double word at `o`.
pub fn rd64(s: &[u8], o: u32) -> (r: Out<u64>)
    ensures
        r == (if has8(s@, o) {
            Ok(w64(s@, o))
        } else {
            corrupt()
        }),
{
    match peek_u64(s, o as usize) {
        Some(v) => Ok(v),
        None => Err(UnpackError::CorruptInput),
    }
}

/// Store a half-word.
pub fn wr16(s: &mut [u8], o: u32, v: u16) -> (r: Out<()>)
    ensures
        r == (if has2(old(s)@, o) {
            Ok(())
        } else {
            corrupt()
        }),
        r is Ok ==> final(s)@ == put16(old(s)@, o as int, v),
        final(s)@.len() == old(s)@.len(),
{
    if poke_u16(s, o as usize, v) {
        Ok(())
    } else {
        Err(UnpackError::CorruptInput)
    }
}

/// Store a word.
pub fn wr32(s: &mut [u8], o: u32, v: u32) -> (r: Out<()>)
    ensures
        r == (if has4(old(s)@, o) {
            Ok(())
        } else {
            corrupt()
        }),
        r is Ok ==> final(s)@ == put32(old(s)@, o as int, v),
        final(s)@.len() == old(s)@.len(),
{
    if poke_u32(s, o as usize, v) {
        Ok(())
    } else {
        Err(UnpackError::CorruptInput)
    }
}

/// `s` with the `n` bytes at `from` of `t` in place of its own at `to`.
pub open spec fn pasted(s: Seq<u8>, to: int, t: Seq<u8>, from: int, n: int) -> Out<Seq<u8>> {
    if fits(s, to, n) && fits(t, from, n) {
        Ok(overlay(s, to, t.subrange(from, from + n)))
    } else {
        corrupt()
    }
}

/// Copy `n` bytes from another buffer.
pub fn paste(s: &mut [u8], to: usize, t: &[u8], from: usize, n: usize) -> (r: Out<()>)
    ensures
        match pasted(old(s)@, to as int, t@, from as int, n as int) {
            Ok(v) => r is Ok && final(s)@ == v,
            Err(e) => r == Err::<(), UnpackError>(e),
        },
        final(s)@.len() == old(s)@.len(),
{
    let a: usize = s.len();
    let b: usize = t.len();
    if to > a || n > a - to || from > b || n > b - from {
        return Err(UnpackError::CorruptInput);
    }
    copy_bytes(s, to, t, from, n);
    Ok(())
}

/// Copy `n` bytes inside a buffer; the two ranges may overlap.
pub fn move_bytes(s: &mut [u8], from: usize, n: usize, to: usize) -> (r: Out<()>)
    ensures
        match pasted(old(s)@, to as int, old(s)@, from as int, n as int) {
            Ok(v) => r is Ok && final(s)@ == v,
            Err(e) => r == Err::<(), UnpackError>(e),
        },
        final(s)@.len() == old(s)@.len(),
{
    let a: usize = s.len();
    if to > a || n > a - to || from > a || n > a - from {
        return Err(UnpackError::CorruptInput);
    }
    let t: Vec<u8> = sub_vec(s, from, from + n);
    copy_bytes(s, to, &t, 0, n);
    assert(t@.subrange(0, n as int) =~= t@);
    Ok(())
}

/// A copy of `n` bytes.
pub fn cut(s: &[u8], from: usize, n: usize) -> (r: Out<Vec<u8>>)
    ensures
        match r {
            Ok(v) => fits(s@, from as int, n as int) && v@ == s@.subrange(from as int, from + n),
            Err(e) => !fits(s@, from as int, n as int) && e == UnpackError::CorruptInput,
        },
{
    let a: usize = s.len();
    if from > a || n > a - from {
        return Err(UnpackError::CorruptInput);
    }
    Ok(sub_vec(s, from, from + n))
}

/// Clear `n` bytes.
pub fn clear(s: &mut [u8], from: usize, n: usize) -> (r: Out<()>)
    ensures
        r == (if fits(old(s)@, from as int, n as int) {
            Ok(())
        } else {
            corrupt()
        }),
        r is Ok ==> final(s)@ == zeroed(old(s)@, from as int, n as int),
        final(s)@.len() == old(s)@.len(),
{
    let a: usize = s.len();
    if from > a || n > a - from {
        return Err(UnpackError::CorruptInput);
    }
    clear_bytes(s, from, n);
    Ok(())
}

/// Decipher blocks.
pub fn aes(s: &mut [u8], pos: u32, size: u32, key: u32) -> (r: Out<()>)
    ensures
        r == (if aes_in_range(old(s)@, pos, size, key) {
            Ok(())
        } else {
            corrupt()
        }),
        r is Ok ==> final(s)@ == aes_decrypted(old(s)@, pos, size, key),
        final(s)@.len() == old(s)@.len(),
{
    if aes_decrypt_checked(s, pos, size, key) {
        Ok(())
    } else {
        Err(UnpackError::CorruptInput)
    }
}

/// Decipher words.
pub fn dec3(s: &mut [u8], pos: u32, key: u32, shift: u32) -> (r: Out<()>)
    ensures
        r == (if data3_in_range(old(s)@, pos) {
            Ok(())
        } else {
            corrupt()
        }),
        r is Ok ==> final(s)@ == data3(old(s)@, pos, key, shift),
        final(s)@.len() == old(s)@.len(),
{
    if decrypt_data3_checked(s, pos, key, shift) {
        Ok(())
    } else {
        Err(UnpackError::CorruptInput)
    }
}

/// Decipher bytes by position.
pub fn dec5(s: &mut [u8], va: u32, n: u32) -> (r: Out<()>)
    ensures
        r == (if reach5(old(s)@, va, n) {
            Ok(())
        } else {
            corrupt()
        }),
        r is Ok ==> final(s)@ == data5(old(s)@, va as int, n as int),
        final(s)@.len() == old(s)@.len(),
{
    if decrypt_data5_checked(s, va, n) {
        Ok(())
    } else {
        Err(UnpackError::CorruptInput)
    }
}

/// The word that deciphering by position would leave.
pub fn trial(s: &[u8], va: u32) -> (r: Out<u32>)
    ensures
        r == (if reach5(s@, va, 4) {
            Ok(trial5(s@, va))
        } else {
            corrupt()
        }),
{
    let a: usize = s.len();
    if a < 4 || va as usize > a - 4 || va > 0xFFFF_FFFC {
        return Err(UnpackError::CorruptInput);
    }
    Ok(trial_decrypt5_u32(s, va))
}

/// Decipher a bytecode block.
pub fn dec6(s: &mut [u8], pos: u32) -> (r: Out<()>)
    ensures
        r == (if block6_in_range(old(s)@, pos) {
            Ok(())
        } else {
            corrupt()
        }),
        r is Ok ==> final(s)@ == block6(old(s)@, pos),
        final(s)@.len() == old(s)@.len(),
{
    if decrypt_data6_checked(s, pos) {
        Ok(())
    } else {
        Err(UnpackError::CorruptInput)
    }
}

/// Decipher a string.
pub fn dec7(s: &mut [u8], pos: u32, key: u8) -> (r: Out<()>)
    ensures
        match data7(old(s)@, pos as int, key) {
            Some(v) => r is Ok && final(s)@ == v,
            None => r == corrupt::<()>(),
        },
        final(s)@.len() == old(s)@.len(),
{
    if decrypt_data7_checked(s, pos, key) {
        Ok(())
    } else {
        Err(UnpackError::CorruptInput)
    }
}

/// The checksum that the descriptor at `pos` asks for.
pub fn sum(s: &[u8], pos: u32) -> (r: Out<u32>)
    ensures
        r == (match checksum(s@, pos) {
            Some(v) => Ok(v),
            None => corrupt(),
        }),
{
    match calculate_checksum_checked(s, pos) {
        Some(v) => Ok(v),
        None => Err(UnpackError::CorruptInput),
    }
}

/// The rolling byte cipher at `k` bytes behind `base`.
pub open spec fn byte4(x: u8, base: u32, k: int) -> u8 {
    let b = ((((base >> 8u32).wrapping_add(base)) & 0xFFu32) as u8).wrapping_add(k as u8);
    rotl8(rotl8(rotl8(x, 3) ^ b.wrapping_add(1), 3) ^ b, 3)
}

/// Whether the address and length at `pos`, and the bytes that they name, lie
/// inside `s`.
pub open spec fn data4_in_range(s: Seq<u8>, pos: u32) -> bool {
    &&& has4(s, pos)
    &&& has4(s, pos.wrapping_add(4))
    &&& reach5(s, w32(s, pos), w32(s, pos.wrapping_add(4)))
}

/// `s` with the bytes that the address and length at `pos` name deciphered.
pub open spec fn data4(s: Seq<u8>, pos: u32) -> Seq<u8> {
    let base = w32(s, pos);
    let n = w32(s, pos.wrapping_add(4));
    Seq::new(
        s.len(),
        |i: int|
            if base <= i < base + n {
                byte4(s[i], base, i - base)
            } else {
                s[i]
            },
    )
}

/// Decipher the bytes that the address and length at `pos` name.
pub fn dec4(s: &mut [u8], pos: u32) -> (r: Out<()>)
    ensures
        r == (if data4_in_range(old(s)@, pos) {
            Ok(())
        } else {
            corrupt()
        }),
        r is Ok ==> final(s)@ == data4(old(s)@, pos),
        final(s)@.len() == old(s)@.len(),
{
    let base: u32 = rd32(s, pos)?;
    let n: u32 = rd32(s, pos.wrapping_add(4))?;
    if n == 0 {
        assert(data4(s@, pos) =~= s@);
        return Ok(());
    }
    let len: usize = s.len();
    let from: usize = base as usize;
    if from > len || n as usize > len - from || n - 1 > 0xFFFF_FFFF - base {
        return Err(UnpackError::CorruptInput);
    }
    let m: usize = n as usize;
    let start: u8 = #[verifier::truncate]
    ((((base >> 8u32).wrapping_add(base)) & 0xFFu32) as u8);
    let mut k: usize = 0;
    while k < m
        invariant
            k <= m,
            from == base,
            from + m <= len,
            s@.len() == len == old(s)@.len(),
            start == (((base >> 8u32).wrapping_add(base)) & 0xFFu32) as u8,
            forall|i: int|
                0 <= i < len ==> #[trigger] s@[i] == (if base <= i < base + k {
                    byte4(old(s)@[i], base, i - base)
                } else {
                    old(s)@[i]
                }),
        decreases m - k,
    {
        let low: u8 = #[verifier::truncate]
        (k as u8);
        let b: u8 = start.wrapping_add(low);
        let x: u8 = s[from + k];
        s[from + k] = rotate_left(rotate_left(rotate_left(x, 3) ^ b.wrapping_add(1), 3) ^ b, 3);
        k = k + 1;
    }
    assert(s@ =~= data4(old(s)@, pos));
    Ok(())
}

/// 1 + 2 + ... + `n`.
pub open spec fn sum_to(n: nat) -> nat
    decreases n,
{
    if n == 0 {
        0
    } else {
        n + sum_to((n - 1) as nat)
    }
}

/// `key` after `n` rounds; round `m` adds 1 up to 100 `m`.
pub open spec fn advanced_key(key: u32, n: nat) -> u32
    decreases n,
{
    if n == 0 {
        key
    } else {
        advanced_key(key, (n - 1) as nat).wrapping_add(sum_to(100 * n) as u32)
    }
}

/// Advance a key by `n` rounds.
pub fn advance_key(key: u32, n: u32) -> (r: u32)
    requires
        n <= 8,
    ensures
        r == advanced_key(key, n as nat),
{
    let mut k: u32 = key;
    let mut m: u32 = 0;
    while m < n
        invariant
            m <= n <= 8,
            k == advanced_key(key, m as nat),
        decreases n - m,
    {
        m = m + 1;
        let bound: u32 = 100 * m;
        let mut total: u32 = 0;
        let mut i: u32 = 0;
        while i < bound
            invariant
                i <= bound <= 800,
                total == sum_to(i as nat),
                total <= 800 * i,
            decreases bound - i,
        {
            i = i + 1;
            total = total + i;
        }
        k = k.wrapping_add(total);
    }
    k
}

/// The xor of the checksums that the descriptors from `p` on ask for, up to one
/// of length zero, and `acc`.
pub open spec fn chain_sum(s: Seq<u8>, p: int, acc: u32) -> Out<u32>
    decreases s.len() - p,
{
    if !(0 <= p && p + 8 <= s.len()) {
        corrupt()
    } else if le32(s, p + 4) == 0 {
        Ok(acc)
    } else {
        match checksum(s, p as u32) {
            None => corrupt(),
            Some(c) => chain_sum(s, p + 8, acc ^ c),
        }
    }
}

/// The xor of the checksums of a chain of descriptors.
pub fn sum_chain(s: &[u8], start: u32) -> (r: Out<u32>)
    requires
        s@.len() <= u32::MAX,
    ensures
        r == chain_sum(s@, start as int, 0),
{
    let len: usize = s.len();
    let mut p: u32 = start;
    let mut acc: u32 = 0;
    while len >= 8 && p as usize <= len - 8
        invariant
            len == s@.len(),
            len <= u32::MAX,
            chain_sum(s@, start as int, 0) == chain_sum(s@, p as int, acc),
        decreases len - p,
    {
        let n: u32 = rd32(s, p + 4)?;
        if n == 0 {
            return Ok(acc);
        }
        let c: u32 = sum(s, p)?;
        acc = acc ^ c;
        p = p + 8;
    }
    Err(UnpackError::CorruptInput)
}

} // verus!
