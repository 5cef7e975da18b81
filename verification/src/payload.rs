//! Stage payloads: deciphered in place, then expanded.
//!
//! A payload descriptor is four words: source, source length, destination,
//! destination length.

use vstd::prelude::*;

use crate::aes::{aes_decrypt_checked, aes_decrypted, aes_in_range};
use crate::bytecode::{mapped, Op, OpsLut};
use crate::bytes::{fits, le32, peek_u32};
use crate::ciphers::{data3, data3_in_range, decrypt_data3_checked};
use crate::error::DecompressionFailure;
use crate::huffman::{expand_checked, expanded, tells, Expansion, Outcome};

verus! {

/// The view of an optional transform.
pub open spec fn ops_view(ops: Option<&[Op]>) -> Option<Seq<Op>> {
    match ops {
        Some(o) => Some(o@),
        None => None,
    }
}

/// `s` with the optional transform applied to the `n` bytes from `o` on; the
/// bytes must lie inside `s` where there is something to apply.
pub open spec fn transformed(s: Seq<u8>, o: int, n: int, ops: Option<Seq<Op>>) -> Option<Seq<u8>> {
    match ops {
        Some(ops) => if n == 0 {
            Some(s)
        } else if fits(s, o, n) {
            Some(mapped(s, o, n, ops))
        } else {
            None
        },
        None => Some(s),
    }
}

/// The payload whose descriptor stands at `pos`, opened: the source is
/// deciphered with the schedule at `key3`, then with the word cipher under
/// `key`, then transformed; where the two lengths differ it is expanded with the
/// table at `key1`.
pub open spec fn opened(
    s: Seq<u8>,
    pos: u32,
    key: u32,
    key1: u32,
    key3: u32,
    ops: Option<Seq<Op>>,
) -> Outcome {
    let p4 = pos.wrapping_add(4);
    let p8 = pos.wrapping_add(8);
    let p12 = pos.wrapping_add(12);
    if !fits(s, pos as int, 4) || !fits(s, p4 as int, 4) {
        Outcome::Outside
    } else {
        let src = le32(s, pos as int);
        let n = le32(s, p4 as int);
        if !aes_in_range(s, src, n, key3) {
            Outcome::Outside
        } else {
            let a = aes_decrypted(s, src, n, key3);
            if !data3_in_range(a, pos) {
                Outcome::Outside
            } else {
                match transformed(data3(a, pos, key, 19), src as int, n as int, ops) {
                    None => Outcome::Outside,
                    Some(b) => if !fits(b, p8 as int, 4) || !fits(b, p12 as int, 4) {
                        Outcome::Outside
                    } else {
                        let dest = le32(b, p8 as int);
                        let m = le32(b, p12 as int);
                        if n != m {
                            expanded(None, b, src, dest, key1, n, m)
                        } else {
                            Outcome::Ended { data: b, result: Ok(()) }
                        }
                    },
                }
            }
        }
    }
}

/// [`decrypt_and_decompress_data_detailed`] for any arguments; where a byte
/// outside the buffer is asked for, the buffer's contents are unspecified.
pub fn open_checked(
    d: &mut [u8],
    pos: u32,
    key: u32,
    key1_offset: u32,
    key3_offset: u32,
    ops: Option<&[Op]>,
) -> (r: Expansion)
    ensures
        tells(opened(old(d)@, pos, key, key1_offset, key3_offset, ops_view(ops)), r, final(d)@),
        final(d)@.len() == old(d)@.len(),
{
    let (src, n): (u32, u32) = match (
        peek_u32(d, pos as usize),
        peek_u32(d, pos.wrapping_add(4) as usize),
    ) {
        (Some(a), Some(b)) => (a, b),
        _ => return Expansion::Outside,
    };
    if !aes_decrypt_checked(d, src, n, key3_offset) {
        return Expansion::Outside;
    }
    if !decrypt_data3_checked(d, pos, key, 19) {
        return Expansion::Outside;
    }
    if let Some(o) = ops {
        if n != 0 {
            let len: usize = d.len();
            let from: usize = src as usize;
            if from > len || n as usize > len - from {
                return Expansion::Outside;
            }
            let lut: OpsLut = OpsLut::new(o);
            lut.map_region(d, from, n as usize);
        }
    }
    let (dest, m): (u32, u32) = match (
        peek_u32(d, pos.wrapping_add(8) as usize),
        peek_u32(d, pos.wrapping_add(12) as usize),
    ) {
        (Some(a), Some(b)) => (a, b),
        _ => return Expansion::Outside,
    };
    if n != m {
        expand_checked(None, d, src, dest, key1_offset, n, m)
    } else {
        Expansion::Ended(Ok(()))
    }
}

/// Open the payload whose descriptor stands at `pos`.
pub fn decrypt_and_decompress_data_detailed(
    d: &mut [u8],
    pos: u32,
    key: u32,
    key1_offset: u32,
    key3_offset: u32,
    ops: Option<&[Op]>,
) -> (r: Result<(), DecompressionFailure>)
    requires
        opened(old(d)@, pos, key, key1_offset, key3_offset, ops_view(ops)) is Ended,
    ensures
        opened(old(d)@, pos, key, key1_offset, key3_offset, ops_view(ops)) == (Outcome::Ended {
            data: final(d)@,
            result: r,
        }),
        final(d)@.len() == old(d)@.len(),
{
    match open_checked(d, pos, key, key1_offset, key3_offset, ops) {
        Expansion::Ended(r) => r,
        Expansion::Outside => Ok(()),
    }
}

/// Whether [`decrypt_and_decompress_data_detailed`] succeeds.
pub fn decrypt_and_decompress_data(
    d: &mut [u8],
    pos: u32,
    key: u32,
    key1_offset: u32,
    key3_offset: u32,
    ops: Option<&[Op]>,
) -> (r: bool)
    requires
        opened(old(d)@, pos, key, key1_offset, key3_offset, ops_view(ops)) is Ended,
    ensures
        ({
            let o = opened(old(d)@, pos, key, key1_offset, key3_offset, ops_view(ops));
            r == (o->result is Ok) && final(d)@ == o->data
        }),
        final(d)@.len() == old(d)@.len(),
{
    decrypt_and_decompress_data_detailed(d, pos, key, key1_offset, key3_offset, ops).is_ok()
}

} // verus!
