//! Stage payloads, key tables and descriptors, as both pipelines use them.

use vstd::prelude::*;

use crate::bytecode::Op;
use crate::error::{DecompressionStage, UnpackError};
use crate::huffman::{Expansion, Outcome};
use crate::payload::{open_checked, opened, ops_view};
use crate::pe::discovery::{bytecode_offset, find_bytecode_offset};
use crate::pe::steps::{corrupt, data4, data4_in_range, dec4, has4, rd32, w32, Out};

verus! {

/// The image with the four key tables named from `p` on deciphered, and their
/// addresses.
pub open spec fn with_key(s: Seq<u8>, p: u32) -> Out<(Seq<u8>, u32)> {
    if data4_in_range(s, p) {
        let t = data4(s, p);
        Ok((t, w32(t, p)))
    } else {
        corrupt()
    }
}

/// The addresses of the four key tables.
pub struct Keys {
    pub k0: u32,
    pub k1: u32,
    pub k2: u32,
    pub k3: u32,
}

/// The image with the four key tables deciphered: two pairs, 32 bytes apart.
pub open spec fn with_keys(s: Seq<u8>, p: u32) -> Out<(Seq<u8>, Keys)> {
    match with_key(s, p) {
        Err(e) => Err(e),
        Ok((s0, k0)) => match with_key(s0, p.wrapping_add(8)) {
            Err(e) => Err(e),
            Ok((s1, k1)) => match with_key(s1, p.wrapping_add(32)) {
                Err(e) => Err(e),
                Ok((s2, k2)) => match with_key(s2, p.wrapping_add(32).wrapping_add(8)) {
                    Err(e) => Err(e),
                    Ok((s3, k3)) => Ok((s3, Keys { k0, k1, k2, k3 })),
                },
            },
        },
    }
}

fn open_key(s: &mut [u8], p: u32) -> (r: Out<u32>)
    ensures
        match with_key(old(s)@, p) {
            Ok((v, k)) => r == Ok::<u32, UnpackError>(k) && final(s)@ == v,
            Err(e) => r == Err::<u32, UnpackError>(e),
        },
        final(s)@.len() == old(s)@.len(),
{
    dec4(s, p)?;
    rd32(s, p)
}

/// Decipher the four key tables named from `p` on.
pub fn open_keys(s: &mut [u8], p: u32) -> (r: Out<Keys>)
    ensures
        match with_keys(old(s)@, p) {
            Ok((v, k)) => r == Ok::<Keys, UnpackError>(k) && final(s)@ == v,
            Err(e) => r == Err::<Keys, UnpackError>(e),
        },
        final(s)@.len() == old(s)@.len(),
{
    let k0: u32 = open_key(s, p)?;
    let k1: u32 = open_key(s, p.wrapping_add(8))?;
    let k2: u32 = open_key(s, p.wrapping_add(32))?;
    let k3: u32 = open_key(s, p.wrapping_add(32).wrapping_add(8))?;
    Ok(Keys { k0, k1, k2, k3 })
}

/// The image with the payload at `pos` opened, or the failure of that stage.
pub open spec fn staged(
    s: Seq<u8>,
    pos: u32,
    key: u32,
    keys: Keys,
    ops: Option<Seq<Op>>,
    stage: DecompressionStage,
) -> Out<Seq<u8>> {
    match opened(s, pos, key, keys.k1, keys.k3, ops) {
        Outcome::Outside => corrupt(),
        Outcome::Ended { data, result } => match result {
            Ok(_) => Ok(data),
            Err(reason) => Err(UnpackError::StageDecompressionFailed { stage, reason }),
        },
    }
}

/// Open the payload at `pos`.
pub fn open_stage(
    s: &mut [u8],
    pos: u32,
    key: u32,
    keys: &Keys,
    ops: Option<&[Op]>,
    stage: DecompressionStage,
) -> (r: Out<()>)
    ensures
        match staged(old(s)@, pos, key, *keys, ops_view(ops), stage) {
            Ok(v) => r is Ok && final(s)@ == v,
            Err(e) => r == Err::<(), UnpackError>(e),
        },
        final(s)@.len() == old(s)@.len(),
{
    match open_checked(s, pos, key, keys.k1, keys.k3, ops) {
        Expansion::Outside => Err(UnpackError::CorruptInput),
        Expansion::Ended(Ok(_)) => Ok(()),
        Expansion::Ended(Err(reason)) => Err(
            UnpackError::StageDecompressionFailed { stage, reason },
        ),
    }
}

/// A payload descriptor.
#[derive(Debug, Clone, Copy, PartialEq, Eq, Structural)]
pub struct Record {
    pub src: u32,
    pub slen: u32,
    pub dest: u32,
    pub dlen: u32,
}

/// The descriptor at `p`.
pub open spec fn record_at(s: Seq<u8>, p: u32) -> Out<Record> {
    if has4(s, p) && has4(s, p.wrapping_add(4)) && has4(s, p.wrapping_add(8)) && has4(
        s,
        p.wrapping_add(12),
    ) {
        Ok(
            Record {
                src: w32(s, p),
                slen: w32(s, p.wrapping_add(4)),
                dest: w32(s, p.wrapping_add(8)),
                dlen: w32(s, p.wrapping_add(12)),
            },
        )
    } else {
        corrupt()
    }
}

/// Read the descriptor at `p`.
pub fn read_record(s: &[u8], p: u32) -> (r: Out<Record>)
    ensures
        r == record_at(s@, p),
{
    let src: u32 = rd32(s, p)?;
    let slen: u32 = rd32(s, p.wrapping_add(4))?;
    let dest: u32 = rd32(s, p.wrapping_add(8))?;
    let dlen: u32 = rd32(s, p.wrapping_add(12))?;
    Ok(Record { src, slen, dest, dlen })
}

/// `a` if there is one, else `b`.
pub open spec fn or_else(a: Option<u32>, b: u32) -> u32 {
    match a {
        Some(x) => x,
        None => b,
    }
}

/// `a` if there is one, else `b`.
pub fn either(a: Option<u32>, b: u32) -> (r: u32)
    ensures
        r == or_else(a, b),
{
    match a {
        Some(x) => x,
        None => b,
    }
}

/// The bytecode block of a region, searched for in the region and then in one of
/// twice its length.
pub open spec fn bytecode_near(s: Seq<u8>, base: u32, len: u32) -> Option<u32> {
    match bytecode_offset(s, base, len) {
        Some(o) => Some(o),
        None => bytecode_offset(s, base, if 2 * len > u32::MAX { u32::MAX } else { (2 * len) as u32 }),
    }
}

/// The bytecode block of a region or of one of twice its length.
pub fn find_bytecode_near(s: &[u8], base: u32, len: u32) -> (r: Option<u32>)
    ensures
        r == bytecode_near(s@, base, len),
{
    match find_bytecode_offset(s, base, len) {
        Some(o) => Some(o),
        None => {
            let twice: u32 = if len > 0x7FFF_FFFF {
                0xFFFF_FFFF
            } else {
                2 * len
            };
            find_bytecode_offset(s, base, twice)
        },
    }
}

} // verus!
