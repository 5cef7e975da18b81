//! 64-bit images: the configuration block and the first two stages.

use vstd::prelude::*;

use crate::bytes::{le32, put32};
use crate::ciphers::{checksum, data3, data3_in_range};
use crate::error::{UnpackError, MAX_IMAGE_SIZE};
use crate::pe::discovery::data5;
use crate::pe::stage::{open_keys, with_keys, Keys};
use crate::pe::steps::{
    chain_sum, corrupt, data4, data4_in_range, dec3, dec4, dec5, has4, move_bytes, pasted, rd32,
    sized, sum, sum_chain, w32, wr32, Out,
};

verus! {

/// Where the configuration block lies and what the first stage gives.
#[derive(Debug, Clone, Copy, PartialEq, Eq, Structural)]
pub struct Config {
    /// The field that holds the payload's address.
    pub anchor: u32,
    /// The build's shift of the fields behind it.
    pub extra: u32,
    /// The import directory that the block names.
    pub import_rva: u32,
    pub import_size: u32,
    /// The checksum of the headers.
    pub acc: u32,
    pub stage1: u32,
    pub stage1_len: u32,
}

/// Whether the anchor stands at `p`: a word that holds `info3`, with a multiple
/// of 0x200, at most 0x1000, less than `info6` two words behind.
pub open spec fn is_anchor(s: Seq<u8>, info3: u32, info6: u32, p: int) -> bool {
    let v = le32(s, p + 8);
    le32(s, p) == info3 && v < info6 && info6 - v <= 0x1000 && (info6 - v) % 0x200 == 0
}

/// The first anchor from `p` on, in steps of four, that ends by `end`.
pub open spec fn anchor_from(s: Seq<u8>, info3: u32, info6: u32, p: int, end: int) -> Option<u32>
    decreases s.len() - p,
{
    if !(p + 12 <= end && p + 12 <= s.len()) {
        None
    } else if is_anchor(s, info3, info6, p) {
        Some(p as u32)
    } else {
        anchor_from(s, info3, info6, p + 4, end)
    }
}

/// Whether the first stage's address and length at `p` lie in the payload.
pub open spec fn describes_stage1(s: Seq<u8>, info3: u32, p: int) -> bool {
    &&& p + 8 <= s.len()
    &&& le32(s, p) >= info3
    &&& le32(s, p + 4) >= 16
    &&& le32(s, p) + le32(s, p + 4) <= s.len()
}

/// The anchor and the shift of the fields behind it.
pub open spec fn located(s: Seq<u8>, info3: u32, info6: u32) -> Out<(u32, u32)> {
    match anchor_from(
        s,
        info3,
        info6,
        info6.wrapping_add(1000) as int,
        info6.wrapping_add(8000) as int,
    ) {
        None => Err(UnpackError::AnchorNotFound),
        Some(a) => if describes_stage1(s, info3, a + 120) {
            Ok((a, 0))
        } else if describes_stage1(s, info3, a + 128) {
            Ok((a, 8))
        } else {
            Err(UnpackError::Stage1DescriptorNotFound { anchor: a })
        },
    }
}

/// The image with the directories of the configuration block in its header.
pub open spec fn with_directories(s: Seq<u8>, pe: u32, a: u32, x: u32) -> Out<Seq<u8>> {
    let p1 = a.wrapping_add(8);
    let p2 = a.wrapping_add(4);
    let p3 = a.wrapping_add((40 + x) as u32);
    let p4 = a.wrapping_add((44 + x) as u32);
    let d1 = pe.wrapping_add(144);
    let d2 = pe.wrapping_add(148);
    let d3 = pe.wrapping_add(152);
    let d4 = pe.wrapping_add(156);
    let d5 = pe.wrapping_add(176);
    let d6 = pe.wrapping_add(180);
    if !(has4(s, p1) && has4(s, p2) && has4(s, p3) && has4(s, p4) && has4(s, d1) && has4(s, d2)
        && has4(s, d3) && has4(s, d4) && has4(s, d5) && has4(s, d6)) {
        corrupt()
    } else {
        let a1 = put32(s, d1 as int, w32(s, p1));
        let a2 = put32(a1, d2 as int, w32(s, p2));
        let a3 = put32(a2, d3 as int, w32(s, p3));
        let a4 = put32(a3, d4 as int, w32(s, p4));
        Ok(put32(put32(a4, d5 as int, 0), d6 as int, 0))
    }
}

/// The image with the first stage deciphered, and the header checksum.
pub open spec fn with_stage1(s: Seq<u8>, a: u32, x: u32) -> Out<(Seq<u8>, u32)> {
    match chain_sum(s, a + 184 + x, 0) {
        Err(e) => Err(e),
        Ok(acc) => match checksum(s, a.wrapping_add((56 + x) as u32)) {
            None => corrupt(),
            Some(c) => {
                let v = a.wrapping_add(20);
                let t = a.wrapping_add((120 + x) as u32);
                if has4(s, v) && has4(s, t) && has4(s, t.wrapping_add(4)) && data3_in_range(s, t) {
                    Ok((data3(s, t, acc ^ c ^ w32(s, v), 21), acc))
                } else {
                    corrupt()
                }
            },
        },
    }
}

/// The image with the configuration block applied and the first stage
/// deciphered.
pub open spec fn configured(s: Seq<u8>, pe: u32, info3: u32, info6: u32) -> Out<(Seq<u8>, Config)> {
    match located(s, info3, info6) {
        Err(e) => Err(e),
        Ok((a, x)) => match with_directories(s, pe, a, x) {
            Err(e) => Err(e),
            Ok(t) => match with_stage1(t, a, x) {
                Err(e) => Err(e),
                Ok((u, acc)) => {
                    let p = a.wrapping_add((120 + x) as u32);
                    Ok(
                        (
                            u,
                            Config {
                                anchor: a,
                                extra: x,
                                import_rva: w32(s, a.wrapping_add(8)),
                                import_size: w32(s, a.wrapping_add(4)),
                                acc,
                                stage1: w32(u, p),
                                stage1_len: w32(u, p.wrapping_add(4)),
                            },
                        ),
                    )
                },
            },
        },
    }
}

fn find_anchor(s: &[u8], info3: u32, info6: u32) -> (r: Option<u32>)
    requires
        sized(s@),
    ensures
        r == anchor_from(
            s@,
            info3,
            info6,
            info6.wrapping_add(1000) as int,
            info6.wrapping_add(8000) as int,
        ),
        r matches Some(a) ==> a + 12 <= s@.len(),
{
    let len: u64 = s.len() as u64;
    let start: u64 = info6.wrapping_add(1000) as u64;
    let end: u64 = info6.wrapping_add(8000) as u64;
    let mut p: u64 = start;
    while p + 12 <= end && p + 12 <= len
        invariant
            sized(s@),
            len == s@.len(),
            p <= 0x1_0000_0000,
            start == info6.wrapping_add(1000),
            end == info6.wrapping_add(8000),
            anchor_from(s@, info3, info6, start as int, end as int) == anchor_from(
                s@,
                info3,
                info6,
                p as int,
                end as int,
            ),
        decreases len + 4 - p,
    {
        match (rd32(s, p as u32), rd32(s, p as u32 + 8)) {
            (Ok(w), Ok(v)) => {
                if w == info3 && v < info6 && info6 - v <= 0x1000 && (info6 - v) % 0x200 == 0 {
                    return Some(p as u32);
                }
            },
            _ => {},
        }
        p = p + 4;
    }
    None
}

fn stage1_described(s: &[u8], info3: u32, p: u32) -> (r: bool)
    requires
        sized(s@),
        p <= MAX_IMAGE_SIZE + 200,
    ensures
        r == describes_stage1(s@, info3, p as int),
{
    match (rd32(s, p), rd32(s, p + 4)) {
        (Ok(b), Ok(n)) => b >= info3 && n >= 16 && b as u64 + n as u64 <= s.len() as u64,
        _ => false,
    }
}

fn locate(s: &[u8], info3: u32, info6: u32) -> (r: Out<(u32, u32)>)
    requires
        sized(s@),
    ensures
        r == located(s@, info3, info6),
        r matches Ok((a, x)) ==> a + 12 <= s@.len() && x <= 8,
{
    match find_anchor(s, info3, info6) {
        None => Err(UnpackError::AnchorNotFound),
        Some(a) => {
            if stage1_described(s, info3, a + 120) {
                Ok((a, 0))
            } else if stage1_described(s, info3, a + 128) {
                Ok((a, 8))
            } else {
                Err(UnpackError::Stage1DescriptorNotFound { anchor: a })
            }
        },
    }
}

fn put_directories(s: &mut [u8], pe: u32, a: u32, x: u32) -> (r: Out<()>)
    requires
        x <= 8,
    ensures
        match with_directories(old(s)@, pe, a, x) {
            Ok(v) => r is Ok && final(s)@ == v,
            Err(e) => r == Err::<(), UnpackError>(e),
        },
        final(s)@.len() == old(s)@.len(),
{
    let p1: u32 = rd32(s, a.wrapping_add(8))?;
    let p2: u32 = rd32(s, a.wrapping_add(4))?;
    let p3: u32 = rd32(s, a.wrapping_add(40 + x))?;
    let p4: u32 = rd32(s, a.wrapping_add(44 + x))?;
    wr32(s, pe.wrapping_add(144), p1)?;
    wr32(s, pe.wrapping_add(148), p2)?;
    wr32(s, pe.wrapping_add(152), p3)?;
    wr32(s, pe.wrapping_add(156), p4)?;
    wr32(s, pe.wrapping_add(176), 0)?;
    wr32(s, pe.wrapping_add(180), 0)?;
    Ok(())
}

fn open_stage1(s: &mut [u8], a: u32, x: u32) -> (r: Out<u32>)
    requires
        sized(old(s)@),
        a <= MAX_IMAGE_SIZE,
        x <= 8,
    ensures
        match with_stage1(old(s)@, a, x) {
            Ok((v, acc)) => r == Ok::<u32, UnpackError>(acc) && final(s)@ == v,
            Err(e) => r == Err::<u32, UnpackError>(e),
        },
        final(s)@.len() == old(s)@.len(),
{
    let acc: u32 = sum_chain(s, a + 184 + x)?;
    let c: u32 = sum(s, a.wrapping_add(56 + x))?;
    let v: u32 = rd32(s, a.wrapping_add(20))?;
    let t: u32 = a.wrapping_add(120 + x);
    dec3(s, t, acc ^ c ^ v, 21)?;
    Ok(acc)
}

/// Apply the configuration block and decipher the first stage.
pub fn configure(s: &mut [u8], pe: u32, info3: u32, info6: u32) -> (r: Out<Config>)
    requires
        sized(old(s)@),
    ensures
        match configured(old(s)@, pe, info3, info6) {
            Ok((v, c)) => r == Ok::<Config, UnpackError>(c) && final(s)@ == v,
            Err(e) => r == Err::<Config, UnpackError>(e),
        },
        final(s)@.len() == old(s)@.len(),
        r matches Ok(c) ==> c.anchor <= MAX_IMAGE_SIZE && c.extra <= 8,
{
    let (a, x): (u32, u32) = locate(s, info3, info6)?;
    let ghost before = s@;
    let import_rva: Out<u32> = rd32(s, a.wrapping_add(8));
    let import_size: Out<u32> = rd32(s, a.wrapping_add(4));
    put_directories(s, pe, a, x)?;
    let acc: u32 = open_stage1(s, a, x)?;
    let p: u32 = a.wrapping_add(120 + x);
    let stage1: u32 = rd32(s, p)?;
    let stage1_len: u32 = rd32(s, p.wrapping_add(4))?;
    match (import_rva, import_size) {
        (Ok(import_rva), Ok(import_size)) => Ok(
            Config { anchor: a, extra: x, import_rva, import_size, acc, stage1, stage1_len },
        ),
        _ => Err(UnpackError::CorruptInput),
    }
}

/// Whether the second stage's record stands at `p`: equal addresses in the
/// payload, more than 0x10000 bytes of source and fewer bytes of output.
pub open spec fn is_stage2(s: Seq<u8>, p: u32, lo: u32, hi: u32) -> bool {
    let d0 = le32(s, p as int);
    let d1 = le32(s, p + 4);
    let d3 = le32(s, p + 12);
    &&& p + 16 <= s.len()
    &&& d0 == le32(s, p + 8)
    &&& lo <= d0 < hi
    &&& d1 > 0x10000
    &&& 0 < d3 < d1
}

/// The offset of the second stage's record from `off` on, in steps of four.
pub open spec fn stage2_from(s: Seq<u8>, stage1: u32, off: int, end: int, lo: u32, hi: u32) -> Option<
    u32,
>
    decreases end + 4 - off,
{
    if off >= end {
        None
    } else if is_stage2(s, stage1.wrapping_add(off as u32), lo, hi) {
        Some(off as u32)
    } else {
        stage2_from(s, stage1, off + 4, end, lo, hi)
    }
}

/// Whether the four address and length pairs at `p`, from the `i`th on, lie in
/// the payload and are shorter than 0x10000 bytes: the first that does not
/// decides.
pub open spec fn four_sources(s: Seq<u8>, p: u32, i: int, lo: u32, hi: u32) -> Out<bool>
    decreases 4 - i,
{
    if i >= 4 {
        Ok(true)
    } else {
        let q = p.wrapping_add((8 * i) as u32);
        if !(has4(s, q) && has4(s, q.wrapping_add(4))) {
            corrupt()
        } else if !(lo <= w32(s, q) < hi && 0 < w32(s, q.wrapping_add(4)) < 0x10000) {
            Ok(false)
        } else {
            four_sources(s, p, i + 1, lo, hi)
        }
    }
}

/// The offset of the four sources of checksums from `off` on, before `end`.
pub open spec fn sources_from(s: Seq<u8>, stage1: u32, off: int, end: int, lo: u32, hi: u32) -> Out<
    u32,
>
    decreases end - off,
{
    if off + 32 > end {
        Err(UnpackError::ChkSrcStartNotFound)
    } else {
        match four_sources(s, stage1.wrapping_add(off as u32), 0, lo, hi) {
            Err(e) => Err(e),
            Ok(true) => Ok(off as u32),
            Ok(false) => sources_from(s, stage1, off + 4, end, lo, hi),
        }
    }
}

/// Where the second stage and the checksum sources stand, and the second stage's
/// address.
#[derive(Debug, Clone, Copy, PartialEq, Eq, Structural)]
pub struct Stage2 {
    /// Offset of the record from the first stage.
    pub off: u32,
    /// Offset of the checksum sources from the first stage.
    pub sources: u32,
    pub stage2: u32,
}

/// The image with the second stage deciphered.
pub open spec fn with_stage2(s: Seq<u8>, c: Config, info3: u32, info5: u32) -> Out<(Seq<u8>, Stage2)> {
    let hi = info3.wrapping_add(info5);
    let end = if c.stage1_len >= 16 {
        c.stage1_len - 16
    } else {
        0
    };
    match stage2_from(s, c.stage1, 3000, end, info3, hi) {
        None => Err(UnpackError::Stage2NotFound),
        Some(off) => match sources_from(s, c.stage1, off - 200, off as int, info3, hi) {
            Err(e) => Err(e),
            Ok(src) => {
                let k = c.stage1.wrapping_add(src.wrapping_sub(20));
                let p = c.stage1.wrapping_add(off);
                if has4(s, k) && data3_in_range(s, p) {
                    let t = data3(s, p, w32(s, k), 19);
                    Ok((t, Stage2 { off, sources: src, stage2: w32(t, p) }))
                } else {
                    corrupt()
                }
            },
        },
    }
}

fn find_stage2(s: &[u8], stage1: u32, end: u32, lo: u32, hi: u32) -> (r: Option<u32>)
    requires
        sized(s@),
    ensures
        r == stage2_from(s@, stage1, 3000, end as int, lo, hi),
        r matches Some(o) ==> 3000 <= o < end,
{
    let mut off: u64 = 3000;
    while off < end as u64
        invariant
            sized(s@),
            3000 <= off,
            stage2_from(s@, stage1, 3000, end as int, lo, hi) == stage2_from(
                s@,
                stage1,
                off as int,
                end as int,
                lo,
                hi,
            ),
        decreases end + 4 - off,
    {
        let p: u32 = stage1.wrapping_add(off as u32);
        if p as u64 + 16 <= s.len() as u64 {
            match (rd32(s, p), rd32(s, p + 4), rd32(s, p + 8), rd32(s, p + 12)) {
                (Ok(d0), Ok(d1), Ok(d2), Ok(d3)) => {
                    if d0 == d2 && d0 >= lo && d0 < hi && d1 > 0x10000 && d3 > 0 && d3 < d1 {
                        return Some(off as u32);
                    }
                },
                _ => {},
            }
        }
        off = off + 4;
    }
    None
}

fn check_sources(s: &[u8], p: u32, lo: u32, hi: u32) -> (r: Out<bool>)
    ensures
        r == four_sources(s@, p, 0, lo, hi),
{
    let mut i: u32 = 0;
    while i < 4
        invariant
            i <= 4,
            four_sources(s@, p, 0, lo, hi) == four_sources(s@, p, i as int, lo, hi),
        decreases 4 - i,
    {
        let q: u32 = p.wrapping_add(8 * i);
        let a: u32 = rd32(s, q)?;
        let n: u32 = rd32(s, q.wrapping_add(4))?;
        if a < lo || a >= hi || n == 0 || n >= 0x10000 {
            return Ok(false);
        }
        i = i + 1;
    }
    Ok(true)
}

fn find_sources(s: &[u8], stage1: u32, off: u32, lo: u32, hi: u32) -> (r: Out<u32>)
    requires
        off >= 3000,
    ensures
        r == sources_from(s@, stage1, off - 200, off as int, lo, hi),
        r matches Ok(o) ==> off - 200 <= o < off,
{
    let mut p: u32 = off - 200;
    while p <= off - 32
        invariant
            off >= 3000,
            off - 200 <= p <= off,
            sources_from(s@, stage1, off - 200, off as int, lo, hi) == sources_from(
                s@,
                stage1,
                p as int,
                off as int,
                lo,
                hi,
            ),
        decreases off - p,
    {
        if check_sources(s, stage1.wrapping_add(p), lo, hi)? {
            return Ok(p);
        }
        p = p + 4;
    }
    Err(UnpackError::ChkSrcStartNotFound)
}

/// Decipher the second stage.
pub fn open_stage2(s: &mut [u8], c: Config, info3: u32, info5: u32) -> (r: Out<Stage2>)
    requires
        sized(old(s)@),
    ensures
        match with_stage2(old(s)@, c, info3, info5) {
            Ok((v, x)) => r == Ok::<Stage2, UnpackError>(x) && final(s)@ == v,
            Err(e) => r == Err::<Stage2, UnpackError>(e),
        },
        final(s)@.len() == old(s)@.len(),
        r matches Ok(x) ==> x.off >= 3000 && x.sources >= 2800,
{
    let hi: u32 = info3.wrapping_add(info5);
    let off: u32 = match find_stage2(s, c.stage1, c.stage1_len.saturating_sub(16), info3, hi) {
        Some(o) => o,
        None => return Err(UnpackError::Stage2NotFound),
    };
    let src: u32 = find_sources(s, c.stage1, off, info3, hi)?;
    let key: u32 = rd32(s, c.stage1.wrapping_add(src.wrapping_sub(20)))?;
    let p: u32 = c.stage1.wrapping_add(off);
    dec3(s, p, key, 19)?;
    let stage2: u32 = rd32(s, p)?;
    Ok(Stage2 { off, sources: src, stage2 })
}

/// Whether the operation table starts at `p`.
pub open spec fn is_table(s: Seq<u8>, p: u32, info3: u32) -> bool {
    &&& p + 16 <= s.len()
    &&& le32(s, p as int) == 1
    &&& le32(s, p + 4) == 0
    &&& le32(s, p + 8) == info3
    &&& le32(s, p + 12) == 0
}

/// The offset of the operation table from `off` on.
pub open spec fn op_table_from(s: Seq<u8>, stage2: u32, off: int, info3: u32) -> Option<u32>
    decreases 12000 - off,
{
    if off + 16 >= 12000 {
        None
    } else if is_table(s, stage2.wrapping_add(off as u32), info3) {
        Some(off as u32)
    } else {
        op_table_from(s, stage2, off + 4, info3)
    }
}

/// The image after the copies that the enciphered records from `p` on ask for,
/// up to one of length zero.
pub open spec fn copied(s: Seq<u8>, p: int) -> Out<Seq<u8>>
    decreases 0x1_0000_0000 - p,
{
    if !(0 <= p && p + 16 <= s.len() && p + 16 <= 0x1_0000_0000) {
        corrupt()
    } else {
        let t = data5(s, p, 16);
        let from = le32(t, p);
        let n = le32(t, p + 4);
        let to = le32(t, p + 8);
        let u = if from != 0 && n != 0 && to != 0 && le32(t, p + 12) == n {
            pasted(t, to as int, t, from as int, n as int)
        } else {
            Ok(t)
        };
        match u {
            Err(e) => Err(e),
            Ok(v) => if le32(v, p + 4) == 0 {
                Ok(v)
            } else {
                copied(v, p + 16)
            },
        }
    }
}

/// The image after the operation at `h`: kind 1 deciphers bytes, kind 2 copies.
pub open spec fn operated(s: Seq<u8>, h: u32) -> Out<Seq<u8>> {
    if !has4(s, h) {
        corrupt()
    } else if w32(s, h) & 0x0Fu32 == 1 {
        if data4_in_range(s, h.wrapping_add(4)) {
            Ok(data4(s, h.wrapping_add(4)))
        } else {
            corrupt()
        }
    } else if w32(s, h) == 2 {
        if has4(s, h.wrapping_add(4)) {
            copied(s, w32(s, h.wrapping_add(4)) as int)
        } else {
            corrupt()
        }
    } else {
        Ok(s)
    }
}

/// The image with the operations of the second stage done and the key tables
/// deciphered.
pub open spec fn with_tables(s: Seq<u8>, stage2: u32, info3: u32) -> Out<(Seq<u8>, Keys)> {
    match op_table_from(s, stage2, 8000, info3) {
        None => Err(UnpackError::TableStartNotFound),
        Some(start) => {
            let h = stage2.wrapping_add(start.wrapping_add(32));
            match operated(s, h) {
                Err(e) => Err(e),
                Ok(a) => match operated(a, h.wrapping_add(16)) {
                    Err(e) => Err(e),
                    Ok(b) => with_keys(
                        b,
                        stage2.wrapping_add(start.wrapping_add(32).wrapping_sub(88)),
                    ),
                },
            }
        },
    }
}

fn find_table(s: &[u8], stage2: u32, info3: u32) -> (r: Option<u32>)
    requires
        sized(s@),
    ensures
        r == op_table_from(s@, stage2, 8000, info3),
{
    let mut off: u32 = 8000;
    while off + 16 < 12000
        invariant
            sized(s@),
            8000 <= off <= 12000,
            op_table_from(s@, stage2, 8000, info3) == op_table_from(s@, stage2, off as int, info3),
        decreases 12000 - off,
    {
        let p: u32 = stage2.wrapping_add(off);
        if p as u64 + 16 <= s.len() as u64 {
            match (rd32(s, p), rd32(s, p + 4), rd32(s, p + 8), rd32(s, p + 12)) {
                (Ok(d0), Ok(d1), Ok(d2), Ok(d3)) => {
                    if d0 == 1 && d1 == 0 && d2 == info3 && d3 == 0 {
                        return Some(off);
                    }
                },
                _ => {},
            }
        }
        off = off + 4;
    }
    None
}

/// Do the copies that the records from `start` on ask for.
pub fn copy_records(s: &mut [u8], start: u32) -> (r: Out<()>)
    requires
        sized(old(s)@),
    ensures
        match copied(old(s)@, start as int) {
            Ok(v) => r is Ok && final(s)@ == v,
            Err(e) => r == Err::<(), UnpackError>(e),
        },
        final(s)@.len() == old(s)@.len(),
{
    let len: usize = s.len();
    let mut p: u32 = start;
    loop
        invariant
            len == s@.len() == old(s)@.len(),
            sized(old(s)@),
            p <= MAX_IMAGE_SIZE || p == start,
            copied(old(s)@, start as int) == copied(s@, p as int),
        decreases len - p,
    {
        dec5(s, p, 16)?;
        assert(p + 16 <= s@.len());
        let from: u32 = rd32(s, p)?;
        let n: u32 = rd32(s, p + 4)?;
        let to: u32 = rd32(s, p + 8)?;
        let m: u32 = rd32(s, p + 12)?;
        if from != 0 && n != 0 && to != 0 && m == n {
            move_bytes(s, from as usize, n as usize, to as usize)?;
        }
        let again: u32 = rd32(s, p + 4)?;
        if again == 0 {
            return Ok(());
        }
        p = p + 16;
    }
}

/// Do the operation at `h`.
pub fn operate(s: &mut [u8], h: u32) -> (r: Out<()>)
    requires
        sized(old(s)@),
    ensures
        match operated(old(s)@, h) {
            Ok(v) => r is Ok && final(s)@ == v,
            Err(e) => r == Err::<(), UnpackError>(e),
        },
        final(s)@.len() == old(s)@.len(),
{
    let kind: u32 = rd32(s, h)?;
    if kind & 0x0Fu32 == 1 {
        dec4(s, h.wrapping_add(4))?;
    } else if kind == 2 {
        let p: u32 = rd32(s, h.wrapping_add(4))?;
        copy_records(s, p)?;
    }
    Ok(())
}

/// Do the operations of the second stage and decipher the key tables.
pub fn open_tables(s: &mut [u8], stage2: u32, info3: u32) -> (r: Out<Keys>)
    requires
        sized(old(s)@),
    ensures
        match with_tables(old(s)@, stage2, info3) {
            Ok((v, k)) => r == Ok::<Keys, UnpackError>(k) && final(s)@ == v,
            Err(e) => r == Err::<Keys, UnpackError>(e),
        },
        final(s)@.len() == old(s)@.len(),
{
    let start: u32 = match find_table(s, stage2, info3) {
        Some(o) => o,
        None => return Err(UnpackError::TableStartNotFound),
    };
    let h: u32 = stage2.wrapping_add(start.wrapping_add(32));
    operate(s, h)?;
    operate(s, h.wrapping_add(16))?;
    open_keys(s, stage2.wrapping_add(start.wrapping_add(32).wrapping_sub(88)))
}

} // verus!
