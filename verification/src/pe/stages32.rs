//! 32-bit images: the shell table and the stages up to the seventh.

use vstd::prelude::*;

use crate::bytes::{copy_bytes, overlay, put32, sub_vec};
use crate::ciphers::{checksum, data3, data3_in_range};
use crate::error::{DecompressionStage, UnpackError};
use crate::pe::discovery::{data5, find_tbl_pe32, tbl_pe32};
use crate::pe::headers::{clear_directory, directory_cleared};
use crate::pe::stage::{open_keys, open_stage, staged, with_keys, Keys};
use crate::pe::steps::{
    advance_key, advanced_key, chain_sum, corrupt, cut, data4, data4_in_range, dec3, dec4, dec5,
    has4, move_bytes, pasted, rd32, sized, sum, sum_chain, w32, wr32, Out,
};

verus! {

/// The image with the directories that the table at `tbl` holds in the header at
/// `pe`.
pub open spec fn with_table(s: Seq<u8>, pe: u32, tbl: u32) -> Out<Seq<u8>> {
    let a = tbl.wrapping_add(0xBC);
    let b = tbl.wrapping_add(0xC8);
    let c = tbl.wrapping_add(0xCC);
    let p = pe.wrapping_add(0x80);
    let q = pe.wrapping_add(0x88);
    let r = pe.wrapping_add(0x8C);
    if !has4(s, a) || !has4(s, b) || !has4(s, c) || !has4(s, p) || !has4(s, q) || !has4(s, r)
        || !has4(s, pe.wrapping_add(0xB0)) || !has4(s, pe.wrapping_add(0xB4)) {
        corrupt()
    } else {
        let t = put32(put32(put32(s, p as int, w32(s, a)), q as int, w32(s, b)), r as int, w32(s, c));
        Ok(put32(put32(t, pe.wrapping_add(0xB0) as int, 0), pe.wrapping_add(0xB4) as int, 0))
    }
}

fn apply_table(s: &mut [u8], pe: u32, tbl: u32) -> (r: Out<()>)
    ensures
        match with_table(old(s)@, pe, tbl) {
            Ok(v) => r is Ok && final(s)@ == v,
            Err(e) => r == Err::<(), UnpackError>(e),
        },
        final(s)@.len() == old(s)@.len(),
{
    let a: u32 = rd32(s, tbl.wrapping_add(0xBC))?;
    let b: u32 = rd32(s, tbl.wrapping_add(0xC8))?;
    let c: u32 = rd32(s, tbl.wrapping_add(0xCC))?;
    wr32(s, pe.wrapping_add(0x80), a)?;
    wr32(s, pe.wrapping_add(0x88), b)?;
    wr32(s, pe.wrapping_add(0x8C), c)?;
    wr32(s, pe.wrapping_add(0xB0), 0)?;
    wr32(s, pe.wrapping_add(0xB4), 0)
}

/// The second stage's descriptor and what its key needs.
#[derive(Debug, Clone, Copy, PartialEq, Eq, Structural)]
pub struct Second {
    pub tbl: u32,
    /// Where the descriptor stands.
    pub at: u32,
    pub start: u32,
    pub size: u32,
    /// The key but for the checksum of the headers.
    pub key: u32,
}

impl Second {
    /// Where the offset `o` of the common build stands in this one.
    pub open spec fn place(self, o: u32) -> u32 {
        self.start.wrapping_add(o.wrapping_add(self.size.wrapping_sub(0xBC0)))
    }

    fn at_offset(&self, o: u32) -> (r: u32)
        ensures
            r == self.place(o),
    {
        self.start.wrapping_add(o.wrapping_add(self.size.wrapping_sub(0xBC0)))
    }
}

/// The second stage of the table at `tbl`.
pub open spec fn second_of(s: Seq<u8>, tbl: u32) -> Out<Second> {
    let at = tbl.wrapping_add(0x98);
    match checksum(s, tbl.wrapping_add(0xA8)) {
        None => corrupt(),
        Some(c) => if !has4(s, tbl.wrapping_add(0x40)) || !has4(s, at) || !has4(
            s,
            at.wrapping_add(4),
        ) {
            corrupt()
        } else {
            let x = Second {
                tbl,
                at,
                start: w32(s, at),
                size: w32(s, at.wrapping_add(4)),
                key: c ^ w32(s, tbl.wrapping_add(0x40)),
            };
            if x.start + x.size > s.len() {
                Err(
                    UnpackError::Pe32SecondStageRangeInvalid {
                        offset: x.start,
                        size: x.size,
                        image_len: s.len() as usize,
                    },
                )
            } else {
                Ok(x)
            }
        },
    }
}

fn read_second(s: &[u8], tbl: u32) -> (r: Out<Second>)
    ensures
        r == second_of(s@, tbl),
{
    let c: u32 = sum(s, tbl.wrapping_add(0xA8))?;
    let k: u32 = rd32(s, tbl.wrapping_add(0x40))?;
    let at: u32 = tbl.wrapping_add(0x98);
    let start: u32 = rd32(s, at)?;
    let size: u32 = rd32(s, at.wrapping_add(4))?;
    let len: usize = s.len();
    if start as u64 + size as u64 > len as u64 {
        return Err(
            UnpackError::Pe32SecondStageRangeInvalid { offset: start, size, image_len: len },
        );
    }
    Ok(Second { tbl, at, start, size, key: c ^ k })
}

/// The image with the second stage, whose bytes are `kept`, deciphered, the
/// relocation directory cleared first if `bare`; the checksum of the headers; and
/// whether the third stage's descriptor then lies inside the image.
pub open spec fn second_tried(s: Seq<u8>, x: Second, pe: u32, kept: Seq<u8>, bare: bool) -> Out<
    (Seq<u8>, u32, bool),
> {
    let cleared = if bare {
        directory_cleared(s, pe.wrapping_add(0xA0))
    } else {
        Ok(s)
    };
    match cleared {
        Err(e) => Err(e),
        Ok(a) => match chain_sum(a, x.tbl.wrapping_add(0x58) as int, 0) {
            Err(e) => Err(e),
            Ok(h) => {
                let b = overlay(a, x.start as int, kept);
                if !data3_in_range(b, x.at) {
                    corrupt()
                } else {
                    let c = data3(b, x.at, h ^ x.key, 21);
                    let p = x.place(0xB8C);
                    if !has4(c, p) || !has4(c, p.wrapping_add(4)) {
                        corrupt()
                    } else {
                        let o = w32(c, p);
                        let n = w32(c, p.wrapping_add(4));
                        Ok((c, h, 0x1000 < o < c.len() && n >= 4 && o + n <= c.len()))
                    }
                }
            },
        },
    }
}

/// The image with the second stage deciphered, and the checksum of the headers.
pub open spec fn with_second(s: Seq<u8>, x: Second, pe: u32) -> Out<(Seq<u8>, u32)> {
    let kept = s.subrange(x.start as int, x.start + x.size);
    match second_tried(s, x, pe, kept, false) {
        Err(e) => Err(e),
        Ok((a, h, good)) => if good {
            Ok((a, h))
        } else {
            match second_tried(a, x, pe, kept, true) {
                Err(e) => Err(e),
                Ok((b, k, fine)) => if fine {
                    Ok((b, k))
                } else {
                    Err(UnpackError::Pe32RelocationDataNotFound)
                },
            }
        },
    }
}

fn try_second(s: &mut [u8], x: &Second, pe: u32, kept: &Vec<u8>, bare: bool) -> (r: Out<(u32, bool)>)
    requires
        sized(old(s)@),
        x.start + x.size <= old(s)@.len(),
        kept@.len() == x.size,
    ensures
        match second_tried(old(s)@, *x, pe, kept@, bare) {
            Ok((v, h, b)) => r == Ok::<(u32, bool), UnpackError>((h, b)) && final(s)@ == v,
            Err(e) => r == Err::<(u32, bool), UnpackError>(e),
        },
        final(s)@.len() == old(s)@.len(),
{
    if bare {
        clear_directory(s, pe.wrapping_add(0xA0))?;
    }
    let h: u32 = sum_chain(s, x.tbl.wrapping_add(0x58))?;
    copy_bytes(s, x.start as usize, kept, 0, x.size as usize);
    assert(kept@.subrange(0, x.size as int) =~= kept@);
    dec3(s, x.at, h ^ x.key, 21)?;
    let p: u32 = x.at_offset(0xB8C);
    let o: u32 = rd32(s, p)?;
    let n: u32 = rd32(s, p.wrapping_add(4))?;
    let len: usize = s.len();
    Ok((h, 0x1000 < o && (o as usize) < len && n >= 4 && o as u64 + n as u64 <= len as u64))
}

fn open_second(s: &mut [u8], x: &Second, pe: u32) -> (r: Out<u32>)
    requires
        sized(old(s)@),
        x.start + x.size <= old(s)@.len(),
    ensures
        match with_second(old(s)@, *x, pe) {
            Ok((v, h)) => r == Ok::<u32, UnpackError>(h) && final(s)@ == v,
            Err(e) => r == Err::<u32, UnpackError>(e),
        },
        final(s)@.len() == old(s)@.len(),
{
    let kept: Vec<u8> = sub_vec(s, x.start as usize, x.start as usize + x.size as usize);
    let (h, good): (u32, bool) = try_second(s, x, pe, &kept, false)?;
    if good {
        return Ok(h);
    }
    let (k, fine): (u32, bool) = try_second(s, x, pe, &kept, true)?;
    if fine {
        Ok(k)
    } else {
        Err(UnpackError::Pe32RelocationDataNotFound)
    }
}

/// Whether the operation table stands at `p`: an operation of kind 1, by its low
/// digit, on an address of the image, and one of kind 2 behind it.
pub open spec fn is_operations(s: Seq<u8>, p: u32) -> bool {
    let kind = w32(s, p);
    let to = w32(s, p.wrapping_add(4));
    (kind == 1 || kind == 0x11) && w32(s, p.wrapping_add(16)) == 2 && 0x1000 < to < s.len()
}

/// The first operation table of the `n` bytes at `ts`, from `off` on.
pub open spec fn operations_from(s: Seq<u8>, ts: u32, n: u32, off: int) -> Option<u32>
    decreases n - off,
{
    if off + 32 >= n {
        None
    } else if is_operations(s, ts.wrapping_add(off as u32)) {
        Some(ts.wrapping_add(off as u32))
    } else {
        operations_from(s, ts, n, off + 4)
    }
}

fn find_operations(s: &[u8], ts: u32, n: u32) -> (r: Option<u32>)
    requires
        sized(s@),
        ts + n <= s@.len(),
    ensures
        r == operations_from(s@, ts, n, 0),
{
    let len: usize = s.len();
    let mut off: u32 = 0;
    while off as u64 + 32 < n as u64
        invariant
            sized(s@),
            len == s@.len(),
            ts + n <= len,
            off <= n + 4,
            operations_from(s@, ts, n, 0) == operations_from(s@, ts, n, off as int),
        decreases n + 4 - off,
    {
        let p: u32 = ts + off;
        match (rd32(s, p), rd32(s, p + 16), rd32(s, p + 4)) {
            (Ok(kind), Ok(next), Ok(to)) => {
                if (kind == 1 || kind == 0x11) && next == 2 && 0x1000 < to && (to as usize) < len {
                    return Some(p);
                }
            },
            _ => {},
        }
        off = off + 4;
    }
    None
}

/// The rotations that the third stage may be enciphered with.
pub open spec fn rotations() -> Seq<u32> {
    seq![19u32, 21u32, 17u32, 23u32, 15u32, 25u32, 13u32, 11u32]
}

/// What is fixed while the third stage is tried.
pub struct Third {
    /// Where the descriptor stands.
    pub at: u32,
    pub start: u32,
    pub size: u32,
    pub key: u32,
}

/// The image with the third stage, whose bytes are `kept`, deciphered with one of
/// the rotations from number `i` on, the first that shows an operation table; and
/// that table.
pub open spec fn third_tried(s: Seq<u8>, x: Third, kept: Seq<u8>, i: int) -> Out<(Seq<u8>, u32)>
    decreases 8 - i,
{
    if i >= 8 {
        Err(UnpackError::Pe32ThirdStageFailed)
    } else {
        let p = x.at.wrapping_add(4);
        let a = overlay(s, x.start as int, kept);
        if !has4(a, x.at) || !has4(a, p) {
            corrupt()
        } else {
            let b = put32(put32(a, x.at as int, x.start), p as int, x.size);
            if !data3_in_range(b, x.at) {
                corrupt()
            } else {
                let c = data3(b, x.at, x.key, rotations()[i]);
                match operations_from(c, x.start, x.size, 0) {
                    Some(o) => Ok((c, o)),
                    None => third_tried(c, x, kept, i + 1),
                }
            }
        }
    }
}

fn try_third(s: &mut [u8], x: &Third, kept: &Vec<u8>) -> (r: Out<u32>)
    requires
        sized(old(s)@),
        x.start + x.size <= old(s)@.len(),
        kept@.len() == x.size,
    ensures
        match third_tried(old(s)@, *x, kept@, 0) {
            Ok((v, o)) => r == Ok::<u32, UnpackError>(o) && final(s)@ == v,
            Err(e) => r == Err::<u32, UnpackError>(e),
        },
        final(s)@.len() == old(s)@.len(),
{
    let list: Vec<u32> = vec![19u32, 21u32, 17u32, 23u32, 15u32, 25u32, 13u32, 11u32];
    assert(list@ =~= rotations());
    let mut i: usize = 0;
    while i < 8
        invariant
            i <= 8,
            list@ == rotations(),
            sized(s@),
            s@.len() == old(s)@.len(),
            x.start + x.size <= s@.len(),
            kept@.len() == x.size,
            third_tried(old(s)@, *x, kept@, 0) == third_tried(s@, *x, kept@, i as int),
        decreases 8 - i,
    {
        copy_bytes(s, x.start as usize, kept, 0, x.size as usize);
        assert(kept@.subrange(0, x.size as int) =~= kept@);
        wr32(s, x.at, x.start)?;
        wr32(s, x.at.wrapping_add(4), x.size)?;
        dec3(s, x.at, x.key, list[i])?;
        match find_operations(s, x.start, x.size) {
            Some(o) => {
                return Ok(o);
            },
            None => {},
        }
        i = i + 1;
    }
    Err(UnpackError::Pe32ThirdStageFailed)
}

/// The image with the third stage deciphered, and its operation table.
pub open spec fn with_third(s: Seq<u8>, x: Second) -> Out<(Seq<u8>, u32)> {
    let k = x.place(0x968);
    let at = x.place(0xB8C);
    if !has4(s, k) || !has4(s, at) || !has4(s, at.wrapping_add(4)) {
        corrupt()
    } else {
        let start = w32(s, at);
        let size = w32(s, at.wrapping_add(4));
        if start + size > s.len() || start + size > u32::MAX {
            corrupt()
        } else {
            third_tried(
                s,
                Third { at, start, size, key: w32(s, k) },
                s.subrange(start as int, start + size),
                0,
            )
        }
    }
}

fn open_third(s: &mut [u8], x: &Second) -> (r: Out<u32>)
    requires
        sized(old(s)@),
    ensures
        match with_third(old(s)@, *x) {
            Ok((v, o)) => r == Ok::<u32, UnpackError>(o) && final(s)@ == v,
            Err(e) => r == Err::<u32, UnpackError>(e),
        },
        final(s)@.len() == old(s)@.len(),
{
    let key: u32 = rd32(s, x.at_offset(0x968))?;
    let at: u32 = x.at_offset(0xB8C);
    let start: u32 = rd32(s, at)?;
    let size: u32 = rd32(s, at.wrapping_add(4))?;
    let kept: Vec<u8> = cut(s, start as usize, size as usize)?;
    try_third(s, &Third { at, start, size, key }, &kept)
}

/// The image after the copies that the chain of descriptors from `p` on names, up
/// to one of length zero.
pub open spec fn copies_made(s: Seq<u8>, p: u32) -> Out<Seq<u8>>
    decreases u32::MAX - p,
{
    if p + 16 > s.len() || p + 16 > u32::MAX {
        corrupt()
    } else {
        let t = data5(s, p as int, 16);
        let from = w32(t, p);
        let n = w32(t, (p + 4) as u32);
        let to = w32(t, (p + 8) as u32);
        if n == 0 {
            Ok(t)
        } else if from != 0 && to != 0 && w32(t, (p + 12) as u32) == n {
            match pasted(t, to as int, t, from as int, n as int) {
                Err(e) => Err(e),
                Ok(u) => copies_made(u, (p + 16) as u32),
            }
        } else {
            copies_made(t, (p + 16) as u32)
        }
    }
}

fn make_copies(s: &mut [u8], start: u32) -> (r: Out<()>)
    requires
        sized(old(s)@),
    ensures
        match copies_made(old(s)@, start) {
            Ok(v) => r is Ok && final(s)@ == v,
            Err(e) => r == Err::<(), UnpackError>(e),
        },
        final(s)@.len() == old(s)@.len(),
{
    let mut p: u32 = start;
    loop
        invariant
            sized(s@),
            s@.len() == old(s)@.len(),
            copies_made(old(s)@, start) == copies_made(s@, p),
        decreases u32::MAX - p,
    {
        dec5(s, p, 16)?;
        let from: u32 = rd32(s, p)?;
        let n: u32 = rd32(s, p + 4)?;
        let to: u32 = rd32(s, p + 8)?;
        let m: u32 = rd32(s, p + 12)?;
        if n == 0 {
            return Ok(());
        }
        if from != 0 && to != 0 && m == n {
            move_bytes(s, from as usize, n as usize, to as usize)?;
        }
        p = p + 16;
    }
}

/// The image after the operation at `h`.
pub open spec fn operation_done(s: Seq<u8>, h: u32) -> Out<Seq<u8>> {
    if !has4(s, h) {
        corrupt()
    } else if w32(s, h) == 1 || w32(s, h) == 0x11 {
        if data4_in_range(s, h.wrapping_add(4)) {
            Ok(data4(s, h.wrapping_add(4)))
        } else {
            corrupt()
        }
    } else if w32(s, h) == 2 {
        if has4(s, h.wrapping_add(4)) {
            copies_made(s, w32(s, h.wrapping_add(4)))
        } else {
            corrupt()
        }
    } else {
        Ok(s)
    }
}

fn do_operation(s: &mut [u8], h: u32) -> (r: Out<()>)
    requires
        sized(old(s)@),
    ensures
        match operation_done(old(s)@, h) {
            Ok(v) => r is Ok && final(s)@ == v,
            Err(e) => r == Err::<(), UnpackError>(e),
        },
        final(s)@.len() == old(s)@.len(),
{
    let kind: u32 = rd32(s, h)?;
    if kind == 1 || kind == 0x11 {
        dec4(s, h.wrapping_add(4))?;
    } else if kind == 2 {
        let p: u32 = rd32(s, h.wrapping_add(4))?;
        make_copies(s, p)?;
    }
    Ok(())
}

/// The image with the two operations at `h` done and the key tables deciphered.
pub open spec fn with_operations(s: Seq<u8>, h: u32) -> Out<(Seq<u8>, Keys)> {
    match operation_done(s, h) {
        Err(e) => Err(e),
        Ok(a) => match operation_done(a, h.wrapping_add(16)) {
            Err(e) => Err(e),
            Ok(b) => with_keys(b, h.wrapping_sub(0x58)),
        },
    }
}

fn do_operations(s: &mut [u8], h: u32) -> (r: Out<Keys>)
    requires
        sized(old(s)@),
    ensures
        match with_operations(old(s)@, h) {
            Ok((v, k)) => r == Ok::<Keys, UnpackError>(k) && final(s)@ == v,
            Err(e) => r == Err::<Keys, UnpackError>(e),
        },
        final(s)@.len() == old(s)@.len(),
{
    do_operation(s, h)?;
    do_operation(s, h.wrapping_add(16))?;
    open_keys(s, h.wrapping_sub(0x58))
}

/// The image with the fourth stage opened; `h` is the checksum of the headers.
pub open spec fn with_fourth(s: Seq<u8>, x: Second, h: u32, keys: Keys) -> Out<Seq<u8>> {
    match checksum(s, x.tbl.wrapping_add(0xB0)) {
        None => corrupt(),
        Some(c) => if !has4(s, x.place(0x964)) {
            corrupt()
        } else {
            staged(
                s,
                x.place(0xA9C).wrapping_add(0x40),
                h ^ c ^ advanced_key(w32(s, x.place(0x964)), 4),
                keys,
                None,
                DecompressionStage::Pe32FourthStage,
            )
        },
    }
}

fn open_fourth(s: &mut [u8], x: &Second, h: u32, keys: &Keys) -> (r: Out<()>)
    ensures
        match with_fourth(old(s)@, *x, h, *keys) {
            Ok(v) => r is Ok && final(s)@ == v,
            Err(e) => r == Err::<(), UnpackError>(e),
        },
        final(s)@.len() == old(s)@.len(),
{
    let c: u32 = sum(s, x.tbl.wrapping_add(0xB0))?;
    let k: u32 = rd32(s, x.at_offset(0x964))?;
    let k: u32 = advance_key(k, 4);
    let p: u32 = x.at_offset(0xA9C).wrapping_add(0x40);
    open_stage(s, p, h ^ c ^ k, keys, None, DecompressionStage::Pe32FourthStage)
}

/// The word `back` bytes before the end of the region that the address and length
/// at `p` name.
pub open spec fn tail_word(s: Seq<u8>, p: u32, back: u32) -> Out<u32> {
    if !has4(s, p) || !has4(s, p.wrapping_add(4)) {
        corrupt()
    } else {
        let o = w32(s, p).wrapping_add(w32(s, p.wrapping_add(4))).wrapping_sub(back);
        if has4(s, o) {
            Ok(w32(s, o))
        } else {
            corrupt()
        }
    }
}

fn read_tail(s: &[u8], p: u32, back: u32) -> (r: Out<u32>)
    ensures
        r == tail_word(s@, p, back),
{
    let a: u32 = rd32(s, p)?;
    let n: u32 = rd32(s, p.wrapping_add(4))?;
    rd32(s, a.wrapping_add(n).wrapping_sub(back))
}

/// The image with the fifth stage opened.
pub open spec fn with_fifth(s: Seq<u8>, x: Second, h: u32, keys: Keys) -> Out<Seq<u8>> {
    match (checksum(s, x.place(0x96C)), tail_word(s, x.place(0x96C), 4)) {
        (Some(c), Ok(k)) => staged(
            s,
            x.place(0xA9C).wrapping_add(0x50),
            h ^ c ^ k,
            keys,
            None,
            DecompressionStage::Pe32FifthStage,
        ),
        _ => corrupt(),
    }
}

fn open_fifth(s: &mut [u8], x: &Second, h: u32, keys: &Keys) -> (r: Out<()>)
    ensures
        match with_fifth(old(s)@, *x, h, *keys) {
            Ok(v) => r is Ok && final(s)@ == v,
            Err(e) => r == Err::<(), UnpackError>(e),
        },
        final(s)@.len() == old(s)@.len(),
{
    let p: u32 = x.at_offset(0x96C);
    let c: u32 = sum(s, p)?;
    let k: u32 = read_tail(s, p, 4)?;
    let at: u32 = x.at_offset(0xA9C).wrapping_add(0x50);
    open_stage(s, at, h ^ c ^ k, keys, None, DecompressionStage::Pe32FifthStage)
}

/// What the seventh stage gives.
#[derive(Debug, Clone, Copy, PartialEq, Eq, Structural)]
pub struct Seventh {
    /// The checksum of the fifth stage.
    pub sum5: u32,
    pub start: u32,
    pub dlen: u32,
}

/// The image with the seventh stage opened.
pub open spec fn with_seventh(s: Seq<u8>, x: Second, h: u32, keys: Keys) -> Out<
    (Seq<u8>, Seventh),
> {
    let at = x.place(0xA9C).wrapping_add(0x70);
    let p = x.place(0x96C).wrapping_add(8);
    match (checksum(s, p), tail_word(s, p, 0x10)) {
        (Some(c), Ok(k)) => if !has4(s, at.wrapping_add(12)) {
            corrupt()
        } else {
            match staged(s, at, h ^ c ^ !k, keys, None, DecompressionStage::Pe32SeventhStage) {
                Err(e) => Err(e),
                Ok(t) => if has4(t, at) {
                    Ok(
                        (
                            t,
                            Seventh {
                                sum5: c,
                                start: w32(t, at),
                                dlen: w32(s, at.wrapping_add(12)),
                            },
                        ),
                    )
                } else {
                    corrupt()
                },
            }
        },
        _ => corrupt(),
    }
}

fn open_seventh(s: &mut [u8], x: &Second, h: u32, keys: &Keys) -> (r: Out<Seventh>)
    ensures
        match with_seventh(old(s)@, *x, h, *keys) {
            Ok((v, z)) => r == Ok::<Seventh, UnpackError>(z) && final(s)@ == v,
            Err(e) => r == Err::<Seventh, UnpackError>(e),
        },
        final(s)@.len() == old(s)@.len(),
{
    let at: u32 = x.at_offset(0xA9C).wrapping_add(0x70);
    let p: u32 = x.at_offset(0x96C).wrapping_add(8);
    let dlen: u32 = rd32(s, at.wrapping_add(12))?;
    let c: u32 = sum(s, p)?;
    let k: u32 = read_tail(s, p, 0x10)?;
    open_stage(s, at, h ^ c ^ !k, keys, None, DecompressionStage::Pe32SeventhStage)?;
    let start: u32 = rd32(s, at)?;
    Ok(Seventh { sum5: c, start, dlen })
}

/// What the stages up to the seventh give.
pub struct Opened {
    pub second: Second,
    /// The checksum of the headers.
    pub headers: u32,
    pub keys: Keys,
    pub seventh: Seventh,
}

/// The image with the stages up to the third opened.
pub open spec fn past_third(s: Seq<u8>, pe: u32, shell: u32) -> Out<(Seq<u8>, Second, u32, u32)> {
    match tbl_pe32(s, shell) {
        None => Err(UnpackError::Pe32TblNotFound),
        Some(tbl) => match with_table(s, pe, tbl) {
            Err(e) => Err(e),
            Ok(a) => match second_of(a, tbl) {
                Err(e) => Err(e),
                Ok(x) => match with_second(a, x, pe) {
                    Err(e) => Err(e),
                    Ok((b, h)) => match with_third(b, x) {
                        Err(e) => Err(e),
                        Ok((c, o)) => Ok((c, x, h, o)),
                    },
                },
            },
        },
    }
}

fn open_to_third(s: &mut [u8], pe: u32, info: &[u32; 8]) -> (r: Out<(Second, u32, u32)>)
    requires
        sized(old(s)@),
    ensures
        match past_third(old(s)@, pe, info@[6]) {
            Ok((v, x, h, o)) => r == Ok::<(Second, u32, u32), UnpackError>((x, h, o)) && final(s)@
                == v,
            Err(e) => r == Err::<(Second, u32, u32), UnpackError>(e),
        },
        final(s)@.len() == old(s)@.len(),
{
    let tbl: u32 = match find_tbl_pe32(s, info) {
        Some(t) => t,
        None => return Err(UnpackError::Pe32TblNotFound),
    };
    apply_table(s, pe, tbl)?;
    let x: Second = read_second(s, tbl)?;
    let h: u32 = open_second(s, &x, pe)?;
    let o: u32 = open_third(s, &x)?;
    Ok((x, h, o))
}

/// The image with the stages up to the seventh opened.
pub open spec fn past_seventh(s: Seq<u8>, pe: u32, shell: u32) -> Out<(Seq<u8>, Opened)> {
    match past_third(s, pe, shell) {
        Err(e) => Err(e),
        Ok((a, x, h, o)) => match with_operations(a, o) {
            Err(e) => Err(e),
            Ok((b, keys)) => match with_fourth(b, x, h, keys) {
                Err(e) => Err(e),
                Ok(c) => match with_fifth(c, x, h, keys) {
                    Err(e) => Err(e),
                    Ok(d) => match with_seventh(d, x, h, keys) {
                        Err(e) => Err(e),
                        Ok((g, z)) => Ok(
                            (g, Opened { second: x, headers: h, keys, seventh: z }),
                        ),
                    },
                },
            },
        },
    }
}

/// Open the stages up to the seventh.
pub fn open_to_seventh(s: &mut [u8], pe: u32, info: &[u32; 8]) -> (r: Out<Opened>)
    requires
        sized(old(s)@),
    ensures
        match past_seventh(old(s)@, pe, info@[6]) {
            Ok((v, x)) => r == Ok::<Opened, UnpackError>(x) && final(s)@ == v,
            Err(e) => r == Err::<Opened, UnpackError>(e),
        },
        final(s)@.len() == old(s)@.len(),
{
    let (second, headers, o): (Second, u32, u32) = open_to_third(s, pe, info)?;
    let keys: Keys = do_operations(s, o)?;
    open_fourth(s, &second, headers, &keys)?;
    open_fifth(s, &second, headers, &keys)?;
    let seventh: Seventh = open_seventh(s, &second, headers, &keys)?;
    Ok(Opened { second, headers, keys, seventh })
}

} // verus!
