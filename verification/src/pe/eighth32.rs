//! 32-bit images: the eighth stage and the file decryptor.

use vstd::prelude::*;

use crate::bytecode::{generate, transform_at, Op};
use crate::bytes::{copy_bytes, fits, overlay};
use crate::ciphers::{block6, block6_in_range, checksum};
use crate::error::{BytecodeStage, UnpackError};
use crate::huffman::{Expansion, Outcome};
use crate::payload::{open_checked, opened};
use crate::pe::discovery::{data5, find_lfsr_block, lfsr_block, lfsr_up};
use crate::pe::sections64::{
    file_rebase, less, opens_block, read_trial, trial_record, try_block, unchain, unchained,
};
use crate::pe::stage::{Keys, Record};
use crate::pe::stages32::{Opened, Seventh};
use crate::pe::steps::{
    advance_key, advanced_key, corrupt, cut, dec5, dec6, has4, rd32, sized, sum, w32, Out,
};

verus! {

/// The custom decryptor of the seventh stage: the last one of its second half, or
/// else the first one.
pub open spec fn custom_offset(s: Seq<u8>, z: Seventh) -> Option<u32> {
    match lfsr_block(s, z.start, z.dlen, z.dlen / 2, true) {
        Some(o) => Some(o),
        None => lfsr_block(s, z.start, z.dlen, 0, false),
    }
}

/// The image with the custom decryptor deciphered, its offset, and what it does.
pub open spec fn with_custom(s: Seq<u8>, z: Seventh) -> Out<(Seq<u8>, u32, Seq<Op>)> {
    match custom_offset(s, z) {
        None => Err(UnpackError::Pe32CustomDecryptorNotFound),
        Some(o) => {
            let p = z.start.wrapping_add(o);
            if !block6_in_range(s, p) {
                corrupt()
            } else {
                match transform_at(block6(s, p), p as int) {
                    None => Err(
                        UnpackError::BytecodeGenerationFailed(BytecodeStage::Pe32CustomDecryptor),
                    ),
                    Some(ops) => Ok((block6(s, p), o, ops)),
                }
            }
        },
    }
}

fn open_custom(s: &mut [u8], z: &Seventh) -> (r: Out<(u32, Vec<Op>)>)
    ensures
        match with_custom(old(s)@, *z) {
            Ok((v, o, ops)) => r is Ok && r->Ok_0.0 == o && r->Ok_0.1@ == ops && final(s)@ == v,
            Err(e) => r is Err && r->Err_0 == e,
        },
        final(s)@.len() == old(s)@.len(),
{
    let o: u32 = match find_lfsr_block(s, z.start, z.dlen, z.dlen / 2, true) {
        Some(o) => o,
        None => match find_lfsr_block(s, z.start, z.dlen, 0, false) {
            Some(o) => o,
            None => return Err(UnpackError::Pe32CustomDecryptorNotFound),
        },
    };
    let p: u32 = z.start.wrapping_add(o);
    dec6(s, p)?;
    match generate(s, p as usize) {
        Some(ops) => Ok((o, ops)),
        None => Err(UnpackError::BytecodeGenerationFailed(BytecodeStage::Pe32CustomDecryptor)),
    }
}

/// How far before the end of the seventh stage its key may stand.
pub open spec fn end_gaps() -> Seq<u32> {
    seq![0xD0u32, 0xC0u32, 0xE0u32, 0xB0u32, 0xA0u32, 0xF0u32, 0x100u32]
}

/// How far before the custom decryptor the key may stand.
pub open spec fn near_gaps() -> Seq<u32> {
    seq![
        0x70u32, 0xD0u32, 0x28u32, 0x50u32, 0x48u32, 0x30u32, 0x40u32, 0x58u32, 0x60u32, 0x20u32,
        0x38u32, 0x80u32, 0x90u32, 0xA0u32, 0xB0u32,
    ]
}

/// Whether the four bytes of a word are printable.
pub open spec fn printable_word(v: u32) -> bool {
    &&& 32 <= (v >> 0u32) & 0xFFu32 < 127
    &&& 32 <= (v >> 8u32) & 0xFFu32 < 127
    &&& 32 <= (v >> 16u32) & 0xFFu32 < 127
    &&& 32 <= (v >> 24u32) & 0xFFu32 < 127
}

/// `found` and the offset `off` behind it, if the word there can be a key.
pub open spec fn offered(s: Seq<u8>, start: u32, off: u32, strict: bool, found: Seq<u32>) -> Out<
    Seq<u32>,
> {
    let p = start.wrapping_add(off);
    if found.contains(off) {
        Ok(found)
    } else if !has4(s, p) {
        corrupt()
    } else {
        let v = w32(s, p);
        if v != 0 && v != 0xCCCC_CCCC && !(strict && printable_word(v)) {
            Ok(found.push(off))
        } else {
            Ok(found)
        }
    }
}

/// `found` and the offsets that the gaps from number `i` on before `from` offer.
pub open spec fn gaps_offered(
    s: Seq<u8>,
    z: Seventh,
    from: u32,
    gaps: Seq<u32>,
    i: int,
    found: Seq<u32>,
) -> Out<Seq<u32>>
    decreases gaps.len() - i,
{
    if i >= gaps.len() {
        Ok(found)
    } else if gaps[i] <= from && from - gaps[i] + 4 <= z.dlen {
        match offered(s, z.start, (from - gaps[i]) as u32, false, found) {
            Err(e) => Err(e),
            Ok(v) => gaps_offered(s, z, from, gaps, i + 1, v),
        }
    } else {
        gaps_offered(s, z, from, gaps, i + 1, found)
    }
}

/// `found` and the offsets in `off..end`, in steps of four, that hold no text.
pub open spec fn words_offered(s: Seq<u8>, start: u32, off: int, end: u32, found: Seq<u32>) -> Out<
    Seq<u32>,
>
    decreases end + 4 - off,
{
    if off >= end {
        Ok(found)
    } else {
        match offered(s, start, off as u32, true, found) {
            Err(e) => Err(e),
            Ok(v) => words_offered(s, start, off + 4, end, v),
        }
    }
}

/// Where the key of the eighth stage may stand, the likeliest first.
pub open spec fn key_offsets(s: Seq<u8>, z: Seventh, custom: u32) -> Out<Seq<u32>> {
    match gaps_offered(s, z, z.dlen, end_gaps(), 0, Seq::empty()) {
        Err(e) => Err(e),
        Ok(a) => match gaps_offered(s, z, custom, near_gaps(), 0, a) {
            Err(e) => Err(e),
            Ok(b) => words_offered(s, z.start, less(custom, 0x100) as int, custom, b),
        },
    }
}

fn is_printable_word(v: u32) -> (r: bool)
    ensures
        r == printable_word(v),
{
    let a: u32 = (v >> 0u32) & 0xFFu32;
    let b: u32 = (v >> 8u32) & 0xFFu32;
    let c: u32 = (v >> 16u32) & 0xFFu32;
    let d: u32 = (v >> 24u32) & 0xFFu32;
    32 <= a && a < 127 && 32 <= b && b < 127 && 32 <= c && c < 127 && 32 <= d && d < 127
}

fn holds(list: &Vec<u32>, x: u32) -> (r: bool)
    ensures
        r == list@.contains(x),
{
    let mut i: usize = 0;
    while i < list.len()
        invariant
            i <= list@.len(),
            forall|k: int| 0 <= k < i ==> list@[k] != x,
        decreases list@.len() - i,
    {
        if list[i] == x {
            assert(list@[i as int] == x);
            return true;
        }
        i = i + 1;
    }
    false
}

fn offer(s: &[u8], start: u32, off: u32, strict: bool, found: &mut Vec<u32>) -> (r: Out<()>)
    ensures
        match offered(s@, start, off, strict, old(found)@) {
            Ok(v) => r is Ok && final(found)@ == v,
            Err(e) => r == Err::<(), UnpackError>(e),
        },
{
    if holds(found, off) {
        return Ok(());
    }
    let v: u32 = rd32(s, start.wrapping_add(off))?;
    if v != 0 && v != 0xCCCC_CCCC && !(strict && is_printable_word(v)) {
        found.push(off);
    }
    Ok(())
}

fn offer_gaps(s: &[u8], z: &Seventh, from: u32, gaps: &Vec<u32>, found: &mut Vec<u32>) -> (r: Out<
    (),
>)
    ensures
        match gaps_offered(s@, *z, from, gaps@, 0, old(found)@) {
            Ok(v) => r is Ok && final(found)@ == v,
            Err(e) => r == Err::<(), UnpackError>(e),
        },
{
    let n: usize = gaps.len();
    let mut i: usize = 0;
    while i < n
        invariant
            i <= n == gaps@.len(),
            gaps_offered(s@, *z, from, gaps@, 0, old(found)@) == gaps_offered(
                s@,
                *z,
                from,
                gaps@,
                i as int,
                found@,
            ),
        decreases n - i,
    {
        let g: u32 = gaps[i];
        if g <= from && (from - g) as u64 + 4 <= z.dlen as u64 {
            offer(s, z.start, from - g, false, found)?;
        }
        i = i + 1;
    }
    Ok(())
}

fn list_keys(s: &[u8], z: &Seventh, custom: u32) -> (r: Out<Vec<u32>>)
    requires
        sized(s@),
    ensures
        match key_offsets(s@, *z, custom) {
            Ok(v) => r is Ok && r->Ok_0@ == v,
            Err(e) => r is Err && r->Err_0 == e,
        },
{
    let ends: Vec<u32> = vec![0xD0u32, 0xC0u32, 0xE0u32, 0xB0u32, 0xA0u32, 0xF0u32, 0x100u32];
    assert(ends@ =~= end_gaps());
    let near: Vec<u32> = vec![
        0x70u32, 0xD0u32, 0x28u32, 0x50u32, 0x48u32, 0x30u32, 0x40u32, 0x58u32, 0x60u32, 0x20u32,
        0x38u32, 0x80u32, 0x90u32, 0xA0u32, 0xB0u32,
    ];
    assert(near@ =~= near_gaps());
    let mut found: Vec<u32> = Vec::new();
    assert(found@ =~= Seq::empty());
    offer_gaps(s, z, z.dlen, &ends, &mut found)?;
    offer_gaps(s, z, custom, &near, &mut found)?;
    let mut off: u32 = custom.saturating_sub(0x100);
    while off < custom
        invariant
            key_offsets(s@, *z, custom) == words_offered(s@, z.start, off as int, custom, found@),
        decreases custom - off,
    {
        offer(s, z.start, off, true, &mut found)?;
        if custom - off <= 4 {
            assert(words_offered(s@, z.start, off + 4, custom, found@) == Ok::<
                Seq<u32>,
                UnpackError,
            >(found@));
            return Ok(found);
        }
        off = off + 4;
    }
    Ok(found)
}

/// What is fixed while the key of the eighth stage is tried.
pub struct Eighth {
    /// Where the descriptor stands.
    pub at: u32,
    pub src: u32,
    pub slen: u32,
    pub dlen: u32,
    /// The key but for its counter part.
    pub base: u32,
    /// Where the seventh stage starts.
    pub seventh: u32,
    pub keys: Keys,
}

/// The image with the eighth stage, as `kept` held it, opened with the key at
/// `off`, and whether it opens and starts inside the image.
#[verifier::opaque]
pub open spec fn eighth_once(s: Seq<u8>, kept: Seq<u8>, x: Eighth, ops: Seq<Op>, off: u32) -> Out<
    (Seq<u8>, bool),
> {
    let a = overlay(
        overlay(s, x.src as int, kept.subrange(x.src as int, x.src + x.slen)),
        x.at as int,
        kept.subrange(x.at as int, x.at + 16),
    );
    let p = x.seventh.wrapping_add(off);
    if !has4(a, p) {
        corrupt()
    } else {
        match opened(
            a,
            x.at,
            x.base ^ advanced_key(w32(a, p), 3),
            x.keys.k1,
            x.keys.k3,
            Some(ops),
        ) {
            Outcome::Outside => corrupt(),
            Outcome::Ended { data, result } => Ok(
                (data, result is Ok && 0x1000 < w32(data, x.at) < data.len()),
            ),
        }
    }
}

/// The image with the eighth stage opened with one of the keys from number `i`
/// on, the first with which it opens.
pub open spec fn eighth_tried(
    s: Seq<u8>,
    kept: Seq<u8>,
    x: Eighth,
    ops: Seq<Op>,
    list: Seq<u32>,
    i: int,
) -> Out<Seq<u8>>
    decreases list.len() - i,
{
    if i >= list.len() {
        Err(UnpackError::Pe32EighthKeyNotFound)
    } else {
        match eighth_once(s, kept, x, ops, list[i]) {
            Err(e) => Err(e),
            Ok((t, good)) => if good {
                Ok(t)
            } else {
                eighth_tried(t, kept, x, ops, list, i + 1)
            },
        }
    }
}

/// What the trials restore.
struct Kept {
    src: Vec<u8>,
    at: Vec<u8>,
    image: Ghost<Seq<u8>>,
}

impl Kept {
    spec fn of(self, x: Eighth) -> bool {
        &&& x.src + x.slen <= self.image@.len()
        &&& x.at + 16 <= self.image@.len()
        &&& self.src@ == self.image@.subrange(x.src as int, x.src + x.slen)
        &&& self.at@ == self.image@.subrange(x.at as int, x.at + 16)
    }
}

fn try_once(s: &mut [u8], kept: &Kept, x: &Eighth, ops: &Vec<Op>, off: u32) -> (r: Out<bool>)
    requires
        sized(old(s)@),
        kept.of(*x),
        kept.image@.len() == old(s)@.len(),
    ensures
        match eighth_once(old(s)@, kept.image@, *x, ops@, off) {
            Ok((v, b)) => r == Ok::<bool, UnpackError>(b) && final(s)@ == v,
            Err(e) => r == Err::<bool, UnpackError>(e),
        },
        final(s)@.len() == old(s)@.len(),
{
    proof {
        reveal(eighth_once);
    }
    let len: usize = s.len();
    copy_bytes(s, x.src as usize, &kept.src, 0, x.slen as usize);
    copy_bytes(s, x.at as usize, &kept.at, 0, 16);
    assert(kept.src@.subrange(0, x.slen as int) =~= kept.src@);
    assert(kept.at@.subrange(0, 16) =~= kept.at@);
    let raw: u32 = rd32(s, x.seventh.wrapping_add(off))?;
    let key: u32 = x.base ^ advance_key(raw, 3);
    match open_checked(s, x.at, key, x.keys.k1, x.keys.k3, Some(ops)) {
        Expansion::Outside => Err(UnpackError::CorruptInput),
        Expansion::Ended(result) => {
            let start: u32 = rd32(s, x.at)?;
            Ok(result.is_ok() && 0x1000 < start && (start as usize) < len)
        },
    }
}

fn try_eighth(s: &mut [u8], kept: &Kept, x: &Eighth, ops: &Vec<Op>, list: &Vec<u32>) -> (r: Out<()>)
    requires
        sized(old(s)@),
        kept.of(*x),
        kept.image@.len() == old(s)@.len(),
    ensures
        match eighth_tried(old(s)@, kept.image@, *x, ops@, list@, 0) {
            Ok(v) => r is Ok && final(s)@ == v,
            Err(e) => r == Err::<(), UnpackError>(e),
        },
        final(s)@.len() == old(s)@.len(),
{
    let n: usize = list.len();
    let mut i: usize = 0;
    while i < n
        invariant
            i <= n == list@.len(),
            sized(s@),
            kept.of(*x),
            s@.len() == kept.image@.len() == old(s)@.len(),
            eighth_tried(old(s)@, kept.image@, *x, ops@, list@, 0) == eighth_tried(
                s@,
                kept.image@,
                *x,
                ops@,
                list@,
                i as int,
            ),
        decreases n - i,
    {
        if try_once(s, kept, x, ops, list[i])? {
            return Ok(());
        }
        i = i + 1;
    }
    Err(UnpackError::Pe32EighthKeyNotFound)
}

/// The image with the eighth stage opened; where it starts and its length.
pub open spec fn with_eighth(s: Seq<u8>, o: Opened) -> Out<(Seq<u8>, u32, u32)> {
    let x = o.second;
    let at = x.place(0xA9C).wrapping_add(0xC0);
    match with_custom(s, o.seventh) {
        Err(e) => Err(e),
        Ok((a, custom, ops)) => match checksum(a, x.place(0x96C).wrapping_add(0x10)) {
            None => corrupt(),
            Some(c) => if !has4(a, at) || !has4(a, at.wrapping_add(4)) || !has4(
                a,
                at.wrapping_add(12),
            ) {
                corrupt()
            } else {
                let e = Eighth {
                    at,
                    src: w32(a, at),
                    slen: w32(a, at.wrapping_add(4)),
                    dlen: w32(a, at.wrapping_add(12)),
                    base: o.headers ^ o.seventh.sum5 ^ c,
                    seventh: o.seventh.start,
                    keys: o.keys,
                };
                if !fits(a, e.src as int, e.slen as int) || !fits(a, at as int, 16) {
                    corrupt()
                } else {
                    match key_offsets(a, o.seventh, custom) {
                        Err(e) => Err(e),
                        Ok(list) => match eighth_tried(a, a, e, ops, list, 0) {
                            Err(e) => Err(e),
                            Ok(b) => Ok((b, w32(b, at), e.dlen)),
                        },
                    }
                }
            },
        },
    }
}

fn open_eighth(s: &mut [u8], o: &Opened) -> (r: Out<(u32, u32)>)
    requires
        sized(old(s)@),
    ensures
        match with_eighth(old(s)@, *o) {
            Ok((v, a, n)) => r == Ok::<(u32, u32), UnpackError>((a, n)) && final(s)@ == v,
            Err(e) => r == Err::<(u32, u32), UnpackError>(e),
        },
        final(s)@.len() == old(s)@.len(),
{
    let (custom, ops): (u32, Vec<Op>) = open_custom(s, &o.seventh)?;
    let shift: u32 = o.second.size.wrapping_sub(0xBC0);
    let c: u32 = sum(
        s,
        o.second.start.wrapping_add(0x96Cu32.wrapping_add(shift)).wrapping_add(0x10),
    )?;
    let at: u32 = o.second.start.wrapping_add(0xA9Cu32.wrapping_add(shift)).wrapping_add(0xC0);
    let dlen: u32 = rd32(s, at.wrapping_add(12))?;
    let src: u32 = rd32(s, at)?;
    let slen: u32 = rd32(s, at.wrapping_add(4))?;
    let kept_src: Vec<u8> = cut(s, src as usize, slen as usize)?;
    let kept_at: Vec<u8> = cut(s, at as usize, 16)?;
    let list: Vec<u32> = list_keys(s, &o.seventh, custom)?;
    let x: Eighth = Eighth {
        at,
        src,
        slen,
        dlen,
        base: o.headers ^ o.seventh.sum5 ^ c,
        seventh: o.seventh.start,
        keys: Keys { k0: o.keys.k0, k1: o.keys.k1, k2: o.keys.k2, k3: o.keys.k3 },
    };
    let kept: Kept = Kept { src: kept_src, at: kept_at, image: Ghost(s@) };
    try_eighth(s, &kept, &x, &ops, &list)?;
    let start: u32 = rd32(s, at)?;
    Ok((start, dlen))
}

/// The first stamped cluster of the stage at `start`, from `off` on: the stamp,
/// and 0x30 bytes behind it an address of the image behind `info3`.
pub open spec fn stamped_from(s: Seq<u8>, start: u32, off: int, end: u32, info3: u32) -> Out<
    Option<u32>,
>
    decreases end + 4 - off,
{
    if off >= end {
        Ok(None)
    } else if !has4(s, start.wrapping_add(off as u32)) {
        corrupt()
    } else if w32(s, start.wrapping_add(off as u32)) != 0x7679 {
        stamped_from(s, start, off + 4, end, info3)
    } else {
        let p = start.wrapping_add((off as u32).wrapping_add(0x30));
        if !has4(s, p) {
            corrupt()
        } else if info3 < w32(s, p) < s.len() {
            Ok(Some(off as u32))
        } else {
            stamped_from(s, start, off + 4, end, info3)
        }
    }
}

fn find_stamped(s: &[u8], start: u32, end: u32, info3: u32) -> (r: Out<Option<u32>>)
    requires
        sized(s@),
    ensures
        r == stamped_from(s@, start, 0, end, info3),
{
    let len: usize = s.len();
    let mut off: u32 = 0;
    while off < end
        invariant
            len == s@.len(),
            stamped_from(s@, start, 0, end, info3) == stamped_from(
                s@,
                start,
                off as int,
                end,
                info3,
            ),
        decreases end - off,
    {
        if rd32(s, start.wrapping_add(off))? == 0x7679 {
            let fc: u32 = rd32(s, start.wrapping_add(off.wrapping_add(0x30)))?;
            if fc > info3 && (fc as usize) < len {
                return Ok(Some(off));
            }
        }
        if end - off <= 4 {
            assert(stamped_from(s@, start, off + 4, end, info3) == Ok::<Option<u32>, UnpackError>(
                None,
            ));
            return Ok(None);
        }
        off = off + 4;
    }
    Ok(None)
}

/// Whether an address and a length, `off` bytes into the stage, have the shape of
/// the checksum chain's.
pub open spec fn chain_shaped(s: Seq<u8>, start: u32, off: u32, info3: u32) -> bool {
    let fc = w32(s, start.wrapping_add(off));
    let n = w32(s, start.wrapping_add(off.wrapping_add(4)));
    &&& info3 < fc <= info3.wrapping_add(0x2000)
    &&& fc < s.len()
    &&& 0x10 <= n <= 0x200
    &&& n & 0xFu32 == 0
}

/// The cluster whose chain stands least behind `info3`, from `off` on or `best`,
/// as the distance and the cluster's offset.
pub open spec fn shaped_from(
    s: Seq<u8>,
    start: u32,
    off: int,
    end: u32,
    dlen: u32,
    info3: u32,
    best: Option<(u32, u32)>,
) -> Out<Option<(u32, u32)>>
    decreases end + 8 - off,
{
    let p = start.wrapping_add(off as u32);
    let q = start.wrapping_add((off as u32).wrapping_add(4));
    if off + 8 > end {
        Ok(best)
    } else if !has4(s, p) || !has4(s, q) {
        corrupt()
    } else if chain_shaped(s, start, off as u32, info3) && off >= 0x30 && off - 0x30 + 0x4C
        <= dlen && (match best {
        None => true,
        Some((d, o)) => w32(s, p) - info3 < d,
    }) {
        shaped_from(
            s,
            start,
            off + 4,
            end,
            dlen,
            info3,
            Some(((w32(s, p) - info3) as u32, (off - 0x30) as u32)),
        )
    } else {
        shaped_from(s, start, off + 4, end, dlen, info3, best)
    }
}

fn find_shaped(s: &[u8], start: u32, end: u32, dlen: u32, info3: u32) -> (r: Out<Option<(u32, u32)>>)
    requires
        sized(s@),
    ensures
        r == shaped_from(s@, start, 0, end, dlen, info3, None),
{
    let len: usize = s.len();
    let mut best: Option<(u32, u32)> = None;
    let mut off: u32 = 0;
    while off as u64 + 8 <= end as u64
        invariant
            len == s@.len(),
            shaped_from(s@, start, 0, end, dlen, info3, None) == shaped_from(
                s@,
                start,
                off as int,
                end,
                dlen,
                info3,
                best,
            ),
        decreases end - off,
    {
        let fc: u32 = rd32(s, start.wrapping_add(off))?;
        let n: u32 = rd32(s, start.wrapping_add(off.wrapping_add(4)))?;
        if fc > info3 && fc <= info3.wrapping_add(0x2000) && (fc as usize) < len && 0x10 <= n && n
            <= 0x200 && n & 0xFu32 == 0 && off >= 0x30 && (off - 0x30) as u64 + 0x4C
            <= dlen as u64 {
            let better: bool = match best {
                None => true,
                Some((d, _)) => fc - info3 < d,
            };
            if better {
                best = Some((fc - info3, off - 0x30));
            }
        }
        off = off + 4;
    }
    Ok(best)
}

/// Where the eighth stage keeps what the rest of the way needs, as offsets from
/// its start.
#[derive(Debug, Clone, Copy, PartialEq, Eq, Structural)]
pub struct Cluster {
    pub imports: u32,
    pub chain: u32,
    pub blocks: u32,
    pub zeros: u32,
    pub decryptor: u32,
}

/// The cluster at `base`.
pub open spec fn cluster_at(base: u32) -> Cluster {
    Cluster {
        imports: base.wrapping_add(0x18),
        chain: base.wrapping_add(0x30),
        blocks: base.wrapping_add(0x40),
        zeros: base.wrapping_add(0x48),
        decryptor: base.wrapping_add(0x4B4),
    }
}

/// The cluster of the stage: a stamped one, else one with a chain of the right
/// shape, else the place that it has in the common build.
pub open spec fn cluster_of(s: Seq<u8>, start: u32, dlen: u32, info3: u32, shift: u32) -> Out<
    Cluster,
> {
    match stamped_from(s, start, 0, less(dlen, 0x4C), info3) {
        Err(e) => Err(e),
        Ok(Some(m)) => Ok(cluster_at(m)),
        Ok(None) => match shaped_from(s, start, 0, less(dlen, 0x484), dlen, info3, None) {
            Err(e) => Err(e),
            Ok(Some((d, m))) => Ok(cluster_at(m)),
            Ok(None) => Ok(cluster_at(0x3C38u32.wrapping_add(shift))),
        },
    }
}

fn make_cluster(base: u32) -> (r: Cluster)
    ensures
        r == cluster_at(base),
{
    Cluster {
        imports: base.wrapping_add(0x18),
        chain: base.wrapping_add(0x30),
        blocks: base.wrapping_add(0x40),
        zeros: base.wrapping_add(0x48),
        decryptor: base.wrapping_add(0x4B4),
    }
}

fn find_cluster(s: &[u8], start: u32, dlen: u32, info3: u32, shift: u32) -> (r: Out<Cluster>)
    requires
        sized(s@),
    ensures
        r == cluster_of(s@, start, dlen, info3, shift),
{
    match find_stamped(s, start, dlen.saturating_sub(0x4C), info3)? {
        Some(m) => Ok(make_cluster(m)),
        None => match find_shaped(s, start, dlen.saturating_sub(0x484), dlen, info3)? {
            Some((_, m)) => Ok(make_cluster(m)),
            None => Ok(make_cluster(0x3C38u32.wrapping_add(shift))),
        },
    }
}

/// The image with the 16-byte records in `p..end` deciphered.
pub open spec fn records_plain(s: Seq<u8>, p: u32, end: u32) -> Out<Seq<u8>>
    decreases u32::MAX - p,
{
    if p >= end {
        Ok(s)
    } else if p + 16 > s.len() || p + 16 > u32::MAX {
        corrupt()
    } else {
        records_plain(data5(s, p as int, 16), (p + 16) as u32, end)
    }
}

/// The image with the checksum chain that the slot at `slot` names deciphered.
pub open spec fn chain_plain(s: Seq<u8>, slot: u32) -> Out<Seq<u8>> {
    if !has4(s, slot) || !has4(s, slot.wrapping_add(4)) {
        corrupt()
    } else {
        let p = w32(s, slot);
        let n = w32(s, slot.wrapping_add(4));
        if n > 0 {
            records_plain(s, p, p.wrapping_add(n))
        } else {
            unchained(s, p)
        }
    }
}

fn open_chain(s: &mut [u8], slot: u32) -> (r: Out<()>)
    requires
        sized(old(s)@),
    ensures
        match chain_plain(old(s)@, slot) {
            Ok(v) => r is Ok && final(s)@ == v,
            Err(e) => r == Err::<(), UnpackError>(e),
        },
        final(s)@.len() == old(s)@.len(),
{
    let mut p: u32 = rd32(s, slot)?;
    let n: u32 = rd32(s, slot.wrapping_add(4))?;
    if n == 0 {
        return unchain(s, p);
    }
    let end: u32 = p.wrapping_add(n);
    while p < end
        invariant
            sized(s@),
            s@.len() == old(s)@.len(),
            chain_plain(old(s)@, slot) == records_plain(s@, p, end),
        decreases u32::MAX - p,
    {
        dec5(s, p, 16)?;
        p = p + 16;
    }
    Ok(())
}

/// Whether `ops` opens the first compressed block among the `n` from `p` on.
pub open spec fn proved_from(
    s: Seq<u8>,
    f: Seq<u8>,
    keys: Keys,
    ops: Seq<Op>,
    p: u32,
    n: nat,
) -> Out<bool>
    decreases n,
{
    if n == 0 || p + 16 > s.len() {
        Ok(false)
    } else {
        let r = trial_record(s, p);
        if r.slen == 0 {
            Ok(false)
        } else if r.slen != r.dlen {
            opens_block(s, f, keys, ops, file_rebase(f), r)
        } else {
            proved_from(s, f, keys, ops, p.wrapping_add(16), (n - 1) as nat)
        }
    }
}

/// Whether the decryptor at `p` opens the first compressed block of the table
/// that the slot names.
pub open spec fn decryptor_proved(s: Seq<u8>, f: Seq<u8>, keys: Keys, p: u32, slot: u32) -> Out<
    bool,
> {
    if p + 96 > s.len() {
        Ok(false)
    } else if !block6_in_range(s, p) {
        corrupt()
    } else {
        match transform_at(block6(s, p), p as int) {
            None => Ok(false),
            Some(ops) => if !has4(f, 4224) || !has4(s, slot) {
                corrupt()
            } else {
                let table = w32(s, slot);
                if table == 0 {
                    Ok(false)
                } else {
                    proved_from(s, f, keys, ops, table, 256)
                }
            },
        }
    }
}

fn prove_from(s: &[u8], f: &[u8], keys: &Keys, ops: &Vec<Op>, start: u32) -> (r: Out<bool>)
    requires
        sized(s@),
        has4(f@, 4224),
    ensures
        r == proved_from(s@, f@, *keys, ops@, start, 256),
{
    let rebase: u32 = (!rd32(f, 4224)?).wrapping_add(4096);
    let len: usize = s.len();
    let mut p: u32 = start;
    let mut n: u32 = 256;
    while n > 0
        invariant
            len == s@.len(),
            sized(s@),
            rebase == file_rebase(f@),
            proved_from(s@, f@, *keys, ops@, start, 256) == proved_from(
                s@,
                f@,
                *keys,
                ops@,
                p,
                n as nat,
            ),
        decreases n,
    {
        if len < 16 || p as usize > len - 16 {
            return Ok(false);
        }
        let r: Record = read_trial(s, p);
        if r.slen == 0 {
            return Ok(false);
        }
        if r.slen != r.dlen {
            return try_block(s, f, keys, ops, rebase, &r);
        }
        p = p.wrapping_add(16);
        n = n - 1;
    }
    Ok(false)
}

/// Whether a decryptor is the right one. The image stays as it is.
pub fn pe32_file_lfsr_validates(s: &[u8], f: &[u8], keys: &Keys, p: u32, slot: u32) -> (r: Out<bool>)
    requires
        sized(s@),
    ensures
        r == decryptor_proved(s@, f@, *keys, p, slot),
{
    let len: usize = s.len();
    if len < 96 || p as usize > len - 96 {
        return Ok(false);
    }
    let mut t: Vec<u8> = cut(s, 0, len)?;
    assert(t@ =~= s@);
    dec6(&mut t, p)?;
    let ops: Vec<Op> = match generate(&t, p as usize) {
        Some(ops) => ops,
        None => return Ok(false),
    };
    let rebase: u32 = rd32(f, 4224)?;
    let table: u32 = rd32(s, slot)?;
    if table == 0 {
        return Ok(false);
    }
    prove_from(s, f, keys, &ops, table)
}

/// A block found upwards lies between the two bounds.
pub proof fn up_bounds(s: Seq<u8>, base: u32, off: int, hi: int)
    requires
        0 <= off,
        hi <= u32::MAX,
    ensures
        lfsr_up(s, base, off, hi) matches Some(o) ==> off <= o < hi,
    decreases hi - off,
{
    if off < hi {
        up_bounds(s, base, off + 1, hi);
    }
}

/// The first decryptor from `off` on that is proved right.
pub open spec fn decryptor_from(
    s: Seq<u8>,
    f: Seq<u8>,
    keys: Keys,
    start: u32,
    dlen: u32,
    off: u32,
    slot: u32,
) -> Out<Option<u32>>
    decreases dlen - off,
{
    match lfsr_block(s, start, dlen, off, false) {
        None => Ok(None),
        Some(o) => match decryptor_proved(s, f, keys, start.wrapping_add(o), slot) {
            Err(e) => Err(e),
            Ok(true) => Ok(Some(o)),
            Ok(false) => {
                proof {
                    up_bounds(s, start, off as int, dlen - 95);
                }
                decryptor_from(s, f, keys, start, dlen, (o + 1) as u32, slot)
            },
        },
    }
}

fn find_decryptor(
    s: &[u8],
    f: &[u8],
    keys: &Keys,
    start: u32,
    dlen: u32,
    from: u32,
    slot: u32,
) -> (r: Out<Option<u32>>)
    requires
        sized(s@),
    ensures
        r == decryptor_from(s@, f@, *keys, start, dlen, from, slot),
{
    let mut off: u32 = from;
    loop
        invariant
            sized(s@),
            decryptor_from(s@, f@, *keys, start, dlen, from, slot) == decryptor_from(
                s@,
                f@,
                *keys,
                start,
                dlen,
                off,
                slot,
            ),
        decreases u32::MAX - off,
    {
        let o: u32 = match find_lfsr_block(s, start, dlen, off, false) {
            Some(o) => o,
            None => return Ok(None),
        };
        proof {
            up_bounds(s@, start, off as int, dlen - 95);
        }
        if pe32_file_lfsr_validates(s, f, keys, start.wrapping_add(o), slot)? {
            return Ok(Some(o));
        }
        off = o + 1;
    }
}

/// The file decryptor of the stage at `start`: the one at its expected place,
/// else the first behind the cluster that is proved right.
pub open spec fn file_decryptor(
    s: Seq<u8>,
    f: Seq<u8>,
    keys: Keys,
    start: u32,
    dlen: u32,
    c: Cluster,
) -> Out<u32> {
    let near = c.decryptor.wrapping_add(96) <= dlen;
    if near && lfsr_block(s, start, dlen, c.decryptor, false) == Some(c.decryptor) {
        Ok(c.decryptor)
    } else {
        match decryptor_from(
            s,
            f,
            keys,
            start,
            dlen,
            if near {
                c.zeros
            } else {
                c.zeros.wrapping_add(8)
            },
            start.wrapping_add(c.blocks),
        ) {
            Err(e) => Err(e),
            Ok(None) => Err(UnpackError::Pe32FileLfsrNotFound),
            Ok(Some(o)) => Ok(o),
        }
    }
}

fn choose_decryptor(s: &[u8], f: &[u8], keys: &Keys, start: u32, dlen: u32, c: &Cluster) -> (r: Out<
    u32,
>)
    requires
        sized(s@),
    ensures
        r == file_decryptor(s@, f@, *keys, start, dlen, *c),
{
    let near: bool = c.decryptor.wrapping_add(96) <= dlen;
    if near {
        match find_lfsr_block(s, start, dlen, c.decryptor, false) {
            Some(o) => {
                if o == c.decryptor {
                    return Ok(o);
                }
            },
            None => {},
        }
    }
    let from: u32 = if near {
        c.zeros
    } else {
        c.zeros.wrapping_add(8)
    };
    match find_decryptor(s, f, keys, start, dlen, from, start.wrapping_add(c.blocks))? {
        Some(o) => Ok(o),
        None => Err(UnpackError::Pe32FileLfsrNotFound),
    }
}

/// The image with the eighth stage and its own tables opened; where it starts,
/// its cluster, and the file decryptor.
pub open spec fn past_eighth(s: Seq<u8>, f: Seq<u8>, o: Opened, info3: u32) -> Out<
    (Seq<u8>, u32, Cluster, Seq<Op>),
> {
    match with_eighth(s, o) {
        Err(e) => Err(e),
        Ok((a, start, dlen)) => match cluster_of(
            a,
            start,
            dlen,
            info3,
            o.second.size.wrapping_sub(0xBC0),
        ) {
            Err(e) => Err(e),
            Ok(c) => match chain_plain(a, start.wrapping_add(c.chain)) {
                Err(e) => Err(e),
                Ok(b) => match file_decryptor(b, f, o.keys, start, dlen, c) {
                    Err(e) => Err(e),
                    Ok(d) => {
                        let p = start.wrapping_add(d);
                        if !block6_in_range(b, p) {
                            corrupt()
                        } else {
                            match transform_at(block6(b, p), p as int) {
                                None => Err(
                                    UnpackError::BytecodeGenerationFailed(
                                        BytecodeStage::Pe32FileDecryptor,
                                    ),
                                ),
                                Some(ops) => Ok((block6(b, p), start, c, ops)),
                            }
                        }
                    },
                },
            },
        },
    }
}

/// Open the eighth stage and its own tables.
pub fn open_past_eighth(s: &mut [u8], f: &[u8], o: &Opened, info3: u32) -> (r: Out<
    (u32, Cluster, Vec<Op>),
>)
    requires
        sized(old(s)@),
    ensures
        match past_eighth(old(s)@, f@, *o, info3) {
            Ok((v, start, c, ops)) => r is Ok && r->Ok_0.0 == start && r->Ok_0.1 == c
                && r->Ok_0.2@ == ops && final(s)@ == v,
            Err(e) => r is Err && r->Err_0 == e,
        },
        final(s)@.len() == old(s)@.len(),
{
    let (start, dlen): (u32, u32) = open_eighth(s, o)?;
    let c: Cluster = find_cluster(s, start, dlen, info3, o.second.size.wrapping_sub(0xBC0))?;
    open_chain(s, start.wrapping_add(c.chain))?;
    let d: u32 = choose_decryptor(s, f, &o.keys, start, dlen, &c)?;
    let p: u32 = start.wrapping_add(d);
    dec6(s, p)?;
    match generate(s, p as usize) {
        Some(ops) => Ok((start, c, ops)),
        None => Err(UnpackError::BytecodeGenerationFailed(BytecodeStage::Pe32FileDecryptor)),
    }
}

} // verus!
