//! 64-bit images: the layout of the fifth stage, and the sections that it loads.

use vstd::prelude::*;

use crate::aes::{aes_decrypted, aes_in_range};
use crate::bytecode::{generate, mapped, transform_at, Op, OpsLut};
use crate::bytes::{overlay, sub_vec, zeroed};
use crate::ciphers::{block6, block6_in_range};
use crate::error::{BytecodeStage, SectionPipeline, UnpackError};
use crate::huffman::{expand_checked, expanded, Expansion, Outcome};
use crate::pe::blocks::{open_records, place_blocks, records, with_blocks};
use crate::pe::discovery::{
    data5, discover_eighth_slots_checked, eighth_slots, find_str_pos, str_pos, trial5,
};
use crate::pe::stage::{bytecode_near, either, find_bytecode_near, or_else, Keys, Record};
use crate::pe::steps::{aes, clear, corrupt, dec5, dec6, has4, paste, rd32, sized, trial, w32, Out};

verus! {

/// Where the fifth stage keeps what the rest of the way needs.
#[derive(Debug, Clone, Copy, PartialEq, Eq, Structural)]
pub struct Layout {
    /// Whether the build has no layout marker.
    pub unmarked: bool,
    /// The slot of the checksum chain.
    pub chain: u32,
    /// The slot of the block table.
    pub table: u32,
    /// The slot of the import descriptors.
    pub names: u32,
    /// The file decryptor.
    pub decryptor: u32,
}

/// The bytes in front of the table of slots.
pub open spec fn slots_marker() -> Seq<u8> {
    seq![0x70u8, 0x6Du8, 0u8, 0u8, 0x63u8, 0x6Du8, 0u8, 0u8]
}

/// The bytes behind the slots that every marked build has.
pub open spec fn kind_marker() -> Seq<u8> {
    seq![0u8, 0u8, 0u8, 0x40u8, 1u8, 0u8, 0u8, 0u8]
}

/// What is added to a block's source for its place in the file.
pub open spec fn file_rebase(f: Seq<u8>) -> u32 {
    (!w32(f, 4224)).wrapping_add(4096)
}

/// `a - b`, at least zero.
pub open spec fn less(a: u32, b: u32) -> u32 {
    if a >= b {
        (a - b) as u32
    } else {
        0
    }
}

/// The layout of the fifth stage, from its marker where there is one, else from
/// the shape of what it points at.
pub open spec fn layout_of(s: Seq<u8>, f: Seq<u8>, rec: Record, info3: u32) -> Out<Layout> {
    let marker = or_else(str_pos(s, rec.src, rec.dlen, slots_marker()), rec.src);
    let left = less(rec.dlen, marker.wrapping_sub(rec.src));
    match str_pos(s, marker, left, kind_marker()) {
        Some(k) => Ok(
            Layout {
                unmarked: false,
                chain: k.wrapping_sub(0x18),
                table: k.wrapping_sub(0x20),
                names: k.wrapping_add(8),
                decryptor: or_else(bytecode_near(s, marker, left), marker.wrapping_add(960)),
            },
        ),
        None => if !has4(f, 4224) {
            corrupt()
        } else {
            match eighth_slots(s, rec.src, rec.dlen, info3, file_rebase(f), f.len() as u32) {
                Err(_) => corrupt(),
                Ok(None) => Err(UnpackError::Stage5MarkerNotFound),
                Ok(Some(t)) => Ok(
                    Layout {
                        unmarked: true,
                        chain: marker.wrapping_add(88).wrapping_sub(0x18),
                        table: t.compressed_info_ptr,
                        names: marker.wrapping_add(88).wrapping_add(8),
                        decryptor: t.file_lfsr,
                    },
                ),
            }
        },
    }
}

/// Find the layout of the fifth stage.
pub fn find_layout(s: &[u8], f: &[u8], rec: &Record, info3: u32) -> (r: Out<Layout>)
    requires
        sized(s@),
    ensures
        r == layout_of(s@, f@, *rec, info3),
{
    let m: Vec<u8> = vec![0x70u8, 0x6Du8, 0u8, 0u8, 0x63u8, 0x6Du8, 0u8, 0u8];
    assert(m@ =~= slots_marker());
    let k: Vec<u8> = vec![0u8, 0u8, 0u8, 0x40u8, 1u8, 0u8, 0u8, 0u8];
    assert(k@ =~= kind_marker());
    let marker: u32 = either(find_str_pos(s, rec.src, rec.dlen, &m), rec.src);
    let left: u32 = rec.dlen.saturating_sub(marker.wrapping_sub(rec.src));
    match find_str_pos(s, marker, left, &k) {
        Some(k) => Ok(
            Layout {
                unmarked: false,
                chain: k.wrapping_sub(0x18),
                table: k.wrapping_sub(0x20),
                names: k.wrapping_add(8),
                decryptor: either(find_bytecode_near(s, marker, left), marker.wrapping_add(960)),
            },
        ),
        None => {
            let rebase: u32 = (!rd32(f, 4224)?).wrapping_add(4096);
            let file_len: u32 = #[verifier::truncate]
            (f.len() as u32);
            match discover_eighth_slots_checked(s, rec.src, rec.dlen, info3, rebase, file_len) {
                Err(_) => Err(UnpackError::CorruptInput),
                Ok(None) => Err(UnpackError::Stage5MarkerNotFound),
                Ok(Some(t)) => Ok(
                    Layout {
                        unmarked: true,
                        chain: marker.wrapping_add(88).wrapping_sub(0x18),
                        table: t.compressed_info_ptr,
                        names: marker.wrapping_add(88).wrapping_add(8),
                        decryptor: t.file_lfsr,
                    },
                ),
            }
        },
    }
}

/// Whether the checksum chain from `p` on, which stays enciphered, names bytes of
/// the file only.
pub open spec fn chain_inside(s: Seq<u8>, f: Seq<u8>, p: u32) -> Out<()>
    decreases s.len() - p,
{
    if p + 16 > s.len() || p + 16 > u32::MAX {
        corrupt()
    } else {
        let o = trial5(s, p);
        let n = trial5(s, (p + 4) as u32);
        if n == 0 {
            Ok(())
        } else if o + n > f.len() {
            Err(
                UnpackError::ExeChecksumRangeOutOfBounds {
                    descriptor: p,
                    offset: o as usize,
                    size: n as usize,
                    image_len: f.len() as usize,
                },
            )
        } else {
            chain_inside(s, f, (p + 16) as u32)
        }
    }
}

/// [`chain_inside`] of the chain that a marked layout names, behind its head.
pub open spec fn chain_checked(s: Seq<u8>, f: Seq<u8>, l: Layout) -> Out<()> {
    if !has4(s, l.chain) {
        corrupt()
    } else if l.unmarked {
        Ok(())
    } else {
        let p = w32(s, l.chain);
        if p + 16 > s.len() || p + 16 > u32::MAX {
            corrupt()
        } else {
            chain_inside(s, f, (p + 16) as u32)
        }
    }
}

fn check_chain(s: &[u8], f: &[u8], l: &Layout) -> (r: Out<()>)
    requires
        sized(s@),
    ensures
        r == chain_checked(s@, f@, *l),
{
    let head: u32 = rd32(s, l.chain)?;
    if l.unmarked {
        return Ok(());
    }
    let len: usize = s.len();
    if len < 16 || head as usize > len - 16 {
        return Err(UnpackError::CorruptInput);
    }
    let mut p: u32 = head + 16;
    while p as usize <= len - 16
        invariant
            len == s@.len(),
            sized(s@),
            16 <= len,
            chain_checked(s@, f@, *l) == chain_inside(s@, f@, p),
        decreases len - p,
    {
        let o: u32 = trial(s, p)?;
        let n: u32 = trial(s, p + 4)?;
        if n == 0 {
            return Ok(());
        }
        let file_len: usize = f.len();
        if o as u64 + n as u64 > file_len as u64 {
            return Err(
                UnpackError::ExeChecksumRangeOutOfBounds {
                    descriptor: p,
                    offset: o as usize,
                    size: n as usize,
                    image_len: file_len,
                },
            );
        }
        p = p + 16;
    }
    Err(UnpackError::CorruptInput)
}

/// The image with the file-checksum chain from `p` on deciphered, up to a record
/// whose length reads zero.
pub open spec fn unchained(s: Seq<u8>, p: u32) -> Out<Seq<u8>>
    decreases s.len() - p,
{
    if !has4(s, p.wrapping_add(4)) {
        corrupt()
    } else if w32(s, p.wrapping_add(4)) == 0 {
        Ok(s)
    } else if p + 16 > s.len() || p + 16 > u32::MAX {
        corrupt()
    } else {
        unchained(data5(s, p as int, 16), (p + 16) as u32)
    }
}

/// Decipher the file-checksum chain from `start` on.
pub fn unchain(s: &mut [u8], start: u32) -> (r: Out<()>)
    requires
        sized(old(s)@),
    ensures
        match unchained(old(s)@, start) {
            Ok(v) => r is Ok && final(s)@ == v,
            Err(e) => r == Err::<(), UnpackError>(e),
        },
        final(s)@.len() == old(s)@.len(),
{
    let len: usize = s.len();
    let mut p: u32 = start;
    loop
        invariant
            len == s@.len() == old(s)@.len(),
            sized(s@),
            unchained(old(s)@, start) == unchained(s@, p),
        decreases (if p <= len { len - p } else { 0 }),
    {
        let n: u32 = rd32(s, p.wrapping_add(4))?;
        if n == 0 {
            return Ok(());
        }
        dec5(s, p, 16)?;
        p = p + 16;
    }
}

/// Whether the file decryptor `ops` opens the block `r`.
pub open spec fn opens_block(s: Seq<u8>, f: Seq<u8>, keys: Keys, ops: Seq<Op>, rebase: u32, r: Record) -> Out<
    bool,
> {
    let from = r.src.wrapping_add(rebase) as int;
    let touch = if r.slen >= r.dlen {
        r.slen
    } else {
        r.dlen
    };
    if r.dest < 0x1000 || from + r.slen > f.len() || r.dest + touch > s.len() {
        Ok(false)
    } else {
        let a = overlay(s, r.dest as int, f.subrange(from, from + r.slen));
        if !aes_in_range(a, r.dest, r.slen, keys.k2) {
            corrupt()
        } else {
            let b = mapped(
                aes_decrypted(a, r.dest, r.slen, keys.k2),
                r.dest as int,
                r.slen as int,
                ops,
            );
            match expanded(None, b, r.dest, r.dest, keys.k0, r.slen, r.dlen) {
                Outcome::Outside => corrupt(),
                Outcome::Ended { data, result } => Ok(result is Ok),
            }
        }
    }
}

/// Whether a file decryptor opens a block. The image stays as it is.
pub fn try_block(s: &[u8], f: &[u8], keys: &Keys, ops: &[Op], rebase: u32, r: &Record) -> (o: Out<
    bool,
>)
    ensures
        o == opens_block(s@, f@, *keys, ops@, rebase, *r),
{
    let from: u32 = r.src.wrapping_add(rebase);
    let touch: u32 = if r.slen >= r.dlen {
        r.slen
    } else {
        r.dlen
    };
    let len: usize = s.len();
    let file_len: usize = f.len();
    if r.dest < 0x1000 || from as u64 + r.slen as u64 > file_len as u64 || r.dest as u64
        + touch as u64 > len as u64 {
        return Ok(false);
    }
    let mut t: Vec<u8> = sub_vec(s, 0, len);
    assert(t@ =~= s@);
    paste(&mut t, r.dest as usize, f, from as usize, r.slen as usize)?;
    aes(&mut t, r.dest, r.slen, keys.k2)?;
    let lut: OpsLut = OpsLut::new(ops);
    lut.map_region(&mut t, r.dest as usize, r.slen as usize);
    match expand_checked(None, &mut t, r.dest, r.dest, keys.k0, r.slen, r.dlen) {
        Expansion::Outside => Err(UnpackError::CorruptInput),
        Expansion::Ended(v) => Ok(v.is_ok()),
    }
}

/// The descriptor at `p`, deciphered by position.
pub open spec fn trial_record(s: Seq<u8>, p: u32) -> Record {
    Record {
        src: trial5(s, p),
        slen: trial5(s, p.wrapping_add(4)),
        dest: trial5(s, p.wrapping_add(8)),
        dlen: trial5(s, p.wrapping_add(12)),
    }
}

/// Read the descriptor at `p`, deciphered by position.
pub fn read_trial(s: &[u8], p: u32) -> (r: Record)
    requires
        sized(s@),
        p + 16 <= s@.len(),
    ensures
        r == trial_record(s@, p),
{
    Record {
        src: crate::pe::discovery::trial_decrypt5_u32(s, p),
        slen: crate::pe::discovery::trial_decrypt5_u32(s, p.wrapping_add(4)),
        dest: crate::pe::discovery::trial_decrypt5_u32(s, p.wrapping_add(8)),
        dlen: crate::pe::discovery::trial_decrypt5_u32(s, p.wrapping_add(12)),
    }
}

/// Whether a file decryptor opens the first compressed block among the first `n`
/// from `p` on; true where there is none.
pub open spec fn validated_from(
    s: Seq<u8>,
    f: Seq<u8>,
    keys: Keys,
    ops: Seq<Op>,
    rebase: u32,
    p: u32,
    n: nat,
) -> Out<bool>
    decreases n,
{
    if n == 0 {
        Ok(true)
    } else if p + 16 > s.len() {
        Ok(false)
    } else {
        let r = trial_record(s, p);
        if r.slen == 0 {
            Ok(true)
        } else if r.slen != r.dlen {
            opens_block(s, f, keys, ops, rebase, r)
        } else {
            validated_from(s, f, keys, ops, rebase, p.wrapping_add(16), (n - 1) as nat)
        }
    }
}

fn validate(s: &[u8], f: &[u8], keys: &Keys, ops: &[Op], rebase: u32, start: u32) -> (o: Out<bool>)
    requires
        sized(s@),
    ensures
        o == validated_from(s@, f@, *keys, ops@, rebase, start, 4096),
{
    let len: usize = s.len();
    let mut p: u32 = start;
    let mut n: u32 = 4096;
    while n > 0
        invariant
            len == s@.len(),
            sized(s@),
            validated_from(s@, f@, *keys, ops@, rebase, start, 4096) == validated_from(
                s@,
                f@,
                *keys,
                ops@,
                rebase,
                p,
                n as nat,
            ),
        decreases n,
    {
        if len < 16 || p as usize > len - 16 {
            return Ok(false);
        }
        let r: Record = read_trial(s, p);
        if r.slen == 0 {
            return Ok(true);
        }
        if r.slen != r.dlen {
            return try_block(s, f, keys, ops, rebase, &r);
        }
        p = p.wrapping_add(16);
        n = n - 1;
    }
    Ok(true)
}

/// The image with the fifth stage's own tables deciphered, and the file
/// decryptor.
pub open spec fn with_decryptor(s: Seq<u8>, f: Seq<u8>, keys: Keys, l: Layout) -> Out<
    (Seq<u8>, Seq<Op>),
> {
    let slot = l.decryptor.wrapping_sub(0x58);
    match chain_checked(s, f, l) {
        Err(e) => Err(e),
        Ok(_) => if !has4(s, slot) {
            corrupt()
        } else {
            match unchained(s, w32(s, slot)) {
                Err(e) => Err(e),
                Ok(a) => if !block6_in_range(a, l.decryptor) {
                    corrupt()
                } else {
                    let b = block6(a, l.decryptor);
                    match transform_at(b, l.decryptor as int) {
                        None => Err(
                            UnpackError::BytecodeGenerationFailed(BytecodeStage::ExeStage5),
                        ),
                        Some(ops) => if !has4(f, 4224) {
                            corrupt()
                        } else if !l.unmarked {
                            Ok((b, ops))
                        } else if !has4(b, l.table) {
                            corrupt()
                        } else {
                            match validated_from(
                                b,
                                f,
                                keys,
                                ops,
                                file_rebase(f),
                                w32(b, l.table),
                                4096,
                            ) {
                                Err(e) => Err(e),
                                Ok(false) => Err(UnpackError::FileDecryptorValidationFailed),
                                Ok(true) => Ok((b, ops)),
                            }
                        },
                    }
                },
            }
        },
    }
}

fn open_decryptor(s: &mut [u8], f: &[u8], keys: &Keys, l: &Layout) -> (r: Out<Vec<Op>>)
    requires
        sized(old(s)@),
    ensures
        match with_decryptor(old(s)@, f@, *keys, *l) {
            Ok((v, ops)) => r is Ok && r->Ok_0@ == ops && final(s)@ == v,
            Err(e) => r is Err && r->Err_0 == e,
        },
        final(s)@.len() == old(s)@.len(),
{
    check_chain(s, f, l)?;
    let start: u32 = rd32(s, l.decryptor.wrapping_sub(0x58))?;
    unchain(s, start)?;
    dec6(s, l.decryptor)?;
    let ops: Vec<Op> = match generate(s, l.decryptor as usize) {
        Some(v) => v,
        None => return Err(UnpackError::BytecodeGenerationFailed(BytecodeStage::ExeStage5)),
    };
    let rebase: u32 = (!rd32(f, 4224)?).wrapping_add(4096);
    if l.unmarked {
        let start: u32 = rd32(s, l.table)?;
        if !validate(s, f, keys, &ops, rebase, start)? {
            return Err(UnpackError::FileDecryptorValidationFailed);
        }
    }
    Ok(ops)
}

/// The image with the ranges that the chain from `p` on names cleared, up to a
/// record whose length reads zero afterwards.
pub open spec fn zero_filled(s: Seq<u8>, p: u32) -> Out<Seq<u8>>
    decreases u32::MAX - p,
{
    if p + 16 > s.len() || p + 16 > u32::MAX {
        corrupt()
    } else {
        let t = data5(s, p as int, 16);
        let to = w32(t, p);
        let n = w32(t, (p + 4) as u32);
        if n != 0 && to + n > s.len() {
            corrupt()
        } else {
            let u = if n != 0 {
                zeroed(t, to as int, n as int)
            } else {
                t
            };
            if w32(u, (p + 4) as u32) == 0 {
                Ok(u)
            } else {
                zero_filled(u, (p + 16) as u32)
            }
        }
    }
}

fn zero_fill(s: &mut [u8], start: u32) -> (r: Out<()>)
    requires
        sized(old(s)@),
    ensures
        match zero_filled(old(s)@, start) {
            Ok(v) => r is Ok && final(s)@ == v,
            Err(e) => r == Err::<(), UnpackError>(e),
        },
        final(s)@.len() == old(s)@.len(),
{
    let len: usize = s.len();
    let mut p: u32 = start;
    loop
        invariant
            len == s@.len() == old(s)@.len(),
            sized(s@),
            zero_filled(old(s)@, start) == zero_filled(s@, p),
        decreases (if p <= len { len - p } else { 0 }),
    {
        dec5(s, p, 16)?;
        let to: u32 = rd32(s, p)?;
        let n: u32 = rd32(s, p + 4)?;
        if n != 0 {
            clear(s, to as usize, n as usize)?;
        }
        if rd32(s, p + 4)? == 0 {
            return Ok(());
        }
        p = p + 16;
    }
}

/// The image with its sections loaded.
pub open spec fn with_sections(s: Seq<u8>, f: Seq<u8>, keys: Keys, l: Layout) -> Out<Seq<u8>> {
    match with_decryptor(s, f, keys, l) {
        Err(e) => Err(e),
        Ok((a, ops)) => if !has4(a, l.table) {
            corrupt()
        } else {
            match records(a, w32(a, l.table), Seq::empty()) {
                Err(e) => Err(e),
                Ok((b, rs, p)) => match with_blocks(
                    b,
                    f,
                    rs,
                    file_rebase(f),
                    keys.k0,
                    keys.k2,
                    ops,
                    SectionPipeline::ExePe32Plus,
                ) {
                    Err(e) => Err(e),
                    Ok(c) => zero_filled(c, p),
                },
            }
        },
    }
}

/// Load the sections.
pub fn load_sections(s: &mut [u8], f: &[u8], keys: &Keys, l: &Layout) -> (r: Out<()>)
    requires
        sized(old(s)@),
    ensures
        match with_sections(old(s)@, f@, *keys, *l) {
            Ok(v) => r is Ok && final(s)@ == v,
            Err(e) => r == Err::<(), UnpackError>(e),
        },
        final(s)@.len() == old(s)@.len(),
{
    let ops: Vec<Op> = open_decryptor(s, f, keys, l)?;
    let rebase: u32 = (!rd32(f, 4224)?).wrapping_add(4096);
    let start: u32 = rd32(s, l.table)?;
    let (rs, p): (Vec<Record>, u32) = open_records(s, start)?;
    place_blocks(s, f, &rs, rebase, keys.k0, keys.k2, &ops, SectionPipeline::ExePe32Plus)?;
    zero_fill(s, p)
}

} // verus!
