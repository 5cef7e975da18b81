//! 64-bit images: stages three to five.

use vstd::prelude::*;

use crate::bytecode::{generate, transform_at, Op};
use crate::bytes::{copy_bytes, overlay, sub_vec};
use crate::ciphers::{block6, block6_in_range, checksum};
use crate::error::{
    BufferOperation, BytecodeStage, DecompressionFailure, DecompressionStage, UnpackError,
};
use crate::huffman::{Expansion, Outcome};
use crate::payload::{open_checked, opened};
use crate::pe::config64::{Config, Stage2};
use crate::pe::discovery::{
    find_str_pos, find_v4_offset, find_v_after_pad, str_pos, v4_offset, v_after_pad,
};
use crate::pe::stage::{
    bytecode_near, either, find_bytecode_near, open_stage, or_else, read_record, record_at, staged,
    Keys, Record,
};
use crate::pe::steps::{advance_key, advanced_key, corrupt, dec6, has4, rd32, sized, sum, w32, Out};

verus! {

/// The most bytes that are kept to try the third stage again.
pub const MAX_TRIAL_BYTES: u64 = 16 * 1024 * 1024;

/// The image with the source and the destination of a record as they were in
/// `kept`.
pub open spec fn restored(s: Seq<u8>, kept: Seq<u8>, r: Record) -> Seq<u8> {
    overlay(
        overlay(s, r.src as int, kept.subrange(r.src as int, r.src + r.slen)),
        r.dest as int,
        kept.subrange(r.dest as int, r.dest + r.dlen),
    )
}

/// What is fixed while the third stage is tried.
pub struct Trial {
    /// Where the record stands.
    pub at: u32,
    pub rec: Record,
    /// The key but for its counter part.
    pub base: u32,
    /// The counter's seed.
    pub seed: u32,
    pub keys: Keys,
}

/// The image after the third stage is opened with a counter of `n` or more
/// rounds but not four, up to eight, the first with which it opens and ends in
/// its last word; `reason` is why four rounds failed.
pub open spec fn retried(
    s: Seq<u8>,
    kept: Seq<u8>,
    t: Trial,
    n: int,
    reason: DecompressionFailure,
) -> Out<Seq<u8>>
    decreases 9 - n,
{
    if n > 8 {
        Err(UnpackError::StageDecompressionFailed { stage: DecompressionStage::ExeStage3, reason })
    } else if n == 4 {
        retried(s, kept, t, n + 1, reason)
    } else {
        match opened(
            restored(s, kept, t.rec),
            t.at,
            t.base ^ advanced_key(t.seed, n as nat),
            t.keys.k1,
            t.keys.k3,
            None,
        ) {
            Outcome::Outside => corrupt(),
            Outcome::Ended { data, result } => if result is Ok && v4_offset(
                data,
                t.rec.src,
                t.rec.dlen,
            ) is Some {
                Ok(data)
            } else {
                retried(data, kept, t, n + 1, reason)
            },
        }
    }
}

/// The image with the third stage opened: with a counter of four rounds, or, if
/// that fails and the stage is small, with another number of rounds.
pub open spec fn with_stage3(s: Seq<u8>, t: Trial) -> Out<Seq<u8>> {
    let r = t.rec;
    if r.src + r.slen > s.len() {
        Err(
            UnpackError::BufferRangeOutOfBounds {
                operation: BufferOperation::Read,
                offset: r.src as usize,
                size: r.slen as usize,
                buffer_len: s.len() as usize,
            },
        )
    } else if r.dest + r.dlen > s.len() {
        Err(
            UnpackError::BufferRangeOutOfBounds {
                operation: BufferOperation::CopyDestination,
                offset: r.dest as usize,
                size: r.dlen as usize,
                buffer_len: s.len() as usize,
            },
        )
    } else {
        match opened(s, t.at, t.base ^ advanced_key(t.seed, 4), t.keys.k1, t.keys.k3, None) {
            Outcome::Outside => corrupt(),
            Outcome::Ended { data, result } => match result {
                Ok(_) => Ok(data),
                Err(reason) => if r.slen + r.dlen <= MAX_TRIAL_BYTES {
                    retried(data, s, t, 0, reason)
                } else {
                    Err(
                        UnpackError::StageDecompressionFailed {
                            stage: DecompressionStage::ExeStage3,
                            reason,
                        },
                    )
                },
            },
        }
    }
}

fn retry_stage3(
    s: &mut [u8],
    src_kept: &Vec<u8>,
    dest_kept: &Vec<u8>,
    t: &Trial,
    reason: DecompressionFailure,
    Ghost(kept): Ghost<Seq<u8>>,
) -> (r: Out<()>)
    requires
        sized(old(s)@),
        kept.len() == old(s)@.len(),
        t.rec.src + t.rec.slen <= kept.len(),
        t.rec.dest + t.rec.dlen <= kept.len(),
        src_kept@ == kept.subrange(t.rec.src as int, t.rec.src + t.rec.slen),
        dest_kept@ == kept.subrange(t.rec.dest as int, t.rec.dest + t.rec.dlen),
    ensures
        match retried(old(s)@, kept, *t, 0, reason) {
            Ok(v) => r is Ok && final(s)@ == v,
            Err(e) => r == Err::<(), UnpackError>(e),
        },
        final(s)@.len() == old(s)@.len(),
{
    let mut n: u32 = 0;
    while n <= 8
        invariant
            n <= 9,
            sized(s@),
            kept.len() == s@.len() == old(s)@.len(),
            t.rec.src + t.rec.slen <= kept.len(),
            t.rec.dest + t.rec.dlen <= kept.len(),
            src_kept@ == kept.subrange(t.rec.src as int, t.rec.src + t.rec.slen),
            dest_kept@ == kept.subrange(t.rec.dest as int, t.rec.dest + t.rec.dlen),
            retried(old(s)@, kept, *t, 0, reason) == retried(s@, kept, *t, n as int, reason),
        decreases 9 - n,
    {
        if n != 4 {
            let ghost before = s@;
            copy_bytes(s, t.rec.src as usize, src_kept, 0, t.rec.slen as usize);
            copy_bytes(s, t.rec.dest as usize, dest_kept, 0, t.rec.dlen as usize);
            assert(src_kept@.subrange(0, t.rec.slen as int) =~= src_kept@);
            assert(dest_kept@.subrange(0, t.rec.dlen as int) =~= dest_kept@);
            assert(s@ == restored(before, kept, t.rec));
            let key: u32 = t.base ^ advance_key(t.seed, n);
            match open_checked(s, t.at, key, t.keys.k1, t.keys.k3, None) {
                Expansion::Outside => {
                    return Err(UnpackError::CorruptInput);
                },
                Expansion::Ended(result) => {
                    if result.is_ok() {
                        if find_v4_offset(s, t.rec.src, t.rec.dlen).is_some() {
                            return Ok(());
                        }
                    }
                },
            }
        }
        n = n + 1;
    }
    Err(UnpackError::StageDecompressionFailed { stage: DecompressionStage::ExeStage3, reason })
}

fn open_stage3(s: &mut [u8], t: &Trial) -> (r: Out<()>)
    requires
        sized(old(s)@),
    ensures
        match with_stage3(old(s)@, *t) {
            Ok(v) => r is Ok && final(s)@ == v,
            Err(e) => r == Err::<(), UnpackError>(e),
        },
        final(s)@.len() == old(s)@.len(),
{
    let rec: Record = t.rec;
    let len: usize = s.len();
    if rec.src as u64 + rec.slen as u64 > len as u64 {
        return Err(
            UnpackError::BufferRangeOutOfBounds {
                operation: BufferOperation::Read,
                offset: rec.src as usize,
                size: rec.slen as usize,
                buffer_len: len,
            },
        );
    }
    if rec.dest as u64 + rec.dlen as u64 > len as u64 {
        return Err(
            UnpackError::BufferRangeOutOfBounds {
                operation: BufferOperation::CopyDestination,
                offset: rec.dest as usize,
                size: rec.dlen as usize,
                buffer_len: len,
            },
        );
    }
    let small: bool = rec.slen as u64 + rec.dlen as u64 <= MAX_TRIAL_BYTES;
    let ghost kept = s@;
    let mut src_kept: Vec<u8> = Vec::new();
    let mut dest_kept: Vec<u8> = Vec::new();
    if small {
        src_kept = sub_vec(s, rec.src as usize, rec.src as usize + rec.slen as usize);
        dest_kept = sub_vec(s, rec.dest as usize, rec.dest as usize + rec.dlen as usize);
    }
    let key: u32 = t.base ^ advance_key(t.seed, 4);
    match open_checked(s, t.at, key, t.keys.k1, t.keys.k3, None) {
        Expansion::Outside => Err(UnpackError::CorruptInput),
        Expansion::Ended(Ok(_)) => Ok(()),
        Expansion::Ended(Err(reason)) => {
            if !small {
                return Err(
                    UnpackError::StageDecompressionFailed {
                        stage: DecompressionStage::ExeStage3,
                        reason,
                    },
                );
            }
            retry_stage3(s, &src_kept, &dest_kept, t, reason, Ghost(kept))
        },
    }
}

/// `"Virtual"`.
pub open spec fn virtual_name() -> Seq<u8> {
    seq![0x56u8, 0x69u8, 0x72u8, 0x74u8, 0x75u8, 0x61u8, 0x6Cu8]
}

/// `"IsDebuggerPresent"`.
pub open spec fn debugger_name() -> Seq<u8> {
    seq![
        0x49u8, 0x73u8, 0x44u8, 0x65u8, 0x62u8, 0x75u8, 0x67u8, 0x67u8, 0x65u8, 0x72u8, 0x50u8,
        0x72u8, 0x65u8, 0x73u8, 0x65u8, 0x6Eu8, 0x74u8,
    ]
}

/// `"CheckRemoteDebuggerPresent"`.
pub open spec fn remote_name() -> Seq<u8> {
    seq![
        0x43u8, 0x68u8, 0x65u8, 0x63u8, 0x6Bu8, 0x52u8, 0x65u8, 0x6Du8, 0x6Fu8, 0x74u8, 0x65u8,
        0x44u8, 0x65u8, 0x62u8, 0x75u8, 0x67u8, 0x67u8, 0x65u8, 0x72u8, 0x50u8, 0x72u8, 0x65u8,
        0x73u8, 0x65u8, 0x6Eu8, 0x74u8,
    ]
}

/// The image with both parts of the third stage opened.
pub open spec fn past_stage3(s: Seq<u8>, c: Config, x: Stage2, keys: Keys) -> Out<(Seq<u8>, Record)> {
    let at1 = c.stage1.wrapping_add(x.off.wrapping_add(88));
    let at2 = c.stage1.wrapping_add(x.off.wrapping_add(104));
    let seed_at = c.stage1.wrapping_add(x.sources.wrapping_sub(16));
    match checksum(s, c.anchor.wrapping_add((48 + c.extra) as u32)) {
        None => corrupt(),
        Some(chk2) => if !has4(s, seed_at) {
            corrupt()
        } else {
            match record_at(s, at1) {
                Err(e) => Err(e),
                Ok(rec) => match with_stage3(
                    s,
                    Trial { at: at1, rec, base: c.acc ^ chk2, seed: w32(s, seed_at), keys },
                ) {
                    Err(e) => Err(e),
                    Ok(t) => match record_at(t, at2) {
                        Err(e) => Err(e),
                        Ok(rec2) => match checksum(
                            t,
                            c.stage1.wrapping_add(x.sources.wrapping_add(24)),
                        ) {
                            None => corrupt(),
                            Some(chk3) => {
                                let v4 = or_else(
                                    v4_offset(t, rec.src, rec.dlen),
                                    rec.src.wrapping_add(4692),
                                );
                                if !has4(t, v4) {
                                    corrupt()
                                } else {
                                    match staged(
                                        t,
                                        at2,
                                        c.acc ^ chk3 ^ w32(t, v4),
                                        keys,
                                        None,
                                        DecompressionStage::ExeStage3Secondary,
                                    ) {
                                        Err(e) => Err(e),
                                        Ok(u) => Ok((u, rec2)),
                                    }
                                }
                            },
                        },
                    },
                },
            }
        },
    }
}

fn open_both3(s: &mut [u8], c: &Config, x: &Stage2, keys: &Keys) -> (r: Out<Record>)
    requires
        sized(old(s)@),
        c.extra <= 8,
    ensures
        match past_stage3(old(s)@, *c, *x, *keys) {
            Ok((v, rec)) => r == Ok::<Record, UnpackError>(rec) && final(s)@ == v,
            Err(e) => r == Err::<Record, UnpackError>(e),
        },
        final(s)@.len() == old(s)@.len(),
{
    let chk2: u32 = sum(s, c.anchor.wrapping_add(48 + c.extra))?;
    let seed: u32 = rd32(s, c.stage1.wrapping_add(x.sources.wrapping_sub(16)))?;
    let at1: u32 = c.stage1.wrapping_add(x.off.wrapping_add(88));
    let rec: Record = read_record(s, at1)?;
    let t: Trial = Trial {
        at: at1,
        rec,
        base: c.acc ^ chk2,
        seed,
        keys: Keys { k0: keys.k0, k1: keys.k1, k2: keys.k2, k3: keys.k3 },
    };
    open_stage3(s, &t)?;
    let at2: u32 = c.stage1.wrapping_add(x.off.wrapping_add(104));
    let rec2: Record = read_record(s, at2)?;
    let chk3: u32 = sum(s, c.stage1.wrapping_add(x.sources.wrapping_add(24)))?;
    let v4: u32 = either(find_v4_offset(s, rec.src, rec.dlen), rec.src.wrapping_add(4692));
    let v: u32 = rd32(s, v4)?;
    open_stage(s, at2, c.acc ^ chk3 ^ v, keys, None, DecompressionStage::ExeStage3Secondary)?;
    Ok(rec2)
}

/// The image with the fourth stage opened, its record, and the checksum that the
/// fifth stage's key needs.
pub open spec fn past_stage4(
    s: Seq<u8>,
    c: Config,
    x: Stage2,
    keys: Keys,
    rec3: Record,
) -> Out<(Seq<u8>, Record, u32)> {
    let at3 = c.stage1.wrapping_add(x.off.wrapping_add(136));
    match checksum(s, c.stage1.wrapping_add(x.sources.wrapping_add(16))) {
        None => corrupt(),
        Some(chk4) => {
            let v5 = match str_pos(s, rec3.src, rec3.dlen, virtual_name()) {
                Some(p) => p.wrapping_sub(8),
                None => rec3.src.wrapping_add(1960),
            };
            if !has4(s, v5) {
                corrupt()
            } else {
                match record_at(s, at3) {
                    Err(e) => Err(e),
                    Ok(rec4) => match staged(
                        s,
                        at3,
                        c.acc ^ chk4 ^ !w32(s, v5),
                        keys,
                        None,
                        DecompressionStage::ExeStage4,
                    ) {
                        Err(e) => Err(e),
                        Ok(t) => Ok((t, rec4, chk4)),
                    },
                }
            }
        },
    }
}

fn open_stage4(s: &mut [u8], c: &Config, x: &Stage2, keys: &Keys, rec3: &Record) -> (r: Out<
    (Record, u32),
>)
    ensures
        match past_stage4(old(s)@, *c, *x, *keys, *rec3) {
            Ok((v, rec, k)) => r == Ok::<(Record, u32), UnpackError>((rec, k)) && final(s)@ == v,
            Err(e) => r == Err::<(Record, u32), UnpackError>(e),
        },
        final(s)@.len() == old(s)@.len(),
{
    let chk4: u32 = sum(s, c.stage1.wrapping_add(x.sources.wrapping_add(16)))?;
    let name: Vec<u8> = vec![0x56u8, 0x69u8, 0x72u8, 0x74u8, 0x75u8, 0x61u8, 0x6Cu8];
    assert(name@ =~= virtual_name());
    let v5: u32 = match find_str_pos(s, rec3.src, rec3.dlen, &name) {
        Some(p) => p.wrapping_sub(8),
        None => rec3.src.wrapping_add(1960),
    };
    let v: u32 = rd32(s, v5)?;
    let at3: u32 = c.stage1.wrapping_add(x.off.wrapping_add(136));
    let rec4: Record = read_record(s, at3)?;
    open_stage(s, at3, c.acc ^ chk4 ^ !v, keys, None, DecompressionStage::ExeStage4)?;
    Ok((rec4, chk4))
}

/// Where the transform of the fourth stage stands: the bytecode block found
/// there, or else the next multiple of sixteen behind a well-known name.
pub open spec fn transform4(s: Seq<u8>, rec: Record) -> u32 {
    match bytecode_near(s, rec.src, rec.dlen) {
        Some(o) => o,
        None => or_else(
            str_pos(s, rec.src, rec.dlen, remote_name()),
            rec.src.wrapping_add(3553),
        ).wrapping_add(27).wrapping_add(15) & !15u32,
    }
}

/// Where the seed of the fifth stage's counter stands.
pub open spec fn seed5(s: Seq<u8>, rec: Record, idb: u32) -> u32 {
    or_else(v_after_pad(s, rec.src, rec.dlen), idb.wrapping_sub(24))
}

/// The image with the fifth stage opened, and its record.
pub open spec fn past_stage5(
    s: Seq<u8>,
    c: Config,
    x: Stage2,
    keys: Keys,
    rec4: Record,
    chk4: u32,
) -> Out<(Seq<u8>, Record)> {
    let idb = or_else(
        str_pos(s, rec4.src, rec4.dlen, debugger_name()),
        rec4.src.wrapping_add(3528),
    );
    let o = transform4(s, rec4);
    let at4 = c.stage1.wrapping_add(x.off.wrapping_add(216));
    if !block6_in_range(s, o) {
        corrupt()
    } else {
        let t = block6(s, o);
        match checksum(t, c.stage1.wrapping_add(x.sources.wrapping_add(8))) {
            None => corrupt(),
            Some(chk5) => {
                let v6 = seed5(t, rec4, idb);
                if !has4(t, v6) {
                    corrupt()
                } else {
                    match transform_at(t, o as int) {
                        None => Err(
                            UnpackError::BytecodeGenerationFailed(BytecodeStage::ExeStage4),
                        ),
                        Some(ops) => match record_at(t, at4) {
                            Err(e) => Err(e),
                            Ok(rec5) => match staged(
                                t,
                                at4,
                                c.acc ^ chk4 ^ chk5 ^ advanced_key(w32(t, v6), 3),
                                keys,
                                Some(ops),
                                DecompressionStage::ExeStage5,
                            ) {
                                Err(e) => Err(e),
                                Ok(u) => Ok((u, rec5)),
                            },
                        },
                    }
                }
            },
        }
    }
}

fn find_transform4(s: &[u8], rec: &Record) -> (r: u32)
    ensures
        r == transform4(s@, *rec),
{
    match find_bytecode_near(s, rec.src, rec.dlen) {
        Some(o) => o,
        None => {
            let name: Vec<u8> = vec![
                0x43u8, 0x68u8, 0x65u8, 0x63u8, 0x6Bu8, 0x52u8, 0x65u8, 0x6Du8, 0x6Fu8, 0x74u8,
                0x65u8, 0x44u8, 0x65u8, 0x62u8, 0x75u8, 0x67u8, 0x67u8, 0x65u8, 0x72u8, 0x50u8,
                0x72u8, 0x65u8, 0x73u8, 0x65u8, 0x6Eu8, 0x74u8,
            ];
            assert(name@ =~= remote_name());
            let p: u32 = either(
                find_str_pos(s, rec.src, rec.dlen, &name),
                rec.src.wrapping_add(3553),
            );
            p.wrapping_add(27).wrapping_add(15) & !15u32
        },
    }
}

fn open_stage5(
    s: &mut [u8],
    c: &Config,
    x: &Stage2,
    keys: &Keys,
    rec4: &Record,
    chk4: u32,
) -> (r: Out<Record>)
    ensures
        match past_stage5(old(s)@, *c, *x, *keys, *rec4, chk4) {
            Ok((v, rec)) => r == Ok::<Record, UnpackError>(rec) && final(s)@ == v,
            Err(e) => r == Err::<Record, UnpackError>(e),
        },
        final(s)@.len() == old(s)@.len(),
{
    let name: Vec<u8> = vec![
        0x49u8, 0x73u8, 0x44u8, 0x65u8, 0x62u8, 0x75u8, 0x67u8, 0x67u8, 0x65u8, 0x72u8, 0x50u8,
        0x72u8, 0x65u8, 0x73u8, 0x65u8, 0x6Eu8, 0x74u8,
    ];
    assert(name@ =~= debugger_name());
    let idb: u32 = either(
        find_str_pos(s, rec4.src, rec4.dlen, &name),
        rec4.src.wrapping_add(3528),
    );
    let o: u32 = find_transform4(s, rec4);
    dec6(s, o)?;
    let chk5: u32 = sum(s, c.stage1.wrapping_add(x.sources.wrapping_add(8)))?;
    let v6: u32 = either(
        find_v_after_pad(s, rec4.src, rec4.dlen),
        idb.wrapping_sub(24),
    );
    let seed: u32 = rd32(s, v6)?;
    let count: u32 = advance_key(seed, 3);
    let ops: Vec<Op> = match generate(s, o as usize) {
        Some(v) => v,
        None => return Err(UnpackError::BytecodeGenerationFailed(BytecodeStage::ExeStage4)),
    };
    let at4: u32 = c.stage1.wrapping_add(x.off.wrapping_add(216));
    let rec5: Record = read_record(s, at4)?;
    open_stage(
        s,
        at4,
        c.acc ^ chk4 ^ chk5 ^ count,
        keys,
        Some(&ops),
        DecompressionStage::ExeStage5,
    )?;
    Ok(rec5)
}

/// The image with stages three to five opened, and the fifth stage's record.
pub open spec fn past_stages(s: Seq<u8>, c: Config, x: Stage2, keys: Keys) -> Out<(Seq<u8>, Record)> {
    match past_stage3(s, c, x, keys) {
        Err(e) => Err(e),
        Ok((a, rec3)) => match past_stage4(a, c, x, keys, rec3) {
            Err(e) => Err(e),
            Ok((b, rec4, chk4)) => past_stage5(b, c, x, keys, rec4, chk4),
        },
    }
}

/// Open stages three to five.
pub fn open_stages(s: &mut [u8], c: &Config, x: &Stage2, keys: &Keys) -> (r: Out<Record>)
    requires
        sized(old(s)@),
        c.extra <= 8,
    ensures
        match past_stages(old(s)@, *c, *x, *keys) {
            Ok((v, rec)) => r == Ok::<Record, UnpackError>(rec) && final(s)@ == v,
            Err(e) => r == Err::<Record, UnpackError>(e),
        },
        final(s)@.len() == old(s)@.len(),
{
    let rec3: Record = open_both3(s, c, x, keys)?;
    let (rec4, chk4): (Record, u32) = open_stage4(s, c, x, keys, &rec3)?;
    open_stage5(s, c, x, keys, &rec4, chk4)
}

} // verus!
