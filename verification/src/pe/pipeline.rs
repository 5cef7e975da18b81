//! The unpacking pipelines.

use vstd::prelude::*;

use crate::bytecode::Op;
use crate::bytes::le32;
use crate::ciphers::header_field;
use crate::error::{UnpackError, MAX_IMAGE_SIZE};
use crate::pe::compact::{compact_checked, compacted, compacted_file_is_aligned};
use crate::pe::config64::{
    configure, configured, open_stage2, open_tables, with_stage2, with_tables, Config, Stage2,
};
use crate::pe::eighth32::{open_past_eighth, past_eighth, Cluster};
use crate::pe::finish32;
use crate::pe::finish64;
use crate::pe::load::{load, loaded, Loaded, HEADER_LEN};
use crate::pe::output32::{idata_kept, idata_kept_checked, imports_moved, move_imports_checked};
use crate::pe::sections64::{find_layout, layout_of, load_sections, with_sections, Layout};
use crate::pe::stage::{Keys, Record};
use crate::pe::stages32::{open_to_seventh, past_seventh, Opened};
use crate::pe::stages64::{open_stages, past_stages};
use crate::pe::steps::{corrupt, has2, rd16, sized, w16, w32, Out};

verus! {

/// The loaded 64-bit image unpacked; `info3`, `info5` and `info6` are fields of
/// the file's own header.
pub open spec fn unpacked64(
    s: Seq<u8>,
    f: Seq<u8>,
    pe: u32,
    info3: u32,
    info5: u32,
    info6: u32,
    forced: Option<u32>,
) -> Out<Seq<u8>> {
    match configured(s, pe, info3, info6) {
        Err(e) => Err(e),
        Ok((a, c)) => match with_stage2(a, c, info3, info5) {
            Err(e) => Err(e),
            Ok((b, x)) => match with_tables(b, x.stage2, info3) {
                Err(e) => Err(e),
                Ok((d, keys)) => match past_stages(d, c, x, keys) {
                    Err(e) => Err(e),
                    Ok((g, rec)) => match layout_of(g, f, rec, info3) {
                        Err(e) => Err(e),
                        Ok(l) => match with_sections(g, f, keys, l) {
                            Err(e) => Err(e),
                            Ok(h) => finish64::finished(h, f, pe, info3, c, l, forced),
                        },
                    },
                },
            },
        },
    }
}

fn run(s: &mut [u8], f: &[u8], pe: u32, info: &[u32; 8], forced: Option<u32>) -> (r: Out<()>)
    requires
        sized(old(s)@),
    ensures
        match unpacked64(old(s)@, f@, pe, info@[3], info@[5], info@[6], forced) {
            Ok(v) => r is Ok && final(s)@ == v,
            Err(e) => r == Err::<(), UnpackError>(e),
        },
        final(s)@.len() == old(s)@.len(),
{
    let c: Config = configure(s, pe, info[3], info[6])?;
    let x: Stage2 = open_stage2(s, c, info[3], info[5])?;
    let keys: Keys = open_tables(s, x.stage2, info[3])?;
    let rec: Record = open_stages(s, &c, &x, &keys)?;
    let l: Layout = find_layout(s, f, &rec, info[3])?;
    load_sections(s, f, &keys, &l)?;
    finish64::finish(s, f, pe, info[3], &c, &l, forced)
}

/// The finished 32-bit image as a file: a program's import directory is moved
/// unless it lies as it did before protection.
pub open spec fn written32(s: Seq<u8>, pe: u32) -> Out<Seq<u8>> {
    if !has2(s, pe.wrapping_add(22)) {
        corrupt()
    } else {
        let moved = if w16(s, pe.wrapping_add(22)) & 0x2000u16 != 0 {
            Ok(s)
        } else {
            match idata_kept(s, pe) {
                Err(e) => Err(e),
                Ok((a, kept)) => if kept {
                    Ok(a)
                } else {
                    imports_moved(a, pe)
                },
            }
        };
        match moved {
            Err(e) => Err(e),
            Ok(b) => match compacted(b, pe) {
                Err(e) => Err(e),
                Ok(None) => Err(UnpackError::Pe32OutputLayoutInvalid),
                Ok(Some(c)) => Ok(c),
            },
        }
    }
}

fn write32(img: &mut Vec<u8>, pe: u32) -> (r: Out<Vec<u8>>)
    requires
        sized(old(img)@),
    ensures
        match written32(old(img)@, pe) {
            Ok(v) => r is Ok && r->Ok_0@ == v,
            Err(e) => r is Err && r->Err_0 == e,
        },
        r matches Ok(v) ==> v@.len() % 0x200 == 0 && 0x400 <= v@.len() <= MAX_IMAGE_SIZE,
{
    let kind: u16 = rd16(img, pe.wrapping_add(22))?;
    if kind & 0x2000u16 == 0 {
        if !idata_kept_checked(img, pe)? {
            move_imports_checked(img, pe)?;
        }
    }
    proof {
        compacted_file_is_aligned(img@, pe);
    }
    match compact_checked(img, pe)? {
        Some(v) => Ok(v),
        None => Err(UnpackError::Pe32OutputLayoutInvalid),
    }
}

/// The loaded 32-bit image unpacked.
pub open spec fn unpacked32(s: Seq<u8>, f: Seq<u8>, pe: u32, info3: u32, info6: u32) -> Out<Seq<u8>> {
    match past_seventh(s, pe, info6) {
        Err(e) => Err(e),
        Ok((a, o)) => match past_eighth(a, f, o, info3) {
            Err(e) => Err(e),
            Ok((b, start, c, ops)) => match finish32::finished(
                b,
                f,
                pe,
                info3,
                o.keys,
                start,
                c,
                ops,
            ) {
                Err(e) => Err(e),
                Ok(d) => written32(d, pe),
            },
        },
    }
}

fn run_pe32(img: &mut Vec<u8>, f: &[u8], pe: u32, info: &[u32; 8]) -> (r: Out<Vec<u8>>)
    requires
        sized(old(img)@),
    ensures
        match unpacked32(old(img)@, f@, pe, info@[3], info@[6]) {
            Ok(v) => r is Ok && r->Ok_0@ == v,
            Err(e) => r is Err && r->Err_0 == e,
        },
        r matches Ok(v) ==> v@.len() % 0x200 == 0 && 0x400 <= v@.len() <= MAX_IMAGE_SIZE,
{
    let o: Opened = open_to_seventh(img, pe, info)?;
    let (start, c, ops): (u32, Cluster, Vec<Op>) = open_past_eighth(img, f, &o, info[3])?;
    finish32::finish(img, f, pe, info[3], &o.keys, start, &c, &ops)?;
    write32(img, pe)
}

/// What a protected file unpacks to, or why it does not. `supported` holds the
/// header magics that are known; `forced` overrides the shift of the page keys of
/// a 64-bit image.
pub open spec fn unpacked(f: Seq<u8>, supported: Seq<u32>, forced: Option<u32>) -> Out<Seq<u8>> {
    if f.len() < HEADER_LEN {
        Err(UnpackError::InputTooShort { actual: f.len() as usize, required: HEADER_LEN })
    } else {
        match loaded(f, supported) {
            Err(e) => Err(e),
            Ok(l) => if l.magic == 0x10B {
                unpacked32(l.img, f, l.pe_off, header_field(f, 3), header_field(f, 6))
            } else {
                unpacked64(
                    l.img,
                    f,
                    l.pe_off,
                    header_field(f, 3),
                    header_field(f, 5),
                    header_field(f, 6),
                    forced,
                )
            },
        }
    }
}

/// Whether an unpacked file has the size that it should: a 64-bit one is an image of
/// the size that the header names, a 32-bit one a file of whole units of 0x200
/// bytes.
pub open spec fn has_its_size(f: Seq<u8>, v: Seq<u8>) -> bool {
    let pe = le32(f, 60);
    if w16(f, pe.wrapping_add(24)) == 0x10B {
        v.len() % 0x200 == 0 && 0x400 <= v.len() <= MAX_IMAGE_SIZE
    } else {
        v.len() == w32(f, pe.wrapping_add(80))
    }
}

/// [`unpack`], with the shift of the page keys of a 64-bit image's code given:
/// below 32, or 99 for plain code. Another shift fails where it is needed.
pub fn unpack_v(input: &[u8], supported: &[u32], dd8_shift: Option<u32>) -> (r: Out<Vec<u8>>)
    ensures
        match unpacked(input@, supported@, dd8_shift) {
            Ok(v) => r is Ok && r->Ok_0@ == v,
            Err(e) => r is Err && r->Err_0 == e,
        },
        r matches Ok(v) ==> has_its_size(input@, v@),
{
    if input.len() < HEADER_LEN {
        return Err(UnpackError::InputTooShort { actual: input.len(), required: HEADER_LEN });
    }
    let l: Loaded = load(input, supported)?;
    let mut img: Vec<u8> = l.img;
    if l.magic == 0x10B {
        return run_pe32(&mut img, input, l.pe_off, &l.info);
    }
    run(&mut img, input, l.pe_off, &l.info, dd8_shift)?;
    Ok(img)
}

/// Unpack a protected executable. `supported` holds the header magics that are
/// known.
pub fn unpack(input: &[u8], supported: &[u32]) -> (r: Out<Vec<u8>>)
    ensures
        match unpacked(input@, supported@, None) {
            Ok(v) => r is Ok && r->Ok_0@ == v,
            Err(e) => r is Err && r->Err_0 == e,
        },
        r matches Ok(v) ==> has_its_size(input@, v@),
{
    unpack_v(input, supported, None)
}

} // verus!
