//! 32-bit images: the sections, the headers and the imports.

use vstd::prelude::*;

use crate::bytecode::Op;
use crate::bytes::{le32, put16, put32, zeroed};
use crate::ciphers::data7;
use crate::error::{SectionPipeline, UnpackError};
use crate::pe::blocks::{open_records, place_blocks, records, with_blocks};
use crate::pe::dd8::{
    dd8_formula, formula_key, key_by_formula, page_inside, page_pass, page_pass_checked,
    samples_addressable, samples_are_addressable, select_dd8_formula_pe32,
};
use crate::pe::discovery::{data5, string_bytes, string_bytes_at};
use crate::pe::eighth32::Cluster;
use crate::pe::headers::{
    begins, begins_with, blank, clear_directory, directory_cleared, is_blank, restore_headers,
    restore_tls, set_flags, with_flags, with_headers, with_tls, Found,
};
use crate::pe::sections64::file_rebase;
use crate::pe::stage::{Keys, Record};
use crate::pe::steps::{
    clear, corrupt, cut, dec5, dec7, has2, has4, paste, pasted, rd16, rd32, sized, w16, w32, wr16,
    wr32, Out,
};

verus! {

/// The entry point and the data directories that the payload holds enciphered, in
/// either of two places.
pub open spec fn metadata(s: Seq<u8>, info3: u32) -> Out<(u32, Seq<u8>)> {
    let p = info3.wrapping_add(0x10);
    if !has4(s, p) {
        corrupt()
    } else {
        let late = w32(s, p) <= 0x1_0000;
        let o = if late {
            info3.wrapping_add(0x40)
        } else {
            p
        };
        let n = if late {
            144
        } else {
            0x290int
        };
        let ep = if late {
            o as int
        } else {
            o + 0x10
        };
        if o + n > s.len() || o + n > u32::MAX {
            corrupt()
        } else {
            let t = data5(s, o as int, n);
            Ok((le32(t, ep), t.subrange(ep + 0x10, ep + 0x90)))
        }
    }
}

fn read_metadata(s: &[u8], info3: u32) -> (r: Out<(u32, Vec<u8>)>)
    requires
        sized(s@),
    ensures
        match metadata(s@, info3) {
            Ok((ep, dirs)) => r is Ok && r->Ok_0.0 == ep && r->Ok_0.1@ == dirs && dirs.len() == 128,
            Err(e) => r is Err && r->Err_0 == e,
        },
{
    let p: u32 = info3.wrapping_add(0x10);
    let late: bool = rd32(s, p)? <= 0x1_0000;
    let len: usize = s.len();
    let o: u32 = if late {
        info3.wrapping_add(0x40)
    } else {
        p
    };
    let n: u32 = if late {
        144
    } else {
        0x290
    };
    if o as u64 + n as u64 > len as u64 {
        return Err(UnpackError::CorruptInput);
    }
    let ep: u32 = if late {
        o
    } else {
        o + 0x10
    };
    let mut t: Vec<u8> = cut(s, 0, o as usize + n as usize)?;
    dec5(&mut t, o, n)?;
    let ghost whole = data5(s@, o as int, n as int);
    assert(t@ =~= whole.subrange(0, o + n));
    let entry: u32 = rd32(&t, ep)?;
    let dirs: Vec<u8> = cut(&t, ep as usize + 0x10, 0x80)?;
    assert(dirs@ =~= whole.subrange(ep + 0x10, ep + 0x90));
    Ok((entry, dirs))
}

/// The image with the ranges cleared that the chain of descriptors from `p` on
/// names, up to one that is empty or ends outside the image.
pub open spec fn zeros_done(s: Seq<u8>, p: u32) -> Out<Seq<u8>>
    decreases u32::MAX - p,
{
    if p + 16 > s.len() || p + 16 > u32::MAX {
        corrupt()
    } else {
        let t = data5(s, p as int, 16);
        let o = w32(t, p);
        let n = w32(t, (p + 4) as u32);
        if n == 0 || o.wrapping_add(n) > s.len() {
            Ok(t)
        } else if o + n > u32::MAX {
            corrupt()
        } else {
            zeros_done(zeroed(t, o as int, n as int), (p + 16) as u32)
        }
    }
}

fn do_zeros(s: &mut [u8], start: u32) -> (r: Out<()>)
    requires
        sized(old(s)@),
    ensures
        match zeros_done(old(s)@, start) {
            Ok(v) => r is Ok && final(s)@ == v,
            Err(e) => r == Err::<(), UnpackError>(e),
        },
        final(s)@.len() == old(s)@.len(),
{
    let len: usize = s.len();
    let mut p: u32 = start;
    loop
        invariant
            sized(s@),
            len == s@.len() == old(s)@.len(),
            zeros_done(old(s)@, start) == zeros_done(s@, p),
        decreases u32::MAX - p,
    {
        dec5(s, p, 16)?;
        let o: u32 = rd32(s, p)?;
        let n: u32 = rd32(s, p + 4)?;
        if n == 0 || o.wrapping_add(n) as usize > len {
            return Ok(());
        }
        if n > 0xFFFF_FFFF - o {
            return Err(UnpackError::CorruptInput);
        }
        clear(s, o as usize, n as usize)?;
        p = p + 16;
    }
}

/// The image with its sections loaded; `start` is where the eighth stage starts.
pub open spec fn with_sections(
    s: Seq<u8>,
    f: Seq<u8>,
    keys: Keys,
    start: u32,
    c: Cluster,
    ops: Seq<Op>,
) -> Out<Seq<u8>> {
    let p = start.wrapping_add(c.zeros);
    let q = start.wrapping_add(c.blocks);
    if !has4(s, p) {
        corrupt()
    } else {
        match zeros_done(s, w32(s, p)) {
            Err(e) => Err(e),
            Ok(a) => if !has4(f, 4224) || !has4(a, q) {
                corrupt()
            } else {
                match records(a, w32(a, q), Seq::empty()) {
                    Err(e) => Err(e),
                    Ok((b, rs, _)) => with_blocks(
                        b,
                        f,
                        rs,
                        file_rebase(f),
                        keys.k0,
                        keys.k2,
                        ops,
                        SectionPipeline::ExePe32,
                    ),
                }
            },
        }
    }
}

fn load_sections(s: &mut [u8], f: &[u8], keys: &Keys, start: u32, c: &Cluster, ops: &Vec<Op>) -> (r:
    Out<()>)
    requires
        sized(old(s)@),
    ensures
        match with_sections(old(s)@, f@, *keys, start, *c, ops@) {
            Ok(v) => r is Ok && final(s)@ == v,
            Err(e) => r == Err::<(), UnpackError>(e),
        },
        final(s)@.len() == old(s)@.len(),
{
    let z: u32 = rd32(s, start.wrapping_add(c.zeros))?;
    do_zeros(s, z)?;
    let rebase: u32 = (!rd32(f, 4224)?).wrapping_add(4096);
    let q: u32 = rd32(s, start.wrapping_add(c.blocks))?;
    let (rs, p): (Vec<Record>, u32) = open_records(s, q)?;
    place_blocks(s, f, &rs, rebase, keys.k0, keys.k2, ops, SectionPipeline::ExePe32)
}

/// The image after the pass over the pages of its code from number `page` on.
pub open spec fn pages_passed(s: Seq<u8>, va: u32, page: u32, n: u32, big: bool) -> Out<Seq<u8>>
    decreases n - page,
{
    let p = va.wrapping_add(page.wrapping_mul(0x1000));
    if page >= n {
        Ok(s)
    } else if !page_inside(s, p, formula_key(big, page), 256) {
        corrupt()
    } else {
        pages_passed(
            page_pass(s, p, formula_key(big, page), 256),
            va,
            (page + 1) as u32,
            n,
            big,
        )
    }
}

/// The image with its code deciphered.
pub open spec fn code_passed(s: Seq<u8>, w: Found) -> Out<Seq<u8>> {
    if w.text_size == 0 || w.text_va == 0 {
        Ok(s)
    } else if !samples_addressable(w.text_va, w.text_size) {
        corrupt()
    } else {
        match dd8_formula(s, w.text_va, w.text_size) {
            None => Ok(s),
            Some(big) => pages_passed(s, w.text_va, 0, w.text_size / 0x1000, big),
        }
    }
}

fn pass_code(s: &mut [u8], w: &Found) -> (r: Out<()>)
    ensures
        match code_passed(old(s)@, *w) {
            Ok(v) => r is Ok && final(s)@ == v,
            Err(e) => r == Err::<(), UnpackError>(e),
        },
        final(s)@.len() == old(s)@.len(),
{
    if w.text_size == 0 || w.text_va == 0 {
        return Ok(());
    }
    if !samples_are_addressable(w.text_va, w.text_size) {
        return Err(UnpackError::CorruptInput);
    }
    let big: bool = match select_dd8_formula_pe32(s, w.text_va, w.text_size) {
        Some(big) => big,
        None => return Ok(()),
    };
    let n: u32 = w.text_size / 0x1000;
    let mut page: u32 = 0;
    while page < n
        invariant
            page <= n,
            s@.len() == old(s)@.len(),
            code_passed(old(s)@, *w) == pages_passed(s@, w.text_va, page, n, big),
        decreases n - page,
    {
        let p: u32 = w.text_va.wrapping_add(page.wrapping_mul(0x1000));
        if !page_pass_checked(s, p, key_by_formula(big, page)) {
            return Err(UnpackError::CorruptInput);
        }
        page = page + 1;
    }
    Ok(())
}

/// `".tls"`.
pub open spec fn tls_name() -> Seq<u8> {
    seq![0x2Eu8, 0x74u8, 0x6Cu8, 0x73u8]
}

/// `".data"`.
pub open spec fn data_name() -> Seq<u8> {
    seq![0x2Eu8, 0x64u8, 0x61u8, 0x74u8, 0x61u8]
}

/// Where two sections lie.
#[derive(Debug, Clone, Copy, PartialEq, Eq, Structural)]
pub struct Places {
    pub tls: u32,
    pub data: u32,
    pub data_size: u32,
}

/// The places of the last `.tls` and `.data` among the section headers from
/// number `i` on, or those of `w`.
pub open spec fn places_from(s: Seq<u8>, table: u32, i: u32, n: u32, w: Places) -> Out<Places>
    decreases n - i,
{
    if i >= n {
        Ok(w)
    } else {
        let p = table.wrapping_add((i * 40) as u32);
        let name = string_bytes(s, p);
        if !has4(s, p.wrapping_add(12)) || !has4(s, p.wrapping_add(16)) {
            corrupt()
        } else {
            let va = w32(s, p.wrapping_add(12));
            let is_data = begins(name, data_name());
            places_from(
                s,
                table,
                (i + 1) as u32,
                n,
                Places {
                    tls: if begins(name, tls_name()) {
                        va
                    } else {
                        w.tls
                    },
                    data: if is_data {
                        va
                    } else {
                        w.data
                    },
                    data_size: if is_data {
                        w32(s, p.wrapping_add(16))
                    } else {
                        w.data_size
                    },
                },
            )
        }
    }
}

fn find_places(s: &[u8], table: u32, n: u32) -> (r: Out<Places>)
    requires
        n <= 0xFFFF,
    ensures
        r == places_from(s@, table, 0, n, Places { tls: 0, data: 0, data_size: 0 }),
{
    let tls: Vec<u8> = vec![0x2Eu8, 0x74u8, 0x6Cu8, 0x73u8];
    assert(tls@ =~= tls_name());
    let data: Vec<u8> = vec![0x2Eu8, 0x64u8, 0x61u8, 0x74u8, 0x61u8];
    assert(data@ =~= data_name());
    let mut w: Places = Places { tls: 0, data: 0, data_size: 0 };
    let mut i: u32 = 0;
    while i < n
        invariant
            i <= n <= 0xFFFF,
            tls@ == tls_name(),
            data@ == data_name(),
            places_from(s@, table, 0, n, Places { tls: 0, data: 0, data_size: 0 }) == places_from(
                s@,
                table,
                i,
                n,
                w,
            ),
        decreases n - i,
    {
        let p: u32 = table.wrapping_add(i * 40);
        let name: Vec<u8> = string_bytes_at(s, p);
        let va: u32 = rd32(s, p.wrapping_add(12))?;
        let size: u32 = rd32(s, p.wrapping_add(16))?;
        if begins_with(&name, &tls) {
            w.tls = va;
        }
        if begins_with(&name, &data) {
            w.data = va;
            w.data_size = size;
        }
        i = i + 1;
    }
    Ok(w)
}

/// The image with an empty thread-local-storage directory at `rva`, its index and
/// callbacks in the last bytes of `.data`.
pub open spec fn with_placeholder(s: Seq<u8>, rva: u32, base: u32, w: Places) -> Out<Seq<u8>> {
    let end = base.wrapping_add(w.data).wrapping_add(w.data_size);
    let scratch = w.data + w.data_size - 16;
    if w.data + w.data_size > u32::MAX || scratch < 0 || scratch + 16 > s.len() || rva + 24
        > s.len() {
        corrupt()
    } else {
        let t = zeroed(s, scratch, 16);
        let a = put32(t, rva as int, base.wrapping_add(w.tls));
        let b = put32(a, rva + 4, base.wrapping_add(w.tls));
        let c = put32(b, rva + 8, end.wrapping_sub(16));
        let d = put32(c, rva + 12, end.wrapping_sub(8));
        Ok(put32(put32(d, rva + 16, 0), rva + 20, 0x30_0000))
    }
}

fn put_placeholder(s: &mut [u8], rva: u32, base: u32, w: &Places) -> (r: Out<()>)
    requires
        sized(old(s)@),
        rva + 24 <= old(s)@.len(),
    ensures
        match with_placeholder(old(s)@, rva, base, *w) {
            Ok(v) => r is Ok && final(s)@ == v,
            Err(e) => r == Err::<(), UnpackError>(e),
        },
        final(s)@.len() == old(s)@.len(),
{
    if w.data_size > 0xFFFF_FFFF - w.data || w.data + w.data_size < 16 {
        return Err(UnpackError::CorruptInput);
    }
    let end: u32 = base.wrapping_add(w.data).wrapping_add(w.data_size);
    clear(s, (w.data + w.data_size - 16) as usize, 16)?;
    wr32(s, rva, base.wrapping_add(w.tls))?;
    wr32(s, rva + 4, base.wrapping_add(w.tls))?;
    wr32(s, rva + 8, end.wrapping_sub(16))?;
    wr32(s, rva + 12, end.wrapping_sub(8))?;
    wr32(s, rva + 16, 0)?;
    wr32(s, rva + 20, 0x30_0000)
}

/// The image with a thread-local-storage directory that the file cannot supply
/// made empty, or dropped.
pub open spec fn with_made_tls(s: Seq<u8>, pe: u32, rva: u32, base: u32) -> Out<Seq<u8>> {
    if !has2(s, pe.wrapping_add(20)) || !has2(s, pe.wrapping_add(6)) {
        corrupt()
    } else {
        let table = pe.wrapping_add(24).wrapping_add(w16(s, pe.wrapping_add(20)) as u32);
        match places_from(
            s,
            table,
            0,
            w16(s, pe.wrapping_add(6)) as u32,
            Places { tls: 0, data: 0, data_size: 0 },
        ) {
            Err(e) => Err(e),
            Ok(w) => if w.tls > 0 && w.data > 0 {
                with_placeholder(s, rva, base, w)
            } else {
                directory_cleared(s, pe.wrapping_add(0xC0))
            },
        }
    }
}

fn make_tls(s: &mut [u8], pe: u32, rva: u32, base: u32) -> (r: Out<()>)
    requires
        sized(old(s)@),
        rva + 24 <= old(s)@.len(),
    ensures
        match with_made_tls(old(s)@, pe, rva, base) {
            Ok(v) => r is Ok && final(s)@ == v,
            Err(e) => r == Err::<(), UnpackError>(e),
        },
        final(s)@.len() == old(s)@.len(),
{
    let opt: u16 = rd16(s, pe.wrapping_add(20))?;
    let n: u16 = rd16(s, pe.wrapping_add(6))?;
    let table: u32 = pe.wrapping_add(24).wrapping_add(opt as u32);
    let w: Places = find_places(s, table, n as u32)?;
    if w.tls > 0 && w.data > 0 {
        put_placeholder(s, rva, base, &w)
    } else {
        clear_directory(s, pe.wrapping_add(0xC0))
    }
}

/// The image with a blank thread-local-storage directory restored from the file,
/// or else made.
pub open spec fn with_tls_directory(s: Seq<u8>, f: Seq<u8>, pe0: u32, pe: u32) -> Out<Seq<u8>> {
    let p = pe.wrapping_add(0xC0);
    let q = pe.wrapping_add(0xC4);
    if !has4(s, p) || !has4(s, q) {
        corrupt()
    } else {
        let rva = w32(s, p);
        if rva == 0 || w32(s, q) < 24 || rva + 24 > s.len() || !blank(s, rva as int, 24) {
            Ok(s)
        } else if !has4(s, pe.wrapping_add(52)) {
            corrupt()
        } else {
            let base = w32(s, pe.wrapping_add(52));
            match with_tls(s, f, pe0, rva, base as u64, false) {
                Err(e) => Err(e),
                Ok(Some(t)) => Ok(t),
                Ok(None) => with_made_tls(s, pe, rva, base),
            }
        }
    }
}

fn restore_tls_directory(s: &mut [u8], f: &[u8], pe0: u32, pe: u32) -> (r: Out<()>)
    requires
        sized(old(s)@),
    ensures
        match with_tls_directory(old(s)@, f@, pe0, pe) {
            Ok(v) => r is Ok && final(s)@ == v,
            Err(e) => r == Err::<(), UnpackError>(e),
        },
        final(s)@.len() == old(s)@.len(),
{
    let len: usize = s.len();
    let rva: u32 = rd32(s, pe.wrapping_add(0xC0))?;
    let size: u32 = rd32(s, pe.wrapping_add(0xC4))?;
    if rva == 0 || size < 24 || rva as u64 + 24 > len as u64 {
        return Ok(());
    }
    if !is_blank(s, rva as usize, 24) {
        return Ok(());
    }
    let base: u32 = rd32(s, pe.wrapping_add(52))?;
    if restore_tls(s, f, pe0, rva, base as u64, false)? {
        return Ok(());
    }
    make_tls(s, pe, rva, base)
}

/// Whether the import directory at `p` starts with a name and a lookup table of
/// the image.
pub open spec fn leads_imports(s: Seq<u8>, p: u32) -> bool {
    0x1000 < w32(s, (p + 12) as u32) < s.len() && 0x1000 < w32(s, p) < s.len()
}

/// The import directory, as its address and size: the one that the eighth stage
/// names, or the one of `dirs` if it is plausible and another.
pub open spec fn chosen_imports(s: Seq<u8>, p: u32, n: u32, dirs: Seq<u8>) -> (u32, u32) {
    let rva = le32(dirs, 8);
    let named = 0 < p && p + 20 <= s.len() && 0 < n < 0x1_0000 && leads_imports(s, p);
    let other = 0x1000 < rva && rva + 20 < s.len() && leads_imports(s, rva);
    if other && (!named || rva != p) {
        (rva, le32(dirs, 12))
    } else {
        (p, n)
    }
}

fn leads(s: &[u8], p: u32) -> (r: bool)
    requires
        sized(s@),
        p + 20 <= s@.len(),
    ensures
        r == leads_imports(s@, p),
{
    let len: usize = s.len();
    match (rd32(s, p + 12), rd32(s, p)) {
        (Ok(a), Ok(b)) => 0x1000 < a && (a as usize) < len && 0x1000 < b && (b as usize) < len,
        _ => false,
    }
}

fn choose_imports(s: &[u8], p: u32, n: u32, dirs: &Vec<u8>) -> (r: (u32, u32))
    requires
        sized(s@),
        dirs@.len() == 128,
    ensures
        r == chosen_imports(s@, p, n, dirs@),
{
    let len: usize = s.len();
    let (rva, size): (u32, u32) = match (rd32(dirs, 8), rd32(dirs, 12)) {
        (Ok(a), Ok(b)) => (a, b),
        _ => return (p, n),
    };
    let named: bool = 0 < p && p as u64 + 20 <= len as u64 && 0 < n && n < 0x1_0000 && leads(s, p);
    let other: bool = 0x1000 < rva && (rva as u64 + 20 < len as u64) && leads(s, rva);
    if other && (!named || rva != p) {
        (rva, size)
    } else {
        (p, n)
    }
}

/// The image with the names deciphered that the 32-bit thunks from `p` on point
/// at, their hints cleared, up to a zero thunk or the end of the image.
pub open spec fn thunks_named(s: Seq<u8>, p: u32) -> Out<Seq<u8>>
    decreases u32::MAX - p,
{
    if p + 4 > s.len() || p + 4 > u32::MAX {
        Ok(s)
    } else {
        let v = w32(s, p);
        if v == 0 {
            Ok(s)
        } else if v & 0x8000_0000u32 == 0 && v.wrapping_add(2) < s.len() {
            match data7(s, v.wrapping_add(2) as int, v as u8) {
                None => corrupt(),
                Some(t) => if has2(t, v) {
                    thunks_named(put16(t, v as int, 0), (p + 4) as u32)
                } else {
                    corrupt()
                },
            }
        } else {
            thunks_named(s, (p + 4) as u32)
        }
    }
}

fn name_thunks(s: &mut [u8], start: u32) -> (r: Out<()>)
    requires
        sized(old(s)@),
    ensures
        match thunks_named(old(s)@, start) {
            Ok(v) => r is Ok && final(s)@ == v,
            Err(e) => r == Err::<(), UnpackError>(e),
        },
        final(s)@.len() == old(s)@.len(),
{
    let len: usize = s.len();
    let mut p: u32 = start;
    while len >= 4 && p as usize <= len - 4
        invariant
            sized(s@),
            len == s@.len() == old(s)@.len(),
            thunks_named(old(s)@, start) == thunks_named(s@, p),
        decreases u32::MAX - p,
    {
        let v: u32 = rd32(s, p)?;
        if v == 0 {
            return Ok(());
        }
        if v & 0x8000_0000u32 == 0 && (v.wrapping_add(2) as usize) < len {
            let key: u8 = #[verifier::truncate]
            (v as u8);
            dec7(s, v.wrapping_add(2), key)?;
            wr16(s, v, 0)?;
        }
        p = p + 4;
    }
    Ok(())
}

/// The image with the import descriptors in `p..end` made plain, up to a blank
/// one.
pub open spec fn imports_named(s: Seq<u8>, p: u32, end: u32) -> Out<Seq<u8>>
    decreases u32::MAX - p,
{
    if p + 20 > end {
        Ok(s)
    } else if !has4(s, p) || !has4(s, (p + 12) as u32) || !has4(s, (p + 16) as u32) {
        corrupt()
    } else {
        let ilt = w32(s, p);
        let name = w32(s, (p + 12) as u32);
        let iat = w32(s, (p + 16) as u32);
        if ilt == 0 && name == 0 && iat == 0 {
            Ok(s)
        } else {
            let a = if 0 < name < s.len() {
                data7(s, name as int, name as u8)
            } else {
                Some(s)
            };
            match a {
                None => corrupt(),
                Some(t) => {
                    let first = if 0 < ilt < s.len() {
                        ilt
                    } else {
                        iat
                    };
                    let b = if 0 < first && first + 4 < s.len() {
                        thunks_named(t, first)
                    } else {
                        Ok(t)
                    };
                    match b {
                        Err(e) => Err(e),
                        Ok(u) => imports_named(u, (p + 20) as u32, end),
                    }
                },
            }
        }
    }
}

fn name_imports(s: &mut [u8], start: u32, end: u32) -> (r: Out<()>)
    requires
        sized(old(s)@),
    ensures
        match imports_named(old(s)@, start, end) {
            Ok(v) => r is Ok && final(s)@ == v,
            Err(e) => r == Err::<(), UnpackError>(e),
        },
        final(s)@.len() == old(s)@.len(),
{
    let len: usize = s.len();
    let mut p: u32 = start;
    while p as u64 + 20 <= end as u64
        invariant
            sized(s@),
            len == s@.len() == old(s)@.len(),
            imports_named(old(s)@, start, end) == imports_named(s@, p, end),
        decreases u32::MAX - p,
    {
        let ilt: u32 = rd32(s, p)?;
        let name: u32 = rd32(s, p + 12)?;
        let iat: u32 = rd32(s, p + 16)?;
        if ilt == 0 && name == 0 && iat == 0 {
            return Ok(());
        }
        if 0 < name && (name as usize) < len {
            let key: u8 = #[verifier::truncate]
            (name as u8);
            dec7(s, name, key)?;
        }
        let first: u32 = if 0 < ilt && (ilt as usize) < len {
            ilt
        } else {
            iat
        };
        if 0 < first && first as u64 + 4 < len as u64 {
            name_thunks(s, first)?;
        }
        p = p + 20;
    }
    Ok(())
}

/// The image with its imports made plain, and their directory in the header at
/// `pe`; the address-table directory is dropped.
pub open spec fn with_imports(s: Seq<u8>, pe: u32, slot: u32, dirs: Seq<u8>) -> Out<Seq<u8>> {
    if !has4(s, slot) || !has4(s, slot.wrapping_add(4)) {
        corrupt()
    } else {
        let (p, n) = chosen_imports(s, w32(s, slot), w32(s, slot.wrapping_add(4)), dirs);
        let a = if 0 < p < s.len() && 0 < n < 0x1_0000 {
            imports_named(s, p, p.wrapping_add(n))
        } else {
            Ok(s)
        };
        match a {
            Err(e) => Err(e),
            Ok(t) => if !has4(t, pe.wrapping_add(0x80)) || !has4(t, pe.wrapping_add(0x84)) {
                corrupt()
            } else {
                directory_cleared(
                    put32(
                        put32(t, pe.wrapping_add(0x80) as int, p),
                        pe.wrapping_add(0x84) as int,
                        n,
                    ),
                    pe.wrapping_add(0xD8),
                )
            },
        }
    }
}

fn restore_imports(s: &mut [u8], pe: u32, slot: u32, dirs: &Vec<u8>) -> (r: Out<()>)
    requires
        sized(old(s)@),
        dirs@.len() == 128,
    ensures
        match with_imports(old(s)@, pe, slot, dirs@) {
            Ok(v) => r is Ok && final(s)@ == v,
            Err(e) => r == Err::<(), UnpackError>(e),
        },
        final(s)@.len() == old(s)@.len(),
{
    let len: usize = s.len();
    let a: u32 = rd32(s, slot)?;
    let b: u32 = rd32(s, slot.wrapping_add(4))?;
    let (p, n): (u32, u32) = choose_imports(s, a, b, dirs);
    if 0 < p && (p as usize) < len && 0 < n && n < 0x1_0000 {
        name_imports(s, p, p.wrapping_add(n))?;
    }
    wr32(s, pe.wrapping_add(0x80), p)?;
    wr32(s, pe.wrapping_add(0x84), n)?;
    clear_directory(s, pe.wrapping_add(0xD8))
}

/// The image with its entry point, or else the file's, in the header at `pe`.
pub open spec fn with_entry(s: Seq<u8>, f: Seq<u8>, pe0: u32, pe: u32, ep: u32) -> Out<Seq<u8>> {
    let p = pe.wrapping_add(40);
    let q = pe0.wrapping_add(40);
    if !has4(s, p) || (ep == 0 && !has4(f, q)) {
        corrupt()
    } else {
        Ok(
            put32(
                s,
                p as int,
                if ep > 0 {
                    ep
                } else {
                    w32(f, q)
                },
            ),
        )
    }
}

fn put_entry(s: &mut [u8], f: &[u8], pe0: u32, pe: u32, ep: u32) -> (r: Out<()>)
    ensures
        match with_entry(old(s)@, f@, pe0, pe, ep) {
            Ok(v) => r is Ok && final(s)@ == v,
            Err(e) => r == Err::<(), UnpackError>(e),
        },
        final(s)@.len() == old(s)@.len(),
{
    let v: u32 = if ep > 0 {
        ep
    } else {
        rd32(f, pe0.wrapping_add(40))?
    };
    wr32(s, pe.wrapping_add(40), v)
}

/// The image with its directories and flags in the header at `pe`, and its
/// thread-local-storage directory, imports and entry point restored.
pub open spec fn with_header(
    s: Seq<u8>,
    f: Seq<u8>,
    pe0: u32,
    slot: u32,
    ep: u32,
    dirs: Seq<u8>,
) -> Out<Seq<u8>> {
    if !has4(s, 60) {
        corrupt()
    } else {
        let pe = w32(s, 60);
        match pasted(s, pe + 0x78, dirs, 0, 128) {
            Err(e) => Err(e),
            Ok(a) => match with_flags(a, pe, 0xA0) {
                Err(e) => Err(e),
                Ok(b) => match with_tls_directory(b, f, pe0, pe) {
                    Err(e) => Err(e),
                    Ok(c) => match with_imports(c, pe, slot, dirs) {
                        Err(e) => Err(e),
                        Ok(d) => with_entry(d, f, pe0, pe, ep),
                    },
                },
            },
        }
    }
}

fn restore_header(s: &mut [u8], f: &[u8], pe0: u32, slot: u32, ep: u32, dirs: &Vec<u8>) -> (r: Out<()>)
    requires
        sized(old(s)@),
        dirs@.len() == 128,
    ensures
        match with_header(old(s)@, f@, pe0, slot, ep, dirs@) {
            Ok(v) => r is Ok && final(s)@ == v,
            Err(e) => r == Err::<(), UnpackError>(e),
        },
        final(s)@.len() == old(s)@.len(),
{
    let len: usize = s.len();
    let pe: u32 = rd32(s, 60)?;
    if pe as u64 + 0x78 > len as u64 {
        return Err(UnpackError::CorruptInput);
    }
    paste(s, pe as usize + 0x78, dirs, 0, 128)?;
    set_flags(s, pe, 0xA0)?;
    restore_tls_directory(s, f, pe0, pe)?;
    restore_imports(s, pe, slot, dirs)?;
    put_entry(s, f, pe0, pe, ep)
}

/// The image behind the eighth stage, finished.
pub open spec fn finished(
    s: Seq<u8>,
    f: Seq<u8>,
    pe0: u32,
    info3: u32,
    keys: Keys,
    start: u32,
    c: Cluster,
    ops: Seq<Op>,
) -> Out<Seq<u8>> {
    match metadata(s, info3) {
        Err(e) => Err(e),
        Ok((ep, dirs)) => match with_sections(s, f, keys, start, c, ops) {
            Err(e) => Err(e),
            Ok(a) => match with_headers(a, f, pe0, true) {
                Err(e) => Err(e),
                Ok((b, w)) => match code_passed(b, w) {
                    Err(e) => Err(e),
                    Ok(d) => with_header(d, f, pe0, start.wrapping_add(c.imports), ep, dirs),
                },
            },
        },
    }
}

/// Finish the image.
pub fn finish(
    s: &mut [u8],
    f: &[u8],
    pe0: u32,
    info3: u32,
    keys: &Keys,
    start: u32,
    c: &Cluster,
    ops: &Vec<Op>,
) -> (r: Out<()>)
    requires
        sized(old(s)@),
    ensures
        match finished(old(s)@, f@, pe0, info3, *keys, start, *c, ops@) {
            Ok(v) => r is Ok && final(s)@ == v,
            Err(e) => r == Err::<(), UnpackError>(e),
        },
        final(s)@.len() == old(s)@.len(),
{
    let (ep, dirs): (u32, Vec<u8>) = read_metadata(s, info3)?;
    load_sections(s, f, keys, start, c, ops)?;
    let w: Found = restore_headers(s, f, pe0, true)?;
    pass_code(s, &w)?;
    restore_header(s, f, pe0, start.wrapping_add(c.imports), ep, &dirs)
}

} // verus!
