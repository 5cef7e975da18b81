//! PE headers of the image, rebuilt from those of the protected file.

use vstd::prelude::*;

use crate::bytes::{fits, overlay, put16, put32};
use crate::error::UnpackError;
use crate::pe::discovery::{name_bytes, name_bytes_at};
use crate::pe::steps::{
    corrupt, has2, has4, paste, pasted, rd16, rd32, rd64, sized, w16, w32, w64, wr16, wr32, Out,
};

verus! {

/// Whether `v` begins with `pre`.
pub open spec fn begins(v: Seq<u8>, pre: Seq<u8>) -> bool {
    pre.len() <= v.len() && v.subrange(0, pre.len() as int) == pre
}

/// Whether `v` begins with `pre`.
pub fn begins_with(v: &[u8], pre: &[u8]) -> (r: bool)
    ensures
        r == begins(v@, pre@),
{
    let n: usize = pre.len();
    if v.len() < n {
        return false;
    }
    let mut i: usize = 0;
    while i < n
        invariant
            i <= n == pre@.len(),
            n <= v@.len(),
            forall|k: int| 0 <= k < i ==> v@[k] == pre@[k],
        decreases n - i,
    {
        if v[i] != pre[i] {
            assert(v@.subrange(0, n as int)[i as int] != pre@[i as int]);
            return false;
        }
        i = i + 1;
    }
    assert(v@.subrange(0, n as int) =~= pre@);
    true
}

/// `".text"`.
pub open spec fn text_name() -> Seq<u8> {
    seq![0x2Eu8, 0x74u8, 0x65u8, 0x78u8, 0x74u8]
}

/// `".idata"`.
pub open spec fn idata_name() -> Seq<u8> {
    seq![0x2Eu8, 0x69u8, 0x64u8, 0x61u8, 0x74u8, 0x61u8]
}

/// Where the code lies, and where the file holds the export directory.
#[derive(Debug, Clone, Copy, PartialEq, Eq, Structural)]
pub struct Found {
    pub text_va: u32,
    pub text_size: u32,
    pub export_off: u32,
}

/// The export directory that a header names.
#[derive(Debug, Clone, Copy, PartialEq, Eq, Structural)]
pub struct Export {
    pub va: u32,
    pub size: u32,
}

/// Whether the eight bytes of a section name are all zero.
pub open spec fn unnamed(f: Seq<u8>, p: u32) -> bool {
    forall|i: int| p <= i < p + 8 ==> #[trigger] f[i] == 0
}

/// Whether a section holds code: in a 32-bit image by the start of its name.
pub open spec fn is_text(name: Seq<u8>, narrow: bool) -> bool {
    if narrow {
        begins(name, text_name())
    } else {
        name == text_name()
    }
}

/// What the section at `p` adds to what was found.
pub open spec fn noted(f: Seq<u8>, p: u32, x: Export, narrow: bool, w: Found) -> Found {
    let va = w32(f, p.wrapping_add(12));
    let size = w32(f, p.wrapping_add(8));
    let raw = w32(f, p.wrapping_add(20));
    let text = is_text(name_bytes(f, p), narrow);
    Found {
        text_va: if text {
            va
        } else {
            w.text_va
        },
        text_size: if text {
            size
        } else {
            w.text_size
        },
        export_off: if x.size != 0 && x.va >= va && x.va.wrapping_add(x.size) <= va.wrapping_add(
            size,
        ) {
            x.va.wrapping_sub(va).wrapping_add(raw)
        } else {
            w.export_off
        },
    }
}

/// The image with the section header at `p` describing the section as it lies in
/// memory; in a 32-bit image `.idata` becomes writable.
pub open spec fn section_laid(s: Seq<u8>, f: Seq<u8>, p: u32, narrow: bool) -> Out<Seq<u8>> {
    let p1 = p.wrapping_add(16);
    let p2 = p.wrapping_add(20);
    let p3 = p.wrapping_add(36);
    if !has4(s, p1) || !has4(s, p2) {
        corrupt()
    } else {
        let a = put32(
            put32(s, p1 as int, w32(f, p.wrapping_add(8))),
            p2 as int,
            w32(f, p.wrapping_add(12)),
        );
        if narrow && begins(name_bytes(f, p), idata_name()) {
            if has4(a, p3) {
                Ok(put32(a, p3 as int, 0xC000_0040))
            } else {
                corrupt()
            }
        } else {
            Ok(a)
        }
    }
}

/// The image with the section headers from number `i` on laid out, up to `n` or
/// an unnamed one.
pub open spec fn sections_laid(
    s: Seq<u8>,
    f: Seq<u8>,
    table: u32,
    i: u32,
    n: u32,
    x: Export,
    narrow: bool,
    w: Found,
) -> Out<(Seq<u8>, Found)>
    decreases n - i,
{
    if i >= n {
        Ok((s, w))
    } else {
        let p = table.wrapping_add(i.wrapping_mul(40));
        if !fits(f, p as int, 8) {
            corrupt()
        } else if unnamed(f, p) {
            Ok((s, w))
        } else if !has4(f, p.wrapping_add(12)) || !has4(f, p.wrapping_add(8)) || !has4(
            f,
            p.wrapping_add(20),
        ) {
            corrupt()
        } else {
            match section_laid(s, f, p, narrow) {
                Err(e) => Err(e),
                Ok(t) => sections_laid(
                    t,
                    f,
                    table,
                    (i + 1) as u32,
                    n,
                    x,
                    narrow,
                    noted(f, p, x, narrow, w),
                ),
            }
        }
    }
}

fn is_unnamed(f: &[u8], p: u32) -> (r: bool)
    requires
        fits(f@, p as int, 8),
    ensures
        r == unnamed(f@, p),
{
    let from: usize = p as usize;
    let len: usize = f.len();
    let mut i: usize = 0;
    while i < 8
        invariant
            i <= 8,
            from == p,
            from + 8 <= len == f@.len(),
            forall|k: int| p <= k < p + i ==> #[trigger] f@[k] == 0,
        decreases 8 - i,
    {
        if f[from + i] != 0 {
            assert(f@[p + i] != 0);
            return false;
        }
        i = i + 1;
    }
    true
}

fn lay_section(s: &mut [u8], f: &[u8], p: u32, x: &Export, narrow: bool, w: &Found) -> (r: Out<
    Found,
>)
    requires
        has4(f@, p.wrapping_add(12)),
        has4(f@, p.wrapping_add(8)),
        has4(f@, p.wrapping_add(20)),
    ensures
        match section_laid(old(s)@, f@, p, narrow) {
            Ok(v) => r == Ok::<Found, UnpackError>(noted(f@, p, *x, narrow, *w)) && final(s)@ == v,
            Err(e) => r == Err::<Found, UnpackError>(e),
        },
        final(s)@.len() == old(s)@.len(),
{
    let va: u32 = rd32(f, p.wrapping_add(12))?;
    let size: u32 = rd32(f, p.wrapping_add(8))?;
    let raw: u32 = rd32(f, p.wrapping_add(20))?;
    let name: Vec<u8> = name_bytes_at(f, p);
    let text: Vec<u8> = vec![0x2Eu8, 0x74u8, 0x65u8, 0x78u8, 0x74u8];
    assert(text@ =~= text_name());
    let mut o: Found = *w;
    let begun: bool = begins_with(&name, &text);
    assert(name@.len() == 5 ==> name@.subrange(0, 5) =~= name@);
    assert(is_text(name@, narrow) == (begun && (narrow || name@.len() == 5)));
    if begun && (narrow || name.len() == 5) {
        o.text_va = va;
        o.text_size = size;
    }
    if x.size != 0 && x.va >= va && x.va.wrapping_add(x.size) <= va.wrapping_add(size) {
        o.export_off = x.va.wrapping_sub(va).wrapping_add(raw);
    }
    wr32(s, p.wrapping_add(16), size)?;
    wr32(s, p.wrapping_add(20), va)?;
    if narrow {
        let idata: Vec<u8> = vec![0x2Eu8, 0x69u8, 0x64u8, 0x61u8, 0x74u8, 0x61u8];
        assert(idata@ =~= idata_name());
        if begins_with(&name, &idata) {
            wr32(s, p.wrapping_add(36), 0xC000_0040)?;
        }
    }
    Ok(o)
}

fn lay_sections(s: &mut [u8], f: &[u8], table: u32, n: u32, x: &Export, narrow: bool) -> (r: Out<
    Found,
>)
    ensures
        match sections_laid(
            old(s)@,
            f@,
            table,
            0,
            n,
            *x,
            narrow,
            Found { text_va: 0, text_size: 0, export_off: 0 },
        ) {
            Ok((v, w)) => r == Ok::<Found, UnpackError>(w) && final(s)@ == v,
            Err(e) => r == Err::<Found, UnpackError>(e),
        },
        final(s)@.len() == old(s)@.len(),
{
    let file_len: usize = f.len();
    let mut w: Found = Found { text_va: 0, text_size: 0, export_off: 0 };
    let mut i: u32 = 0;
    while i < n
        invariant
            i <= n,
            file_len == f@.len(),
            s@.len() == old(s)@.len(),
            sections_laid(
                old(s)@,
                f@,
                table,
                0,
                n,
                *x,
                narrow,
                Found { text_va: 0, text_size: 0, export_off: 0 },
            ) == sections_laid(s@, f@, table, i, n, *x, narrow, w),
        decreases n - i,
    {
        let p: u32 = table.wrapping_add(i.wrapping_mul(40));
        if file_len < 8 || p as usize > file_len - 8 {
            return Err(UnpackError::CorruptInput);
        }
        if is_unnamed(f, p) {
            return Ok(w);
        }
        let a: u32 = rd32(f, p.wrapping_add(12))?;
        let b: u32 = rd32(f, p.wrapping_add(8))?;
        let c: u32 = rd32(f, p.wrapping_add(20))?;
        w = lay_section(s, f, p, x, narrow, &w)?;
        i = i + 1;
    }
    Ok(w)
}

/// The image with the file's headers, its sections laid out and the export
/// directory copied, and where the code lies.
pub open spec fn with_headers(s: Seq<u8>, f: Seq<u8>, pe: u32, narrow: bool) -> Out<
    (Seq<u8>, Found),
> {
    match pasted(s, 0, f, 0, 4096) {
        Err(e) => Err(e),
        Ok(a) => if !has2(f, pe.wrapping_add(20)) || !has2(f, pe.wrapping_add(6)) {
            corrupt()
        } else {
            let table = pe.wrapping_add(24).wrapping_add(w16(f, pe.wrapping_add(20)) as u32);
            let p1 = table.wrapping_sub(128);
            let p2 = table.wrapping_sub(124);
            let count = w16(f, pe.wrapping_add(6)) as u32;
            let n = if count < 96 {
                count
            } else {
                96
            };
            if !has4(f, p1) || !has4(f, p2) {
                corrupt()
            } else {
                let x = Export { va: w32(f, p1), size: w32(f, p2) };
                match sections_laid(
                    a,
                    f,
                    table,
                    0,
                    n,
                    x,
                    narrow,
                    Found { text_va: 0, text_size: 0, export_off: 0 },
                ) {
                    Err(e) => Err(e),
                    Ok((b, w)) => if x.size != 0 && w.export_off != 0 {
                        match pasted(b, x.va as int, f, w.export_off as int, x.size as int) {
                            Err(e) => Err(e),
                            Ok(c) => Ok((c, w)),
                        }
                    } else {
                        Ok((b, w))
                    },
                }
            }
        },
    }
}

/// Rebuild the headers.
pub fn restore_headers(s: &mut [u8], f: &[u8], pe: u32, narrow: bool) -> (r: Out<Found>)
    ensures
        match with_headers(old(s)@, f@, pe, narrow) {
            Ok((v, w)) => r == Ok::<Found, UnpackError>(w) && final(s)@ == v,
            Err(e) => r == Err::<Found, UnpackError>(e),
        },
        final(s)@.len() == old(s)@.len(),
{
    paste(s, 0, f, 0, 4096)?;
    let opt: u16 = rd16(f, pe.wrapping_add(20))?;
    let count: u16 = rd16(f, pe.wrapping_add(6))?;
    let table: u32 = pe.wrapping_add(24).wrapping_add(opt as u32);
    let va: u32 = rd32(f, table.wrapping_sub(128))?;
    let size: u32 = rd32(f, table.wrapping_sub(124))?;
    let n: u32 = if count < 96 {
        count as u32
    } else {
        96
    };
    let x: Export = Export { va, size };
    let w: Found = lay_sections(s, f, table, n, &x, narrow)?;
    if size != 0 && w.export_off != 0 {
        paste(s, va as usize, f, w.export_off as usize, size as usize)?;
    }
    Ok(w)
}

/// The file offset of `rva` by the section headers from number `i` on, of `n`.
pub open spec fn offset_from(f: Seq<u8>, table: u32, i: int, n: int, rva: u32) -> Out<Option<u32>>
    decreases n - i,
{
    let p = table + i * 40;
    if i >= n {
        Ok(None)
    } else if p > u32::MAX {
        corrupt()
    } else if p + 24 > f.len() {
        Ok(None)
    } else if p + 20 > u32::MAX {
        corrupt()
    } else {
        let va = w32(f, (p + 12) as u32);
        let vs = w32(f, (p + 8) as u32);
        let rs = w32(f, (p + 16) as u32);
        let rp = w32(f, (p + 20) as u32);
        let span = if vs >= rs {
            vs
        } else {
            rs
        };
        if va <= rva && va + span > u32::MAX {
            corrupt()
        } else if va <= rva && rva < va + span {
            if rp + (rva - va) > u32::MAX {
                corrupt()
            } else {
                Ok(Some((rp + (rva - va)) as u32))
            }
        } else {
            offset_from(f, table, i + 1, n, rva)
        }
    }
}

/// The offset at which the protected file holds `rva`.
pub open spec fn file_offset(f: Seq<u8>, pe: u32, rva: u32) -> Out<Option<u32>> {
    if pe + 24 > u32::MAX || !has2(f, (pe + 6) as u32) || !has2(f, (pe + 20) as u32) {
        corrupt()
    } else {
        let table = pe + 24 + w16(f, (pe + 20) as u32);
        if table > u32::MAX {
            corrupt()
        } else {
            offset_from(f, table as u32, 0, w16(f, (pe + 6) as u32) as int, rva)
        }
    }
}

/// Find the offset at which the protected file holds `rva`.
pub fn prot_rva_to_off(f: &[u8], pe: u32, rva: u32) -> (r: Out<Option<u32>>)
    ensures
        r == file_offset(f@, pe, rva),
{
    if pe > 0xFFFF_FFE7 {
        return Err(UnpackError::CorruptInput);
    }
    let n: u16 = rd16(f, pe + 6)?;
    let opt: u16 = rd16(f, pe + 20)?;
    if opt as u32 > 0xFFFF_FFFF - (pe + 24) {
        return Err(UnpackError::CorruptInput);
    }
    let table: u32 = pe + 24 + opt as u32;
    let len: usize = f.len();
    let mut i: u32 = 0;
    while i < n as u32
        invariant
            i <= n,
            len == f@.len(),
            file_offset(f@, pe, rva) == offset_from(f@, table, i as int, n as int, rva),
        decreases n - i,
    {
        let q: u64 = table as u64 + i as u64 * 40;
        if q > 0xFFFF_FFFF {
            return Err(UnpackError::CorruptInput);
        }
        if q + 24 > len as u64 {
            return Ok(None);
        }
        if q + 20 > 0xFFFF_FFFF {
            return Err(UnpackError::CorruptInput);
        }
        let p: u32 = q as u32;
        let va: u32 = rd32(f, p + 12)?;
        let vs: u32 = rd32(f, p + 8)?;
        let rs: u32 = rd32(f, p + 16)?;
        let rp: u32 = rd32(f, p + 20)?;
        let span: u32 = if vs >= rs {
            vs
        } else {
            rs
        };
        if va <= rva {
            if span > 0xFFFF_FFFF - va {
                return Err(UnpackError::CorruptInput);
            }
            if rva < va + span {
                if rp > 0xFFFF_FFFF - (rva - va) {
                    return Err(UnpackError::CorruptInput);
                }
                return Ok(Some(rp + (rva - va)));
            }
        }
        i = i + 1;
    }
    Ok(None)
}

/// What a thread-local-storage directory points at.
#[derive(Debug, Clone, Copy, PartialEq, Eq, Structural)]
pub struct Tls {
    pub start: u64,
    pub end: u64,
    pub index: u64,
    pub callbacks: u64,
}

/// Whether an address lies inside an image of `len` bytes at `base`, behind its
/// first byte.
pub open spec fn in_image(va: u64, base: u64, len: int) -> bool {
    va > base && va - base < len
}

/// Whether a directory is one of an image of `len` bytes at `base`.
pub open spec fn plausible_tls(t: Tls, base: u64, len: int) -> bool {
    &&& in_image(t.start, base, len)
    &&& in_image(t.index, base, len)
    &&& in_image(t.callbacks, base, len)
    &&& t.start <= t.end
    &&& t.end - t.start <= 0x10_0000
}

/// Whether a directory is one of the image.
pub fn is_plausible_tls(t: &Tls, base: u64, len: usize) -> (r: bool)
    ensures
        r == plausible_tls(*t, base, len as int),
{
    t.start > base && t.start - base < len as u64 && t.index > base && t.index - base < len as u64
        && t.callbacks > base && t.callbacks - base < len as u64 && t.start <= t.end && t.end
        - t.start <= 0x10_0000
}

/// The directory of `size` bytes at `o` of the file.
pub open spec fn tls_at(f: Seq<u8>, o: u32, wide: bool) -> Tls {
    if wide {
        Tls {
            start: w64(f, o),
            end: w64(f, o.wrapping_add(8)),
            index: w64(f, o.wrapping_add(16)),
            callbacks: w64(f, o.wrapping_add(24)),
        }
    } else {
        Tls {
            start: w32(f, o) as u64,
            end: w32(f, o.wrapping_add(4)) as u64,
            index: w32(f, o.wrapping_add(8)) as u64,
            callbacks: w32(f, o.wrapping_add(12)) as u64,
        }
    }
}

/// The image with the thread-local-storage directory at `rva`, and the template
/// that it names, copied from the file: `None` where the file has no plausible
/// one.
pub open spec fn with_tls(s: Seq<u8>, f: Seq<u8>, pe: u32, rva: u32, base: u64, wide: bool) -> Out<
    Option<Seq<u8>>,
> {
    let size = if wide {
        40
    } else {
        24int
    };
    match file_offset(f, pe, rva) {
        Err(e) => Err(e),
        Ok(None) => Ok(None),
        Ok(Some(o)) => if o + size > f.len() {
            Ok(None)
        } else {
            let t = tls_at(f, o, wide);
            if !plausible_tls(t, base, s.len() as int) {
                Ok(None)
            } else if t.end == t.start {
                Ok(Some(overlay(s, rva as int, f.subrange(o as int, o + size))))
            } else {
                let n = t.end - t.start;
                let to = t.start - base;
                match file_offset(f, pe, to as u32) {
                    Err(e) => Err(e),
                    Ok(None) => Ok(None),
                    Ok(Some(from)) => if from + n > f.len() || to + n > s.len() {
                        Ok(None)
                    } else {
                        let a = overlay(s, to, f.subrange(from as int, from + n));
                        Ok(Some(overlay(a, rva as int, f.subrange(o as int, o + size))))
                    },
                }
            }
        },
    }
}

fn read_tls(f: &[u8], o: u32, wide: bool) -> (r: Tls)
    requires
        o + (if wide {
            40int
        } else {
            24
        }) <= f@.len(),
    ensures
        r == tls_at(f@, o, wide),
{
    let none: Tls = Tls { start: 0, end: 0, index: 0, callbacks: 0 };
    if wide {
        match (
            rd64(f, o),
            rd64(f, o.wrapping_add(8)),
            rd64(f, o.wrapping_add(16)),
            rd64(f, o.wrapping_add(24)),
        ) {
            (Ok(start), Ok(end), Ok(index), Ok(callbacks)) => Tls { start, end, index, callbacks },
            _ => none,
        }
    } else {
        match (
            rd32(f, o),
            rd32(f, o.wrapping_add(4)),
            rd32(f, o.wrapping_add(8)),
            rd32(f, o.wrapping_add(12)),
        ) {
            (Ok(start), Ok(end), Ok(index), Ok(callbacks)) => Tls {
                start: start as u64,
                end: end as u64,
                index: index as u64,
                callbacks: callbacks as u64,
            },
            _ => none,
        }
    }
}

/// Copy the thread-local-storage directory from the file. Where the file has no
/// plausible one, `false` comes back and the image stays as it is.
pub fn restore_tls(s: &mut [u8], f: &[u8], pe: u32, rva: u32, base: u64, wide: bool) -> (r: Out<bool>)
    requires
        sized(old(s)@),
        rva + (if wide {
            40int
        } else {
            24
        }) <= old(s)@.len(),
    ensures
        match with_tls(old(s)@, f@, pe, rva, base, wide) {
            Err(e) => r == Err::<bool, UnpackError>(e),
            Ok(None) => r == Ok::<bool, UnpackError>(false) && final(s)@ == old(s)@,
            Ok(Some(v)) => r == Ok::<bool, UnpackError>(true) && final(s)@ == v,
        },
        final(s)@.len() == old(s)@.len(),
{
    let size: u32 = if wide {
        40
    } else {
        24
    };
    let o: u32 = match prot_rva_to_off(f, pe, rva)? {
        Some(o) => o,
        None => return Ok(false),
    };
    let file_len: usize = f.len();
    let len: usize = s.len();
    if o as u64 + size as u64 > file_len as u64 {
        return Ok(false);
    }
    let t: Tls = read_tls(f, o, wide);
    if !is_plausible_tls(&t, base, len) {
        return Ok(false);
    }
    if t.end != t.start {
        let n: u64 = t.end - t.start;
        let to: u64 = t.start - base;
        let from: u32 = match prot_rva_to_off(f, pe, to as u32)? {
            Some(o) => o,
            None => return Ok(false),
        };
        if from as u64 + n > file_len as u64 || to + n > len as u64 {
            return Ok(false);
        }
        paste(s, to as usize, f, from as usize, n as usize)?;
    }
    paste(s, rva as usize, f, o as usize, size as usize)?;
    Ok(true)
}

/// Whether the `n` bytes at `p` are all zero.
pub open spec fn blank(s: Seq<u8>, p: int, n: int) -> bool {
    forall|i: int| p <= i < p + n ==> #[trigger] s[i] == 0
}

/// Whether the `n` bytes at `p` are all zero.
pub fn is_blank(s: &[u8], p: usize, n: usize) -> (r: bool)
    requires
        p + n <= s@.len(),
    ensures
        r == blank(s@, p as int, n as int),
{
    let len: usize = s.len();
    let mut i: usize = 0;
    while i < n
        invariant
            i <= n,
            p + n <= len == s@.len(),
            blank(s@, p as int, i as int),
        decreases n - i,
    {
        if s[p + i] != 0 {
            assert(s@[p + i] != 0);
            return false;
        }
        i = i + 1;
    }
    true
}

/// `s` with the two words at `p` cleared.
pub open spec fn directory_cleared(s: Seq<u8>, p: u32) -> Out<Seq<u8>> {
    if !has4(s, p) || !has4(s, p.wrapping_add(4)) {
        corrupt()
    } else {
        Ok(put32(put32(s, p as int, 0), p.wrapping_add(4) as int, 0))
    }
}

/// Clear the two words at `p`.
pub fn clear_directory(s: &mut [u8], p: u32) -> (r: Out<()>)
    ensures
        match directory_cleared(old(s)@, p) {
            Ok(v) => r is Ok && final(s)@ == v,
            Err(e) => r == Err::<(), UnpackError>(e),
        },
        final(s)@.len() == old(s)@.len(),
{
    wr32(s, p, 0)?;
    wr32(s, p.wrapping_add(4), 0)
}

/// The image of a marked build with its loading flags: a program loses them and
/// its relocations, which stand at `relocs`; a library without any gets
/// `DYNAMIC_BASE`.
pub open spec fn with_flags(s: Seq<u8>, pe: u32, relocs: u32) -> Out<Seq<u8>> {
    let p = pe.wrapping_add(0x5E);
    let q = pe.wrapping_add(relocs);
    if !has2(s, pe.wrapping_add(22)) || !has2(s, p) {
        corrupt()
    } else if w16(s, pe.wrapping_add(22)) & 0x2000u16 == 0 {
        directory_cleared(put16(s, p as int, 0), q)
    } else {
        Ok(
            put16(
                s,
                p as int,
                if w16(s, p) == 0 {
                    0x0040
                } else {
                    w16(s, p)
                },
            ),
        )
    }
}

/// Settle the loading flags.
pub fn set_flags(s: &mut [u8], pe: u32, relocs: u32) -> (r: Out<()>)
    ensures
        match with_flags(old(s)@, pe, relocs) {
            Ok(v) => r is Ok && final(s)@ == v,
            Err(e) => r == Err::<(), UnpackError>(e),
        },
        final(s)@.len() == old(s)@.len(),
{
    let kind: u16 = rd16(s, pe.wrapping_add(22))?;
    let p: u32 = pe.wrapping_add(0x5E);
    if kind & 0x2000u16 == 0 {
        wr16(s, p, 0)?;
        clear_directory(s, pe.wrapping_add(relocs))
    } else {
        let flags: u16 = rd16(s, p)?;
        wr16(
            s,
            p,
            if flags == 0 {
                0x0040
            } else {
                flags
            },
        )
    }
}

} // verus!
