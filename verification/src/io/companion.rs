//! Modules that are split into a loader stub and a companion with the payload.
//!
//! The companion is the stub's payload region from the key table on, so the two
//! splice into one ordinary protected file. What the loader restores from the stub
//! at run time, the export table and the TLS directory, is put onto the unpacked
//! image from the stub. Where something does not map, the image stays as it is.

use vstd::prelude::*;

use crate::bytes::{
    copy_bytes, fits, opt16, opt32, opt64, overlay, peek_u16, peek_u32, peek_u64, poke_u16,
    poke_u32, put16, put32, sub_vec,
};
use crate::pe::format::{
    data_directory, directory_offset, offset_of, parse, parsed, rva_to_offset, word32,
};

verus! {

/// Where the key table of a protected file stands.
pub const HEADER_OFF: usize = 4096;

/// How an address is looked up in an image.
#[derive(Debug, Clone, Copy, PartialEq, Eq, Structural)]
pub enum Lookup {
    /// By the section table as it stands.
    Sections,
    /// By the headers, if they are well formed.
    Headers,
}

/// The stub and its companion as one file, if the companion starts with the stub's
/// key table.
pub open spec fn spliced(stub: Seq<u8>, comp: Seq<u8>) -> Option<Seq<u8>> {
    if stub.len() >= HEADER_OFF + 32 && comp.len() >= 32 && stub.subrange(
        HEADER_OFF as int,
        HEADER_OFF + 32,
    ) == comp.subrange(0, 32) {
        Some(stub.subrange(0, HEADER_OFF as int) + comp)
    } else {
        None
    }
}

/// Splice a stub and its companion, or `None` where they are no pair.
pub fn splice_companion(stub: &[u8], comp: &[u8]) -> (r: Option<Vec<u8>>)
    ensures
        match spliced(stub@, comp@) {
            Some(v) => r is Some && r->0@ == v,
            None => r is None,
        },
{
    if stub.len() < HEADER_OFF + 32 || comp.len() < 32 {
        return None;
    }
    if !crate::bytes::same_bytes(
        vstd::slice::slice_subrange(stub, HEADER_OFF, HEADER_OFF + 32),
        vstd::slice::slice_subrange(comp, 0, 32),
    ) {
        return None;
    }
    let mut out: Vec<u8> = sub_vec(stub, 0, HEADER_OFF);
    let mut tail: Vec<u8> = vstd::slice::slice_to_vec(comp);
    out.append(&mut tail);
    Some(out)
}

/// Where the PE header of an image stands, if it has one.
pub open spec fn pe_at(s: Seq<u8>) -> Option<int> {
    match opt32(s, 0x3c) {
        None => None,
        Some(pe) => if opt32(s, pe as int) == Some(0x4550u32) {
            Some(pe as int)
        } else {
            None
        },
    }
}

/// The address that `rva` has in the file, by the sections from `i` on.
pub open spec fn section_offset(s: Seq<u8>, table: int, count: int, i: int, rva: u32) -> Option<
    int,
>
    decreases count - i,
{
    let o = table + i * 40;
    if i >= count {
        None
    } else {
        match (opt32(s, o + 8), opt32(s, o + 12), opt32(s, o + 20)) {
            (Some(size), Some(va), Some(raw_at)) => {
                let span = if size == 0 {
                    1u32
                } else {
                    size
                };
                if rva >= va && rva < va.wrapping_add(span) {
                    Some(((rva - va) as u32).wrapping_add(raw_at) as int)
                } else {
                    section_offset(s, table, count, i + 1, rva)
                }
            },
            _ => None,
        }
    }
}

/// The address that `rva` has in the file.
pub open spec fn offset_in(l: Lookup, s: Seq<u8>, rva: u32) -> Option<int> {
    match l {
        Lookup::Sections => match pe_at(s) {
            None => None,
            Some(pe) => match (opt16(s, pe + 6), opt16(s, pe + 20)) {
                (Some(count), Some(size)) => section_offset(
                    s,
                    pe + 24 + size,
                    count as int,
                    0,
                    rva,
                ),
                _ => None,
            },
        },
        Lookup::Headers => match parsed(s) {
            Err(_) => None,
            Ok(h) => match offset_of(s, h, rva) {
                Ok(o) => Some(o as int),
                Err(_) => None,
            },
        },
    }
}

/// The export directory of an image: its address and size.
pub open spec fn exports_in(l: Lookup, s: Seq<u8>) -> Option<(u32, u32)> {
    match l {
        Lookup::Sections => match pe_at(s) {
            None => None,
            Some(pe) => {
                let at = match opt16(s, pe + 24) {
                    Some(0x20Bu16) => Some(pe + 24 + 112),
                    Some(0x10Bu16) => Some(pe + 24 + 96),
                    _ => None,
                };
                match at {
                    None => None,
                    Some(o) => match (opt32(s, o), opt32(s, o + 4)) {
                        (Some(a), Some(b)) => Some((a, b)),
                        _ => None,
                    },
                }
            },
        },
        Lookup::Headers => match parsed(s) {
            Err(_) => None,
            Ok(h) => match (
                word32(s, directory_offset(h, 0)),
                word32(s, directory_offset(h, 0) + 4),
            ) {
                (Ok(a), Ok(b)) => Some((a, b)),
                _ => None,
            },
        },
    }
}

/// The PE header of an image.
fn find_pe(buf: &[u8]) -> (r: Option<usize>)
    ensures
        match pe_at(buf@) {
            Some(pe) => r is Some && r->0 == pe && pe + 4 <= buf@.len(),
            None => r is None,
        },
{
    let pe: u32 = match peek_u32(buf, 0x3c) {
        Some(v) => v,
        None => return None,
    };
    match peek_u32(buf, pe as usize) {
        Some(v) => if v == 0x4550 {
            Some(pe as usize)
        } else {
            None
        },
        None => None,
    }
}

/// The `u16` at `base + delta`, past the end `None`.
fn u16_at(buf: &[u8], base: usize, delta: usize) -> (r: Option<u16>)
    ensures
        r == opt16(buf@, base + delta),
{
    let len: usize = buf.len();
    assert(len == buf@.len());
    match base.checked_add(delta) {
        Some(o) => peek_u16(buf, o),
        None => None,
    }
}

/// The `u32` at `base + delta`, past the end `None`.
fn u32_at(buf: &[u8], base: usize, delta: usize) -> (r: Option<u32>)
    ensures
        r == opt32(buf@, base + delta),
{
    let len: usize = buf.len();
    assert(len == buf@.len());
    match base.checked_add(delta) {
        Some(o) => peek_u32(buf, o),
        None => None,
    }
}

/// The `u64` at `base + delta`, past the end `None`.
fn u64_at(buf: &[u8], base: usize, delta: usize) -> (r: Option<u64>)
    ensures
        r == opt64(buf@, base + delta),
{
    let len: usize = buf.len();
    assert(len == buf@.len());
    match base.checked_add(delta) {
        Some(o) => peek_u64(buf, o),
        None => None,
    }
}

/// The export directory of an image: its address and size.
pub fn pe_export_dir(l: Lookup, buf: &[u8]) -> (r: Option<(u32, u32)>)
    ensures
        r == exports_in(l, buf@),
{
    match l {
        Lookup::Sections => {
            let pe: usize = match find_pe(buf) {
                Some(v) => v,
                None => return None,
            };
            let base: usize = match u16_at(buf, pe, 24) {
                Some(v) => if v == 0x20B {
                    136
                } else if v == 0x10B {
                    120
                } else {
                    return None;
                },
                None => return None,
            };
            match (u32_at(buf, pe, base), u32_at(buf, pe, base + 4)) {
                (Some(a), Some(b)) => Some((a, b)),
                _ => None,
            }
        },
        Lookup::Headers => match parse(buf) {
            Ok(h) => match data_directory(buf, h, 0) {
                Ok(v) => Some(v),
                Err(_) => None,
            },
            Err(_) => None,
        },
    }
}

/// The address that `rva` has in the file.
pub fn rva_to_file_off(l: Lookup, buf: &[u8], rva: u32) -> (r: Option<usize>)
    ensures
        match offset_in(l, buf@, rva) {
            Some(o) => r is Some && r->0 == o,
            None => r is None,
        },
{
    match l {
        Lookup::Sections => {
            let pe: usize = match find_pe(buf) {
                Some(v) => v,
                None => return None,
            };
            let count: u16 = match u16_at(buf, pe, 6) {
                Some(v) => v,
                None => return None,
            };
            let size: u16 = match u16_at(buf, pe, 20) {
                Some(v) => v,
                None => return None,
            };
            let ghost table = pe + 24 + size;
            let base: usize = 24 + size as usize;
            let mut i: usize = 0;
            while i < count as usize
                invariant
                    i <= count,
                    base == 24 + size,
                    table == pe + base,
                    section_offset(buf@, table, count as int, i as int, rva) == offset_in(
                        l,
                        buf@,
                        rva,
                    ),
                decreases count - i,
            {
                let o: usize = base + i * 40;
                let size: u32 = match u32_at(buf, pe, o + 8) {
                    Some(v) => v,
                    None => return None,
                };
                let va: u32 = match u32_at(buf, pe, o + 12) {
                    Some(v) => v,
                    None => return None,
                };
                let raw_at: u32 = match u32_at(buf, pe, o + 20) {
                    Some(v) => v,
                    None => return None,
                };
                let span: u32 = if size == 0 {
                    1
                } else {
                    size
                };
                if rva >= va && rva < va.wrapping_add(span) {
                    return Some((rva - va).wrapping_add(raw_at) as usize);
                }
                i = i + 1;
            }
            None
        },
        Lookup::Headers => match parse(buf) {
            Ok(h) => match rva_to_offset(buf, h, rva) {
                Ok(o) => Some(o),
                Err(_) => None,
            },
            Err(_) => None,
        },
    }
}

/// `out` with the export table of the stub.
pub open spec fn with_exports(l: Lookup, out: Seq<u8>, stub: Seq<u8>) -> Seq<u8> {
    match exports_in(l, out) {
        None => out,
        Some((rva, size)) => if size == 0 {
            out
        } else {
            match (offset_in(l, out, rva), offset_in(l, stub, rva)) {
                (Some(dst), Some(src)) => if fits(out, dst, size as int) && fits(
                    stub,
                    src,
                    size as int,
                ) {
                    overlay(out, dst, stub.subrange(src, src + size))
                } else {
                    out
                },
                _ => out,
            }
        },
    }
}

/// Put the export table of the stub onto the unpacked image, at the same address.
/// Where the image has no export directory, or its region does not map in one of
/// the two, nothing changes.
pub fn overlay_exports_from_stub(l: Lookup, out: &mut [u8], stub: &[u8])
    ensures
        final(out)@ == with_exports(l, old(out)@, stub@),
{
    let (rva, size): (u32, u32) = match pe_export_dir(l, out) {
        Some(v) => v,
        None => return,
    };
    if size == 0 {
        return;
    }
    let dst: usize = match rva_to_file_off(l, out, rva) {
        Some(v) => v,
        None => return,
    };
    let src: usize = match rva_to_file_off(l, stub, rva) {
        Some(v) => v,
        None => return,
    };
    let n: usize = size as usize;
    if dst <= out.len() && n <= out.len() - dst && src <= stub.len() && n <= stub.len() - src {
        copy_bytes(out, dst, stub, src, n);
    }
}

/// `s` with a `u32` where it fits.
pub open spec fn put_if32(s: Seq<u8>, o: int, v: u32) -> Seq<u8> {
    if fits(s, o, 4) {
        put32(s, o, v)
    } else {
        s
    }
}

/// `v` down to its relocation page.
pub open spec fn page_of(v: u32) -> u32 {
    v & !0xfffu32
}

/// The relocation entry of a 64-bit field at `rva`.
pub open spec fn reloc_entry(rva: u32) -> u16 {
    0xa000u16 | ((rva & 0xfff) as u16)
}

/// The relocation block of the four fields of a TLS directory, put at `at`.
pub open spec fn with_block(s: Seq<u8>, at: int, rva: u32) -> Seq<u8> {
    let head = put32(put32(s, at, page_of(rva)), at + 4, 16);
    put16(
        put16(
            put16(
                put16(head, at + 8, reloc_entry(rva)),
                at + 10,
                reloc_entry(rva.wrapping_add(8)),
            ),
            at + 12,
            reloc_entry(rva.wrapping_add(0x10)),
        ),
        at + 14,
        reloc_entry(rva.wrapping_add(0x18)),
    )
}

/// Whether `n` bytes at `o` are zero.
pub open spec fn all_zero(s: Seq<u8>, o: int, n: int) -> bool {
    forall|i: int| o <= i < o + n ==> s[i] == 0
}

/// `s` with relocations for the four pointers of the TLS directory at `rva`: a
/// block behind the relocation table, if there is a table, if the pointers share a
/// page, and if the place is free.
#[verifier::opaque]
pub open spec fn with_relocs(l: Lookup, s: Seq<u8>, pe: int, rva: u32) -> Option<Seq<u8>> {
    let dd = pe + 24 + 112 + 40;
    match (opt32(s, dd), opt32(s, dd + 4)) {
        (Some(table), Some(size)) => if table == 0 || page_of(rva.wrapping_add(0x18)) != page_of(
            rva,
        ) {
            None
        } else {
            match offset_in(l, s, table.wrapping_add(size)) {
                None => None,
                Some(at) => if !fits(s, at, 16) || !all_zero(s, at, 16) {
                    None
                } else {
                    Some(put_if32(with_block(s, at, rva), dd + 4, size.wrapping_add(16)))
                },
            }
        },
        _ => None,
    }
}

/// `s` with the template of the TLS directory at `dst` from the stub, if it maps in
/// both. An empty template needs no place.
#[verifier::opaque]
pub open spec fn with_template(l: Lookup, s: Seq<u8>, stub: Seq<u8>, dst: int, base: u64) -> Option<
    Seq<u8>,
> {
    match (opt64(s, dst), opt64(s, dst + 8)) {
        (Some(start), Some(end)) => if end <= start {
            Some(s)
        } else if start < base {
            None
        } else {
            let rva = (start - base) as u32;
            let len = end - start;
            match (offset_in(l, s, rva), offset_in(l, stub, rva)) {
                (Some(to), Some(from)) => if fits(s, to, len) && fits(stub, from, len) {
                    Some(overlay(s, to, stub.subrange(from, from + len)))
                } else {
                    None
                },
                _ => None,
            }
        },
        _ => None,
    }
}

/// `out` with the TLS directory of `size` bytes at `rva` of the stub and its entry among
/// the data directories, and where the directory stands, if both have their place.
#[verifier::opaque]
pub open spec fn with_directory(
    l: Lookup,
    out: Seq<u8>,
    stub: Seq<u8>,
    pe: int,
    rva: u32,
    size: u32,
) -> Option<(Seq<u8>, int)> {
    let dd = pe + 24 + 112 + 72;
    match (offset_in(l, out, rva), offset_in(l, stub, rva)) {
        (Some(dst), Some(src)) => if fits(out, dst, size as int) && fits(stub, src, size as int)
            && fits(out, dd, 8) {
            let s = overlay(out, dst, stub.subrange(src, src + size));
            Some((put32(put32(s, dd, rva), dd + 4, size), dst))
        } else {
            None
        },
        _ => None,
    }
}

/// `out` with the TLS directory of `size` bytes at `rva` of the stub, its entry among
/// the data directories, its template, and relocations for its pointers, if all of
/// that has its place.
pub open spec fn tls_placed(
    l: Lookup,
    out: Seq<u8>,
    stub: Seq<u8>,
    pe: int,
    rva: u32,
    size: u32,
    base: u64,
) -> Option<Seq<u8>> {
    match with_directory(l, out, stub, pe, rva, size) {
        Some((s, dst)) => match with_template(l, s, stub, dst, base) {
            Some(v) => with_relocs(l, v, pe, rva),
            None => None,
        },
        None => None,
    }
}

/// `out` with the TLS directory of the stub. It stays as it is where the stub has
/// none, and where a part of it has no place.
pub open spec fn with_tls(l: Lookup, out: Seq<u8>, stub: Seq<u8>) -> Seq<u8> {
    match pe_at(out) {
        None => out,
        Some(pe) => {
            let dd = pe + 24 + 112 + 72;
            match (opt32(stub, dd), opt32(stub, dd + 4), opt64(out, pe + 48)) {
                (Some(rva), Some(size), Some(base)) => if opt16(out, pe + 24) != Some(0x20Bu16)
                    || rva == 0 || size == 0 {
                    out
                } else {
                    match tls_placed(l, out, stub, pe, rva, size, base) {
                        Some(v) => v,
                        None => out,
                    }
                },
                _ => out,
            }
        },
    }
}

/// Whether `n` bytes at `o` are zero.
fn is_zero(buf: &[u8], o: usize, n: usize) -> (r: bool)
    requires
        o + n <= buf@.len(),
    ensures
        r == all_zero(buf@, o as int, n as int),
{
    let len: usize = buf.len();
    let mut i: usize = 0;
    while i < n
        invariant
            i <= n,
            o + n <= len,
            len == buf@.len(),
            forall|k: int| o <= k < o + i ==> buf@[k] == 0,
        decreases n - i,
    {
        if buf[o + i] != 0 {
            return false;
        }
        i = i + 1;
    }
    true
}

fn entry(rva: u32) -> (r: u16)
    ensures
        r == reloc_entry(rva),
{
    0xa000u16 | (#[verifier::truncate] ((rva & 0xfff) as u16))
}

/// Store a `u32` at `base + delta` where it fits.
fn put_at(buf: &mut [u8], base: usize, delta: usize, v: u32)
    ensures
        final(buf)@ == put_if32(old(buf)@, base + delta, v),
{
    let len: usize = buf.len();
    assert(len == buf@.len());
    match base.checked_add(delta) {
        Some(o) => {
            let _ = poke_u32(buf, o, v);
        },
        None => {},
    }
}

/// Append relocations for the four 64-bit pointers of the TLS directory at
/// `tls_rva`, right behind the relocation table. Nothing changes where there is no
/// table, where the pointers straddle a page, or where the place is not free.
fn add_tls_relocs(l: Lookup, out: &mut [u8], pe: usize, tls_rva: u32) -> (r: bool)
    ensures
        match with_relocs(l, old(out)@, pe as int, tls_rva) {
            Some(v) => r && final(out)@ == v,
            None => !r && final(out)@ == old(out)@,
        },
        final(out)@.len() == old(out)@.len(),
{
    proof {
        reveal(with_relocs);
    }
    let table: u32 = match u32_at(out, pe, 176) {
        Some(v) => v,
        None => return false,
    };
    let size: u32 = match u32_at(out, pe, 180) {
        Some(v) => v,
        None => return false,
    };
    if table == 0 {
        return false;
    }
    let page: u32 = tls_rva & !0xfffu32;
    if tls_rva.wrapping_add(0x18) & !0xfffu32 != page {
        return false;
    }
    let at: usize = match rva_to_file_off(l, out, table.wrapping_add(size)) {
        Some(v) => v,
        None => return false,
    };
    if out.len() < 16 || at > out.len() - 16 {
        return false;
    }
    if !is_zero(out, at, 16) {
        return false;
    }
    let _ = poke_u32(out, at, page);
    let _ = poke_u32(out, at + 4, 16);
    let _ = poke_u16(out, at + 8, entry(tls_rva));
    let _ = poke_u16(out, at + 10, entry(tls_rva.wrapping_add(8)));
    let _ = poke_u16(out, at + 12, entry(tls_rva.wrapping_add(0x10)));
    let _ = poke_u16(out, at + 14, entry(tls_rva.wrapping_add(0x18)));
    put_at(out, pe, 180, size.wrapping_add(16));
    true
}

/// Put the template of the TLS directory at `dst` onto the image.
fn overlay_template(l: Lookup, out: &mut [u8], stub: &[u8], dst: usize, base: u64) -> (r: bool)
    ensures
        match with_template(l, old(out)@, stub@, dst as int, base) {
            Some(v) => r && final(out)@ == v,
            None => !r && final(out)@ == old(out)@,
        },
        final(out)@.len() == old(out)@.len(),
{
    proof {
        reveal(with_template);
    }
    let start: u64 = match u64_at(out, dst, 0) {
        Some(v) => v,
        None => return false,
    };
    let end: u64 = match u64_at(out, dst, 8) {
        Some(v) => v,
        None => return false,
    };
    if end <= start {
        return true;
    }
    if start < base {
        return false;
    }
    let rva: u32 = #[verifier::truncate] ((start - base) as u32);
    let len: u64 = end - start;
    let to: usize = match rva_to_file_off(l, out, rva) {
        Some(v) => v,
        None => return false,
    };
    let from: usize = match rva_to_file_off(l, stub, rva) {
        Some(v) => v,
        None => return false,
    };
    if to <= out.len() && len <= (out.len() - to) as u64 && from <= stub.len() && len <= (
    stub.len() - from) as u64 {
        copy_bytes(out, to, stub, from, len as usize);
        true
    } else {
        false
    }
}

/// A copy of the image with the TLS directory and its entry, and where the directory
/// stands.
fn place_directory(l: Lookup, out: &[u8], stub: &[u8], pe: usize, rva: u32, size: u32) -> (r: Option<
    (Vec<u8>, usize),
>)
    ensures
        match with_directory(l, out@, stub@, pe as int, rva, size) {
            Some((v, at)) => r is Some && r->Some_0.0@ == v && r->Some_0.1 == at,
            None => r is None,
        },
        r matches Some((v, _)) ==> v@.len() == out@.len(),
{
    proof {
        reveal(with_directory);
    }
    let dst: usize = match rva_to_file_off(l, out, rva) {
        Some(v) => v,
        None => return None,
    };
    let src: usize = match rva_to_file_off(l, stub, rva) {
        Some(v) => v,
        None => return None,
    };
    let n: usize = size as usize;
    let len: usize = out.len();
    if !(dst <= len && n <= len - dst && src <= stub.len() && n <= stub.len() - src) {
        return None;
    }
    if len < 216 || pe > len - 216 {
        return None;
    }
    let mut image: Vec<u8> = sub_vec(out, 0, len);
    assert(image@ =~= out@);
    copy_bytes(&mut image, dst, stub, src, n);
    let _ = poke_u32(&mut image, pe + 208, rva);
    let _ = poke_u32(&mut image, pe + 212, size);
    Some((image, dst))
}

/// Put the TLS directory onto the image, all of it or nothing.
fn place_tls(l: Lookup, out: &mut [u8], stub: &[u8], pe: usize, rva: u32, size: u32, base: u64)
    ensures
        final(out)@ == (match tls_placed(l, old(out)@, stub@, pe as int, rva, size, base) {
            Some(v) => v,
            None => old(out)@,
        }),
{
    let (mut image, dst): (Vec<u8>, usize) = match place_directory(l, out, stub, pe, rva, size) {
        Some(x) => x,
        None => return,
    };
    if !overlay_template(l, &mut image, stub, dst, base) {
        return;
    }
    if !add_tls_relocs(l, &mut image, pe, rva) {
        return;
    }
    let len: usize = out.len();
    copy_bytes(out, 0, &image, 0, len);
    assert(out@ =~= image@);
}

/// Restore the TLS directory of a 64-bit image from the stub. Where the stub
/// declares none, or a part of it does not map in one of the two or cannot be
/// relocated, nothing changes.
pub fn restore_tls_from_stub(l: Lookup, out: &mut [u8], stub: &[u8])
    ensures
        final(out)@ == with_tls(l, old(out)@, stub@),
{
    let pe: usize = match find_pe(out) {
        Some(v) => v,
        None => return,
    };
    match u16_at(out, pe, 24) {
        Some(v) => if v != 0x20B {
            return;
        },
        None => return,
    }
    let rva: u32 = match u32_at(stub, pe, 208) {
        Some(v) => v,
        None => return,
    };
    let size: u32 = match u32_at(stub, pe, 212) {
        Some(v) => v,
        None => return,
    };
    if rva == 0 || size == 0 {
        return;
    }
    let base: u64 = match u64_at(out, pe, 48) {
        Some(v) => v,
        None => return,
    };
    place_tls(l, out, stub, pe, rva, size, base);
}

/// A file and its own payload region splice to the file.
pub proof fn own_payload_splices_to_itself(s: Seq<u8>)
    requires
        s.len() >= HEADER_OFF + 32,
    ensures
        spliced(s, s.subrange(HEADER_OFF as int, s.len() as int)) == Some(s),
{
    let comp = s.subrange(HEADER_OFF as int, s.len() as int);
    assert(s.subrange(HEADER_OFF as int, HEADER_OFF + 32) =~= comp.subrange(0, 32));
    assert(s.subrange(0, HEADER_OFF as int) + comp =~= s);
}

/// A spliced file agrees with the stub up to the end of the key table, and is the
/// companion from the key table on.
pub proof fn spliced_file_has_both(stub: Seq<u8>, comp: Seq<u8>)
    requires
        spliced(stub, comp) is Some,
    ensures
        ({
            let s = spliced(stub, comp)->0;
            &&& s.len() == HEADER_OFF + comp.len()
            &&& s.subrange(0, HEADER_OFF + 32) == stub.subrange(0, HEADER_OFF + 32)
            &&& s.subrange(HEADER_OFF as int, s.len() as int) == comp
        }),
{
    let s = spliced(stub, comp)->0;
    let a = stub.subrange(HEADER_OFF as int, HEADER_OFF + 32);
    let b = comp.subrange(0, 32);
    assert forall|i: int| 0 <= i < HEADER_OFF + 32 implies s[i] == stub[i] by {
        if i >= HEADER_OFF {
            assert(a[i - HEADER_OFF] == b[i - HEADER_OFF]);
        }
    }
    assert(s.subrange(0, HEADER_OFF + 32) =~= stub.subrange(0, HEADER_OFF + 32));
    assert(s.subrange(HEADER_OFF as int, s.len() as int) =~= comp);
}

proof fn relocs_keep_the_size(l: Lookup, s: Seq<u8>, pe: int, rva: u32)
    ensures
        with_relocs(l, s, pe, rva) matches Some(v) ==> v.len() == s.len(),
{
    reveal(with_relocs);
}

proof fn template_keeps_the_size(l: Lookup, s: Seq<u8>, stub: Seq<u8>, dst: int, base: u64)
    ensures
        with_template(l, s, stub, dst, base) matches Some(v) ==> v.len() == s.len(),
{
    reveal(with_template);
}

proof fn directory_keeps_the_size(
    l: Lookup,
    out: Seq<u8>,
    stub: Seq<u8>,
    pe: int,
    rva: u32,
    size: u32,
)
    ensures
        with_directory(l, out, stub, pe, rva, size) matches Some((v, _)) ==> v.len() == out.len(),
{
    reveal(with_directory);
}

proof fn placing_keeps_the_size(
    l: Lookup,
    out: Seq<u8>,
    stub: Seq<u8>,
    pe: int,
    rva: u32,
    size: u32,
    base: u64,
)
    ensures
        tls_placed(l, out, stub, pe, rva, size, base) matches Some(v) ==> v.len() == out.len(),
{
    if tls_placed(l, out, stub, pe, rva, size, base) is Some {
        directory_keeps_the_size(l, out, stub, pe, rva, size);
        let (s, dst) = with_directory(l, out, stub, pe, rva, size)->0;
        template_keeps_the_size(l, s, stub, dst, base);
        relocs_keep_the_size(l, with_template(l, s, stub, dst, base)->0, pe, rva);
    }
}

/// What is put onto an image from a stub changes bytes in place: the image keeps
/// its size.
pub proof fn overlays_keep_the_size(l: Lookup, out: Seq<u8>, stub: Seq<u8>)
    ensures
        with_exports(l, out, stub).len() == out.len(),
        with_tls(l, out, stub).len() == out.len(),
{
    assert(with_exports(l, out, stub).len() == out.len());
    if let Some(pe) = pe_at(out) {
        let dd = pe + 24 + 112 + 72;
        if let (Some(rva), Some(size), Some(base)) = (
            opt32(stub, dd),
            opt32(stub, dd + 4),
            opt64(out, pe + 48),
        ) {
            placing_keeps_the_size(l, out, stub, pe, rva, size, base);
        }
    }
}

/// An export table that is put onto an image is the stub's, byte for byte at the same
/// address, and no other byte changes.
pub proof fn only_the_export_table_changes(l: Lookup, out: Seq<u8>, stub: Seq<u8>)
    requires
        with_exports(l, out, stub) != out,
    ensures
        ({
            let (rva, size) = exports_in(l, out)->0;
            let dst = offset_in(l, out, rva)->0;
            let src = offset_in(l, stub, rva)->0;
            let after = with_exports(l, out, stub);
            &&& exports_in(l, out) is Some
            &&& offset_in(l, out, rva) is Some
            &&& offset_in(l, stub, rva) is Some
            &&& fits(out, dst, size as int) && fits(stub, src, size as int)
            &&& after.subrange(dst, dst + size) == stub.subrange(src, src + size)
            &&& forall|i: int|
                0 <= i < out.len() && !(dst <= i < dst + size) ==> #[trigger] after[i] == out[i]
        }),
{
    let (rva, size) = exports_in(l, out)->0;
    let dst = offset_in(l, out, rva)->0;
    let src = offset_in(l, stub, rva)->0;
    let after = with_exports(l, out, stub);
    assert(after.subrange(dst, dst + size) =~= stub.subrange(src, src + size));
}

/// A stub without a TLS directory changes nothing of the image.
pub proof fn no_tls_changes_nothing(l: Lookup, out: Seq<u8>, stub: Seq<u8>, pe: int)
    requires
        pe_at(out) == Some(pe),
        opt32(stub, pe + 208) == Some(0u32),
    ensures
        with_tls(l, out, stub) == out,
{
}

/// A TLS directory that does not map in one of the two, whose template does not, or
/// whose pointers cannot be relocated, changes nothing of the image.
pub proof fn unfinished_tls_changes_nothing(
    l: Lookup,
    out: Seq<u8>,
    stub: Seq<u8>,
    pe: int,
    rva: u32,
    size: u32,
    base: u64,
)
    requires
        pe_at(out) == Some(pe),
        opt32(stub, pe + 208) == Some(rva),
        opt32(stub, pe + 212) == Some(size),
        opt64(out, pe + 48) == Some(base),
        ({
            let (s, dst) = with_directory(l, out, stub, pe, rva, size)->0;
            ||| offset_in(l, out, rva) is None
            ||| offset_in(l, stub, rva) is None
            ||| with_template(l, s, stub, dst, base) is None
            ||| with_relocs(l, with_template(l, s, stub, dst, base)->0, pe, rva) is None
        }),
    ensures
        with_tls(l, out, stub) == out,
{
    reveal(with_directory);
}

/// Relocations behind a TLS directory are a block of their own on free space; no
/// other byte changes but the size of the relocation table.
pub proof fn relocations_use_free_space(l: Lookup, s: Seq<u8>, pe: int, rva: u32)
    requires
        0 <= pe,
        with_relocs(l, s, pe, rva) is Some,
    ensures
        ({
            let dd = pe + 24 + 112 + 40;
            let after = with_relocs(l, s, pe, rva)->0;
            exists|at: int|
                {
                    &&& 0 <= at && at + 16 <= s.len()
                    &&& #[trigger] all_zero(s, at, 16)
                    &&& forall|i: int|
                        0 <= i < s.len() && !(at <= i < at + 16) && !(dd + 4 <= i < dd + 8)
                            ==> after[i] == s[i]
                }
        }),
{
    reveal(with_relocs);
    let dd = pe + 24 + 112 + 40;
    let table = opt32(s, dd)->0;
    let size = opt32(s, dd + 4)->0;
    let at = offset_in(l, s, table.wrapping_add(size))->0;
    assert(all_zero(s, at, 16));
}

} // verus!
