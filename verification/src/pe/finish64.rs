//! 64-bit images: the headers, the code pass and the imports, last.

use vstd::prelude::*;

use crate::bytes::{fits, le32, overlay, put32};
use crate::error::UnpackError;
use crate::pe::config64::Config;
use crate::pe::dd8::{dd8_shift, page_inside, page_pass, page_pass_checked, select_dd8_shift};
use crate::pe::discovery::{data5, reach5, trial5};
use crate::pe::headers::{
    blank, clear_directory, directory_cleared, file_offset, is_blank, prot_rva_to_off,
    restore_headers, restore_tls, set_flags, with_flags, with_headers, with_tls, Found,
};
use crate::pe::imports::{imports_named, name_imports, process_imports_idt, with_imports};
use crate::pe::sections64::Layout;
use crate::pe::steps::{
    corrupt, cut, dec5, has2, has4, has8, paste, pasted, rd16, rd32, rd64, sized, trial, w32, w64,
    wr32, Out,
};

verus! {

/// The image after the pass over the pages in `page..end`; the key of a page is
/// its number, shifted. A shift that drops every bit is none.
pub open spec fn pages_passed(s: Seq<u8>, page: u32, end: u32, shift: u32) -> Out<Seq<u8>>
    decreases end - page,
{
    if page >= end {
        Ok(s)
    } else if shift >= 32 || !page_inside(s, page << 12u32, page << shift, 256) {
        corrupt()
    } else {
        pages_passed(
            page_pass(s, page << 12u32, page << shift, 256),
            (page + 1) as u32,
            end,
            shift,
        )
    }
}

/// The shift of the page keys: `forced`, or else what the code shows.
pub open spec fn shift_of(s: Seq<u8>, w: Found, info3: u32, forced: Option<u32>) -> u32 {
    match forced {
        Some(k) => k,
        None => dd8_shift(s, w.text_va, w.text_size, info3),
    }
}

/// The image with its code deciphered.
pub open spec fn code_passed(s: Seq<u8>, w: Found, info3: u32, forced: Option<u32>) -> Out<Seq<u8>> {
    let shift = shift_of(s, w, info3, forced);
    if shift == 99 {
        Ok(s)
    } else {
        pages_passed(
            s,
            w.text_va >> 12u32,
            w.text_va.wrapping_add(w.text_size) >> 12u32,
            shift,
        )
    }
}

fn pass_code(s: &mut [u8], w: &Found, info3: u32, forced: Option<u32>) -> (r: Out<()>)
    requires
        sized(old(s)@),
    ensures
        match code_passed(old(s)@, *w, info3, forced) {
            Ok(v) => r is Ok && final(s)@ == v,
            Err(e) => r == Err::<(), UnpackError>(e),
        },
        final(s)@.len() == old(s)@.len(),
{
    let shift: u32 = match forced {
        Some(k) => k,
        None => select_dd8_shift(s, w.text_va, w.text_size, info3),
    };
    if shift == 99 {
        return Ok(());
    }
    let end: u32 = w.text_va.wrapping_add(w.text_size) >> 12u32;
    let mut page: u32 = w.text_va >> 12u32;
    while page < end
        invariant
            s@.len() == old(s)@.len(),
            code_passed(old(s)@, *w, info3, forced) == pages_passed(s@, page, end, shift),
        decreases end - page,
    {
        if shift >= 32 || !page_pass_checked(s, page << 12u32, page << shift) {
            return Err(UnpackError::CorruptInput);
        }
        page = page + 1;
    }
    Ok(())
}

/// The entry point and the data directories that the payload holds enciphered
/// 32 bytes from its start on.
pub open spec fn entry_block(s: Seq<u8>, info3: u32) -> Out<(u32, Seq<u8>)> {
    if info3 + 176 > s.len() || info3 + 176 > u32::MAX {
        corrupt()
    } else {
        let t = data5(s, info3 + 32, 144);
        Ok((le32(t, info3 + 32), t.subrange(info3 + 48, info3 + 176)))
    }
}

fn read_entry_block(s: &[u8], info3: u32) -> (r: Out<(u32, Vec<u8>)>)
    requires
        sized(s@),
    ensures
        match entry_block(s@, info3) {
            Ok((ep, dirs)) => r is Ok && r->Ok_0.0 == ep && r->Ok_0.1@ == dirs,
            Err(e) => r is Err && r->Err_0 == e,
        },
{
    let len: usize = s.len();
    if len < 176 || info3 as usize > len - 176 {
        return Err(UnpackError::CorruptInput);
    }
    let ep: u32 = trial(s, info3 + 32)?;
    let from: usize = info3 as usize + 48;
    let mut block: Vec<u8> = cut(s, 0, from + 128)?;
    dec5(&mut block, info3 + 48, 128)?;
    let dirs: Vec<u8> = cut(&block, from, 128)?;
    let ghost t = data5(s@, info3 + 32, 144);
    assert(dirs@ =~= t.subrange(info3 + 48, info3 + 176));
    proof {
        crate::pe::discovery::trial_is_what_deciphering_leaves(
            s@,
            (info3 + 32) as u32,
            144,
            (info3 + 32) as u32,
        );
    }
    Ok((ep, dirs))
}

/// `s` after its bytes from `from` on are copied to `to`, one after the other.
pub open spec fn trickled(s: Seq<u8>, to: int, from: int, n: nat) -> Seq<u8>
    decreases n,
{
    if n == 0 {
        s
    } else {
        let t = trickled(s, to, from, (n - 1) as nat);
        t.update(to + n - 1, t[from + n - 1])
    }
}

fn trickle(s: &mut [u8], to: usize, from: usize, n: usize)
    requires
        to + n <= old(s)@.len(),
        from + n <= old(s)@.len(),
    ensures
        final(s)@ == trickled(old(s)@, to as int, from as int, n as nat),
        final(s)@.len() == old(s)@.len(),
{
    let len: usize = s.len();
    let mut i: usize = 0;
    while i < n
        invariant
            i <= n,
            to + n <= len,
            from + n <= len,
            s@.len() == len == old(s)@.len(),
            s@ == trickled(old(s)@, to as int, from as int, i as nat),
        decreases n - i,
    {
        let b: u8 = s[from + i];
        s[to + i] = b;
        i = i + 1;
    }
}

/// Where a marked build's entry block starts: the first of two places behind
/// which the payload's own address is found, or the second.
pub open spec fn entry_offset(s: Seq<u8>, info3: u32) -> Out<u32> {
    let a = info3.wrapping_add(36);
    let b = info3.wrapping_add(68);
    if !reach5(s, a, 4) {
        corrupt()
    } else if trial5(s, a) == info3 {
        Ok(32)
    } else if !reach5(s, b, 4) {
        corrupt()
    } else {
        Ok(64)
    }
}

/// The image with the entry point and the data directories of a marked build in
/// the header at `pe`. The block itself stays enciphered.
pub open spec fn with_entry(s: Seq<u8>, info3: u32, pe: u32) -> Out<Seq<u8>> {
    match entry_offset(s, info3) {
        Err(e) => Err(e),
        Ok(off) => {
            let o = info3.wrapping_add(off);
            let p = pe.wrapping_add(40);
            if !fits(s, o as int, 144) || !reach5(s, o, 144) || !has4(s, p) || pe + 136 + 128
                > s.len() || info3 + off + 16 + 128 > s.len() {
                corrupt()
            } else {
                let t = data5(s, o as int, 144);
                let u = put32(t, p as int, w32(t, o));
                let v = trickled(u, pe + 136, info3 + off + 16, 128);
                Ok(overlay(v, o as int, s.subrange(o as int, o + 144)))
            }
        },
    }
}

fn restore_entry(s: &mut [u8], info3: u32, pe: u32) -> (r: Out<()>)
    requires
        sized(old(s)@),
    ensures
        match with_entry(old(s)@, info3, pe) {
            Ok(v) => r is Ok && final(s)@ == v,
            Err(e) => r == Err::<(), UnpackError>(e),
        },
        final(s)@.len() == old(s)@.len(),
{
    let len: usize = s.len();
    let first: u32 = trial(s, info3.wrapping_add(36))?;
    let off: u32 = if first == info3 {
        32
    } else {
        let second: u32 = trial(s, info3.wrapping_add(68))?;
        64
    };
    let o: u32 = info3.wrapping_add(off);
    let kept: Vec<u8> = cut(s, o as usize, 144)?;
    dec5(s, o, 144)?;
    let ep: u32 = rd32(s, o)?;
    wr32(s, pe.wrapping_add(40), ep)?;
    if pe as u64 + 264 > len as u64 || info3 as u64 + off as u64 + 144 > len as u64 {
        return Err(UnpackError::CorruptInput);
    }
    trickle(s, pe as usize + 136, info3 as usize + off as usize + 16, 128);
    paste(s, o as usize, &kept, 0, 144)?;
    assert(kept@.subrange(0, 144) =~= kept@);
    Ok(())
}

/// Whether an import directory can lie at `rva`.
pub open spec fn plausible_imports(s: Seq<u8>, rva: u32, size: u32, image: u32) -> Out<bool> {
    if !(0x1000 < rva < image && 0 < size < 0x1_0000) {
        Ok(false)
    } else if rva + 12 > u32::MAX {
        corrupt()
    } else {
        Ok(rva + 16 <= s.len() && w32(s, (rva + 12) as u32) != 0)
    }
}

fn are_plausible_imports(s: &[u8], rva: u32, size: u32, image: u32) -> (r: Out<bool>)
    ensures
        r == plausible_imports(s@, rva, size, image),
{
    if !(0x1000 < rva && rva < image && 0 < size && size < 0x1_0000) {
        return Ok(false);
    }
    if rva > 0xFFFF_FFF3 {
        return Err(UnpackError::CorruptInput);
    }
    if rva as u64 + 16 > s.len() as u64 {
        return Ok(false);
    }
    Ok(rd32(s, rva + 12)? != 0)
}

/// The image with the entry point `ep` and the directories `dirs` of an unmarked
/// build in the header at `pe`; the import directory is the one of `dirs`, or the
/// one that the configuration block names.
pub open spec fn with_directories(s: Seq<u8>, ep: u32, dirs: Seq<u8>, pe: u32, c: Config) -> Out<
    Seq<u8>,
> {
    let p = pe.wrapping_add(40);
    if !has4(s, p) || pe + 264 > s.len() || !has4(s, pe.wrapping_add(80)) || !has4(
        s,
        pe.wrapping_add(0x90),
    ) || !has4(s, pe.wrapping_add(0x94)) {
        corrupt()
    } else {
        let a = overlay(put32(s, p as int, ep), pe + 136, dirs);
        let rva = le32(dirs, 8);
        let size = le32(dirs, 12);
        match plausible_imports(a, rva, size, w32(a, pe.wrapping_add(80))) {
            Err(e) => Err(e),
            Ok(good) => {
                let own = good || c.import_rva == 0;
                let b = put32(
                    a,
                    pe.wrapping_add(0x90) as int,
                    if own {
                        rva
                    } else {
                        c.import_rva
                    },
                );
                Ok(
                    put32(
                        b,
                        pe.wrapping_add(0x94) as int,
                        if own {
                            size
                        } else {
                            c.import_size
                        },
                    ),
                )
            },
        }
    }
}

fn restore_directories(s: &mut [u8], ep: u32, dirs: &Vec<u8>, pe: u32, c: &Config) -> (r: Out<()>)
    requires
        sized(old(s)@),
        dirs@.len() == 128,
    ensures
        match with_directories(old(s)@, ep, dirs@, pe, *c) {
            Ok(v) => r is Ok && final(s)@ == v,
            Err(e) => r == Err::<(), UnpackError>(e),
        },
        final(s)@.len() == old(s)@.len(),
{
    let len: usize = s.len();
    wr32(s, pe.wrapping_add(40), ep)?;
    if pe as u64 + 264 > len as u64 {
        return Err(UnpackError::CorruptInput);
    }
    paste(s, pe as usize + 136, dirs, 0, 128)?;
    assert(dirs@.subrange(0, 128) =~= dirs@);
    let image: u32 = rd32(s, pe.wrapping_add(80))?;
    let rva: u32 = rd32(dirs, 8)?;
    let size: u32 = rd32(dirs, 12)?;
    let good: bool = are_plausible_imports(s, rva, size, image)?;
    if good || c.import_rva == 0 {
        wr32(s, pe.wrapping_add(0x90), rva)?;
        wr32(s, pe.wrapping_add(0x94), size)
    } else {
        wr32(s, pe.wrapping_add(0x90), c.import_rva)?;
        wr32(s, pe.wrapping_add(0x94), c.import_size)
    }
}

/// The image with its code deciphered, if the entry point lies in the code.
pub open spec fn code_entered(
    s: Seq<u8>,
    w: Found,
    info3: u32,
    forced: Option<u32>,
    pe: u32,
) -> Out<Seq<u8>> {
    if !has4(s, pe.wrapping_add(40)) {
        corrupt()
    } else {
        let ep = w32(s, pe.wrapping_add(40));
        if w.text_size > 0 && 0 < w.text_va <= ep {
            if w.text_va + w.text_size > u32::MAX {
                corrupt()
            } else if ep < w.text_va + w.text_size {
                code_passed(s, w, info3, forced)
            } else {
                Ok(s)
            }
        } else {
            Ok(s)
        }
    }
}

fn pass_entered(s: &mut [u8], w: &Found, info3: u32, forced: Option<u32>, pe: u32) -> (r: Out<()>)
    requires
        sized(old(s)@),
    ensures
        match code_entered(old(s)@, *w, info3, forced, pe) {
            Ok(v) => r is Ok && final(s)@ == v,
            Err(e) => r == Err::<(), UnpackError>(e),
        },
        final(s)@.len() == old(s)@.len(),
{
    let ep: u32 = rd32(s, pe.wrapping_add(40))?;
    if w.text_size > 0 && 0 < w.text_va && w.text_va <= ep {
        if w.text_size > 0xFFFF_FFFF - w.text_va {
            return Err(UnpackError::CorruptInput);
        }
        if ep < w.text_va + w.text_size {
            return pass_code(s, w, info3, forced);
        }
    }
    Ok(())
}

/// The image with the import directory that the header at `pe` names made plain.
pub open spec fn with_named_imports(s: Seq<u8>, pe: u32) -> Out<Seq<u8>> {
    if !has4(s, pe.wrapping_add(0x90)) || !has4(s, pe.wrapping_add(0x94)) {
        corrupt()
    } else {
        let rva = w32(s, pe.wrapping_add(0x90));
        if rva == 0 {
            Ok(s)
        } else {
            with_imports(s, rva, w32(s, pe.wrapping_add(0x94)), pe)
        }
    }
}

/// Where the file holds the `size` bytes of the metadata at `rva`, if they can be
/// copied.
pub open spec fn metadata_source(s: Seq<u8>, f: Seq<u8>, pe0: u32, rva: u32, size: u32) -> Out<
    Option<u32>,
> {
    if rva == 0 || size == 0 || rva + size > s.len() {
        Ok(None)
    } else {
        match file_offset(f, pe0, rva) {
            Err(e) => Err(e),
            Ok(None) => Ok(None),
            Ok(Some(o)) => if o + size > f.len() {
                Ok(None)
            } else if !has4(f, o) {
                corrupt()
            } else if w32(f, o) == 0x424A_5342 {
                Ok(Some(o))
            } else {
                Ok(None)
            },
        }
    }
}

/// Where the file holds the managed header at `rva`, if it can be copied.
pub open spec fn managed_source(s: Seq<u8>, f: Seq<u8>, pe0: u32, rva: u32, size: u32) -> Out<
    Option<u32>,
> {
    if rva == 0 || size == 0 || rva + size > s.len() {
        Ok(None)
    } else {
        match file_offset(f, pe0, rva) {
            Err(e) => Err(e),
            Ok(None) => Ok(None),
            Ok(Some(o)) => if o + 0x48 <= f.len() && w32(f, o) == 0x48 {
                Ok(Some(o))
            } else {
                Ok(None)
            },
        }
    }
}

/// The image with the managed header and its metadata copied from the file, and
/// whether there is one.
pub open spec fn with_managed(s: Seq<u8>, f: Seq<u8>, pe0: u32, pe: u32) -> Out<(Seq<u8>, bool)> {
    let p1 = pe.wrapping_add(0xF8);
    let p2 = pe.wrapping_add(0xFC);
    if !has4(s, p1) || !has4(s, p2) {
        corrupt()
    } else {
        let rva = w32(s, p1);
        match managed_source(s, f, pe0, rva, w32(s, p2)) {
            Err(e) => Err(e),
            Ok(None) => Ok((s, false)),
            Ok(Some(o)) => match pasted(s, rva as int, f, o as int, 0x48) {
                Err(e) => Err(e),
                Ok(a) => {
                    let md = le32(a, rva + 8);
                    let n = le32(a, rva + 12);
                    match metadata_source(a, f, pe0, md, n) {
                        Err(e) => Err(e),
                        Ok(None) => Ok((a, true)),
                        Ok(Some(from)) => Ok(
                            (overlay(a, md as int, f.subrange(from as int, from + n)), true),
                        ),
                    }
                },
            },
        }
    }
}

fn find_metadata(s: &[u8], f: &[u8], pe0: u32, rva: u32, size: u32) -> (r: Out<Option<u32>>)
    ensures
        r == metadata_source(s@, f@, pe0, rva, size),
{
    let len: usize = s.len();
    let file_len: usize = f.len();
    if rva == 0 || size == 0 || rva as u64 + size as u64 > len as u64 {
        return Ok(None);
    }
    match prot_rva_to_off(f, pe0, rva)? {
        None => Ok(None),
        Some(o) => {
            if o as u64 + size as u64 > file_len as u64 {
                return Ok(None);
            }
            if rd32(f, o)? == 0x424A_5342 {
                Ok(Some(o))
            } else {
                Ok(None)
            }
        },
    }
}

fn find_managed(s: &[u8], f: &[u8], pe0: u32, rva: u32, size: u32) -> (r: Out<Option<u32>>)
    ensures
        r == managed_source(s@, f@, pe0, rva, size),
{
    let len: usize = s.len();
    let file_len: usize = f.len();
    if rva == 0 || size == 0 || rva as u64 + size as u64 > len as u64 {
        return Ok(None);
    }
    match prot_rva_to_off(f, pe0, rva)? {
        None => Ok(None),
        Some(o) => {
            if o as u64 + 0x48 > file_len as u64 {
                return Ok(None);
            }
            if rd32(f, o)? == 0x48 {
                Ok(Some(o))
            } else {
                Ok(None)
            }
        },
    }
}

fn restore_managed(s: &mut [u8], f: &[u8], pe0: u32, pe: u32) -> (r: Out<bool>)
    requires
        sized(old(s)@),
    ensures
        match with_managed(old(s)@, f@, pe0, pe) {
            Ok((v, b)) => r == Ok::<bool, UnpackError>(b) && final(s)@ == v,
            Err(e) => r == Err::<bool, UnpackError>(e),
        },
        final(s)@.len() == old(s)@.len(),
{
    let rva: u32 = rd32(s, pe.wrapping_add(0xF8))?;
    let size: u32 = rd32(s, pe.wrapping_add(0xFC))?;
    let o: u32 = match find_managed(s, f, pe0, rva, size)? {
        Some(o) => o,
        None => return Ok(false),
    };
    paste(s, rva as usize, f, o as usize, 0x48)?;
    let md: u32 = rd32(s, rva + 8)?;
    let n: u32 = rd32(s, rva + 12)?;
    match find_metadata(s, f, pe0, md, n)? {
        None => Ok(true),
        Some(from) => {
            paste(s, md as usize, f, from as usize, n as usize)?;
            Ok(true)
        },
    }
}

/// The image with a blank thread-local-storage directory restored from the file
/// of a marked build, or else dropped from the header at `pe`.
pub open spec fn with_tls_directory(s: Seq<u8>, f: Seq<u8>, pe0: u32, pe: u32, unmarked: bool) -> Out<
    Seq<u8>,
> {
    let p = pe.wrapping_add(208);
    if !has4(s, p) {
        corrupt()
    } else {
        let rva = w32(s, p);
        if rva == 0 || rva + 40 > s.len() || !blank(s, rva as int, 40) {
            Ok(s)
        } else if !has8(s, pe.wrapping_add(48)) {
            corrupt()
        } else if unmarked {
            directory_cleared(s, p)
        } else {
            match with_tls(s, f, pe0, rva, w64(s, pe.wrapping_add(48)), true) {
                Err(e) => Err(e),
                Ok(Some(t)) => Ok(t),
                Ok(None) => directory_cleared(s, p),
            }
        }
    }
}

fn restore_tls_directory(s: &mut [u8], f: &[u8], pe0: u32, pe: u32, unmarked: bool) -> (r: Out<()>)
    requires
        sized(old(s)@),
    ensures
        match with_tls_directory(old(s)@, f@, pe0, pe, unmarked) {
            Ok(v) => r is Ok && final(s)@ == v,
            Err(e) => r == Err::<(), UnpackError>(e),
        },
        final(s)@.len() == old(s)@.len(),
{
    let len: usize = s.len();
    let p: u32 = pe.wrapping_add(208);
    let rva: u32 = rd32(s, p)?;
    if rva == 0 || rva as u64 + 40 > len as u64 {
        return Ok(());
    }
    if !is_blank(s, rva as usize, 40) {
        return Ok(());
    }
    let base: u64 = rd64(s, pe.wrapping_add(48))?;
    if unmarked {
        return clear_directory(s, p);
    }
    if restore_tls(s, f, pe0, rva, base, true)? {
        return Ok(());
    }
    clear_directory(s, p)
}

/// The image without a managed header that is blank, unless one was restored.
pub open spec fn made_native(s: Seq<u8>, pe: u32, managed: bool) -> Out<Seq<u8>> {
    let p = pe.wrapping_add(0xF8);
    if !has4(s, p) {
        corrupt()
    } else {
        let rva = w32(s, p);
        if !managed && rva != 0 && rva + 4 <= s.len() && w32(s, rva) == 0 {
            directory_cleared(s, p)
        } else {
            Ok(s)
        }
    }
}

fn make_native(s: &mut [u8], pe: u32, managed: bool) -> (r: Out<()>)
    requires
        sized(old(s)@),
    ensures
        match made_native(old(s)@, pe, managed) {
            Ok(v) => r is Ok && final(s)@ == v,
            Err(e) => r == Err::<(), UnpackError>(e),
        },
        final(s)@.len() == old(s)@.len(),
{
    let len: usize = s.len();
    let p: u32 = pe.wrapping_add(0xF8);
    let rva: u32 = rd32(s, p)?;
    if !managed && rva != 0 && rva as u64 + 4 <= len as u64 {
        if rd32(s, rva)? == 0 {
            return clear_directory(s, p);
        }
    }
    Ok(())
}

/// The image of a marked build finished.
pub open spec fn marked_finished(
    s: Seq<u8>,
    f: Seq<u8>,
    pe0: u32,
    info3: u32,
    forced: Option<u32>,
) -> Out<Seq<u8>> {
    match with_headers(s, f, pe0, false) {
        Err(e) => Err(e),
        Ok((a, w)) => match code_passed(a, w, info3, forced) {
            Err(e) => Err(e),
            Ok(b) => if !has4(b, 60) {
                corrupt()
            } else {
                let pe = w32(b, 60);
                match with_entry(b, info3, pe) {
                    Err(e) => Err(e),
                    Ok(c) => match with_tls_directory(c, f, pe0, pe, false) {
                        Err(e) => Err(e),
                        Ok(d) => match made_native(d, pe, false) {
                            Err(e) => Err(e),
                            Ok(g) => with_flags(g, pe, 0xB0),
                        },
                    },
                }
            },
        },
    }
}

fn finish_marked(s: &mut [u8], f: &[u8], pe0: u32, info3: u32, forced: Option<u32>) -> (r: Out<()>)
    requires
        sized(old(s)@),
    ensures
        match marked_finished(old(s)@, f@, pe0, info3, forced) {
            Ok(v) => r is Ok && final(s)@ == v,
            Err(e) => r == Err::<(), UnpackError>(e),
        },
        final(s)@.len() == old(s)@.len(),
{
    let w: Found = restore_headers(s, f, pe0, false)?;
    pass_code(s, &w, info3, forced)?;
    let pe: u32 = rd32(s, 60)?;
    restore_entry(s, info3, pe)?;
    restore_tls_directory(s, f, pe0, pe, false)?;
    make_native(s, pe, false)?;
    set_flags(s, pe, 0xB0)
}

/// The image of an unmarked build finished.
pub open spec fn unmarked_finished(
    s: Seq<u8>,
    f: Seq<u8>,
    pe0: u32,
    info3: u32,
    c: Config,
    forced: Option<u32>,
) -> Out<Seq<u8>> {
    match with_headers(s, f, pe0, false) {
        Err(e) => Err(e),
        Ok((a, w)) => match entry_block(a, info3) {
            Err(e) => Err(e),
            Ok((ep, dirs)) => {
                let pe = w32(a, 60);
                match with_directories(a, ep, dirs, pe, c) {
                    Err(e) => Err(e),
                    Ok(b) => match code_entered(b, w, info3, forced, pe) {
                        Err(e) => Err(e),
                        Ok(d) => match with_named_imports(d, pe) {
                            Err(e) => Err(e),
                            Ok(g) => match with_managed(g, f, pe0, pe) {
                                Err(e) => Err(e),
                                Ok((h, managed)) => match with_tls_directory(h, f, pe0, pe, true) {
                                    Err(e) => Err(e),
                                    Ok(k) => if !has2(k, pe.wrapping_add(22)) {
                                        corrupt()
                                    } else {
                                        made_native(k, pe, managed)
                                    },
                                },
                            },
                        },
                    },
                }
            },
        },
    }
}

fn finish_unmarked(
    s: &mut [u8],
    f: &[u8],
    pe0: u32,
    info3: u32,
    c: &Config,
    forced: Option<u32>,
) -> (r: Out<()>)
    requires
        sized(old(s)@),
    ensures
        match unmarked_finished(old(s)@, f@, pe0, info3, *c, forced) {
            Ok(v) => r is Ok && final(s)@ == v,
            Err(e) => r == Err::<(), UnpackError>(e),
        },
        final(s)@.len() == old(s)@.len(),
{
    let w: Found = restore_headers(s, f, pe0, false)?;
    let (ep, dirs): (u32, Vec<u8>) = read_entry_block(s, info3)?;
    let pe: u32 = rd32(s, 60)?;
    restore_directories(s, ep, &dirs, pe, c)?;
    pass_entered(s, &w, info3, forced, pe)?;
    let rva: u32 = rd32(s, pe.wrapping_add(0x90))?;
    let size: u32 = rd32(s, pe.wrapping_add(0x94))?;
    if rva != 0 {
        process_imports_idt(s, rva, size, pe)?;
    }
    let managed: bool = restore_managed(s, f, pe0, pe)?;
    restore_tls_directory(s, f, pe0, pe, true)?;
    let kind: u16 = rd16(s, pe.wrapping_add(22))?;
    make_native(s, pe, managed)
}

/// The image with its sections loaded, finished.
pub open spec fn finished(
    s: Seq<u8>,
    f: Seq<u8>,
    pe0: u32,
    info3: u32,
    c: Config,
    l: Layout,
    forced: Option<u32>,
) -> Out<Seq<u8>> {
    if !has4(s, l.names) {
        corrupt()
    } else if l.unmarked {
        unmarked_finished(s, f, pe0, info3, c, forced)
    } else {
        match imports_named(s, w32(s, l.names)) {
            Err(e) => Err(e),
            Ok(a) => marked_finished(a, f, pe0, info3, forced),
        }
    }
}

/// Finish the image.
pub fn finish(
    s: &mut [u8],
    f: &[u8],
    pe0: u32,
    info3: u32,
    c: &Config,
    l: &Layout,
    forced: Option<u32>,
) -> (r: Out<()>)
    requires
        sized(old(s)@),
    ensures
        match finished(old(s)@, f@, pe0, info3, *c, *l, forced) {
            Ok(v) => r is Ok && final(s)@ == v,
            Err(e) => r == Err::<(), UnpackError>(e),
        },
        final(s)@.len() == old(s)@.len(),
{
    let names: u32 = rd32(s, l.names)?;
    if l.unmarked {
        return finish_unmarked(s, f, pe0, info3, c, forced);
    }
    name_imports(s, names)?;
    finish_marked(s, f, pe0, info3, forced)
}

} // verus!
