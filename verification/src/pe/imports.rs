//! Import names: deciphered in place, and library names put in lower case.

use vstd::prelude::*;

use crate::bytes::{le64, put16, put32};
use crate::ciphers::data7;
use crate::error::UnpackError;
use crate::pe::discovery::{find_nul, nul_from};
use crate::pe::steps::{
    corrupt, dec7, has2, has4, has8, rd32, rd64, addressable, w32, w64, wr16, wr32, Out,
};

verus! {

/// An ASCII letter in lower case, any other byte as it is.
pub open spec fn lower(b: u8) -> u8 {
    if 0x41 <= b <= 0x5A {
        (b + 0x20) as u8
    } else {
        b
    }
}

/// Put a byte in lower case.
pub fn to_lower(b: u8) -> (r: u8)
    ensures
        r == lower(b),
{
    if 0x41 <= b && b <= 0x5A {
        b + 0x20
    } else {
        b
    }
}

/// Whether the bytes in `a..b` are printable ASCII.
pub open spec fn printable(s: Seq<u8>, a: int, b: int) -> bool {
    forall|i: int| a <= i < b ==> 0x20 <= #[trigger] s[i] < 0x7F
}

/// Whether the bytes in `a..b` are printable ASCII.
pub fn is_printable(s: &[u8], a: usize, b: usize) -> (r: bool)
    requires
        a <= b <= s@.len(),
    ensures
        r == printable(s@, a as int, b as int),
{
    let mut i: usize = a;
    while i < b
        invariant
            a <= i <= b <= s@.len(),
            printable(s@, a as int, i as int),
        decreases b - i,
    {
        if s[i] < 0x20 || s[i] >= 0x7F {
            assert(!printable(s@, a as int, b as int)) by {
                assert(s@[i as int] < 0x20 || s@[i as int] >= 0x7F);
            }
            return false;
        }
        i = i + 1;
    }
    true
}

/// `s` with the text in `a..b`, if it is printable, in lower case.
pub open spec fn lowered(s: Seq<u8>, a: int, b: int) -> Seq<u8> {
    if printable(s, a, b) {
        Seq::new(
            s.len(),
            |i: int|
                if a <= i < b {
                    lower(s[i])
                } else {
                    s[i]
                },
        )
    } else {
        s
    }
}

fn lower_text(s: &mut [u8], a: usize, b: usize)
    requires
        a <= b <= old(s)@.len(),
    ensures
        final(s)@ == lowered(old(s)@, a as int, b as int),
{
    let len: usize = s.len();
    if !is_printable(s, a, b) {
        return;
    }
    let mut i: usize = a;
    while i < b
        invariant
            a <= i <= b <= len,
            s@.len() == len == old(s)@.len(),
            forall|k: int|
                0 <= k < len ==> #[trigger] s@[k] == (if a <= k < i {
                    lower(old(s)@[k])
                } else {
                    old(s)@[k]
                }),
        decreases b - i,
    {
        let c: u8 = s[i];
        s[i] = to_lower(c);
        i = i + 1;
    }
    assert(s@ =~= lowered(old(s)@, a as int, b as int));
}

/// Whether a 64-bit thunk holds an ordinal.
pub open spec fn ordinal64(v: u64) -> bool {
    v & 0x8000_0000_0000_0000u64 != 0
}

/// The image with the names deciphered that the 64-bit thunks from `p` on point
/// at, their hints cleared, up to a zero thunk.
pub open spec fn thunks_named(s: Seq<u8>, p: u32) -> Out<Seq<u8>>
    decreases u32::MAX - p,
{
    if !has8(s, p) || p + 8 > u32::MAX {
        corrupt()
    } else {
        let v = w64(s, p);
        if v == 0 {
            Ok(s)
        } else if ordinal64(v) {
            thunks_named(s, (p + 8) as u32)
        } else {
            let inner = v as u32;
            match data7(s, inner.wrapping_add(2) as int, inner as u8) {
                None => corrupt(),
                Some(t) => if !has2(t, inner) {
                    corrupt()
                } else {
                    thunks_named(put16(t, inner as int, 0), (p + 8) as u32)
                },
            }
        }
    }
}

fn name_thunks(s: &mut [u8], start: u32) -> (r: Out<()>)
    requires
        addressable(old(s)@),
    ensures
        match thunks_named(old(s)@, start) {
            Ok(v) => r is Ok && final(s)@ == v,
            Err(e) => r == Err::<(), UnpackError>(e),
        },
        final(s)@.len() == old(s)@.len(),
{
    let len: usize = s.len();
    let mut p: u32 = start;
    loop
        invariant
            len == s@.len() == old(s)@.len(),
            addressable(s@),
            thunks_named(old(s)@, start) == thunks_named(s@, p),
        decreases u32::MAX - p,
    {
        let v: u64 = rd64(s, p)?;
        if v == 0 {
            return Ok(());
        }
        if v & 0x8000_0000_0000_0000u64 == 0 {
            let inner: u32 = #[verifier::truncate]
            (v as u32);
            let key: u8 = #[verifier::truncate]
            (inner as u8);
            dec7(s, inner.wrapping_add(2), key)?;
            wr16(s, inner, 0)?;
        }
        p = p + 8;
    }
}

/// The image with the import descriptors from `p` on made plain: the library
/// names deciphered and in lower case, the names of their thunks deciphered.
pub open spec fn imports_named(s: Seq<u8>, p: u32) -> Out<Seq<u8>>
    decreases u32::MAX - p,
{
    if !has4(s, p.wrapping_add(12)) {
        corrupt()
    } else {
        let outer = w32(s, p.wrapping_add(12));
        if outer == 0 {
            Ok(s)
        } else {
            match data7(s, outer as int, outer as u8) {
                None => corrupt(),
                Some(t) => {
                    let a = lowered(t, outer as int, nul_from(t, outer as int, t.len() as int));
                    if !has4(a, p) || !has4(a, p.wrapping_add(16)) || p + 20 > u32::MAX {
                        corrupt()
                    } else {
                        let first = if w32(a, p) == 0 {
                            w32(a, p.wrapping_add(16))
                        } else {
                            w32(a, p)
                        };
                        match thunks_named(a, first) {
                            Err(e) => Err(e),
                            Ok(b) => imports_named(b, (p + 20) as u32),
                        }
                    }
                },
            }
        }
    }
}

/// Make the import descriptors from `start` on plain.
pub fn name_imports(s: &mut [u8], start: u32) -> (r: Out<()>)
    requires
        addressable(old(s)@),
    ensures
        match imports_named(old(s)@, start) {
            Ok(v) => r is Ok && final(s)@ == v,
            Err(e) => r == Err::<(), UnpackError>(e),
        },
        final(s)@.len() == old(s)@.len(),
{
    let len: usize = s.len();
    let mut p: u32 = start;
    loop
        invariant
            len == s@.len() == old(s)@.len(),
            addressable(s@),
            imports_named(old(s)@, start) == imports_named(s@, p),
        decreases u32::MAX - p,
    {
        let outer: u32 = rd32(s, p.wrapping_add(12))?;
        if outer == 0 {
            return Ok(());
        }
        let key: u8 = #[verifier::truncate]
        (outer as u8);
        dec7(s, outer, key)?;
        let end: usize = find_nul(s, outer as usize, len);
        lower_text(s, outer as usize, end);
        let a: u32 = rd32(s, p)?;
        let b: u32 = rd32(s, p.wrapping_add(16))?;
        name_thunks(
            s,
            if a == 0 {
                b
            } else {
                a
            },
        )?;
        p = p + 20;
    }
}

/// The lesser.
pub open spec fn least(a: int, b: int) -> int {
    if a <= b {
        a
    } else {
        b
    }
}

/// Whether the text in `a..b` ends in one of the two suffixes of libraries.
pub open spec fn has_suffix(s: Seq<u8>, a: int, b: int) -> bool {
    &&& b - a >= 4
    &&& s[b - 4] == 0x2E
    &&& (lower(s[b - 3]) == 0x64 && lower(s[b - 2]) == 0x6C && lower(s[b - 1]) == 0x6C) || (lower(
        s[b - 3],
    ) == 0x65 && lower(s[b - 2]) == 0x78 && lower(s[b - 1]) == 0x65)
}

/// Whether a library name at `n` reads as one: at most 60 printable bytes that
/// end in `.dll` or `.exe`.
pub open spec fn plain_library(s: Seq<u8>, n: int) -> bool {
    let end = nul_from(s, n, least(n + 64, s.len() as int));
    end > n && end - n <= 60 && printable(s, n, end) && has_suffix(s, n, end)
}

fn is_plain_library(s: &[u8], n: usize) -> (r: bool)
    requires
        addressable(s@),
        n < s@.len(),
    ensures
        r == plain_library(s@, n as int),
{
    let len: usize = s.len();
    let top: usize = if len - n >= 64 {
        n + 64
    } else {
        len
    };
    let end: usize = find_nul(s, n, top);
    if end == n || end - n > 60 || !is_printable(s, n, end) {
        return false;
    }
    if end - n < 4 || s[end - 4] != 0x2E {
        return false;
    }
    let x: u8 = to_lower(s[end - 3]);
    let y: u8 = to_lower(s[end - 2]);
    let z: u8 = to_lower(s[end - 1]);
    (x == 0x64 && y == 0x6C && z == 0x6C) || (x == 0x65 && y == 0x78 && z == 0x65)
}

/// The image with the library name at `n` deciphered, unless it is plain, and
/// its first 64 bytes in lower case.
pub open spec fn library_named(s: Seq<u8>, n: u32) -> Option<Seq<u8>> {
    let t = if plain_library(s, n as int) {
        Some(s)
    } else {
        data7(s, n as int, n as u8)
    };
    match t {
        None => None,
        Some(u) => Some(
            lowered(u, n as int, nul_from(u, n as int, least(n + 64, u.len() as int))),
        ),
    }
}

fn name_library(s: &mut [u8], n: u32) -> (r: Out<()>)
    requires
        addressable(old(s)@),
        n < old(s)@.len(),
    ensures
        match library_named(old(s)@, n) {
            Some(v) => r is Ok && final(s)@ == v,
            None => r == corrupt::<()>(),
        },
        final(s)@.len() == old(s)@.len(),
{
    if !is_plain_library(s, n as usize) {
        let key: u8 = #[verifier::truncate]
        (n as u8);
        dec7(s, n, key)?;
    }
    let len: usize = s.len();
    let from: usize = n as usize;
    let top: usize = if len - from >= 64 {
        from + 64
    } else {
        len
    };
    let end: usize = find_nul(s, from, top);
    lower_text(s, from, end);
    Ok(())
}

/// Whether an imported name at `n` reads as one: at most 250 printable bytes.
pub open spec fn plain_name(s: Seq<u8>, n: int) -> bool {
    let end = nul_from(s, n, least(n + 256, s.len() as int));
    end > n && end - n <= 250 && printable(s, n, end)
}

fn is_plain_name(s: &[u8], n: usize) -> (r: bool)
    requires
        addressable(s@),
        n < s@.len(),
    ensures
        r == plain_name(s@, n as int),
{
    let len: usize = s.len();
    let top: usize = if len - n >= 256 {
        n + 256
    } else {
        len
    };
    let end: usize = find_nul(s, n, top);
    end > n && end - n <= 250 && is_printable(s, n, end)
}

/// The image with the hint and name at `r` made plain.
pub open spec fn hint_named(s: Seq<u8>, r: u32) -> Out<Seq<u8>> {
    if r + 2 > u32::MAX {
        corrupt()
    } else if r + 2 >= s.len() || plain_name(s, r + 2) {
        Ok(s)
    } else {
        match data7(s, r + 2, r as u8) {
            None => corrupt(),
            Some(t) => Ok(put16(t, r as int, 0)),
        }
    }
}

fn name_hint(s: &mut [u8], r: u32) -> (o: Out<()>)
    requires
        addressable(old(s)@),
    ensures
        match hint_named(old(s)@, r) {
            Ok(v) => o is Ok && final(s)@ == v,
            Err(e) => o == Err::<(), UnpackError>(e),
        },
        final(s)@.len() == old(s)@.len(),
{
    let len: usize = s.len();
    if r > 0xFFFF_FFFD {
        return Err(UnpackError::CorruptInput);
    }
    if r + 2 >= len as u32 {
        return Ok(());
    }
    if !is_plain_name(s, r as usize + 2) {
        let key: u8 = #[verifier::truncate]
        (r as u8);
        dec7(s, r + 2, key)?;
        wr16(s, r, 0)?;
    }
    Ok(())
}

/// The image with the hints and names made plain that the thunks from `p` on
/// point at, up to a zero thunk or the end of the image.
pub open spec fn hints_named(s: Seq<u8>, p: u32) -> Out<Seq<u8>>
    decreases u32::MAX - p,
{
    if p == 0 {
        Ok(s)
    } else if p + 8 > u32::MAX {
        corrupt()
    } else if p + 8 > s.len() {
        Ok(s)
    } else {
        let v = w64(s, p);
        if v == 0 {
            Ok(s)
        } else if ordinal64(v) {
            hints_named(s, (p + 8) as u32)
        } else {
            match hint_named(s, (v & 0xFFFF_FFFFu64) as u32) {
                Err(e) => Err(e),
                Ok(t) => hints_named(t, (p + 8) as u32),
            }
        }
    }
}

fn name_hints(s: &mut [u8], start: u32) -> (r: Out<()>)
    requires
        addressable(old(s)@),
    ensures
        match hints_named(old(s)@, start) {
            Ok(v) => r is Ok && final(s)@ == v,
            Err(e) => r == Err::<(), UnpackError>(e),
        },
        final(s)@.len() == old(s)@.len(),
{
    let len: usize = s.len();
    if start > 0xFFFF_FFF7 {
        return Err(UnpackError::CorruptInput);
    }
    let mut p: u32 = start;
    while p != 0 && len >= 8 && p as usize <= len - 8
        invariant
            len == s@.len() == old(s)@.len(),
            addressable(s@),
            p <= 0xFFFF_FFF7,
            hints_named(old(s)@, start) == hints_named(s@, p),
        decreases u32::MAX - p,
    {
        let v: u64 = rd64(s, p)?;
        if v == 0 {
            return Ok(());
        }
        if v & 0x8000_0000_0000_0000u64 == 0 {
            let r: u32 = #[verifier::truncate]
            ((v & 0xFFFF_FFFFu64) as u32);
            name_hint(s, r)?;
        }
        p = p + 8;
    }
    Ok(())
}

/// The position behind the zero thunk of the address table at `p`, or behind the
/// last thunk inside the image.
pub open spec fn table_end(s: Seq<u8>, p: int) -> int
    decreases s.len() - p,
{
    if p + 8 > s.len() {
        p
    } else if le64(s, p) == 0 {
        p + 8
    } else {
        table_end(s, p + 8)
    }
}

fn find_table_end(s: &[u8], start: u32) -> (r: u32)
    requires
        addressable(s@),
        start < s@.len(),
    ensures
        r == table_end(s@, start as int),
        r <= s@.len(),
{
    let len: usize = s.len();
    let mut p: u32 = start;
    while len >= 8 && p as usize <= len - 8
        invariant
            len == s@.len(),
            addressable(s@),
            p <= len,
            table_end(s@, start as int) == table_end(s@, p as int),
        decreases len - p,
    {
        let v: u64 = match rd64(s, p) {
            Ok(v) => v,
            Err(_) => return p,
        };
        p = p + 8;
        if v == 0 {
            return p;
        }
    }
    p
}

/// What a walk over the import directory gathers.
#[derive(Debug, Clone, Copy, PartialEq, Eq, Structural)]
pub struct Walk {
    /// How many libraries there are.
    pub count: u32,
    /// Where the first address table starts.
    pub lo: u32,
    /// Where the last address table ends.
    pub hi: u32,
}

/// The image with the import directory from `p` on made plain, and what the walk
/// gathers behind `w`.
pub open spec fn directory_named(s: Seq<u8>, p: u32, w: Walk) -> Out<(Seq<u8>, Walk)>
    decreases u32::MAX - p,
{
    if p + 20 > u32::MAX {
        corrupt()
    } else if p + 20 > s.len() {
        Ok((s, w))
    } else {
        let name = w32(s, (p + 12) as u32);
        if name == 0 || name >= s.len() {
            Ok((s, w))
        } else {
            match library_named(s, name) {
                None => corrupt(),
                Some(a) => {
                    let oft = w32(a, p);
                    let ift = w32(a, (p + 16) as u32);
                    let first = if oft != 0 {
                        oft
                    } else {
                        ift
                    };
                    match hints_named(a, first) {
                        Err(e) => Err(e),
                        Ok(b) => {
                            let inside = 0 < ift < s.len();
                            let lo = if inside && ift < w.lo {
                                ift
                            } else {
                                w.lo
                            };
                            let end = table_end(b, ift as int);
                            let hi = if inside && end > w.hi {
                                end as u32
                            } else {
                                w.hi
                            };
                            directory_named(
                                b,
                                (p + 20) as u32,
                                Walk { count: (w.count + 1) as u32, lo, hi },
                            )
                        },
                    }
                },
            }
        }
    }
}

fn name_directory(s: &mut [u8], start: u32) -> (r: Out<Walk>)
    requires
        addressable(old(s)@),
    ensures
        match directory_named(old(s)@, start, Walk { count: 0, lo: u32::MAX, hi: 0 }) {
            Ok((v, w)) => r == Ok::<Walk, UnpackError>(w) && final(s)@ == v && 20 * w.count
                <= v.len() && (w.lo < w.hi ==> w.hi <= v.len()),
            Err(e) => r == Err::<Walk, UnpackError>(e),
        },
        final(s)@.len() == old(s)@.len(),
{
    let len: usize = s.len();
    if start > 0xFFFF_FFEB {
        return Err(UnpackError::CorruptInput);
    }
    let mut w: Walk = Walk { count: 0, lo: 0xFFFF_FFFF, hi: 0 };
    let mut p: u32 = start;
    while len >= 20 && p as usize <= len - 20
        invariant
            len == s@.len() == old(s)@.len(),
            addressable(s@),
            p <= 0xFFFF_FFEB,
            start <= p,
            20 * w.count == p - start,
            w.count > 0 ==> p <= len,
            w.hi <= len,
            directory_named(old(s)@, start, Walk { count: 0, lo: u32::MAX, hi: 0 })
                == directory_named(s@, p, w),
        decreases u32::MAX - p,
    {
        let name: u32 = rd32(s, p + 12)?;
        if name == 0 || name as usize >= len {
            return Ok(w);
        }
        name_library(s, name)?;
        let oft: u32 = rd32(s, p)?;
        let ift: u32 = rd32(s, p + 16)?;
        name_hints(
            s,
            if oft != 0 {
                oft
            } else {
                ift
            },
        )?;
        let mut lo: u32 = w.lo;
        let mut hi: u32 = w.hi;
        if 0 < ift && (ift as usize) < len {
            if ift < lo {
                lo = ift;
            }
            let end: u32 = find_table_end(s, ift);
            if end > hi {
                hi = end;
            }
        }
        w = Walk { count: w.count + 1, lo, hi };
        p = p + 20;
    }
    Ok(w)
}

/// The image with the import directory at `rva` made plain, and the sizes of the
/// directory, if `size` is zero, and of the address tables in the header at `pe`.
pub open spec fn with_imports(s: Seq<u8>, rva: u32, size: u32, pe: u32) -> Out<Seq<u8>> {
    match directory_named(s, rva, Walk { count: 0, lo: u32::MAX, hi: 0 }) {
        Err(e) => Err(e),
        Ok((a, w)) => {
            let p1 = pe.wrapping_add(0x94);
            let p2 = pe.wrapping_add(0xE8);
            let p3 = pe.wrapping_add(0xEC);
            if size == 0 && !has4(a, p1) {
                corrupt()
            } else {
                let b = if size == 0 {
                    put32(a, p1 as int, ((w.count + 1) * 20) as u32)
                } else {
                    a
                };
                if w.lo >= w.hi {
                    Ok(b)
                } else if !has4(b, p2) || !has4(b, p3) {
                    corrupt()
                } else {
                    Ok(put32(put32(b, p2 as int, w.lo), p3 as int, (w.hi - w.lo) as u32))
                }
            }
        },
    }
}

/// Make the import directory at `rva` plain.
pub fn process_imports_idt(s: &mut [u8], rva: u32, size: u32, pe: u32) -> (r: Out<()>)
    requires
        addressable(old(s)@),
    ensures
        match with_imports(old(s)@, rva, size, pe) {
            Ok(v) => r is Ok && final(s)@ == v,
            Err(e) => r == Err::<(), UnpackError>(e),
        },
        final(s)@.len() == old(s)@.len(),
{
    let w: Walk = name_directory(s, rva)?;
    if size == 0 {
        wr32(s, pe.wrapping_add(0x94), (w.count + 1) * 20)?;
    }
    if w.lo < w.hi {
        wr32(s, pe.wrapping_add(0xE8), w.lo)?;
        wr32(s, pe.wrapping_add(0xEC), w.hi - w.lo)?;
    }
    Ok(())
}

} // verus!
