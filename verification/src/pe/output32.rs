//! 32-bit images: the import directory moved to a section of its own.

use vstd::prelude::*;

use crate::bytes::{fits, put16, put32, sub_vec, zero_vec, zeroed, zeros};
use crate::error::{UnpackError, MAX_IMAGE_SIZE};
use crate::pe::discovery::{find_nul, nul_from};
use crate::pe::headers::{begins, begins_with, idata_name};
use crate::pe::imports::{least, lower, to_lower};
use crate::pe::steps::{
    clear, corrupt, has2, has4, paste, pasted, rd16, rd32, addressable, w16, w32, wr16, wr32, Out,
};

verus! {

/// The bytes of the string at `o`: up to its zero byte, the end of the image, or
/// 512 bytes.
pub open spec fn cstr(s: Seq<u8>, o: u32) -> Seq<u8> {
    if o >= s.len() {
        Seq::empty()
    } else {
        s.subrange(o as int, nul_from(s, o as int, least(o + 512, s.len() as int)))
    }
}

/// `s` in lower case.
pub open spec fn lowercase(s: Seq<u8>) -> Seq<u8> {
    Seq::new(s.len(), |i: int| lower(s[i]))
}

fn read_cstr_bounded(s: &[u8], o: u32) -> (v: Vec<u8>)
    ensures
        v@ == cstr(s@, o),
        v@.len() <= 512,
{
    let len: usize = s.len();
    let from: usize = o as usize;
    if from >= len {
        let v: Vec<u8> = Vec::new();
        assert(v@ =~= cstr(s@, o));
        return v;
    }
    let top: usize = if len - from >= 512 {
        from + 512
    } else {
        len
    };
    let end: usize = find_nul(s, from, top);
    sub_vec(s, from, end)
}

fn lower_copy(v: &Vec<u8>) -> (r: Vec<u8>)
    ensures
        r@ == lowercase(v@),
{
    let mut r: Vec<u8> = Vec::new();
    let mut i: usize = 0;
    while i < v.len()
        invariant
            i <= v@.len(),
            r@.len() == i,
            forall|k: int| 0 <= k < i ==> #[trigger] r@[k] == lower(v@[k]),
        decreases v@.len() - i,
    {
        r.push(to_lower(v[i]));
        i = i + 1;
    }
    assert(r@ =~= lowercase(v@));
    r
}

/// Whether a name ends in `.dll`, in any case.
pub open spec fn names_dll(v: Seq<u8>) -> bool {
    let n = v.len() as int;
    n >= 4 && v[n - 4] == 0x2E && lower(v[n - 3]) == 0x64 && lower(v[n - 2]) == 0x6C && lower(
        v[n - 1],
    ) == 0x6C
}

fn is_dll_name(v: &Vec<u8>) -> (r: bool)
    ensures
        r == names_dll(v@),
{
    let n: usize = v.len();
    n >= 4 && v[n - 4] == 0x2E && to_lower(v[n - 3]) == 0x64 && to_lower(v[n - 2]) == 0x6C
        && to_lower(v[n - 1]) == 0x6C
}

/// The position behind the zero thunk of the address table at `p`, or behind the
/// last thunk in front of `end`.
pub open spec fn table_end(s: Seq<u8>, p: u32, end: u32) -> Out<u32>
    decreases u32::MAX - p,
{
    if p.wrapping_add(4) > end {
        Ok(p)
    } else if !has4(s, p) || p + 4 > u32::MAX {
        corrupt()
    } else if w32(s, p) == 0 {
        Ok((p + 4) as u32)
    } else {
        table_end(s, (p + 4) as u32, end)
    }
}

fn find_table_end(s: &[u8], start: u32, end: u32) -> (r: Out<u32>)
    requires
        addressable(s@),
    ensures
        r == table_end(s@, start, end),
{
    let mut p: u32 = start;
    while p.wrapping_add(4) <= end
        invariant
            addressable(s@),
            table_end(s@, start, end) == table_end(s@, p, end),
        decreases u32::MAX - p,
    {
        let v: u32 = rd32(s, p)?;
        p = p + 4;
        if v == 0 {
            return Ok(p);
        }
    }
    Ok(p)
}

/// The address tables of the import descriptors from `p` on, as where they start
/// and end: `None` where a descriptor's tables leave the section `va..end`.
pub open spec fn tables_inside(
    s: Seq<u8>,
    p: u32,
    va: u32,
    end: u32,
    lo: u32,
    hi: u32,
) -> Out<Option<(u32, u32)>>
    decreases u32::MAX - p,
{
    if p + 20 > s.len() || p + 20 > u32::MAX {
        Ok(Some((lo, hi)))
    } else {
        let oft = w32(s, p);
        let name = w32(s, (p + 12) as u32);
        let iat = w32(s, (p + 16) as u32);
        if oft == 0 && name == 0 && iat == 0 {
            Ok(Some((lo, hi)))
        } else if !(va <= oft < end && va <= iat < end) {
            Ok(None)
        } else {
            match table_end(s, iat, end) {
                Err(e) => Err(e),
                Ok(t) => tables_inside(
                    s,
                    (p + 20) as u32,
                    va,
                    end,
                    if iat < lo {
                        iat
                    } else {
                        lo
                    },
                    if t > hi {
                        t
                    } else {
                        hi
                    },
                ),
            }
        }
    }
}

fn find_tables(s: &[u8], start: u32, va: u32, end: u32, first: u32) -> (r: Out<Option<(u32, u32)>>)
    requires
        addressable(s@),
    ensures
        r == tables_inside(s@, start, va, end, first, first),
{
    let len: usize = s.len();
    let mut lo: u32 = first;
    let mut hi: u32 = first;
    let mut p: u32 = start;
    while len >= 20 && p as usize <= len - 20
        invariant
            addressable(s@),
            len == s@.len(),
            tables_inside(s@, start, va, end, first, first) == tables_inside(
                s@,
                p,
                va,
                end,
                lo,
                hi,
            ),
        decreases u32::MAX - p,
    {
        let oft: u32 = rd32(s, p)?;
        let name: u32 = rd32(s, p + 12)?;
        let iat: u32 = rd32(s, p + 16)?;
        if oft == 0 && name == 0 && iat == 0 {
            return Ok(Some((lo, hi)));
        }
        if !(va <= oft && oft < end && va <= iat && iat < end) {
            return Ok(None);
        }
        let t: u32 = find_table_end(s, iat, end)?;
        if iat < lo {
            lo = iat;
        }
        if t > hi {
            hi = t;
        }
        p = p + 20;
    }
    Ok(Some((lo, hi)))
}

/// The address tables of an import directory at `rva` that lies as it did before
/// protection in the section `va..end`: `None` where it does not.
pub open spec fn tables_in_section(s: Seq<u8>, rva: u32, va: u32, end: u32) -> Out<
    Option<(u32, u32)>,
> {
    if !has4(s, rva) || !has4(s, rva.wrapping_add(12)) || !has4(s, rva.wrapping_add(16)) {
        corrupt()
    } else {
        let oft = w32(s, rva);
        let name = w32(s, rva.wrapping_add(12));
        let iat = w32(s, rva.wrapping_add(16));
        if !(va <= oft < end && va <= iat < end) || !(0x1000 < name < s.len()) || !names_dll(
            cstr(s, name),
        ) {
            Ok(None)
        } else {
            tables_inside(s, rva, va, end, iat, iat)
        }
    }
}

fn find_tables_in(s: &[u8], rva: u32, va: u32, end: u32) -> (r: Out<Option<(u32, u32)>>)
    requires
        addressable(s@),
    ensures
        r == tables_in_section(s@, rva, va, end),
{
    let len: usize = s.len();
    let oft: u32 = rd32(s, rva)?;
    let name: u32 = rd32(s, rva.wrapping_add(12))?;
    let iat: u32 = rd32(s, rva.wrapping_add(16))?;
    if !(va <= oft && oft < end && va <= iat && iat < end) {
        return Ok(None);
    }
    if !(0x1000 < name && (name as usize) < len) {
        return Ok(None);
    }
    let text: Vec<u8> = read_cstr_bounded(s, name);
    if !is_dll_name(&text) {
        return Ok(None);
    }
    find_tables(s, rva, va, end, iat)
}

/// The bounds of the section at `p`, if it is `.idata` and holds the import
/// directory.
pub open spec fn idata_bounds(s: Seq<u8>, p: u32, rva: u32, size: u32) -> Option<(u32, u32)> {
    let va = w32(s, p.wrapping_add(12));
    let vs = w32(s, p.wrapping_add(8));
    let rs = w32(s, p.wrapping_add(16));
    let end = va.wrapping_add(
        if vs >= rs {
            vs
        } else {
            rs
        },
    );
    if s.subrange(p as int, p + 6) == idata_name() && va <= rva < end && rva.wrapping_add(size)
        <= end {
        Some((va, end))
    } else {
        None
    }
}

/// The address tables of the import directory, if the first `.idata` from section
/// `i` on that holds the directory holds it as it was before protection.
pub open spec fn tables_from(s: Seq<u8>, table: u32, i: int, n: int, rva: u32, size: u32) -> Out<
    Option<(u32, u32)>,
>
    decreases n - i,
{
    let p = table.wrapping_add((i * 40) as u32);
    if i >= n || p + 40 > s.len() {
        Ok(None)
    } else {
        match idata_bounds(s, p, rva, size) {
            Some((va, end)) => tables_in_section(s, rva, va, end),
            None => tables_from(s, table, i + 1, n, rva, size),
        }
    }
}

/// The address tables of the import directory that the header at `pe` names.
pub open spec fn kept_tables(s: Seq<u8>, pe: u32) -> Out<Option<(u32, u32)>> {
    if !has2(s, pe.wrapping_add(20)) || !has2(s, pe.wrapping_add(6)) || !has4(
        s,
        pe.wrapping_add(0x80),
    ) || !has4(s, pe.wrapping_add(0x84)) {
        corrupt()
    } else {
        let rva = w32(s, pe.wrapping_add(0x80));
        let size = w32(s, pe.wrapping_add(0x84));
        if rva == 0 || size == 0 {
            Ok(None)
        } else {
            tables_from(
                s,
                pe.wrapping_add(24).wrapping_add(w16(s, pe.wrapping_add(20)) as u32),
                0,
                w16(s, pe.wrapping_add(6)) as int,
                rva,
                size,
            )
        }
    }
}

/// Whether the import directory lies as it did before protection, and the image
/// then: the header at `pe` names the address tables.
pub open spec fn idata_kept(s: Seq<u8>, pe: u32) -> Out<(Seq<u8>, bool)> {
    match kept_tables(s, pe) {
        Err(e) => Err(e),
        Ok(None) => Ok((s, false)),
        Ok(Some((lo, hi))) => if hi <= lo {
            Ok((s, true))
        } else if !has4(s, pe.wrapping_add(0xD8)) || !has4(s, pe.wrapping_add(0xDC)) {
            corrupt()
        } else {
            Ok(
                (
                    put32(
                        put32(s, pe.wrapping_add(0xD8) as int, lo),
                        pe.wrapping_add(0xDC) as int,
                        (hi - lo) as u32,
                    ),
                    true,
                ),
            )
        },
    }
}

fn find_bounds(s: &[u8], p: u32, rva: u32, size: u32) -> (r: Option<(u32, u32)>)
    requires
        addressable(s@),
        p + 40 <= s@.len(),
    ensures
        r == idata_bounds(s@, p, rva, size),
{
    let (va, vs, rs): (u32, u32, u32) = match (rd32(s, p + 12), rd32(s, p + 8), rd32(s, p + 16)) {
        (Ok(a), Ok(b), Ok(c)) => (a, b, c),
        _ => return None,
    };
    let end: u32 = va.wrapping_add(
        if vs >= rs {
            vs
        } else {
            rs
        },
    );
    let name: Vec<u8> = sub_vec(s, p as usize, p as usize + 6);
    let idata: Vec<u8> = vec![0x2Eu8, 0x69u8, 0x64u8, 0x61u8, 0x74u8, 0x61u8];
    assert(idata@ =~= idata_name());
    assert(name@.subrange(0, 6) =~= name@);
    if begins_with(&name, &idata) && va <= rva && rva < end && rva.wrapping_add(size) <= end {
        Some((va, end))
    } else {
        None
    }
}

fn find_kept_tables(s: &[u8], pe: u32) -> (r: Out<Option<(u32, u32)>>)
    requires
        addressable(s@),
    ensures
        r == kept_tables(s@, pe),
{
    let opt: u16 = rd16(s, pe.wrapping_add(20))?;
    let n: u16 = rd16(s, pe.wrapping_add(6))?;
    let rva: u32 = rd32(s, pe.wrapping_add(0x80))?;
    let size: u32 = rd32(s, pe.wrapping_add(0x84))?;
    if rva == 0 || size == 0 {
        return Ok(None);
    }
    let table: u32 = pe.wrapping_add(24).wrapping_add(opt as u32);
    let len: usize = s.len();
    let mut i: u32 = 0;
    while i < n as u32
        invariant
            addressable(s@),
            len == s@.len(),
            i <= n,
            kept_tables(s@, pe) == tables_from(s@, table, i as int, n as int, rva, size),
        decreases n - i,
    {
        let p: u32 = table.wrapping_add(i * 40);
        if len < 40 || p as usize > len - 40 {
            return Ok(None);
        }
        match find_bounds(s, p, rva, size) {
            Some((va, end)) => {
                return find_tables_in(s, rva, va, end);
            },
            None => {},
        }
        i = i + 1;
    }
    Ok(None)
}

/// [`pe32_imports_already_match_idata_layout`] for any image.
pub fn idata_kept_checked(s: &mut [u8], pe: u32) -> (r: Out<bool>)
    requires
        addressable(old(s)@),
    ensures
        match idata_kept(old(s)@, pe) {
            Ok((v, b)) => r == Ok::<bool, UnpackError>(b) && final(s)@ == v,
            Err(e) => r == Err::<bool, UnpackError>(e),
        },
        final(s)@.len() == old(s)@.len(),
{
    match find_kept_tables(s, pe)? {
        None => Ok(false),
        Some((lo, hi)) => {
            if hi > lo {
                wr32(s, pe.wrapping_add(0xD8), lo)?;
                wr32(s, pe.wrapping_add(0xDC), hi - lo)?;
            }
            Ok(true)
        },
    }
}

/// Whether the import directory of a 32-bit image lies in `.idata` as it did
/// before protection; the header at `pe_header` then names its address tables.
pub fn pe32_imports_already_match_idata_layout(data: &mut [u8], pe_header: u32) -> (r: bool)
    requires
        addressable(old(data)@),
        idata_kept(old(data)@, pe_header) is Ok,
    ensures
        idata_kept(old(data)@, pe_header) == Ok::<(Seq<u8>, bool), UnpackError>((final(data)@, r)),
        final(data)@.len() == old(data)@.len(),
{
    match idata_kept_checked(data, pe_header) {
        Ok(b) => b,
        Err(_) => false,
    }
}

/// An imported function.
pub enum ImportFunc {
    Ordinal(u32),
    Name(u16, Vec<u8>),
}

/// An import descriptor.
pub struct ImportDesc {
    pub time_date: u32,
    pub fwd_chain: u32,
    pub dll_name: Vec<u8>,
    pub iat_rva: u32,
    pub functions: Vec<ImportFunc>,
}

/// What an [`ImportFunc`] says.
pub enum Func {
    Ordinal(u32),
    Name(u16, Seq<u8>),
}

/// What an [`ImportDesc`] says.
pub struct Desc {
    pub time_date: u32,
    pub fwd_chain: u32,
    pub dll_name: Seq<u8>,
    pub iat_rva: u32,
    pub functions: Seq<Func>,
}

impl View for ImportFunc {
    type V = Func;

    open spec fn view(&self) -> Func {
        match *self {
            ImportFunc::Ordinal(o) => Func::Ordinal(o),
            ImportFunc::Name(h, n) => Func::Name(h, n@),
        }
    }
}

/// What a list of functions says.
pub open spec fn funcs_view(v: Seq<ImportFunc>) -> Seq<Func> {
    Seq::new(v.len(), |i: int| v[i]@)
}

impl View for ImportDesc {
    type V = Desc;

    open spec fn view(&self) -> Desc {
        Desc {
            time_date: self.time_date,
            fwd_chain: self.fwd_chain,
            dll_name: self.dll_name@,
            iat_rva: self.iat_rva,
            functions: funcs_view(self.functions@),
        }
    }
}

/// What a list of descriptors says.
pub open spec fn descs_view(v: Seq<ImportDesc>) -> Seq<Desc> {
    Seq::new(v.len(), |i: int| v[i]@)
}

/// The function that a thunk names.
pub open spec fn func_of(s: Seq<u8>, v: u32) -> Func {
    if v & 0x8000_0000u32 != 0 {
        Func::Ordinal(v & 0xFFFFu32)
    } else {
        let o = v.wrapping_add(2);
        Func::Name(
            if o <= s.len() {
                w16(s, v)
            } else {
                0
            },
            if o < s.len() {
                cstr(s, o)
            } else {
                Seq::empty()
            },
        )
    }
}

/// `found` and the functions that the thunks from `p` on name, up to a zero thunk
/// or the end of the image.
pub open spec fn funcs_from(s: Seq<u8>, p: u32, found: Seq<Func>) -> Seq<Func>
    decreases u32::MAX - p,
{
    if p + 4 > u32::MAX || !(0x1000 < p + 4 <= s.len()) || w32(s, p) == 0 {
        found
    } else {
        funcs_from(s, (p + 4) as u32, found.push(func_of(s, w32(s, p))))
    }
}

/// `"api-ms-win-crt-"`.
pub open spec fn api_set() -> Seq<u8> {
    seq![
        0x61u8, 0x70u8, 0x69u8, 0x2Du8, 0x6Du8, 0x73u8, 0x2Du8, 0x77u8, 0x69u8, 0x6Eu8, 0x2Du8,
        0x63u8, 0x72u8, 0x74u8, 0x2Du8,
    ]
}

/// `"ucrtbase.dll"`.
pub open spec fn runtime_name() -> Seq<u8> {
    seq![
        0x75u8, 0x63u8, 0x72u8, 0x74u8, 0x62u8, 0x61u8, 0x73u8, 0x65u8, 0x2Eu8, 0x64u8, 0x6Cu8,
        0x6Cu8,
    ]
}

/// The library name in lower case; the runtime's API sets become the runtime.
pub open spec fn library_name(v: Seq<u8>) -> Seq<u8> {
    if begins(lowercase(v), api_set()) {
        runtime_name()
    } else {
        lowercase(v)
    }
}

/// The descriptor at `p`.
pub open spec fn desc_at(s: Seq<u8>, p: u32) -> Desc {
    let oft = w32(s, p);
    let iat = w32(s, (p + 16) as u32);
    Desc {
        time_date: w32(s, (p + 4) as u32),
        fwd_chain: w32(s, (p + 8) as u32),
        dll_name: library_name(cstr(s, w32(s, (p + 12) as u32))),
        iat_rva: iat,
        functions: funcs_from(
            s,
            if 0x1000 < oft < s.len() {
                oft
            } else {
                iat
            },
            Seq::empty(),
        ),
    }
}

/// Where a descriptor whose address table stands at `iat` goes in a sorted list:
/// in front of the first from `k` on whose table stands behind it.
pub open spec fn place_of(list: Seq<Desc>, iat: u32, k: int) -> int
    decreases list.len() - k,
{
    if k >= list.len() || list[k].iat_rva > iat {
        k
    } else {
        place_of(list, iat, k + 1)
    }
}

/// `list` with `d` at its place.
pub open spec fn placed(list: Seq<Desc>, d: Desc) -> Seq<Desc> {
    list.insert(place_of(list, d.iat_rva, 0), d)
}

/// `found` and the descriptors from `p` on, each at its place, up to a blank one
/// or one without a name.
pub open spec fn descs_from(s: Seq<u8>, p: u32, found: Seq<Desc>) -> Seq<Desc>
    decreases u32::MAX - p,
{
    if p + 20 > s.len() || p + 20 > u32::MAX {
        found
    } else {
        let oft = w32(s, p);
        let name = w32(s, (p + 12) as u32);
        let iat = w32(s, (p + 16) as u32);
        if (oft == 0 && name == 0 && iat == 0) || !(0x1000 < name < s.len()) {
            found
        } else {
            descs_from(s, (p + 20) as u32, placed(found, desc_at(s, p)))
        }
    }
}

/// Whether the descriptors stand in the order of their address tables.
pub open spec fn in_order(list: Seq<Desc>) -> bool {
    forall|i: int, j: int| 0 <= i <= j < list.len() ==> list[i].iat_rva <= list[j].iat_rva
}

proof fn place_bounds(list: Seq<Desc>, iat: u32, k: int)
    requires
        0 <= k <= list.len(),
    ensures
        k <= place_of(list, iat, k) <= list.len(),
        forall|i: int| k <= i < place_of(list, iat, k) ==> list[i].iat_rva <= iat,
        place_of(list, iat, k) < list.len() ==> list[place_of(list, iat, k)].iat_rva > iat,
    decreases list.len() - k,
{
    if k < list.len() && list[k].iat_rva <= iat {
        place_bounds(list, iat, k + 1);
    }
}

/// Putting a descriptor at its place keeps a list in order.
pub proof fn placing_keeps_order(list: Seq<Desc>, d: Desc)
    requires
        in_order(list),
    ensures
        in_order(placed(list, d)),
{
    place_bounds(list, d.iat_rva, 0);
}

/// The descriptors of an import directory come out in the order of their address
/// tables.
pub proof fn descriptors_come_in_order(s: Seq<u8>, p: u32, found: Seq<Desc>)
    requires
        in_order(found),
    ensures
        in_order(descs_from(s, p, found)),
    decreases u32::MAX - p,
{
    if p + 20 <= s.len() && p + 20 <= u32::MAX {
        placing_keeps_order(found, desc_at(s, p));
        descriptors_come_in_order(s, (p + 20) as u32, placed(found, desc_at(s, p)));
    }
}

fn read_func(s: &[u8], v: u32) -> (r: ImportFunc)
    requires
        addressable(s@),
    ensures
        r@ == func_of(s@, v),
        r matches ImportFunc::Name(_, n) ==> n@.len() <= 512,
{
    if v & 0x8000_0000u32 != 0 {
        return ImportFunc::Ordinal(v & 0xFFFFu32);
    }
    assert(v < 0x8000_0000u32) by (bit_vector)
        requires
            v & 0x8000_0000u32 == 0,
    ;
    let len: usize = s.len();
    let o: u32 = v + 2;
    let hint: u16 = match rd16(s, v) {
        Ok(h) => h,
        Err(_) => 0,
    };
    if (o as usize) < len {
        ImportFunc::Name(hint, read_cstr_bounded(s, o))
    } else {
        let name: Vec<u8> = Vec::new();
        assert(name@ =~= Seq::empty());
        ImportFunc::Name(hint, name)
    }
}

/// Whether every name of a list of functions is short.
pub open spec fn short_funcs(v: Seq<ImportFunc>) -> bool {
    forall|i: int|
        0 <= i < v.len() ==> (#[trigger] v[i] matches ImportFunc::Name(_, n) ==> n@.len() <= 512)
}

fn read_funcs(s: &[u8], start: u32) -> (r: Vec<ImportFunc>)
    requires
        addressable(s@),
    ensures
        funcs_view(r@) == funcs_from(s@, start, Seq::empty()),
        short_funcs(r@),
        4 * r@.len() <= s@.len(),
{
    let len: usize = s.len();
    let mut list: Vec<ImportFunc> = Vec::new();
    assert(funcs_view(list@) =~= Seq::empty());
    if start > 0xFFFF_FFFB {
        return list;
    }
    let mut p: u32 = start;
    while p + 4 > 0x1000 && (p + 4) as usize <= len
        invariant
            addressable(s@),
            len == s@.len(),
            p <= 0xFFFF_FFFB,
            start <= p,
            p - start == 4 * list@.len(),
            list@.len() > 0 ==> p <= len,
            short_funcs(list@),
            funcs_from(s@, start, Seq::empty()) == funcs_from(s@, p, funcs_view(list@)),
        decreases u32::MAX - p,
    {
        let v: u32 = match rd32(s, p) {
            Ok(v) => v,
            Err(_) => return list,
        };
        if v == 0 {
            return list;
        }
        let f: ImportFunc = read_func(s, v);
        let ghost before = list@;
        list.push(f);
        assert(funcs_view(list@) =~= funcs_view(before).push(func_of(s@, v)));
        p = p + 4;
    }
    list
}

fn name_library(v: &Vec<u8>) -> (r: Vec<u8>)
    requires
        v@.len() <= 512,
    ensures
        r@ == library_name(v@),
        r@.len() <= 512,
{
    let low: Vec<u8> = lower_copy(v);
    let set: Vec<u8> = vec![
        0x61u8, 0x70u8, 0x69u8, 0x2Du8, 0x6Du8, 0x73u8, 0x2Du8, 0x77u8, 0x69u8, 0x6Eu8, 0x2Du8,
        0x63u8, 0x72u8, 0x74u8, 0x2Du8,
    ];
    assert(set@ =~= api_set());
    if begins_with(&low, &set) {
        let run: Vec<u8> = vec![
            0x75u8, 0x63u8, 0x72u8, 0x74u8, 0x62u8, 0x61u8, 0x73u8, 0x65u8, 0x2Eu8, 0x64u8, 0x6Cu8,
            0x6Cu8,
        ];
        assert(run@ =~= runtime_name());
        run
    } else {
        low
    }
}

/// Whether a descriptor's names are short.
pub open spec fn short_desc(d: ImportDesc) -> bool {
    d.dll_name@.len() <= 512 && short_funcs(d.functions@)
}

/// Whether the names of every descriptor are short.
pub open spec fn short_descs(v: Seq<ImportDesc>) -> bool {
    forall|i: int| 0 <= i < v.len() ==> #[trigger] short_desc(v[i])
}

fn read_desc(s: &[u8], p: u32) -> (r: ImportDesc)
    requires
        addressable(s@),
        p + 20 <= s@.len(),
    ensures
        r@ == desc_at(s@, p),
        short_desc(r),
        4 * r.functions@.len() <= s@.len(),
{
    let len: usize = s.len();
    let (oft, time_date, fwd_chain): (u32, u32, u32) = match (
        rd32(s, p),
        rd32(s, p + 4),
        rd32(s, p + 8),
    ) {
        (Ok(a), Ok(b), Ok(c)) => (a, b, c),
        _ => (0, 0, 0),
    };
    let (name, iat_rva): (u32, u32) = match (rd32(s, p + 12), rd32(s, p + 16)) {
        (Ok(a), Ok(b)) => (a, b),
        _ => (0, 0),
    };
    let text: Vec<u8> = read_cstr_bounded(s, name);
    let dll_name: Vec<u8> = name_library(&text);
    let functions: Vec<ImportFunc> = read_funcs(
        s,
        if 0x1000 < oft && (oft as usize) < len {
            oft
        } else {
            iat_rva
        },
    );
    ImportDesc { time_date, fwd_chain, dll_name, iat_rva, functions }
}

fn find_place(list: &Vec<ImportDesc>, iat: u32) -> (r: usize)
    ensures
        r == place_of(descs_view(list@), iat, 0),
        r <= list@.len(),
{
    let n: usize = list.len();
    let mut k: usize = 0;
    while k < n
        invariant
            k <= n == list@.len(),
            place_of(descs_view(list@), iat, 0) == place_of(descs_view(list@), iat, k as int),
        decreases n - k,
    {
        if list[k].iat_rva > iat {
            return k;
        }
        k = k + 1;
    }
    k
}

fn read_descs(s: &[u8], start: u32) -> (r: Vec<ImportDesc>)
    requires
        addressable(s@),
    ensures
        descs_view(r@) == descs_from(s@, start, Seq::empty()),
        short_descs(r@),
        20 * r@.len() <= s@.len(),
        forall|i: int| 0 <= i < r@.len() ==> 4 * (#[trigger] r@[i]).functions@.len() <= s@.len(),
{
    let len: usize = s.len();
    let mut list: Vec<ImportDesc> = Vec::new();
    assert(descs_view(list@) =~= Seq::empty());
    let mut p: u32 = start;
    while len >= 20 && p as usize <= len - 20
        invariant
            addressable(s@),
            len == s@.len(),
            start <= p,
            p - start == 20 * list@.len(),
            list@.len() > 0 ==> p <= len,
            short_descs(list@),
            forall|i: int|
                0 <= i < list@.len() ==> 4 * (#[trigger] list@[i]).functions@.len() <= s@.len(),
            descs_from(s@, start, Seq::empty()) == descs_from(s@, p, descs_view(list@)),
        decreases u32::MAX - p,
    {
        let (oft, name, iat): (u32, u32, u32) = match (
            rd32(s, p),
            rd32(s, p + 12),
            rd32(s, p + 16),
        ) {
            (Ok(a), Ok(b), Ok(c)) => (a, b, c),
            _ => return list,
        };
        if (oft == 0 && name == 0 && iat == 0) || !(0x1000 < name && (name as usize) < len) {
            return list;
        }
        let d: ImportDesc = read_desc(s, p);
        let k: usize = find_place(&list, d.iat_rva);
        let ghost before = list@;
        let ghost dv = d@;
        list.insert(k, d);
        assert(descs_view(list@) =~= placed(descs_view(before), dv));
        assert forall|i: int| 0 <= i < list@.len() implies #[trigger] short_desc(list@[i]) by {
            if i < k {
                assert(short_desc(before[i]));
            } else if i > k {
                assert(short_desc(before[i - 1]));
            }
        }
        assert forall|i: int| 0 <= i < list@.len() implies 4 * (
        #[trigger] list@[i]).functions@.len() <= s@.len() by {
            if i < k {
                assert(list@[i] == before[i]);
            } else if i > k {
                assert(list@[i] == before[i - 1]);
            }
        }
        p = p + 20;
    }
    list
}

/// The size of the section that holds the moved import directory.
pub const SECTION_SIZE: u32 = 0x7000;

/// The position behind the lookup tables of the descriptors from `i` on, the first
/// at `p`.
pub open spec fn lookup_end(ds: Seq<Desc>, i: int, p: u32) -> u32
    decreases ds.len() - i,
{
    if i >= ds.len() {
        p
    } else {
        lookup_end(ds, i + 1, p.wrapping_add(((ds[i].functions.len() + 1) * 4) as u32))
    }
}

/// Where the moved directory stands.
pub open spec fn moved_rva(ds: Seq<Desc>, rva: u32) -> u32 {
    (lookup_end(ds, 0, rva).wrapping_add(0x2C).wrapping_add(3) / 4).wrapping_mul(4)
}

/// The position behind the names of the functions from `j` on, the first at `p`.
pub open spec fn func_names_end(fs: Seq<Func>, j: int, p: u32) -> u32
    decreases fs.len() - j,
{
    if j >= fs.len() {
        p
    } else {
        func_names_end(
            fs,
            j + 1,
            match fs[j] {
                Func::Ordinal(_) => p,
                Func::Name(_, n) => p.wrapping_add((n.len() + 3) as u32),
            },
        )
    }
}

/// The position behind the names of the descriptors from `i` on, the first at `p`.
pub open spec fn names_end(ds: Seq<Desc>, i: int, p: u32) -> u32
    decreases ds.len() - i,
{
    if i >= ds.len() {
        p
    } else {
        names_end(
            ds,
            i + 1,
            func_names_end(ds[i].functions, 0, p.wrapping_add((ds[i].dll_name.len() + 1) as u32)),
        )
    }
}

/// The image with the lookup table at `oft` of the functions from `j` on, their
/// names from `name` on; and the positions behind both.
pub open spec fn funcs_built(s: Seq<u8>, fs: Seq<Func>, j: int, oft: u32, name: u32) -> Out<
    (Seq<u8>, u32, u32),
>
    decreases fs.len() - j,
{
    if !has4(s, oft) {
        corrupt()
    } else if j >= fs.len() {
        Ok((put32(s, oft as int, 0), oft.wrapping_add(4), name))
    } else {
        match fs[j] {
            Func::Ordinal(o) => funcs_built(
                put32(s, oft as int, 0x8000_0000u32 | o),
                fs,
                j + 1,
                oft.wrapping_add(4),
                name,
            ),
            Func::Name(h, n) => {
                let a = put32(s, oft as int, name);
                if !has2(a, name) {
                    corrupt()
                } else {
                    match pasted(
                        put16(a, name as int, h),
                        name + 2,
                        n.push(0),
                        0,
                        n.len() as int + 1,
                    ) {
                        Err(e) => Err(e),
                        Ok(b) => funcs_built(
                            b,
                            fs,
                            j + 1,
                            oft.wrapping_add(4),
                            name.wrapping_add((n.len() + 3) as u32),
                        ),
                    }
                }
            },
        }
    }
}

/// The image with the fields of a descriptor at `e`, its lookup table at `oft` and
/// its name at `name`.
pub open spec fn desc_built(s: Seq<u8>, d: Desc, e: u32, oft: u32, name: u32) -> Out<Seq<u8>> {
    let p1 = e.wrapping_add(4);
    let p2 = e.wrapping_add(8);
    let p3 = e.wrapping_add(12);
    let p4 = e.wrapping_add(16);
    if !has4(s, e) || !has4(s, p1) || !has4(s, p2) || !has4(s, p3) || !has4(s, p4) {
        corrupt()
    } else {
        let a = put32(put32(s, e as int, oft), p1 as int, d.time_date);
        let b = put32(put32(a, p2 as int, d.fwd_chain), p3 as int, name);
        pasted(
            put32(b, p4 as int, d.iat_rva),
            name as int,
            d.dll_name.push(0),
            0,
            d.dll_name.len() as int + 1,
        )
    }
}

/// The image with the descriptors from `i` on in the directory at `idt`.
pub open spec fn descs_built(s: Seq<u8>, ds: Seq<Desc>, i: int, idt: u32, oft: u32, name: u32) -> Out<
    Seq<u8>,
>
    decreases ds.len() - i,
{
    if i >= ds.len() {
        Ok(s)
    } else {
        match desc_built(s, ds[i], idt.wrapping_add((i * 20) as u32), oft, name) {
            Err(e) => Err(e),
            Ok(a) => match funcs_built(
                a,
                ds[i].functions,
                0,
                oft,
                name.wrapping_add((ds[i].dll_name.len() + 1) as u32),
            ) {
                Err(e) => Err(e),
                Ok((b, o, n)) => descs_built(b, ds, i + 1, idt, o, n),
            },
        }
    }
}

/// `".kmiat"`.
pub open spec fn section_title() -> Seq<u8> {
    seq![0x2Eu8, 0x6Bu8, 0x6Du8, 0x69u8, 0x61u8, 0x74u8, 0u8, 0u8]
}

/// The image with the section header at `last` and the header at `pe` describing
/// the moved directory.
pub open spec fn move_described(s: Seq<u8>, pe: u32, last: u32, rva: u32, idt: u32, size: u32) -> Out<
    Seq<u8>,
> {
    let p1 = last.wrapping_add(8);
    let p2 = last.wrapping_add(16);
    let p3 = last.wrapping_add(36);
    let q1 = pe.wrapping_add(0x80);
    let q2 = pe.wrapping_add(0x84);
    let q3 = pe.wrapping_add(80);
    match pasted(s, last as int, section_title(), 0, 8) {
        Err(e) => Err(e),
        Ok(a) => if !has4(a, p1) || !has4(a, p2) || !has4(a, p3) || !has4(a, q1) || !has4(a, q2)
            || !has4(a, q3) {
            corrupt()
        } else {
            let b = put32(put32(a, p1 as int, SECTION_SIZE), p2 as int, SECTION_SIZE);
            let c = put32(put32(b, p3 as int, 0xE000_0060), q1 as int, idt);
            Ok(put32(put32(c, q2 as int, size), q3 as int, rva.wrapping_add(SECTION_SIZE)))
        },
    }
}

/// `s`, as long as `end` at least, with the bytes in `rva..end` cleared.
pub open spec fn room_made(s: Seq<u8>, rva: u32, end: int) -> Seq<u8> {
    let grown = if end > s.len() {
        s + zeros((end - s.len()) as nat)
    } else {
        s
    };
    zeroed(grown, rva as int, end - rva)
}

/// The image with the descriptors in the section at `rva`, whose header stands at
/// `last`; where they need more room than the section has, the image stays as it is.
pub open spec fn descs_moved(s: Seq<u8>, pe: u32, last: u32, rva: u32, ds: Seq<Desc>) -> Out<
    Seq<u8>,
> {
    let a = room_made(s, rva, rva + SECTION_SIZE);
    let idt = moved_rva(ds, rva);
    let size = ((ds.len() + 1) * 20) as u32;
    let first = idt.wrapping_add(size);
    if names_end(ds, 0, first) > rva.wrapping_add(SECTION_SIZE) {
        Ok(s)
    } else {
        match descs_built(a, ds, 0, idt, rva, first) {
            Err(e) => Err(e),
            Ok(b) => {
                let term = idt.wrapping_add((ds.len() * 20) as u32);
                if !fits(b, term as int, 20) {
                    corrupt()
                } else {
                    move_described(zeroed(b, term as int, 20), pe, last, rva, idt, size)
                }
            },
        }
    }
}

/// The image with its import directory, sorted by address table, moved to the last
/// section. It stays as it is where there is no section or no directory, where the
/// last section starts at zero or would end beyond the largest image, and where the
/// directory needs more room than the section has.
pub open spec fn imports_moved(s: Seq<u8>, pe: u32) -> Out<Seq<u8>> {
    if !has2(s, pe.wrapping_add(20)) || !has2(s, pe.wrapping_add(6)) {
        corrupt()
    } else {
        let n = w16(s, pe.wrapping_add(6)) as int;
        let table = pe.wrapping_add(24).wrapping_add(w16(s, pe.wrapping_add(20)) as u32);
        if n == 0 {
            Ok(s)
        } else if !has4(s, pe.wrapping_add(0x80)) || !has4(s, pe.wrapping_add(0x84)) {
            corrupt()
        } else {
            let at = w32(s, pe.wrapping_add(0x80));
            let size = w32(s, pe.wrapping_add(0x84));
            let ds = descs_from(s, at, Seq::empty());
            let last = table.wrapping_add(((n - 1) * 40) as u32);
            if !(0x1000 < at < s.len() && 0 < size < SECTION_SIZE) || ds.len() == 0 {
                Ok(s)
            } else if !has4(s, last.wrapping_add(12)) {
                corrupt()
            } else {
                let rva = w32(s, last.wrapping_add(12));
                if rva == 0 || rva + SECTION_SIZE > MAX_IMAGE_SIZE {
                    Ok(s)
                } else {
                    descs_moved(s, pe, last, rva, ds)
                }
            }
        }
    }
}

/// An image whose last section starts at zero, or would end beyond the largest
/// image, stays as it is.
pub proof fn bad_last_section_moves_nothing(s: Seq<u8>, pe: u32)
    requires
        imports_moved(s, pe) is Ok,
        ({
            let table = pe.wrapping_add(24).wrapping_add(w16(s, pe.wrapping_add(20)) as u32);
            let last = table.wrapping_add(((w16(s, pe.wrapping_add(6)) - 1) * 40) as u32);
            let rva = w32(s, last.wrapping_add(12));
            rva == 0 || rva + SECTION_SIZE > MAX_IMAGE_SIZE
        }),
    ensures
        imports_moved(s, pe) == Ok::<Seq<u8>, UnpackError>(s),
{
}

/// An image whose import directory, with its lookup tables and names, needs more room
/// than the last section has stays as it is.
pub proof fn too_many_imports_move_nothing(s: Seq<u8>, pe: u32)
    requires
        imports_moved(s, pe) is Ok,
        ({
            let table = pe.wrapping_add(24).wrapping_add(w16(s, pe.wrapping_add(20)) as u32);
            let last = table.wrapping_add(((w16(s, pe.wrapping_add(6)) - 1) * 40) as u32);
            let rva = w32(s, last.wrapping_add(12));
            let ds = descs_from(s, w32(s, pe.wrapping_add(0x80)), Seq::empty());
            let first = moved_rva(ds, rva).wrapping_add(((ds.len() + 1) * 20) as u32);
            names_end(ds, 0, first) > rva.wrapping_add(SECTION_SIZE)
        }),
    ensures
        imports_moved(s, pe) == Ok::<Seq<u8>, UnpackError>(s),
{
}

fn make_room(v: &mut Vec<u8>, rva: u32)
    requires
        rva + SECTION_SIZE <= MAX_IMAGE_SIZE,
    ensures
        final(v)@ == room_made(old(v)@, rva, rva + SECTION_SIZE),
{
    let end: usize = rva as usize + SECTION_SIZE as usize;
    let len: usize = v.len();
    let ghost before = v@;
    if end > len {
        let mut more: Vec<u8> = zero_vec(end - len);
        v.append(&mut more);
        assert(v@ =~= before + zeros((end - len) as nat));
    }
    match clear(v, rva as usize, SECTION_SIZE as usize) {
        Ok(_) => {},
        Err(_) => {},
    }
}

fn put_text(s: &mut [u8], to: u32, text: &Vec<u8>) -> (r: Out<()>)
    requires
        text@.len() <= 512,
    ensures
        match pasted(old(s)@, to as int, text@.push(0), 0, text@.len() as int + 1) {
            Ok(v) => r is Ok && final(s)@ == v,
            Err(e) => r == Err::<(), UnpackError>(e),
        },
        final(s)@.len() == old(s)@.len(),
{
    let n: usize = text.len();
    let mut t: Vec<u8> = sub_vec(text, 0, n);
    t.push(0);
    assert(t@ =~= text@.push(0));
    paste(s, to as usize, &t, 0, n + 1)
}

fn build_funcs(s: &mut [u8], fs: &Vec<ImportFunc>, oft: u32, name: u32) -> (r: Out<(u32, u32)>)
    requires
        addressable(old(s)@),
        short_funcs(fs@),
    ensures
        match funcs_built(old(s)@, funcs_view(fs@), 0, oft, name) {
            Ok((v, o, n)) => r == Ok::<(u32, u32), UnpackError>((o, n)) && final(s)@ == v,
            Err(e) => r == Err::<(u32, u32), UnpackError>(e),
        },
        final(s)@.len() == old(s)@.len(),
{
    let n: usize = fs.len();
    let mut o: u32 = oft;
    let mut p: u32 = name;
    let mut j: usize = 0;
    while j < n
        invariant
            j <= n == fs@.len(),
            addressable(s@),
            s@.len() == old(s)@.len(),
            short_funcs(fs@),
            funcs_built(old(s)@, funcs_view(fs@), 0, oft, name) == funcs_built(
                s@,
                funcs_view(fs@),
                j as int,
                o,
                p,
            ),
        decreases n - j,
    {
        assert(funcs_view(fs@)[j as int] == fs@[j as int]@);
        match &fs[j] {
            ImportFunc::Ordinal(ord) => {
                wr32(s, o, 0x8000_0000u32 | *ord)?;
            },
            ImportFunc::Name(hint, text) => {
                assert(text@.len() <= 512);
                wr32(s, o, p)?;
                wr16(s, p, *hint)?;
                put_text(s, p + 2, text)?;
                p = p.wrapping_add(text.len() as u32 + 3);
            },
        }
        o = o.wrapping_add(4);
        j = j + 1;
    }
    wr32(s, o, 0)?;
    Ok((o.wrapping_add(4), p))
}

fn build_desc(s: &mut [u8], d: &ImportDesc, e: u32, oft: u32, name: u32) -> (r: Out<()>)
    requires
        short_desc(*d),
    ensures
        match desc_built(old(s)@, d@, e, oft, name) {
            Ok(v) => r is Ok && final(s)@ == v,
            Err(x) => r == Err::<(), UnpackError>(x),
        },
        final(s)@.len() == old(s)@.len(),
{
    wr32(s, e, oft)?;
    wr32(s, e.wrapping_add(4), d.time_date)?;
    wr32(s, e.wrapping_add(8), d.fwd_chain)?;
    wr32(s, e.wrapping_add(12), name)?;
    wr32(s, e.wrapping_add(16), d.iat_rva)?;
    put_text(s, name, &d.dll_name)
}

fn build_descs(s: &mut [u8], ds: &Vec<ImportDesc>, idt: u32, oft: u32, name: u32) -> (r: Out<()>)
    requires
        addressable(old(s)@),
        short_descs(ds@),
        20 * ds@.len() <= 0xFFFF_0000,
    ensures
        match descs_built(old(s)@, descs_view(ds@), 0, idt, oft, name) {
            Ok(v) => r is Ok && final(s)@ == v,
            Err(e) => r == Err::<(), UnpackError>(e),
        },
        final(s)@.len() == old(s)@.len(),
{
    let n: usize = ds.len();
    let mut o: u32 = oft;
    let mut p: u32 = name;
    let mut i: usize = 0;
    while i < n
        invariant
            i <= n == ds@.len(),
            20 * n <= 0xFFFF_0000,
            addressable(s@),
            s@.len() == old(s)@.len(),
            short_descs(ds@),
            descs_built(old(s)@, descs_view(ds@), 0, idt, oft, name) == descs_built(
                s@,
                descs_view(ds@),
                i as int,
                idt,
                o,
                p,
            ),
        decreases n - i,
    {
        assert(descs_view(ds@)[i as int] == ds@[i as int]@);
        assert(short_desc(ds@[i as int]));
        let d: &ImportDesc = &ds[i];
        build_desc(s, d, idt.wrapping_add(i as u32 * 20), o, p)?;
        let next: u32 = p.wrapping_add(d.dll_name.len() as u32 + 1);
        let (a, b): (u32, u32) = build_funcs(s, &d.functions, o, next)?;
        o = a;
        p = b;
        i = i + 1;
    }
    Ok(())
}

fn find_lookup_end(ds: &Vec<ImportDesc>, start: u32) -> (r: u32)
    requires
        forall|i: int|
            0 <= i < ds@.len() ==> 4 * (#[trigger] ds@[i]).functions@.len() <= 0xFFFF_0000,
    ensures
        r == lookup_end(descs_view(ds@), 0, start),
{
    let n: usize = ds.len();
    let mut p: u32 = start;
    let mut i: usize = 0;
    while i < n
        invariant
            i <= n == ds@.len(),
            forall|i: int|
                0 <= i < ds@.len() ==> 4 * (#[trigger] ds@[i]).functions@.len() <= 0xFFFF_0000,
            lookup_end(descs_view(ds@), 0, start) == lookup_end(descs_view(ds@), i as int, p),
        decreases n - i,
    {
        assert(descs_view(ds@)[i as int] == ds@[i as int]@);
        let m: usize = ds[i].functions.len();
        p = p.wrapping_add((m as u32 + 1) * 4);
        i = i + 1;
    }
    p
}

fn find_func_names_end(fs: &Vec<ImportFunc>, start: u32) -> (r: u32)
    requires
        short_funcs(fs@),
    ensures
        r == func_names_end(funcs_view(fs@), 0, start),
{
    let n: usize = fs.len();
    let mut p: u32 = start;
    let mut j: usize = 0;
    while j < n
        invariant
            j <= n == fs@.len(),
            short_funcs(fs@),
            func_names_end(funcs_view(fs@), 0, start) == func_names_end(
                funcs_view(fs@),
                j as int,
                p,
            ),
        decreases n - j,
    {
        assert(funcs_view(fs@)[j as int] == fs@[j as int]@);
        match &fs[j] {
            ImportFunc::Ordinal(_) => {},
            ImportFunc::Name(_, text) => {
                assert(text@.len() <= 512);
                p = p.wrapping_add(text.len() as u32 + 3);
            },
        }
        j = j + 1;
    }
    p
}

fn find_names_end(ds: &Vec<ImportDesc>, start: u32) -> (r: u32)
    requires
        short_descs(ds@),
    ensures
        r == names_end(descs_view(ds@), 0, start),
{
    let n: usize = ds.len();
    let mut p: u32 = start;
    let mut i: usize = 0;
    while i < n
        invariant
            i <= n == ds@.len(),
            short_descs(ds@),
            names_end(descs_view(ds@), 0, start) == names_end(descs_view(ds@), i as int, p),
        decreases n - i,
    {
        assert(descs_view(ds@)[i as int] == ds@[i as int]@);
        assert(short_desc(ds@[i as int]));
        let d: &ImportDesc = &ds[i];
        p = find_func_names_end(&d.functions, p.wrapping_add(d.dll_name.len() as u32 + 1));
        i = i + 1;
    }
    p
}

fn describe_move(s: &mut [u8], pe: u32, last: u32, rva: u32, idt: u32, size: u32) -> (r: Out<()>)
    ensures
        match move_described(old(s)@, pe, last, rva, idt, size) {
            Ok(v) => r is Ok && final(s)@ == v,
            Err(e) => r == Err::<(), UnpackError>(e),
        },
        final(s)@.len() == old(s)@.len(),
{
    let title: Vec<u8> = vec![0x2Eu8, 0x6Bu8, 0x6Du8, 0x69u8, 0x61u8, 0x74u8, 0u8, 0u8];
    assert(title@ =~= section_title());
    paste(s, last as usize, &title, 0, 8)?;
    wr32(s, last.wrapping_add(8), SECTION_SIZE)?;
    wr32(s, last.wrapping_add(16), SECTION_SIZE)?;
    wr32(s, last.wrapping_add(36), 0xE000_0060)?;
    wr32(s, pe.wrapping_add(0x80), idt)?;
    wr32(s, pe.wrapping_add(0x84), size)?;
    wr32(s, pe.wrapping_add(80), rva.wrapping_add(SECTION_SIZE))
}

fn move_descs(v: &mut Vec<u8>, pe: u32, last: u32, rva: u32, ds: &Vec<ImportDesc>) -> (r: Out<()>)
    requires
        addressable(old(v)@),
        rva + SECTION_SIZE <= MAX_IMAGE_SIZE,
        short_descs(ds@),
        20 * ds@.len() <= old(v)@.len(),
        forall|i: int|
            0 <= i < ds@.len() ==> 4 * (#[trigger] ds@[i]).functions@.len() <= old(v)@.len(),
    ensures
        match descs_moved(old(v)@, pe, last, rva, descs_view(ds@)) {
            Ok(t) => r is Ok && final(v)@ == t,
            Err(e) => r == Err::<(), UnpackError>(e),
        },
        addressable(final(v)@),
{
    let up: u32 = find_lookup_end(ds, rva);
    let idt: u32 = (up.wrapping_add(0x2C).wrapping_add(3) / 4).wrapping_mul(4);
    let n: usize = ds.len();
    let size: u32 = (n as u32 + 1) * 20;
    let first: u32 = idt.wrapping_add(size);
    if find_names_end(ds, first) > rva.wrapping_add(SECTION_SIZE) {
        return Ok(());
    }
    make_room(v, rva);
    build_descs(v, ds, idt, rva, first)?;
    let term: u32 = idt.wrapping_add(n as u32 * 20);
    clear(v, term as usize, 20)?;
    describe_move(v, pe, last, rva, idt, size)
}

/// [`move_pe32_imports_to_kmiat`] for any image.
pub fn move_imports_checked(v: &mut Vec<u8>, pe: u32) -> (r: Out<()>)
    requires
        addressable(old(v)@),
    ensures
        match imports_moved(old(v)@, pe) {
            Ok(t) => r is Ok && final(v)@ == t,
            Err(e) => r == Err::<(), UnpackError>(e),
        },
        addressable(final(v)@),
{
    let opt: u16 = rd16(v, pe.wrapping_add(20))?;
    let n: u16 = rd16(v, pe.wrapping_add(6))?;
    if n == 0 {
        return Ok(());
    }
    let table: u32 = pe.wrapping_add(24).wrapping_add(opt as u32);
    let at: u32 = rd32(v, pe.wrapping_add(0x80))?;
    let size: u32 = rd32(v, pe.wrapping_add(0x84))?;
    let len: usize = v.len();
    if !(0x1000 < at && (at as usize) < len && 0 < size && size < SECTION_SIZE) {
        return Ok(());
    }
    let ds: Vec<ImportDesc> = read_descs(v, at);
    if ds.len() == 0 {
        return Ok(());
    }
    let last: u32 = table.wrapping_add((n as u32 - 1) * 40);
    let rva: u32 = rd32(v, last.wrapping_add(12))?;
    if rva == 0 || rva as u64 + SECTION_SIZE as u64 > MAX_IMAGE_SIZE {
        return Ok(());
    }
    move_descs(v, pe, last, rva, &ds)
}

/// Move the import directory of a 32-bit image, sorted by address table, to its
/// last section, which becomes `.kmiat`; the address tables stay where they are.
pub fn move_pe32_imports_to_kmiat(data: &mut Vec<u8>, pe_header: u32)
    requires
        addressable(old(data)@),
        imports_moved(old(data)@, pe_header) is Ok,
    ensures
        imports_moved(old(data)@, pe_header) == Ok::<Seq<u8>, UnpackError>(final(data)@),
        addressable(final(data)@),
{
    match move_imports_checked(data, pe_header) {
        Ok(_) => {},
        Err(_) => {},
    }
}

} // verus!
