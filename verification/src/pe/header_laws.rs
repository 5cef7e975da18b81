//! What becomes of the headers of a protected file.

use vstd::prelude::*;

use crate::bytes::{le16, le32, le64, put16, put32, write_then_read_16, write_then_read_32};
use crate::pe::headers::{
    file_offset, noted, offset_from, section_laid, sections_laid, with_flags, with_tls, Export,
    Found,
};
use crate::pe::steps::w32;

verus! {

/// Where the header of section `i` stands in a file whose header stands at `pe`.
pub open spec fn section_place(f: Seq<u8>, pe: u32, i: int) -> int {
    pe + 24 + le16(f, pe + 20) + 40 * i
}

/// How many sections a file has.
pub open spec fn section_total(f: Seq<u8>, pe: u32) -> int {
    le16(f, pe + 6) as int
}

/// Whether section `i` holds an address: from its start on as far as it reaches in memory or
/// in the file.
pub open spec fn section_spans(f: Seq<u8>, pe: u32, i: int, rva: u32) -> bool {
    let p = section_place(f, pe, i);
    let va = le32(f, p + 12);
    va <= rva && (rva < va + le32(f, p + 8) || rva < va + le32(f, p + 16))
}

/// Whether the section headers lie inside a file and no section goes beyond the largest
/// address or offset.
pub open spec fn sections_are_proper(f: Seq<u8>, pe: u32) -> bool {
    &&& pe + 24 <= f.len() <= u32::MAX
    &&& section_place(f, pe, section_total(f, pe)) <= f.len()
    &&& forall|i: int|
        0 <= i < section_total(f, pe) ==> #[trigger] section_is_proper(f, section_place(f, pe, i))
}

/// Whether the section that the header at `p` describes does not go beyond the largest
/// address or offset.
pub open spec fn section_is_proper(f: Seq<u8>, p: int) -> bool {
    &&& le32(f, p + 12) + le32(f, p + 8) <= u32::MAX
    &&& le32(f, p + 12) + le32(f, p + 16) <= u32::MAX
    &&& le32(f, p + 20) + le32(f, p + 8) <= u32::MAX
    &&& le32(f, p + 20) + le32(f, p + 16) <= u32::MAX
}

/// Whether section `i` is the first from `k` on that holds an address.
pub open spec fn first_spans(f: Seq<u8>, pe: u32, k: int, i: int, rva: u32) -> bool {
    &&& k <= i < section_total(f, pe)
    &&& section_spans(f, pe, i, rva)
    &&& forall|j: int| k <= j < i ==> !(#[trigger] section_spans(f, pe, j, rva))
}

proof fn offset_is_found_from(f: Seq<u8>, pe: u32, k: int, rva: u32)
    requires
        sections_are_proper(f, pe),
        0 <= k <= section_total(f, pe),
    ensures
        match offset_from(f, section_place(f, pe, 0) as u32, k, section_total(f, pe), rva) {
            Ok(Some(o)) => exists|i: int| #[trigger] first_spans(f, pe, k, i, rva) && o == le32(
                f,
                section_place(f, pe, i) + 20,
            ) + rva - le32(f, section_place(f, pe, i) + 12),
            Ok(None) => forall|i: int|
                k <= i < section_total(f, pe) ==> !(#[trigger] section_spans(f, pe, i, rva)),
            Err(_) => false,
        },
    decreases section_total(f, pe) - k,
{
    let n = section_total(f, pe);
    if k < n {
        let p = section_place(f, pe, k);
        assert(section_is_proper(f, p));
        assert(section_place(f, pe, k) == section_place(f, pe, 0) + k * 40);
        assert(p + 40 <= section_place(f, pe, n));
        offset_is_found_from(f, pe, k + 1, rva);
        if section_spans(f, pe, k, rva) {
            assert(first_spans(f, pe, k, k, rva));
        } else {
            match offset_from(f, section_place(f, pe, 0) as u32, k + 1, n, rva) {
                Ok(Some(o)) => {
                    let i = choose|i: int| #[trigger] first_spans(f, pe, k + 1, i, rva) && o == le32(
                        f,
                        section_place(f, pe, i) + 20,
                    ) + rva - le32(f, section_place(f, pe, i) + 12);
                    assert(first_spans(f, pe, k, i, rva));
                },
                _ => {},
            }
        }
    }
}

/// An address has a place in the file exactly where a section holds it; the first such
/// section says which.
pub proof fn address_has_a_place(f: Seq<u8>, pe: u32, rva: u32)
    requires
        sections_are_proper(f, pe),
    ensures
        match file_offset(f, pe, rva) {
            Ok(Some(o)) => exists|i: int| #[trigger] first_spans(f, pe, 0, i, rva) && o == le32(
                f,
                section_place(f, pe, i) + 20,
            ) + rva - le32(f, section_place(f, pe, i) + 12),
            Ok(None) => forall|i: int|
                0 <= i < section_total(f, pe) ==> !(#[trigger] section_spans(f, pe, i, rva)),
            Err(_) => false,
        },
{
    offset_is_found_from(f, pe, 0, rva);
}

/// Field `k` of the directory of thread-local storage at `o`.
pub open spec fn tls_field(f: Seq<u8>, o: int, wide: bool, k: int) -> int {
    if wide {
        le64(f, o + 8 * k) as int
    } else {
        le32(f, o + 4 * k) as int
    }
}

/// How long a directory of thread-local storage is.
pub open spec fn tls_len(wide: bool) -> int {
    if wide {
        40
    } else {
        24
    }
}

/// Whether a field names an address behind the start of an image of `n` bytes at `base`.
pub open spec fn field_inside(v: int, base: u64, n: int) -> bool {
    base < v < base + n
}

/// Whether the directory at `o` of a file can be one of an image of `n` bytes: its template,
/// its index and its callbacks start inside the image, and the template is no longer than
/// 0x10_0000 bytes.
pub open spec fn tls_fits(f: Seq<u8>, o: int, wide: bool, base: u64, n: int) -> bool {
    &&& field_inside(tls_field(f, o, wide, 0), base, n)
    &&& field_inside(tls_field(f, o, wide, 2), base, n)
    &&& field_inside(tls_field(f, o, wide, 3), base, n)
    &&& 0 <= tls_field(f, o, wide, 1) - tls_field(f, o, wide, 0) <= 0x10_0000
}

/// A directory of thread-local storage and the template that it names come from where the
/// file holds them, and nothing else changes; one that cannot be of the image does not come.
pub proof fn tls_comes_from_the_file(
    s: Seq<u8>,
    f: Seq<u8>,
    pe: u32,
    rva: u32,
    base: u64,
    wide: bool,
    o: u32,
    from: u32,
)
    requires
        file_offset(f, pe, rva) == Ok::<Option<u32>, crate::error::UnpackError>(Some(o)),
        o + tls_len(wide) <= f.len() <= u32::MAX,
        rva + tls_len(wide) <= s.len() <= u32::MAX,
        ({
            let start = tls_field(f, o as int, wide, 0);
            let n = tls_field(f, o as int, wide, 1) - start;
            tls_fits(f, o as int, wide, base, s.len() as int) && n > 0 ==> file_offset(
                f,
                pe,
                (start - base) as u32,
            ) == Ok::<Option<u32>, crate::error::UnpackError>(Some(from)) && from + n <= f.len()
                && start - base + n <= s.len()
        }),
    ensures
        ({
            let to = tls_field(f, o as int, wide, 0) - base;
            let n = tls_field(f, o as int, wide, 1) - tls_field(f, o as int, wide, 0);
            if tls_fits(f, o as int, wide, base, s.len() as int) {
                with_tls(s, f, pe, rva, base, wide) matches Ok(Some(v)) && v.len() == s.len() && (
                forall|a: int|
                    0 <= a < s.len() ==> #[trigger] v[a] == (if rva <= a < rva + tls_len(wide) {
                        f[o + a - rva]
                    } else if to <= a < to + n {
                        f[from + a - to]
                    } else {
                        s[a]
                    }))
            } else {
                with_tls(s, f, pe, rva, base, wide) == Ok::<
                    Option<Seq<u8>>,
                    crate::error::UnpackError,
                >(None)
            }
        }),
{
    if wide {
        assert(o.wrapping_add(8) == o + 8 && o.wrapping_add(16) == o + 16 && o.wrapping_add(24) == o
            + 24);
    } else {
        assert(o.wrapping_add(4) == o + 4 && o.wrapping_add(8) == o + 8 && o.wrapping_add(12) == o
            + 12);
    }
}

/// The flags that a program's header has for loading are cleared together with its
/// relocations; a library keeps its own, and gets the one for relocation where it has none.
pub proof fn flags_are_settled(s: Seq<u8>, pe: u32, relocs: u32)
    requires
        0x60 <= relocs,
        pe + relocs + 8 <= s.len() <= u32::MAX,
    ensures
        with_flags(s, pe, relocs) matches Ok(v) && v.len() == s.len() && ({
            let library = le16(s, pe + 22) & 0x2000u16 != 0;
            &&& !library ==> le16(v, pe + 0x5E) == 0 && le32(v, pe + relocs) == 0 && le32(
                v,
                pe + relocs + 4,
            ) == 0
            &&& library ==> le16(v, pe + 0x5E) == (if le16(s, pe + 0x5E) == 0 {
                0x40
            } else {
                le16(s, pe + 0x5E)
            })
            &&& forall|a: int|
                0 <= a < s.len() && !(pe + 0x5E <= a < pe + 0x60) && (library || !(pe + relocs <= a < pe
                    + relocs + 8)) ==> #[trigger] v[a] == s[a]
        }),
{
    let p = pe.wrapping_add(0x5E);
    let q = pe.wrapping_add(relocs);
    assert(p == pe + 0x5E && q == pe + relocs && pe.wrapping_add(22) == pe + 22 && q.wrapping_add(4)
        == q + 4);
    let kept = if le16(s, p as int) == 0 {
        0x40u16
    } else {
        le16(s, p as int)
    };
    write_then_read_16(s, p as int, kept);
    write_then_read_16(s, p as int, 0);
    let a = put16(s, p as int, 0);
    write_then_read_32(a, q as int, 0);
    let b = put32(a, q as int, 0);
    write_then_read_32(b, q + 4, 0);
    let c = put32(b, q + 4, 0);
    assert(le32(c, q as int) == le32(b, q as int));
    assert(le16(c, p as int) == le16(a, p as int));
}

/// Whether the header at `p` describes a section as it lies in memory.
pub open spec fn section_described(v: Seq<u8>, f: Seq<u8>, p: int) -> bool {
    &&& le32(v, p + 16) == le32(f, p + 8)
    &&& le32(v, p + 20) == le32(f, p + 12)
}

/// Whether a section has a name.
pub open spec fn is_named(f: Seq<u8>, p: int) -> bool {
    exists|k: int| p <= k < p + 8 && #[trigger] f[k] != 0
}

proof fn section_is_described(s: Seq<u8>, f: Seq<u8>, p: u32, narrow: bool)
    requires
        p + 40 <= s.len() <= u32::MAX,
    ensures
        section_laid(s, f, p, narrow) matches Ok(v) && v.len() == s.len() && le32(v, p + 16) == w32(
            f,
            p.wrapping_add(8),
        ) && le32(v, p + 20) == w32(f, p.wrapping_add(12)) && (forall|a: int|
            0 <= a < s.len() && !(p + 16 <= a < p + 24) && !(p + 36 <= a < p + 40)
                ==> #[trigger] v[a] == s[a]),
        !narrow ==> (section_laid(s, f, p, narrow) matches Ok(v) && (forall|a: int|
            p + 36 <= a < p + 40 ==> #[trigger] v[a] == s[a])),
{
    let p1 = p.wrapping_add(16);
    let p2 = p.wrapping_add(20);
    let p3 = p.wrapping_add(36);
    assert(p1 == p + 16 && p2 == p + 20 && p3 == p + 36);
    let x = w32(f, p.wrapping_add(8));
    let y = w32(f, p.wrapping_add(12));
    write_then_read_32(s, p1 as int, x);
    let a = put32(s, p1 as int, x);
    write_then_read_32(a, p2 as int, y);
    let b = put32(a, p2 as int, y);
    assert(le32(b, p1 as int) == le32(a, p1 as int));
    write_then_read_32(b, p3 as int, 0xC000_0040);
    let c = put32(b, p3 as int, 0xC000_0040);
    assert(le32(c, p1 as int) == le32(b, p1 as int));
    assert(le32(c, p2 as int) == le32(b, p2 as int));
}

/// The headers of all sections up to the first without a name describe the sections as they
/// lie in memory, and everything else stays but for the flags of sections of a 32-bit image.
pub proof fn sections_are_described(
    s: Seq<u8>,
    f: Seq<u8>,
    table: u32,
    i: u32,
    n: u32,
    x: Export,
    narrow: bool,
    w: Found,
)
    requires
        i <= n,
        table + 40 * n <= f.len() <= u32::MAX,
        table + 40 * n <= s.len() <= u32::MAX,
        forall|k: int| i <= k < n ==> is_named(f, #[trigger] header_at(table, k)),
    ensures
        sections_laid(s, f, table, i, n, x, narrow, w) matches Ok((v, r)) && v.len() == s.len() && (
        forall|k: int| i <= k < n ==> section_described(v, f, #[trigger] header_at(table, k))) && (
        forall|a: int|
            0 <= a < s.len() && !(table + 40 * i <= a < table + 40 * n) ==> #[trigger] v[a] == s[a]),
    decreases n - i,
{
    if i < n {
        let p = table.wrapping_add(i.wrapping_mul(40));
        assert(i.wrapping_mul(40) == i * 40);
        assert(p == table + 40 * i);
        assert(p.wrapping_add(12) == p + 12 && p.wrapping_add(8) == p + 8 && p.wrapping_add(20) == p
            + 20);
        assert(is_named(f, header_at(table, i as int)));
        assert(!crate::pe::headers::unnamed(f, p));
        section_is_described(s, f, p, narrow);
        match section_laid(s, f, p, narrow) {
            Ok(t) => {
                let m = noted(f, p, x, narrow, w);
                sections_are_described(t, f, table, (i + 1) as u32, n, x, narrow, m);
                match sections_laid(t, f, table, (i + 1) as u32, n, x, narrow, m) {
                    Ok((v, r)) => {
                        assert forall|k: int| i <= k < n implies section_described(
                            v,
                            f,
                            #[trigger] header_at(table, k),
                        ) by {
                            if k == i {
                                assert(le32(v, p + 16) == le32(t, p + 16));
                                assert(le32(v, p + 20) == le32(t, p + 20));
                            }
                        }
                    },
                    Err(e) => {},
                }
            },
            Err(e) => {},
        }
    }
}

/// Where header number `k` of a table stands.
pub open spec fn header_at(table: u32, k: int) -> int {
    table + 40 * k
}

/// Where the code lies is said by the last section that is one of code, whether or not other
/// sections follow it.
pub proof fn last_code_section_is_noted(f: Seq<u8>, p: u32, x: Export, narrow: bool, w: Found)
    requires
        p + 40 <= f.len() <= u32::MAX,
    ensures
        ({
            let r = noted(f, p, x, narrow, w);
            let code = f[p as int] == 0x2E && f[p + 1] == 0x74 && f[p + 2] == 0x65 && f[p + 3] == 0x78
                && f[p + 4] == 0x74 && (narrow || f[p + 5] == 0);
            &&& code ==> r.text_va == le32(f, p + 12) && r.text_size == le32(f, p + 8)
            &&& !code ==> r.text_va == w.text_va && r.text_size == w.text_size
        }),
{
    assert(p.wrapping_add(12) == p + 12 && p.wrapping_add(8) == p + 8);
    let name = crate::pe::discovery::name_bytes(f, p);
    let text = crate::pe::headers::text_name();
    let end = crate::pe::discovery::nul_from(f, p as int, p + 8);
    name_ends(f, p as int, p + 8);
    let code = f[p as int] == 0x2E && f[p + 1] == 0x74 && f[p + 2] == 0x65 && f[p + 3] == 0x78 && f[p
        + 4] == 0x74;
    assert(name == f.subrange(p as int, end));
    assert(name.len() == end - p);
    if code {
        assert(f[end] == 0 || end == p + 8);
        assert(end >= p + 5);
        assert(name.subrange(0, 5) =~= text);
        if f[p + 5] == 0 {
            assert(end == p + 5);
            assert(name =~= text);
        } else {
            assert(end > p + 5);
        }
    } else {
        if name.len() >= 5 && name.subrange(0, 5) == text {
            let t = name.subrange(0, 5);
            assert(t[0] == name[0] && t[1] == name[1] && t[2] == name[2] && t[3] == name[3] && t[4]
                == name[4]);
        }
        if name == text {
            assert(name[0] == text[0] && name[1] == text[1] && name[2] == text[2] && name[3]
                == text[3] && name[4] == text[4]);
        }
    }
}

proof fn name_ends(s: Seq<u8>, i: int, end: int)
    requires
        i <= end,
    ensures
        i <= crate::pe::discovery::nul_from(s, i, end) <= end,
        forall|k: int|
            i <= k < crate::pe::discovery::nul_from(s, i, end) ==> #[trigger] s[k] != 0,
        crate::pe::discovery::nul_from(s, i, end) < end ==> s[crate::pe::discovery::nul_from(
            s,
            i,
            end,
        )] == 0,
    decreases end - i,
{
    if i < end && s[i] != 0 {
        name_ends(s, i + 1, end);
    }
}

} // verus!
