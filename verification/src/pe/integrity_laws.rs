//! What an image without issues is.

use vstd::prelude::*;

use crate::bytes::{fits, le16, le32, opt16, opt32};
use crate::pe::discovery::nul_from;
use crate::pe::imports::least;
use crate::pe::integrity::{
    all_are, body_issues, count_issues, entry_issues, executable_from, image_issues, import_issues,
    issues_of, library_at, managed_issues, metadata_issues, name_issues, names_from, offset_in,
    or_zero, span_at, span_issue, spans_from, Found, Span,
};

verus! {

/// An address of 32 bits.
pub open spec fn address(o: int) -> int {
    o % 0x1_0000_0000
}

/// The word at an address, 0 where it does not lie inside the file.
pub open spec fn word(s: Seq<u8>, o: int) -> u32 {
    if fits(s, address(o), 4) {
        le32(s, address(o))
    } else {
        0
    }
}

/// The half-word at an address, 0 where it does not lie inside the file.
pub open spec fn half(s: Seq<u8>, o: int) -> u16 {
    if fits(s, address(o), 2) {
        le16(s, address(o))
    } else {
        0
    }
}

/// Where the header of section `k` stands.
pub open spec fn section_header(s: Seq<u8>, k: int) -> int {
    let pe = le32(s, 0x3C);
    pe + 24 + half(s, pe + 20) + 40 * k
}

/// How many sections an image has.
pub open spec fn section_count(s: Seq<u8>) -> int {
    half(s, le32(s, 0x3C) + 6) as int
}

/// Whether section `k` holds an address.
pub open spec fn section_holds(s: Seq<u8>, k: int, rva: u32) -> bool {
    let h = section_header(s, k);
    let size = if word(s, h + 8) >= word(s, h + 16) {
        word(s, h + 8)
    } else {
        word(s, h + 16)
    };
    size != 0 && word(s, h + 12) <= rva < address(word(s, h + 12) + size)
}

/// Whether the `need` bytes at an address stand at `o` of the file, by the first section
/// that holds the address.
#[verifier::opaque]
pub open spec fn stands_at(s: Seq<u8>, rva: u32, need: int, o: int) -> bool {
    exists|k: int|
        0 <= k < section_count(s) && #[trigger] section_holds(s, k, rva) && (forall|j: int|
            0 <= j < k ==> !#[trigger] section_holds(s, j, rva)) && {
            let h = section_header(s, k);
            o == word(s, h + 20) + (rva - word(s, h + 12)) && o + need <= s.len() && o + need
                <= u32::MAX
        }
}

/// Whether a zero-ended printable text of fewer than 256 bytes, and at least one, stands at
/// `o`.
pub open spec fn name_stands_at(s: Seq<u8>, o: int) -> bool {
    exists|e: int|
        o < e < o + 256 && e < s.len() && #[trigger] s[e] == 0 && forall|i: int|
            o <= i < e ==> 0x20 <= #[trigger] s[i] <= 0x7E
}

/// Whether an image has data directories of 64-bit addresses.
pub open spec fn is_wide(s: Seq<u8>) -> bool {
    half(s, le32(s, 0x3C) + 24) == 0x20B
}

/// The address in data directory `k`.
pub open spec fn directory(s: Seq<u8>, k: int) -> u32 {
    word(
        s,
        le32(s, 0x3C) + 24 + (if is_wide(s) {
            112int
        } else {
            96
        }) + 8 * k,
    )
}

/// Whether a section header lies inside the file, and what it names too.
pub open spec fn section_is_whole(s: Seq<u8>, k: int) -> bool {
    let h = section_header(s, k);
    &&& fits(s, address(h + 8), 4)
    &&& fits(s, address(h + 12), 4)
    &&& fits(s, address(h + 16), 4)
    &&& fits(s, address(h + 20), 4)
    &&& fits(s, address(h + 36), 4)
    &&& word(s, h + 16) == 0 || address(word(s, h + 20) + word(s, h + 16)) <= s.len()
}

/// The address of the library name of import descriptor `i` of the table at `o`.
pub open spec fn library_name(s: Seq<u8>, o: int, i: int) -> u32 {
    word(s, o + 20 * i + 12)
}

/// Whether import descriptor `i` of the table at `o` stands in front of the first without a
/// name.
pub open spec fn is_listed(s: Seq<u8>, o: int, i: int) -> bool {
    0 <= i < 256 && forall|j: int| 0 <= j <= i ==> #[trigger] library_name(s, o, j) != 0
}

/// Whether the headers of an image are whole.
pub open spec fn headers_are_whole(s: Seq<u8>) -> bool {
    let pe = le32(s, 0x3C);
    &&& s.len() >= 0x40
    &&& s[0] == 0x4D && s[1] == 0x5A
    &&& pe + 4 <= s.len()
    &&& s[pe as int] == 0x50 && s[pe + 1] == 0x45 && s[pe + 2] == 0 && s[pe + 3] == 0
    &&& fits(s, address(pe + 6), 2)
    &&& fits(s, address(pe + 24), 2)
    &&& half(s, pe + 24) == 0x10B || half(s, pe + 24) == 0x20B
    &&& 1 <= section_count(s) <= 96
    &&& word(s, pe + 80) != 0
    &&& forall|k: int| 0 <= k < section_count(s) ==> #[trigger] section_is_whole(s, k)
}

/// Whether code stands at the entry point: sixteen bytes of an executable section, neither
/// all zero nor all padding.
pub open spec fn entry_is_code(s: Seq<u8>, ep: u32) -> bool {
    &&& exists|o: int|
        #[trigger] stands_at(s, ep, 16, o) && (exists|i: int|
            o <= i < o + 16 && #[trigger] s[i] != 0) && (exists|i: int|
            o <= i < o + 16 && #[trigger] s[i] != 0xCC)
    &&& exists|k: int|
        0 <= k < section_count(s) && #[trigger] section_holds(s, k, ep) && word(
            s,
            section_header(s, k) + 36,
        ) & 0x2000_0000u32 != 0
}

/// Whether a library name stands in the file at an address.
pub open spec fn name_is_readable(s: Seq<u8>, rva: u32) -> bool {
    exists|q: int| stands_at(s, rva, 1, q) && #[trigger] name_stands_at(s, q)
}

/// Whether the library name of every descriptor that is listed is readable, from number `i`
/// on.
pub open spec fn names_are_readable(s: Seq<u8>, o: int, i: int) -> bool {
    forall|k: int|
        i <= k && is_listed(s, o, k) ==> name_is_readable(s, #[trigger] library_name(s, o, k))
}

/// Whether the import directory stands in the file, and the library name of every
/// descriptor that is listed.
pub open spec fn imports_are_readable(s: Seq<u8>, rva: u32) -> bool {
    exists|o: int| #[trigger] stands_at(s, rva, 20, o) && names_are_readable(s, o, 0)
}

/// Whether metadata stands in the file at an address, 0 where there is none.
pub open spec fn metadata_is_readable(s: Seq<u8>, rva: u32) -> bool {
    rva == 0 || exists|q: int| #[trigger] stands_at(s, rva, 4, q) && word(s, q) == 0x424A_5342
}

/// Whether a managed header stands in the file, and the metadata that it names.
pub open spec fn managed_is_readable(s: Seq<u8>, rva: u32) -> bool {
    exists|o: int|
        #[trigger] stands_at(s, rva, 0x48, o) && word(s, o) == 0x48 && metadata_is_readable(
            s,
            word(s, o + 8),
        )
}

/// Whether nothing in an image makes the loader fault.
pub open spec fn is_loadable(s: Seq<u8>) -> bool {
    let pe = le32(s, 0x3C);
    let library = half(s, pe + 22) & 0x2000u16 != 0;
    let ep = word(s, pe + 40);
    let managed = directory(s, 14) != 0;
    &&& headers_are_whole(s)
    &&& library && !managed ==> directory(s, 5) != 0
    &&& ep == 0 ==> library
    &&& ep != 0 && !managed ==> entry_is_code(s, ep)
    &&& managed ==> managed_is_readable(s, directory(s, 14))
    &&& !managed && directory(s, 1) != 0 ==> imports_are_readable(s, directory(s, 1))
}

proof fn wrapped(a: u32, b: u32)
    ensures
        a.wrapping_add(b) == address(a + b),
{
}

/// Whether spans are the sections of an image.
spec fn are_sections(s: Seq<u8>, secs: Seq<Span>) -> bool {
    &&& secs.len() == section_count(s)
    &&& forall|k: int|
        0 <= k < secs.len() ==> is_section(s, section_header(s, k), #[trigger] secs[k])
}

proof fn holding_agrees(s: Seq<u8>, secs: Seq<Span>, k: int, rva: u32)
    requires
        are_sections(s, secs),
        0 <= k < secs.len(),
    ensures
        secs[k].holds(rva) == section_holds(s, k, rva),
{
    wrapped(secs[k].va, secs[k].len());
}

proof fn place_is_found(s: Seq<u8>, secs: Seq<Span>, i: int, rva: u32, need: u32)
    requires
        are_sections(s, secs),
        0 <= i <= secs.len(),
        forall|j: int| 0 <= j < i ==> !#[trigger] section_holds(s, j, rva),
    ensures
        match offset_in(secs, i, s.len() as int, rva, need) {
            Some(o) => o + need <= s.len() && forall|q: int|
                #[trigger] stands_at(s, rva, need as int, q) <==> q == o,
            None => forall|q: int| !#[trigger] stands_at(s, rva, need as int, q),
        },
    decreases secs.len() - i,
{
    reveal(stands_at);
    if i < secs.len() {
        holding_agrees(s, secs, i, rva);
        if secs[i].holds(rva) {
            let h = section_header(s, i);
            let o = secs[i].raw_at + (rva - secs[i].va);
            assert forall|q: int| #[trigger] stands_at(s, rva, need as int, q) implies q == o && o
                + need <= u32::MAX && o + need <= s.len() by {
                let k = choose|k: int|
                    0 <= k < section_count(s) && #[trigger] section_holds(s, k, rva) && (forall|
                        j: int,
                    |
                        0 <= j < k ==> !#[trigger] section_holds(s, j, rva)) && {
                        let h = section_header(s, k);
                        q == word(s, h + 20) + (rva - word(s, h + 12)) && q + need <= s.len() && q
                            + need <= u32::MAX
                    };
                if k < i {
                    assert(!section_holds(s, k, rva));
                }
                if k > i {
                    assert(!section_holds(s, i, rva));
                }
            }
            if o + need <= u32::MAX && o + need <= s.len() {
                assert(section_holds(s, i, rva));
                assert(stands_at(s, rva, need as int, o));
            }
        } else {
            place_is_found(s, secs, i + 1, rva, need);
        }
    } else {
        assert forall|q: int| !#[trigger] stands_at(s, rva, need as int, q) by {
            if stands_at(s, rva, need as int, q) {
                let k = choose|k: int|
                    0 <= k < section_count(s) && #[trigger] section_holds(s, k, rva);
                assert(!section_holds(s, k, rva));
            }
        }
    }
}

proof fn execution_agrees(s: Seq<u8>, secs: Seq<Span>, i: int, rva: u32)
    requires
        are_sections(s, secs),
        0 <= i <= secs.len(),
    ensures
        executable_from(secs, i, rva) <==> exists|k: int|
            i <= k < section_count(s) && #[trigger] section_holds(s, k, rva) && word(
                s,
                section_header(s, k) + 36,
            ) & 0x2000_0000u32 != 0,
    decreases secs.len() - i,
{
    if i < secs.len() {
        execution_agrees(s, secs, i + 1, rva);
        holding_agrees(s, secs, i, rva);
        if secs[i].holds(rva) && secs[i].flags & 0x2000_0000u32 != 0 {
            assert(section_holds(s, i, rva));
        } else if executable_from(secs, i + 1, rva) {
            let k = choose|k: int|
                i + 1 <= k < section_count(s) && #[trigger] section_holds(s, k, rva) && word(
                    s,
                    section_header(s, k) + 36,
                ) & 0x2000_0000u32 != 0;
            assert(section_holds(s, k, rva));
        }
    }
}

proof fn nul_is_first(s: Seq<u8>, i: int, end: int)
    requires
        i <= end,
    ensures
        i <= nul_from(s, i, end) <= end,
        forall|k: int| i <= k < nul_from(s, i, end) ==> #[trigger] s[k] != 0,
        nul_from(s, i, end) < end ==> s[nul_from(s, i, end)] == 0,
    decreases end - i,
{
    if i < end && s[i] != 0 {
        nul_is_first(s, i + 1, end);
    }
}

proof fn names_agree(s: Seq<u8>, o: u32)
    requires
        o < s.len(),
    ensures
        library_at(s, o) == name_stands_at(s, o as int),
{
    let limit = least(o + 256, s.len() as int);
    let end = nul_from(s, o as int, limit);
    nul_is_first(s, o as int, limit);
    if library_at(s, o) {
        assert(s[end] == 0);
    }
    if name_stands_at(s, o as int) {
        let e = choose|e: int|
            o < e < o + 256 && e < s.len() && #[trigger] s[e] == 0 && forall|i: int|
                o <= i < e ==> 0x20 <= #[trigger] s[i] <= 0x7E;
        if end < e {
            assert(s[end] == 0);
        }
        if e < end {
            assert(s[e] != 0);
        }
    }
}

proof fn entry_agrees(s: Seq<u8>, secs: Seq<Span>, ep: u32)
    requires
        are_sections(s, secs),
    ensures
        entry_issues(s, secs, ep).len() == 0 <==> entry_is_code(s, ep),
{
    place_is_found(s, secs, 0, ep, 16);
    execution_agrees(s, secs, 0, ep);
    match offset_in(secs, 0, s.len() as int, ep, 16) {
        Some(o) => {
            assert(stands_at(s, ep, 16, o as int));
            if !all_are(s, o as int, 0) && !all_are(s, o as int, 0xCC) {
                let a = choose|a: int| o <= a < o + 16 && #[trigger] s[a] != 0;
                let b = choose|b: int| o <= b < o + 16 && #[trigger] s[b] != 0xCC;
                assert(s[a] != 0 && s[b] != 0xCC);
            }
            assert(forall|q: int| #[trigger] stands_at(s, ep, 16, q) ==> q == o);
        },
        None => {},
    }
}

proof fn one_name_agrees(s: Seq<u8>, secs: Seq<Span>, i: int, name: u32)
    requires
        are_sections(s, secs),
    ensures
        name_issues(s, secs, i, name).len() == 0 <==> name_is_readable(s, name),
{
    place_is_found(s, secs, 0, name, 1);
    match offset_in(secs, 0, s.len() as int, name, 1) {
        Some(o) => {
            assert(stands_at(s, name, 1, o as int));
            names_agree(s, o);
            if library_at(s, o) {
                assert(name_stands_at(s, o as int));
            }
        },
        None => {},
    }
}

proof fn all_names_agree(s: Seq<u8>, secs: Seq<Span>, o: u32, i: int, found: Seq<Seq<char>>)
    requires
        are_sections(s, secs),
        0 <= i <= 256,
        forall|j: int| 0 <= j < i ==> #[trigger] library_name(s, o as int, j) != 0,
    ensures
        names_from(s, secs, o, i, found).len() >= found.len(),
        names_from(s, secs, o, i, found).len() == found.len() <==> names_are_readable(
            s,
            o as int,
            i,
        ),
    decreases 256 - i,
{
    if i < 256 {
        let p = o.wrapping_add((i as u32).wrapping_mul(20)).wrapping_add(12);
        assert((i as u32).wrapping_mul(20) == 20 * i);
        assert(p == address(o + 20 * i + 12));
        let name = or_zero(opt32(s, p as int));
        assert(name == library_name(s, o as int, i));
        if name != 0 {
            one_name_agrees(s, secs, i, name);
            let more = found + name_issues(s, secs, i, name);
            all_names_agree(s, secs, o, i + 1, more);
            assert(is_listed(s, o as int, i));
        } else {
            assert forall|k: int| i <= k implies !is_listed(s, o as int, k) by {
                if is_listed(s, o as int, k) {
                    assert(library_name(s, o as int, i) != 0);
                }
            }
        }
    }
}

proof fn imports_agree(s: Seq<u8>, secs: Seq<Span>, rva: u32, found: Seq<Seq<char>>)
    requires
        are_sections(s, secs),
    ensures
        import_issues(s, secs, rva, found).len() >= found.len(),
        import_issues(s, secs, rva, found).len() == found.len() <==> (rva != 0
            ==> imports_are_readable(s, rva)),
{
    if rva != 0 {
        place_is_found(s, secs, 0, rva, 20);
        match offset_in(secs, 0, s.len() as int, rva, 20) {
            Some(o) => {
                assert(stands_at(s, rva, 20, o as int));
                all_names_agree(s, secs, o, 0, found);
                assert(forall|q: int| #[trigger] stands_at(s, rva, 20, q) ==> q == o);
            },
            None => {},
        }
    }
}

proof fn managed_agrees(s: Seq<u8>, secs: Seq<Span>, rva: u32)
    requires
        are_sections(s, secs),
    ensures
        managed_issues(s, secs, rva).len() == 0 <==> managed_is_readable(s, rva),
{
    place_is_found(s, secs, 0, rva, 0x48);
    match offset_in(secs, 0, s.len() as int, rva, 0x48) {
        Some(o) => {
            assert(stands_at(s, rva, 0x48, o as int));
            assert(forall|q: int| #[trigger] stands_at(s, rva, 0x48, q) ==> q == o);
            let md = or_zero(opt32(s, o.wrapping_add(8) as int));
            wrapped(o, 8);
            assert(md == word(s, o + 8));
            assert(or_zero(opt32(s, o as int)) == word(s, o as int));
            metadata_agrees(s, secs, md);
        },
        None => {},
    }
}

proof fn metadata_agrees(s: Seq<u8>, secs: Seq<Span>, md: u32)
    requires
        are_sections(s, secs),
    ensures
        metadata_issues(s, secs, md).len() == 0 <==> metadata_is_readable(s, md),
{
    place_is_found(s, secs, 0, md, 4);
    match offset_in(secs, 0, s.len() as int, md, 4) {
        Some(p) => {
            assert(stands_at(s, md, 4, p as int));
            assert(forall|q: int| #[trigger] stands_at(s, md, 4, q) ==> q == p);
            assert(opt32(s, p as int) == Some(word(s, p as int)));
        },
        None => {},
    }
}

/// Whether a span is what the section header at `h` says.
spec fn is_section(s: Seq<u8>, h: int, x: Span) -> bool {
    &&& x.va == word(s, h + 12)
    &&& x.vsize == word(s, h + 8)
    &&& x.raw_at == word(s, h + 20)
    &&& x.raw_size == word(s, h + 16)
    &&& x.flags == word(s, h + 36)
}

proof fn span_agrees(s: Seq<u8>, p: u32, h: int, k: int)
    requires
        p == address(h),
        h == section_header(s, k),
    ensures
        match span_at(s, p) {
            Some(x) => is_section(s, h, x) && (section_is_whole(s, k) <==> span_issue(
                k,
                x,
                s.len() as int,
            ) is None),
            None => !section_is_whole(s, k),
        },
{
    assert(p.wrapping_add(8) == address(h + 8));
    assert(p.wrapping_add(12) == address(h + 12));
    assert(p.wrapping_add(16) == address(h + 16));
    assert(p.wrapping_add(20) == address(h + 20));
    assert(p.wrapping_add(36) == address(h + 36));
    if let Some(x) = span_at(s, p) {
        wrapped(x.raw_at, x.raw_size);
    }
}

proof fn sections_agree(s: Seq<u8>, table: u32, i: int, n: int, w: Found)
    requires
        table == address(section_header(s, 0)),
        n == section_count(s),
        0 <= i <= n,
        w.whole,
        w.secs.len() == i,
        forall|k: int|
            0 <= k < i ==> is_section(s, section_header(s, k), #[trigger] w.secs[k]),
    ensures
        ({
            let r = spans_from(s, table, i, n, w);
            &&& r.issues.len() >= w.issues.len()
            &&& r.whole ==> are_sections(s, r.secs)
            &&& (r.whole && r.issues.len() == w.issues.len()) <==> forall|k: int|
                i <= k < n ==> #[trigger] section_is_whole(s, k)
            &&& !r.whole ==> r.issues.len() > w.issues.len()
        }),
    decreases n - i,
{
    if i < n {
        let p = table.wrapping_add((i * 40) as u32);
        let h = section_header(s, i);
        assert(h == section_header(s, 0) + 40 * i);
        assert(p == address(h));
        span_agrees(s, p, h, i);
        match span_at(s, p) {
            None => {
                assert(!section_is_whole(s, i));
            },
            Some(x) => {
                let next = Found {
                    secs: w.secs.push(x),
                    issues: match span_issue(i, x, s.len() as int) {
                        Some(t) => w.issues.push(t),
                        None => w.issues,
                    },
                    whole: w.whole,
                };
                sections_agree(s, table, i + 1, n, next);
            },
        }
    }
}

proof fn body_agrees(s: Seq<u8>, pe: u32, secs: Seq<Span>, found: Seq<Seq<char>>)
    requires
        pe == le32(s, 0x3C),
        are_sections(s, secs),
    ensures
        body_issues(s, pe, is_wide(s), secs, found).len() >= found.len(),
        body_issues(s, pe, is_wide(s), secs, found).len() == found.len() <==> ({
            let library = half(s, pe + 22) & 0x2000u16 != 0;
            let ep = word(s, pe + 40);
            let managed = directory(s, 14) != 0;
            &&& library && !managed ==> directory(s, 5) != 0
            &&& ep == 0 ==> library
            &&& ep != 0 && !managed ==> entry_is_code(s, ep)
            &&& managed ==> managed_is_readable(s, directory(s, 14))
            &&& !managed && directory(s, 1) != 0 ==> imports_are_readable(s, directory(s, 1))
        }),
{
    let dirs = pe.wrapping_add(24).wrapping_add(
        if is_wide(s) {
            112
        } else {
            96
        },
    );
    wrapped(dirs, 112);
    wrapped(dirs, 40);
    wrapped(dirs, 8);
    wrapped(pe, 22);
    wrapped(pe, 40);
    let clr = or_zero(opt32(s, dirs.wrapping_add(112) as int));
    assert(clr == directory(s, 14));
    let relocs = or_zero(opt32(s, dirs.wrapping_add(40) as int));
    assert(relocs == directory(s, 5));
    let ep = or_zero(opt32(s, pe.wrapping_add(40) as int));
    assert(ep == word(s, pe + 40));
    let rva = or_zero(opt32(s, dirs.wrapping_add(8) as int));
    assert(rva == directory(s, 1));
    let flags = match opt16(s, pe.wrapping_add(22) as int) {
        Some(v) => v,
        None => 0,
    };
    assert(flags == half(s, pe + 22));
    entry_agrees(s, secs, ep);
    managed_agrees(s, secs, clr);
    let library = flags & 0x2000u16 != 0;
    let a = if library && clr == 0 && relocs == 0 {
        found.push(
            "native DLL has no base relocation table (DD[5] is zero) — will crash when loaded at a non-preferred base"@,
        )
    } else {
        found
    };
    let b = if ep == 0 {
        if library {
            a
        } else {
            a.push("entry point RVA is zero"@)
        }
    } else if clr != 0 {
        a
    } else {
        a + entry_issues(s, secs, ep)
    };
    imports_agree(s, secs, rva, b);
}

proof fn image_agrees(s: Seq<u8>, pe: u32)
    requires
        pe == le32(s, 0x3C),
        s.len() >= 0x40,
        s[0] == 0x4D && s[1] == 0x5A,
        pe + 4 <= s.len(),
        s[pe as int] == 0x50 && s[pe + 1] == 0x45 && s[pe + 2] == 0 && s[pe + 3] == 0,
    ensures
        image_issues(s, pe).len() == 0 <==> is_loadable(s),
{
    wrapped(pe, 6);
    wrapped(pe, 20);
    wrapped(pe, 24);
    wrapped(pe, 80);
    let opt = pe.wrapping_add(24);
    match (opt16(s, pe.wrapping_add(6) as int), opt16(s, opt as int)) {
        (Some(n), Some(magic)) => {
            assert(n == section_count(s));
            assert(magic == half(s, pe + 24));
            if magic == 0x20B || magic == 0x10B {
                let size = match opt16(s, pe.wrapping_add(20) as int) {
                    Some(v) => v,
                    None => 0,
                };
                assert(size == half(s, pe + 20));
                let table = opt.wrapping_add(size as u32);
                assert(table == address(section_header(s, 0)));
                assert(or_zero(opt32(s, pe.wrapping_add(80) as int)) == word(s, pe + 80));
                let first = Found {
                    secs: Seq::empty(),
                    issues: count_issues(s, pe, n as int),
                    whole: true,
                };
                sections_agree(s, table, 0, n as int, first);
                let w = spans_from(s, table, 0, n as int, first);
                if w.whole {
                    body_agrees(s, pe, w.secs, w.issues);
                }
            }
        },
        _ => {},
    }
}

proof fn signatures(s: Seq<u8>, o: int)
    ensures
        fits(s, o, 2) ==> (le16(s, o) == 0x5A4D <==> s[o] == 0x4D && s[o + 1] == 0x5A),
        fits(s, o, 4) ==> (le32(s, o) == 0x4550 <==> s[o] == 0x50 && s[o + 1] == 0x45 && s[o + 2]
            == 0 && s[o + 3] == 0),
{
    let (a, b, c, d) = (s[o], s[o + 1], s[o + 2], s[o + 3]);
    assert(((a as u16) | ((b as u16) << 8u16) == 0x5A4D <==> a == 0x4D && b == 0x5A) && ((a as u32)
        | ((b as u32) << 8u32) | ((c as u32) << 16u32) | ((d as u32) << 24u32) == 0x4550 <==> a == 0x50
        && b == 0x45 && c == 0 && d == 0)) by (bit_vector);
}

/// An image is reported without issues exactly when nothing in it makes the loader fault.
pub proof fn sound_exactly_when_loadable(s: Seq<u8>)
    ensures
        issues_of(s).len() == 0 <==> is_loadable(s),
{
    signatures(s, 0);
    if fits(s, 0, 2) && le16(s, 0) == 0x5A4D && fits(s, 0x3C, 4) {
        let pe = le32(s, 0x3C);
        signatures(s, pe as int);
        if fits(s, pe as int, 4) && le32(s, pe as int) == 0x4550 {
            image_agrees(s, pe);
        }
    }
}

} // verus!
