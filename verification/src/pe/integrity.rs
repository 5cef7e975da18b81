//! A static look at an unpacked image for defects that would make the loader
//! fault.
//!
//! Only what cannot occur in a correctly unpacked image is flagged.

use vstd::prelude::*;

use crate::bytes::{opt16, opt32, peek_u16, peek_u32};
use crate::pe::discovery::{find_nul, nul_from};
use crate::pe::imports::{is_printable, least, printable};
use crate::text::{dec, hex, push_dec, push_hex, push_str, push_text, texts, with_dec, with_hex};

verus! {

/// What a look at an image found.
#[derive(Debug, Clone, Default)]
pub struct IntegrityReport {
    /// One entry for each defect.
    pub issues: Vec<String>,
}

impl IntegrityReport {
    /// Whether no defect was found.
    pub fn ok(&self) -> (r: bool)
        ensures
            r == (self.issues@.len() == 0),
    {
        self.issues.len() == 0
    }
}

/// A section as the image declares it.
#[derive(Debug, Clone, Copy, PartialEq, Eq, Structural)]
pub struct Span {
    pub va: u32,
    pub vsize: u32,
    pub raw_at: u32,
    pub raw_size: u32,
    pub flags: u32,
}

impl Span {
    /// How many bytes of the address space a section takes.
    pub open spec fn len(self) -> u32 {
        if self.vsize >= self.raw_size {
            self.vsize
        } else {
            self.raw_size
        }
    }

    /// Whether a section holds `rva`.
    pub open spec fn holds(self, rva: u32) -> bool {
        self.len() != 0 && self.va <= rva < self.va.wrapping_add(self.len())
    }
}

/// The file offset of the `need` bytes at `rva`, by the first section from `i` on
/// that holds `rva`: `None` where they leave the file.
pub open spec fn offset_in(secs: Seq<Span>, i: int, file_len: int, rva: u32, need: u32) -> Option<u32>
    decreases secs.len() - i,
{
    if i >= secs.len() {
        None
    } else if secs[i].holds(rva) {
        let o = secs[i].raw_at + (rva - secs[i].va);
        if o + need <= u32::MAX && o + need <= file_len {
            Some(o as u32)
        } else {
            None
        }
    } else {
        offset_in(secs, i + 1, file_len, rva, need)
    }
}

fn span_holds(x: &Span, rva: u32) -> (r: bool)
    ensures
        r == x.holds(rva),
{
    let n: u32 = if x.vsize >= x.raw_size {
        x.vsize
    } else {
        x.raw_size
    };
    n != 0 && x.va <= rva && rva < x.va.wrapping_add(n)
}

fn rva_to_off(secs: &Vec<Span>, file_len: usize, rva: u32, need: u32) -> (r: Option<u32>)
    ensures
        r == offset_in(secs@, 0, file_len as int, rva, need),
        r matches Some(o) ==> o + need <= file_len && o + need <= u32::MAX,
{
    let n: usize = secs.len();
    let mut i: usize = 0;
    while i < n
        invariant
            i <= n == secs@.len(),
            offset_in(secs@, 0, file_len as int, rva, need) == offset_in(
                secs@,
                i as int,
                file_len as int,
                rva,
                need,
            ),
        decreases n - i,
    {
        if span_holds(&secs[i], rva) {
            let o: u64 = secs[i].raw_at as u64 + (rva - secs[i].va) as u64;
            if o + need as u64 <= 0xFFFF_FFFF && o + need as u64 <= file_len as u64 {
                return Some(o as u32);
            }
            return None;
        }
        i = i + 1;
    }
    None
}

/// The section header at `p`.
pub open spec fn span_at(s: Seq<u8>, p: u32) -> Option<Span> {
    match (
        opt32(s, p.wrapping_add(12) as int),
        opt32(s, p.wrapping_add(8) as int),
        opt32(s, p.wrapping_add(20) as int),
        opt32(s, p.wrapping_add(16) as int),
        opt32(s, p.wrapping_add(36) as int),
    ) {
        (Some(va), Some(vsize), Some(raw_at), Some(raw_size), Some(flags)) => Some(
            Span { va, vsize, raw_at, raw_size, flags },
        ),
        _ => None,
    }
}

fn read_span(s: &[u8], p: u32) -> (r: Option<Span>)
    ensures
        r == span_at(s@, p),
{
    match (
        peek_u32(s, p.wrapping_add(12) as usize),
        peek_u32(s, p.wrapping_add(8) as usize),
        peek_u32(s, p.wrapping_add(20) as usize),
        peek_u32(s, p.wrapping_add(16) as usize),
        peek_u32(s, p.wrapping_add(36) as usize),
    ) {
        (Some(va), Some(vsize), Some(raw_at), Some(raw_size), Some(flags)) => Some(
            Span { va, vsize, raw_at, raw_size, flags },
        ),
        _ => None,
    }
}

/// What is wrong with the place of section `i` in a file of `len` bytes.
pub open spec fn span_issue(i: int, x: Span, len: int) -> Option<Seq<char>> {
    let end = x.raw_at.wrapping_add(x.raw_size);
    if x.raw_size != 0 && end > len {
        Some(
            "section #"@ + dec(i as nat) + " raw data [0x"@ + hex(x.raw_at as nat) + "..0x"@ + hex(
                end as nat,
            ) + "] exceeds file size 0x"@ + hex(len as nat),
        )
    } else {
        None
    }
}

fn describe_span(i: u32, x: &Span, len: usize) -> (r: Option<String>)
    ensures
        match r {
            Some(t) => span_issue(i as int, *x, len as int) == Some(t@),
            None => span_issue(i as int, *x, len as int) is None,
        },
{
    let end: u32 = x.raw_at.wrapping_add(x.raw_size);
    if x.raw_size == 0 || end as usize <= len {
        return None;
    }
    let mut t: String = with_dec("section #", i as u64, " raw data [0x");
    push_hex(&mut t, x.raw_at as u64);
    t.append("..0x");
    push_hex(&mut t, end as u64);
    t.append("] exceeds file size 0x");
    push_hex(&mut t, len as u64);
    Some(t)
}

/// Sections and issues.
pub struct Found {
    pub secs: Seq<Span>,
    pub issues: Seq<Seq<char>>,
    /// Whether every section header lies inside the file.
    pub whole: bool,
}

/// `w` and the sections from number `i` on.
pub open spec fn spans_from(s: Seq<u8>, table: u32, i: int, n: int, w: Found) -> Found
    decreases n - i,
{
    if i >= n {
        w
    } else {
        match span_at(s, table.wrapping_add((i * 40) as u32)) {
            None => Found {
                secs: w.secs,
                issues: w.issues.push("section table extends past end of file"@),
                whole: false,
            },
            Some(x) => spans_from(
                s,
                table,
                i + 1,
                n,
                Found {
                    secs: w.secs.push(x),
                    issues: match span_issue(i, x, s.len() as int) {
                        Some(t) => w.issues.push(t),
                        None => w.issues,
                    },
                    whole: w.whole,
                },
            ),
        }
    }
}

fn list_spans(s: &[u8], table: u32, n: u32, secs: &mut Vec<Span>, issues: &mut Vec<String>) -> (whole:
    bool)
    requires
        n <= 0xFFFF,
        old(secs)@.len() == 0,
    ensures
        ({
            let w = spans_from(
                s@,
                table,
                0,
                n as int,
                Found { secs: Seq::empty(), issues: texts(old(issues)@), whole: true },
            );
            final(secs)@ == w.secs && texts(final(issues)@) == w.issues && whole == w.whole
        }),
{
    let len: usize = s.len();
    assert(secs@ =~= Seq::empty());
    let mut i: u32 = 0;
    while i < n
        invariant
            i <= n <= 0xFFFF,
            len == s@.len(),
            spans_from(
                s@,
                table,
                0,
                n as int,
                Found { secs: Seq::empty(), issues: texts(old(issues)@), whole: true },
            ) == spans_from(
                s@,
                table,
                i as int,
                n as int,
                Found { secs: secs@, issues: texts(issues@), whole: true },
            ),
        decreases n - i,
    {
        match read_span(s, table.wrapping_add(i * 40)) {
            None => {
                push_str(issues, "section table extends past end of file");
                return false;
            },
            Some(x) => {
                match describe_span(i, &x, len) {
                    Some(t) => {
                        push_text(issues, t);
                    },
                    None => {},
                }
                secs.push(x);
            },
        }
        i = i + 1;
    }
    true
}

/// `v`, or zero.
pub open spec fn or_zero(v: Option<u32>) -> u32 {
    match v {
        Some(x) => x,
        None => 0,
    }
}

fn read_or_zero(s: &[u8], o: u32) -> (r: u32)
    ensures
        r == or_zero(opt32(s@, o as int)),
{
    match peek_u32(s, o as usize) {
        Some(x) => x,
        None => 0,
    }
}

/// Whether the sixteen bytes at `o` are all `b`.
pub open spec fn all_are(s: Seq<u8>, o: int, b: u8) -> bool {
    forall|i: int| o <= i < o + 16 ==> #[trigger] s[i] == b
}

fn are_all(s: &[u8], o: usize, b: u8) -> (r: bool)
    requires
        o + 16 <= s@.len(),
    ensures
        r == all_are(s@, o as int, b),
{
    let len: usize = s.len();
    let mut i: usize = 0;
    while i < 16
        invariant
            i <= 16,
            o + 16 <= len == s@.len(),
            forall|k: int| o <= k < o + i ==> #[trigger] s@[k] == b,
        decreases 16 - i,
    {
        if s[o + i] != b {
            assert(s@[o + i] != b);
            return false;
        }
        i = i + 1;
    }
    true
}

/// Whether a section from `i` on holds `rva` and may be executed.
pub open spec fn executable_from(secs: Seq<Span>, i: int, rva: u32) -> bool
    decreases secs.len() - i,
{
    if i >= secs.len() {
        false
    } else {
        (secs[i].holds(rva) && secs[i].flags & 0x2000_0000u32 != 0) || executable_from(
            secs,
            i + 1,
            rva,
        )
    }
}

fn is_executable(secs: &Vec<Span>, rva: u32) -> (r: bool)
    ensures
        r == executable_from(secs@, 0, rva),
{
    let n: usize = secs.len();
    let mut i: usize = 0;
    while i < n
        invariant
            i <= n == secs@.len(),
            executable_from(secs@, 0, rva) == executable_from(secs@, i as int, rva),
        decreases n - i,
    {
        if span_holds(&secs[i], rva) && secs[i].flags & 0x2000_0000u32 != 0 {
            return true;
        }
        i = i + 1;
    }
    false
}

/// What is wrong with the entry point of a native image.
pub open spec fn entry_issues(s: Seq<u8>, secs: Seq<Span>, ep: u32) -> Seq<Seq<char>> {
    match offset_in(secs, 0, s.len() as int, ep, 16) {
        None => seq![
            "entry point RVA 0x"@ + hex(ep as nat) + " does not map into any section"@,
        ],
        Some(o) => {
            let stub = if all_are(s, o as int, 0) {
                seq![
                    "entry point at RVA 0x"@ + hex(ep as nat)
                        + " is all zeros (stub not recovered)"@,
                ]
            } else if all_are(s, o as int, 0xCC) {
                seq![
                    "entry point at RVA 0x"@ + hex(ep as nat)
                        + " is all int3 padding (stub not recovered)"@,
                ]
            } else {
                Seq::empty()
            };
            if executable_from(secs, 0, ep) {
                stub
            } else {
                stub.push(
                    "entry point RVA 0x"@ + hex(ep as nat) + " is not in an executable section"@,
                )
            }
        },
    }
}

fn check_entry(s: &[u8], secs: &Vec<Span>, ep: u32, issues: &mut Vec<String>)
    ensures
        texts(final(issues)@) == texts(old(issues)@) + entry_issues(s@, secs@, ep),
{
    let ghost before = texts(issues@);
    match rva_to_off(secs, s.len(), ep, 16) {
        None => {
            push_text(
                issues,
                with_hex("entry point RVA 0x", ep as u64, " does not map into any section"),
            );
        },
        Some(o) => {
            if are_all(s, o as usize, 0) {
                push_text(
                    issues,
                    with_hex(
                        "entry point at RVA 0x",
                        ep as u64,
                        " is all zeros (stub not recovered)",
                    ),
                );
            } else if are_all(s, o as usize, 0xCC) {
                push_text(
                    issues,
                    with_hex(
                        "entry point at RVA 0x",
                        ep as u64,
                        " is all int3 padding (stub not recovered)",
                    ),
                );
            }
            if !is_executable(secs, ep) {
                push_text(
                    issues,
                    with_hex("entry point RVA 0x", ep as u64, " is not in an executable section"),
                );
            }
        },
    }
    assert(texts(issues@) =~= before + entry_issues(s@, secs@, ep));
}

/// Whether the string at `o` can be a library name: at least one byte, all
/// printable, with its zero byte within 256 bytes and inside the file.
pub open spec fn library_at(s: Seq<u8>, o: u32) -> bool {
    let limit = least(o + 256, s.len() as int);
    let end = nul_from(s, o as int, limit);
    o < end < limit && printable(s, o as int, end)
}

fn looks_like_dll_name(s: &[u8], o: u32) -> (r: bool)
    requires
        o < s@.len(),
    ensures
        r == library_at(s@, o),
{
    let len: usize = s.len();
    let from: usize = o as usize;
    let limit: usize = if len - from >= 256 {
        from + 256
    } else {
        len
    };
    let end: usize = find_nul(s, from, limit);
    from < end && end < limit && is_printable(s, from, end)
}

/// What is wrong with the library name of import descriptor `i`.
pub open spec fn name_issues(s: Seq<u8>, secs: Seq<Span>, i: int, name: u32) -> Seq<Seq<char>> {
    match offset_in(secs, 0, s.len() as int, name, 1) {
        None => seq![
            "import descriptor "@ + dec(i as nat) + " DLL name RVA 0x"@ + hex(name as nat)
                + " does not map into any section"@,
        ],
        Some(o) => if library_at(s, o) {
            Seq::empty()
        } else {
            seq![
                "import descriptor "@ + dec(i as nat) + " DLL name at RVA 0x"@ + hex(name as nat)
                    + " is not readable ASCII (imports left encrypted?)"@,
            ]
        },
    }
}

fn check_name(s: &[u8], secs: &Vec<Span>, i: u32, name: u32, issues: &mut Vec<String>)
    ensures
        texts(final(issues)@) == texts(old(issues)@) + name_issues(s@, secs@, i as int, name),
{
    let ghost before = texts(issues@);
    match rva_to_off(secs, s.len(), name, 1) {
        None => {
            let mut t: String = with_dec("import descriptor ", i as u64, " DLL name RVA 0x");
            push_hex(&mut t, name as u64);
            t.append(" does not map into any section");
            push_text(issues, t);
        },
        Some(o) => {
            if !looks_like_dll_name(s, o) {
                let mut t: String = with_dec("import descriptor ", i as u64, " DLL name at RVA 0x");
                push_hex(&mut t, name as u64);
                t.append(" is not readable ASCII (imports left encrypted?)");
                push_text(issues, t);
            }
        },
    }
    assert(texts(issues@) =~= before + name_issues(s@, secs@, i as int, name));
}

/// `found` and what is wrong with the library names of the import descriptors at
/// `o` from number `i` on.
pub open spec fn names_from(
    s: Seq<u8>,
    secs: Seq<Span>,
    o: u32,
    i: int,
    found: Seq<Seq<char>>,
) -> Seq<Seq<char>>
    decreases 256 - i,
{
    let p = o.wrapping_add((i as u32).wrapping_mul(20)).wrapping_add(12);
    let name = or_zero(opt32(s, p as int));
    if i >= 256 || name == 0 {
        found
    } else {
        names_from(s, secs, o, i + 1, found + name_issues(s, secs, i, name))
    }
}

fn check_names(s: &[u8], secs: &Vec<Span>, o: u32, issues: &mut Vec<String>)
    ensures
        texts(final(issues)@) == names_from(s@, secs@, o, 0, texts(old(issues)@)),
{
    let mut i: u32 = 0;
    while i < 256
        invariant
            i <= 256,
            names_from(s@, secs@, o, 0, texts(old(issues)@)) == names_from(
                s@,
                secs@,
                o,
                i as int,
                texts(issues@),
            ),
        decreases 256 - i,
    {
        let name: u32 = read_or_zero(s, o.wrapping_add(i.wrapping_mul(20)).wrapping_add(12));
        if name == 0 {
            return;
        }
        check_name(s, secs, i, name, issues);
        i = i + 1;
    }
}

/// `found` and what is wrong with the import directory at `rva` of a native image.
pub open spec fn import_issues(s: Seq<u8>, secs: Seq<Span>, rva: u32, found: Seq<Seq<char>>) -> Seq<
    Seq<char>,
> {
    if rva == 0 {
        found
    } else {
        match offset_in(secs, 0, s.len() as int, rva, 20) {
            None => found.push(
                "import directory RVA 0x"@ + hex(rva as nat) + " does not map into any section"@,
            ),
            Some(o) => names_from(s, secs, o, 0, found),
        }
    }
}

fn check_imports(s: &[u8], secs: &Vec<Span>, rva: u32, issues: &mut Vec<String>)
    ensures
        texts(final(issues)@) == import_issues(s@, secs@, rva, texts(old(issues)@)),
{
    if rva == 0 {
        return;
    }
    match rva_to_off(secs, s.len(), rva, 20) {
        None => {
            push_text(
                issues,
                with_hex("import directory RVA 0x", rva as u64, " does not map into any section"),
            );
        },
        Some(o) => {
            check_names(s, secs, o, issues);
        },
    }
}

/// What is wrong with the metadata at `rva` of a managed image.
pub open spec fn metadata_issues(s: Seq<u8>, secs: Seq<Span>, rva: u32) -> Seq<Seq<char>> {
    if rva == 0 {
        Seq::empty()
    } else {
        match offset_in(secs, 0, s.len() as int, rva, 4) {
            None => seq![
                "CLR MetaData RVA 0x"@ + hex(rva as nat) + " does not map into any section"@,
            ],
            Some(o) => if opt32(s, o as int) == Some(0x424A_5342u32) {
                Seq::empty()
            } else {
                seq![
                    "CLR MetaData at RVA 0x"@ + hex(rva as nat)
                        + " lacks 'BSJB' signature (metadata corrupt — managed image will not load)"@,
                ]
            },
        }
    }
}

/// What is wrong with the managed header at `rva`.
pub open spec fn managed_issues(s: Seq<u8>, secs: Seq<Span>, rva: u32) -> Seq<Seq<char>> {
    match offset_in(secs, 0, s.len() as int, rva, 0x48) {
        None => seq![
            "CLR (COR20) directory RVA 0x"@ + hex(rva as nat) + " does not map into any section"@,
        ],
        Some(o) => {
            let cb = or_zero(opt32(s, o as int));
            if cb != 0x48 {
                seq![
                    "COR20 header at RVA 0x"@ + hex(rva as nat) + " has cb 0x"@ + hex(cb as nat)
                        + " (expected 0x48) — CLR header corrupt"@,
                ]
            } else {
                metadata_issues(s, secs, or_zero(opt32(s, o.wrapping_add(8) as int)))
            }
        },
    }
}

fn check_metadata(s: &[u8], secs: &Vec<Span>, rva: u32, issues: &mut Vec<String>)
    ensures
        texts(final(issues)@) == texts(old(issues)@) + metadata_issues(s@, secs@, rva),
{
    let ghost before = texts(issues@);
    if rva != 0 {
        match rva_to_off(secs, s.len(), rva, 4) {
            None => {
                push_text(
                    issues,
                    with_hex("CLR MetaData RVA 0x", rva as u64, " does not map into any section"),
                );
            },
            Some(o) => {
                let good: bool = match peek_u32(s, o as usize) {
                    Some(v) => v == 0x424A_5342,
                    None => false,
                };
                if !good {
                    push_text(
                        issues,
                        with_hex(
                            "CLR MetaData at RVA 0x",
                            rva as u64,
                            " lacks 'BSJB' signature (metadata corrupt — managed image will not load)",
                        ),
                    );
                }
            },
        }
    }
    assert(texts(issues@) =~= before + metadata_issues(s@, secs@, rva));
}

fn check_managed(s: &[u8], secs: &Vec<Span>, rva: u32, issues: &mut Vec<String>)
    ensures
        texts(final(issues)@) == texts(old(issues)@) + managed_issues(s@, secs@, rva),
{
    let ghost before = texts(issues@);
    match rva_to_off(secs, s.len(), rva, 0x48) {
        None => {
            push_text(
                issues,
                with_hex(
                    "CLR (COR20) directory RVA 0x",
                    rva as u64,
                    " does not map into any section",
                ),
            );
            assert(texts(issues@) =~= before + managed_issues(s@, secs@, rva));
        },
        Some(o) => {
            let cb: u32 = read_or_zero(s, o);
            if cb != 0x48 {
                let mut t: String = with_hex("COR20 header at RVA 0x", rva as u64, " has cb 0x");
                push_hex(&mut t, cb as u64);
                t.append(" (expected 0x48) — CLR header corrupt");
                push_text(issues, t);
                assert(texts(issues@) =~= before + managed_issues(s@, secs@, rva));
            } else {
                let md: u32 = read_or_zero(s, o.wrapping_add(8));
                check_metadata(s, secs, md, issues);
            }
        },
    }
}

/// `found` and what is wrong with an image whose headers, at `pe`, are whole.
pub open spec fn body_issues(s: Seq<u8>, pe: u32, wide: bool, secs: Seq<Span>, found: Seq<Seq<char>>) -> Seq<
    Seq<char>,
> {
    let dirs = pe.wrapping_add(24).wrapping_add(
        if wide {
            112
        } else {
            96
        },
    );
    let clr = or_zero(opt32(s, dirs.wrapping_add(112) as int));
    let managed = clr != 0;
    let flags = match opt16(s, pe.wrapping_add(22) as int) {
        Some(v) => v,
        None => 0,
    };
    let library = flags & 0x2000u16 != 0;
    let relocs = or_zero(opt32(s, dirs.wrapping_add(40) as int));
    let ep = or_zero(opt32(s, pe.wrapping_add(40) as int));
    let a = if library && !managed && relocs == 0 {
        found.push(
            "native DLL has no base relocation table (DD[5] is zero) — will crash when loaded at a non-preferred base"@,
        )
    } else {
        found
    };
    let b = if ep == 0 {
        if library {
            a
        } else {
            a.push("entry point RVA is zero"@)
        }
    } else if managed {
        a
    } else {
        a + entry_issues(s, secs, ep)
    };
    if managed {
        b + managed_issues(s, secs, clr)
    } else {
        import_issues(s, secs, or_zero(opt32(s, dirs.wrapping_add(8) as int)), b)
    }
}

fn check_body(s: &[u8], pe: u32, wide: bool, secs: &Vec<Span>, issues: &mut Vec<String>)
    ensures
        texts(final(issues)@) == body_issues(s@, pe, wide, secs@, texts(old(issues)@)),
{
    let dirs: u32 = pe.wrapping_add(24).wrapping_add(
        if wide {
            112
        } else {
            96
        },
    );
    let clr: u32 = read_or_zero(s, dirs.wrapping_add(112));
    let managed: bool = clr != 0;
    let flags: u16 = match peek_u16(s, pe.wrapping_add(22) as usize) {
        Some(v) => v,
        None => 0,
    };
    let library: bool = flags & 0x2000u16 != 0;
    let relocs: u32 = read_or_zero(s, dirs.wrapping_add(40));
    if library && !managed && relocs == 0 {
        push_str(
            issues,
            "native DLL has no base relocation table (DD[5] is zero) — will crash when loaded at a non-preferred base",
        );
    }
    let ep: u32 = read_or_zero(s, pe.wrapping_add(40));
    if ep == 0 {
        if !library {
            push_str(issues, "entry point RVA is zero");
        }
    } else if !managed {
        check_entry(s, secs, ep, issues);
    }
    if managed {
        check_managed(s, secs, clr, issues);
    } else {
        let rva: u32 = read_or_zero(s, dirs.wrapping_add(8));
        check_imports(s, secs, rva, issues);
    }
}

/// What is wrong with the counts in the header at `pe`.
pub open spec fn count_issues(s: Seq<u8>, pe: u32, n: int) -> Seq<Seq<char>> {
    let a = if n == 0 || n > 96 {
        seq!["implausible section count "@ + dec(n as nat)]
    } else {
        Seq::empty()
    };
    if or_zero(opt32(s, pe.wrapping_add(80) as int)) == 0 {
        a.push("SizeOfImage is zero"@)
    } else {
        a
    }
}

/// Everything that is wrong with an image behind a PE signature at `pe`.
pub open spec fn image_issues(s: Seq<u8>, pe: u32) -> Seq<Seq<char>> {
    let opt = pe.wrapping_add(24);
    match opt16(s, pe.wrapping_add(6) as int) {
        None => seq!["truncated COFF header"@],
        Some(n) => match opt16(s, opt as int) {
            None => seq!["truncated optional header"@],
            Some(magic) => if magic != 0x20B && magic != 0x10B {
                seq!["bad optional-header magic 0x"@ + hex(magic as nat)]
            } else {
                let size = match opt16(s, pe.wrapping_add(20) as int) {
                    Some(v) => v,
                    None => 0,
                };
                let w = spans_from(
                    s,
                    opt.wrapping_add(size as u32),
                    0,
                    n as int,
                    Found { secs: Seq::empty(), issues: count_issues(s, pe, n as int), whole: true },
                );
                if w.whole {
                    body_issues(s, pe, magic == 0x20B, w.secs, w.issues)
                } else {
                    w.issues
                }
            },
        },
    }
}

/// Everything that is wrong with an image.
pub open spec fn issues_of(s: Seq<u8>) -> Seq<Seq<char>> {
    if opt16(s, 0) != Some(0x5A4Du16) {
        seq!["missing 'MZ' DOS signature"@]
    } else {
        match opt32(s, 0x3C) {
            None => seq!["truncated DOS header (no e_lfanew)"@],
            Some(pe) => if opt32(s, pe as int) != Some(0x4550u32) {
                seq!["missing 'PE\\0\\0' signature at 0x"@ + hex(pe as nat)]
            } else {
                image_issues(s, pe)
            },
        }
    }
}

fn check_image(s: &[u8], pe: u32, issues: &mut Vec<String>)
    requires
        old(issues)@.len() == 0,
    ensures
        texts(final(issues)@) == image_issues(s@, pe),
{
    assert(texts(issues@) =~= Seq::empty());
    let opt: u32 = pe.wrapping_add(24);
    let n: u16 = match peek_u16(s, pe.wrapping_add(6) as usize) {
        Some(v) => v,
        None => {
            push_str(issues, "truncated COFF header");
            assert(texts(issues@) =~= image_issues(s@, pe));
            return;
        },
    };
    let size: u16 = match peek_u16(s, pe.wrapping_add(20) as usize) {
        Some(v) => v,
        None => 0,
    };
    let magic: u16 = match peek_u16(s, opt as usize) {
        Some(v) => v,
        None => {
            push_str(issues, "truncated optional header");
            assert(texts(issues@) =~= image_issues(s@, pe));
            return;
        },
    };
    if magic != 0x20B && magic != 0x10B {
        let mut t: String = "bad optional-header magic 0x".to_owned();
        push_hex(&mut t, magic as u64);
        push_text(issues, t);
        assert(texts(issues@) =~= image_issues(s@, pe));
        return;
    }
    if n == 0 || n > 96 {
        let mut t: String = "implausible section count ".to_owned();
        push_dec(&mut t, n as u64);
        push_text(issues, t);
    }
    if read_or_zero(s, pe.wrapping_add(80)) == 0 {
        push_str(issues, "SizeOfImage is zero");
    }
    assert(texts(issues@) =~= count_issues(s@, pe, n as int));
    let mut secs: Vec<Span> = Vec::new();
    let whole: bool = list_spans(s, opt.wrapping_add(size as u32), n as u32, &mut secs, issues);
    if whole {
        check_body(s, pe, magic == 0x20B, &secs, issues);
    }
}

/// Look at an unpacked image and report every defect that would make the loader
/// fault.
pub fn check(out: &[u8]) -> (r: IntegrityReport)
    ensures
        texts(r.issues@) == issues_of(out@),
{
    let mut issues: Vec<String> = Vec::new();
    assert(texts(issues@) =~= Seq::empty());
    let dos: bool = match peek_u16(out, 0) {
        Some(v) => v == 0x5A4D,
        None => false,
    };
    if !dos {
        push_str(&mut issues, "missing 'MZ' DOS signature");
        assert(texts(issues@) =~= issues_of(out@));
        return IntegrityReport { issues };
    }
    let pe: u32 = match peek_u32(out, 0x3C) {
        Some(v) => v,
        None => {
            push_str(&mut issues, "truncated DOS header (no e_lfanew)");
            assert(texts(issues@) =~= issues_of(out@));
            return IntegrityReport { issues };
        },
    };
    let signed: bool = match peek_u32(out, pe as usize) {
        Some(v) => v == 0x4550,
        None => false,
    };
    if !signed {
        let mut t: String = "missing 'PE\\0\\0' signature at 0x".to_owned();
        push_hex(&mut t, pe as u64);
        push_text(&mut issues, t);
        assert(texts(issues@) =~= issues_of(out@));
        return IntegrityReport { issues };
    }
    check_image(out, pe, &mut issues);
    IntegrityReport { issues }
}

/// An image is reported sound exactly when nothing is wrong with it.
pub proof fn sound_means_no_issue(out: Seq<u8>, r: IntegrityReport)
    requires
        texts(r.issues@) == issues_of(out),
    ensures
        (r.issues@.len() == 0) == (issues_of(out) =~= Seq::<Seq<char>>::empty()),
{
}

} // verus!
