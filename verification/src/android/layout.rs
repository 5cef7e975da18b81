//! The ELF64 headers of an AArch64 shared library.

use vstd::arithmetic::power2::is_pow2;
use vstd::prelude::*;

use crate::android::error::{invalid, invalid_as, invalid_dec, Error};
use crate::bytes::{le16, le32, le64, peek_u16, peek_u32, peek_u64, put32, write_then_read_32};
use crate::pe::discovery::{find_nul, lossy_string, nul_from, utf8_lossy};
use crate::text::{dec, push_small_hex, small_hex, texts};

verus! {

/// Type of the section that holds the protected payload.
pub const SHT_LOUSER: u32 = 0x8000_0000;

/// A segment that is loaded.
#[derive(Debug, Clone, Copy, PartialEq, Eq, Structural)]
pub struct LoadSegment {
    pub offset: u64,
    pub virtual_address: u64,
    pub file_size: u64,
    pub memory_size: u64,
    pub flags: u32,
}

/// A section header.
#[derive(Debug, Clone, Copy, PartialEq, Eq, Structural)]
pub struct SectionHeader {
    pub name: u32,
    pub section_type: u32,
    pub flags: u64,
    pub address: u64,
    pub offset: u64,
    pub size: u64,
    pub link: u32,
    pub info: u32,
    pub alignment: u64,
    pub entry_size: u64,
}

/// The headers of a shared library.
#[derive(Debug, Clone, PartialEq, Eq)]
pub struct ElfLayout {
    pub entrypoint: u64,
    pub program_headers: Vec<LoadSegment>,
    pub section_headers: Vec<SectionHeader>,
    pub section_name_index: usize,
    pub private_section_index: usize,
}

/// What an [`ElfLayout`] says.
#[verifier::ext_equal]
pub struct Headers {
    pub entrypoint: u64,
    pub program_headers: Seq<LoadSegment>,
    pub section_headers: Seq<SectionHeader>,
    pub section_name_index: int,
    pub private_section_index: int,
}

impl View for ElfLayout {
    type V = Headers;

    open spec fn view(&self) -> Headers {
        Headers {
            entrypoint: self.entrypoint,
            program_headers: self.program_headers@,
            section_headers: self.section_headers@,
            section_name_index: self.section_name_index as int,
            private_section_index: self.private_section_index as int,
        }
    }
}

/// The description of a byte range that leaves a file.
pub open spec fn range_text(o: int, n: int) -> Seq<char> {
    if o + n > usize::MAX {
        "byte range overflow"@
    } else {
        "byte range 0x"@ + small_hex(o as nat) + "..0x"@ + small_hex((o + n) as nat)
            + " is out of bounds"@
    }
}

/// Whether the `n` bytes at `o` can be read.
pub open spec fn readable(s: Seq<u8>, o: int, n: int) -> bool {
    0 <= o && o + n <= s.len()
}

/// The `u16` at `o`.
pub open spec fn word16(s: Seq<u8>, o: int) -> Result<u16, Seq<char>> {
    if readable(s, o, 2) {
        Ok(le16(s, o))
    } else {
        Err(range_text(o, 2))
    }
}

/// The `u32` at `o`.
pub open spec fn word32(s: Seq<u8>, o: int) -> Result<u32, Seq<char>> {
    if readable(s, o, 4) {
        Ok(le32(s, o))
    } else {
        Err(range_text(o, 4))
    }
}

/// The `u64` at `o`.
pub open spec fn word64(s: Seq<u8>, o: int) -> Result<u64, Seq<char>> {
    if readable(s, o, 8) {
        Ok(le64(s, o))
    } else {
        Err(range_text(o, 8))
    }
}

/// The failure of reading `n` bytes at `offset`.
fn out_of_bounds(offset: usize, n: usize) -> (e: Error)
    ensures
        invalid_as(Err::<(), Error>(e), range_text(offset as int, n as int)),
{
    match offset.checked_add(n) {
        None => invalid("byte range overflow"),
        Some(end) => {
            let mut t: String = "byte range 0x".to_owned();
            push_small_hex(&mut t, offset as u64);
            t.append("..0x");
            push_small_hex(&mut t, end as u64);
            t.append(" is out of bounds");
            Error::Invalid(t)
        },
    }
}

/// The `n` bytes at `offset`.
pub fn slice(data: &[u8], offset: usize, size: usize) -> (r: Result<&[u8], Error>)
    ensures
        if readable(data@, offset as int, size as int) {
            r is Ok && r->Ok_0@ == data@.subrange(offset as int, offset + size)
        } else {
            invalid_as(r, range_text(offset as int, size as int))
        },
{
    if offset > data.len() || size > data.len() - offset {
        return Err(out_of_bounds(offset, size));
    }
    Ok(vstd::slice::slice_subrange(data, offset, offset + size))
}

/// The `u16` at `offset`.
pub fn read_u16(data: &[u8], offset: usize) -> (r: Result<u16, Error>)
    ensures
        match word16(data@, offset as int) {
            Ok(v) => r == Ok::<u16, Error>(v),
            Err(t) => invalid_as(r, t),
        },
{
    match peek_u16(data, offset) {
        Some(v) => Ok(v),
        None => Err(out_of_bounds(offset, 2)),
    }
}

/// The `u32` at `base + delta`.
pub fn read_u32(data: &[u8], base: usize, delta: usize) -> (r: Result<u32, Error>)
    ensures
        match word32(data@, base + delta) {
            Ok(v) => r == Ok::<u32, Error>(v),
            Err(t) => invalid_as(r, t),
        },
{
    let len: usize = data.len();
    assert(data@.len() == len);
    match base.checked_add(delta) {
        None => Err(invalid("byte range overflow")),
        Some(offset) => match peek_u32(data, offset) {
            Some(v) => Ok(v),
            None => Err(out_of_bounds(offset, 4)),
        },
    }
}

/// The `u64` at `base + delta`.
pub fn read_u64(data: &[u8], base: usize, delta: usize) -> (r: Result<u64, Error>)
    ensures
        match word64(data@, base + delta) {
            Ok(v) => r == Ok::<u64, Error>(v),
            Err(t) => invalid_as(r, t),
        },
{
    let len: usize = data.len();
    assert(data@.len() == len);
    match base.checked_add(delta) {
        None => Err(invalid("byte range overflow")),
        Some(offset) => match peek_u64(data, offset) {
            Some(v) => Ok(v),
            None => Err(out_of_bounds(offset, 8)),
        },
    }
}

/// The description of a number that no offset holds.
pub open spec fn too_large_text(field: Seq<char>, v: u64) -> Seq<char> {
    field + " 0x"@ + small_hex(v as nat) + " exceeds usize"@
}

/// `value` as an offset.
pub fn usize_from_u64(value: u64, field: &str) -> (r: Result<usize, Error>)
    ensures
        if value <= usize::MAX {
            r == Ok::<usize, Error>(value as usize)
        } else {
            invalid_as(r, too_large_text(field@, value))
        },
{
    if value <= usize::MAX as u64 {
        return Ok(value as usize);
    }
    let mut t: String = field.to_owned();
    t.append(" 0x");
    push_small_hex(&mut t, value);
    t.append(" exceeds usize");
    Err(Error::Invalid(t))
}

/// The `size` bytes at `offset`, both given as file fields.
pub fn slice_u64(data: &[u8], offset: u64, size: u64) -> (r: Result<&[u8], Error>)
    ensures
        match range_of(data@, offset, size) {
            Ok(v) => r is Ok && r->Ok_0@ == v,
            Err(t) => invalid_as(r, t),
        },
{
    let o: usize = usize_from_u64(offset, "file offset")?;
    let n: usize = usize_from_u64(size, "file size")?;
    slice(data, o, n)
}

/// The `size` bytes at `offset`.
pub open spec fn range_of(s: Seq<u8>, offset: u64, size: u64) -> Result<Seq<u8>, Seq<char>> {
    if offset > usize::MAX {
        Err(too_large_text("file offset"@, offset))
    } else if size > usize::MAX {
        Err(too_large_text("file size"@, size))
    } else if readable(s, offset as int, size as int) {
        Ok(s.subrange(offset as int, offset + size))
    } else {
        Err(range_text(offset as int, size as int))
    }
}

/// Where entry `index` of a table starts.
pub fn checked_index(base: usize, index: usize, stride: usize) -> (r: Result<usize, Error>)
    ensures
        if base + index * stride <= usize::MAX {
            r == Ok::<usize, Error>((base + index * stride) as usize)
        } else {
            invalid_as(r, "table index overflow"@)
        },
{
    match index.checked_mul(stride) {
        None => Err(invalid("table index overflow")),
        Some(v) => match base.checked_add(v) {
            None => Err(invalid("table index overflow")),
            Some(o) => Ok(o),
        },
    }
}

/// The section header at `o`.
pub open spec fn section_at(s: Seq<u8>, o: int) -> Result<SectionHeader, Seq<char>> {
    match word32(s, o) {
        Err(t) => Err(t),
        Ok(name) => match word32(s, o + 4) {
            Err(t) => Err(t),
            Ok(section_type) => match word64(s, o + 8) {
                Err(t) => Err(t),
                Ok(flags) => match word64(s, o + 0x10) {
                    Err(t) => Err(t),
                    Ok(address) => match word64(s, o + 0x18) {
                        Err(t) => Err(t),
                        Ok(offset) => match word64(s, o + 0x20) {
                            Err(t) => Err(t),
                            Ok(size) => section_tail(
                                s,
                                o,
                                name,
                                section_type,
                                flags,
                                address,
                                offset,
                                size,
                            ),
                        },
                    },
                },
            },
        },
    }
}

/// The section header at `o`, whose first six fields are given.
pub open spec fn section_tail(
    s: Seq<u8>,
    o: int,
    name: u32,
    section_type: u32,
    flags: u64,
    address: u64,
    offset: u64,
    size: u64,
) -> Result<SectionHeader, Seq<char>> {
    match word32(s, o + 0x28) {
        Err(t) => Err(t),
        Ok(link) => match word32(s, o + 0x2c) {
            Err(t) => Err(t),
            Ok(info) => match word64(s, o + 0x30) {
                Err(t) => Err(t),
                Ok(alignment) => match word64(s, o + 0x38) {
                    Err(t) => Err(t),
                    Ok(entry_size) => Ok(
                        SectionHeader {
                            name,
                            section_type,
                            flags,
                            address,
                            offset,
                            size,
                            link,
                            info,
                            alignment,
                            entry_size,
                        },
                    ),
                },
            },
        },
    }
}

/// The four bytes of `v`, low byte first.
pub open spec fn bytes32(v: u32) -> Seq<u8> {
    seq![v as u8, (v >> 8u32) as u8, (v >> 16u32) as u8, (v >> 24u32) as u8]
}

/// The eight bytes of `v`, low byte first.
pub open spec fn bytes64(v: u64) -> Seq<u8> {
    bytes32(v as u32) + bytes32((v >> 32u64) as u32)
}

/// The bytes of a section header.
pub open spec fn encoded(h: SectionHeader) -> Seq<u8> {
    bytes32(h.name) + bytes32(h.section_type) + bytes64(h.flags) + bytes64(h.address) + bytes64(
        h.offset,
    ) + bytes64(h.size) + bytes32(h.link) + bytes32(h.info) + bytes64(h.alignment) + bytes64(
        h.entry_size,
    )
}

/// Append the four bytes of `v`.
pub fn push_u32(out: &mut Vec<u8>, v: u32)
    ensures
        final(out)@ == old(out)@ + bytes32(v),
{
    out.push(#[verifier::truncate] (v as u8));
    out.push(#[verifier::truncate] ((v >> 8u32) as u8));
    out.push(#[verifier::truncate] ((v >> 16u32) as u8));
    out.push(#[verifier::truncate] ((v >> 24u32) as u8));
    assert(out@ =~= old(out)@ + bytes32(v));
}

/// Append the eight bytes of `v`.
pub fn push_u64(out: &mut Vec<u8>, v: u64)
    ensures
        final(out)@ == old(out)@ + bytes64(v),
{
    push_u32(out, #[verifier::truncate] (v as u32));
    push_u32(out, #[verifier::truncate] ((v >> 32u64) as u32));
    assert(out@ =~= old(out)@ + bytes64(v));
}

impl SectionHeader {
    /// The section header at `offset`.
    pub fn parse(data: &[u8], offset: usize) -> (r: Result<Self, Error>)
        ensures
            match section_at(data@, offset as int) {
                Ok(v) => r == Ok::<Self, Error>(v),
                Err(t) => invalid_as(r, t),
            },
    {
        let name: u32 = read_u32(data, offset, 0)?;
        let section_type: u32 = read_u32(data, offset, 4)?;
        let flags: u64 = read_u64(data, offset, 8)?;
        let address: u64 = read_u64(data, offset, 0x10)?;
        let file_offset: u64 = read_u64(data, offset, 0x18)?;
        let size: u64 = read_u64(data, offset, 0x20)?;
        let link: u32 = read_u32(data, offset, 0x28)?;
        let info: u32 = read_u32(data, offset, 0x2c)?;
        let alignment: u64 = read_u64(data, offset, 0x30)?;
        let entry_size: u64 = read_u64(data, offset, 0x38)?;
        Ok(
            SectionHeader {
                name,
                section_type,
                flags,
                address,
                offset: file_offset,
                size,
                link,
                info,
                alignment,
                entry_size,
            },
        )
    }

    /// The bytes of a section header.
    pub fn encode(self) -> (r: Vec<u8>)
        ensures
            r@ == encoded(self),
            r@.len() == 0x40,
    {
        let mut out: Vec<u8> = Vec::new();
        push_u32(&mut out, self.name);
        push_u32(&mut out, self.section_type);
        push_u64(&mut out, self.flags);
        push_u64(&mut out, self.address);
        push_u64(&mut out, self.offset);
        push_u64(&mut out, self.size);
        push_u32(&mut out, self.link);
        push_u32(&mut out, self.info);
        push_u64(&mut out, self.alignment);
        push_u64(&mut out, self.entry_size);
        assert(out@ =~= encoded(self));
        out
    }
}

/// Program header `i` of the table at `base`: the segment, if it is a loaded
/// one, which then lies inside the file.
pub open spec fn segment_at(s: Seq<u8>, base: int, i: int) -> Result<
    Option<LoadSegment>,
    Seq<char>,
> {
    let o = base + i * 0x38;
    if o > usize::MAX {
        Err("table index overflow"@)
    } else {
        match word32(s, o) {
            Err(t) => Err(t),
            Ok(kind) => if kind != 1 {
                Ok(None)
            } else {
                match word32(s, o + 4) {
                    Err(t) => Err(t),
                    Ok(flags) => match word64(s, o + 8) {
                        Err(t) => Err(t),
                        Ok(offset) => match word64(s, o + 0x10) {
                            Err(t) => Err(t),
                            Ok(virtual_address) => match word64(s, o + 0x20) {
                                Err(t) => Err(t),
                                Ok(file_size) => match word64(s, o + 0x28) {
                                    Err(t) => Err(t),
                                    Ok(memory_size) => if offset + file_size > u64::MAX {
                                        Err("PT_LOAD "@ + dec(i as nat) + " file range overflow"@)
                                    } else if offset + file_size > s.len() {
                                        Err("PT_LOAD "@ + dec(i as nat) + " exceeds input file"@)
                                    } else {
                                        Ok(
                                            Some(
                                                LoadSegment {
                                                    offset,
                                                    virtual_address,
                                                    file_size,
                                                    memory_size,
                                                    flags,
                                                },
                                            ),
                                        )
                                    },
                                },
                            },
                        },
                    },
                }
            },
        }
    }
}

/// Program header `i` of the table at `base`.
fn read_segment(data: &[u8], base: usize, i: usize) -> (r: Result<Option<LoadSegment>, Error>)
    ensures
        match segment_at(data@, base as int, i as int) {
            Ok(v) => r == Ok::<Option<LoadSegment>, Error>(v),
            Err(t) => invalid_as(r, t),
        },
{
    let o: usize = checked_index(base, i, 0x38)?;
    let kind: u32 = read_u32(data, o, 0)?;
    if kind != 1 {
        return Ok(None);
    }
    let flags: u32 = read_u32(data, o, 4)?;
    let offset: u64 = read_u64(data, o, 8)?;
    let virtual_address: u64 = read_u64(data, o, 0x10)?;
    let file_size: u64 = read_u64(data, o, 0x20)?;
    let memory_size: u64 = read_u64(data, o, 0x28)?;
    let end: u64 = match offset.checked_add(file_size) {
        Some(v) => v,
        None => return Err(invalid_dec("PT_LOAD ", i as u64, " file range overflow")),
    };
    if end > data.len() as u64 {
        return Err(invalid_dec("PT_LOAD ", i as u64, " exceeds input file"));
    }
    Ok(Some(LoadSegment { offset, virtual_address, file_size, memory_size, flags }))
}

/// `acc` and the loaded segments among the program headers from `i` on.
pub open spec fn segments_from(
    s: Seq<u8>,
    base: int,
    count: int,
    i: int,
    acc: Seq<LoadSegment>,
) -> Result<Seq<LoadSegment>, Seq<char>>
    decreases count - i,
{
    if i >= count {
        Ok(acc)
    } else {
        match segment_at(s, base, i) {
            Err(t) => Err(t),
            Ok(None) => segments_from(s, base, count, i + 1, acc),
            Ok(Some(x)) => segments_from(s, base, count, i + 1, acc.push(x)),
        }
    }
}

/// The loaded segments.
fn read_segments(data: &[u8], base: usize, count: usize) -> (r: Result<Vec<LoadSegment>, Error>)
    ensures
        match segments_from(data@, base as int, count as int, 0, Seq::empty()) {
            Ok(v) => r is Ok && r->Ok_0@ == v,
            Err(t) => invalid_as(r, t),
        },
{
    let mut out: Vec<LoadSegment> = Vec::new();
    let mut i: usize = 0;
    while i < count
        invariant
            i <= count,
            segments_from(data@, base as int, count as int, i as int, out@) == segments_from(
                data@,
                base as int,
                count as int,
                0,
                Seq::empty(),
            ),
        decreases count - i,
    {
        match read_segment(data, base, i)? {
            None => {},
            Some(x) => out.push(x),
        }
        i = i + 1;
    }
    Ok(out)
}

/// `acc` and the section headers from `i` on.
pub open spec fn sections_from(
    s: Seq<u8>,
    base: int,
    count: int,
    i: int,
    acc: Seq<SectionHeader>,
) -> Result<Seq<SectionHeader>, Seq<char>>
    decreases count - i,
{
    if i >= count {
        Ok(acc)
    } else if base + i * 0x40 > usize::MAX {
        Err("table index overflow"@)
    } else {
        match section_at(s, base + i * 0x40) {
            Err(t) => Err(t),
            Ok(x) => sections_from(s, base, count, i + 1, acc.push(x)),
        }
    }
}

/// The section headers.
fn read_sections(data: &[u8], base: usize, count: usize) -> (r: Result<Vec<SectionHeader>, Error>)
    ensures
        match sections_from(data@, base as int, count as int, 0, Seq::empty()) {
            Ok(v) => r is Ok && r->Ok_0@ == v,
            Err(t) => invalid_as(r, t),
        },
{
    let mut out: Vec<SectionHeader> = Vec::new();
    let mut i: usize = 0;
    while i < count
        invariant
            i <= count,
            sections_from(data@, base as int, count as int, i as int, out@) == sections_from(
                data@,
                base as int,
                count as int,
                0,
                Seq::empty(),
            ),
        decreases count - i,
    {
        let o: usize = checked_index(base, i, 0x40)?;
        let x: SectionHeader = SectionHeader::parse(data, o)?;
        out.push(x);
        i = i + 1;
    }
    Ok(out)
}

/// The indices below `n` of the private sections, in order.
pub open spec fn privates(list: Seq<SectionHeader>, n: int) -> Seq<int>
    decreases n,
{
    if n <= 0 {
        Seq::empty()
    } else if list[n - 1].section_type == SHT_LOUSER {
        privates(list, n - 1).push(n - 1)
    } else {
        privates(list, n - 1)
    }
}

/// The index of the private section, `usize::MAX` where there is none and none
/// is needed.
pub open spec fn private_index(list: Seq<SectionHeader>, need: bool) -> Result<int, Seq<char>> {
    let found = privates(list, list.len() as int);
    if found.len() == 1 {
        Ok(found[0])
    } else if found.len() == 0 && !need {
        Ok(usize::MAX as int)
    } else {
        Err(
            "expected "@ + (if need {
                "one"@
            } else {
                "at most one"@
            }) + " SHT_LOUSER section, found "@ + dec(found.len()),
        )
    }
}

/// The index of the private section.
fn find_private(list: &[SectionHeader], need: bool) -> (r: Result<usize, Error>)
    ensures
        match private_index(list@, need) {
            Ok(v) => r is Ok && r->Ok_0 == v,
            Err(t) => invalid_as(r, t),
        },
{
    let mut count: usize = 0;
    let mut first: usize = 0;
    let mut i: usize = 0;
    while i < list.len()
        invariant
            i <= list@.len(),
            count <= i,
            count == privates(list@, i as int).len(),
            count > 0 ==> first == privates(list@, i as int)[0],
        decreases list@.len() - i,
    {
        if list[i].section_type == SHT_LOUSER {
            if count == 0 {
                first = i;
            }
            count = count + 1;
        }
        i = i + 1;
    }
    if count == 1 {
        return Ok(first);
    }
    if count == 0 && !need {
        return Ok(usize::MAX);
    }
    let mut t: String = "expected ".to_owned();
    if need {
        t.append("one");
    } else {
        t.append("at most one");
    }
    t.append(" SHT_LOUSER section, found ");
    crate::text::push_dec(&mut t, count as u64);
    Err(Error::Invalid(t))
}

/// Whether `s` starts as a little-endian ELF64 file does.
pub open spec fn is_elf64(s: Seq<u8>) -> bool {
    s[0] == 0x7f && s[1] == 0x45 && s[2] == 0x4c && s[3] == 0x46 && s[4] == 2 && s[5] == 1
}

/// The fixed part of the file header.
pub struct Fixed {
    pub entrypoint: u64,
    pub segments_at: usize,
    pub sections_at: usize,
    pub segments: u16,
    pub sections: u16,
    pub names: u16,
}

/// The fixed part of the file header: the tables' places and sizes.
pub open spec fn fixed_of(s: Seq<u8>) -> Result<Fixed, Seq<char>> {
    if !readable(s, 0, 6) {
        Err(range_text(0, 6))
    } else if !is_elf64(s) {
        Err("input is not a little-endian ELF64 file"@)
    } else {
        match word16(s, 0x12) {
            Err(t) => Err(t),
            Ok(machine) => if machine != 0xb7 {
                Err("input is not an AArch64 ELF"@)
            } else {
                match word64(s, 0x18) {
                    Err(t) => Err(t),
                    Ok(entrypoint) => match word64(s, 0x20) {
                        Err(t) => Err(t),
                        Ok(p) => if p > usize::MAX {
                            Err(too_large_text("program header offset"@, p))
                        } else {
                            match word64(s, 0x28) {
                                Err(t) => Err(t),
                                Ok(q) => if q > usize::MAX {
                                    Err(too_large_text("section header offset"@, q))
                                } else {
                                    counts_of(s, entrypoint, p as usize, q as usize)
                                },
                            }
                        },
                    },
                }
            },
        }
    }
}

/// The fixed part of the file header, once the tables' places are known.
pub open spec fn counts_of(s: Seq<u8>, entrypoint: u64, p: usize, q: usize) -> Result<
    Fixed,
    Seq<char>,
> {
    match word16(s, 0x36) {
        Err(t) => Err(t),
        Ok(segment_size) => match word16(s, 0x38) {
            Err(t) => Err(t),
            Ok(segments) => match word16(s, 0x3a) {
                Err(t) => Err(t),
                Ok(section_size) => match word16(s, 0x3c) {
                    Err(t) => Err(t),
                    Ok(sections) => match word16(s, 0x3e) {
                        Err(t) => Err(t),
                        Ok(names) => if segment_size != 0x38 || section_size != 0x40 {
                            Err("unexpected ELF program/section header size"@)
                        } else {
                            Ok(
                                Fixed {
                                    entrypoint,
                                    segments_at: p,
                                    sections_at: q,
                                    segments,
                                    sections,
                                    names,
                                },
                            )
                        },
                    },
                },
            },
        },
    }
}

/// The fixed part of the file header.
fn read_fixed(data: &[u8]) -> (r: Result<Fixed, Error>)
    ensures
        match fixed_of(data@) {
            Ok(v) => r == Ok::<Fixed, Error>(v),
            Err(t) => invalid_as(r, t),
        },
{
    if data.len() < 6 {
        return Err(out_of_bounds(0, 6));
    }
    if !(data[0] == 0x7f && data[1] == 0x45 && data[2] == 0x4c && data[3] == 0x46 && data[4] == 2
        && data[5] == 1) {
        return Err(invalid("input is not a little-endian ELF64 file"));
    }
    let machine: u16 = read_u16(data, 0x12)?;
    if machine != 0xb7 {
        return Err(invalid("input is not an AArch64 ELF"));
    }
    let entrypoint: u64 = read_u64(data, 0x18, 0)?;
    let p: u64 = read_u64(data, 0x20, 0)?;
    let segments_at: usize = usize_from_u64(p, "program header offset")?;
    let q: u64 = read_u64(data, 0x28, 0)?;
    let sections_at: usize = usize_from_u64(q, "section header offset")?;
    let segment_size: u16 = read_u16(data, 0x36)?;
    let segments: u16 = read_u16(data, 0x38)?;
    let section_size: u16 = read_u16(data, 0x3a)?;
    let sections: u16 = read_u16(data, 0x3c)?;
    let names: u16 = read_u16(data, 0x3e)?;
    if segment_size != 0x38 || section_size != 0x40 {
        return Err(invalid("unexpected ELF program/section header size"));
    }
    Ok(Fixed { entrypoint, segments_at, sections_at, segments, sections, names })
}

/// The headers of a shared library; with `need`, one that has a private section.
pub open spec fn layout_of(s: Seq<u8>, need: bool) -> Result<Headers, Seq<char>> {
    match fixed_of(s) {
        Err(t) => Err(t),
        Ok(f) => match segments_from(s, f.segments_at as int, f.segments as int, 0, Seq::empty()) {
            Err(t) => Err(t),
            Ok(program_headers) => if program_headers.len() == 0 {
                Err("input ELF contains no PT_LOAD segments"@)
            } else {
                match sections_from(s, f.sections_at as int, f.sections as int, 0, Seq::empty()) {
                    Err(t) => Err(t),
                    Ok(section_headers) => if f.names >= section_headers.len() {
                        Err("ELF section-name index is out of range"@)
                    } else {
                        match private_index(section_headers, need) {
                            Err(t) => Err(t),
                            Ok(i) => Ok(
                                Headers {
                                    entrypoint: f.entrypoint,
                                    program_headers,
                                    section_headers,
                                    section_name_index: f.names as int,
                                    private_section_index: i,
                                },
                            ),
                        }
                    },
                }
            },
        },
    }
}

/// The largest of `ends`.
pub open spec fn largest(ends: Seq<int>) -> int
    decreases ends.len(),
{
    if ends.len() <= 1 {
        ends[0]
    } else {
        let m = largest(ends.drop_last());
        if m >= ends.last() {
            m
        } else {
            ends.last()
        }
    }
}

/// Where the segments end in memory.
pub open spec fn memory_ends(list: Seq<LoadSegment>) -> Seq<int> {
    Seq::new(list.len(), |i: int| list[i].virtual_address + list[i].memory_size)
}

/// Where the segments end in the file.
pub open spec fn file_ends(list: Seq<LoadSegment>) -> Seq<int> {
    Seq::new(list.len(), |i: int| list[i].offset + list[i].file_size)
}

/// The largest end, where every end is a `u64` and there is one.
pub open spec fn last_end(ends: Seq<int>, overflow: Seq<char>, none: Seq<char>) -> Result<
    u64,
    Seq<char>,
> {
    if exists|i: int| 0 <= i < ends.len() && #[trigger] ends[i] > u64::MAX {
        Err(overflow)
    } else if ends.len() == 0 {
        Err(none)
    } else {
        Ok(largest(ends) as u64)
    }
}

/// The address that a file range is loaded at.
pub open spec fn address_of(list: Seq<LoadSegment>, i: int, offset: u64, end: int) -> Result<
    u64,
    Seq<char>,
>
    decreases list.len() - i,
{
    if i >= list.len() {
        Err(
            "file range 0x"@ + small_hex(offset as nat) + "..0x"@ + small_hex(end as nat)
                + " is not in PT_LOAD"@,
        )
    } else {
        let x = list[i];
        if x.offset + x.file_size > u64::MAX {
            Err("PT_LOAD file range overflow"@)
        } else if x.offset <= offset && end <= x.offset + x.file_size {
            if x.virtual_address + (offset - x.offset) > u64::MAX {
                Err("virtual address overflow"@)
            } else {
                Ok((x.virtual_address + (offset - x.offset)) as u64)
            }
        } else {
            address_of(list, i + 1, offset, end)
        }
    }
}

/// The name at `o` of a string table.
pub open spec fn name_at(table: Seq<u8>, o: int) -> Seq<char> {
    if o >= table.len() {
        Seq::empty()
    } else {
        utf8_lossy(table.subrange(o, nul_from(table, o, table.len() as int)))
    }
}

/// The names of the sections.
pub open spec fn names_of(h: Headers, s: Seq<u8>) -> Result<Seq<Seq<char>>, Seq<char>> {
    let x = h.section_headers[h.section_name_index];
    match range_of(s, x.offset, x.size) {
        Err(t) => Err(t),
        Ok(table) => Ok(
            Seq::new(
                h.section_headers.len(),
                |i: int| name_at(table, h.section_headers[i].name as int),
            ),
        ),
    }
}

/// The largest of some ends.
fn largest_end(a: &[LoadSegment], memory: bool, overflow: &str, none: &str) -> (r: Result<
    u64,
    Error,
>)
    ensures
        match last_end(
            if memory {
                memory_ends(a@)
            } else {
                file_ends(a@)
            },
            overflow@,
            none@,
        ) {
            Ok(v) => r == Ok::<u64, Error>(v),
            Err(t) => invalid_as(r, t),
        },
{
    let ghost ends = if memory {
        memory_ends(a@)
    } else {
        file_ends(a@)
    };
    let mut best: u64 = 0;
    let mut i: usize = 0;
    while i < a.len()
        invariant
            i <= a@.len(),
            ends == (if memory {
                memory_ends(a@)
            } else {
                file_ends(a@)
            }),
            ends.len() == a@.len(),
            forall|k: int| 0 <= k < i ==> #[trigger] ends[k] <= u64::MAX,
            i > 0 ==> best == largest(ends.take(i as int)),
        decreases a@.len() - i,
    {
        let x: LoadSegment = a[i];
        let (start, size): (u64, u64) = if memory {
            (x.virtual_address, x.memory_size)
        } else {
            (x.offset, x.file_size)
        };
        assert(ends[i as int] == start + size);
        let end: u64 = match start.checked_add(size) {
            Some(v) => v,
            None => return Err(invalid(overflow)),
        };
        assert(ends.take(i + 1).drop_last() =~= ends.take(i as int));
        assert(ends.take(i + 1).last() == ends[i as int]);
        if i == 0 || end > best {
            best = end;
        }
        i = i + 1;
    }
    if a.len() == 0 {
        return Err(invalid(none));
    }
    assert(ends.take(i as int) =~= ends);
    Ok(best)
}

impl ElfLayout {
    /// The headers of a shared library. With `require_private` there is exactly
    /// one private section, otherwise at most one.
    pub fn parse(data: &[u8], require_private: bool) -> (r: Result<Self, Error>)
        ensures
            match layout_of(data@, require_private) {
                Ok(v) => r is Ok && r->Ok_0@ == v,
                Err(t) => invalid_as(r, t),
            },
    {
        let fixed: Fixed = read_fixed(data)?;
        let program_headers: Vec<LoadSegment> = read_segments(
            data,
            fixed.segments_at,
            fixed.segments as usize,
        )?;
        if program_headers.len() == 0 {
            return Err(invalid("input ELF contains no PT_LOAD segments"));
        }
        let section_headers: Vec<SectionHeader> = read_sections(
            data,
            fixed.sections_at,
            fixed.sections as usize,
        )?;
        if fixed.names as usize >= section_headers.len() {
            return Err(invalid("ELF section-name index is out of range"));
        }
        let private_section_index: usize = find_private(&section_headers, require_private)?;
        Ok(
            ElfLayout {
                entrypoint: fixed.entrypoint,
                program_headers,
                section_headers,
                section_name_index: fixed.names as usize,
                private_section_index,
            },
        )
    }

    /// The private section.
    pub fn private_section(&self) -> (r: Result<SectionHeader, Error>)
        ensures
            if self.private_section_index < self.section_headers@.len() {
                r == Ok::<SectionHeader, Error>(
                    self.section_headers@[self.private_section_index as int],
                )
            } else {
                invalid_as(r, "ELF has no private section"@)
            },
    {
        if self.private_section_index < self.section_headers.len() {
            Ok(self.section_headers[self.private_section_index])
        } else {
            Err(invalid("ELF has no private section"))
        }
    }

    /// Where the last segment ends in memory.
    pub fn load_end(&self) -> (r: Result<u64, Error>)
        ensures
            match last_end(
                memory_ends(self.program_headers@),
                "PT_LOAD memory end overflow"@,
                "ELF has no PT_LOAD memory range"@,
            ) {
                Ok(v) => r == Ok::<u64, Error>(v),
                Err(t) => invalid_as(r, t),
            },
    {
        largest_end(
            &self.program_headers,
            true,
            "PT_LOAD memory end overflow",
            "ELF has no PT_LOAD memory range",
        )
    }

    /// Where the last segment ends in the file.
    pub fn file_load_end(&self) -> (r: Result<u64, Error>)
        ensures
            match last_end(
                file_ends(self.program_headers@),
                "PT_LOAD file end overflow"@,
                "ELF has no PT_LOAD file range"@,
            ) {
                Ok(v) => r == Ok::<u64, Error>(v),
                Err(t) => invalid_as(r, t),
            },
    {
        largest_end(
            &self.program_headers,
            false,
            "PT_LOAD file end overflow",
            "ELF has no PT_LOAD file range",
        )
    }

    /// The names of the sections, in the order of their headers. A name that
    /// starts outside the string table is empty.
    pub fn section_names(&self, data: &[u8]) -> (r: Result<Vec<String>, Error>)
        requires
            self.section_name_index < self.section_headers@.len(),
        ensures
            match names_of(self@, data@) {
                Ok(v) => r is Ok && texts(r->Ok_0@) == v,
                Err(t) => invalid_as(r, t),
            },
    {
        let x: SectionHeader = self.section_headers[self.section_name_index];
        let table: &[u8] = slice_u64(data, x.offset, x.size)?;
        let mut out: Vec<String> = Vec::new();
        let mut i: usize = 0;
        while i < self.section_headers.len()
            invariant
                i <= self.section_headers@.len(),
                texts(out@) =~= Seq::new(
                    i as nat,
                    |k: int| name_at(table@, self.section_headers@[k].name as int),
                ),
            decreases self.section_headers@.len() - i,
        {
            let o: usize = self.section_headers[i].name as usize;
            let name: String = if o >= table.len() {
                let t: String = String::new();
                assert(t@ =~= Seq::<char>::empty());
                t
            } else {
                let end: usize = find_nul(table, o, table.len());
                lossy_string(vstd::slice::slice_subrange(table, o, end))
            };
            assert(name@ == name_at(table@, o as int));
            crate::text::push_text(&mut out, name);
            i = i + 1;
        }
        Ok(out)
    }

    /// The address that the `size` bytes at `offset` of the file are loaded at.
    pub fn file_offset_to_virtual_address(&self, offset: u64, size: u64) -> (r: Result<u64, Error>)
        ensures
            if offset + size > u64::MAX {
                invalid_as(r, "file range overflow"@)
            } else {
                match address_of(self.program_headers@, 0, offset, offset + size) {
                    Ok(v) => r == Ok::<u64, Error>(v),
                    Err(t) => invalid_as(r, t),
                }
            },
    {
        let end: u64 = match offset.checked_add(size) {
            Some(v) => v,
            None => return Err(invalid("file range overflow")),
        };
        let mut i: usize = 0;
        while i < self.program_headers.len()
            invariant
                i <= self.program_headers@.len(),
                end == offset + size,
                address_of(self.program_headers@, i as int, offset, end as int) == address_of(
                    self.program_headers@,
                    0,
                    offset,
                    end as int,
                ),
            decreases self.program_headers@.len() - i,
        {
            let x: LoadSegment = self.program_headers[i];
            let segment_end: u64 = match x.offset.checked_add(x.file_size) {
                Some(v) => v,
                None => return Err(invalid("PT_LOAD file range overflow")),
            };
            if x.offset <= offset && end <= segment_end {
                return match x.virtual_address.checked_add(offset - x.offset) {
                    Some(v) => Ok(v),
                    None => Err(invalid("virtual address overflow")),
                };
            }
            i = i + 1;
        }
        let mut t: String = "file range 0x".to_owned();
        push_small_hex(&mut t, offset);
        t.append("..0x");
        push_small_hex(&mut t, end);
        t.append(" is not in PT_LOAD");
        Err(Error::Invalid(t))
    }
}

/// Whether `value` is a power of two.
fn is_power_of_two(value: u64) -> (r: bool)
    ensures
        r == is_pow2(value as int),
{
    reveal(is_pow2);
    let mut a: u64 = value;
    while a > 1
        invariant
            is_pow2(a as int) == is_pow2(value as int),
        decreases a,
    {
        reveal(is_pow2);
        if a % 2 != 0 {
            return false;
        }
        a = a / 2;
    }
    a == 1
}

/// The smallest multiple of `alignment` from `value` on.
pub fn align_up(value: u64, alignment: u64) -> (r: Result<u64, Error>)
    ensures
        if !is_pow2(alignment as int) {
            invalid_as(r, "invalid alignment "@ + dec(alignment as nat))
        } else if value + alignment - 1 > u64::MAX {
            invalid_as(r, "alignment overflow"@)
        } else {
            &&& r is Ok
            &&& r->Ok_0 % alignment == 0
            &&& value <= r->Ok_0 < value + alignment
        },
{
    if !is_power_of_two(alignment) {
        let mut t: String = "invalid alignment ".to_owned();
        crate::text::push_dec(&mut t, alignment);
        return Err(Error::Invalid(t));
    }
    reveal(is_pow2);
    let top: u64 = match value.checked_add(alignment - 1) {
        Some(v) => v,
        None => return Err(invalid("alignment overflow")),
    };
    let r: u64 = top - top % alignment;
    assert(r % alignment == 0 && value <= r < value + alignment) by (nonlinear_arith)
        requires
            alignment > 0,
            top == value + alignment - 1,
            r == top - top % alignment,
    ;
    Ok(r)
}

/// The bytes of `v` at `o` spell `v`.
pub proof fn bytes_spell_32(s: Seq<u8>, o: int, v: u32)
    requires
        0 <= o,
        o + 4 <= s.len(),
        s.subrange(o, o + 4) == bytes32(v),
    ensures
        le32(s, o) == v,
{
    let t = s.subrange(o, o + 4);
    assert(s[o] == t[0] && s[o + 1] == t[1] && s[o + 2] == t[2] && s[o + 3] == t[3]);
    assert(put32(s, o, v) =~= s);
    write_then_read_32(s, o, v);
}

/// The bytes of `v` at `o` spell `v`.
pub proof fn bytes_spell_64(s: Seq<u8>, o: int, v: u64)
    requires
        0 <= o,
        o + 8 <= s.len(),
        s.subrange(o, o + 8) == bytes64(v),
    ensures
        le64(s, o) == v,
{
    let t = s.subrange(o, o + 8);
    assert(s.subrange(o, o + 4) =~= t.subrange(0, 4));
    assert(t.subrange(0, 4) =~= bytes32(v as u32));
    assert(s.subrange(o + 4, o + 8) =~= t.subrange(4, 8));
    assert(t.subrange(4, 8) =~= bytes32((v >> 32u64) as u32));
    bytes_spell_32(s, o, v as u32);
    bytes_spell_32(s, o + 4, (v >> 32u64) as u32);
    assert(((v as u32) as u64) | ((((v >> 32u64) as u32) as u64) << 32u64) == v) by (bit_vector);
}

/// What [`SectionHeader::encode`] writes, [`SectionHeader::parse`] reads back,
/// wherever it stands in a file.
pub proof fn encoded_header_is_read_back(s: Seq<u8>, o: int, h: SectionHeader)
    requires
        0 <= o,
        o + 0x40 <= s.len(),
        s.subrange(o, o + 0x40) == encoded(h),
    ensures
        section_at(s, o) == Ok::<SectionHeader, Seq<char>>(h),
{
    let t = s.subrange(o, o + 0x40);
    assert forall|a: int, b: int| 0 <= a <= b <= 0x40 implies s.subrange(o + a, o + b)
        == #[trigger] t.subrange(a, b) by {
        assert(s.subrange(o + a, o + b) =~= t.subrange(a, b));
    }
    assert(t.subrange(0, 4) =~= bytes32(h.name));
    assert(t.subrange(4, 8) =~= bytes32(h.section_type));
    assert(t.subrange(8, 0x10) =~= bytes64(h.flags));
    assert(t.subrange(0x10, 0x18) =~= bytes64(h.address));
    assert(t.subrange(0x18, 0x20) =~= bytes64(h.offset));
    assert(t.subrange(0x20, 0x28) =~= bytes64(h.size));
    assert(t.subrange(0x28, 0x2c) =~= bytes32(h.link));
    assert(t.subrange(0x2c, 0x30) =~= bytes32(h.info));
    assert(t.subrange(0x30, 0x38) =~= bytes64(h.alignment));
    assert(t.subrange(0x38, 0x40) =~= bytes64(h.entry_size));
    bytes_spell_32(s, o, h.name);
    bytes_spell_32(s, o + 4, h.section_type);
    bytes_spell_64(s, o + 8, h.flags);
    bytes_spell_64(s, o + 0x10, h.address);
    bytes_spell_64(s, o + 0x18, h.offset);
    bytes_spell_64(s, o + 0x20, h.size);
    bytes_spell_32(s, o + 0x28, h.link);
    bytes_spell_32(s, o + 0x2c, h.info);
    bytes_spell_64(s, o + 0x30, h.alignment);
    bytes_spell_64(s, o + 0x38, h.entry_size);
}

/// Every segment in `list` ends inside a file of `len` bytes.
pub open spec fn segments_inside(list: Seq<LoadSegment>, len: int) -> bool {
    forall|k: int|
        0 <= k < list.len() ==> (#[trigger] list[k]).offset + list[k].file_size <= len
            && list[k].offset + list[k].file_size <= u64::MAX
}

proof fn segments_from_inside(
    s: Seq<u8>,
    base: int,
    count: int,
    i: int,
    acc: Seq<LoadSegment>,
)
    requires
        segments_inside(acc, s.len() as int),
    ensures
        segments_from(s, base, count, i, acc) matches Ok(v) ==> segments_inside(v, s.len() as int),
    decreases count - i,
{
    if i < count {
        match segment_at(s, base, i) {
            Err(_) => {},
            Ok(None) => segments_from_inside(s, base, count, i + 1, acc),
            Ok(Some(x)) => segments_from_inside(s, base, count, i + 1, acc.push(x)),
        }
    }
}

proof fn privates_are_private(list: Seq<SectionHeader>, n: int)
    requires
        0 <= n <= list.len(),
    ensures
        forall|k: int|
            0 <= k < privates(list, n).len() ==> 0 <= #[trigger] privates(list, n)[k] < n
                && list[privates(list, n)[k]].section_type == SHT_LOUSER,
        forall|j: int|
            0 <= j < n && (#[trigger] list[j]).section_type == SHT_LOUSER ==> privates(
                list,
                n,
            ).contains(j),
    decreases n,
{
    if n > 0 {
        privates_are_private(list, n - 1);
        let before = privates(list, n - 1);
        let after = privates(list, n);
        if list[n - 1].section_type == SHT_LOUSER {
            assert(after[after.len() - 1] == n - 1);
            assert forall|j: int|
                0 <= j < n && (#[trigger] list[j]).section_type
                    == SHT_LOUSER implies after.contains(j) by {
                if j < n - 1 {
                    let k = choose|k: int| 0 <= k < before.len() && before[k] == j;
                    assert(after[k] == j);
                }
            }
        }
    }
}

/// A layout that was read has a loaded segment, every loaded segment lies inside
/// the file, the section of names exists, and at most one section is private:
/// the one that the layout names, which exists where one is required. Where none
/// is private, the layout names none.
pub proof fn layout_is_sound(s: Seq<u8>, need: bool)
    requires
        layout_of(s, need) is Ok,
    ensures
        ({
            let h = layout_of(s, need)->Ok_0;
            let i = h.private_section_index;
            &&& h.program_headers.len() > 0
            &&& segments_inside(h.program_headers, s.len() as int)
            &&& 0 <= h.section_name_index < h.section_headers.len()
            &&& need ==> 0 <= i < h.section_headers.len()
            &&& forall|j: int|
                0 <= j < h.section_headers.len() ==> ((#[trigger] h.section_headers[j]).section_type
                    == SHT_LOUSER <==> j == i)
            &&& (forall|j: int|
                0 <= j < h.section_headers.len() ==> (#[trigger] h.section_headers[j]).section_type
                    != SHT_LOUSER) ==> i == usize::MAX
        }),
{
    let h = layout_of(s, need)->Ok_0;
    let f = fixed_of(s)->Ok_0;
    segments_from_inside(s, f.segments_at as int, f.segments as int, 0, Seq::empty());
    let list = h.section_headers;
    let found = privates(list, list.len() as int);
    privates_are_private(list, list.len() as int);
    sections_are_few(s, f.sections_at as int, f.sections as int, 0, Seq::empty());
    if found.len() == 1 {
        assert(found[0] == h.private_section_index);
        assert forall|j: int| 0 <= j < list.len() implies ((#[trigger] list[j]).section_type
            == SHT_LOUSER <==> j == h.private_section_index) by {
            if list[j].section_type == SHT_LOUSER {
                let k = choose|k: int| 0 <= k < found.len() && found[k] == j;
                assert(k == 0);
            }
        }
    } else {
        assert forall|j: int| 0 <= j < list.len() implies ((#[trigger] list[j]).section_type
            == SHT_LOUSER <==> j == h.private_section_index) by {
            if list[j].section_type == SHT_LOUSER {
                assert(found.contains(j));
            }
        }
    }
}

proof fn sections_are_few(s: Seq<u8>, base: int, count: int, i: int, acc: Seq<SectionHeader>)
    requires
        0 <= i,
        acc.len() == i,
        i <= count,
    ensures
        sections_from(s, base, count, i, acc) matches Ok(v) ==> v.len() == count,
    decreases count - i,
{
    if i < count {
        match section_at(s, base + i * 0x40) {
            Err(_) => {},
            Ok(x) => sections_are_few(s, base, count, i + 1, acc.push(x)),
        }
    }
}

proof fn largest_bounds(ends: Seq<int>)
    requires
        ends.len() > 0,
    ensures
        ends.contains(largest(ends)),
        forall|i: int| 0 <= i < ends.len() ==> #[trigger] ends[i] <= largest(ends),
    decreases ends.len(),
{
    if ends.len() > 1 {
        let rest = ends.drop_last();
        largest_bounds(rest);
        assert forall|i: int| 0 <= i < ends.len() implies #[trigger] ends[i] <= largest(ends) by {
            if i < rest.len() {
                assert(rest[i] == ends[i]);
            }
        }
        if largest(rest) >= ends.last() {
            let k = choose|k: int| 0 <= k < rest.len() && rest[k] == largest(rest);
            assert(ends[k] == largest(ends));
        } else {
            assert(ends[ends.len() - 1] == largest(ends));
        }
    } else {
        assert(ends[0] == largest(ends));
    }
}

/// The end of the loaded part of a file that was read is the end of one of its
/// segments, no segment ends later, and it lies inside the file.
pub proof fn loaded_part_is_inside(s: Seq<u8>, need: bool)
    requires
        layout_of(s, need) is Ok,
    ensures
        ({
            let list = layout_of(s, need)->Ok_0.program_headers;
            let end = last_end(
                file_ends(list),
                "PT_LOAD file end overflow"@,
                "ELF has no PT_LOAD file range"@,
            );
            &&& end is Ok
            &&& end->Ok_0 <= s.len()
            &&& file_ends(list).contains(end->Ok_0 as int)
            &&& forall|i: int|
                0 <= i < list.len() ==> (#[trigger] list[i]).offset + list[i].file_size
                    <= end->Ok_0
        }),
{
    layout_is_sound(s, need);
    let list = layout_of(s, need)->Ok_0.program_headers;
    let ends = file_ends(list);
    assert forall|i: int| 0 <= i < ends.len() implies #[trigger] ends[i] <= s.len() && ends[i]
        <= u64::MAX by {
        assert(ends[i] == list[i].offset + list[i].file_size);
    }
    largest_bounds(ends);
    let k = choose|k: int| 0 <= k < ends.len() && ends[k] == largest(ends);
    assert(0 <= ends[k] <= u64::MAX);
    assert forall|i: int| 0 <= i < list.len() implies (#[trigger] list[i]).offset
        + list[i].file_size <= largest(ends) by {
        assert(ends[i] == list[i].offset + list[i].file_size);
    }
}

} // verus!
