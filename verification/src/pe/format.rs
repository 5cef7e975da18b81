//! Basic PE format parsing and address mapping.

use std::ops::Range;
use vstd::prelude::*;

use crate::bytes::{fits, le16, le32, le64, peek_u16, peek_u32, peek_u64};

verus! {

/// Why a PE image was not read.
#[derive(Debug, Clone, PartialEq, Eq, Structural)]
pub enum Error {
    /// The input is not a PE image.
    Invalid,
    /// A range is outside the input.
    OutOfBounds,
}

impl Error {
    /// The message of an error.
    pub open spec fn text(self) -> Seq<char> {
        match self {
            Error::Invalid => "input is not a PE image"@,
            Error::OutOfBounds => "PE range is outside the input"@,
        }
    }

    /// The message of an error.
    pub fn to_string(&self) -> (r: String)
        ensures
            r@ == self.text(),
    {
        match self {
            Error::Invalid => "input is not a PE image".to_owned(),
            Error::OutOfBounds => "PE range is outside the input".to_owned(),
        }
    }
}

/// A section header.
#[derive(Debug, Clone, Copy, PartialEq, Eq, Structural)]
pub struct Section {
    pub virtual_address: u32,
    pub virtual_size: u32,
    pub raw_offset: u32,
    pub raw_size: u32,
    pub characteristics: u32,
}

/// What the headers say.
#[derive(Debug, Clone, Copy, PartialEq, Eq, Structural)]
pub struct Headers {
    pub pe_offset: usize,
    pub is_pe32_plus: bool,
    pub image_base: u64,
    pub size_of_image: u32,
    pub entry_rva: u32,
    pub sections_offset: usize,
    pub sections: u16,
}

/// The half-word at `o`.
pub open spec fn word16(s: Seq<u8>, o: int) -> Result<u16, Error> {
    if fits(s, o, 2) {
        Ok(le16(s, o))
    } else {
        Err(Error::OutOfBounds)
    }
}

/// The word at `o`.
pub open spec fn word32(s: Seq<u8>, o: int) -> Result<u32, Error> {
    if fits(s, o, 4) {
        Ok(le32(s, o))
    } else {
        Err(Error::OutOfBounds)
    }
}

/// The double word at `o`.
pub open spec fn word64(s: Seq<u8>, o: int) -> Result<u64, Error> {
    if fits(s, o, 8) {
        Ok(le64(s, o))
    } else {
        Err(Error::OutOfBounds)
    }
}

fn read_u16(data: &[u8], base: usize, off: usize) -> (r: Result<u16, Error>)
    ensures
        r == word16(data@, base + off),
{
    match base.checked_add(off) {
        Some(o) => match peek_u16(data, o) {
            Some(v) => Ok(v),
            None => Err(Error::OutOfBounds),
        },
        None => {
            let len: usize = data.len();
            Err(Error::OutOfBounds)
        },
    }
}

fn read_u32(data: &[u8], base: usize, off: usize) -> (r: Result<u32, Error>)
    ensures
        r == word32(data@, base + off),
{
    match base.checked_add(off) {
        Some(o) => match peek_u32(data, o) {
            Some(v) => Ok(v),
            None => Err(Error::OutOfBounds),
        },
        None => {
            let len: usize = data.len();
            Err(Error::OutOfBounds)
        },
    }
}

fn read_u64(data: &[u8], base: usize, off: usize) -> (r: Result<u64, Error>)
    ensures
        r == word64(data@, base + off),
{
    match base.checked_add(off) {
        Some(o) => match peek_u64(data, o) {
            Some(v) => Ok(v),
            None => Err(Error::OutOfBounds),
        },
        None => {
            let len: usize = data.len();
            Err(Error::OutOfBounds)
        },
    }
}

/// The headers behind the PE signature at `pe`.
pub open spec fn headers_at(s: Seq<u8>, pe: int) -> Result<Headers, Error> {
    let opt = pe + 24;
    match (word16(s, pe + 6), word16(s, pe + 20), word16(s, opt)) {
        (Ok(n), Ok(size), Ok(magic)) => {
            let wide = magic == 0x20B;
            let base = if wide {
                word64(s, opt + 24)
            } else {
                match word32(s, opt + 28) {
                    Ok(v) => Ok(v as u64),
                    Err(e) => Err(e),
                }
            };
            if !wide && magic != 0x10B {
                Err(Error::Invalid)
            } else {
                match (word32(s, opt + 16), base, word32(s, opt + 56)) {
                    (Ok(entry_rva), Ok(image_base), Ok(size_of_image)) => if fits(
                        s,
                        opt + size,
                        n * 40,
                    ) {
                        Ok(
                            Headers {
                                pe_offset: pe as usize,
                                is_pe32_plus: wide,
                                image_base,
                                size_of_image,
                                entry_rva,
                                sections_offset: (opt + size) as usize,
                                sections: n,
                            },
                        )
                    } else {
                        Err(Error::OutOfBounds)
                    },
                    _ => Err(Error::OutOfBounds),
                }
            }
        },
        _ => Err(Error::OutOfBounds),
    }
}

/// The headers of a PE image.
pub open spec fn parsed(s: Seq<u8>) -> Result<Headers, Error> {
    if !(fits(s, 0, 2) && le16(s, 0) == 0x5A4D) {
        Err(Error::Invalid)
    } else {
        match word32(s, 0x3C) {
            Err(e) => Err(e),
            Ok(pe) => if fits(s, pe as int, 4) && le32(s, pe as int) == 0x4550 {
                headers_at(s, pe as int)
            } else {
                Err(Error::Invalid)
            },
        }
    }
}

/// Parse the headers of a PE image.
pub fn parse(data: &[u8]) -> (r: Result<Headers, Error>)
    ensures
        r == parsed(data@),
{
    let len: usize = data.len();
    match peek_u16(data, 0) {
        Some(v) => {
            if v != 0x5A4D {
                return Err(Error::Invalid);
            }
        },
        None => {
            return Err(Error::Invalid);
        },
    }
    let pe: usize = read_u32(data, 0x3C, 0)? as usize;
    match peek_u32(data, pe) {
        Some(v) => {
            if v != 0x4550 {
                return Err(Error::Invalid);
            }
        },
        None => {
            return Err(Error::Invalid);
        },
    }
    let sections: u16 = read_u16(data, pe, 6)?;
    let size: u16 = read_u16(data, pe, 20)?;
    let magic: u16 = read_u16(data, pe, 24)?;
    let is_pe32_plus: bool = magic == 0x20B;
    if !is_pe32_plus && magic != 0x10B {
        return Err(Error::Invalid);
    }
    let entry_rva: u32 = read_u32(data, pe, 40)?;
    let image_base: u64 = if is_pe32_plus {
        read_u64(data, pe, 48)?
    } else {
        read_u32(data, pe, 52)? as u64
    };
    let size_of_image: u32 = read_u32(data, pe, 80)?;
    let table: u64 = pe as u64 + 24 + size as u64;
    if table + sections as u64 * 40 > len as u64 {
        return Err(Error::OutOfBounds);
    }
    Ok(
        Headers {
            pe_offset: pe,
            is_pe32_plus,
            image_base,
            size_of_image,
            entry_rva,
            sections_offset: table as usize,
            sections,
        },
    )
}

/// The section header at `p`.
pub open spec fn section_at(s: Seq<u8>, p: int) -> Result<Section, Error> {
    match (
        word32(s, p + 8),
        word32(s, p + 12),
        word32(s, p + 16),
        word32(s, p + 20),
        word32(s, p + 36),
    ) {
        (
            Ok(virtual_size),
            Ok(virtual_address),
            Ok(raw_size),
            Ok(raw_offset),
            Ok(characteristics),
        ) => Ok(
            Section { virtual_address, virtual_size, raw_offset, raw_size, characteristics },
        ),
        _ => Err(Error::OutOfBounds),
    }
}

/// Whether every section header lies inside the image.
pub open spec fn has_sections(s: Seq<u8>, h: Headers) -> bool {
    forall|i: int|
        0 <= i < h.sections ==> (#[trigger] section_at(s, h.sections_offset + i * 40)) is Ok
}

/// The section headers.
pub open spec fn section_list(s: Seq<u8>, h: Headers) -> Seq<Section> {
    Seq::new(
        h.sections as nat,
        |i: int| section_at(s, h.sections_offset + i * 40)->Ok_0,
    )
}

fn read_section(data: &[u8], p: usize) -> (r: Result<Section, Error>)
    ensures
        r == section_at(data@, p as int),
{
    let virtual_size: u32 = read_u32(data, p, 8)?;
    let virtual_address: u32 = read_u32(data, p, 12)?;
    let raw_size: u32 = read_u32(data, p, 16)?;
    let raw_offset: u32 = read_u32(data, p, 20)?;
    let characteristics: u32 = read_u32(data, p, 36)?;
    Ok(Section { virtual_address, virtual_size, raw_offset, raw_size, characteristics })
}

/// Read the section headers.
pub fn sections(data: &[u8], headers: Headers) -> (r: Result<Vec<Section>, Error>)
    ensures
        match r {
            Ok(v) => has_sections(data@, headers) && v@ == section_list(data@, headers),
            Err(e) => !has_sections(data@, headers) && e == Error::OutOfBounds,
        },
{
    let len: usize = data.len();
    let n: usize = headers.sections as usize;
    let mut v: Vec<Section> = Vec::new();
    let mut i: usize = 0;
    while i < n
        invariant
            i <= n == headers.sections,
            len == data@.len(),
            v@.len() == i,
            forall|k: int|
                0 <= k < i ==> (#[trigger] section_at(data@, headers.sections_offset + k * 40))
                    == Ok::<Section, Error>(v@[k]),
        decreases n - i,
    {
        let ghost p = headers.sections_offset + i * 40;
        let at: usize = match headers.sections_offset.checked_add(i * 40) {
            Some(o) => o,
            None => {
                assert(section_at(data@, p) is Err);
                return Err(Error::OutOfBounds);
            },
        };
        match read_section(data, at) {
            Ok(x) => {
                v.push(x);
            },
            Err(e) => {
                assert(section_at(data@, p) is Err);
                return Err(e);
            },
        }
        i = i + 1;
    }
    assert(v@ =~= section_list(data@, headers)) by {
        assert forall|k: int| 0 <= k < n implies v@[k] == section_list(data@, headers)[k] by {
            assert(section_at(data@, headers.sections_offset + k * 40) == Ok::<Section, Error>(
                v@[k],
            ));
        }
    }
    Ok(v)
}

/// Where data directory `index` stands.
pub open spec fn directory_offset(h: Headers, index: u16) -> int {
    h.pe_offset + 24 + (if h.is_pe32_plus {
        112int
    } else {
        96
    }) + index * 8
}

/// Read a data directory as its address and size.
pub fn data_directory(data: &[u8], headers: Headers, index: u16) -> (r: Result<(u32, u32), Error>)
    ensures
        r == (match (
            word32(data@, directory_offset(headers, index)),
            word32(data@, directory_offset(headers, index) + 4),
        ) {
            (Ok(a), Ok(b)) => Ok((a, b)),
            _ => Err(Error::OutOfBounds),
        }),
{
    let base: usize = 24 + (if headers.is_pe32_plus {
        112
    } else {
        96
    }) + index as usize * 8;
    let a: u32 = read_u32(data, headers.pe_offset, base)?;
    let b: u32 = read_u32(data, headers.pe_offset, base + 4)?;
    Ok((a, b))
}

/// Read the characteristics.
pub fn characteristics(data: &[u8], headers: Headers) -> (r: Result<u16, Error>)
    ensures
        r == word16(data@, headers.pe_offset + 22),
{
    read_u16(data, headers.pe_offset, 22)
}

/// The larger of the two sizes of a section.
pub open spec fn span_of(x: Section) -> u32 {
    if x.virtual_size >= x.raw_size {
        x.virtual_size
    } else {
        x.raw_size
    }
}

/// The offset of `rva` in an image of `len` bytes, by the sections from `i` on.
pub open spec fn mapped_from(list: Seq<Section>, i: int, len: int, rva: u32) -> Result<usize, Error>
    decreases list.len() - i,
{
    if i >= list.len() {
        Err(Error::OutOfBounds)
    } else {
        let x = list[i];
        if x.virtual_address <= rva && rva < x.virtual_address.saturating_add(span_of(x)) {
            let o = x.raw_offset + (rva - x.virtual_address);
            if o > u32::MAX {
                Err(Error::OutOfBounds)
            } else if o < len {
                Ok(o as usize)
            } else {
                mapped_from(list, i + 1, len, rva)
            }
        } else {
            mapped_from(list, i + 1, len, rva)
        }
    }
}

/// The offset of an address: below the section headers it is the address, else
/// the sections map it.
pub open spec fn offset_of(s: Seq<u8>, h: Headers, rva: u32) -> Result<usize, Error> {
    if rva < h.sections_offset as u32 {
        Ok(rva as usize)
    } else if !has_sections(s, h) {
        Err(Error::OutOfBounds)
    } else {
        mapped_from(section_list(s, h), 0, s.len() as int, rva)
    }
}

/// Map an address to an offset.
pub fn rva_to_offset(data: &[u8], headers: Headers, rva: u32) -> (r: Result<usize, Error>)
    ensures
        r == offset_of(data@, headers, rva),
{
    let low: u32 = #[verifier::truncate]
    (headers.sections_offset as u32);
    if rva < low {
        return Ok(rva as usize);
    }
    let list: Vec<Section> = sections(data, headers)?;
    let len: usize = data.len();
    let n: usize = list.len();
    let mut i: usize = 0;
    while i < n
        invariant
            i <= n == list@.len(),
            len == data@.len(),
            offset_of(data@, headers, rva) == mapped_from(list@, i as int, len as int, rva),
        decreases n - i,
    {
        let x: Section = list[i];
        let span: u32 = if x.virtual_size >= x.raw_size {
            x.virtual_size
        } else {
            x.raw_size
        };
        if x.virtual_address <= rva && rva < x.virtual_address.saturating_add(span) {
            match x.raw_offset.checked_add(rva - x.virtual_address) {
                Some(o) => {
                    if (o as usize) < len {
                        return Ok(o as usize);
                    }
                },
                None => {
                    return Err(Error::OutOfBounds);
                },
            }
        }
        i = i + 1;
    }
    Err(Error::OutOfBounds)
}

/// The offset of the `size` bytes at `rva`, by the first section from `i` on whose
/// file bytes hold them all.
pub open spec fn backed_from(list: Seq<Section>, i: int, rva: u32, size: u32) -> Option<u32>
    decreases list.len() - i,
{
    if i >= list.len() {
        None
    } else {
        let x = list[i];
        let d = rva - x.virtual_address;
        if d >= 0 && d < x.raw_size && d + size <= x.raw_size && x.raw_offset + d <= u32::MAX {
            Some((x.raw_offset + d) as u32)
        } else {
            backed_from(list, i + 1, rva, size)
        }
    }
}

/// Where the file bytes behind `size` bytes at `rva` start: in the headers, or in
/// one section.
pub open spec fn backed_start(s: Seq<u8>, h: Headers, rva: u32, size: u32) -> Result<u32, Error> {
    match word32(s, h.pe_offset + 84) {
        Err(e) => Err(e),
        Ok(head) => if rva < head && rva + size <= head {
            Ok(rva)
        } else if !has_sections(s, h) {
            Err(Error::OutOfBounds)
        } else {
            match backed_from(section_list(s, h), 0, rva, size) {
                Some(o) => Ok(o),
                None => Err(Error::OutOfBounds),
            }
        },
    }
}

fn find_backed(list: &Vec<Section>, rva: u32, size: u32) -> (r: Option<u32>)
    ensures
        r == backed_from(list@, 0, rva, size),
{
    let n: usize = list.len();
    let mut i: usize = 0;
    while i < n
        invariant
            i <= n == list@.len(),
            backed_from(list@, 0, rva, size) == backed_from(list@, i as int, rva, size),
        decreases n - i,
    {
        let x: Section = list[i];
        if rva >= x.virtual_address {
            let d: u32 = rva - x.virtual_address;
            if d < x.raw_size && size <= x.raw_size - d {
                match x.raw_offset.checked_add(d) {
                    Some(o) => {
                        return Some(o);
                    },
                    None => {},
                }
            }
        }
        i = i + 1;
    }
    None
}

/// Map `size` bytes at `rva`, every one of them backed by the file, to their
/// range.
pub fn rva_range(data: &[u8], headers: Headers, rva: u32, size: u32) -> (r: Result<
    Range<usize>,
    Error,
>)
    ensures
        match (backed_start(data@, headers, rva, size), r) {
            (Ok(o), Ok(x)) => x.start == o && x.end == o + size && o + size <= data@.len(),
            (Ok(o), Err(e)) => o + size > data@.len() && e == Error::OutOfBounds,
            (Err(a), Err(b)) => a == b,
            (Err(_), Ok(_)) => false,
        },
{
    let head: u32 = read_u32(data, headers.pe_offset, 84)?;
    let o: u32 = if rva < head && size <= head - rva {
        rva
    } else {
        let list: Vec<Section> = sections(data, headers)?;
        match find_backed(&list, rva, size) {
            Some(o) => o,
            None => return Err(Error::OutOfBounds),
        }
    };
    let len: usize = data.len();
    if o as u64 + size as u64 > len as u64 {
        return Err(Error::OutOfBounds);
    }
    Ok(o as usize..o as usize + size as usize)
}

} // verus!
