//! What an ELF image says of itself, as the crate `goblin` reads it.

use vstd::prelude::*;

pub mod sums;

use crate::bytes::{le16, le32, le64};
use crate::elf::sums::{do_sums_fit, sums_fit};

verus! {

/// Machine number of AArch64.
pub const EM_AARCH64: u16 = 183;

/// Type of a program header whose segment is loaded.
pub const PT_LOAD: u32 = 1;

/// An image that is not taken.
#[derive(Debug, PartialEq, Eq)]
pub enum Error {
    /// It was not read; what the reader said.
    Parse(String),
    NotElf64,
    NotAarch64,
}

impl Error {
    /// The message of an error.
    pub open spec fn text(self) -> Seq<char> {
        match self {
            Error::Parse(t) => "ELF parse failed: "@ + t@,
            Error::NotElf64 => "input is not an ELF64 little-endian image"@,
            Error::NotAarch64 => "input is not an AArch64 image"@,
        }
    }

    /// The message of an error.
    pub fn to_string(&self) -> (r: String)
        ensures
            r@ == self.text(),
    {
        match self {
            Error::Parse(t) => {
                let mut s: String = "ELF parse failed: ".to_owned();
                s.append(t.as_str());
                s
            },
            Error::NotElf64 => "input is not an ELF64 little-endian image".to_owned(),
            Error::NotAarch64 => "input is not an AArch64 image".to_owned(),
        }
    }
}

/// A program header: its type, and where its segment stands in the file.
#[derive(Debug, Clone, Copy, PartialEq, Eq, Structural)]
pub struct ProgramHeader {
    pub kind: u32,
    pub offset: u64,
    pub file_size: u64,
}

/// What the headers of an image say.
#[derive(Debug)]
pub struct Image {
    pub class: u8,
    pub encoding: u8,
    pub machine: u16,
    pub program_headers: Vec<ProgramHeader>,
}

/// What the reader makes of some bytes on a machine whose addresses have `width`
/// bits: class, encoding, machine and program headers, or a message.
pub uninterp spec fn elf_read(bytes: Seq<u8>, width: u32) -> Result<
    (u8, u8, u16, Seq<ProgramHeader>),
    Seq<char>,
>;

/// Program header `i` of a little-endian ELF64 file.
pub open spec fn header_at(s: Seq<u8>, i: int) -> ProgramHeader {
    let o = le64(s, 0x20) + 0x38 * i;
    ProgramHeader { kind: le32(s, o), offset: le64(s, o + 8), file_size: le64(s, o + 0x20) }
}

/// `Elf::parse` of the crate `goblin`, reduced to the fields that are used.
///
/// Claimed of it: the result is a function of the bytes and of the width of an
/// address. An image that was read starts with the ELF magic, and its class and
/// encoding are the bytes behind the magic. Of a little-endian ELF64 file, the
/// machine and the program headers are those at their places in the file.
///
/// Where addresses have 32 bits it adds up words of the file in them, so the sums have
/// to fit. Not claimed of it: that there is memory for what it reads.
#[verifier::external_body]
fn read_elf(data: &[u8]) -> (r: Result<Image, String>)
    requires
        usize::BITS == 64 || sums_fit(data@),
    ensures
        match r {
            Ok(x) => elf_read(data@, usize::BITS) == Ok::<
                (u8, u8, u16, Seq<ProgramHeader>),
                Seq<char>,
            >((x.class, x.encoding, x.machine, x.program_headers@)),
            Err(t) => elf_read(data@, usize::BITS) == Err::<
                (u8, u8, u16, Seq<ProgramHeader>),
                Seq<char>,
            >(t@),
        },
        r matches Ok(x) ==> {
            &&& data@.len() >= 16
            &&& data@[0] == 0x7f && data@[1] == 0x45 && data@[2] == 0x4c && data@[3] == 0x46
            &&& x.class == data@[4]
            &&& x.encoding == data@[5]
        },
        r matches Ok(x) ==> x.class == 2 && x.encoding == 1 ==> {
            &&& data@.len() >= 0x40
            &&& x.machine == le16(data@, 0x12)
            &&& le64(data@, 0x20) <= usize::MAX ==> {
                &&& x.program_headers@ == Seq::new(
                    le16(data@, 0x38) as nat,
                    |i: int| header_at(data@, i),
                )
                &&& le64(data@, 0x20) + 0x38 * le16(data@, 0x38) <= data@.len() || le16(
                    data@,
                    0x38,
                ) == 0
            }
        },
{
    let elf = goblin::elf::Elf::parse(data).map_err(|error| error.to_string())?;
    let headers = elf.program_headers.iter().map(
        |ph| ProgramHeader { kind: ph.p_type, offset: ph.p_offset, file_size: ph.p_filesz },
    );
    Ok(
        Image {
            class: elf.header.e_ident[4],
            encoding: elf.header.e_ident[5],
            machine: elf.header.e_machine,
            program_headers: headers.collect(),
        },
    )
}

/// An image of which the headers are known, if it is a little-endian ELF64 one.
pub fn accept(image: Result<Image, String>) -> (r: Result<Image, Error>)
    ensures
        match image {
            Err(t) => r == Err::<Image, Error>(Error::Parse(t)),
            Ok(x) => r == (if x.class != 2 || x.encoding != 1 {
                Err::<Image, Error>(Error::NotElf64)
            } else {
                Ok(x)
            }),
        },
{
    match image {
        Err(t) => Err(Error::Parse(t)),
        Ok(x) => if x.class != 2 || x.encoding != 1 {
            Err(Error::NotElf64)
        } else {
            Ok(x)
        },
    }
}

/// What is made of some bytes on a machine whose addresses have `width` bits. A file
/// whose sums do not fit there is not read.
pub open spec fn reading(s: Seq<u8>, width: u32) -> Result<
    (u8, u8, u16, Seq<ProgramHeader>),
    Seq<char>,
> {
    if width != 64 && !sums_fit(s) {
        Err("sums of the tables overflow an address"@)
    } else {
        elf_read(s, width)
    }
}

/// Whether a reading is of a little-endian ELF64 image.
pub open spec fn is_elf64(x: Result<(u8, u8, u16, Seq<ProgramHeader>), Seq<char>>) -> bool {
    x matches Ok((class, encoding, _, _)) && class == 2 && encoding == 1
}

/// The headers of a little-endian ELF64 image.
pub fn parse(data: &[u8]) -> (r: Result<Image, Error>)
    ensures
        match reading(data@, usize::BITS) {
            Err(t) => r is Err && r->Err_0 is Parse && r->Err_0->Parse_0@ == t,
            Ok((class, encoding, machine, headers)) => if class != 2 || encoding != 1 {
                r == Err::<Image, Error>(Error::NotElf64)
            } else {
                &&& r is Ok
                &&& r->Ok_0.class == 2 && r->Ok_0.encoding == 1
                &&& r->Ok_0.machine == machine
                &&& r->Ok_0.program_headers@ == headers
            },
        },
        r is Ok ==> data@.len() >= 0x40 && data@[0] == 0x7f && data@[1] == 0x45 && data@[2] == 0x4c
            && data@[3] == 0x46 && data@[4] == 2 && data@[5] == 1,
        r is Ok ==> r->Ok_0.machine == le16(data@, 0x12),
{
    if usize::BITS != 64 && !do_sums_fit(data) {
        return Err(Error::Parse("sums of the tables overflow an address".to_owned()));
    }
    accept(read_elf(data))
}

/// Whether `data` is a little-endian AArch64 ELF64 image.
pub fn is_aarch64(data: &[u8]) -> (r: bool)
    ensures
        r == (is_elf64(reading(data@, usize::BITS)) && le16(data@, 0x12) == EM_AARCH64),
{
    match parse(data) {
        Ok(x) => x.machine == EM_AARCH64,
        Err(_) => false,
    }
}

/// The end of a segment, as far as numbers go.
pub open spec fn end_of(x: ProgramHeader) -> u64 {
    if x.offset + x.file_size > u64::MAX {
        u64::MAX
    } else {
        (x.offset + x.file_size) as u64
    }
}

/// The last end of a loaded segment among the first `n`, 0 where there is none.
pub open spec fn loaded_end(list: Seq<ProgramHeader>, n: int) -> u64
    decreases n,
{
    if n <= 0 {
        0
    } else {
        let before = loaded_end(list, n - 1);
        let x = list[n - 1];
        if x.kind == PT_LOAD && end_of(x) > before {
            end_of(x)
        } else {
            before
        }
    }
}

impl Image {
    /// Where the last loaded segment ends in the file, 0 where none is loaded.
    pub fn loaded_end(&self) -> (r: u64)
        ensures
            r == loaded_end(self.program_headers@, self.program_headers@.len() as int),
    {
        let mut end: u64 = 0;
        let mut i: usize = 0;
        while i < self.program_headers.len()
            invariant
                i <= self.program_headers@.len(),
                end == loaded_end(self.program_headers@, i as int),
            decreases self.program_headers@.len() - i,
        {
            let x: ProgramHeader = self.program_headers[i];
            if x.kind == PT_LOAD {
                let e: u64 = x.offset.saturating_add(x.file_size);
                if e > end {
                    end = e;
                }
            }
            i = i + 1;
        }
        end
    }
}

/// Where the last loaded segment of a little-endian ELF64 image ends in the file.
pub fn load_file_end(data: &[u8]) -> (r: Result<u64, Error>)
    ensures
        match reading(data@, usize::BITS) {
            Err(t) => r is Err && r->Err_0 is Parse && r->Err_0->Parse_0@ == t,
            Ok((class, encoding, _, headers)) => r == (if class != 2 || encoding != 1 {
                Err::<u64, Error>(Error::NotElf64)
            } else {
                Ok(loaded_end(headers, headers.len() as int))
            }),
        },
{
    match parse(data) {
        Ok(x) => Ok(x.loaded_end()),
        Err(e) => Err(e),
    }
}

/// No loaded segment ends behind the end that is given, and one ends there, or
/// none is loaded.
pub proof fn loaded_end_is_the_last(list: Seq<ProgramHeader>, n: int)
    requires
        0 <= n <= list.len(),
    ensures
        forall|i: int|
            0 <= i < n && (#[trigger] list[i]).kind == PT_LOAD ==> end_of(list[i]) <= loaded_end(
                list,
                n,
            ),
        loaded_end(list, n) == 0 || exists|i: int|
            0 <= i < n && (#[trigger] list[i]).kind == PT_LOAD && end_of(list[i]) == loaded_end(
                list,
                n,
            ),
    decreases n,
{
    if n > 0 {
        loaded_end_is_the_last(list, n - 1);
        if list[n - 1].kind == PT_LOAD && end_of(list[n - 1]) > loaded_end(list, n - 1) {
            assert(list[n - 1].kind == PT_LOAD && end_of(list[n - 1]) == loaded_end(list, n));
        }
    }
}

} // verus!
