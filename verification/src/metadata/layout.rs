//! Where the tables of a metadata file lie, and what its images list.

use vstd::prelude::*;

use crate::bytes::{fits, le16, le32, peek_u16, peek_u32};
use crate::metadata::MAGIC;
use crate::metadata::error::{
    fails, malformed, malformed_at, numbered, range_error, range_problem, Error, Problem,
};

verus! {

/// Where the tables of a metadata file lie.
#[derive(Debug, Clone, Copy, PartialEq, Eq, Structural)]
pub struct Layout {
    pub version: u32,
    /// Whether the records have indices of varying width.
    pub compact: bool,
    pub method_offset: usize,
    pub method_count: usize,
    pub method_stride: usize,
    /// Where a method record holds its token.
    pub token_offset: usize,
    pub type_offset: usize,
    pub type_count: usize,
    pub type_stride: usize,
    /// Where a type record holds its first method.
    pub method_start: usize,
    /// Where a type record holds its number of methods.
    pub method_len: usize,
    pub image_offset: usize,
    pub image_count: usize,
    pub image_stride: usize,
    /// The width of an image record's first type.
    pub width: usize,
}

impl Layout {
    /// Whether the tables lie inside a file of `len` bytes and the fields inside
    /// their records.
    pub open spec fn inside(self, len: int) -> bool {
        &&& self.method_offset + self.method_count * self.method_stride <= len
        &&& self.type_offset + self.type_count * self.type_stride <= len
        &&& self.image_offset + self.image_count * self.image_stride <= len
        &&& self.token_offset + 4 <= self.method_stride
        &&& self.method_start + 4 <= self.type_stride
        &&& self.method_len + 2 <= self.type_stride
        &&& 8 + self.width + 4 <= self.image_stride
        &&& self.width == 1 || self.width == 2 || self.width == 4
        &&& !self.compact ==> self.width == 4
        &&& self.method_count <= 0x1000_0000
        &&& self.type_count <= u32::MAX
        &&& self.image_count <= u32::MAX
    }

    /// Where method `m` has its token.
    pub open spec fn slot(self, m: int) -> int {
        self.method_offset + m * self.method_stride + self.token_offset
    }

    /// Where type `t` stands.
    pub open spec fn type_at(self, t: int) -> int {
        self.type_offset + t * self.type_stride
    }

    /// Where image `i` stands.
    pub open spec fn image_at(self, i: int) -> int {
        self.image_offset + i * self.image_stride
    }
}

/// The word at `o`.
pub open spec fn word(s: Seq<u8>, o: int) -> Result<u32, Problem> {
    if fits(s, o, 4) {
        Ok(le32(s, o))
    } else {
        Err(range_problem(o, 4))
    }
}

fn read_word(data: &[u8], o: usize) -> (r: Result<u32, Error>)
    ensures
        match word(data@, o as int) {
            Ok(v) => r is Ok && r->Ok_0 == v,
            Err(p) => fails(r, p),
        },
{
    match peek_u32(data, o) {
        Some(v) => Ok(v),
        None => Err(range_error(o, 4)),
    }
}

/// The table that the two words at `h` name, as its offset and size.
pub open spec fn table_at(s: Seq<u8>, h: int) -> Result<(u32, u32), Problem> {
    match word(s, h) {
        Err(p) => Err(p),
        Ok(o) => match word(s, h + 4) {
            Err(p) => Err(p),
            Ok(n) => if fits(s, o as int, n as int) {
                Ok((o, n))
            } else {
                Err(range_problem(o as int, n as int))
            },
        },
    }
}

fn read_table(data: &[u8], h: usize) -> (r: Result<(u32, u32), Error>)
    requires
        h <= 0x1000,
    ensures
        match table_at(data@, h as int) {
            Ok(v) => r is Ok && r->Ok_0 == v,
            Err(p) => fails(r, p),
        },
        r matches Ok(v) ==> v.0 + v.1 <= data@.len(),
{
    let o: u32 = read_word(data, h)?;
    let n: u32 = read_word(data, h + 4)?;
    let len: usize = data.len();
    if o as usize > len || n as usize > len - o as usize {
        return Err(range_error(o as usize, n as usize));
    }
    Ok((o, n))
}

/// The layout of a file of an ordinary version.
pub open spec fn plain_layout(s: Seq<u8>, version: u32, stride: u32, token: u32) -> Result<
    Layout,
    Problem,
> {
    match table_at(s, 0x30) {
        Err(p) => Err(p),
        Ok((mo, ms)) => match table_at(s, 0xA0) {
            Err(p) => Err(p),
            Ok((to, ts)) => match table_at(s, 0xA8) {
                Err(p) => Err(p),
                Ok((io, size)) => if ms % stride != 0 || ts % 0x58 != 0 || size % 0x28 != 0 {
                    Err(
                        Problem::Malformed(
                            "method/type/image table size is not divisible by its entry stride"@,
                        ),
                    )
                } else {
                    Ok(
                        Layout {
                            version,
                            compact: false,
                            method_offset: mo as usize,
                            method_count: (ms / stride) as usize,
                            method_stride: stride as usize,
                            token_offset: token as usize,
                            type_offset: to as usize,
                            type_count: (ts / 0x58) as usize,
                            type_stride: 0x58,
                            method_start: 0x24,
                            method_len: 0x40,
                            image_offset: io as usize,
                            image_count: (size / 0x28) as usize,
                            image_stride: 0x28,
                            width: 4,
                        },
                    )
                },
            },
        },
    }
}

fn read_plain(data: &[u8], version: u32, stride: u32, token: u32) -> (r: Result<Layout, Error>)
    requires
        stride == 0x20 && token == 0x14 || stride == 0x24 && token == 0x18,
    ensures
        match plain_layout(data@, version, stride, token) {
            Ok(v) => r is Ok && r->Ok_0 == v,
            Err(p) => fails(r, p),
        },
        r matches Ok(l) ==> l.inside(data@.len() as int),
{
    let (mo, ms): (u32, u32) = read_table(data, 0x30)?;
    let (to, ts): (u32, u32) = read_table(data, 0xA0)?;
    let (io, size): (u32, u32) = read_table(data, 0xA8)?;
    if ms % stride != 0 || ts % 0x58 != 0 || size % 0x28 != 0 {
        return Err(malformed("method/type/image table size is not divisible by its entry stride"));
    }
    let l: Layout = Layout {
        version,
        compact: false,
        method_offset: mo as usize,
        method_count: (ms / stride) as usize,
        method_stride: stride as usize,
        token_offset: token as usize,
        type_offset: to as usize,
        type_count: (ts / 0x58) as usize,
        type_stride: 0x58,
        method_start: 0x24,
        method_len: 0x40,
        image_offset: io as usize,
        image_count: (size / 0x28) as usize,
        image_stride: 0x28,
        width: 4,
    };
    assert(l.method_count * l.method_stride == ms) by (nonlinear_arith)
        requires
            l.method_count == ms / stride,
            l.method_stride == stride,
            ms % stride == 0,
            stride > 0,
    ;
    assert(l.method_count <= 0x1000_0000) by (nonlinear_arith)
        requires
            l.method_count == ms / stride,
            stride >= 0x20,
    ;
    Ok(l)
}

/// Section `i` of a compact file, as its offset, size and number of records.
pub open spec fn section_at(s: Seq<u8>, i: int) -> Result<(u32, u32, u32), Problem> {
    let h = 8 + 12 * i;
    match word(s, h) {
        Err(p) => Err(p),
        Ok(o) => match word(s, h + 4) {
            Err(p) => Err(p),
            Ok(n) => match word(s, h + 8) {
                Err(p) => Err(p),
                Ok(k) => if fits(s, o as int, n as int) {
                    Ok((o, n, k))
                } else {
                    Err(range_problem(o as int, n as int))
                },
            },
        },
    }
}

fn v39_section(data: &[u8], i: usize) -> (r: Result<(u32, u32, u32), Error>)
    requires
        i <= 0x100,
    ensures
        match section_at(data@, i as int) {
            Ok(v) => r is Ok && r->Ok_0 == v,
            Err(p) => fails(r, p),
        },
        r matches Ok(v) ==> v.0 + v.1 <= data@.len(),
{
    let h: usize = 8 + 12 * i;
    let o: u32 = read_word(data, h)?;
    let n: u32 = read_word(data, h + 4)?;
    let k: u32 = read_word(data, h + 8)?;
    let len: usize = data.len();
    if o as usize > len || n as usize > len - o as usize {
        return Err(range_error(o as usize, n as usize));
    }
    Ok((o, n, k))
}

/// How wide an index into `n` records is.
pub open spec fn index_width(n: u32) -> int {
    if n <= 0xFF {
        1
    } else if n <= 0xFFFF {
        2
    } else {
        4
    }
}

fn v39_index_width(n: u32) -> (r: usize)
    ensures
        r == index_width(n),
{
    if n <= 0xFF {
        1
    } else if n <= 0xFFFF {
        2
    } else {
        4
    }
}

/// How wide an index of a type is, from the size of the interface offsets.
pub open spec fn type_index_width(size: u32, count: u32) -> Option<int> {
    if count == 0 {
        Some(4)
    } else {
        let w = size / count - 4;
        if w == 1 || w == 2 || w == 4 {
            Some(w)
        } else {
            None
        }
    }
}

/// The sections of a compact file that the layout rests on.
pub struct Sections {
    pub methods: (u32, u32, u32),
    pub parameters: (u32, u32, u32),
    pub containers: (u32, u32, u32),
    pub interfaces: (u32, u32, u32),
    pub types: (u32, u32, u32),
    pub images: (u32, u32, u32),
}

/// The sections of a compact file.
pub open spec fn sections_of(s: Seq<u8>) -> Result<Sections, Problem> {
    match section_at(s, 5) {
        Err(p) => Err(p),
        Ok(methods) => match section_at(s, 10) {
            Err(p) => Err(p),
            Ok(parameters) => match section_at(s, 14) {
                Err(p) => Err(p),
                Ok(containers) => match section_at(s, 18) {
                    Err(p) => Err(p),
                    Ok(interfaces) => match section_at(s, 19) {
                        Err(p) => Err(p),
                        Ok(types) => match section_at(s, 20) {
                            Err(p) => Err(p),
                            Ok(images) => Ok(
                                Sections {
                                    methods,
                                    parameters,
                                    containers,
                                    interfaces,
                                    types,
                                    images,
                                },
                            ),
                        },
                    },
                },
            },
        },
    }
}

/// The layout of a compact file.
pub open spec fn compact_layout(s: Seq<u8>) -> Result<Layout, Problem> {
    match sections_of(s) {
        Err(p) => Err(p),
        Ok(x) => {
            let pw = index_width(x.parameters.2);
            let gw = index_width(x.containers.2);
            let dw = index_width(x.types.2);
            match type_index_width(x.interfaces.1, x.interfaces.2) {
                None => Err(Problem::Malformed("v39 type-index width is invalid"@)),
                Some(tw) => {
                    let ms = 20 + dw + tw + pw + gw;
                    let ts = 68 + 3 * tw + gw;
                    let size = 32 + 2 * dw;
                    if x.methods.2 * ms != x.methods.1 || x.types.2 * ts != x.types.1 || x.images.2
                        * size != x.images.1 || (x.parameters.2 == 0 && x.parameters.1 != 0) {
                        Err(
                            Problem::Malformed(
                                "v39 table size does not match its compact entry layout"@,
                            ),
                        )
                    } else {
                        Ok(
                            Layout {
                                version: 39,
                                compact: true,
                                method_offset: x.methods.0 as usize,
                                method_count: x.methods.2 as usize,
                                method_stride: ms as usize,
                                token_offset: (8 + dw + tw + pw + gw) as usize,
                                type_offset: x.types.0 as usize,
                                type_count: x.types.2 as usize,
                                type_stride: ts as usize,
                                method_start: (16 + 3 * tw + gw) as usize,
                                method_len: (44 + 3 * tw + gw) as usize,
                                image_offset: x.images.0 as usize,
                                image_count: x.images.2 as usize,
                                image_stride: size as usize,
                                width: dw as usize,
                            },
                        )
                    }
                },
            }
        },
    }
}

fn read_sections(data: &[u8]) -> (r: Result<Sections, Error>)
    ensures
        match sections_of(data@) {
            Ok(v) => r is Ok && r->Ok_0 == v,
            Err(p) => fails(r, p),
        },
        r matches Ok(x) ==> x.methods.0 + x.methods.1 <= data@.len() && x.types.0 + x.types.1
            <= data@.len() && x.images.0 + x.images.1 <= data@.len(),
{
    let methods: (u32, u32, u32) = v39_section(data, 5)?;
    let parameters: (u32, u32, u32) = v39_section(data, 10)?;
    let containers: (u32, u32, u32) = v39_section(data, 14)?;
    let interfaces: (u32, u32, u32) = v39_section(data, 18)?;
    let types: (u32, u32, u32) = v39_section(data, 19)?;
    let images: (u32, u32, u32) = v39_section(data, 20)?;
    Ok(Sections { methods, parameters, containers, interfaces, types, images })
}

fn parse_v39(data: &[u8]) -> (r: Result<Layout, Error>)
    ensures
        match compact_layout(data@) {
            Ok(v) => r is Ok && r->Ok_0 == v,
            Err(p) => fails(r, p),
        },
        r matches Ok(l) ==> l.inside(data@.len() as int),
{
    let x: Sections = read_sections(data)?;
    let pw: usize = v39_index_width(x.parameters.2);
    let gw: usize = v39_index_width(x.containers.2);
    let dw: usize = v39_index_width(x.types.2);
    let tw: usize = if x.interfaces.2 == 0 {
        4
    } else {
        let n: u32 = x.interfaces.1 / x.interfaces.2;
        if n == 5 || n == 6 || n == 8 {
            (n - 4) as usize
        } else {
            return Err(malformed("v39 type-index width is invalid"));
        }
    };
    let ms: usize = 20 + dw + tw + pw + gw;
    let ts: usize = 68 + 3 * tw + gw;
    let size: usize = 32 + 2 * dw;
    assert(x.methods.2 * ms <= u32::MAX * 40) by (nonlinear_arith)
        requires
            x.methods.2 <= u32::MAX,
            ms <= 40,
    ;
    assert(x.types.2 * ts <= u32::MAX * 100) by (nonlinear_arith)
        requires
            x.types.2 <= u32::MAX,
            ts <= 100,
    ;
    assert(x.images.2 * size <= u32::MAX * 40) by (nonlinear_arith)
        requires
            x.images.2 <= u32::MAX,
            size <= 40,
    ;
    if x.methods.2 as u64 * ms as u64 != x.methods.1 as u64 || x.types.2 as u64 * ts as u64
        != x.types.1 as u64 || x.images.2 as u64 * size as u64 != x.images.1 as u64 || (
    x.parameters.2 == 0 && x.parameters.1 != 0) {
        return Err(malformed("v39 table size does not match its compact entry layout"));
    }
    assert(x.methods.2 <= 0x1000_0000) by (nonlinear_arith)
        requires
            x.methods.2 * ms == x.methods.1,
            x.methods.1 <= u32::MAX,
            ms >= 20,
    ;
    Ok(
        Layout {
            version: 39,
            compact: true,
            method_offset: x.methods.0 as usize,
            method_count: x.methods.2 as usize,
            method_stride: ms,
            token_offset: 8 + dw + tw + pw + gw,
            type_offset: x.types.0 as usize,
            type_count: x.types.2 as usize,
            type_stride: ts,
            method_start: 16 + 3 * tw + gw,
            method_len: 44 + 3 * tw + gw,
            image_offset: x.images.0 as usize,
            image_count: x.images.2 as usize,
            image_stride: size,
            width: dw,
        },
    )
}

/// The layout of a metadata file.
pub open spec fn layout_of(s: Seq<u8>) -> Result<Layout, Problem> {
    if !(fits(s, 0, 4) && le32(s, 0) == MAGIC) {
        Err(Problem::NotMetadata)
    } else {
        match word(s, 4) {
            Err(p) => Err(p),
            Ok(v) => if v == 39 {
                compact_layout(s)
            } else if v == 29 {
                plain_layout(s, v, 0x20, 0x14)
            } else if v == 31 {
                plain_layout(s, v, 0x24, 0x18)
            } else {
                Err(Problem::UnsupportedVersion(v))
            },
        }
    }
}

/// Find the layout of a metadata file.
pub fn find_layout(data: &[u8]) -> (r: Result<Layout, Error>)
    ensures
        match layout_of(data@) {
            Ok(v) => r is Ok && r->Ok_0 == v,
            Err(p) => fails(r, p),
        },
        r matches Ok(l) ==> l.inside(data@.len() as int),
{
    match peek_u32(data, 0) {
        Some(v) => {
            if v != MAGIC {
                return Err(Error::NotMetadata);
            }
        },
        None => {
            return Err(Error::NotMetadata);
        },
    }
    let version: u32 = read_word(data, 4)?;
    if version == 39 {
        parse_v39(data)
    } else if version == 29 {
        read_plain(data, version, 0x20, 0x14)
    } else if version == 31 {
        read_plain(data, version, 0x24, 0x18)
    } else {
        Err(Error::UnsupportedVersion(version))
    }
}

/// Record `i` of `count` lies inside its table.
pub proof fn record_inside(base: int, count: int, stride: int, len: int, i: int)
    requires
        0 <= i < count,
        0 <= base,
        0 <= stride,
        base + count * stride <= len,
    ensures
        0 <= i * stride,
        i * stride + stride <= count * stride,
        base + i * stride + stride <= len,
{
    assert(i * stride + stride <= count * stride) by (nonlinear_arith)
        requires
            0 <= i < count,
            0 <= stride,
    ;
    assert(0 <= i * stride) by (nonlinear_arith)
        requires
            0 <= i,
            0 <= stride,
    ;
}

/// The word of two's complement `v` as a number.
pub open spec fn signed(v: u32) -> int {
    if v < 0x8000_0000 {
        v as int
    } else {
        v - 0x1_0000_0000
    }
}

/// The first type of image `i`, where it is not negative.
pub open spec fn first_type(s: Seq<u8>, l: Layout, i: int) -> Result<int, Problem> {
    let p = l.image_at(i) + 8;
    if !l.compact {
        let v = signed(le32(s, p));
        if v < 0 {
            Err(Problem::Malformed(numbered("image "@, i, " has negative typeStart"@)))
        } else {
            Ok(v)
        }
    } else if l.width == 1 {
        Ok(s[p] as int)
    } else if l.width == 2 {
        Ok(le16(s, p) as int)
    } else {
        Ok(le32(s, p) as int)
    }
}

/// The types of image `i`, as the first and the one behind the last.
pub open spec fn types_of(s: Seq<u8>, l: Layout, i: int) -> Result<(int, int), Problem> {
    match first_type(s, l, i) {
        Err(p) => Err(p),
        Ok(t) => {
            let end = t + le32(s, l.image_at(i) + 8 + l.width);
            if end > usize::MAX {
                Err(
                    Problem::Malformed(
                        if l.compact {
                            "v39 image type range overflow"@
                        } else {
                            "image type range overflow"@
                        },
                    ),
                )
            } else if end > l.type_count {
                Err(
                    Problem::Malformed(
                        if l.compact {
                            "v39 image type range exceeds the type table"@
                        } else {
                            numbered("image "@, i, " type range exceeds the table"@)
                        },
                    ),
                )
            } else {
                Ok((t, end))
            }
        },
    }
}

fn read_first_type(data: &[u8], l: &Layout, i: usize) -> (r: Result<u32, Error>)
    requires
        l.inside(data@.len() as int),
        i < l.image_count,
    ensures
        match first_type(data@, *l, i as int) {
            Ok(v) => r is Ok && r->Ok_0 == v,
            Err(p) => fails(r, p),
        },
{
    let len: usize = data.len();
    proof {
        record_inside(
            l.image_offset as int,
            l.image_count as int,
            l.image_stride as int,
            len as int,
            i as int,
        );
    }
    let p: usize = l.image_offset + i * l.image_stride + 8;
    if l.compact && l.width == 1 {
        return Ok(data[p] as u32);
    }
    if l.compact && l.width == 2 {
        return match peek_u16(data, p) {
            Some(v) => Ok(v as u32),
            None => Err(range_error(p, 2)),
        };
    }
    let v: u32 = match peek_u32(data, p) {
        Some(v) => v,
        None => return Err(range_error(p, 4)),
    };
    if !l.compact && v >= 0x8000_0000 {
        return Err(malformed_at("image ", i, " has negative typeStart"));
    }
    Ok(v)
}

/// Read the types of image `i`.
pub fn read_types(data: &[u8], l: &Layout, i: usize) -> (r: Result<(usize, usize), Error>)
    requires
        l.inside(data@.len() as int),
        i < l.image_count,
    ensures
        match types_of(data@, *l, i as int) {
            Ok((a, b)) => r is Ok && r->Ok_0.0 == a && r->Ok_0.1 == b && 0 <= a <= b
                <= l.type_count,
            Err(p) => fails(r, p),
        },
{
    let len: usize = data.len();
    proof {
        record_inside(
            l.image_offset as int,
            l.image_count as int,
            l.image_stride as int,
            len as int,
            i as int,
        );
    }
    let t: u32 = read_first_type(data, l, i)?;
    let p: usize = l.image_offset + i * l.image_stride + 8 + l.width;
    let n: u32 = match peek_u32(data, p) {
        Some(v) => v,
        None => return Err(range_error(p, 4)),
    };
    match (t as usize).checked_add(n as usize) {
        None => Err(
            malformed(
                if l.compact {
                    "v39 image type range overflow"
                } else {
                    "image type range overflow"
                },
            ),
        ),
        Some(end) => {
            if end > l.type_count {
                return Err(
                    if l.compact {
                        malformed("v39 image type range exceeds the type table")
                    } else {
                        malformed_at("image ", i, " type range exceeds the table")
                    },
                );
            }
            Ok((t as usize, end))
        },
    }
}

/// The methods of type `t`, as the first and the one behind the last; none where
/// both are equal. `loud` chooses the longer description of a negative first one.
pub open spec fn methods_of(s: Seq<u8>, l: Layout, t: int, loud: bool) -> Result<(int, int), Problem> {
    let first = le32(s, l.type_at(t) + l.method_start);
    let n = le16(s, l.type_at(t) + l.method_len);
    if n == 0 || (l.compact && first == u32::MAX) {
        Ok((0, 0))
    } else if !l.compact && signed(first) < 0 {
        Err(
            Problem::Malformed(
                numbered(
                    "type "@,
                    t,
                    if loud {
                        " has methods but negative methodStart"@
                    } else {
                        " has negative methodStart"@
                    },
                ),
            ),
        )
    } else if first + n > usize::MAX {
        Err(
            Problem::Malformed(
                if l.compact {
                    "v39 type method range overflow"@
                } else {
                    "type method range overflow"@
                },
            ),
        )
    } else if first + n > l.method_count {
        Err(
            Problem::Malformed(
                if l.compact {
                    "v39 type method range exceeds the method table"@
                } else {
                    numbered("type "@, t, " method range exceeds the table"@)
                },
            ),
        )
    } else {
        Ok((first as int, first + n))
    }
}

/// Read the methods of type `t`.
pub fn read_methods(data: &[u8], l: &Layout, t: usize, loud: bool) -> (r: Result<
    (usize, usize),
    Error,
>)
    requires
        l.inside(data@.len() as int),
        t < l.type_count,
    ensures
        match methods_of(data@, *l, t as int, loud) {
            Ok((a, b)) => r is Ok && r->Ok_0.0 == a && r->Ok_0.1 == b && 0 <= a <= b
                <= l.method_count,
            Err(p) => fails(r, p),
        },
{
    let len: usize = data.len();
    proof {
        record_inside(
            l.type_offset as int,
            l.type_count as int,
            l.type_stride as int,
            len as int,
            t as int,
        );
    }
    let p: usize = l.type_offset + t * l.type_stride;
    let (first, n): (u32, u16) = match (
        peek_u32(data, p + l.method_start),
        peek_u16(data, p + l.method_len),
    ) {
        (Some(a), Some(b)) => (a, b),
        _ => return Err(range_error(p, 4)),
    };
    if n == 0 || (l.compact && first == 0xFFFF_FFFF) {
        return Ok((0, 0));
    }
    if !l.compact && first >= 0x8000_0000 {
        return Err(
            malformed_at(
                "type ",
                t,
                if loud {
                    " has methods but negative methodStart"
                } else {
                    " has negative methodStart"
                },
            ),
        );
    }
    match (first as usize).checked_add(n as usize) {
        None => Err(
            malformed(
                if l.compact {
                    "v39 type method range overflow"
                } else {
                    "type method range overflow"
                },
            ),
        ),
        Some(end) => {
            if end > l.method_count {
                return Err(
                    if l.compact {
                        malformed("v39 type method range exceeds the method table")
                    } else {
                        malformed_at("type ", t, " method range exceeds the table")
                    },
                );
            }
            Ok((first as usize, end))
        },
    }
}

/// The token of method `m`.
pub open spec fn token_of(s: Seq<u8>, l: Layout, m: int) -> u32 {
    le32(s, l.slot(m))
}

/// Read the token of method `m`.
pub fn read_token(data: &[u8], l: &Layout, m: usize) -> (r: u32)
    requires
        l.inside(data@.len() as int),
        m < l.method_count,
    ensures
        r == token_of(data@, *l, m as int),
{
    let len: usize = data.len();
    proof {
        record_inside(
            l.method_offset as int,
            l.method_count as int,
            l.method_stride as int,
            len as int,
            m as int,
        );
    }
    match peek_u32(data, l.method_offset + m * l.method_stride + l.token_offset) {
        Some(v) => v,
        None => 0,
    }
}

} // verus!
