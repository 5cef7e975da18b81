//! The sums that are taken while the tables of an ELF file are read.
//!
//! A reader whose addresses have 32 bits adds up words of the file: the sizes of the
//! GNU hash table, the number of its last chain, and the number behind the last
//! symbol that a relocation names. Here it is told beforehand whether they fit.

use vstd::prelude::*;

use crate::bytes::{fits, le16, le32};

verus! {

/// The class and the byte order of a file.
#[derive(Debug, Clone, Copy, PartialEq, Eq, Structural)]
pub struct Form {
    /// Whether addresses have eight bytes, not four.
    pub wide: bool,
    /// Whether the low byte comes first.
    pub little: bool,
}

/// The half-word at `o`.
pub open spec fn half_at(s: Seq<u8>, f: Form, o: int) -> u16 {
    if f.little {
        le16(s, o)
    } else {
        (s[o + 1] as u16) | ((s[o] as u16) << 8u16)
    }
}

/// The word at `o`.
pub open spec fn word_at(s: Seq<u8>, f: Form, o: int) -> u32 {
    if f.little {
        le32(s, o)
    } else {
        (s[o + 3] as u32) | ((s[o + 2] as u32) << 8u32) | ((s[o + 1] as u32) << 16u32) | ((
        s[o] as u32) << 24u32)
    }
}

/// How many bytes an address has.
pub open spec fn address_size(f: Form) -> int {
    if f.wide {
        8
    } else {
        4
    }
}

/// The address, or the number of the size of one, at `o`.
pub open spec fn address_at(s: Seq<u8>, f: Form, o: int) -> u64 {
    if !f.wide {
        word_at(s, f, o) as u64
    } else if f.little {
        (word_at(s, f, o) as u64) | ((word_at(s, f, o + 4) as u64) << 32u64)
    } else {
        (word_at(s, f, o + 4) as u64) | ((word_at(s, f, o) as u64) << 32u64)
    }
}

/// What 32 bits keep of a number.
pub open spec fn low(v: u64) -> u32 {
    v as u32
}

/// A program header.
#[derive(Debug, Clone, Copy, PartialEq, Eq, Structural)]
pub struct Segment {
    pub kind: u32,
    pub offset: u64,
    pub address: u64,
    pub file_size: u64,
    pub memory_size: u64,
}

/// How many bytes a program header has.
pub open spec fn segment_size(f: Form) -> int {
    if f.wide {
        56
    } else {
        32
    }
}

/// The program header at `o`.
pub open spec fn segment_at(s: Seq<u8>, f: Form, o: int) -> Segment {
    if f.wide {
        Segment {
            kind: word_at(s, f, o),
            offset: address_at(s, f, o + 8),
            address: address_at(s, f, o + 16),
            file_size: address_at(s, f, o + 32),
            memory_size: address_at(s, f, o + 40),
        }
    } else {
        Segment {
            kind: word_at(s, f, o),
            offset: address_at(s, f, o + 4),
            address: address_at(s, f, o + 8),
            file_size: address_at(s, f, o + 16),
            memory_size: address_at(s, f, o + 20),
        }
    }
}

/// The `n` program headers from `o` on.
pub open spec fn segments_at(s: Seq<u8>, f: Form, o: int, n: int) -> Seq<Segment> {
    Seq::new(n as nat, |i: int| segment_at(s, f, o + segment_size(f) * i))
}

/// The first dynamic segment from number `i` on.
pub open spec fn dynamic_from(list: Seq<Segment>, i: int) -> Option<Segment>
    decreases list.len() - i,
{
    if i >= list.len() {
        None
    } else if list[i].kind == 2 {
        Some(list[i])
    } else {
        dynamic_from(list, i + 1)
    }
}

/// Where the file holds an address, by the first loaded segment from number `i` on
/// that has it.
pub open spec fn place_from(list: Seq<Segment>, address: u64, i: int) -> Option<u64>
    decreases list.len() - i,
{
    if i >= list.len() {
        None
    } else {
        let x = list[i];
        if x.kind == 1 && x.address <= address && address - x.address < x.memory_size {
            if x.offset + (address - x.address) <= u64::MAX {
                Some((x.offset + (address - x.address)) as u64)
            } else {
                None
            }
        } else {
            place_from(list, address, i + 1)
        }
    }
}

/// The last value that `tag` has among the dynamic entries from number `i` on, up to
/// the first of tag zero; `found` where it has none.
pub open spec fn value_from(
    s: Seq<u8>,
    f: Form,
    o: int,
    n: int,
    tag: u64,
    i: int,
    found: Option<u64>,
) -> Option<u64>
    decreases n - i,
{
    if i >= n {
        found
    } else {
        let p = o + 2 * address_size(f) * i;
        let t = address_at(s, f, p);
        let next = if t == tag {
            Some(address_at(s, f, p + address_size(f)))
        } else {
            found
        };
        if t == 0 {
            next
        } else {
            value_from(s, f, o, n, tag, i + 1, next)
        }
    }
}

/// Where the table stands whose address is given, 0 where it stands nowhere.
pub open spec fn table_place(list: Seq<Segment>, address: Option<u64>) -> u32 {
    match address {
        Some(a) => match place_from(list, a, 0) {
            Some(p) => low(p),
            None => 0,
        },
        None => 0,
    }
}

/// What 32 bits keep of the size of a table, 0 where none is given.
pub open spec fn table_size(size: Option<u64>) -> u32 {
    match size {
        Some(v) => low(v),
        None => 0,
    }
}

/// The symbol that relocation `i` of the table at `o` names, in a file of wide
/// addresses.
pub open spec fn symbol_of(s: Seq<u8>, f: Form, o: int, entry: int, i: int) -> u32 {
    word_at(
        s,
        f,
        o + entry * i + if f.little {
            12int
        } else {
            8
        },
    )
}

/// How many bytes a relocation has in a file of wide addresses.
pub open spec fn relocation_size(with_addend: bool) -> int {
    if with_addend {
        24
    } else {
        16
    }
}

/// Whether a number follows that of every symbol that the `size` bytes of
/// relocations at `o` name. Where addresses are narrow a symbol has 24 bits.
pub open spec fn symbols_fit(s: Seq<u8>, f: Form, o: u32, size: u32, with_addend: bool) -> bool {
    let entry = relocation_size(with_addend);
    f.wide && fits(s, o as int, size as int) ==> forall|i: int|
        0 <= i < size as int / entry ==> #[trigger] symbol_of(s, f, o as int, entry, i) != u32::MAX
}

/// The greatest of the first `n` words from `o` on.
pub open spec fn greatest(s: Seq<u8>, f: Form, o: int, n: int) -> u32
    decreases n,
{
    if n <= 0 {
        0
    } else {
        let before = greatest(s, f, o, n - 1);
        let w = word_at(s, f, o + 4 * (n - 1));
        if before < w {
            w
        } else {
            before
        }
    }
}

/// Where the buckets of the GNU hash table at `o` start.
pub open spec fn buckets_place(s: Seq<u8>, f: Form, o: int) -> int {
    o + 16 + word_at(s, f, o + 8) * address_size(f)
}

/// Whether the sizes of the GNU hash table at `o` can be added up, and the chains
/// counted from the last bucket on: so far as the table lies inside the file and is
/// one.
pub open spec fn hash_fits(s: Seq<u8>, f: Form, o: u32) -> bool {
    let count = word_at(s, f, o as int);
    let first = word_at(s, f, o + 4);
    let buckets = buckets_place(s, f, o as int);
    let last = greatest(s, f, buckets, count as int);
    fits(s, o as int, 12) && count != 0 && first != 0 && word_at(s, f, o + 8) != 0 ==> {
        &&& buckets <= u32::MAX
        &&& fits(s, buckets, 4 * count) && first <= last ==> {
            &&& buckets + 4 * count + 4 * (last - first) <= u32::MAX
            &&& last + s.len() <= u32::MAX
        }
    }
}

/// How many of the first `n` bytes are zero.
pub open spec fn zeros_below(s: Seq<u8>, n: int) -> nat
    decreases n,
{
    if n <= 0 {
        0
    } else {
        zeros_below(s, n - 1) + if s[n - 1] == 0 {
            1nat
        } else {
            0
        }
    }
}

/// Whether the lists of what a file holds can be made: of its entries, each at least
/// half as long as what it is read into, and of its strings, each of which ends in a
/// zero byte or with its table.
pub open spec fn lists_fit(s: Seq<u8>) -> bool {
    s.len() < 0x4000_0000 && zeros_below(s, s.len() as int) < 0x0800_0000
}

/// Whether the tables that the dynamic entries name can be added up.
pub open spec fn dynamic_fits(s: Seq<u8>, f: Form, list: Seq<Segment>, x: Segment) -> bool {
    let o = low(x.offset) as int;
    let n = low(x.file_size) as int / (2 * address_size(f));
    let value = |tag: u64| value_from(s, f, o, n, tag, 0, None);
    fits(s, o, low(x.file_size) as int) ==> {
        &&& symbols_fit(s, f, table_place(list, value(7)), table_size(value(8)), true)
        &&& symbols_fit(s, f, table_place(list, value(17)), table_size(value(18)), false)
        &&& symbols_fit(
            s,
            f,
            table_place(list, value(23)),
            table_size(value(2)),
            value(20) == Some(7u64),
        )
        &&& match value(0x6FFF_FEF5) {
            Some(a) => match place_from(list, a, 0) {
                Some(p) => hash_fits(s, f, low(p)),
                None => true,
            },
            None => true,
        }
    }
}

/// The class and the byte order of an ELF file that holds its header.
pub open spec fn form_of(s: Seq<u8>) -> Option<Form> {
    if s.len() >= 52 && s[0] == 0x7f && s[1] == 0x45 && s[2] == 0x4c && s[3] == 0x46 && (s[4] == 1
        || s[4] == 2 && s.len() >= 64) && (s[5] == 1 || s[5] == 2) {
        Some(Form { wide: s[4] == 2, little: s[5] == 1 })
    } else {
        None
    }
}

/// Whether the sums and the lists that reading a file takes fit where addresses have
/// 32 bits.
pub open spec fn sums_fit(s: Seq<u8>) -> bool {
    lists_fit(s) && match form_of(s) {
        None => true,
        Some(f) => {
            let o = low(
                address_at(
                    s,
                    f,
                    if f.wide {
                        0x20int
                    } else {
                        0x1C
                    },
                ),
            ) as int;
            let n = half_at(
                s,
                f,
                if f.wide {
                    0x38int
                } else {
                    0x2C
                },
            ) as int;
            let list = segments_at(s, f, o, n);
            fits(s, o, segment_size(f) * n) ==> match dynamic_from(list, 0) {
                Some(x) => dynamic_fits(s, f, list, x),
                None => true,
            }
        },
    }
}

fn inside(s: &[u8], at: u64, n: u64) -> (r: bool)
    ensures
        r == fits(s@, at as int, n as int),
{
    let len: u64 = s.len() as u64;
    n <= len && at <= len - n
}

fn read_half(s: &[u8], f: Form, o: usize) -> (r: u16)
    requires
        fits(s@, o as int, 2),
    ensures
        r == half_at(s@, f, o as int),
{
    let len: usize = s.len();
    if f.little {
        (s[o] as u16) | ((s[o + 1] as u16) << 8u16)
    } else {
        (s[o + 1] as u16) | ((s[o] as u16) << 8u16)
    }
}

fn read_word(s: &[u8], f: Form, o: usize) -> (r: u32)
    requires
        fits(s@, o as int, 4),
    ensures
        r == word_at(s@, f, o as int),
{
    let len: usize = s.len();
    if f.little {
        (s[o] as u32) | ((s[o + 1] as u32) << 8u32) | ((s[o + 2] as u32) << 16u32) | ((s[o
            + 3] as u32) << 24u32)
    } else {
        (s[o + 3] as u32) | ((s[o + 2] as u32) << 8u32) | ((s[o + 1] as u32) << 16u32) | ((
        s[o] as u32) << 24u32)
    }
}

fn read_address(s: &[u8], f: Form, o: usize) -> (r: u64)
    requires
        fits(s@, o as int, address_size(f)),
    ensures
        r == address_at(s@, f, o as int),
{
    let len: usize = s.len();
    if !f.wide {
        return read_word(s, f, o) as u64;
    }
    let a: u32 = read_word(s, f, o);
    let b: u32 = read_word(s, f, o + 4);
    if f.little {
        (a as u64) | ((b as u64) << 32u64)
    } else {
        (b as u64) | ((a as u64) << 32u64)
    }
}

fn read_segment(s: &[u8], f: Form, o: usize) -> (r: Segment)
    requires
        fits(s@, o as int, segment_size(f)),
    ensures
        r == segment_at(s@, f, o as int),
{
    let len: usize = s.len();
    if f.wide {
        Segment {
            kind: read_word(s, f, o),
            offset: read_address(s, f, o + 8),
            address: read_address(s, f, o + 16),
            file_size: read_address(s, f, o + 32),
            memory_size: read_address(s, f, o + 40),
        }
    } else {
        Segment {
            kind: read_word(s, f, o),
            offset: read_address(s, f, o + 4),
            address: read_address(s, f, o + 8),
            file_size: read_address(s, f, o + 16),
            memory_size: read_address(s, f, o + 20),
        }
    }
}

fn read_segments(s: &[u8], f: Form, o: usize, n: usize) -> (r: Vec<Segment>)
    requires
        fits(s@, o as int, segment_size(f) * n),
        n <= 0xFFFF,
    ensures
        r@ == segments_at(s@, f, o as int, n as int),
{
    let len: usize = s.len();
    let step: usize = if f.wide {
        56
    } else {
        32
    };
    let mut list: Vec<Segment> = Vec::new();
    let mut i: usize = 0;
    let mut p: usize = o;
    while i < n
        invariant
            i <= n <= 0xFFFF,
            step == segment_size(f),
            len == s@.len(),
            fits(s@, o as int, step * n),
            p == o + step * i,
            list@.len() == i,
            forall|k: int| 0 <= k < i ==> #[trigger] list@[k] == segment_at(s@, f, o + step * k),
        decreases n - i,
    {
        assert(step * i + step <= step * n) by (nonlinear_arith)
            requires
                i < n,
                0 <= step,
        ;
        assert(step * (i + 1) == step * i + step) by (nonlinear_arith);
        list.push(read_segment(s, f, p));
        p = p + step;
        i = i + 1;
    }
    assert(list@ =~= segments_at(s@, f, o as int, n as int));
    list
}

fn find_dynamic(list: &Vec<Segment>) -> (r: Option<Segment>)
    ensures
        r == dynamic_from(list@, 0),
{
    let mut i: usize = 0;
    while i < list.len()
        invariant
            i <= list@.len(),
            dynamic_from(list@, 0) == dynamic_from(list@, i as int),
        decreases list@.len() - i,
    {
        if list[i].kind == 2 {
            return Some(list[i]);
        }
        i = i + 1;
    }
    None
}

fn find_place(list: &Vec<Segment>, address: u64) -> (r: Option<u64>)
    ensures
        r == place_from(list@, address, 0),
{
    let mut i: usize = 0;
    while i < list.len()
        invariant
            i <= list@.len(),
            place_from(list@, address, 0) == place_from(list@, address, i as int),
        decreases list@.len() - i,
    {
        let x: Segment = list[i];
        if x.kind == 1 && x.address <= address && address - x.address < x.memory_size {
            return x.offset.checked_add(address - x.address);
        }
        i = i + 1;
    }
    None
}

fn find_value(s: &[u8], f: Form, o: usize, n: usize, tag: u64) -> (r: Option<u64>)
    requires
        fits(s@, o as int, 2 * address_size(f) * n),
    ensures
        r == value_from(s@, f, o as int, n as int, tag, 0, None),
{
    let len: usize = s.len();
    let half: usize = if f.wide {
        8
    } else {
        4
    };
    let mut found: Option<u64> = None;
    let mut i: usize = 0;
    let mut p: usize = o;
    while i < n
        invariant
            i <= n,
            half == address_size(f),
            len == s@.len(),
            fits(s@, o as int, 2 * half * n),
            p == o + 2 * half * i,
            value_from(s@, f, o as int, n as int, tag, 0, None) == value_from(
                s@,
                f,
                o as int,
                n as int,
                tag,
                i as int,
                found,
            ),
        decreases n - i,
    {
        assert(2 * half * i + 2 * half <= 2 * half * n) by (nonlinear_arith)
            requires
                i < n,
                0 <= half,
        ;
        assert(2 * half * (i + 1) == 2 * half * i + 2 * half) by (nonlinear_arith);
        let t: u64 = read_address(s, f, p);
        if t == tag {
            found = Some(read_address(s, f, p + half));
        }
        if t == 0 {
            return found;
        }
        p = p + 2 * half;
        i = i + 1;
    }
    found
}

fn find_table(list: &Vec<Segment>, address: Option<u64>) -> (r: u32)
    ensures
        r == table_place(list@, address),
{
    match address {
        Some(a) => match find_place(list, a) {
            Some(p) => p as u32,
            None => 0,
        },
        None => 0,
    }
}

fn find_size(size: Option<u64>) -> (r: u32)
    ensures
        r == table_size(size),
{
    match size {
        Some(v) => v as u32,
        None => 0,
    }
}

fn do_symbols_fit(s: &[u8], f: Form, o: u32, size: u32, with_addend: bool) -> (r: bool)
    ensures
        r == symbols_fit(s@, f, o, size, with_addend),
{
    if !f.wide || !inside(s, o as u64, size as u64) {
        return true;
    }
    let len: usize = s.len();
    let entry: usize = if with_addend {
        24
    } else {
        16
    };
    let at: usize = if f.little {
        12
    } else {
        8
    };
    let n: usize = size as usize / entry;
    let mut i: usize = 0;
    let mut p: usize = o as usize;
    assert(entry * n <= size) by (nonlinear_arith)
        requires
            n == size as usize / entry,
            entry > 0,
    ;
    while i < n
        invariant
            i <= n,
            n == size as int / entry as int,
            entry == relocation_size(with_addend),
            at == if f.little {
                12int
            } else {
                8
            },
            f.wide,
            len == s@.len(),
            o + entry * n <= len,
            p == o + entry * i,
            fits(s@, o as int, size as int),
            forall|k: int|
                0 <= k < i ==> #[trigger] symbol_of(s@, f, o as int, entry as int, k) != u32::MAX,
        decreases n - i,
    {
        assert(entry * i + entry <= entry * n) by (nonlinear_arith)
            requires
                i < n,
                0 <= entry,
        ;
        assert(entry * (i + 1) == entry * i + entry) by (nonlinear_arith);
        let w: u32 = read_word(s, f, p + at);
        assert(w == symbol_of(s@, f, o as int, entry as int, i as int));
        if w == u32::MAX {
            return false;
        }
        p = p + entry;
        i = i + 1;
    }
    true
}

fn find_greatest(s: &[u8], f: Form, o: usize, n: usize) -> (r: u32)
    requires
        fits(s@, o as int, 4 * n),
    ensures
        r == greatest(s@, f, o as int, n as int),
{
    let len: usize = s.len();
    let mut top: u32 = 0;
    let mut i: usize = 0;
    while i < n
        invariant
            i <= n,
            len == s@.len(),
            fits(s@, o as int, 4 * n),
            top == greatest(s@, f, o as int, i as int),
        decreases n - i,
    {
        let w: u32 = read_word(s, f, o + 4 * i);
        if top < w {
            top = w;
        }
        i = i + 1;
    }
    top
}

fn does_hash_fit(s: &[u8], f: Form, o: u32) -> (r: bool)
    ensures
        r == hash_fits(s@, f, o),
{
    if !inside(s, o as u64, 12) {
        return true;
    }
    let len: usize = s.len();
    let count: u32 = read_word(s, f, o as usize);
    let first: u32 = read_word(s, f, o as usize + 4);
    let bloom: u32 = read_word(s, f, o as usize + 8);
    if count == 0 || first == 0 || bloom == 0 {
        return true;
    }
    let unit: u64 = if f.wide {
        8
    } else {
        4
    };
    assert(bloom * unit <= 0xFFFF_FFFF * 8) by (nonlinear_arith)
        requires
            bloom <= 0xFFFF_FFFF,
            unit <= 8,
    ;
    let buckets: u64 = o as u64 + 16 + bloom as u64 * unit;
    if buckets > 0xFFFF_FFFF {
        return false;
    }
    if !inside(s, buckets, 4 * count as u64) {
        return true;
    }
    let last: u32 = find_greatest(s, f, buckets as usize, count as usize);
    if last < first {
        return true;
    }
    let chain: u64 = buckets + 4 * count as u64 + 4 * (last - first) as u64;
    chain <= 0xFFFF_FFFF && len as u64 <= 0xFFFF_FFFF - last as u64
}

fn do_lists_fit(s: &[u8]) -> (r: bool)
    ensures
        r == lists_fit(s@),
{
    let len: usize = s.len();
    if len >= 0x4000_0000 {
        return false;
    }
    let mut zeros: usize = 0;
    let mut i: usize = 0;
    while i < len
        invariant
            i <= len == s@.len(),
            zeros <= i,
            zeros == zeros_below(s@, i as int),
        decreases len - i,
    {
        if s[i] == 0 {
            zeros = zeros + 1;
        }
        i = i + 1;
    }
    zeros < 0x0800_0000
}

fn does_dynamic_fit(s: &[u8], f: Form, list: &Vec<Segment>, x: Segment) -> (r: bool)
    ensures
        r == dynamic_fits(s@, f, list@, x),
{
    let o: u32 = x.offset as u32;
    let size: u32 = x.file_size as u32;
    if !inside(s, o as u64, size as u64) {
        return true;
    }
    let len: usize = s.len();
    let entry: usize = if f.wide {
        16
    } else {
        8
    };
    let n: usize = size as usize / entry;
    assert(2 * address_size(f) * n <= size) by {
        if f.wide {
            assert(2 * address_size(f) * n == 16 * n);
        } else {
            assert(2 * address_size(f) * n == 8 * n);
        }
    }
    let o: usize = o as usize;
    let rela: u32 = find_table(list, find_value(s, f, o, n, 7));
    let rela_size: u32 = find_size(find_value(s, f, o, n, 8));
    let rel: u32 = find_table(list, find_value(s, f, o, n, 17));
    let rel_size: u32 = find_size(find_value(s, f, o, n, 18));
    let plt: u32 = find_table(list, find_value(s, f, o, n, 23));
    let plt_size: u32 = find_size(find_value(s, f, o, n, 2));
    let plt_addend: bool = match find_value(s, f, o, n, 20) {
        Some(v) => v == 7,
        None => false,
    };
    let hash: Option<u64> = find_value(s, f, o, n, 0x6FFF_FEF5);
    if !do_symbols_fit(s, f, rela, rela_size, true) || !do_symbols_fit(s, f, rel, rel_size, false)
        || !do_symbols_fit(s, f, plt, plt_size, plt_addend) {
        return false;
    }
    match hash {
        Some(a) => match find_place(list, a) {
            Some(p) => does_hash_fit(s, f, p as u32),
            None => true,
        },
        None => true,
    }
}

fn find_form(s: &[u8]) -> (r: Option<Form>)
    ensures
        r == form_of(s@),
{
    let len: usize = s.len();
    if len >= 52 && s[0] == 0x7f && s[1] == 0x45 && s[2] == 0x4c && s[3] == 0x46 && (s[4] == 1
        || s[4] == 2 && len >= 64) && (s[5] == 1 || s[5] == 2) {
        Some(Form { wide: s[4] == 2, little: s[5] == 1 })
    } else {
        None
    }
}

/// Whether the sums and the lists that reading a file takes fit where addresses have
/// 32 bits.
pub fn do_sums_fit(s: &[u8]) -> (r: bool)
    ensures
        r == sums_fit(s@),
{
    if !do_lists_fit(s) {
        return false;
    }
    let f: Form = match find_form(s) {
        Some(f) => f,
        None => return true,
    };
    let len: usize = s.len();
    let (o, n, step): (u32, u16, u64) = if f.wide {
        (read_address(s, f, 0x20) as u32, read_half(s, f, 0x38), 56)
    } else {
        (read_address(s, f, 0x1C) as u32, read_half(s, f, 0x2C), 32)
    };
    if !inside(s, o as u64, step * n as u64) {
        return true;
    }
    let list: Vec<Segment> = read_segments(s, f, o as usize, n as usize);
    match find_dynamic(&list) {
        Some(x) => does_dynamic_fit(s, f, &list, x),
        None => true,
    }
}

} // verus!
