//! A 32-bit memory image turned back into a file.

use vstd::prelude::*;

use crate::bytes::{copy_bytes, le32, overlay, put32, write_then_read_32, zero_vec, zeros};
use crate::error::{UnpackError, MAX_IMAGE_SIZE};
use crate::pe::discovery::trimmed;
use crate::pe::imports::least;
use crate::pe::steps::{corrupt, has2, has4, paste, pasted, rd16, rd32, w16, w32, wr32, Out};

verus! {

/// The least multiple of the file alignment that is not less than `n`.
pub open spec fn aligned(n: int) -> int {
    (n + 0x1FF) / 0x200 * 0x200
}

/// A section and its place in the file.
#[derive(Debug, Clone, Copy, PartialEq, Eq, Structural)]
pub struct Placed {
    /// Where the section header stands.
    pub header: u32,
    pub va: u32,
    /// How many bytes of the image the section has.
    pub len: u32,
    pub raw_at: u32,
    pub raw_size: u32,
}

/// How many bytes of an image the section of `size` bytes at `va` has.
pub open spec fn section_len(s: Seq<u8>, va: u32, size: u32) -> int {
    let end = least(va.wrapping_add(size) as int, s.len() as int);
    if va <= end {
        end - va
    } else {
        0
    }
}

/// How many bytes of the file a section takes: up to its last byte that is not
/// zero, in whole alignment units; one unit if all are zero; none if it has none.
pub open spec fn raw_len(s: Seq<u8>, va: u32, size: u32) -> int {
    let n = section_len(s, va, size);
    let used = if n == 0 {
        0
    } else {
        trimmed(s, va as int, va + n) - va
    };
    let raw = if size != 0 && used == 0 {
        0x200
    } else {
        aligned(used)
    };
    least(raw, aligned(n))
}

/// `found` and the sections from number `i` on, placed in the file from `cursor`
/// on; and the position behind them. `None` where that exceeds the largest image.
pub open spec fn sections_placed(
    s: Seq<u8>,
    table: u32,
    i: int,
    n: int,
    cursor: int,
    found: Seq<Placed>,
) -> Out<Option<(Seq<Placed>, int)>>
    decreases n - i,
{
    let p = table.wrapping_add((i * 40) as u32);
    if i >= n {
        Ok(Some((found, cursor)))
    } else if !has4(s, p.wrapping_add(8)) || !has4(s, p.wrapping_add(12)) {
        corrupt()
    } else {
        let size = w32(s, p.wrapping_add(8));
        let va = w32(s, p.wrapping_add(12));
        let raw = raw_len(s, va, size);
        let x = Placed {
            header: p,
            va,
            len: section_len(s, va, size) as u32,
            raw_at: if raw != 0 {
                cursor as u32
            } else {
                0
            },
            raw_size: raw as u32,
        };
        if raw != 0 && cursor + raw > MAX_IMAGE_SIZE {
            Ok(None)
        } else {
            sections_placed(s, table, i + 1, n, cursor + raw, found.push(x))
        }
    }
}

/// The file with the sections from number `i` on written.
pub open spec fn sections_written(c: Seq<u8>, s: Seq<u8>, list: Seq<Placed>, i: int) -> Out<Seq<u8>>
    decreases list.len() - i,
{
    if i >= list.len() {
        Ok(c)
    } else {
        let x = list[i];
        let p = x.header.wrapping_add(16);
        let q = x.header.wrapping_add(20);
        if !has4(c, p) || !has4(c, q) {
            corrupt()
        } else {
            let a = put32(put32(c, p as int, x.raw_size), q as int, x.raw_at);
            let n = least(x.raw_size as int, x.len as int);
            if x.raw_size == 0 {
                sections_written(a, s, list, i + 1)
            } else {
                match pasted(a, x.raw_at as int, s, x.va as int, n) {
                    Err(e) => Err(e),
                    Ok(b) => sections_written(b, s, list, i + 1),
                }
            }
        }
    }
}

/// The file of the image whose header stands at `pe`: the headers in front, and
/// every section as far as it is used. `None` where it would exceed the largest
/// image.
pub open spec fn compacted(s: Seq<u8>, pe: u32) -> Out<Option<Seq<u8>>> {
    if !has2(s, pe.wrapping_add(20)) || !has2(s, pe.wrapping_add(6)) {
        corrupt()
    } else {
        let opt = pe.wrapping_add(24);
        let table = opt.wrapping_add(w16(s, pe.wrapping_add(20)) as u32);
        match sections_placed(
            s,
            table,
            0,
            w16(s, pe.wrapping_add(6)) as int,
            0x400,
            Seq::empty(),
        ) {
            Err(e) => Err(e),
            Ok(None) => Ok(None),
            Ok(Some((list, end))) => {
                let a = overlay(
                    zeros(end as nat),
                    0,
                    s.subrange(0, least(0x400, s.len() as int)),
                );
                let p = opt.wrapping_add(36);
                let q = opt.wrapping_add(60);
                if !has4(a, p) || !has4(a, q) {
                    corrupt()
                } else {
                    match sections_written(
                        put32(put32(a, p as int, 0x200), q as int, 0x400),
                        s,
                        list,
                        0,
                    ) {
                        Err(e) => Err(e),
                        Ok(b) => Ok(Some(b)),
                    }
                }
            },
        }
    }
}

proof fn trimmed_bounds(s: Seq<u8>, from: int, i: int)
    requires
        from <= i,
    ensures
        from <= trimmed(s, from, i) <= i,
    decreases i - from,
{
    if i > from && s[i - 1] == 0 {
        trimmed_bounds(s, from, i - 1);
    }
}

proof fn raw_len_bounds(s: Seq<u8>, va: u32, size: u32)
    ensures
        0 <= section_len(s, va, size) <= s.len(),
        0 <= raw_len(s, va, size) <= s.len() + 0x1FF,
        raw_len(s, va, size) % 0x200 == 0,
        section_len(s, va, size) > 0 ==> va + section_len(s, va, size) <= s.len(),
{
    let n = section_len(s, va, size);
    if n > 0 {
        trimmed_bounds(s, va as int, va + n);
    }
}

fn find_section_len(s: &[u8], va: u32, size: u32) -> (r: u32)
    ensures
        r == section_len(s@, va, size),
{
    let len: usize = s.len();
    let sum: u32 = va.wrapping_add(size);
    let end: u32 = if sum as usize <= len {
        sum
    } else {
        len as u32
    };
    if va <= end {
        end - va
    } else {
        0
    }
}

fn find_raw_len(s: &[u8], va: u32, size: u32, n: u32) -> (r: u64)
    requires
        n == section_len(s@, va, size),
    ensures
        r == raw_len(s@, va, size),
        r <= s@.len() + 0x1FF,
{
    proof {
        raw_len_bounds(s@, va, size);
    }
    let len: usize = s.len();
    let mut used: u32 = n;
    if n > 0 {
        while used > 0 && s[va as usize + (used as usize - 1)] == 0
            invariant
                used <= n,
                va + n <= s@.len() == len,
                trimmed(s@, va as int, va + n) == trimmed(s@, va as int, va + used),
            decreases used,
        {
            used = used - 1;
        }
    }
    let raw: u64 = if size != 0 && used == 0 {
        0x200
    } else {
        (used as u64 + 0x1FF) / 0x200 * 0x200
    };
    let top: u64 = (n as u64 + 0x1FF) / 0x200 * 0x200;
    if raw <= top {
        raw
    } else {
        top
    }
}

/// Whether a section's bytes lie inside the image.
pub open spec fn within(s: Seq<u8>, x: Placed) -> bool {
    x.len > 0 ==> x.va + x.len <= s.len()
}

fn place_sections(s: &[u8], table: u32, n: u32) -> (r: Out<Option<(Vec<Placed>, u32)>>)
    requires
        n <= 0xFFFF,
    ensures
        match sections_placed(s@, table, 0, n as int, 0x400, Seq::empty()) {
            Err(e) => r is Err && r->Err_0 == e,
            Ok(None) => r is Ok && r->Ok_0 is None,
            Ok(Some((list, end))) => r is Ok && r->Ok_0 is Some && r->Ok_0->Some_0.0@ == list
                && r->Ok_0->Some_0.1 == end && end % 0x200 == 0 && 0x400 <= end <= MAX_IMAGE_SIZE
                && forall|i: int| 0 <= i < list.len() ==> #[trigger] within(s@, list[i]),
        },
{
    let mut list: Vec<Placed> = Vec::new();
    assert(list@ =~= Seq::empty());
    let mut cursor: u32 = 0x400;
    let mut i: u32 = 0;
    while i < n
        invariant
            i <= n <= 0xFFFF,
            cursor % 0x200 == 0,
            0x400 <= cursor <= MAX_IMAGE_SIZE,
            forall|k: int| 0 <= k < list@.len() ==> #[trigger] within(s@, list@[k]),
            sections_placed(s@, table, 0, n as int, 0x400, Seq::empty()) == sections_placed(
                s@,
                table,
                i as int,
                n as int,
                cursor as int,
                list@,
            ),
        decreases n - i,
    {
        let p: u32 = table.wrapping_add(i * 40);
        let size: u32 = rd32(s, p.wrapping_add(8))?;
        let va: u32 = rd32(s, p.wrapping_add(12))?;
        let len: u32 = find_section_len(s, va, size);
        let raw: u64 = find_raw_len(s, va, size, len);
        proof {
            raw_len_bounds(s@, va, size);
        }
        if raw != 0 && cursor as u64 + raw > MAX_IMAGE_SIZE {
            return Ok(None);
        }
        let raw_size: u32 = raw as u32;
        let raw_at: u32 = if raw_size != 0 {
            cursor
        } else {
            0
        };
        let x: Placed = Placed { header: p, va, len, raw_at, raw_size };
        assert(within(s@, x));
        list.push(x);
        cursor = cursor + raw_size;
        i = i + 1;
    }
    Ok(Some((list, cursor)))
}

fn write_sections(c: &mut [u8], s: &[u8], list: &Vec<Placed>) -> (r: Out<()>)
    requires
        forall|i: int| 0 <= i < list@.len() ==> #[trigger] within(s@, list@[i]),
    ensures
        match sections_written(old(c)@, s@, list@, 0) {
            Ok(v) => r is Ok && final(c)@ == v,
            Err(e) => r == Err::<(), UnpackError>(e),
        },
        final(c)@.len() == old(c)@.len(),
{
    let n: usize = list.len();
    let mut i: usize = 0;
    while i < n
        invariant
            i <= n == list@.len(),
            c@.len() == old(c)@.len(),
            forall|k: int| 0 <= k < list@.len() ==> #[trigger] within(s@, list@[k]),
            sections_written(old(c)@, s@, list@, 0) == sections_written(c@, s@, list@, i as int),
        decreases n - i,
    {
        let x: Placed = list[i];
        assert(within(s@, x));
        wr32(c, x.header.wrapping_add(16), x.raw_size)?;
        wr32(c, x.header.wrapping_add(20), x.raw_at)?;
        if x.raw_size != 0 {
            let m: u32 = if x.raw_size <= x.len {
                x.raw_size
            } else {
                x.len
            };
            paste(c, x.raw_at as usize, s, x.va as usize, m as usize)?;
        }
        i = i + 1;
    }
    Ok(())
}

/// [`compact_memory_image_to_pe`] for any image.
pub fn compact_checked(s: &[u8], pe: u32) -> (r: Out<Option<Vec<u8>>>)
    ensures
        match compacted(s@, pe) {
            Err(e) => r is Err && r->Err_0 == e,
            Ok(None) => r is Ok && r->Ok_0 is None,
            Ok(Some(v)) => r is Ok && r->Ok_0 is Some && r->Ok_0->Some_0@ == v,
        },
{
    let opt_size: u16 = rd16(s, pe.wrapping_add(20))?;
    let n: u16 = rd16(s, pe.wrapping_add(6))?;
    let opt: u32 = pe.wrapping_add(24);
    let table: u32 = opt.wrapping_add(opt_size as u32);
    let (list, end): (Vec<Placed>, u32) = match place_sections(s, table, n as u32)? {
        Some(x) => x,
        None => return Ok(None),
    };
    let mut c: Vec<u8> = zero_vec(end as usize);
    let head: usize = if s.len() >= 0x400 {
        0x400
    } else {
        s.len()
    };
    copy_bytes(&mut c, 0, s, 0, head);
    wr32(&mut c, opt.wrapping_add(36), 0x200)?;
    wr32(&mut c, opt.wrapping_add(60), 0x400)?;
    write_sections(&mut c, s, &list)?;
    Ok(Some(c))
}

/// Turn a 32-bit memory image back into a file: the headers take 0x400 bytes, the
/// sections follow in whole units of 0x200 bytes. `None` where the file would
/// exceed the largest image.
pub fn compact_memory_image_to_pe(data: &[u8], pe_header: u32) -> (r: Option<Vec<u8>>)
    requires
        compacted(data@, pe_header) is Ok,
    ensures
        match r {
            Some(v) => compacted(data@, pe_header) == Ok::<Option<Seq<u8>>, UnpackError>(Some(v@)),
            None => compacted(data@, pe_header) == Ok::<Option<Seq<u8>>, UnpackError>(None),
        },
{
    match compact_checked(data, pe_header) {
        Ok(r) => r,
        Err(_) => None,
    }
}

proof fn placed_length(
    s: Seq<u8>,
    table: u32,
    i: int,
    n: int,
    cursor: int,
    found: Seq<Placed>,
)
    requires
        cursor % 0x200 == 0,
        0x400 <= cursor <= MAX_IMAGE_SIZE,
    ensures
        sections_placed(s, table, i, n, cursor, found) matches Ok(Some((list, end))) ==> end % 0x200
            == 0 && 0x400 <= end <= MAX_IMAGE_SIZE,
    decreases n - i,
{
    let p = table.wrapping_add((i * 40) as u32);
    if i < n && has4(s, p.wrapping_add(8)) && has4(s, p.wrapping_add(12)) {
        let size = w32(s, p.wrapping_add(8));
        let va = w32(s, p.wrapping_add(12));
        raw_len_bounds(s, va, size);
        let raw = raw_len(s, va, size);
        if !(raw != 0 && cursor + raw > MAX_IMAGE_SIZE) {
            let x = Placed {
                header: p,
                va,
                len: section_len(s, va, size) as u32,
                raw_at: if raw != 0 {
                    cursor as u32
                } else {
                    0
                },
                raw_size: raw as u32,
            };
            placed_length(s, table, i + 1, n, cursor + raw, found.push(x));
        }
    }
}

proof fn written_length(c: Seq<u8>, s: Seq<u8>, list: Seq<Placed>, i: int)
    ensures
        sections_written(c, s, list, i) matches Ok(v) ==> v.len() == c.len(),
    decreases list.len() - i,
{
    if i < list.len() {
        let x = list[i];
        let p = x.header.wrapping_add(16);
        let q = x.header.wrapping_add(20);
        let a = put32(put32(c, p as int, x.raw_size), q as int, x.raw_at);
        written_length(a, s, list, i + 1);
        match pasted(
            a,
            x.raw_at as int,
            s,
            x.va as int,
            least(x.raw_size as int, x.len as int),
        ) {
            Ok(b) => {
                written_length(b, s, list, i + 1);
            },
            Err(_) => {},
        }
    }
}

/// A compacted file is a whole number of alignment units long, at least the
/// headers, at most the largest image.
pub proof fn compacted_file_is_aligned(s: Seq<u8>, pe: u32)
    ensures
        compacted(s, pe) matches Ok(Some(v)) ==> v.len() % 0x200 == 0 && 0x400 <= v.len()
            <= MAX_IMAGE_SIZE,
{
    if has2(s, pe.wrapping_add(20)) && has2(s, pe.wrapping_add(6)) {
        let opt = pe.wrapping_add(24);
        let table = opt.wrapping_add(w16(s, pe.wrapping_add(20)) as u32);
        let n = w16(s, pe.wrapping_add(6)) as int;
        placed_length(s, table, 0, n, 0x400, Seq::empty());
        match sections_placed(s, table, 0, n, 0x400, Seq::empty()) {
            Ok(Some((list, end))) => {
                let a = overlay(
                    zeros(end as nat),
                    0,
                    s.subrange(0, least(0x400, s.len() as int)),
                );
                let b = put32(
                    put32(a, opt.wrapping_add(36) as int, 0x200),
                    opt.wrapping_add(60) as int,
                    0x400,
                );
                written_length(b, s, list, 0);
            },
            _ => {},
        }
    }
}

/// Section number `k` of the table at `table`, as [`sections_placed`] describes it,
/// but for its place in the file.
pub open spec fn describes(s: Seq<u8>, table: u32, k: int, x: Placed) -> bool {
    let size = w32(s, x.header.wrapping_add(8));
    &&& x.header == table + 40 * k
    &&& x.va == w32(s, x.header.wrapping_add(12))
    &&& x.len == section_len(s, x.va, size)
    &&& x.raw_size == raw_len(s, x.va, size)
}

/// Whether two sections share no byte of the file.
pub open spec fn apart(x: Placed, y: Placed) -> bool {
    x.raw_size == 0 || y.raw_size == 0 || x.raw_at + x.raw_size <= y.raw_at
}

/// Sections one behind the other between the headers and `end`.
pub open spec fn laid_out(s: Seq<u8>, table: u32, list: Seq<Placed>, end: int) -> bool {
    &&& forall|k: int| 0 <= k < list.len() ==> #[trigger] describes(s, table, k, list[k])
    &&& forall|k: int|
        0 <= k < list.len() && (#[trigger] list[k]).raw_size != 0 ==> 0x400 <= list[k].raw_at
            && list[k].raw_at + list[k].raw_size <= end
    &&& forall|j: int, k: int| 0 <= j < k < list.len() ==> #[trigger] apart(list[j], list[k])
}

proof fn placed_in_order(
    s: Seq<u8>,
    table: u32,
    i: int,
    n: int,
    cursor: int,
    found: Seq<Placed>,
)
    requires
        0 <= i <= n,
        table + 40 * n <= 0x400,
        found.len() == i,
        0x400 <= cursor <= MAX_IMAGE_SIZE,
        laid_out(s, table, found, cursor),
    ensures
        sections_placed(s, table, i, n, cursor, found) matches Ok(Some((list, end))) ==> list.len()
            == n && cursor <= end <= MAX_IMAGE_SIZE && laid_out(s, table, list, end),
    decreases n - i,
{
    let p = table.wrapping_add((i * 40) as u32);
    if i < n && has4(s, p.wrapping_add(8)) && has4(s, p.wrapping_add(12)) {
        let size = w32(s, p.wrapping_add(8));
        let va = w32(s, p.wrapping_add(12));
        raw_len_bounds(s, va, size);
        let raw = raw_len(s, va, size);
        if !(raw != 0 && cursor + raw > MAX_IMAGE_SIZE) {
            let x = Placed {
                header: p,
                va,
                len: section_len(s, va, size) as u32,
                raw_at: if raw != 0 {
                    cursor as u32
                } else {
                    0
                },
                raw_size: raw as u32,
            };
            let next = found.push(x);
            assert(describes(s, table, i, x));
            assert forall|k: int| 0 <= k < next.len() implies #[trigger] describes(
                s,
                table,
                k,
                next[k],
            ) by {
                if k < i {
                    assert(describes(s, table, k, found[k]));
                }
            }
            assert forall|j: int, k: int| 0 <= j < k < next.len() implies #[trigger] apart(
                next[j],
                next[k],
            ) by {
                if k < i {
                    assert(apart(found[j], found[k]));
                }
            }
            placed_in_order(s, table, i + 1, n, cursor + raw, next);
        }
    }
}

/// Whether writing the sections from number `i` on leaves position `b` alone.
pub open spec fn untouched(list: Seq<Placed>, i: int, b: int) -> bool {
    forall|k: int|
        i <= k < list.len() ==> {
            let x = #[trigger] list[k];
            &&& !(x.header + 16 <= b < x.header + 24)
            &&& !(x.raw_size != 0 && x.raw_at <= b < x.raw_at + x.raw_size)
        }
}

proof fn writing_leaves_the_rest(
    s: Seq<u8>,
    table: u32,
    c: Seq<u8>,
    list: Seq<Placed>,
    end: int,
    i: int,
    b: int,
)
    requires
        laid_out(s, table, list, end),
        table + 40 * list.len() <= 0x400,
        0 <= i,
        0 <= b < c.len(),
        untouched(list, i, b),
    ensures
        sections_written(c, s, list, i) matches Ok(v) ==> v.len() == c.len() && v[b] == c[b],
    decreases list.len() - i,
{
    if i < list.len() {
        let x = list[i];
        assert(describes(s, table, i, x));
        let p = x.header.wrapping_add(16);
        let q = x.header.wrapping_add(20);
        assert(p == x.header + 16 && q == x.header + 20);
        if has4(c, p) && has4(c, q) {
            let a = put32(put32(c, p as int, x.raw_size), q as int, x.raw_at);
            assert(a[b] == c[b]);
            if x.raw_size == 0 {
                writing_leaves_the_rest(s, table, a, list, end, i + 1, b);
            } else {
                let n = least(x.raw_size as int, x.len as int);
                match pasted(a, x.raw_at as int, s, x.va as int, n) {
                    Ok(d) => {
                        assert(d[b] == a[b]);
                        writing_leaves_the_rest(s, table, d, list, end, i + 1, b);
                    },
                    Err(_) => {},
                }
            }
        }
    }
}

/// Whether loading a section out of the file gives the image's bytes: those that
/// the file holds, and zero behind them.
pub open spec fn loads(v: Seq<u8>, s: Seq<u8>, x: Placed) -> bool {
    forall|k: int|
        0 <= k < x.len ==> #[trigger] s[x.va + k] == (if k < x.raw_size {
            v[x.raw_at + k]
        } else {
            0
        })
}

proof fn tail_is_zero(s: Seq<u8>, from: int, i: int, b: int)
    requires
        trimmed(s, from, i) <= b < i,
    ensures
        s[b] == 0,
    decreases i - from,
{
    if i > from && s[i - 1] == 0 && b < i - 1 {
        tail_is_zero(s, from, i - 1, b);
    }
}

proof fn sections_load(
    s: Seq<u8>,
    table: u32,
    c: Seq<u8>,
    list: Seq<Placed>,
    end: int,
    i: int,
)
    requires
        laid_out(s, table, list, end),
        table + 40 * list.len() <= 0x400,
        0x400 <= end == c.len(),
        0 <= i,
    ensures
        sections_written(c, s, list, i) matches Ok(v) ==> v.len() == c.len() && forall|k: int|
            i <= k < list.len() ==> {
                let x = #[trigger] list[k];
                &&& le32(v, x.header + 16) == x.raw_size
                &&& le32(v, x.header + 20) == x.raw_at
                &&& loads(v, s, x)
            },
    decreases list.len() - i,
{
    written_length(c, s, list, i);
    if i < list.len() && sections_written(c, s, list, i) is Ok {
        let v = sections_written(c, s, list, i)->Ok_0;
        let x = list[i];
        assert(describes(s, table, i, x));
        let size = w32(s, x.header.wrapping_add(8));
        raw_len_bounds(s, x.va, size);
        let p = x.header + 16;
        let q = x.header + 20;
        let a0 = put32(c, p, x.raw_size);
        let a = put32(a0, q, x.raw_at);
        write_then_read_32(c, p, x.raw_size);
        write_then_read_32(a0, q, x.raw_at);
        let n = least(x.raw_size as int, x.len as int);
        let d = if x.raw_size == 0 {
            a
        } else {
            overlay(a, x.raw_at as int, s.subrange(x.va as int, x.va + n))
        };
        assert(sections_written(d, s, list, i + 1) == Ok::<Seq<u8>, UnpackError>(v));
        assert forall|b: int| p <= b < p + 8 implies d[b] == a[b] && v[b] == d[b] by {
            assert forall|k: int| i + 1 <= k < list.len() implies {
                let y = #[trigger] list[k];
                &&& !(y.header + 16 <= b < y.header + 24)
                &&& !(y.raw_size != 0 && y.raw_at <= b < y.raw_at + y.raw_size)
            } by {
                assert(describes(s, table, k, list[k]));
            }
            writing_leaves_the_rest(s, table, d, list, end, i + 1, b);
        }
        assert forall|k: int| 0 <= k < x.len implies #[trigger] s[x.va + k] == (if k
            < x.raw_size {
            v[x.raw_at + k]
        } else {
            0
        }) by {
            if k < x.raw_size {
                let b = x.raw_at + k;
                assert forall|j: int| i + 1 <= j < list.len() implies {
                    let y = #[trigger] list[j];
                    &&& !(y.header + 16 <= b < y.header + 24)
                    &&& !(y.raw_size != 0 && y.raw_at <= b < y.raw_at + y.raw_size)
                } by {
                    assert(describes(s, table, j, list[j]));
                    assert(apart(list[i], list[j]));
                }
                writing_leaves_the_rest(s, table, d, list, end, i + 1, b);
                assert(d[b] == s[x.va + k]);
            } else {
                tail_is_zero(s, x.va as int, x.va + x.len, x.va + k);
            }
        }
        assert(loads(v, s, x));
        sections_load(s, table, d, list, end, i + 1);
    }
}

/// Section number `k` of the table at `table`: what the image says of its
/// addresses, and what the file says of its bytes.
pub open spec fn filed(v: Seq<u8>, s: Seq<u8>, table: int, k: int) -> Placed {
    let p = (table + 40 * k) as u32;
    let va = w32(s, p.wrapping_add(12));
    Placed {
        header: p,
        va,
        len: section_len(s, va, w32(s, p.wrapping_add(8))) as u32,
        raw_at: le32(v, p + 20),
        raw_size: le32(v, p + 16),
    }
}

/// Whether position `b` of the headers holds something else than an alignment, a
/// header size or a section's place in the file.
pub open spec fn is_plain(opt: int, table: int, n: int, b: int) -> bool {
    &&& !(opt + 36 <= b < opt + 40)
    &&& !(opt + 60 <= b < opt + 64)
    &&& !(table <= b < table + 40 * n && 16 <= (b - table) % 40 < 24)
}

/// Compaction loses nothing, where the section headers lie in the first 0x400 bytes:
/// each section loads from the file as it stands in the image, and the headers are
/// kept but for what places the sections in the file.
pub proof fn compaction_is_lossless(s: Seq<u8>, pe: u32)
    requires
        pe + 24 + w16(s, pe.wrapping_add(20)) + 40 * w16(s, pe.wrapping_add(6)) <= 0x400,
    ensures
        compacted(s, pe) matches Ok(Some(v)) ==> {
            let opt = pe + 24;
            let table = opt + w16(s, pe.wrapping_add(20));
            let n = w16(s, pe.wrapping_add(6)) as int;
            &&& forall|k: int| 0 <= k < n ==> loads(v, s, #[trigger] filed(v, s, table, k))
            &&& forall|b: int|
                0 <= b < least(0x400, s.len() as int) && is_plain(opt, table, n, b)
                    ==> #[trigger] v[b] == s[b]
        },
{
    if compacted(s, pe) is Ok && compacted(s, pe)->Ok_0 is Some {
        let v = compacted(s, pe)->Ok_0->Some_0;
        let opt = pe.wrapping_add(24);
        let table = opt.wrapping_add(w16(s, pe.wrapping_add(20)) as u32);
        let n = w16(s, pe.wrapping_add(6)) as int;
        assert(laid_out(s, table, Seq::empty(), 0x400));
        placed_in_order(s, table, 0, n, 0x400, Seq::empty());
        let (list, end) = sections_placed(s, table, 0, n, 0x400, Seq::empty())->Ok_0->Some_0;
        let a = overlay(zeros(end as nat), 0, s.subrange(0, least(0x400, s.len() as int)));
        let c = put32(put32(a, opt + 36, 0x200), opt + 60, 0x400);
        sections_load(s, table, c, list, end, 0);
        assert forall|k: int| 0 <= k < n implies loads(
            v,
            s,
            #[trigger] filed(v, s, table as int, k),
        ) by {
            assert(describes(s, table, k, list[k]));
            assert(filed(v, s, table as int, k) == list[k]);
        }
        assert forall|b: int|
            0 <= b < least(0x400, s.len() as int) && is_plain(
                opt as int,
                table as int,
                n,
                b,
            ) implies #[trigger] v[b] == s[b] by {
            assert(c[b] == s[b]);
            assert forall|k: int| 0 <= k < list.len() implies {
                let y = #[trigger] list[k];
                &&& !(y.header + 16 <= b < y.header + 24)
                &&& !(y.raw_size != 0 && y.raw_at <= b < y.raw_at + y.raw_size)
            } by {
                assert(describes(s, table, k, list[k]));
            }
            writing_leaves_the_rest(s, table, c, list, end, 0, b);
        }
    }
}

} // verus!
