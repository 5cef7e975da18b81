//! Expansion of the Huffman-coded LZ streams.
//!
//! A table is an array of three-byte entries. An entry is a 16-bit word and a
//! length byte. The word is either a symbol (bit 15 set, the code is `length`
//! bits long) or the index of a pair of entries, between which the next code
//! bit chooses. The low eight code bits choose one of the 256 root entries.
//!
//! A symbol is a literal byte, a part of a pending number, a run of the last
//! one, two or four output bytes, or a copy of earlier output.

use vstd::prelude::*;

use crate::bits::masks;
use crate::bytes::{
    fits, get_u16, get_u32, le16, le32, peek_u16, put16, put32, sub_vec, write_u16, write_u32,
};
use crate::error::{DecompressionFailure, MAX_IMAGE_SIZE};

verus! {

/// Where entry `idx` of the table at `base` starts.
pub open spec fn entry_at(base: u32, idx: u32) -> u32 {
    base.wrapping_add(idx.wrapping_mul(3))
}

/// The word of entry `idx`, if `width` bytes of the entry lie inside `t`.
pub open spec fn entry_word(t: Seq<u8>, base: u32, width: int, idx: u32) -> Option<u16> {
    if fits(t, entry_at(base, idx) as int, width) {
        Some(le16(t, entry_at(base, idx) as int))
    } else {
        None
    }
}

/// The length byte of entry `idx`, if it lies inside `t`.
pub open spec fn entry_len(t: Seq<u8>, base: u32, idx: u32) -> Option<u8> {
    if fits(t, entry_at(base, idx) + 2, 1) {
        Some(t[entry_at(base, idx) + 2])
    } else {
        None
    }
}

/// What the code bits in front select.
pub enum Symbol {
    /// A table entry outside the table's buffer.
    Outside,
    /// A table that no encoder writes.
    Bad(DecompressionFailure),
    /// A symbol and the length of its code.
    Code { tab: u16, bits: u8 },
}

/// The entry of the pair at `pair` that the code bit under `mask` chooses.
pub open spec fn branch(pair: u16, word: u32, mask: u32) -> u32 {
    (((pair & 0x7FFFu16) as u32) + (if word & mask != 0 {
        1int
    } else {
        0int
    })) as u32
}

/// The symbol under entry `idx`; at most 64 inner entries are passed.
pub open spec fn walk(
    t: Seq<u8>,
    base: u32,
    width: int,
    word: u32,
    idx: u32,
    mask: u32,
    bits: u8,
    depth: nat,
) -> Symbol
    decreases 64 - depth,
{
    match entry_word(t, base, width, idx) {
        None => Symbol::Outside,
        Some(e) => if e & 0x8000u16 != 0 {
            Symbol::Code { tab: e & 0x7FFFu16, bits }
        } else if depth >= 64 {
            Symbol::Bad(DecompressionFailure::HuffmanTraversalLimit)
        } else {
            walk(
                t,
                base,
                width,
                word,
                branch(e, word, mask << 1u32),
                mask << 1u32,
                bits.wrapping_add(1),
                depth + 1,
            )
        },
    }
}

/// The symbol that the code bits `word` select.
pub open spec fn symbol(t: Seq<u8>, base: u32, width: int, word: u32) -> Symbol {
    let root = word & 0xFFu32;
    match (entry_word(t, base, width, root), entry_len(t, base, root)) {
        (Some(e), Some(len)) => if e & 0x8000u16 != 0 {
            Symbol::Code { tab: e & 0x7FFFu16, bits: len }
        } else if len >= 32 {
            Symbol::Bad(DecompressionFailure::InvalidCodeLength { bits: len })
        } else {
            walk(
                t,
                base,
                width,
                word,
                branch(e, word, 1u32 << (len as u32)),
                1u32 << (len as u32),
                len.wrapping_add(1),
                0,
            )
        },
        _ => Symbol::Outside,
    }
}

/// `s` with `n` copies of the byte `v` from `o` on.
pub open spec fn fill8(s: Seq<u8>, o: int, v: u8, n: nat) -> Seq<u8>
    decreases n,
{
    if n == 0 {
        s
    } else {
        fill8(s, o, v, (n - 1) as nat).update(o + n - 1, v)
    }
}

/// `s` with `n` copies of the pair `v` from `o` on.
pub open spec fn fill16(s: Seq<u8>, o: int, v: u16, n: nat) -> Seq<u8>
    decreases n,
{
    if n == 0 {
        s
    } else {
        put16(fill16(s, o, v, (n - 1) as nat), o + 2 * (n - 1), v)
    }
}

/// `s` with `n` copies of the word `v` from `o` on.
pub open spec fn fill32(s: Seq<u8>, o: int, v: u32, n: nat) -> Seq<u8>
    decreases n,
{
    if n == 0 {
        s
    } else {
        put32(fill32(s, o, v, (n - 1) as nat), o + 4 * (n - 1), v)
    }
}

/// `s` with `n` bytes from `o` on, each copied from `back` bytes before it
/// after the ones in front of it were.
pub open spec fn repeat_back(s: Seq<u8>, o: int, back: int, n: nat) -> Seq<u8>
    decreases n,
{
    if n == 0 {
        s
    } else {
        let t = repeat_back(s, o, back, (n - 1) as nat);
        t.update(o + n - 1, t[o + n - 1 - back])
    }
}

/// A stream half expanded.
#[verifier::ext_equal]
pub struct Cursor {
    /// The buffer.
    pub data: Seq<u8>,
    /// Where the next byte goes.
    pub dest: u32,
    /// The number of source bits read.
    pub bits: nat,
    /// The number that earlier symbols spelled for the next run or copy.
    pub pending: u32,
    /// The number of bytes put out.
    pub written: u32,
}

/// What a symbol does to the buffer.
pub enum Applied {
    Outside,
    Bad(DecompressionFailure),
    Wrote { data: Seq<u8>, step: u32, pending: u32 },
}

/// Whether `n` bytes can be put out at `dest`.
pub open spec fn room(s: Seq<u8>, dest: u32, n: int) -> bool {
    dest + n <= s.len() && dest + n <= u32::MAX
}

/// A run of `count` units of `width` bytes, each a copy of the unit in front.
pub open spec fn run_fill(s: Seq<u8>, dest: u32, width: u32, count: u32) -> Applied {
    let step = count.wrapping_mul(width);
    if width != 1 && width != 2 && width != 4 {
        Applied::Bad(DecompressionFailure::InvalidRunFillWidth { width })
    } else if dest < width {
        Applied::Bad(DecompressionFailure::RunFillBeforeOutput { width, destination: dest })
    } else if !room(s, dest, count * width) {
        Applied::Outside
    } else if width == 1 {
        Applied::Wrote { data: fill8(s, dest as int, s[dest - 1], count as nat), step, pending: 0 }
    } else if width == 2 {
        Applied::Wrote {
            data: fill16(s, dest as int, le16(s, dest - 2), count as nat),
            step,
            pending: 0,
        }
    } else {
        Applied::Wrote {
            data: fill32(s, dest as int, le32(s, dest - 4), count as nat),
            step,
            pending: 0,
        }
    }
}

/// What the symbol `tab` does.
pub open spec fn apply(c: Cursor, tab: u16, d_size: u32) -> Applied {
    let mode = (tab as u32) & 0x300u32;
    let payload = (tab as u32) & 0xFFu32;
    if mode == 0 {
        if room(c.data, c.dest, 1) {
            Applied::Wrote {
                data: c.data.update(c.dest as int, payload as u8),
                step: 1,
                pending: c.pending,
            }
        } else {
            Applied::Outside
        }
    } else if mode == 0x100 {
        if c.pending >= 256 {
            Applied::Bad(DecompressionFailure::PendingLengthOverflow { pending: c.pending })
        } else {
            Applied::Wrote {
                data: c.data,
                step: 0,
                pending: if c.pending == 0 {
                    payload
                } else {
                    (c.pending << 8u32) | payload
                },
            }
        }
    } else if mode == 0x200 {
        let count = if c.pending == 0 {
            1u32
        } else {
            c.pending
        };
        let step = count.wrapping_mul(payload);
        if step.wrapping_add(c.written) > d_size {
            Applied::Bad(
                DecompressionFailure::OutputOverflow { written: c.written, step, expected: d_size },
            )
        } else {
            run_fill(c.data, c.dest, payload, count)
        }
    } else {
        let back = c.pending.wrapping_add(payload);
        if back > c.written {
            Applied::Bad(
                DecompressionFailure::InvalidBackReference { distance: back, written: c.written },
            )
        } else if c.written.wrapping_add(payload) > d_size {
            Applied::Bad(
                DecompressionFailure::OutputOverflow {
                    written: c.written,
                    step: payload,
                    expected: d_size,
                },
            )
        } else if !room(c.data, c.dest, payload as int) || (payload > 0 && back > c.dest) {
            Applied::Outside
        } else {
            Applied::Wrote {
                data: repeat_back(c.data, c.dest as int, back as int, payload as nat),
                step: payload,
                pending: 0,
            }
        }
    }
}

/// How an expansion ends.
#[verifier::ext_equal]
pub enum Outcome {
    /// A source byte, an output byte or an entry of a table in the buffer would
    /// lie outside the buffer.
    Outside,
    /// The buffer as it was left, and the verdict.
    Ended { data: Seq<u8>, result: Result<(), DecompressionFailure> },
}

/// The cursor behind a symbol of `bits` bits.
pub open spec fn advanced(
    c: Cursor,
    bits: u8,
    data: Seq<u8>,
    step: u32,
    pending: u32,
) -> Cursor {
    Cursor {
        data,
        dest: c.dest.wrapping_add(step),
        bits: c.bits + bits as nat,
        pending,
        written: c.written.wrapping_add(step),
    }
}

/// The code bits in front of a cursor.
pub open spec fn front(src: Seq<u8>, bits: nat) -> u32 {
    le32(src, (bits / 8) as int) >> ((bits % 8) as u32)
}

/// The symbol in front of a cursor: from the table of its own `tab` where there
/// is one, else from the table at `base` of the buffer itself.
pub open spec fn next_symbol(tab: Option<Seq<u8>>, base: u32, src: Seq<u8>, c: Cursor) -> Symbol {
    match tab {
        Some(t) => symbol(t, 0, 3, front(src, c.bits)),
        None => symbol(c.data, base, 2, front(src, c.bits)),
    }
}

/// The source bits not read and the bytes not put out.
pub open spec fn work_left(c: Cursor, s_size: u32, d_size: u32) -> nat {
    ((if c.bits < 8 * s_size {
        8 * s_size - c.bits
    } else {
        0
    }) + (if c.written < d_size {
        d_size - c.written
    } else {
        0
    })) as nat
}

/// Expansion from cursor `c` on. `src` is the source, followed by three zero
/// bytes.
pub open spec fn expand(
    tab: Option<Seq<u8>>,
    base: u32,
    src: Seq<u8>,
    s_size: u32,
    d_size: u32,
    c: Cursor,
) -> Outcome
    decreases work_left(c, s_size, d_size),
    when c.written <= c.dest
{
    if !(c.bits / 8 < s_size && c.written < d_size) {
        Outcome::Ended {
            data: c.data,
            result: if c.written != d_size {
                Err(
                    DecompressionFailure::OutputSizeMismatch {
                        written: c.written,
                        expected: d_size,
                        consumed: ((c.bits + 7) / 8) as u32,
                        source_size: s_size,
                    },
                )
            } else {
                Ok(())
            },
        }
    } else {
        match next_symbol(tab, base, src, c) {
            Symbol::Outside => match tab {
                Some(_) => Outcome::Ended {
                    data: c.data,
                    result: Err(DecompressionFailure::TableTruncated),
                },
                None => Outcome::Outside,
            },
            Symbol::Bad(f) => Outcome::Ended { data: c.data, result: Err(f) },
            Symbol::Code { tab: t, bits } => match apply(c, t, d_size) {
                Applied::Outside => Outcome::Outside,
                Applied::Bad(f) => Outcome::Ended { data: c.data, result: Err(f) },
                Applied::Wrote { data, step, pending } => if bits == 0 && step == 0 {
                    Outcome::Ended { data, result: Err(DecompressionFailure::NoProgress) }
                } else {
                    proof {
                        applied_bounds(c, t, d_size);
                    }
                    expand(tab, base, src, s_size, d_size, advanced(c, bits, data, step, pending))
                },
            },
        }
    }
}

/// What a symbol puts out stays inside the buffer, below 2^32 and below the
/// output size.
pub proof fn applied_bounds(c: Cursor, tab: u16, d_size: u32)
    requires
        c.written <= c.dest,
        c.written < d_size,
    ensures
        match apply(c, tab, d_size) {
            Applied::Wrote { data, step, pending } => {
                &&& c.dest + step <= u32::MAX
                &&& c.written + step <= d_size
                &&& step > 0 ==> c.dest + step <= c.data.len()
            },
            _ => true,
        },
{
    let payload = (tab as u32) & 0xFFu32;
    masks(tab as u32, 0);
    let count = if c.pending == 0 {
        1u32
    } else {
        c.pending
    };
    let step = count.wrapping_mul(payload);
    match apply(c, tab, d_size) {
        Applied::Wrote { data, step: st, pending } => {
            if (tab as u32) & 0x300u32 == 0x200 && (payload == 1 || payload == 2 || payload == 4) {
                assert(count * payload <= u32::MAX);
                assert(step == count * payload);
            }
        },
        _ => {},
    }
}

/// Expansion of the `s_size` bytes at `src` to the `d_size` bytes at `dest`.
pub open spec fn expanded(
    tab: Option<Seq<u8>>,
    s: Seq<u8>,
    src: u32,
    dest: u32,
    base: u32,
    s_size: u32,
    d_size: u32,
) -> Outcome {
    if s_size as u64 > MAX_IMAGE_SIZE {
        Outcome::Ended {
            data: s,
            result: Err(
                DecompressionFailure::SourceTooLarge { size: s_size, max: MAX_IMAGE_SIZE },
            ),
        }
    } else if !fits(s, src as int, s_size as int) {
        Outcome::Outside
    } else {
        expand(
            tab,
            base,
            source(s, src, s_size),
            s_size,
            d_size,
            Cursor { data: s, dest, bits: 0, pending: 0, written: 0 },
        )
    }
}

/// The source bytes, followed by three zero bytes.
pub open spec fn source(s: Seq<u8>, src: u32, s_size: u32) -> Seq<u8> {
    s.subrange(src as int, src + s_size) + seq![0u8, 0u8, 0u8]
}

/// Executable form of [`Symbol`].
enum Decoded {
    Outside,
    Bad(DecompressionFailure),
    Code { tab: u16, bits: u8 },
}

spec fn decoded_view(d: Decoded) -> Symbol {
    match d {
        Decoded::Outside => Symbol::Outside,
        Decoded::Bad(f) => Symbol::Bad(f),
        Decoded::Code { tab, bits } => Symbol::Code { tab, bits },
    }
}

fn read_entry(t: &[u8], base: u32, width: usize, idx: u32) -> (r: Option<u16>)
    requires
        width == 2 || width == 3,
    ensures
        r == entry_word(t@, base, width as int, idx),
{
    let a: usize = base.wrapping_add(idx.wrapping_mul(3)) as usize;
    if t.len() < width || a > t.len() - width {
        None
    } else {
        peek_u16(t, a)
    }
}

fn read_len(t: &[u8], base: u32, idx: u32) -> (r: Option<u8>)
    ensures
        r == entry_len(t@, base, idx),
{
    let a: usize = base.wrapping_add(idx.wrapping_mul(3)) as usize;
    if t.len() < 3 || a > t.len() - 3 {
        None
    } else {
        Some(t[a + 2])
    }
}

fn choose_branch(pair: u16, word: u32, mask: u32) -> (r: u32)
    ensures
        r == branch(pair, word, mask),
{
    let low: u16 = pair & 0x7FFFu16;
    proof {
        masks(0, pair);
    }
    (low as u32) + if word & mask != 0 {
        1u32
    } else {
        0u32
    }
}

fn decode(t: &[u8], base: u32, width: usize, word: u32) -> (r: Decoded)
    requires
        width == 2 || width == 3,
    ensures
        decoded_view(r) == symbol(t@, base, width as int, word),
{
    let root: u32 = word & 0xFFu32;
    let (e, len): (u16, u8) = match (read_entry(t, base, width, root), read_len(t, base, root)) {
        (Some(e), Some(len)) => (e, len),
        _ => return Decoded::Outside,
    };
    if e & 0x8000u16 != 0 {
        return Decoded::Code { tab: e & 0x7FFFu16, bits: len };
    }
    if len >= 32 {
        return Decoded::Bad(DecompressionFailure::InvalidCodeLength { bits: len });
    }
    let mut mask: u32 = 1u32 << (len as u32);
    let mut bits: u8 = len.wrapping_add(1);
    let mut idx: u32 = choose_branch(e, word, mask);
    let mut depth: u32 = 0;
    loop
        invariant
            width == 2 || width == 3,
            depth <= 64,
            symbol(t@, base, width as int, word) == walk(
                t@,
                base,
                width as int,
                word,
                idx,
                mask,
                bits,
                depth as nat,
            ),
        decreases 65 - depth,
    {
        let e2: u16 = match read_entry(t, base, width, idx) {
            Some(x) => x,
            None => return Decoded::Outside,
        };
        if e2 & 0x8000u16 != 0 {
            return Decoded::Code { tab: e2 & 0x7FFFu16, bits };
        }
        if depth >= 64 {
            return Decoded::Bad(DecompressionFailure::HuffmanTraversalLimit);
        }
        mask = mask << 1u32;
        bits = bits.wrapping_add(1);
        idx = choose_branch(e2, word, mask);
        depth = depth + 1;
    }
}

/// Executable form of [`Applied`], without the buffer.
enum Done {
    Outside,
    Bad(DecompressionFailure),
    Wrote { step: u32, pending: u32 },
}

spec fn done_view(d: Done, data: Seq<u8>) -> Applied {
    match d {
        Done::Outside => Applied::Outside,
        Done::Bad(f) => Applied::Bad(f),
        Done::Wrote { step, pending } => Applied::Wrote { data, step, pending },
    }
}

fn has_room(d: &[u8], dest: u32, n: u64) -> (r: bool)
    requires
        n <= u32::MAX,
    ensures
        r == room(d@, dest, n as int),
{
    let end: u64 = dest as u64 + n;
    end <= d.len() as u64 && end <= 0xFFFF_FFFFu64
}

fn run_out(d: &mut [u8], dest: u32, width: u32, count: u32) -> (r: Done)
    requires
        count < 0x1_0000,
        width <= 255,
    ensures
        done_view(r, final(d)@) == run_fill(old(d)@, dest, width, count),
        final(d)@.len() == old(d)@.len(),
        r is Bad ==> final(d)@ == old(d)@,
{
    if width != 1 && width != 2 && width != 4 {
        return Done::Bad(DecompressionFailure::InvalidRunFillWidth { width });
    }
    if dest < width {
        return Done::Bad(DecompressionFailure::RunFillBeforeOutput { width, destination: dest });
    }
    assert(count * width <= 0x1_0000 * 4) by (nonlinear_arith)
        requires
            count < 0x1_0000,
            width <= 4,
    ;
    let total: u64 = count as u64 * width as u64;
    if !has_room(d, dest, total) {
        return Done::Outside;
    }
    let step: u32 = count.wrapping_mul(width);
    let len: usize = d.len();
    let mut k: u32 = 0;
    if width == 1 {
        let v: u8 = d[dest as usize - 1];
        while k < count
            invariant
                k <= count,
                dest + count <= len,
                d@.len() == len,
                dest + count <= u32::MAX,
                d@ == fill8(old(d)@, dest as int, v, k as nat),
            decreases count - k,
        {
            d[(dest + k) as usize] = v;
            k = k + 1;
        }
    } else if width == 2 {
        let v: u16 = get_u16(d, dest - 2);
        while k < count
            invariant
                k <= count,
                count < 0x1_0000,
                dest + 2 * count <= len,
                d@.len() == len,
                dest + 2 * count <= u32::MAX,
                d@ == fill16(old(d)@, dest as int, v, k as nat),
            decreases count - k,
        {
            write_u16(d, dest + k * 2, v as u32);
            assert((v as u32) as u16 == v);
            k = k + 1;
        }
    } else {
        let v: u32 = get_u32(d, dest - 4);
        while k < count
            invariant
                k <= count,
                count < 0x1_0000,
                dest + 4 * count <= len,
                d@.len() == len,
                dest + 4 * count <= u32::MAX,
                d@ == fill32(old(d)@, dest as int, v, k as nat),
            decreases count - k,
        {
            write_u32(d, dest + k * 4, v);
            k = k + 1;
        }
    }
    Done::Wrote { step, pending: 0 }
}

fn copy_out(d: &mut [u8], dest: u32, back: u32, n: u32)
    requires
        room(old(d)@, dest, n as int),
        n > 0 ==> back <= dest,
    ensures
        final(d)@ == repeat_back(old(d)@, dest as int, back as int, n as nat),
        final(d)@.len() == old(d)@.len(),
{
    let len: usize = d.len();
    let mut k: u32 = 0;
    while k < n
        invariant
            k <= n,
            dest + n <= len,
            dest + n <= u32::MAX,
            n > 0 ==> back <= dest,
            d@.len() == len,
            d@ == repeat_back(old(d)@, dest as int, back as int, k as nat),
        decreases n - k,
    {
        let b: u8 = d[(dest + k - back) as usize];
        d[(dest + k) as usize] = b;
        k = k + 1;
    }
}

fn put_out(
    d: &mut [u8],
    dest: u32,
    pending: u32,
    written: u32,
    tab: u16,
    d_size: u32,
    Ghost(bits): Ghost<nat>,
) -> (r: Done)
    requires
        pending < 0x1_0000,
    ensures
        done_view(r, final(d)@) == apply(
            Cursor { data: old(d)@, dest, bits, pending, written },
            tab,
            d_size,
        ),
        final(d)@.len() == old(d)@.len(),
        r is Bad ==> final(d)@ == old(d)@,
        r matches Done::Wrote { step, pending: p } ==> p < 0x1_0000,
{
    let mode: u32 = (tab as u32) & 0x300u32;
    let payload: u32 = (tab as u32) & 0xFFu32;
    proof {
        masks(tab as u32, 0);
    }
    if mode == 0 {
        if !has_room(d, dest, 1) {
            return Done::Outside;
        }
        d[dest as usize] = payload as u8;
        Done::Wrote { step: 1, pending }
    } else if mode == 0x100 {
        if pending >= 256 {
            return Done::Bad(DecompressionFailure::PendingLengthOverflow { pending });
        }
        let joined: u32 = (pending << 8u32) | payload;
        assert(joined < 0x1_0000) by (bit_vector)
            requires
                joined == (pending << 8u32) | payload,
                pending < 256,
                payload <= 255,
        ;
        Done::Wrote {
            step: 0,
            pending: if pending == 0 {
                payload
            } else {
                joined
            },
        }
    } else if mode == 0x200 {
        let count: u32 = if pending == 0 {
            1
        } else {
            pending
        };
        let step: u32 = count.wrapping_mul(payload);
        if step.wrapping_add(written) > d_size {
            return Done::Bad(
                DecompressionFailure::OutputOverflow { written, step, expected: d_size },
            );
        }
        run_out(d, dest, payload, count)
    } else {
        let back: u32 = pending.wrapping_add(payload);
        if back > written {
            return Done::Bad(
                DecompressionFailure::InvalidBackReference { distance: back, written },
            );
        }
        if written.wrapping_add(payload) > d_size {
            return Done::Bad(
                DecompressionFailure::OutputOverflow { written, step: payload, expected: d_size },
            );
        }
        if !has_room(d, dest, payload as u64) || (payload > 0 && back > dest) {
            return Done::Outside;
        }
        copy_out(d, dest, back, payload);
        Done::Wrote { step: payload, pending: 0 }
    }
}

/// The view of an optional table.
pub open spec fn table_view(tab: Option<&[u8]>) -> Option<Seq<u8>> {
    match tab {
        Some(t) => Some(t@),
        None => None,
    }
}

/// How an executed expansion ended.
pub enum Expansion {
    /// A byte outside the buffer was asked for.
    Outside,
    Ended(Result<(), DecompressionFailure>),
}

/// What the outcome `o` says of the result `r` and of the buffer.
pub open spec fn tells(o: Outcome, r: Expansion, data: Seq<u8>) -> bool {
    match o {
        Outcome::Outside => r == Expansion::Outside,
        Outcome::Ended { data: e, result } => r == Expansion::Ended(result) && data == e,
    }
}

/// Expand the `s_size` bytes at `src` to the `d_size` bytes at `dest`, with the
/// table `tab`, or else the table at `base` of the buffer. Where a byte outside
/// a buffer is asked for, the buffer's contents are left unspecified.
pub fn expand_checked(
    tab: Option<&[u8]>,
    d: &mut [u8],
    src: u32,
    dest: u32,
    base: u32,
    s_size: u32,
    d_size: u32,
) -> (r: Expansion)
    ensures
        tells(expanded(table_view(tab), old(d)@, src, dest, base, s_size, d_size), r, final(d)@),
        final(d)@.len() == old(d)@.len(),
{
    if s_size as u64 > MAX_IMAGE_SIZE {
        return Expansion::Ended(
            Err(DecompressionFailure::SourceTooLarge { size: s_size, max: MAX_IMAGE_SIZE }),
        );
    }
    let from: usize = src as usize;
    if from > d.len() || s_size as usize > d.len() - from {
        return Expansion::Outside;
    }
    let mut buf: Vec<u8> = sub_vec(d, from, from + s_size as usize);
    buf.push(0);
    buf.push(0);
    buf.push(0);
    let ghost whole = source(old(d)@, src, s_size);
    assert(buf@ =~= whole);
    let ghost tabv = table_view(tab);
    let mut out: u32 = dest;
    let mut consumed: u32 = 0;
    let mut bit_pos: u32 = 0;
    let mut pending: u32 = 0;
    let mut written: u32 = 0;
    while consumed < s_size && written < d_size
        invariant
            s_size as u64 <= MAX_IMAGE_SIZE,
            tabv == table_view(tab),
            buf@ == whole,
            whole.len() == s_size + 3,
            bit_pos < 8,
            consumed <= s_size + 64,
            pending < 0x1_0000,
            written <= out,
            written <= d_size,
            d@.len() == old(d)@.len(),
            expanded(tabv, old(d)@, src, dest, base, s_size, d_size) == expand(
                tabv,
                base,
                whole,
                s_size,
                d_size,
                Cursor {
                    data: d@,
                    dest: out,
                    bits: (8 * consumed + bit_pos) as nat,
                    pending,
                    written,
                },
            ),
        decreases 8 * s_size + 512 - (8 * consumed + bit_pos) + d_size - written,
    {
        let ghost bits_read = (8 * consumed + bit_pos) as nat;
        let ghost c = Cursor { data: d@, dest: out, bits: bits_read, pending, written };
        assert(bits_read / 8 == consumed && bits_read % 8 == bit_pos);
        let word: u32 = get_u32(&buf, consumed) >> bit_pos;
        let code: Decoded = match tab {
            Some(t) => decode(t, 0, 3, word),
            None => decode(d, base, 2, word),
        };
        assert(decoded_view(code) == next_symbol(tabv, base, whole, c));
        match code {
            Decoded::Outside => {
                return match tab {
                    Some(_) => Expansion::Ended(Err(DecompressionFailure::TableTruncated)),
                    None => Expansion::Outside,
                };
            },
            Decoded::Bad(f) => {
                return Expansion::Ended(Err(f));
            },
            Decoded::Code { tab: sym, bits } => {
                let done: Done = put_out(d, out, pending, written, sym, d_size, Ghost(bits_read));
                match done {
                    Done::Outside => {
                        return Expansion::Outside;
                    },
                    Done::Bad(f) => {
                        return Expansion::Ended(Err(f));
                    },
                    Done::Wrote { step, pending: next_pending } => {
                        if bits == 0 && step == 0 {
                            return Expansion::Ended(Err(DecompressionFailure::NoProgress));
                        }
                        proof {
                            applied_bounds(c, sym, d_size);
                        }
                        let total: u32 = bit_pos + bits as u32;
                        assert(8 * (consumed + total / 8) + total % 8 == bits_read + bits);
                        consumed = consumed + total / 8;
                        bit_pos = total % 8;
                        out = out + step;
                        written = written + step;
                        pending = next_pending;
                        assert(Cursor {
                            data: d@,
                            dest: out,
                            bits: (8 * consumed + bit_pos) as nat,
                            pending,
                            written,
                        } == advanced(c, bits, d@, step, next_pending));
                    },
                }
            },
        }
    }
    if written != d_size {
        let tail: u32 = if bit_pos != 0 {
            1
        } else {
            0
        };
        assert((8 * consumed + bit_pos + 7) / 8 == consumed + tail);
        return Expansion::Ended(
            Err(
                DecompressionFailure::OutputSizeMismatch {
                    written,
                    expected: d_size,
                    consumed: consumed + tail,
                    source_size: s_size,
                },
            ),
        );
    }
    Expansion::Ended(Ok(()))
}

/// Expand the `s_size` bytes at `src` to exactly `d_size` bytes at `dest`, with
/// the table at `key_offset`; everything lies in the one buffer.
pub fn decompress_detailed(
    d: &mut [u8],
    src: u32,
    dest: u32,
    key_offset: u32,
    s_size: u32,
    d_size: u32,
) -> (r: Result<(), DecompressionFailure>)
    requires
        expanded(None, old(d)@, src, dest, key_offset, s_size, d_size) is Ended,
    ensures
        expanded(None, old(d)@, src, dest, key_offset, s_size, d_size) == (Outcome::Ended {
            data: final(d)@,
            result: r,
        }),
        final(d)@.len() == old(d)@.len(),
{
    match expand_checked(None, d, src, dest, key_offset, s_size, d_size) {
        Expansion::Ended(r) => r,
        Expansion::Outside => Ok(()),
    }
}

/// Whether [`decompress_detailed`] succeeds.
pub fn decompress(
    d: &mut [u8],
    src: u32,
    dest: u32,
    key_offset: u32,
    s_size: u32,
    d_size: u32,
) -> (r: bool)
    requires
        expanded(None, old(d)@, src, dest, key_offset, s_size, d_size) is Ended,
    ensures
        ({
            let o = expanded(None, old(d)@, src, dest, key_offset, s_size, d_size);
            r == (o->result is Ok) && final(d)@ == o->data
        }),
        final(d)@.len() == old(d)@.len(),
{
    decompress_detailed(d, src, dest, key_offset, s_size, d_size).is_ok()
}

/// [`decompress`] with a table of its own.
pub fn decompress_tbl(
    tab: &[u8],
    d: &mut [u8],
    src: u32,
    dest: u32,
    s_size: u32,
    d_size: u32,
) -> (r: bool)
    requires
        expanded(Some(tab@), old(d)@, src, dest, 0, s_size, d_size) is Ended,
    ensures
        ({
            let o = expanded(Some(tab@), old(d)@, src, dest, 0, s_size, d_size);
            r == (o->result is Ok) && final(d)@ == o->data
        }),
        final(d)@.len() == old(d)@.len(),
{
    match expand_checked(Some(tab), d, src, dest, 0, s_size, d_size) {
        Expansion::Ended(r) => r.is_ok(),
        Expansion::Outside => false,
    }
}

/// Whether entry `a` of the table at `ko` lies inside `s`.
pub open spec fn entry_inside(s: Seq<u8>, ko: u32, a: u32) -> bool {
    fits(s, ko + 3 * a, 3)
}

/// The pair that entry `a` points at, if it is an inner entry.
pub open spec fn pair_of(s: Seq<u8>, ko: u32, a: u32) -> Option<u32> {
    if entry_inside(s, ko, a) && le16(s, ko + 3 * a) & 0x8000u16 == 0 {
        Some((le16(s, ko + 3 * a) & 0x7FFFu16) as u32)
    } else {
        None
    }
}

/// Whether one code bit leads from entry `a` to entry `b`.
pub open spec fn leads(s: Seq<u8>, ko: u32, a: u32, b: u32) -> bool {
    match pair_of(s, ko, a) {
        Some(c) => b == c || b == c + 1,
        None => false,
    }
}

/// Whether `p` is a way from a root entry down the table.
pub open spec fn is_way(s: Seq<u8>, ko: u32, p: Seq<u32>) -> bool {
    &&& p.len() > 0
    &&& p[0] < 256
    &&& forall|i: int| 0 <= i < p.len() - 1 ==> leads(s, ko, #[trigger] p[i], p[i + 1])
}

/// Whether some code reaches entry `a`.
pub open spec fn reachable(s: Seq<u8>, ko: u32, a: u32) -> bool {
    exists|p: Seq<u32>| #[trigger] is_way(s, ko, p) && p.last() == a
}

/// Whether `m` is the last entry that some code reaches.
pub open spec fn is_top(s: Seq<u8>, ko: u32, m: u32) -> bool {
    reachable(s, ko, m) && forall|a: u32| #[trigger] reachable(s, ko, a) ==> a <= m
}

/// The table at `ko` of `s`, up to the last entry that some code reaches: `None`
/// where a code leads outside `s`.
pub open spec fn table_of(s: Seq<u8>, ko: u32) -> Option<Seq<u8>> {
    if forall|a: u32| #[trigger] reachable(s, ko, a) ==> entry_inside(s, ko, a) {
        let m = choose|m: u32| #[trigger] is_top(s, ko, m);
        Some(s.subrange(ko as int, ko + 3 * (m + 1)))
    } else {
        None
    }
}

proof fn table_of_top(s: Seq<u8>, ko: u32, m: u32)
    requires
        is_top(s, ko, m),
        forall|a: u32| #[trigger] reachable(s, ko, a) ==> entry_inside(s, ko, a),
    ensures
        table_of(s, ko) == Some(s.subrange(ko as int, ko + 3 * (m + 1))),
{
    let c = choose|c: u32| #[trigger] is_top(s, ko, c);
    assert(is_top(s, ko, c));
    assert(c <= m && m <= c);
}

/// Reaching further from the roots ends: there is a last entry, wherever all
/// that is reached lies inside `s`.
proof fn top_exists(s: Seq<u8>, ko: u32, bound: nat) -> (m: u32)
    requires
        forall|a: u32| #[trigger] reachable(s, ko, a) ==> a <= bound,
        bound <= u32::MAX,
    ensures
        is_top(s, ko, m),
    decreases bound,
{
    root_reachable(s, ko, 0);
    if reachable(s, ko, bound as u32) {
        bound as u32
    } else {
        assert(bound > 0);
        assert forall|a: u32| #[trigger] reachable(s, ko, a) implies a <= bound - 1 by {
            assert(a != bound);
        }
        top_exists(s, ko, (bound - 1) as nat)
    }
}

proof fn root_reachable(s: Seq<u8>, ko: u32, a: u32)
    requires
        a < 256,
    ensures
        reachable(s, ko, a),
{
    let p = seq![a];
    assert(is_way(s, ko, p) && p.last() == a);
}

proof fn next_reachable(s: Seq<u8>, ko: u32, a: u32, b: u32)
    requires
        reachable(s, ko, a),
        leads(s, ko, a, b),
    ensures
        reachable(s, ko, b),
{
    let p = choose|p: Seq<u32>| #[trigger] is_way(s, ko, p) && p.last() == a;
    let q = p.push(b);
    assert forall|i: int| 0 <= i < q.len() - 1 implies leads(s, ko, #[trigger] q[i], q[i + 1]) by {
        if i < p.len() - 1 {
            assert(leads(s, ko, p[i], p[i + 1]));
        }
    }
    assert(is_way(s, ko, q) && q.last() == b);
}

/// A set with the roots that is closed under `leads` holds what is reachable.
proof fn closed_holds_reachable(s: Seq<u8>, ko: u32, seen: Seq<bool>, a: u32)
    requires
        seen.len() == 0x1_0000,
        forall|r: u32| r < 256 ==> seen[r as int],
        forall|x: u32, y: u32|
            x < 0x1_0000 && seen[x as int] && #[trigger] leads(s, ko, x, y) ==> y < 0x1_0000
                && seen[y as int],
        reachable(s, ko, a),
    ensures
        a < 0x1_0000,
        seen[a as int],
{
    let p = choose|p: Seq<u32>| #[trigger] is_way(s, ko, p) && p.last() == a;
    closed_holds_way(s, ko, seen, p, p.len() - 1);
}

proof fn closed_holds_way(s: Seq<u8>, ko: u32, seen: Seq<bool>, p: Seq<u32>, i: int)
    requires
        seen.len() == 0x1_0000,
        forall|r: u32| r < 256 ==> seen[r as int],
        forall|x: u32, y: u32|
            x < 0x1_0000 && seen[x as int] && #[trigger] leads(s, ko, x, y) ==> y < 0x1_0000
                && seen[y as int],
        is_way(s, ko, p),
        0 <= i < p.len(),
    ensures
        p[i] < 0x1_0000,
        seen[p[i] as int],
    decreases i,
{
    if i > 0 {
        closed_holds_way(s, ko, seen, p, i - 1);
        assert(leads(s, ko, p[i - 1], p[i - 1 + 1]));
    }
}

/// The number of entries not seen.
spec fn unseen(seen: Seq<bool>) -> nat
    decreases seen.len(),
{
    if seen.len() == 0 {
        0
    } else {
        unseen(seen.drop_last()) + (if seen.last() {
            0nat
        } else {
            1nat
        })
    }
}

proof fn unseen_update(seen: Seq<bool>, i: int)
    requires
        0 <= i < seen.len(),
        !seen[i],
    ensures
        unseen(seen.update(i, true)) + 1 == unseen(seen),
    decreases seen.len(),
{
    let t = seen.update(i, true);
    if i == seen.len() - 1 {
        assert(t.drop_last() =~= seen.drop_last());
    } else {
        unseen_update(seen.drop_last(), i);
        assert(t.drop_last() =~= seen.drop_last().update(i, true));
    }
}

/// Cut the table at `key_offset` out of `d`, up to the last entry that some code
/// reaches: `None` where a code leads outside `d`.
pub fn huffman_table_snapshot(d: &[u8], key_offset: u32) -> (r: Option<Vec<u8>>)
    ensures
        match r {
            Some(v) => table_of(d@, key_offset) == Some(v@),
            None => table_of(d@, key_offset) is None,
        },
{
    let ghost s = d@;
    let len: usize = d.len();
    let ko: usize = key_offset as usize;
    let mut seen: Vec<bool> = vec![false; 0x1_0000];
    let mut stack: Vec<u32> = Vec::new();
    let mut r: u32 = 0;
    while r < 256
        invariant
            r <= 256,
            stack@.len() == r,
            forall|i: int| 0 <= i < r ==> stack@[i] == i,
        decreases 256 - r,
    {
        stack.push(r);
        r = r + 1;
    }
    let mut top: u32 = 255;
    proof {
        root_reachable(s, key_offset, 255);
        assert forall|i: int| 0 <= i < stack@.len() implies reachable(
            s,
            key_offset,
            #[trigger] stack@[i],
        ) by {
            root_reachable(s, key_offset, stack@[i]);
        }
        assert forall|a: u32| a < 256 implies stack@.contains(a) by {
            assert(stack@[a as int] == a);
        }
    }
    while stack.len() > 0
        invariant
            s == d@,
            len == d@.len(),
            ko == key_offset,
            seen@.len() == 0x1_0000,
            reachable(s, key_offset, top),
            255 <= top <= 0x8000,
            forall|i: int|
                0 <= i < stack@.len() ==> {
                    &&& reachable(s, key_offset, #[trigger] stack@[i])
                    &&& stack@[i] <= top
                },
            forall|a: u32|
                a < 0x1_0000 && #[trigger] seen@[a as int] ==> {
                    &&& reachable(s, key_offset, a)
                    &&& entry_inside(s, key_offset, a)
                    &&& a <= top
                },
            forall|a: u32| a < 256 ==> seen@[a as int] || #[trigger] stack@.contains(a),
            forall|x: u32, y: u32|
                x < 0x1_0000 && seen@[x as int] && #[trigger] leads(s, key_offset, x, y) ==> {
                    &&& y < 0x1_0000
                    &&& seen@[y as int] || stack@.contains(y)
                },
        decreases 2 * unseen(seen@) + stack@.len(),
    {
        let ghost stack0 = stack@;
        let ghost seen0 = seen@;
        let idx: u32 = match stack.pop() {
            Some(x) => x,
            None => 0,
        };
        assert(stack0 =~= stack@.push(idx));
        assert(reachable(s, key_offset, stack0[stack0.len() - 1]));
        assert forall|a: u32| stack0.contains(a) && a != idx implies stack@.contains(a) by {
            let k = choose|k: int| 0 <= k < stack0.len() && stack0[k] == a;
            assert(stack@[k] == a);
        }
        assert forall|i: int| 0 <= i < stack@.len() implies reachable(
            s,
            key_offset,
            #[trigger] stack@[i],
        ) && stack@[i] <= top by {
            assert(stack0[i] == stack@[i]);
        }
        if seen[idx as usize] {
            assert forall|a: u32| a < 256 implies seen@[a as int] || #[trigger] stack@.contains(a) by {
                assert(seen0[a as int] || stack0.contains(a));
            }
            continue;
        }
        proof {
            unseen_update(seen@, idx as int);
        }
        if ko > len || (idx as usize) * 3 + 3 > len - ko {
            assert(reachable(s, key_offset, idx) && !entry_inside(s, key_offset, idx));
            return None;
        }
        assert(entry_inside(s, key_offset, idx));
        let off: usize = ko + (idx as usize) * 3;
        let e: u16 = match peek_u16(d, off) {
            Some(e) => e,
            None => 0,
        };
        seen.set(idx as usize, true);
        let ghost stack1 = stack@;
        if e & 0x8000u16 == 0 {
            let low: u16 = e & 0x7FFFu16;
            proof {
                masks(0, e);
            }
            let child: u32 = low as u32;
            assert(pair_of(s, key_offset, idx) == Some(child));
            proof {
                next_reachable(s, key_offset, idx, child);
                next_reachable(s, key_offset, idx, (child + 1) as u32);
            }
            if child + 1 > top {
                top = child + 1;
            }
            stack.push(child);
            stack.push(child + 1);
            assert forall|a: u32| stack1.contains(a) implies stack@.contains(a) by {
                let k = choose|k: int| 0 <= k < stack1.len() && stack1[k] == a;
                assert(stack@[k] == a);
            }
            assert(stack@[stack1.len() as int] == child);
            assert(stack@[stack1.len() as int + 1] == child + 1);
            assert(stack@.contains(child) && stack@.contains((child + 1) as u32));
        } else {
            assert(pair_of(s, key_offset, idx) is None);
        }
        assert forall|x: u32, y: u32|
            x < 0x1_0000 && seen@[x as int] && #[trigger] leads(s, key_offset, x, y) implies {
            &&& y < 0x1_0000
            &&& seen@[y as int] || stack@.contains(y)
        } by {
            if x != idx {
                assert(seen0[x as int]);
                assert(y < 0x1_0000 && (seen0[y as int] || stack0.contains(y)));
            }
        }
        assert forall|a: u32| a < 256 implies seen@[a as int] || #[trigger] stack@.contains(a) by {
            assert(seen0[a as int] || stack0.contains(a));
        }
    }
    proof {
        assert forall|x: u32, y: u32|
            x < 0x1_0000 && seen@[x as int] && #[trigger] leads(s, key_offset, x, y) implies y
            < 0x1_0000 && seen@[y as int] by {
            assert(!stack@.contains(y));
        }
        assert forall|a: u32| a < 256 implies seen@[a as int] by {
            assert(!stack@.contains(a));
        }
        assert forall|a: u32| #[trigger] reachable(s, key_offset, a) implies entry_inside(
            s,
            key_offset,
            a,
        ) && a <= top by {
            closed_holds_reachable(s, key_offset, seen@, a);
            assert(seen@[a as int]);
        }
        assert(entry_inside(s, key_offset, top));
        assert(is_top(s, key_offset, top));
        table_of_top(s, key_offset, top);
    }
    let end: usize = ko + (top as usize + 1) * 3;
    Some(sub_vec(d, ko, end))
}

/// Whether `t` has the length of `s` and differs from it only in `from..to`.
pub open spec fn differs_only_in(s: Seq<u8>, t: Seq<u8>, from: int, to: int) -> bool {
    &&& t.len() == s.len()
    &&& forall|i: int| 0 <= i < s.len() && !(from <= i < to) ==> #[trigger] t[i] == s[i]
}

proof fn fill8_frame(s: Seq<u8>, o: int, v: u8, n: nat)
    requires
        0 <= o,
        o + n <= s.len(),
    ensures
        differs_only_in(s, fill8(s, o, v, n), o, o + n),
    decreases n,
{
    if n > 0 {
        fill8_frame(s, o, v, (n - 1) as nat);
    }
}

proof fn fill16_frame(s: Seq<u8>, o: int, v: u16, n: nat)
    requires
        0 <= o,
        o + 2 * n <= s.len(),
    ensures
        differs_only_in(s, fill16(s, o, v, n), o, o + 2 * n),
    decreases n,
{
    if n > 0 {
        fill16_frame(s, o, v, (n - 1) as nat);
    }
}

proof fn fill32_frame(s: Seq<u8>, o: int, v: u32, n: nat)
    requires
        0 <= o,
        o + 4 * n <= s.len(),
    ensures
        differs_only_in(s, fill32(s, o, v, n), o, o + 4 * n),
    decreases n,
{
    if n > 0 {
        fill32_frame(s, o, v, (n - 1) as nat);
    }
}

proof fn repeat_back_frame(s: Seq<u8>, o: int, back: int, n: nat)
    requires
        0 <= o,
        o + n <= s.len(),
    ensures
        differs_only_in(s, repeat_back(s, o, back, n), o, o + n),
    decreases n,
{
    if n > 0 {
        repeat_back_frame(s, o, back, (n - 1) as nat);
    }
}

/// A symbol changes only the bytes that it puts out.
proof fn applied_frame(c: Cursor, tab: u16, d_size: u32)
    ensures
        match apply(c, tab, d_size) {
            Applied::Wrote { data, step, pending } => differs_only_in(
                c.data,
                data,
                c.dest as int,
                c.dest + step,
            ),
            _ => true,
        },
{
    let payload = (tab as u32) & 0xFFu32;
    let count = if c.pending == 0 {
        1u32
    } else {
        c.pending
    };
    if (tab as u32) & 0x300u32 == 0x200 {
        if payload == 1 && room(c.data, c.dest, count * payload) {
            assert(count * payload == count) by (nonlinear_arith)
                requires
                    payload == 1,
            ;
            fill8_frame(c.data, c.dest as int, c.data[c.dest - 1], count as nat);
        } else if payload == 2 && room(c.data, c.dest, count * payload) {
            assert(count * payload == 2 * count) by (nonlinear_arith)
                requires
                    payload == 2,
            ;
            fill16_frame(c.data, c.dest as int, le16(c.data, c.dest - 2), count as nat);
        } else if payload == 4 && room(c.data, c.dest, count * payload) {
            assert(count * payload == 4 * count) by (nonlinear_arith)
                requires
                    payload == 4,
            ;
            fill32_frame(c.data, c.dest as int, le32(c.data, c.dest - 4), count as nat);
        }
    } else if (tab as u32) & 0x300u32 != 0 && (tab as u32) & 0x300u32 != 0x100 {
        let back = c.pending.wrapping_add(payload);
        if room(c.data, c.dest, payload as int) {
            repeat_back_frame(c.data, c.dest as int, back as int, payload as nat);
        }
    }
}

/// Whether `tab` is the table at `ko` of `s`, as far as codes reach, and `t`
/// still holds that table.
spec fn same_table(s: Seq<u8>, t: Seq<u8>, ko: u32, tab: Seq<u8>) -> bool {
    &&& ko + (tab.len() - 3) <= u32::MAX
    &&& t.len() == s.len()
    &&& ko + tab.len() <= s.len()
    &&& tab == s.subrange(ko as int, ko + tab.len())
    &&& forall|i: int| ko <= i < ko + tab.len() ==> #[trigger] t[i] == s[i]
    &&& forall|a: u32| #[trigger] reachable(s, ko, a) ==> 3 * (a + 1) <= tab.len()
}

proof fn entry_alike(s: Seq<u8>, t: Seq<u8>, ko: u32, tab: Seq<u8>, a: u32)
    requires
        same_table(s, t, ko, tab),
        reachable(s, ko, a),
    ensures
        entry_word(t, ko, 2, a) == entry_word(tab, 0, 3, a),
        entry_len(t, ko, a) == entry_len(tab, 0, a),
        entry_word(t, ko, 2, a) == Some(le16(s, ko + 3 * a)),
{
    assert(entry_at(0, a) == 3 * a);
    assert(entry_at(ko, a) == ko + 3 * a);
    assert(tab[3 * a] == s[ko + 3 * a]);
    assert(tab[3 * a + 1] == s[ko + 3 * a + 1]);
    assert(tab[3 * a + 2] == s[ko + 3 * a + 2]);
    assert(t[ko + 3 * a] == s[ko + 3 * a]);
    assert(t[ko + 3 * a + 1] == s[ko + 3 * a + 1]);
    assert(t[ko + 3 * a + 2] == s[ko + 3 * a + 2]);
}

proof fn branch_reachable(s: Seq<u8>, t: Seq<u8>, ko: u32, tab: Seq<u8>, a: u32, word: u32, mask: u32)
    requires
        same_table(s, t, ko, tab),
        reachable(s, ko, a),
        le16(s, ko + 3 * a) & 0x8000u16 == 0,
    ensures
        reachable(s, ko, branch(le16(s, ko + 3 * a), word, mask)),
{
    let e = le16(s, ko + 3 * a);
    masks(0, e);
    next_reachable(s, ko, a, branch(e, word, mask));
}

proof fn walk_alike(
    s: Seq<u8>,
    t: Seq<u8>,
    ko: u32,
    tab: Seq<u8>,
    word: u32,
    idx: u32,
    mask: u32,
    bits: u8,
    depth: nat,
)
    requires
        same_table(s, t, ko, tab),
        reachable(s, ko, idx),
        depth <= 64,
    ensures
        walk(t, ko, 2, word, idx, mask, bits, depth) == walk(
            tab,
            0,
            3,
            word,
            idx,
            mask,
            bits,
            depth,
        ),
    decreases 64 - depth,
{
    entry_alike(s, t, ko, tab, idx);
    let e = le16(s, ko + 3 * idx);
    if e & 0x8000u16 == 0 && depth < 64 {
        branch_reachable(s, t, ko, tab, idx, word, mask << 1u32);
        walk_alike(
            s,
            t,
            ko,
            tab,
            word,
            branch(e, word, mask << 1u32),
            mask << 1u32,
            bits.wrapping_add(1),
            depth + 1,
        );
    }
}

proof fn symbol_alike(s: Seq<u8>, t: Seq<u8>, ko: u32, tab: Seq<u8>, word: u32)
    requires
        same_table(s, t, ko, tab),
    ensures
        symbol(t, ko, 2, word) == symbol(tab, 0, 3, word),
        symbol(t, ko, 2, word) !is Outside,
{
    let root = word & 0xFFu32;
    masks(word, 0);
    root_reachable(s, ko, root);
    entry_alike(s, t, ko, tab, root);
    assert(entry_len(tab, 0, root) is Some);
    let e = le16(s, ko + 3 * root);
    let len = entry_len(tab, 0, root)->0;
    if e & 0x8000u16 == 0 && len < 32 {
        let mask = 1u32 << (len as u32);
        branch_reachable(s, t, ko, tab, root, word, mask);
        walk_alike(s, t, ko, tab, word, branch(e, word, mask), mask, len.wrapping_add(1), 0);
        walk_inside(s, t, ko, tab, word, branch(e, word, mask), mask, len.wrapping_add(1), 0);
    }
}

proof fn walk_inside(
    s: Seq<u8>,
    t: Seq<u8>,
    ko: u32,
    tab: Seq<u8>,
    word: u32,
    idx: u32,
    mask: u32,
    bits: u8,
    depth: nat,
)
    requires
        same_table(s, t, ko, tab),
        reachable(s, ko, idx),
        depth <= 64,
    ensures
        walk(t, ko, 2, word, idx, mask, bits, depth) !is Outside,
    decreases 64 - depth,
{
    entry_alike(s, t, ko, tab, idx);
    let e = le16(s, ko + 3 * idx);
    if e & 0x8000u16 == 0 && depth < 64 {
        branch_reachable(s, t, ko, tab, idx, word, mask << 1u32);
        walk_inside(
            s,
            t,
            ko,
            tab,
            word,
            branch(e, word, mask << 1u32),
            mask << 1u32,
            bits.wrapping_add(1),
            depth + 1,
        );
    }
}

proof fn expand_alike(
    s: Seq<u8>,
    ko: u32,
    tab: Seq<u8>,
    src: Seq<u8>,
    s_size: u32,
    d_size: u32,
    dest: u32,
    c: Cursor,
)
    requires
        same_table(s, c.data, ko, tab),
        c.written <= d_size,
        c.dest == dest + c.written,
        dest + d_size <= ko || ko + tab.len() <= dest,
    ensures
        expand(None, ko, src, s_size, d_size, c) == expand(Some(tab), 0, src, s_size, d_size, c),
    decreases work_left(c, s_size, d_size),
{
    if c.bits / 8 < s_size && c.written < d_size {
        symbol_alike(s, c.data, ko, tab, front(src, c.bits));
        match next_symbol(None, ko, src, c) {
            Symbol::Code { tab: t, bits } => {
                applied_bounds(c, t, d_size);
                applied_frame(c, t, d_size);
                match apply(c, t, d_size) {
                    Applied::Wrote { data, step, pending } => {
                        if !(bits == 0 && step == 0) {
                            expand_alike(
                                s,
                                ko,
                                tab,
                                src,
                                s_size,
                                d_size,
                                dest,
                                advanced(c, bits, data, step, pending),
                            );
                        }
                    },
                    _ => {},
                }
            },
            _ => {},
        }
    }
}

/// Expanding with a table that was cut out of the buffer gives what expanding
/// with the table in place gives, wherever the output and the table do not
/// overlap and no entry of the table starts beyond 32-bit addresses.
pub proof fn snapshot_expands_alike(
    s: Seq<u8>,
    src: u32,
    dest: u32,
    ko: u32,
    s_size: u32,
    d_size: u32,
    tab: Seq<u8>,
)
    requires
        table_of(s, ko) == Some(tab),
        ko + (tab.len() - 3) <= u32::MAX,
        dest + d_size <= ko || ko + tab.len() <= dest,
    ensures
        expanded(None, s, src, dest, ko, s_size, d_size) == expanded(
            Some(tab),
            s,
            src,
            dest,
            0,
            s_size,
            d_size,
        ),
{
    let m = top_exists(s, ko, 0xFFFF_FFFF);
    table_of_top(s, ko, m);
    assert(entry_inside(s, ko, m));
    assert(tab.len() == 3 * (m + 1));
    if s_size as u64 <= MAX_IMAGE_SIZE && fits(s, src as int, s_size as int) {
        expand_alike(
            s,
            ko,
            tab,
            source(s, src, s_size),
            s_size,
            d_size,
            dest,
            Cursor { data: s, dest, bits: 0, pending: 0, written: 0 },
        );
    }
}

/// How many bytes expansion puts out from cursor `c` on.
pub open spec fn output_len(
    tab: Option<Seq<u8>>,
    base: u32,
    src: Seq<u8>,
    s_size: u32,
    d_size: u32,
    c: Cursor,
) -> int
    decreases work_left(c, s_size, d_size),
    when c.written <= c.dest
{
    if !(c.bits / 8 < s_size && c.written < d_size) {
        0
    } else {
        match next_symbol(tab, base, src, c) {
            Symbol::Code { tab: t, bits } => match apply(c, t, d_size) {
                Applied::Wrote { data, step, pending } => if bits == 0 && step == 0 {
                    0
                } else {
                    proof {
                        applied_bounds(c, t, d_size);
                    }
                    step + output_len(
                        tab,
                        base,
                        src,
                        s_size,
                        d_size,
                        advanced(c, bits, data, step, pending),
                    )
                },
                _ => 0,
            },
            _ => 0,
        }
    }
}

/// Expansion keeps the buffer's length and changes only the bytes that it puts out
/// from `dest` on: at most `d_size`, and exactly `d_size`, inside the buffer, where
/// it succeeds.
pub proof fn expanding_fills_its_place(
    tab: Option<Seq<u8>>,
    s: Seq<u8>,
    src: u32,
    dest: u32,
    base: u32,
    s_size: u32,
    d_size: u32,
)
    ensures
        match expanded(tab, s, src, dest, base, s_size, d_size) {
            Outcome::Ended { data, result } => {
                let n = output_len(
                    tab,
                    base,
                    source(s, src, s_size),
                    s_size,
                    d_size,
                    Cursor { data: s, dest, bits: 0, pending: 0, written: 0 },
                );
                &&& data.len() == s.len()
                &&& differs_only_in(s, data, dest as int, dest + d_size)
                &&& result is Ok ==> n == d_size && (d_size > 0 ==> dest + d_size <= s.len())
                &&& s_size as u64 <= MAX_IMAGE_SIZE ==> {
                    &&& differs_only_in(s, data, dest as int, dest + n)
                    &&& 0 <= n <= d_size
                    &&& n == d_size ==> result is Ok
                }
            },
            Outcome::Outside => true,
        },
{
    if s_size as u64 <= MAX_IMAGE_SIZE && fits(s, src as int, s_size as int) {
        expand_fills(
            tab,
            base,
            source(s, src, s_size),
            s_size,
            d_size,
            Cursor { data: s, dest, bits: 0, pending: 0, written: 0 },
        );
    }
}

proof fn expand_fills(
    tab: Option<Seq<u8>>,
    base: u32,
    src: Seq<u8>,
    s_size: u32,
    d_size: u32,
    c: Cursor,
)
    requires
        c.written <= c.dest,
        c.written <= d_size,
    ensures
        match expand(tab, base, src, s_size, d_size, c) {
            Outcome::Ended { data, result } => {
                let n = output_len(tab, base, src, s_size, d_size, c);
                &&& differs_only_in(c.data, data, c.dest as int, c.dest + n)
                &&& 0 <= n
                &&& c.written + n <= d_size
                &&& n > 0 ==> c.dest + n <= c.data.len()
                &&& result is Ok <==> c.written + n == d_size
            },
            Outcome::Outside => true,
        },
    decreases work_left(c, s_size, d_size),
{
    if c.bits / 8 < s_size && c.written < d_size {
        match next_symbol(tab, base, src, c) {
            Symbol::Code { tab: t, bits } => {
                applied_bounds(c, t, d_size);
                applied_frame(c, t, d_size);
                match apply(c, t, d_size) {
                    Applied::Wrote { data, step, pending } => {
                        if !(bits == 0 && step == 0) {
                            expand_fills(
                                tab,
                                base,
                                src,
                                s_size,
                                d_size,
                                advanced(c, bits, data, step, pending),
                            );
                        }
                    },
                    _ => {},
                }
            },
            _ => {},
        }
    }
}

} // verus!
