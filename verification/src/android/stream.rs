//! The record table at the head of a module stream.
//!
//! Both the header and the records are enciphered. The cipher multiplies in
//! GF(2^32) by a fixed element, which is given by what it makes of each bit.

use vstd::prelude::*;

use crate::bits::{masks, xor_twice};
use crate::android::error::{hex2, invalid_as, push_hex2, Error};
use crate::bytes::{le32, peek_u32};
use crate::text::{dec, hex, push_dec, push_hex, push_small_hex, small_hex};

verus! {

/// The size of a record descriptor.
pub const RECORD_SIZE: usize = 0x5c;

/// The flag of a record whose image is stored as it is.
pub const DIRECT_FLAG: u32 = 2;

/// Multiplication by a fixed element of GF(2^32).
#[derive(Debug, Clone, Copy)]
pub struct FixedProduct {
    /// The product with each power of the generator, the lowest first.
    pub columns: [u32; 32],
}

/// The product of the lowest `n` bits of `x`.
pub open spec fn product_of(columns: Seq<u32>, x: u32, n: int) -> u32
    decreases n,
{
    if n <= 0 {
        0
    } else if (x >> ((n - 1) as u32)) & 1 == 1 {
        product_of(columns, x, n - 1) ^ columns[n - 1]
    } else {
        product_of(columns, x, n - 1)
    }
}

impl FixedProduct {
    /// The product with `x`.
    pub open spec fn product(self, x: u32) -> u32 {
        product_of(self.columns@, x, 32)
    }

    /// The product with `x`.
    pub fn multiply(&self, x: u32) -> (r: u32)
        ensures
            r == self.product(x),
    {
        let mut r: u32 = 0;
        let mut i: u32 = 0;
        while i < 32
            invariant
                i <= 32,
                r == product_of(self.columns@, x, i as int),
            decreases 32 - i,
        {
            if (x >> i) & 1 == 1 {
                r = r ^ self.columns[i as usize];
            }
            i = i + 1;
        }
        r
    }
}

/// A record of a stream: where a module's image and metadata stand.
#[derive(Debug, Clone, Copy, PartialEq, Eq, Structural)]
pub struct Record {
    pub index: usize,
    pub command_id: u32,
    pub flags: u32,
    pub image_offset: u32,
    pub image_size: u32,
    pub metadata_offset: u32,
    pub metadata_size: u32,
    pub id_copy: u32,
    pub entry_offset: u32,
    pub init_offset: u32,
}

impl Record {
    /// Whether the image is stored as it is.
    pub open spec fn is_direct(self) -> bool {
        self.flags & DIRECT_FLAG != 0
    }

    /// Whether the image is stored as it is.
    pub fn direct(self) -> (r: bool)
        ensures
            r == self.is_direct(),
    {
        self.flags & DIRECT_FLAG != 0
    }
}

/// The header of a stream.
#[derive(Debug, Clone, Copy)]
pub struct StreamHeader {
    pub encrypted_words: [u32; 2],
    pub decrypted_words: [u32; 2],
    pub record_state: u32,
}

/// What a [`StreamHeader`] says.
pub struct HeaderWords {
    pub encrypted: (u32, u32),
    pub decrypted: (u32, u32),
    pub record_state: u32,
}

impl View for StreamHeader {
    type V = HeaderWords;

    open spec fn view(&self) -> HeaderWords {
        HeaderWords {
            encrypted: (self.encrypted_words@[0], self.encrypted_words@[1]),
            decrypted: (self.decrypted_words@[0], self.decrypted_words@[1]),
            record_state: self.record_state,
        }
    }
}

/// What a stream's number adds to its cipher.
pub open spec fn stream_base(id: u32) -> u32 {
    let key = id.wrapping_mul(0x9d32_3cd7);
    (key >> (id & 7)).wrapping_add(0x5e72_7d74).wrapping_add(key << (id & 0xb)).wrapping_add(
        0xf71e_3005,
    )
}

/// The header of a stream.
pub open spec fn header_of(m: FixedProduct, s: Seq<u8>, id: u32) -> HeaderWords {
    let base = stream_base(id);
    let c0 = le32(s, 0);
    let c1 = le32(s, 4);
    let p0 = m.product(c0.wrapping_add(0xcbf0_c1d8)) ^ 0xeb_e81dbau32.wrapping_add(base);
    let p1 = m.product(c1.wrapping_add(c0)) ^ 0xeb_e81dbau32.wrapping_mul(5).wrapping_add(base);
    HeaderWords {
        encrypted: (c0, c1),
        decrypted: (p0, p1),
        record_state: p1.wrapping_add(base),
    }
}

/// How far word `w` shifts the mix.
pub open spec fn mix_shift(w: u32) -> u32 {
    ((w * 4 + 3) as u32) & 5
}

/// Word `w` of the record descriptor `d`, deciphered.
pub open spec fn record_word(m: FixedProduct, d: Seq<u8>, w: u32, index: usize, state: u32) -> u32 {
    let product = state.wrapping_add(0x96f6_0b71).wrapping_mul(state);
    let mask = product << ((((index % 4) + 1) % 4) as u32);
    let mix = state.wrapping_mul(0x06a5_5bcc).wrapping_add(product);
    let before = if w == 0 {
        0xf02f_7685
    } else {
        le32(d, w * 4 - 4)
    };
    let feedback = before.wrapping_mul(before);
    let accumulator = 0x7993_4cf6u32.wrapping_add(0xe64d_33d8u32.wrapping_mul(w));
    (m.product(le32(d, w * 4) ^ (feedback >> 3u32)) ^ mask).wrapping_add(accumulator).wrapping_add(
        state,
    ).wrapping_sub(mix >> mix_shift(w))
}

/// The record of the descriptor `d`.
#[verifier::opaque]
pub open spec fn record_of(m: FixedProduct, d: Seq<u8>, index: usize, state: u32) -> Record {
    Record {
        index,
        command_id: record_word(m, d, 0, index, state),
        flags: record_word(m, d, 1, index, state),
        image_offset: record_word(m, d, 2, index, state),
        image_size: record_word(m, d, 3, index, state),
        metadata_offset: record_word(m, d, 4, index, state),
        metadata_size: record_word(m, d, 5, index, state),
        id_copy: record_word(m, d, 6, index, state),
        entry_offset: record_word(m, d, 7, index, state),
        init_offset: record_word(m, d, 8, index, state),
    }
}

/// Word `w` of a record descriptor, deciphered.
fn decipher_word(m: &FixedProduct, raw: &[u8], w: u32, index: usize, state: u32) -> (r: u32)
    requires
        raw@.len() == RECORD_SIZE,
        w < 9,
    ensures
        r == record_word(*m, raw@, w, index, state),
{
    let product: u32 = state.wrapping_add(0x96f6_0b71).wrapping_mul(state);
    let turn: u32 = (((index % 4) + 1) % 4) as u32;
    let mask: u32 = product << turn;
    let mix: u32 = state.wrapping_mul(0x06a5_5bcc).wrapping_add(product);
    let before: u32 = if w == 0 {
        0xf02f_7685
    } else {
        match peek_u32(raw, (w * 4 - 4) as usize) {
            Some(v) => v,
            None => 0,
        }
    };
    let feedback: u32 = before.wrapping_mul(before);
    let cipher: u32 = match peek_u32(raw, (w * 4) as usize) {
        Some(v) => v,
        None => 0,
    };
    let accumulator: u32 = 0x7993_4cf6u32.wrapping_add(0xe64d_33d8u32.wrapping_mul(w));
    let shift: u32 = (w * 4 + 3) & 5;
    proof {
        masks((w * 4 + 3) as u32, 0);
    }
    (m.multiply(cipher ^ (feedback >> 3u32)) ^ mask).wrapping_add(accumulator).wrapping_add(
        state,
    ).wrapping_sub(mix >> shift)
}

/// The record of a descriptor.
pub fn decrypt_record(m: &FixedProduct, raw: &[u8], index: usize, state: u32) -> (r: Result<
    Record,
    Error,
>)
    ensures
        if raw@.len() == RECORD_SIZE {
            r == Ok::<Record, Error>(record_of(*m, raw@, index, state))
        } else {
            invalid_as(
                r,
                "record "@ + dec(index as nat) + " has size 0x"@ + small_hex(raw@.len())
                    + ", expected 0x5c"@,
            )
        },
{
    if raw.len() != RECORD_SIZE {
        let mut t: String = "record ".to_owned();
        push_dec(&mut t, index as u64);
        t.append(" has size 0x");
        push_small_hex(&mut t, raw.len() as u64);
        t.append(", expected 0x5c");
        return Err(Error::Invalid(t));
    }
    reveal(record_of);
    Ok(
        Record {
            index,
            command_id: decipher_word(m, raw, 0, index, state),
            flags: decipher_word(m, raw, 1, index, state),
            image_offset: decipher_word(m, raw, 2, index, state),
            image_size: decipher_word(m, raw, 3, index, state),
            metadata_offset: decipher_word(m, raw, 4, index, state),
            metadata_size: decipher_word(m, raw, 5, index, state),
            id_copy: decipher_word(m, raw, 6, index, state),
            entry_offset: decipher_word(m, raw, 7, index, state),
            init_offset: decipher_word(m, raw, 8, index, state),
        },
    )
}

/// The first payload, once one at `offset` of `size` bytes is known too.
pub open spec fn first_of(first: int, offset: u32, size: u32) -> int {
    if offset != 0 && size != 0 && offset < first {
        offset as int
    } else {
        first
    }
}

/// Whether a payload of `size` bytes at `offset` starts outside the stream.
pub open spec fn strays(len: int, offset: u32, size: u32) -> bool {
    offset != 0 && size != 0 && offset >= len
}

/// A stream's name at the start of a message.
pub open spec fn stream_text(id: u32) -> Seq<char> {
    "stream 0x"@ + hex2(id)
}

/// A stream's and a record's name at the start of a message.
pub open spec fn place_text(id: u32, i: int) -> Seq<char> {
    stream_text(id) + " record "@ + dec(i as nat)
}

/// The description of a payload that starts outside the stream.
pub open spec fn stray_text(id: u32, i: int, offset: u32, len: int) -> Seq<char> {
    place_text(id, i) + " payload offset 0x"@ + small_hex(offset as nat) + " exceeds stream 0x"@
        + small_hex(len as nat)
}

/// `acc` and the records from `i` on, up to the first payload, and where that
/// starts. `first` is the first payload of the records in `acc`.
pub open spec fn records_from(
    m: FixedProduct,
    s: Seq<u8>,
    id: u32,
    state: u32,
    i: int,
    first: int,
    acc: Seq<Record>,
) -> Result<(Seq<Record>, int), Seq<char>>
    decreases 256 - i,
{
    let start = 8 + i * RECORD_SIZE;
    let end = start + RECORD_SIZE;
    if i >= 256 {
        Err(stream_text(id) + " has no descriptor boundary in 256 records"@)
    } else if end > s.len() {
        Err(stream_text(id) + " descriptor table is truncated at record "@ + dec(i as nat))
    } else {
        let x = record_of(m, s.subrange(start, end), i as usize, state);
        let n = s.len() as int;
        let next = first_of(
            first_of(first, x.image_offset, x.image_size),
            x.metadata_offset,
            x.metadata_size,
        );
        if x.id_copy != 0 && x.command_id != x.id_copy {
            Err(
                place_text(id, i) + " command/id mismatch: 0x"@ + hex(x.command_id as nat)
                    + " != 0x"@ + hex(x.id_copy as nat),
            )
        } else if strays(n, x.image_offset, x.image_size) {
            Err(stray_text(id, i, x.image_offset, n))
        } else if strays(n, x.metadata_offset, x.metadata_size) {
            Err(stray_text(id, i, x.metadata_offset, n))
        } else if end == next {
            Ok((acc.push(x), next))
        } else if end > next {
            Err(
                stream_text(id) + " descriptor table crosses first payload at 0x"@ + small_hex(
                    next as nat,
                ),
            )
        } else {
            records_from(m, s, id, state, i + 1, next, acc.push(x))
        }
    }
}

/// The header and the records of a stream, and where its table ends.
pub open spec fn stream_of(m: FixedProduct, s: Seq<u8>, id: u32) -> Result<
    (HeaderWords, Seq<Record>, int),
    Seq<char>,
> {
    if s.len() < 8 {
        Err(stream_text(id) + " is shorter than its 8-byte header"@)
    } else {
        let h = header_of(m, s, id);
        match records_from(m, s, id, h.record_state, 0, s.len() as int, Seq::empty()) {
            Err(t) => Err(t),
            Ok((list, end)) => Ok((h, list, end)),
        }
    }
}

/// A failure that names its stream first.
fn stream_error(id: u32, rest: &str) -> (e: Error)
    ensures
        invalid_as(Err::<(), Error>(e), stream_text(id) + rest@),
{
    let mut t: String = "stream 0x".to_owned();
    push_hex2(&mut t, id);
    t.append(rest);
    Error::Invalid(t)
}

/// A failure about a record.
fn place_error(id: u32, i: usize, rest: &str) -> (e: Error)
    ensures
        invalid_as(Err::<(), Error>(e), place_text(id, i as int) + rest@),
{
    let mut t: String = "stream 0x".to_owned();
    push_hex2(&mut t, id);
    t.append(" record ");
    push_dec(&mut t, i as u64);
    t.append(rest);
    Error::Invalid(t)
}

/// A failure about a payload that starts outside the stream.
fn stray_error(id: u32, i: usize, offset: u32, len: usize) -> (e: Error)
    ensures
        invalid_as(Err::<(), Error>(e), stray_text(id, i as int, offset, len as int)),
{
    let mut u: String = " payload offset 0x".to_owned();
    push_small_hex(&mut u, offset as u64);
    u.append(" exceeds stream 0x");
    push_small_hex(&mut u, len as u64);
    let e: Error = place_error(id, i, u.as_str());
    assert(place_text(id, i as int) + u@ =~= stray_text(id, i as int, offset, len as int));
    e
}

/// The header of a stream.
fn read_header(m: &FixedProduct, stream: &[u8], id: u32) -> (r: StreamHeader)
    requires
        stream@.len() >= 8,
    ensures
        r@ == header_of(*m, stream@, id),
{
    let c0: u32 = match peek_u32(stream, 0) {
        Some(v) => v,
        None => 0,
    };
    let c1: u32 = match peek_u32(stream, 4) {
        Some(v) => v,
        None => 0,
    };
    let key: u32 = id.wrapping_mul(0x9d32_3cd7);
    let right: u32 = id & 7;
    let left: u32 = id & 0xb;
    proof {
        masks(id, 0);
    }
    let base: u32 = (key >> right).wrapping_add(0x5e72_7d74).wrapping_add(key << left).wrapping_add(
        0xf71e_3005,
    );
    let p0: u32 = m.multiply(c0.wrapping_add(0xcbf0_c1d8)) ^ 0xeb_e81dbau32.wrapping_add(base);
    let p1: u32 = m.multiply(c1.wrapping_add(c0)) ^ 0xeb_e81dbau32.wrapping_mul(5).wrapping_add(
        base,
    );
    StreamHeader {
        encrypted_words: [c0, c1],
        decrypted_words: [p0, p1],
        record_state: p1.wrapping_add(base),
    }
}

/// The header and the records of a stream, and where its table ends: the table
/// reaches up to the first payload.
pub fn parse_record_stream(m: &FixedProduct, stream: &[u8], stream_id: u32) -> (r: Result<
    (StreamHeader, Vec<Record>, usize),
    Error,
>)
    ensures
        match stream_of(*m, stream@, stream_id) {
            Ok((h, list, end)) => r is Ok && r->Ok_0.0@ == h && r->Ok_0.1@ == list && r->Ok_0.2
                == end,
            Err(t) => invalid_as(r, t),
        },
{
    if stream.len() < 8 {
        return Err(stream_error(stream_id, " is shorter than its 8-byte header"));
    }
    let header: StreamHeader = read_header(m, stream, stream_id);
    let state: u32 = header.record_state;
    let mut records: Vec<Record> = Vec::new();
    let mut first: usize = stream.len();
    let mut i: usize = 0;
    while i < 256
        invariant
            i <= 256,
            stream@.len() >= 8,
            first <= stream@.len(),
            header@ == header_of(*m, stream@, stream_id),
            state == header@.record_state,
            records_from(*m, stream@, stream_id, state, i as int, first as int, records@)
                == records_from(
                *m,
                stream@,
                stream_id,
                state,
                0,
                stream@.len() as int,
                Seq::empty(),
            ),
        decreases 256 - i,
    {
        let start: usize = 8 + i * RECORD_SIZE;
        let end: usize = start + RECORD_SIZE;
        if end > stream.len() {
            let mut t: String = " descriptor table is truncated at record ".to_owned();
            push_dec(&mut t, i as u64);
            assert(stream_text(stream_id) + t@ =~= stream_text(stream_id)
                + " descriptor table is truncated at record "@ + dec(i as nat));
            return Err(stream_error(stream_id, t.as_str()));
        }
        let x: Record = decrypt_record(
            m,
            vstd::slice::slice_subrange(stream, start, end),
            i,
            state,
        )?;
        if x.id_copy != 0 && x.command_id != x.id_copy {
            let mut t: String = " command/id mismatch: 0x".to_owned();
            push_hex(&mut t, x.command_id as u64);
            t.append(" != 0x");
            push_hex(&mut t, x.id_copy as u64);
            assert(place_text(stream_id, i as int) + t@ =~= place_text(stream_id, i as int)
                + " command/id mismatch: 0x"@ + hex(x.command_id as nat) + " != 0x"@ + hex(
                x.id_copy as nat,
            ));
            return Err(place_error(stream_id, i, t.as_str()));
        }
        if x.image_offset != 0 && x.image_size != 0 {
            if x.image_offset as usize >= stream.len() {
                return Err(stray_error(stream_id, i, x.image_offset, stream.len()));
            }
            if (x.image_offset as usize) < first {
                first = x.image_offset as usize;
            }
        }
        if x.metadata_offset != 0 && x.metadata_size != 0 {
            if x.metadata_offset as usize >= stream.len() {
                return Err(stray_error(stream_id, i, x.metadata_offset, stream.len()));
            }
            if (x.metadata_offset as usize) < first {
                first = x.metadata_offset as usize;
            }
        }
        records.push(x);
        if end == first {
            return Ok((header, records, first));
        }
        if end > first {
            let mut t: String = " descriptor table crosses first payload at 0x".to_owned();
            push_small_hex(&mut t, first as u64);
            assert(stream_text(stream_id) + t@ =~= stream_text(stream_id)
                + " descriptor table crosses first payload at 0x"@ + small_hex(first as nat));
            return Err(stream_error(stream_id, t.as_str()));
        }
        i = i + 1;
    }
    Err(stream_error(stream_id, " has no descriptor boundary in 256 records"))
}

/// A product of a sum is the sum of the products.
pub proof fn product_is_linear(m: FixedProduct, x: u32, y: u32)
    ensures
        m.product(x ^ y) == m.product(x) ^ m.product(y),
{
    product_is_linear_below(m.columns@, x, y, 32);
}

proof fn product_is_linear_below(columns: Seq<u32>, x: u32, y: u32, n: int)
    requires
        0 <= n <= 32,
    ensures
        product_of(columns, x ^ y, n) == product_of(columns, x, n) ^ product_of(columns, y, n),
    decreases n,
{
    if n == 0 {
        xor_twice(0, 0, 0, 0, 0, 0);
    } else {
        product_is_linear_below(columns, x, y, n - 1);
        let k = (n - 1) as u32;
        let a = product_of(columns, x, n - 1);
        let b = product_of(columns, y, n - 1);
        let c = columns[n - 1];
        let p = (x >> k) & 1;
        let q = (y >> k) & 1;
        assert(((x ^ y) >> k) & 1 == ((x >> k) & 1) ^ ((y >> k) & 1)) by (bit_vector);
        assert((p == 0 || p == 1) && (q == 0 || q == 1)) by (bit_vector)
            requires
                p == (x >> k) & 1,
                q == (y >> k) & 1,
        ;
        assert(0u32 ^ 0u32 == 0u32 && 0u32 ^ 1u32 == 1u32 && 1u32 ^ 0u32 == 1u32 && 1u32 ^ 1u32
            == 0u32 && (a ^ b) ^ c == (a ^ c) ^ b && (a ^ b) ^ c == a ^ (b ^ c) && a ^ b == (a ^ c)
            ^ (b ^ c)) by (bit_vector);
    }
}

/// Whether a payload of `x` starts below `end` or outside a stream of `len` bytes.
pub open spec fn payload_misplaced(x: Record, end: int, len: int) -> bool {
    ||| x.image_offset != 0 && x.image_size != 0 && !(end <= x.image_offset < len)
    ||| x.metadata_offset != 0 && x.metadata_size != 0 && !(end <= x.metadata_offset < len)
}

proof fn records_from_sound(
    m: FixedProduct,
    s: Seq<u8>,
    id: u32,
    state: u32,
    i: int,
    first: int,
    acc: Seq<Record>,
)
    requires
        0 <= i == acc.len(),
        first <= s.len(),
        forall|k: int|
            0 <= k < acc.len() ==> (#[trigger] acc[k]).index == k && !payload_misplaced(
                acc[k],
                first,
                s.len() as int,
            ),
    ensures
        records_from(m, s, id, state, i, first, acc) matches Ok((list, end)) ==> {
            &&& 0 < list.len() <= 256
            &&& end == 8 + list.len() * RECORD_SIZE <= s.len()
            &&& forall|k: int|
                0 <= k < list.len() ==> (#[trigger] list[k]).index == k && !payload_misplaced(
                    list[k],
                    end,
                    s.len() as int,
                )
        },
    decreases 256 - i,
{
    let start = 8 + i * RECORD_SIZE;
    let end = start + RECORD_SIZE;
    if i < 256 && end <= s.len() {
        let x = record_of(m, s.subrange(start, end), i as usize, state);
        reveal(record_of);
        let next = first_of(
            first_of(first, x.image_offset, x.image_size),
            x.metadata_offset,
            x.metadata_size,
        );
        let more = acc.push(x);
        if !(x.id_copy != 0 && x.command_id != x.id_copy) && !strays(
            s.len() as int,
            x.image_offset,
            x.image_size,
        ) && !strays(s.len() as int, x.metadata_offset, x.metadata_size) {
            assert forall|k: int| 0 <= k < more.len() implies (#[trigger] more[k]).index == k
                && !payload_misplaced(more[k], next, s.len() as int) by {
                if k < acc.len() {
                    assert(more[k] == acc[k]);
                }
            }
            if end < next {
                records_from_sound(m, s, id, state, i + 1, next, more);
            }
        }
    }
}

/// The table of a stream that was read ends inside the stream, right behind its
/// last record; the records are numbered in order; and every payload starts at
/// the end of the table or later.
pub proof fn payloads_follow_the_table(m: FixedProduct, s: Seq<u8>, id: u32)
    requires
        stream_of(m, s, id) is Ok,
    ensures
        ({
            let (h, list, end) = stream_of(m, s, id)->Ok_0;
            &&& 0 < list.len() <= 256
            &&& end == 8 + list.len() * RECORD_SIZE <= s.len()
            &&& forall|k: int|
                0 <= k < list.len() ==> (#[trigger] list[k]).index == k && !payload_misplaced(
                    list[k],
                    end,
                    s.len() as int,
                )
        }),
{
    let h = header_of(m, s, id);
    records_from_sound(m, s, id, h.record_state, 0, s.len() as int, Seq::empty());
}

} // verus!
