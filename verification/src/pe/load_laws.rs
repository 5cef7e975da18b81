//! How a protected file is written, and that it is loaded.

use vstd::prelude::*;

use crate::bits::four_by_shifts;
use crate::bytes::{le16, le32, overlay, put32, write_then_read_32, zeros};
use crate::cipher_laws::{
    holds_header, holds_payload, sealed_header_is_read, sealed_payload_is_loaded,
};
use crate::ciphers::word_pos;
use crate::error::MAX_IMAGE_SIZE;
use crate::pe::load::{
    data2_in_range, enciphered, loaded, with_payload, with_rest, with_words, word_in_range,
    LoadedView,
};
use crate::pe::steps::has4;

verus! {

/// What a protected file says of its payload.
pub struct Payload {
    /// Where it goes in the image.
    pub to: u32,
    /// Where it stands in the file.
    pub from: u32,
    /// How many bytes it has.
    pub size: u32,
    /// Its first words, which the file holds enciphered.
    pub words: Seq<u32>,
    /// The key of the words, less what their number adds to it.
    pub key: u32,
}

/// Whether the fields of a header describe a payload.
pub open spec fn describes(fields: Seq<u32>, p: Payload) -> bool {
    &&& fields.len() == 8
    &&& fields[0] == p.key
    &&& fields[3] == p.to
    &&& fields[4].wrapping_add(4096) == p.from
    &&& fields[5] == p.size
    &&& fields[6] == p.to.wrapping_add((4 * p.words.len()) as u32).wrapping_sub(8192)
}

/// Whether a file holds a payload, for an image of `n` bytes.
pub open spec fn holds(f: Seq<u8>, fields: Seq<u32>, p: Payload, n: int) -> bool {
    &&& holds_header(f, fields)
    &&& describes(fields, p)
    &&& 1 <= p.words.len()
    &&& 4 * p.words.len() <= p.size
    &&& 4096 <= p.to
    &&& p.to + p.size <= n <= MAX_IMAGE_SIZE
    &&& p.from + p.size <= f.len() <= u32::MAX
    &&& 4096 <= f.len()
    &&& holds_payload(
        f,
        p.from,
        p.words,
        p.key.wrapping_add(u32::MAX).wrapping_sub((4 * p.words.len()) as u32),
    )
}

/// Whether an image of `n` bytes holds the first page of a file and its payload, with the
/// size of a page in front, and nothing else.
pub open spec fn is_loaded(img: Seq<u8>, f: Seq<u8>, p: Payload, n: int) -> bool {
    &&& img.len() == n
    &&& forall|a: int| 0 <= a < 4096 ==> #[trigger] img[a] == f[a]
    &&& le32(img, p.to as int) == 4096
    &&& forall|i: int| 1 <= i < p.words.len() ==> #[trigger] le32(img, p.to + 4 * i) == p.words[i]
    &&& forall|a: int|
        p.to + 4 * p.words.len() <= a < p.to + p.size ==> #[trigger] img[a] == f[p.from + a - p.to]
    &&& forall|a: int| 4096 <= a < p.to || p.to + p.size <= a < n ==> #[trigger] img[a] == 0
}

proof fn fields_are_read(f: Seq<u8>, fields: Seq<u32>, p: Payload, n: int)
    requires
        holds(f, fields, p, n),
    ensures
        crate::ciphers::header_field(f, 0) == p.key,
        crate::ciphers::header_field(f, 1) == fields[1],
        crate::ciphers::header_field(f, 3) == p.to,
        crate::ciphers::header_field(f, 4).wrapping_add(4096) == p.from,
        crate::ciphers::header_field(f, 5) == p.size,
        enciphered(f) == 4 * p.words.len(),
{
    sealed_header_is_read(f, fields, 0);
    sealed_header_is_read(f, fields, 1);
    sealed_header_is_read(f, fields, 3);
    sealed_header_is_read(f, fields, 4);
    sealed_header_is_read(f, fields, 5);
    sealed_header_is_read(f, fields, 6);
}

proof fn words_are_loaded(s: Seq<u8>, f: Seq<u8>, fields: Seq<u32>, p: Payload, n: int)
    requires
        holds(f, fields, p, n),
        s.len() == n,
    ensures
        with_words(s, f) matches Ok(v) && v.len() == n && (forall|i: int|
            0 <= i < p.words.len() ==> #[trigger] le32(v, p.to + 4 * i) == p.words[i]) && (forall|
            a: int,
        |
            0 <= a < n && !(p.to <= a < p.to + 4 * p.words.len()) ==> #[trigger] v[a] == s[a]),
{
    fields_are_read(f, fields, p, n);
    let m = p.words.len();
    let size = (4 * m) as u32;
    four_by_shifts(size, m as u32);
    let key = p.key.wrapping_add(!size);
    assert(key == p.key.wrapping_add(u32::MAX).wrapping_sub(size));
    sealed_payload_is_loaded(s, f, p.to, p.from, p.words, key, m);
    assert forall|i: int| 0 <= i < m implies #[trigger] word_in_range(s, f, p.to, p.from, i) by {
        assert((i as u32).wrapping_mul(4) == 4 * i);
        assert(word_pos(p.from, i) == p.from + 4 * i);
        assert(word_pos(p.to, i) == p.to + 4 * i);
    }
    assert(data2_in_range(s, f, p.to, p.from, m as int));
}

proof fn payload_is_loaded(s: Seq<u8>, f: Seq<u8>, fields: Seq<u32>, p: Payload, n: int)
    requires
        holds(f, fields, p, n),
        s == zeros(n as nat),
    ensures
        with_payload(s, f) matches Ok(v) && is_loaded(v, f, p, n),
{
    fields_are_read(f, fields, p, n);
    words_are_loaded(s, f, fields, p, n);
    let m = 4 * p.words.len();
    match with_words(s, f) {
        Ok(a) => {
            assert(p.to.wrapping_add(m as u32) == p.to + m);
            assert(p.from.wrapping_add(m as u32) == p.from + m);
            assert(p.size.wrapping_sub(m as u32) == p.size - m);
            let rest = f.subrange(p.from + m, p.from + p.size);
            let b = overlay(a, p.to + m, rest);
            assert(with_rest(a, f) == Ok::<Seq<u8>, crate::error::UnpackError>(b));
            assert(has4(b, p.to));
            write_then_read_32(b, p.to as int, 4096);
            let c = put32(b, p.to as int, 4096);
            let v = overlay(c, 0, f.subrange(0, 4096));
            assert(with_payload(s, f) == Ok::<Seq<u8>, crate::error::UnpackError>(v));
            assert forall|a0: int| 0 <= a0 < 4096 implies #[trigger] v[a0] == f[a0] by {}
            assert(le32(v, p.to as int) == le32(c, p.to as int));
            assert forall|i: int| 1 <= i < p.words.len() implies #[trigger] le32(v, p.to + 4 * i)
                == p.words[i] by {
                assert(le32(a, p.to + 4 * i) == p.words[i]);
                assert(c[p.to + 4 * i] == b[p.to + 4 * i]);
                assert(c[p.to + 4 * i + 1] == b[p.to + 4 * i + 1]);
                assert(c[p.to + 4 * i + 2] == b[p.to + 4 * i + 2]);
                assert(c[p.to + 4 * i + 3] == b[p.to + 4 * i + 3]);
            }
            assert forall|k: int|
                p.to + m <= k < p.to + p.size implies #[trigger] v[k] == f[p.from + k - p.to] by {
                assert(c[k] == b[k]);
                assert(b[k] == rest[k - (p.to + m)]);
            }
            assert forall|k: int|
                4096 <= k < p.to || p.to + p.size <= k < n implies #[trigger] v[k] == 0 by {
                assert(c[k] == b[k]);
                assert(b[k] == a[k]);
                assert(a[k] == s[k]);
            }
        },
        Err(e) => {},
    }
}

/// A file that holds a payload, and a header with a supported magic number and a proper
/// image size, is loaded.
pub proof fn protected_file_is_loaded(
    f: Seq<u8>,
    fields: Seq<u32>,
    p: Payload,
    supported: Seq<u32>,
)
    requires
        le32(f, 60) + 84 <= f.len(),
        0 < le32(f, le32(f, 60) + 80),
        holds(f, fields, p, le32(f, le32(f, 60) + 80) as int),
    ensures
        supported.contains(fields[1]) ==> (loaded(f, supported) matches Ok(v) && is_loaded(
            v.img,
            f,
            p,
            le32(f, le32(f, 60) + 80) as int,
        ) && v.pe_off == le32(f, 60) && v.magic == le16(f, le32(f, 60) + 24)),
        !supported.contains(fields[1]) ==> loaded(f, supported) == Err::<
            LoadedView,
            crate::error::UnpackError,
        >(crate::error::UnpackError::HeaderMagicMismatch { found: fields[1] }),
{
    let pe = le32(f, 60);
    let n = le32(f, pe + 80) as int;
    assert(pe.wrapping_add(80) == pe + 80 && pe.wrapping_add(24) == pe + 24);
    fields_are_read(f, fields, p, n);
    payload_is_loaded(zeros(n as nat), f, fields, p, n);
}

} // verus!
