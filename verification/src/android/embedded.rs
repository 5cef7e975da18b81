//! Metadata that a library carries in its data section.
//!
//! Some builds ship no `global-metadata.dat`. A slim metadata blob is part of
//! the library instead, wrapped in an XOR layer: each of the 64 words of its
//! 0x100-byte header has a key of its own, and what follows is cut into
//! segments, each with one key for all its words. The first two header words are
//! known in the clear, so a library without the blob is recognised at once.
//!
//! The unwrapped blob has its sanity and version fields rewritten to the standard
//! ones, so that it is a well-formed metadata file.

use vstd::prelude::*;

use crate::bits::xor_twice;
use crate::bytes::{le32, peek_u32, poke_u32, put32, sub_vec, write_then_read_32};

verus! {

/// The magic number of a standard metadata file.
pub const STANDARD_MAGIC: u32 = 0xfab1_1baf;

/// The version that fits the blob's record layout.
pub const STANDARD_VERSION: u32 = 24;

/// The first header word in the clear.
pub const FIRST_PROBE: u32 = 0x9732_ca38;

/// The second header word in the clear.
pub const SECOND_PROBE: u32 = 0xbac4_374f;

/// The keys of the XOR layer.
pub struct Keystream {
    /// The key of each header word.
    pub header: Vec<u32>,
    /// Where each segment ends, and its key.
    pub segments: Vec<(u32, u32)>,
}

impl Keystream {
    /// There is a key for each header word, and the segments follow the header
    /// and each other.
    pub open spec fn valid(self) -> bool {
        &&& self.header@.len() == 64
        &&& self.segments@.len() > 0
        &&& forall|i: int| 0 <= i < self.segments@.len() ==> 0x100 <= #[trigger] self.segments@[i].0
        &&& forall|i: int, j: int|
            0 <= i <= j < self.segments@.len() ==> (#[trigger] self.segments@[i]).0 <= (
            #[trigger] self.segments@[j]).0
    }

    /// The size of the wrapped blob.
    pub open spec fn total(self) -> int {
        self.segments@.last().0 as int
    }
}

/// `s` with the word at `o` masked by `key`.
pub open spec fn masked(s: Seq<u8>, o: int, key: u32) -> Seq<u8> {
    put32(s, o, le32(s, o) ^ key)
}

/// `s` with its first `n` words masked.
pub open spec fn header_masked(s: Seq<u8>, keys: Seq<u32>, n: int) -> Seq<u8>
    decreases n,
{
    if n <= 0 {
        s
    } else {
        masked(header_masked(s, keys, n - 1), 4 * (n - 1), keys[n - 1])
    }
}

/// `s` with the words from `o` to `end` masked by `key`.
pub open spec fn run_masked(s: Seq<u8>, o: int, end: int, key: u32) -> Seq<u8>
    decreases end - o,
{
    if o + 4 > end {
        s
    } else {
        run_masked(masked(s, o, key), o + 4, end, key)
    }
}

/// Where segment `n` starts.
pub open spec fn segment_start(list: Seq<(u32, u32)>, n: int) -> int {
    if n <= 0 {
        0x100
    } else {
        list[n - 1].0 as int
    }
}

/// `s` with its first `n` segments masked.
pub open spec fn segments_masked(s: Seq<u8>, list: Seq<(u32, u32)>, n: int) -> Seq<u8>
    decreases n,
{
    if n <= 0 {
        s
    } else {
        run_masked(
            segments_masked(s, list, n - 1),
            segment_start(list, n - 1),
            list[n - 1].0 as int,
            list[n - 1].1,
        )
    }
}

/// `s` through the XOR layer, in either direction.
pub open spec fn layered(s: Seq<u8>, k: Keystream) -> Seq<u8> {
    segments_masked(
        header_masked(s, k.header@, 64),
        k.segments@,
        k.segments@.len() as int,
    )
}

/// `s` with the standard magic and version.
pub open spec fn standardised(s: Seq<u8>) -> Seq<u8> {
    put32(put32(s, 0, STANDARD_MAGIC), 4, STANDARD_VERSION)
}

/// Whether a wrapped header starts at `o`.
pub open spec fn probed(s: Seq<u8>, k: Keystream, o: int) -> bool {
    &&& le32(s, o) ^ k.header@[0] == FIRST_PROBE
    &&& le32(s, o + 4) ^ k.header@[1] == SECOND_PROBE
}

/// The first multiple of four from `o` on at which a wrapped header starts.
pub open spec fn header_from(s: Seq<u8>, k: Keystream, o: int) -> Option<int>
    decreases s.len() - o,
{
    if o + 8 > s.len() {
        None
    } else if probed(s, k, o) {
        Some(o)
    } else {
        header_from(s, k, o + 4)
    }
}

/// The metadata file in `image`.
pub open spec fn embedded_in(image: Seq<u8>, k: Keystream) -> Option<Seq<u8>> {
    match header_from(image, k, 0) {
        None => None,
        Some(o) => if o + k.total() > image.len() {
            None
        } else {
            Some(standardised(layered(image.subrange(o, o + k.total()), k)))
        },
    }
}

/// The size of the wrapped blob: where the last segment ends.
pub fn embedded_metadata_size(keys: &Keystream) -> (r: usize)
    requires
        keys.valid(),
    ensures
        r == keys.total(),
{
    keys.segments[keys.segments.len() - 1].0 as usize
}

/// Find a wrapped header.
fn find_wrapped_header(image: &[u8], keys: &Keystream) -> (r: Option<usize>)
    requires
        keys.valid(),
    ensures
        match header_from(image@, *keys, 0) {
            Some(o) => r is Some && r->0 == o && o + 8 <= image@.len(),
            None => r is None,
        },
{
    let mut off: usize = 0;
    while image.len() >= 8 && off <= image.len() - 8
        invariant
            keys.valid(),
            header_from(image@, *keys, off as int) == header_from(image@, *keys, 0),
        decreases image@.len() + 4 - off,
    {
        let first: u32 = match peek_u32(image, off) {
            Some(v) => v,
            None => return None,
        };
        let second: u32 = match peek_u32(image, off + 4) {
            Some(v) => v,
            None => return None,
        };
        if first ^ keys.header[0] == FIRST_PROBE && second ^ keys.header[1] == SECOND_PROBE {
            return Some(off);
        }
        off = off + 4;
    }
    None
}

/// Mask the word at `offset`.
fn xor_word(data: &mut [u8], offset: usize, key: u32)
    requires
        offset + 4 <= old(data)@.len(),
    ensures
        final(data)@ == masked(old(data)@, offset as int, key),
{
    match peek_u32(data, offset) {
        Some(v) => {
            let _ = poke_u32(data, offset, v ^ key);
        },
        None => {},
    }
}

/// Mask the words of one segment.
fn mask_run(data: &mut [u8], start: usize, end: usize, key: u32)
    requires
        end <= old(data)@.len(),
    ensures
        final(data)@ == run_masked(old(data)@, start as int, end as int, key),
        final(data)@.len() == old(data)@.len(),
{
    let mut o: usize = start;
    while end >= 4 && o <= end - 4
        invariant
            end <= data@.len(),
            data@.len() == old(data)@.len(),
            run_masked(data@, o as int, end as int, key) == run_masked(
                old(data)@,
                start as int,
                end as int,
                key,
            ),
        decreases end + 4 - o,
    {
        xor_word(data, o, key);
        o = o + 4;
    }
}

/// The metadata file in `image`, or `None` where it carries none that `keys`
/// unwraps.
pub fn extract_embedded_metadata(image: &[u8], keys: &Keystream) -> (r: Option<Vec<u8>>)
    requires
        keys.valid(),
    ensures
        match embedded_in(image@, *keys) {
            Some(v) => r is Some && r->0@ == v,
            None => r is None,
        },
{
    let total: usize = embedded_metadata_size(keys);
    let offset: usize = match find_wrapped_header(image, keys) {
        Some(v) => v,
        None => return None,
    };
    if total > image.len() - offset {
        return None;
    }
    let mut out: Vec<u8> = sub_vec(image, offset, offset + total);
    let ghost blob = out@;
    let mut i: usize = 0;
    while i < 64
        invariant
            i <= 64,
            keys.valid(),
            total == keys.total(),
            out@.len() == total,
            out@ == header_masked(blob, keys.header@, i as int),
        decreases 64 - i,
    {
        assert(keys.segments@.last() == keys.segments@[keys.segments@.len() - 1]);
        xor_word(&mut out, 4 * i, keys.header[i]);
        i = i + 1;
    }
    let ghost headed = out@;
    let mut pos: usize = 0x100;
    let mut n: usize = 0;
    while n < keys.segments.len()
        invariant
            n <= keys.segments@.len(),
            keys.valid(),
            total == keys.total(),
            out@.len() == total,
            out@ == segments_masked(headed, keys.segments@, n as int),
            pos == segment_start(keys.segments@, n as int),
        decreases keys.segments@.len() - n,
    {
        let (end, key): (u32, u32) = keys.segments[n];
        assert(keys.segments@[n as int].0 <= keys.segments@[keys.segments@.len() - 1].0);
        mask_run(&mut out, pos, end as usize, key);
        pos = end as usize;
        n = n + 1;
    }
    let _ = poke_u32(&mut out, 0, STANDARD_MAGIC);
    let _ = poke_u32(&mut out, 4, STANDARD_VERSION);
    assert(keys.segments@.last() == keys.segments@[keys.segments@.len() - 1]);
    Some(out)
}

/// Masking a word changes each of its bytes by that of the key, whatever the
/// byte is, and no other byte.
proof fn masked_bytes(s: Seq<u8>, o: int, key: u32, j: int)
    requires
        0 <= o,
        o + 4 <= s.len(),
        0 <= j < s.len(),
    ensures
        masked(s, o, key).len() == s.len(),
        masked(s, o, key)[j] == (if o <= j < o + 4 {
            s[j] ^ ((key >> ((8 * (j - o)) as u32)) as u8)
        } else {
            s[j]
        }),
{
    let a = s[o];
    let b = s[o + 1];
    let c = s[o + 2];
    let d = s[o + 3];
    let v = (a as u32) | ((b as u32) << 8u32) | ((c as u32) << 16u32) | ((d as u32) << 24u32);
    let w = v ^ key;
    assert(w as u8 == a ^ ((key >> 0u32) as u8) && (w >> 8u32) as u8 == b ^ ((key >> 8u32) as u8)
        && (w >> 16u32) as u8 == c ^ ((key >> 16u32) as u8) && (w >> 24u32) as u8 == d ^ ((key
        >> 24u32) as u8)) by (bit_vector)
        requires
            v == (a as u32) | ((b as u32) << 8u32) | ((c as u32) << 16u32) | ((d as u32) << 24u32),
            w == v ^ key,
    ;
}

/// Whether `t` differs from `s` in byte `j` as `v` does from `u`.
spec fn moves_alike(s: Seq<u8>, t: Seq<u8>, u: Seq<u8>, v: Seq<u8>, j: int) -> bool {
    s[j] ^ t[j] == u[j] ^ v[j]
}

proof fn nothing_moves(a: u8, b: u8)
    by (bit_vector)
    ensures
        a ^ a == b ^ b,
{
}

proof fn moves_compose(s: Seq<u8>, t: Seq<u8>, r: Seq<u8>, u: Seq<u8>, v: Seq<u8>, w: Seq<u8>, j: int)
    requires
        moves_alike(s, t, u, v, j),
        moves_alike(t, r, v, w, j),
    ensures
        moves_alike(s, r, u, w, j),
{
    let (a, b, c, d, e, f) = (s[j], t[j], r[j], u[j], v[j], w[j]);
    assert(a ^ c == d ^ f) by (bit_vector)
        requires
            a ^ b == d ^ e,
            b ^ c == e ^ f,
    ;
}

proof fn masked_alike(s: Seq<u8>, u: Seq<u8>, o: int, key: u32, j: int)
    requires
        0 <= o,
        o + 4 <= s.len(),
        s.len() == u.len(),
        0 <= j < s.len(),
    ensures
        masked(s, o, key).len() == s.len(),
        moves_alike(s, masked(s, o, key), u, masked(u, o, key), j),
{
    masked_bytes(s, o, key, j);
    masked_bytes(u, o, key, j);
    let a = s[j];
    let b = u[j];
    let m = (key >> ((8 * (j - o)) as u32)) as u8;
    assert(a ^ (a ^ m) == b ^ (b ^ m) && a ^ a == b ^ b) by (bit_vector);
}

proof fn header_alike(s: Seq<u8>, u: Seq<u8>, keys: Seq<u32>, n: int, j: int)
    requires
        0 <= n,
        4 * n <= s.len(),
        s.len() == u.len(),
        0 <= j < s.len(),
    ensures
        header_masked(s, keys, n).len() == s.len(),
        header_masked(u, keys, n).len() == u.len(),
        moves_alike(s, header_masked(s, keys, n), u, header_masked(u, keys, n), j),
    decreases n,
{
    if n == 0 {
        nothing_moves(s[j], u[j]);
    } else {
        header_alike(s, u, keys, n - 1, j);
        let t = header_masked(s, keys, n - 1);
        let v = header_masked(u, keys, n - 1);
        masked_alike(t, v, 4 * (n - 1), keys[n - 1], j);
        moves_compose(
            s,
            t,
            header_masked(s, keys, n),
            u,
            v,
            header_masked(u, keys, n),
            j,
        );
    }
}

proof fn run_alike(s: Seq<u8>, u: Seq<u8>, o: int, end: int, key: u32, j: int)
    requires
        0 <= o,
        end <= s.len(),
        s.len() == u.len(),
        0 <= j < s.len(),
    ensures
        run_masked(s, o, end, key).len() == s.len(),
        run_masked(u, o, end, key).len() == u.len(),
        moves_alike(s, run_masked(s, o, end, key), u, run_masked(u, o, end, key), j),
        j < o ==> run_masked(s, o, end, key)[j] == s[j],
    decreases end - o,
{
    if o + 4 > end {
        nothing_moves(s[j], u[j]);
    } else {
        let t = masked(s, o, key);
        let v = masked(u, o, key);
        masked_alike(s, u, o, key, j);
        masked_bytes(s, o, key, j);
        run_alike(t, v, o + 4, end, key, j);
        moves_compose(
            s,
            t,
            run_masked(s, o, end, key),
            u,
            v,
            run_masked(u, o, end, key),
            j,
        );
    }
}

proof fn segments_alike(s: Seq<u8>, u: Seq<u8>, k: Keystream, n: int, j: int)
    requires
        k.valid(),
        s.len() == u.len() == k.total(),
        0 <= n <= k.segments@.len(),
        0 <= j < s.len(),
    ensures
        segments_masked(s, k.segments@, n).len() == s.len(),
        segments_masked(u, k.segments@, n).len() == u.len(),
        moves_alike(
            s,
            segments_masked(s, k.segments@, n),
            u,
            segments_masked(u, k.segments@, n),
            j,
        ),
        j < 0x100 ==> segments_masked(s, k.segments@, n)[j] == s[j],
    decreases n,
{
    let list = k.segments@;
    if n == 0 {
        nothing_moves(s[j], u[j]);
    } else {
        segments_alike(s, u, k, n - 1, j);
        assert(list[n - 1].0 <= list[list.len() - 1].0);
        let t = segments_masked(s, list, n - 1);
        let v = segments_masked(u, list, n - 1);
        let o = segment_start(list, n - 1);
        run_alike(t, v, o, list[n - 1].0 as int, list[n - 1].1, j);
        moves_compose(
            s,
            t,
            segments_masked(s, list, n),
            u,
            v,
            segments_masked(u, list, n),
            j,
        );
    }
}

/// The layer changes each byte by a mask that does not depend on the bytes.
proof fn layer_alike(s: Seq<u8>, u: Seq<u8>, k: Keystream, j: int)
    requires
        k.valid(),
        s.len() == u.len() == k.total(),
        0 <= j < s.len(),
    ensures
        layered(s, k).len() == s.len(),
        layered(u, k).len() == u.len(),
        moves_alike(s, layered(s, k), u, layered(u, k), j),
{
    let list = k.segments@;
    assert(list.last() == list[list.len() - 1]);
    assert(s.len() >= 0x100);
    let t = header_masked(s, k.header@, 64);
    let v = header_masked(u, k.header@, 64);
    header_alike(s, u, k.header@, 64, j);
    segments_alike(t, v, k, list.len() as int, j);
    moves_compose(s, t, layered(s, k), u, v, layered(u, k), j);
}

/// The XOR layer undoes itself.
pub proof fn layer_is_an_involution(s: Seq<u8>, k: Keystream)
    requires
        k.valid(),
        s.len() == k.total(),
    ensures
        layered(s, k).len() == s.len(),
        layered(layered(s, k), k) == s,
{
    let t = layered(s, k);
    let list = k.segments@;
    assert(list.last() == list[list.len() - 1]);
    layer_alike(s, s, k, 0);
    assert forall|j: int| 0 <= j < s.len() implies layered(t, k)[j] == s[j] by {
        layer_alike(s, t, k, j);
        let (a, b, c) = (s[j], t[j], layered(t, k)[j]);
        assert(c == a) by (bit_vector)
            requires
                a ^ b == b ^ c,
        ;
    }
    layer_alike(t, t, k, 0);
    assert(layered(t, k) =~= s);
}

/// The layer masks the first two words by their own keys alone.
proof fn layer_of_probe(s: Seq<u8>, k: Keystream, i: int)
    requires
        k.valid(),
        s.len() == k.total(),
        0 <= i < 64,
    ensures
        le32(layered(s, k), 4 * i) == le32(s, 4 * i) ^ k.header@[i],
{
    let list = k.segments@;
    assert(list.last() == list[list.len() - 1]);
    assert(s.len() >= 0x100);
    let t = header_masked(s, k.header@, 64);
    header_alike(s, s, k.header@, 64, 0);
    header_word(s, k.header@, 64, i);
    assert forall|j: int| 0 <= j < 0x100 implies layered(s, k)[j] == t[j] by {
        segments_alike(t, t, k, list.len() as int, j);
    }
}

proof fn header_word(s: Seq<u8>, keys: Seq<u32>, n: int, i: int)
    requires
        0 <= n <= 64,
        0 <= i < 64,
        0x100 <= s.len(),
    ensures
        header_masked(s, keys, n).len() == s.len(),
        le32(header_masked(s, keys, n), 4 * i) == (if i < n {
            le32(s, 4 * i) ^ keys[i]
        } else {
            le32(s, 4 * i)
        }),
    decreases n,
{
    if n > 0 {
        header_word(s, keys, n - 1, i);
        let t = header_masked(s, keys, n - 1);
        if i == n - 1 {
            write_then_read_32(t, 4 * i, le32(t, 4 * i) ^ keys[i]);
        }
    }
}

/// What was wrapped comes back: a library that holds, at a multiple of four and
/// not behind another wrapped header, a blob that starts with the two known
/// words and went through the layer, gives that blob with the standard magic and
/// version.
pub proof fn wrapped_blob_is_extracted(image: Seq<u8>, k: Keystream, plain: Seq<u8>, o: int)
    requires
        k.valid(),
        plain.len() == k.total(),
        le32(plain, 0) == FIRST_PROBE,
        le32(plain, 4) == SECOND_PROBE,
        0 <= o,
        o % 4 == 0,
        o + k.total() <= image.len(),
        image.subrange(o, o + k.total()) == layered(plain, k),
        forall|p: int| 0 <= p < o && p % 4 == 0 ==> !#[trigger] probed(image, k, p),
    ensures
        embedded_in(image, k) == Some(standardised(plain)),
{
    let wrapped = layered(plain, k);
    layer_is_an_involution(plain, k);
    layer_of_probe(plain, k, 0);
    layer_of_probe(plain, k, 1);
    let list = k.segments@;
    assert(list.last() == list[list.len() - 1]);
    assert forall|j: int| 0 <= j < wrapped.len() implies image[o + j] == wrapped[j] by {
        assert(image.subrange(o, o + k.total())[j] == wrapped[j]);
    }
    assert(le32(image, o) == le32(wrapped, 0));
    assert(le32(image, o + 4) == le32(wrapped, 4));
    let (a, b, x, y) = (FIRST_PROBE, SECOND_PROBE, k.header@[0], k.header@[1]);
    xor_twice(a, x, 0, 0, 0, 0);
    xor_twice(b, y, 0, 0, 0, 0);
    assert(probed(image, k, o));
    header_is_first(image, k, 0, o);
}

proof fn header_is_first(s: Seq<u8>, k: Keystream, from: int, o: int)
    requires
        0 <= from <= o,
        from % 4 == 0,
        o % 4 == 0,
        o + 8 <= s.len(),
        probed(s, k, o),
        forall|p: int| 0 <= p < o && p % 4 == 0 ==> !#[trigger] probed(s, k, p),
    ensures
        header_from(s, k, from) == Some(o),
    decreases o - from,
{
    if from < o {
        assert(!probed(s, k, from));
        header_is_first(s, k, from + 4, o);
    }
}

} // verus!
