//! Little-endian fields in byte buffers.
//!
//! The functions that take a `u32` offset expect the field to lie inside the
//! buffer; the `peek_*`, `poke_*` and `try_*` forms test that first.

use vstd::prelude::*;

use crate::error::{BufferOperation, Error};

verus! {

/// The `u16` that the two bytes at `o` spell, low byte first.
pub open spec fn le16(s: Seq<u8>, o: int) -> u16 {
    (s[o] as u16) | ((s[o + 1] as u16) << 8u16)
}

/// The `u32` that the four bytes at `o` spell, low byte first.
pub open spec fn le32(s: Seq<u8>, o: int) -> u32 {
    (s[o] as u32) | ((s[o + 1] as u32) << 8u32) | ((s[o + 2] as u32) << 16u32) | ((s[o + 3] as u32)
        << 24u32)
}

/// The `u64` that the eight bytes at `o` spell, low byte first.
pub open spec fn le64(s: Seq<u8>, o: int) -> u64 {
    (le32(s, o) as u64) | ((le32(s, o + 4) as u64) << 32u64)
}

/// `s` with the two bytes of `v` at `o`, low byte first.
pub open spec fn put16(s: Seq<u8>, o: int, v: u16) -> Seq<u8> {
    s.update(o, v as u8).update(o + 1, (v >> 8u16) as u8)
}

/// `s` with the four bytes of `v` at `o`, low byte first.
pub open spec fn put32(s: Seq<u8>, o: int, v: u32) -> Seq<u8> {
    s.update(o, v as u8).update(o + 1, (v >> 8u32) as u8).update(o + 2, (v >> 16u32) as u8).update(
        o + 3,
        (v >> 24u32) as u8,
    )
}

/// Whether the `n` bytes from `o` on lie inside `s`.
pub open spec fn fits(s: Seq<u8>, o: int, n: int) -> bool {
    0 <= o && o + n <= s.len()
}

/// The `u16` at `o`, if it lies inside `s`.
pub open spec fn opt16(s: Seq<u8>, o: int) -> Option<u16> {
    if fits(s, o, 2) {
        Some(le16(s, o))
    } else {
        None
    }
}

/// The `u32` at `o`, if it lies inside `s`.
pub open spec fn opt32(s: Seq<u8>, o: int) -> Option<u32> {
    if fits(s, o, 4) {
        Some(le32(s, o))
    } else {
        None
    }
}

/// The `u64` at `o`, if it lies inside `s`.
pub open spec fn opt64(s: Seq<u8>, o: int) -> Option<u64> {
    if fits(s, o, 8) {
        Some(le64(s, o))
    } else {
        None
    }
}

/// `s` with the bytes of `t` in place of its own from `o` on.
pub open spec fn overlay(s: Seq<u8>, o: int, t: Seq<u8>) -> Seq<u8> {
    Seq::new(
        s.len(),
        |i: int|
            if o <= i < o + t.len() {
                t[i - o]
            } else {
                s[i]
            },
    )
}

/// `s` with `n` zero bytes from `o` on.
pub open spec fn zeroed(s: Seq<u8>, o: int, n: int) -> Seq<u8> {
    Seq::new(
        s.len(),
        |i: int|
            if o <= i < o + n {
                0u8
            } else {
                s[i]
            },
    )
}

/// `n` zero bytes.
pub open spec fn zeros(n: nat) -> Seq<u8> {
    Seq::new(n, |i: int| 0u8)
}

/// A field that was written reads back, and no other byte changed.
pub proof fn write_then_read_16(s: Seq<u8>, o: int, v: u16)
    requires
        fits(s, o, 2),
    ensures
        le16(put16(s, o, v), o) == v,
        put16(s, o, v).len() == s.len(),
        forall|i: int|
            0 <= i < s.len() && !(o <= i < o + 2) ==> #[trigger] put16(s, o, v)[i] == s[i],
{
    assert(((v as u8) as u16) | ((((v >> 8u16) as u8) as u16) << 8u16) == v) by (bit_vector);
}

/// A field that was written reads back, and no other byte changed.
pub proof fn write_then_read_32(s: Seq<u8>, o: int, v: u32)
    requires
        fits(s, o, 4),
    ensures
        le32(put32(s, o, v), o) == v,
        put32(s, o, v).len() == s.len(),
        forall|i: int|
            0 <= i < s.len() && !(o <= i < o + 4) ==> #[trigger] put32(s, o, v)[i] == s[i],
{
    assert(((v as u8) as u32) | ((((v >> 8u32) as u8) as u32) << 8u32) | ((((v >> 16u32) as u8) as u32)
        << 16u32) | ((((v >> 24u32) as u8) as u32) << 24u32) == v) by (bit_vector);
}

/// Writing back the field that a buffer already holds changes nothing.
pub proof fn read_then_write_32(s: Seq<u8>, o: int)
    requires
        fits(s, o, 4),
    ensures
        put32(s, o, le32(s, o)) == s,
{
    let a = s[o];
    let b = s[o + 1];
    let c = s[o + 2];
    let d = s[o + 3];
    let v = (a as u32) | ((b as u32) << 8u32) | ((c as u32) << 16u32) | ((d as u32) << 24u32);
    assert(v as u8 == a && (v >> 8u32) as u8 == b && (v >> 16u32) as u8 == c && (v >> 24u32) as u8
        == d) by (bit_vector)
        requires
            v == (a as u32) | ((b as u32) << 8u32) | ((c as u32) << 16u32) | ((d as u32) << 24u32),
    ;
    assert(put32(s, o, v) =~= s);
}

/// The little-endian `u16` at `offset`.
pub fn get_u16(data: &[u8], offset: u32) -> (v: u16)
    requires
        fits(data@, offset as int, 2),
    ensures
        v == le16(data@, offset as int),
{
    let i = offset as usize;
    (data[i] as u16) | ((data[i + 1] as u16) << 8u16)
}

/// The little-endian `u32` at `offset`.
pub fn get_u32(data: &[u8], offset: u32) -> (v: u32)
    requires
        fits(data@, offset as int, 4),
    ensures
        v == le32(data@, offset as int),
{
    let i = offset as usize;
    (data[i] as u32) | ((data[i + 1] as u32) << 8u32) | ((data[i + 2] as u32) << 16u32) | ((data[i
        + 3] as u32) << 24u32)
}

/// The little-endian `u64` at `offset`.
pub fn get_u64(data: &[u8], offset: u32) -> (v: u64)
    requires
        fits(data@, offset as int, 8),
    ensures
        v == le64(data@, offset as int),
{
    match peek_u64(data, offset as usize) {
        Some(v) => v,
        None => 0,
    }
}

/// Store the low half of `value` at `offset`.
pub fn write_u16(data: &mut [u8], offset: u32, value: u32)
    requires
        fits(old(data)@, offset as int, 2),
    ensures
        final(data)@ == put16(old(data)@, offset as int, value as u16),
{
    let i = offset as usize;
    let v: u16 = #[verifier::truncate]
    (value as u16);
    data[i] = #[verifier::truncate]
    (v as u8);
    data[i + 1] = #[verifier::truncate]
    ((v >> 8u16) as u8);
}

/// Store `value` at `offset`.
pub fn write_u32(data: &mut [u8], offset: u32, value: u32)
    requires
        fits(old(data)@, offset as int, 4),
    ensures
        final(data)@ == put32(old(data)@, offset as int, value),
{
    let i = offset as usize;
    data[i] = #[verifier::truncate]
    (value as u8);
    data[i + 1] = #[verifier::truncate]
    ((value >> 8u32) as u8);
    data[i + 2] = #[verifier::truncate]
    ((value >> 16u32) as u8);
    data[i + 3] = #[verifier::truncate]
    ((value >> 24u32) as u8);
}

/// The `u16` at `off`, or `None` past the end.
pub fn peek_u16(data: &[u8], off: usize) -> (v: Option<u16>)
    ensures
        v == opt16(data@, off as int),
{
    if data.len() < 2 || off > data.len() - 2 {
        return None;
    }
    Some((data[off] as u16) | ((data[off + 1] as u16) << 8u16))
}

/// The `u32` at `off`, or `None` past the end.
pub fn peek_u32(data: &[u8], off: usize) -> (v: Option<u32>)
    ensures
        v == opt32(data@, off as int),
{
    if data.len() < 4 || off > data.len() - 4 {
        return None;
    }
    Some(
        (data[off] as u32) | ((data[off + 1] as u32) << 8u32) | ((data[off + 2] as u32) << 16u32) | ((
        data[off + 3] as u32) << 24u32),
    )
}

/// The `u64` at `off`, or `None` past the end.
pub fn peek_u64(data: &[u8], off: usize) -> (v: Option<u64>)
    ensures
        v == opt64(data@, off as int),
{
    if data.len() < 8 || off > data.len() - 8 {
        return None;
    }
    match (peek_u32(data, off), peek_u32(data, off + 4)) {
        (Some(lo), Some(hi)) => Some((lo as u64) | ((hi as u64) << 32u64)),
        _ => None,
    }
}

/// Store `v` at `off`; past the end nothing is stored and `false` comes back.
pub fn poke_u16(data: &mut [u8], off: usize, v: u16) -> (ok: bool)
    ensures
        ok == fits(old(data)@, off as int, 2),
        final(data)@ == (if ok {
            put16(old(data)@, off as int, v)
        } else {
            old(data)@
        }),
{
    if data.len() < 2 || off > data.len() - 2 {
        return false;
    }
    data[off] = #[verifier::truncate]
    (v as u8);
    data[off + 1] = #[verifier::truncate]
    ((v >> 8u16) as u8);
    true
}

/// Store `v` at `off`; past the end nothing is stored and `false` comes back.
pub fn poke_u32(data: &mut [u8], off: usize, v: u32) -> (ok: bool)
    ensures
        ok == fits(old(data)@, off as int, 4),
        final(data)@ == (if ok {
            put32(old(data)@, off as int, v)
        } else {
            old(data)@
        }),
{
    if data.len() < 4 || off > data.len() - 4 {
        return false;
    }
    data[off] = #[verifier::truncate]
    (v as u8);
    data[off + 1] = #[verifier::truncate]
    ((v >> 8u32) as u8);
    data[off + 2] = #[verifier::truncate]
    ((v >> 16u32) as u8);
    data[off + 3] = #[verifier::truncate]
    ((v >> 24u32) as u8);
    true
}

/// The error that a read or copy of `size` bytes at `offset` ends in.
pub open spec fn range_error(
    operation: BufferOperation,
    offset: usize,
    size: usize,
    buffer_len: usize,
) -> Error {
    Error::BufferRangeOutOfBounds { operation, offset, size, buffer_len }
}

/// The `u32` at `off`, or a range error past the end.
pub fn try_u32(d: &[u8], off: usize) -> (r: Result<u32, Error>)
    ensures
        r == (match opt32(d@, off as int) {
            Some(v) => Ok::<u32, Error>(v),
            None => Err(range_error(BufferOperation::Read, off, 4, d@.len() as usize)),
        }),
{
    match peek_u32(d, off) {
        Some(v) => Ok(v),
        None => Err(
            Error::BufferRangeOutOfBounds {
                operation: BufferOperation::Read,
                offset: off,
                size: 4,
                buffer_len: d.len(),
            },
        ),
    }
}

/// The `i32` at `off`, or a range error past the end.
pub fn try_i32(d: &[u8], off: usize) -> (r: Result<i32, Error>)
    ensures
        r == (match opt32(d@, off as int) {
            Some(v) => Ok::<i32, Error>(v as i32),
            None => Err(range_error(BufferOperation::Read, off, 4, d@.len() as usize)),
        }),
{
    match try_u32(d, off) {
        Ok(v) => Ok(
            #[verifier::truncate]
            (v as i32),
        ),
        Err(e) => Err(e),
    }
}

/// Copy `dst_len` bytes from `src_off` of `src` to `dst_off` of `dst`.
///
/// A range that does not fit is reported for the side that it leaves, the
/// destination first, and then nothing is copied. A range whose end is no
/// `usize` counts as leaving its side before either length is looked at.
pub fn try_copy_from_slice(
    dst: &mut [u8],
    dst_off: usize,
    dst_len: usize,
    src: &[u8],
    src_off: usize,
) -> (r: Result<(), Error>)
    ensures
        ({
            let dst_bad = dst_off + dst_len > old(dst)@.len();
            let dst_over = dst_off + dst_len > usize::MAX;
            let src_bad = src_off + dst_len > src@.len();
            let src_over = src_off + dst_len > usize::MAX;
            let dst_err = range_error(
                BufferOperation::CopyDestination,
                dst_off,
                dst_len,
                old(dst)@.len() as usize,
            );
            let src_err = range_error(
                BufferOperation::CopySource,
                src_off,
                dst_len,
                src@.len() as usize,
            );
            &&& r == (if dst_over {
                Err::<(), Error>(dst_err)
            } else if src_over {
                Err(src_err)
            } else if dst_bad {
                Err(dst_err)
            } else if src_bad {
                Err(src_err)
            } else {
                Ok(())
            })
            &&& final(dst)@ == (if r is Ok {
                overlay(old(dst)@, dst_off as int, src@.subrange(src_off as int, src_off + dst_len))
            } else {
                old(dst)@
            })
        }),
{
    let dst_range = dst_off.checked_add(dst_len);
    let dst_error = Error::BufferRangeOutOfBounds {
        operation: BufferOperation::CopyDestination,
        offset: dst_off,
        size: dst_len,
        buffer_len: dst.len(),
    };
    let src_error = Error::BufferRangeOutOfBounds {
        operation: BufferOperation::CopySource,
        offset: src_off,
        size: dst_len,
        buffer_len: src.len(),
    };
    let dst_end: usize = match dst_range {
        Some(e) => e,
        None => return Err(dst_error),
    };
    let src_end: usize = match src_off.checked_add(dst_len) {
        Some(e) => e,
        None => return Err(src_error),
    };
    if dst_end > dst.len() {
        return Err(dst_error);
    }
    if src_end > src.len() {
        return Err(src_error);
    }
    copy_bytes(dst, dst_off, src, src_off, dst_len);
    Ok(())
}

/// Copy `n` bytes from `src_off` of `src` to `dst_off` of `dst`.
pub fn copy_bytes(dst: &mut [u8], dst_off: usize, src: &[u8], src_off: usize, n: usize)
    requires
        dst_off + n <= old(dst)@.len(),
        src_off + n <= src@.len(),
    ensures
        final(dst)@ == overlay(
            old(dst)@,
            dst_off as int,
            src@.subrange(src_off as int, src_off + n),
        ),
{
    let dst_len: usize = dst.len();
    let src_len: usize = src.len();
    let mut k: usize = 0;
    while k < n
        invariant
            k <= n,
            dst_off + n <= dst_len,
            dst@.len() == dst_len == old(dst)@.len(),
            src_off + n <= src_len,
            src_len == src@.len(),
            dst@ =~= overlay(
                old(dst)@,
                dst_off as int,
                src@.subrange(src_off as int, src_off + k),
            ),
        decreases n - k,
    {
        let b: u8 = src[src_off + k];
        dst[dst_off + k] = b;
        k = k + 1;
    }
}

/// Set `n` bytes from `off` on to zero.
pub fn clear_bytes(dst: &mut [u8], off: usize, n: usize)
    requires
        off + n <= old(dst)@.len(),
    ensures
        final(dst)@ == zeroed(old(dst)@, off as int, n as int),
{
    let dst_len: usize = dst.len();
    let mut k: usize = 0;
    while k < n
        invariant
            k <= n,
            off + n <= dst_len,
            dst@.len() == dst_len == old(dst)@.len(),
            dst@ =~= zeroed(old(dst)@, off as int, k as int),
        decreases n - k,
    {
        dst[off + k] = 0;
        k = k + 1;
    }
}

/// A copy of the bytes `from..to` of `s`.
pub fn sub_vec(s: &[u8], from: usize, to: usize) -> (v: Vec<u8>)
    requires
        from <= to <= s@.len(),
    ensures
        v@ == s@.subrange(from as int, to as int),
{
    vstd::slice::slice_to_vec(vstd::slice::slice_subrange(s, from, to))
}

/// A buffer of `n` zero bytes.
pub fn zero_vec(n: usize) -> (v: Vec<u8>)
    ensures
        v@ == zeros(n as nat),
{
    let v: Vec<u8> = vec![0u8; n];
    assert(v@ =~= zeros(n as nat));
    v
}

/// Whether `a` and `b` hold the same bytes.
pub fn same_bytes(a: &[u8], b: &[u8]) -> (r: bool)
    ensures
        r == (a@ == b@),
{
    if a.len() != b.len() {
        return false;
    }
    let mut i: usize = 0;
    while i < a.len()
        invariant
            i <= a@.len(),
            a@.len() == b@.len(),
            forall|k: int| 0 <= k < i ==> a@[k] == b@[k],
        decreases a@.len() - i,
    {
        if a[i] != b[i] {
            return false;
        }
        i = i + 1;
    }
    assert(a@ =~= b@);
    true
}

} // verus!
