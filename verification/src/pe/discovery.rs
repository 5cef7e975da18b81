//! Locators for the parts of a protected image.
//!
//! Positions are 32-bit: an image is at most 4 GiB.

use vstd::prelude::*;

use crate::bytecode::{parse_bytecode_check, rotate_left, rotl8, transform_at};
use crate::bytes::{fits, le32, peek_u32, sub_vec};
use crate::ciphers::{lfsr_byte, lfsr_keystream, lfsr_stream};

verus! {

/// The largest buffer whose positions are 32-bit.
pub const MAX_POSITIONS: u64 = 0x1_0000_0000;

/// Whether positions in `s` are 32-bit.
pub open spec fn addressable(s: Seq<u8>) -> bool {
    s.len() <= MAX_POSITIONS
}

/// Whether `pat` stands at `i` of `s`.
pub open spec fn stands_at(s: Seq<u8>, pat: Seq<u8>, i: int) -> bool {
    0 <= i && i + pat.len() <= s.len() && s.subrange(i, i + pat.len()) == pat
}

/// The first position in `i..=last` at which `pat` stands.
pub open spec fn first_in(s: Seq<u8>, pat: Seq<u8>, i: int, last: int) -> Option<int>
    decreases last + 1 - i,
{
    if i > last {
        None
    } else if stands_at(s, pat, i) {
        Some(i)
    } else {
        first_in(s, pat, i + 1, last)
    }
}

/// The last position in `first..=i` at which `pat` stands.
pub open spec fn last_in(s: Seq<u8>, pat: Seq<u8>, first: int, i: int) -> Option<int>
    decreases i + 1 - first,
{
    if i < first {
        None
    } else if stands_at(s, pat, i) {
        Some(i)
    } else {
        last_in(s, pat, first, i - 1)
    }
}

/// The first position from `i` on, at most `end`, whose byte is not `b`.
pub open spec fn past(s: Seq<u8>, b: u8, i: int, end: int) -> int
    decreases end - i,
{
    if i >= end || s[i] != b {
        i
    } else {
        past(s, b, i + 1, end)
    }
}

/// The end of the region of `len` bytes at `base`.
pub open spec fn region_end(base: u32, len: u32) -> int {
    if base + len > u32::MAX {
        u32::MAX as int
    } else {
        base + len
    }
}

/// `48 EB 01 B9`.
pub open spec fn jump_mov() -> Seq<u8> {
    seq![0x48u8, 0xEBu8, 0x01u8, 0xB9u8]
}

/// The position behind the last `48 EB 01 B9` of the region and the `CC` bytes
/// that follow it, if four more bytes of the region stand there.
pub open spec fn v_after_pad(s: Seq<u8>, base: u32, len: u32) -> Option<u32> {
    let end = region_end(base, len);
    if end > s.len() {
        None
    } else {
        match last_in(s, jump_mov(), base as int, end - 4) {
            None => None,
            Some(p) => {
                let after = past(s, 0xCC, p + 4, end);
                if after + 4 > end {
                    None
                } else {
                    Some(after as u32)
                }
            },
        }
    }
}

/// Whether `pat` stands at `i` of `data`.
fn found_at(data: &[u8], pat: &[u8], i: usize) -> (r: bool)
    requires
        i + pat@.len() <= data@.len(),
    ensures
        r == stands_at(data@, pat@, i as int),
{
    let _len: usize = data.len();
    let mut k: usize = 0;
    while k < pat.len()
        invariant
            k <= pat@.len(),
            i + pat@.len() <= data@.len() <= usize::MAX,
            forall|j: int| 0 <= j < k ==> data@[i + j] == pat@[j],
        decreases pat@.len() - k,
    {
        if data[i + k] != pat[k] {
            assert(data@.subrange(i as int, i + pat@.len())[k as int] == data@[i + k]);
            return false;
        }
        k = k + 1;
    }
    assert(data@.subrange(i as int, i + pat@.len()) =~= pat@);
    true
}

fn end_of(base: u32, len: u32) -> (e: u32)
    ensures
        e == region_end(base, len),
{
    base.saturating_add(len)
}

/// The position behind the last `48 EB 01 B9` in the region and its `CC`
/// padding.
pub fn find_v_after_pad(data: &[u8], base: u32, len: u32) -> (r: Option<u32>)
    ensures
        r == v_after_pad(data@, base, len),
{
    let start: usize = base as usize;
    let end: usize = end_of(base, len) as usize;
    if end > data.len() {
        return None;
    }
    let sig: Vec<u8> = vec![0x48u8, 0xEBu8, 0x01u8, 0xB9u8];
    assert(sig@ =~= jump_mov());
    if end < 4 {
        return None;
    }
    let mut i: usize = end - 3;
    let ghost last = end - 4;
    let mut p: Option<usize> = None;
    while i > start && p.is_none()
        invariant
            start == base,
            4 <= end <= data@.len(),
            i <= end - 3,
            sig@ == jump_mov(),
            last == end - 4,
            match p {
                None => last_in(data@, jump_mov(), start as int, last) == last_in(
                    data@,
                    jump_mov(),
                    start as int,
                    i - 1,
                ),
                Some(q) => last_in(data@, jump_mov(), start as int, last) == Some(q as int) && q
                    + 4 <= end,
            },
        decreases i,
    {
        i = i - 1;
        if found_at(data, &sig, i) {
            p = Some(i);
        }
    }
    match p {
        None => None,
        Some(q) => {
            let mut after: usize = q + 4;
            let ghost at = after as int;
            while after < end && data[after] == 0xCC
                invariant
                    after <= end <= data@.len(),
                    past(data@, 0xCC, at, end as int) == past(data@, 0xCC, after as int, end as int),
                decreases end - after,
            {
                after = after + 1;
            }
            if end - after < 4 {
                None
            } else {
                Some(after as u32)
            }
        },
    }
}

/// The position-keyed byte cipher at position `i`.
pub open spec fn byte5(b: u8, i: int) -> u8 {
    let a = i as u8;
    rotl8(rotl8(rotl8(b, 2) ^ a.wrapping_add(1), 2) ^ a, 2)
}

/// `s` with the `n` bytes at `va` deciphered by position.
pub open spec fn data5(s: Seq<u8>, va: int, n: int) -> Seq<u8> {
    Seq::new(
        s.len(),
        |i: int|
            if va <= i < va + n {
                byte5(s[i], i)
            } else {
                s[i]
            },
    )
}

/// Whether the `n` bytes at `va` lie inside `s` at 32-bit positions.
pub open spec fn reach5(s: Seq<u8>, va: u32, n: u32) -> bool {
    n == 0 || (va + n <= s.len() && va + n - 1 <= u32::MAX)
}

/// The word that deciphering by position would leave at `va`.
pub open spec fn trial5(s: Seq<u8>, va: u32) -> u32 {
    le32(data5(s, va as int, 4), va as int)
}

/// The word at `va` after deciphering by position does not depend on how many
/// bytes around it are deciphered.
pub proof fn trial_is_what_deciphering_leaves(s: Seq<u8>, from: u32, n: u32, va: u32)
    requires
        reach5(s, from, n),
        from <= va,
        va + 4 <= from + n,
    ensures
        trial5(s, va) == le32(data5(s, from as int, n as int), va as int),
{
}

fn byte5_exec(b: u8, i: usize) -> (r: u8)
    ensures
        r == byte5(b, i as int),
{
    let a: u8 = #[verifier::truncate]
    (i as u8);
    rotate_left(rotate_left(rotate_left(b, 2) ^ a.wrapping_add(1), 2) ^ a, 2)
}

/// Decipher the `n` bytes at `va` by position; outside the buffer `false` comes
/// back and nothing is done.
pub fn decrypt_data5_checked(d: &mut [u8], va: u32, n: u32) -> (ok: bool)
    ensures
        ok == reach5(old(d)@, va, n),
        final(d)@ == (if ok {
            data5(old(d)@, va as int, n as int)
        } else {
            old(d)@
        }),
{
    if n == 0 {
        assert(data5(d@, va as int, 0) =~= d@);
        return true;
    }
    let len: usize = d.len();
    let from: usize = va as usize;
    if from > len || n as usize > len - from || n - 1 > 0xFFFF_FFFF - va {
        return false;
    }
    let m: usize = n as usize;
    let mut k: usize = 0;
    while k < m
        invariant
            k <= m,
            from + m <= len,
            len == d@.len(),
            d@ =~= data5(old(d)@, from as int, k as int),
            old(d)@.len() == len,
        decreases m - k,
    {
        let b: u8 = d[from + k];
        d[from + k] = byte5_exec(b, from + k);
        k = k + 1;
    }
    true
}

/// The word that deciphering by position would leave at `va`; the buffer stays
/// as it is.
pub fn trial_decrypt5_u32(data: &[u8], va: u32) -> (r: u32)
    requires
        reach5(data@, va, 4),
    ensures
        r == trial5(data@, va),
{
    let i: usize = va as usize;
    let _len: usize = data.len();
    let a: u8 = byte5_exec(data[i], i);
    let b: u8 = byte5_exec(data[i + 1], i + 1);
    let c: u8 = byte5_exec(data[i + 2], i + 2);
    let d: u8 = byte5_exec(data[i + 3], i + 3);
    (a as u32) | ((b as u32) << 8u32) | ((c as u32) << 16u32) | ((d as u32) << 24u32)
}

/// The first `n` bytes of the bytecode block at `p`, deciphered.
pub open spec fn plain_block(s: Seq<u8>, p: int, n: int) -> Seq<u8> {
    Seq::new(n as nat, |i: int| s[p + i] ^ lfsr_byte(i as nat))
}

/// Whether a bytecode block of at least eight bytes and four instructions
/// stands at `p` and ends by `end`.
pub open spec fn is_bytecode_block(s: Seq<u8>, p: int, end: int) -> bool {
    let n = s[p + 95] as int;
    n >= 8 && p + n <= end && (match transform_at(plain_block(s, p, n), 0) {
        Some(ops) => ops.len() >= 4,
        None => false,
    })
}

/// The first bytecode block from `p` on, in steps of sixteen, that ends by
/// `end`.
pub open spec fn bytecode_from(s: Seq<u8>, p: int, end: int) -> Option<u32>
    decreases end - p,
{
    if p + 96 > end {
        None
    } else if is_bytecode_block(s, p, end) {
        Some(p as u32)
    } else {
        bytecode_from(s, p + 16, end)
    }
}

/// The first bytecode block of a region, sixteen or a multiple of sixteen bytes
/// in.
pub open spec fn bytecode_offset(s: Seq<u8>, base: u32, len: u32) -> Option<u32> {
    let end = region_end(base, len);
    if end > s.len() {
        None
    } else {
        bytecode_from(s, base + 16, end)
    }
}

fn decipher_block(data: &[u8], p: usize, n: usize, ks: &Vec<u8>) -> (v: Vec<u8>)
    requires
        n <= 256,
        p + n <= data@.len(),
        ks@ == lfsr_stream(256),
    ensures
        v@ == plain_block(data@, p as int, n as int),
{
    let _len: usize = data.len();
    let mut v: Vec<u8> = Vec::new();
    let mut i: usize = 0;
    while i < n
        invariant
            i <= n <= 256,
            p + n <= data@.len() <= usize::MAX,
            ks@ == lfsr_stream(256),
            v@ =~= plain_block(data@, p as int, i as int),
        decreases n - i,
    {
        v.push(data[p + i] ^ ks[i]);
        i = i + 1;
    }
    v
}

fn keystream() -> (ks: Vec<u8>)
    ensures
        ks@ == lfsr_stream(256),
{
    let mut ks: Vec<u8> = vec![0u8; 256];
    lfsr_keystream(&mut ks);
    ks
}

/// The first position of a region, in steps of sixteen, at which a bytecode
/// block stands.
pub fn find_bytecode_offset(data: &[u8], base: u32, len: u32) -> (r: Option<u32>)
    ensures
        r == bytecode_offset(data@, base, len),
{
    let end32: u32 = end_of(base, len);
    let end: usize = end32 as usize;
    if end > data.len() {
        return None;
    }
    let ks: Vec<u8> = keystream();
    if len < 112 || end < 112 {
        return None;
    }
    let mut p: usize = base as usize;
    if end - p < 112 {
        return None;
    }
    p = p + 16;
    let ghost first = p as int;
    while end >= 96 && p <= end - 96
        invariant
            end == region_end(base, len),
            first == base + 16,
            end <= data@.len(),
            ks@ == lfsr_stream(256),
            p <= end,
            bytecode_from(data@, first, end as int) == bytecode_from(data@, p as int, end as int),
        decreases end - p,
    {
        let n: usize = data[p + 95] as usize;
        if n >= 8 && n <= end - p {
            let plain: Vec<u8> = decipher_block(data, p, n, &ks);
            if let Some(count) = parse_bytecode_check(&plain) {
                if count >= 4 {
                    return Some(p as u32);
                }
            }
        }
        p = p + 16;
    }
    None
}

/// The position behind the last byte of `from..i` that is not zero, or `from`.
pub open spec fn trimmed(s: Seq<u8>, from: int, i: int) -> int
    decreases i - from,
{
    if i <= from || s[i - 1] != 0 {
        i
    } else {
        trimmed(s, from, i - 1)
    }
}

/// `C3 CC CC CC`.
pub open spec fn ret_pad() -> Seq<u8> {
    seq![0xC3u8, 0xCCu8, 0xCCu8, 0xCCu8]
}

/// The last word of the region, at a multiple of four, that is not zero, if
/// `C3 CC CC CC` stands in front of it inside the region.
pub open spec fn v4_offset(s: Seq<u8>, base: u32, len: u32) -> Option<u32> {
    let start = base as int;
    let end = region_end(base, len);
    if end > s.len() || end < start + 4 {
        None
    } else {
        let i = trimmed(s, start, end);
        if i < start + 4 {
            None
        } else {
            let v = (i + 3) / 4 * 4 - 4;
            if v < start + 4 || !stands_at(s, ret_pad(), v - 4) {
                None
            } else {
                Some(v as u32)
            }
        }
    }
}

/// The last word of the region that is not zero, behind `C3 CC CC CC`.
pub fn find_v4_offset(data: &[u8], base: u32, len: u32) -> (r: Option<u32>)
    ensures
        r == v4_offset(data@, base, len),
{
    let start: usize = base as usize;
    let end: usize = end_of(base, len) as usize;
    if end > data.len() || end - start < 4 {
        return None;
    }
    let mut i: usize = end;
    while i > start && data[i - 1] == 0
        invariant
            start <= i <= end,
            end <= data@.len(),
            trimmed(data@, start as int, end as int) == trimmed(data@, start as int, i as int),
        decreases i,
    {
        i = i - 1;
    }
    if i - start < 4 {
        return None;
    }
    let rest: usize = i % 4;
    let v: usize = if rest == 0 {
        i - 4
    } else {
        i - rest
    };
    assert(v == (i + 3) / 4 * 4 - 4);
    if v < start || v - start < 4 {
        return None;
    }
    let pat: Vec<u8> = vec![0xC3u8, 0xCCu8, 0xCCu8, 0xCCu8];
    assert(pat@ =~= ret_pad());
    if !found_at(data, &pat, v - 4) {
        return None;
    }
    Some(v as u32)
}

/// The first position of the region at which `needle` stands.
pub open spec fn str_pos(s: Seq<u8>, base: u32, len: u32, needle: Seq<u8>) -> Option<u32> {
    let end = region_end(base, len);
    if end > s.len() || needle.len() == 0 {
        None
    } else {
        match first_in(s, needle, base as int, end - needle.len()) {
            Some(i) => Some(i as u32),
            None => None,
        }
    }
}

/// The first position of the region at which `needle` stands.
pub fn find_str_pos(data: &[u8], base: u32, len: u32, needle: &[u8]) -> (r: Option<u32>)
    ensures
        r == str_pos(data@, base, len, needle@),
{
    let start: usize = base as usize;
    let end: usize = end_of(base, len) as usize;
    let m: usize = needle.len();
    if end > data.len() || m == 0 || m > end - start {
        return None;
    }
    let last: usize = end - m;
    let mut i: usize = start;
    while i <= last
        invariant
            start == base,
            m == needle@.len(),
            m > 0,
            start <= i <= last + 1,
            last + m == end,
            end == region_end(base, len),
            end <= data@.len(),
            first_in(data@, needle@, start as int, last as int) == first_in(
                data@,
                needle@,
                i as int,
                last as int,
            ),
        decreases last + 1 - i,
    {
        if found_at(data, needle, i) {
            return Some(i as u32);
        }
        i = i + 1;
    }
    None
}

/// Whether every byte is an ASCII one.
pub open spec fn is_ascii(bytes: Seq<u8>) -> bool {
    forall|i: int| 0 <= i < bytes.len() ==> bytes[i] < 128
}

/// ASCII bytes as text.
pub open spec fn as_chars(bytes: Seq<u8>) -> Seq<char> {
    Seq::new(bytes.len(), |i: int| bytes[i] as char)
}

/// The text that `String::from_utf8_lossy` makes of `bytes`.
pub uninterp spec fn utf8_lossy(bytes: Seq<u8>) -> Seq<char>;

/// `String::from_utf8_lossy`, as an owned string. Claimed of it: the text is a
/// function of the bytes, and ASCII bytes stand for themselves.
#[verifier::external_body]
pub(crate) fn lossy_string(bytes: &[u8]) -> (r: String)
    ensures
        r@ == utf8_lossy(bytes@),
        is_ascii(bytes@) ==> r@ == as_chars(bytes@),
{
    String::from_utf8_lossy(bytes).into_owned()
}

/// The first zero byte from `i` on, or `end`.
pub open spec fn nul_from(s: Seq<u8>, i: int, end: int) -> int
    decreases end - i,
{
    if i >= end || s[i] == 0 {
        i
    } else {
        nul_from(s, i + 1, end)
    }
}

/// The bytes of the string at `offset`: up to its zero byte, the end of the
/// buffer, or 4096 bytes.
pub open spec fn string_bytes(s: Seq<u8>, offset: u32) -> Seq<u8> {
    if offset >= s.len() {
        Seq::empty()
    } else {
        let limit = if offset + 4096 <= s.len() {
            offset + 4096
        } else {
            s.len() as int
        };
        s.subrange(offset as int, nul_from(s, offset as int, limit))
    }
}

/// The bytes of the eight-byte name field at `offset` in front of its first
/// zero byte; none where the field leaves the buffer.
pub open spec fn name_bytes(s: Seq<u8>, offset: u32) -> Seq<u8> {
    if fits(s, offset as int, 8) {
        s.subrange(offset as int, nul_from(s, offset as int, offset + 8))
    } else {
        Seq::empty()
    }
}

proof fn nul_from_bounds(s: Seq<u8>, i: int, end: int)
    requires
        i <= end,
    ensures
        i <= nul_from(s, i, end) <= end,
    decreases end - i,
{
    if i < end && s[i] != 0 {
        nul_from_bounds(s, i + 1, end);
    }
}

/// The first zero byte in `i..end`, or `end`.
pub fn find_nul(data: &[u8], from: usize, end: usize) -> (r: usize)
    requires
        from <= end <= data@.len(),
    ensures
        r == nul_from(data@, from as int, end as int),
        from <= r <= end,
{
    let mut i: usize = from;
    while i < end && data[i] != 0
        invariant
            from <= i <= end,
            end <= data@.len(),
            nul_from(data@, from as int, end as int) == nul_from(data@, i as int, end as int),
        decreases end - i,
    {
        i = i + 1;
    }
    i
}

/// The bytes of the string at `offset`.
pub fn string_bytes_at(data: &[u8], offset: u32) -> (v: Vec<u8>)
    ensures
        v@ == string_bytes(data@, offset),
{
    let start: usize = offset as usize;
    if start >= data.len() {
        let v: Vec<u8> = Vec::new();
        assert(v@ =~= string_bytes(data@, offset));
        return v;
    }
    let limit: usize = if data.len() - start >= 4096 {
        start + 4096
    } else {
        data.len()
    };
    let end: usize = find_nul(data, start, limit);
    sub_vec(data, start, end)
}

/// The bytes of the section name at `offset`.
pub fn name_bytes_at(data: &[u8], offset: u32) -> (v: Vec<u8>)
    ensures
        v@ == name_bytes(data@, offset),
{
    let start: usize = offset as usize;
    if data.len() < 8 || start > data.len() - 8 {
        let v: Vec<u8> = Vec::new();
        assert(v@ =~= name_bytes(data@, offset));
        return v;
    }
    let end: usize = find_nul(data, start, start + 8);
    sub_vec(data, start, end)
}

/// The string at `offset`, at most 4096 bytes of it, invalid UTF-8 replaced.
pub fn get_string_to_null(data: &[u8], offset: u32) -> (r: String)
    ensures
        r@ == utf8_lossy(string_bytes(data@, offset)),
        is_ascii(string_bytes(data@, offset)) ==> r@ == as_chars(string_bytes(data@, offset)),
{
    lossy_string(&string_bytes_at(data, offset))
}

/// The section name at `offset`, invalid UTF-8 replaced.
pub fn section_name(data: &[u8], offset: u32) -> (r: String)
    ensures
        r@ == utf8_lossy(name_bytes(data@, offset)),
        is_ascii(name_bytes(data@, offset)) ==> r@ == as_chars(name_bytes(data@, offset)),
{
    lossy_string(&name_bytes_at(data, offset))
}

/// Whether the shell table of a 32-bit image may start 0x88 bytes before `off`.
pub open spec fn is_tbl(s: Seq<u8>, shell: u32, off: u32) -> bool {
    let candidate = off.wrapping_sub(0x88);
    let size = le32(s, off + 4);
    let v58 = le32(s, candidate + 0x58);
    &&& off + 8 <= s.len()
    &&& candidate >= shell
    &&& le32(s, off as int) == shell
    &&& 0x1000 < size < 0x10_0000
    &&& candidate + 0x58 + 4 <= s.len()
    &&& 0 < v58 < s.len()
}

/// The shell table found from `off` on, in steps of four, below `hi`.
pub open spec fn tbl_from(s: Seq<u8>, shell: u32, off: int, hi: int) -> Option<u32>
    decreases hi + 4 - off,
{
    if off >= hi {
        None
    } else if is_tbl(s, shell, off as u32) {
        Some((off as u32).wrapping_sub(0x88))
    } else {
        tbl_from(s, shell, off + 4, hi)
    }
}

/// The shell table of a 32-bit image.
pub open spec fn tbl_pe32(s: Seq<u8>, shell: u32) -> Option<u32> {
    if s.len() < 0x100 {
        None
    } else {
        let limit = s.len() - 0x100;
        tbl_from(
            s,
            shell,
            shell as int,
            if shell + 0x3000 <= limit {
                shell + 0x3000
            } else {
                limit
            },
        )
    }
}

/// Walk the shell of a 32-bit image, at field 6 of its header, for the word that
/// holds that address, with a plausible size behind it and a pointer into the
/// image 0x30 bytes before it; the table starts 0x88 bytes before.
pub fn find_tbl_pe32(data: &[u8], info: &[u32; 8]) -> (r: Option<u32>)
    requires
        addressable(data@),
    ensures
        r == tbl_pe32(data@, info@[6]),
{
    let shell: u32 = info[6];
    let len: usize = data.len();
    if len < 0x100 {
        return None;
    }
    let limit: u64 = len as u64 - 0x100;
    let hi: u64 = if shell as u64 + 0x3000 <= limit {
        shell as u64 + 0x3000
    } else {
        limit
    };
    let mut off: u64 = shell as u64;
    while off < hi
        invariant
            addressable(data@),
            len == data@.len(),
            shell == info@[6],
            shell <= off,
            len >= 0x100,
            hi == (if shell + 0x3000 <= len - 0x100 {
                shell + 0x3000
            } else {
                len - 0x100
            }),
            tbl_from(data@, shell, shell as int, hi as int) == tbl_from(
                data@,
                shell,
                off as int,
                hi as int,
            ),
        decreases hi + 4 - off,
    {
        let at: usize = off as usize;
        let candidate: u32 = (off as u32).wrapping_sub(0x88);
        if candidate >= shell {
            let word: Option<u32> = peek_u32(data, at);
            let size: Option<u32> = peek_u32(data, at + 4);
            if (candidate as u64) + 0x5C <= len as u64 {
                let v58: Option<u32> = peek_u32(data, candidate as usize + 0x58);
                match (word, size, v58) {
                    (Some(w), Some(n), Some(v)) => {
                        if w == shell && n > 0x1000 && n < 0x10_0000 && v > 0 && (v as usize) < len {
                            return Some(candidate);
                        }
                    },
                    _ => {},
                }
            }
        }
        off = off + 4;
    }
    None
}

/// Whether a bytecode block of 10 to 95 bytes stands `off` bytes into the region
/// at `base`.
pub open spec fn lfsr_at(s: Seq<u8>, base: u32, off: u32) -> bool {
    let p = base.wrapping_add(off) as int;
    let n = s[p + 95] as int;
    p + 96 <= s.len() && 10 <= n <= 95 && transform_at(plain_block(s, p, n), 0) is Some
}

/// The first bytecode block in `off..hi`.
pub open spec fn lfsr_up(s: Seq<u8>, base: u32, off: int, hi: int) -> Option<u32>
    decreases hi - off,
{
    if off >= hi {
        None
    } else if lfsr_at(s, base, off as u32) {
        Some(off as u32)
    } else {
        lfsr_up(s, base, off + 1, hi)
    }
}

/// The last bytecode block in `lo..=off`.
pub open spec fn lfsr_down(s: Seq<u8>, base: u32, lo: int, off: int) -> Option<u32>
    decreases off + 1 - lo,
{
    if off < lo {
        None
    } else if lfsr_at(s, base, off as u32) {
        Some(off as u32)
    } else {
        lfsr_down(s, base, lo, off - 1)
    }
}

/// The first bytecode block of the region from `start_off` on, or, backward, the
/// last one not before it.
pub open spec fn lfsr_block(
    s: Seq<u8>,
    base: u32,
    size: u32,
    start_off: u32,
    backward: bool,
) -> Option<u32> {
    if size < 96 {
        None
    } else if backward {
        lfsr_down(s, base, start_off as int, size - 96)
    } else {
        lfsr_up(s, base, start_off as int, size - 95)
    }
}

fn is_lfsr(data: &[u8], base: u32, off: u32, ks: &Vec<u8>) -> (r: bool)
    requires
        ks@ == lfsr_stream(256),
    ensures
        r == lfsr_at(data@, base, off),
{
    let p: usize = base.wrapping_add(off) as usize;
    if data.len() < 96 || p > data.len() - 96 {
        return false;
    }
    let n: usize = data[p + 95] as usize;
    if n < 10 || n > 95 {
        return false;
    }
    let plain: Vec<u8> = decipher_block(data, p, n, ks);
    parse_bytecode_check(&plain).is_some()
}

/// Locate a bytecode block in the region of `size` bytes at `base`: the first
/// from `start_off` on, or, backward, the last one not before `start_off`.
pub fn find_lfsr_block(
    data: &[u8],
    base: u32,
    size: u32,
    start_off: u32,
    scan_backward: bool,
) -> (r: Option<u32>)
    ensures
        r == lfsr_block(data@, base, size, start_off, scan_backward),
{
    if size < 96 {
        return None;
    }
    let ks: Vec<u8> = keystream();
    if scan_backward {
        let hi: u32 = size - 96;
        if hi < start_off {
            return None;
        }
        let mut off: u32 = hi;
        loop
            invariant
                size >= 96,
                scan_backward,
                hi == size - 96,
                start_off <= off <= hi,
                ks@ == lfsr_stream(256),
                lfsr_down(data@, base, start_off as int, hi as int) == lfsr_down(
                    data@,
                    base,
                    start_off as int,
                    off as int,
                ),
            decreases off,
        {
            if is_lfsr(data, base, off, &ks) {
                return Some(off);
            }
            if off == start_off {
                assert(lfsr_down(data@, base, start_off as int, off - 1) is None);
                return None;
            }
            off = off - 1;
        }
    } else {
        let hi: u32 = size - 95;
        let mut off: u32 = start_off;
        while off < hi
            invariant
                size >= 96,
                !scan_backward,
                hi == size - 95,
                ks@ == lfsr_stream(256),
                lfsr_up(data@, base, start_off as int, hi as int) == lfsr_up(
                    data@,
                    base,
                    off as int,
                    hi as int,
                ),
            decreases hi - off,
        {
            if is_lfsr(data, base, off, &ks) {
                return Some(off);
            }
            off = off + 1;
        }
        None
    }
}

/// Slots of the last stage of a build without layout markers.
#[derive(Debug, Clone, Copy, PartialEq, Eq, Structural)]
pub struct EighthSlots {
    /// Address of the file decryptor's bytecode block.
    pub file_lfsr: u32,
    /// Address of the slot that points at the block table.
    pub compressed_info_ptr: u32,
}

/// The offsets in `off..hi` at which bytecode blocks stand, ascending.
pub open spec fn lfsr_offsets(s: Seq<u8>, base: u32, hi: int) -> Seq<u32>
    decreases hi,
{
    if hi <= 0 {
        Seq::empty()
    } else if lfsr_at(s, base, (hi - 1) as u32) {
        lfsr_offsets(s, base, hi - 1).push((hi - 1) as u32)
    } else {
        lfsr_offsets(s, base, hi - 1)
    }
}

/// Where the checksum-chain pointer of the block at `off` stands.
pub open spec fn chain_slot(base: u32, off: u32) -> u32 {
    base.wrapping_add((off - 0x58) as u32)
}

/// Whether every block that can have a checksum-chain pointer has it inside `s`.
pub open spec fn chains_inside(s: Seq<u8>, base: u32, offs: Seq<u32>) -> bool {
    forall|k: int|
        0 <= k < offs.len() && #[trigger] offs[k] >= 0x58 ==> fits(
            s,
            chain_slot(base, offs[k]) as int,
            4,
        )
}

/// Whether the block at `off` has a checksum-chain pointer into the image.
pub open spec fn has_chain(s: Seq<u8>, base: u32, off: u32) -> bool {
    off >= 0x58 && 0x1000 < le32(s, chain_slot(base, off) as int) < s.len()
}

/// The block, among the first `n`, whose checksum-chain pointer stands the
/// least behind `info3`, the first of equals.
pub open spec fn nearest_chain(s: Seq<u8>, base: u32, info3: u32, offs: Seq<u32>, n: int) -> Option<
    u32,
>
    decreases n,
{
    if n <= 0 {
        None
    } else {
        let before = nearest_chain(s, base, info3, offs, n - 1);
        let off = offs[n - 1];
        let v = le32(s, chain_slot(base, off) as int);
        if !has_chain(s, base, off) || v < info3 {
            before
        } else {
            match before {
                Some(b) => if v < le32(s, chain_slot(base, b) as int) {
                    Some(off)
                } else {
                    before
                },
                None => Some(off),
            }
        }
    }
}

/// The last block, among the first `n`, with a checksum-chain pointer into the
/// image.
pub open spec fn last_chain(s: Seq<u8>, base: u32, offs: Seq<u32>, n: int) -> Option<u32>
    decreases n,
{
    if n <= 0 {
        None
    } else if has_chain(s, base, offs[n - 1]) {
        Some(offs[n - 1])
    } else {
        last_chain(s, base, offs, n - 1)
    }
}

/// Whether the enciphered record at `p` reads as a block descriptor.
pub open spec fn plausible_record(s: Seq<u8>, p: u32, rebase: u32, file_len: u32) -> bool {
    let src = trial5(s, p);
    let n = trial5(s, (p + 4) as u32);
    let dst = trial5(s, (p + 8) as u32);
    let m = trial5(s, (p + 12) as u32);
    &&& 0 < n < 0x20_0000
    &&& src.wrapping_add(rebase) + n <= file_len
    &&& dst >= 0x1000
    &&& dst + m <= s.len()
    &&& n <= m < 0x20_0000
}

/// What the search for the block-table slot finds.
pub enum SlotSearch {
    /// A slot outside the image was asked for.
    Outside,
    Found(Option<u32>),
}

/// The first slot in `off..lfsr`, in steps of four and not the one at `chain`,
/// that points at a plausible record.
pub open spec fn table_slot(
    s: Seq<u8>,
    base: u32,
    off: int,
    lfsr: int,
    chain: int,
    rebase: u32,
    file_len: u32,
) -> SlotSearch
    decreases lfsr + 4 - off,
{
    if off >= lfsr {
        SlotSearch::Found(None)
    } else if off == chain {
        table_slot(s, base, off + 4, lfsr, chain, rebase, file_len)
    } else {
        let o = base.wrapping_add(off as u32) as int;
        if !fits(s, o, 4) {
            SlotSearch::Outside
        } else {
            let p = le32(s, o);
            if 0x1000 < p && p + 16 < s.len() && plausible_record(s, p, rebase, file_len) {
                SlotSearch::Found(Some(off as u32))
            } else {
                table_slot(s, base, off + 4, lfsr, chain, rebase, file_len)
            }
        }
    }
}

/// The slots of the last stage: `Err` where a slot outside the image is asked
/// for.
pub open spec fn eighth_slots(
    s: Seq<u8>,
    start: u32,
    dsz: u32,
    info3: u32,
    rebase: u32,
    file_len: u32,
) -> Result<Option<EighthSlots>, ()> {
    let offs = lfsr_offsets(s, start, dsz - 95);
    let n = offs.len() as int;
    if !chains_inside(s, start, offs) {
        Err(())
    } else {
        let near = nearest_chain(s, start, info3, offs, n);
        let picked = match near {
            Some(o) => Some(o),
            None => last_chain(s, start, offs, n),
        };
        match picked {
            None => Ok(None),
            Some(lfsr) => {
                let from = if lfsr >= 0x400 {
                    lfsr - 0x400
                } else {
                    0
                };
                match table_slot(s, start, from, lfsr as int, lfsr - 0x58, rebase, file_len) {
                    SlotSearch::Outside => Err(()),
                    SlotSearch::Found(None) => Ok(None),
                    SlotSearch::Found(Some(o)) => Ok(
                        Some(
                            EighthSlots {
                                file_lfsr: start.wrapping_add(lfsr),
                                compressed_info_ptr: start.wrapping_add(o),
                            },
                        ),
                    ),
                }
            },
        }
    }
}

fn list_lfsrs(data: &[u8], base: u32, dsz: u32) -> (v: Vec<u32>)
    ensures
        v@ == lfsr_offsets(data@, base, dsz - 95),
{
    let ks: Vec<u8> = keystream();
    let mut v: Vec<u32> = Vec::new();
    let mut off: u32 = 0;
    if dsz < 95 {
        return v;
    }
    while off < dsz - 95
        invariant
            dsz >= 95,
            off <= dsz - 95,
            ks@ == lfsr_stream(256),
            v@ == lfsr_offsets(data@, base, off as int),
        decreases dsz - 95 - off,
    {
        if is_lfsr(data, base, off, &ks) {
            v.push(off);
        }
        off = off + 1;
    }
    v
}

fn chain_value(data: &[u8], base: u32, off: u32) -> (r: Option<u32>)
    ensures
        off >= 0x58 ==> r == (if fits(data@, chain_slot(base, off) as int, 4) {
            Some(le32(data@, chain_slot(base, off) as int))
        } else {
            None
        }),
        off < 0x58 ==> r == Some(0u32),
{
    if off < 0x58 {
        return Some(0);
    }
    peek_u32(data, base.wrapping_add(off - 0x58) as usize)
}

/// Pick the file decryptor's block; `Err` where a pointer lies outside.
fn pick_chain(data: &[u8], base: u32, info3: u32, offs: &Vec<u32>) -> (r: Result<Option<u32>, ()>)
    ensures
        r == (if !chains_inside(data@, base, offs@) {
            Err::<Option<u32>, ()>(())
        } else {
            let n = offs@.len() as int;
            Ok(
                match nearest_chain(data@, base, info3, offs@, n) {
                    Some(o) => Some(o),
                    None => last_chain(data@, base, offs@, n),
                },
            )
        }),
        r matches Ok(Some(o)) ==> o >= 0x58 && offs@.contains(o),
{
    let len: usize = data.len();
    let mut near: Option<u32> = None;
    let mut near_value: u32 = 0;
    let mut last: Option<u32> = None;
    let mut k: usize = 0;
    while k < offs.len()
        invariant
            k <= offs@.len(),
            len == data@.len(),
            forall|j: int|
                0 <= j < k && #[trigger] offs@[j] >= 0x58 ==> fits(
                    data@,
                    chain_slot(base, offs@[j]) as int,
                    4,
                ),
            near == nearest_chain(data@, base, info3, offs@, k as int),
            last == last_chain(data@, base, offs@, k as int),
            near matches Some(o) ==> o >= 0x58 && near_value == le32(
                data@,
                chain_slot(base, o) as int,
            ) && offs@.contains(o),
            last matches Some(o) ==> o >= 0x58 && offs@.contains(o),
        decreases offs@.len() - k,
    {
        let off: u32 = offs[k];
        assert(offs@.contains(off));
        match chain_value(data, base, off) {
            None => {
                assert(offs@[k as int] >= 0x58);
                return Err(());
            },
            Some(v) => {
                if off >= 0x58 && 0x1000 < v && (v as usize) < len {
                    last = Some(off);
                    if v >= info3 {
                        match near {
                            Some(_) => {
                                if v < near_value {
                                    near = Some(off);
                                    near_value = v;
                                }
                            },
                            None => {
                                near = Some(off);
                                near_value = v;
                            },
                        }
                    }
                }
            },
        }
        k = k + 1;
    }
    match near {
        Some(o) => Ok(Some(o)),
        None => Ok(last),
    }
}

fn record_plausible(data: &[u8], p: u32, rebase: u32, file_len: u32) -> (r: bool)
    requires
        addressable(data@),
        p + 16 <= data@.len(),
    ensures
        r == plausible_record(data@, p, rebase, file_len),
{
    let src: u32 = trial_decrypt5_u32(data, p);
    let n: u32 = trial_decrypt5_u32(data, p + 4);
    let dst: u32 = trial_decrypt5_u32(data, p + 8);
    let m: u32 = trial_decrypt5_u32(data, p + 12);
    n > 0 && n < 0x20_0000 && src.wrapping_add(rebase) as u64 + n as u64 <= file_len as u64 && dst
        >= 0x1000 && dst as u64 + m as u64 <= data.len() as u64 && m >= n && m < 0x20_0000
}

fn find_table_slot(data: &[u8], base: u32, lfsr: u32, rebase: u32, file_len: u32) -> (r: Result<
    Option<u32>,
    (),
>)
    requires
        addressable(data@),
        lfsr >= 0x58,
    ensures
        ({
            let from = if lfsr >= 0x400 {
                lfsr - 0x400
            } else {
                0
            };
            r == (match table_slot(
                data@,
                base,
                from,
                lfsr as int,
                lfsr - 0x58,
                rebase,
                file_len,
            ) {
                SlotSearch::Outside => Err::<Option<u32>, ()>(()),
                SlotSearch::Found(o) => Ok(o),
            })
        }),
{
    let len: usize = data.len();
    let chain: u32 = lfsr - 0x58;
    let from: u64 = lfsr.saturating_sub(0x400) as u64;
    let mut off: u64 = from;
    while off < lfsr as u64
        invariant
            addressable(data@),
            len == data@.len(),
            chain == lfsr - 0x58,
            off <= lfsr + 3,
            table_slot(data@, base, from as int, lfsr as int, chain as int, rebase, file_len)
                == table_slot(
                data@,
                base,
                off as int,
                lfsr as int,
                chain as int,
                rebase,
                file_len,
            ),
            from == (if lfsr >= 0x400 {
                lfsr - 0x400
            } else {
                0
            }),
        decreases lfsr + 4 - off,
    {
        if off != chain as u64 {
            match peek_u32(data, base.wrapping_add(off as u32) as usize) {
                None => {
                    return Err(());
                },
                Some(p) => {
                    if 0x1000 < p && (p as u64) + 16 < len as u64 {
                        if record_plausible(data, p, rebase, file_len) {
                            return Ok(Some(off as u32));
                        }
                    }
                },
            }
        }
        off = off + 4;
    }
    Ok(None)
}

/// [`discover_eighth_slots`] for any image.
pub fn discover_eighth_slots_checked(
    data: &[u8],
    eighth_start: u32,
    eighth_dsz: u32,
    info3: u32,
    compress_data_offset: u32,
    file_data_len: u32,
) -> (r: Result<Option<EighthSlots>, ()>)
    requires
        addressable(data@),
    ensures
        r == eighth_slots(
            data@,
            eighth_start,
            eighth_dsz,
            info3,
            compress_data_offset,
            file_data_len,
        ),
{
    let offs: Vec<u32> = list_lfsrs(data, eighth_start, eighth_dsz);
    let lfsr: u32 = match pick_chain(data, eighth_start, info3, &offs)? {
        Some(o) => o,
        None => return Ok(None),
    };
    match find_table_slot(data, eighth_start, lfsr, compress_data_offset, file_data_len)? {
        None => Ok(None),
        Some(o) => Ok(
            Some(
                EighthSlots {
                    file_lfsr: eighth_start.wrapping_add(lfsr),
                    compressed_info_ptr: eighth_start.wrapping_add(o),
                },
            ),
        ),
    }
}

/// Discover the slots of the last stage of a build without layout markers.
///
/// The file decryptor is the bytecode block whose checksum-chain pointer, 0x58
/// bytes before it, stands least behind `info3`; failing that, the last block
/// with such a pointer into the image. The block table is what the first slot of
/// the 0x400 bytes before the decryptor, other than that pointer, points at, if
/// it reads as a table.
pub fn discover_eighth_slots(
    data: &[u8],
    eighth_start: u32,
    eighth_dsz: u32,
    info3: u32,
    compress_data_offset: u32,
    file_data_len: u32,
) -> (r: Option<EighthSlots>)
    requires
        addressable(data@),
        eighth_slots(
            data@,
            eighth_start,
            eighth_dsz,
            info3,
            compress_data_offset,
            file_data_len,
        ) is Ok,
    ensures
        eighth_slots(
            data@,
            eighth_start,
            eighth_dsz,
            info3,
            compress_data_offset,
            file_data_len,
        ) == Ok::<Option<EighthSlots>, ()>(r),
{
    match discover_eighth_slots_checked(
        data,
        eighth_start,
        eighth_dsz,
        info3,
        compress_data_offset,
        file_data_len,
    ) {
        Ok(r) => r,
        Err(_) => None,
    }
}

} // verus!
