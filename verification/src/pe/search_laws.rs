//! What the searches for patterns, blocks and tables find.

use vstd::prelude::*;

use crate::bytecode::transform_at;
use crate::bytes::le32;
use crate::ciphers::lfsr_byte;
use crate::pe::config64::{
    anchor_from, located, op_table_from, stage2_from, with_directories,
};
use crate::pe::discovery::{
    bytecode_from, bytecode_offset, first_in, last_in, lfsr_at, lfsr_block, lfsr_down, lfsr_offsets,
    lfsr_up, past, plain_block, str_pos, trimmed, v4_offset,
    v_after_pad,
};

verus! {

/// Whether the bytes from `i` on are those of `pat`.
pub open spec fn reads(s: Seq<u8>, i: int, pat: Seq<u8>) -> bool {
    &&& 0 <= i
    &&& i + pat.len() <= s.len()
    &&& forall|k: int| 0 <= k < pat.len() ==> s[i + k] == #[trigger] pat[k]
}

proof fn reading_is_standing(s: Seq<u8>, i: int, pat: Seq<u8>)
    ensures
        reads(s, i, pat) == crate::pe::discovery::stands_at(s, pat, i),
{
    if 0 <= i && i + pat.len() <= s.len() {
        let t = s.subrange(i, i + pat.len());
        if reads(s, i, pat) {
            assert(t =~= pat);
        }
        if t == pat {
            assert forall|k: int| 0 <= k < pat.len() implies s[i + k] == #[trigger] pat[k] by {
                assert(t[k] == pat[k]);
            }
        }
    }
}

proof fn first_is_first(s: Seq<u8>, pat: Seq<u8>, i: int, last: int)
    ensures
        match first_in(s, pat, i, last) {
            Some(o) => i <= o <= last && reads(s, o, pat) && (forall|q: int|
                i <= q < o ==> !(#[trigger] reads(s, q, pat))),
            None => forall|q: int| i <= q <= last ==> !(#[trigger] reads(s, q, pat)),
        },
    decreases last + 1 - i,
{
    if i <= last {
        reading_is_standing(s, i, pat);
        first_is_first(s, pat, i + 1, last);
    }
}

proof fn last_is_last(s: Seq<u8>, pat: Seq<u8>, first: int, i: int)
    ensures
        match last_in(s, pat, first, i) {
            Some(o) => first <= o <= i && reads(s, o, pat) && (forall|q: int|
                o < q <= i ==> !(#[trigger] reads(s, q, pat))),
            None => forall|q: int| first <= q <= i ==> !(#[trigger] reads(s, q, pat)),
        },
    decreases i + 1 - first,
{
    if i >= first {
        reading_is_standing(s, i, pat);
        last_is_last(s, pat, first, i - 1);
    }
}

/// A pattern is found where it stands first in a region that lies inside the buffer, and it
/// is found wherever it stands there at all.
pub proof fn pattern_is_found(s: Seq<u8>, base: u32, len: u32, needle: Seq<u8>)
    requires
        base + len <= s.len() <= u32::MAX,
        needle.len() > 0,
    ensures
        match str_pos(s, base, len, needle) {
            Some(o) => base <= o && o + needle.len() <= base + len && reads(s, o as int, needle) && (
            forall|q: int| base <= q < o ==> !(#[trigger] reads(s, q, needle))),
            None => forall|q: int|
                base <= q && q + needle.len() <= base + len ==> !(#[trigger] reads(s, q, needle)),
        },
{
    first_is_first(s, needle, base as int, base + len - needle.len());
}

proof fn past_runs(s: Seq<u8>, b: u8, i: int, end: int)
    requires
        i <= end,
    ensures
        i <= past(s, b, i, end) <= end,
        forall|k: int| i <= k < past(s, b, i, end) ==> #[trigger] s[k] == b,
        past(s, b, i, end) < end ==> s[past(s, b, i, end)] != b,
    decreases end - i,
{
    if i < end && s[i] == b {
        past_runs(s, b, i + 1, end);
    }
}

/// The four bytes of a jump over the first byte of a move.
pub open spec fn overlapping_jump() -> Seq<u8> {
    seq![0x48u8, 0xEBu8, 0x01u8, 0xB9u8]
}

/// The word behind the last overlapping jump of a region, and behind the padding that
/// follows the jump, is found; where none is, there is no such jump or no room behind its
/// padding.
pub proof fn word_behind_padding_is_found(s: Seq<u8>, base: u32, len: u32, jump: int, word: int)
    requires
        base + len <= s.len() <= u32::MAX,
        base <= jump,
        jump + 4 <= word <= base + len,
        reads(s, jump, overlapping_jump()),
        forall|q: int| jump < q && q + 4 <= base + len ==> !(#[trigger] reads(
            s,
            q,
            overlapping_jump(),
        )),
        forall|k: int| jump + 4 <= k < word ==> #[trigger] s[k] == 0xCC,
        word < base + len ==> s[word] != 0xCC,
    ensures
        v_after_pad(s, base, len) == (if word + 4 <= base + len {
            Some(word as u32)
        } else {
            None
        }),
{
    let end = base + len;
    assert(crate::pe::discovery::jump_mov() =~= overlapping_jump());
    last_is_last(s, overlapping_jump(), base as int, end - 4);
    past_runs(s, 0xCC, jump + 4, end);
    let after = past(s, 0xCC, jump + 4, end);
    if after < word {
        assert(s[after] == 0xCC);
    }
    if word < after {
        assert(s[word] == 0xCC);
    }
}

/// The last word of a region that is not zero, counted from a multiple of four, is found
/// where a return and three bytes of padding stand in front of it.
pub proof fn last_word_is_found(s: Seq<u8>, base: u32, len: u32, word: u32)
    requires
        base + len <= s.len() <= u32::MAX,
        base + 4 <= word,
        word % 4 == 0,
        word < base + len,
        s[word - 4] == 0xC3 && s[word - 3] == 0xCC && s[word - 2] == 0xCC && s[word - 1] == 0xCC,
        exists|k: int| word <= k < word + 4 && k < base + len && #[trigger] s[k] != 0,
        forall|k: int| word + 4 <= k < base + len ==> #[trigger] s[k] == 0,
    ensures
        v4_offset(s, base, len) == Some(word),
{
    let end = base + len;
    trimmed_stops(s, base as int, end);
    let i = trimmed(s, base as int, end);
    let k = choose|k: int| word <= k < word + 4 && k < base + len && #[trigger] s[k] != 0;
    assert(k < i);
    if i > word + 4 {
        assert(s[i - 1] == 0);
    }
    assert(word < i <= word + 4);
    assert((i + 3) / 4 * 4 - 4 == word);
    let pat = crate::pe::discovery::ret_pad();
    assert forall|j: int| 0 <= j < pat.len() implies s[word - 4 + j] == #[trigger] pat[j] by {
        assert(j == 0 || j == 1 || j == 2 || j == 3);
    }
    reading_is_standing(s, word - 4, pat);
}

proof fn trimmed_stops(s: Seq<u8>, from: int, i: int)
    requires
        from <= i,
    ensures
        from <= trimmed(s, from, i) <= i,
        trimmed(s, from, i) > from ==> s[trimmed(s, from, i) - 1] != 0,
        forall|k: int| trimmed(s, from, i) <= k < i ==> #[trigger] s[k] == 0,
    decreases i - from,
{
    if i > from && s[i - 1] == 0 {
        trimmed_stops(s, from, i - 1);
    }
}

/// Whether a block of bytecode with at least eight bytes and four instructions stands at `p`
/// and ends by `end`: its length stands 95 bytes in, and its bytes are masked by the
/// keystream.
pub open spec fn block_stands(s: Seq<u8>, p: int, end: int) -> bool {
    &&& p + 96 <= end
    &&& 8 <= s[p + 95]
    &&& p + s[p + 95] <= end
    &&& exists|code: Seq<u8>|
        #![trigger transform_at(code, 0)]
        code.len() == s[p + 95] && (forall|i: int|
            0 <= i < code.len() ==> #[trigger] code[i] == s[p + i] ^ lfsr_byte(i as nat)) && (
        transform_at(code, 0) matches Some(ops) && ops.len() >= 4)
}

proof fn block_is_block(s: Seq<u8>, p: int, end: int)
    requires
        p + 96 <= end,
    ensures
        block_stands(s, p, end) == crate::pe::discovery::is_bytecode_block(s, p, end),
{
    let n = s[p + 95] as int;
    let plain = plain_block(s, p, n);
    if block_stands(s, p, end) {
        let code = choose|code: Seq<u8>|
            #![trigger transform_at(code, 0)]
            code.len() == s[p + 95] && (forall|i: int|
                0 <= i < code.len() ==> #[trigger] code[i] == s[p + i] ^ lfsr_byte(i as nat)) && (
            transform_at(code, 0) matches Some(ops) && ops.len() >= 4);
        assert(code =~= plain);
    }
    if crate::pe::discovery::is_bytecode_block(s, p, end) {
        assert(plain.len() == s[p + 95]);
        assert(transform_at(plain, 0) is Some);
    }
}

proof fn first_block_is_first(s: Seq<u8>, p: int, end: int)
    requires
        0 <= p,
        end <= u32::MAX,
    ensures
        match bytecode_from(s, p, end) {
            Some(o) => p <= o && (o - p) % 16 == 0 && block_stands(s, o as int, end) && (forall|q: int|
                p <= q < o && (q - p) % 16 == 0 ==> !(#[trigger] block_stands(s, q, end))),
            None => forall|q: int|
                p <= q && (q - p) % 16 == 0 ==> !(#[trigger] block_stands(s, q, end)),
        },
    decreases end - p,
{
    if p + 96 <= end {
        block_is_block(s, p, end);
        first_block_is_first(s, p + 16, end);
    }
}

/// The first block of bytecode of a region is found, sixteen or a multiple of sixteen bytes
/// in.
pub proof fn block_is_found(s: Seq<u8>, base: u32, len: u32)
    requires
        base + len <= s.len() <= u32::MAX,
    ensures
        match bytecode_offset(s, base, len) {
            Some(o) => base + 16 <= o && (o - base) % 16 == 0 && block_stands(
                s,
                o as int,
                base + len,
            ) && (forall|q: int|
                base + 16 <= q < o && (q - base) % 16 == 0 ==> !(#[trigger] block_stands(
                    s,
                    q,
                    base + len,
                ))),
            None => forall|q: int|
                base + 16 <= q && (q - base) % 16 == 0 ==> !(#[trigger] block_stands(
                    s,
                    q,
                    base + len,
                )),
        },
{
    first_block_is_first(s, base + 16, base + len);
}

/// The offsets at which blocks stand in a region, and no others, are listed, each once and
/// ascending.
pub proof fn blocks_are_listed(s: Seq<u8>, base: u32, hi: int)
    requires
        hi <= u32::MAX,
    ensures
        ({
            let list = lfsr_offsets(s, base, hi);
            &&& forall|i: int, j: int| 0 <= i < j < list.len() ==> list[i] < list[j]
            &&& forall|i: int|
                0 <= i < list.len() ==> #[trigger] list[i] < hi && lfsr_at(s, base, list[i])
            &&& forall|o: u32| o < hi && #[trigger] lfsr_at(s, base, o) ==> list.contains(o)
        }),
    decreases hi,
{
    if hi > 0 {
        blocks_are_listed(s, base, hi - 1);
        let before = lfsr_offsets(s, base, hi - 1);
        let list = lfsr_offsets(s, base, hi);
        assert forall|o: u32| o < hi && #[trigger] lfsr_at(s, base, o) implies list.contains(o) by {
            if o < hi - 1 {
                assert(before.contains(o));
                let i = choose|i: int| 0 <= i < before.len() && before[i] == o;
                assert(list[i] == o);
            } else {
                assert(list[before.len() as int] == o);
            }
        }
    }
}

proof fn up_is_first(s: Seq<u8>, base: u32, off: int, hi: int)
    requires
        0 <= off,
        hi <= u32::MAX,
    ensures
        match lfsr_up(s, base, off, hi) {
            Some(o) => off <= o < hi && lfsr_at(s, base, o) && (forall|q: u32|
                off <= q < o ==> !(#[trigger] lfsr_at(s, base, q))),
            None => forall|q: u32| off <= q < hi ==> !(#[trigger] lfsr_at(s, base, q)),
        },
    decreases hi - off,
{
    if off < hi {
        up_is_first(s, base, off + 1, hi);
    }
}

proof fn down_is_last(s: Seq<u8>, base: u32, lo: int, off: int)
    requires
        0 <= lo,
        off <= u32::MAX,
    ensures
        match lfsr_down(s, base, lo, off) {
            Some(o) => lo <= o <= off && lfsr_at(s, base, o) && (forall|q: u32|
                o < q <= off ==> !(#[trigger] lfsr_at(s, base, q))),
            None => forall|q: u32| lo <= q <= off ==> !(#[trigger] lfsr_at(s, base, q)),
        },
    decreases off + 1 - lo,
{
    if off >= lo {
        down_is_last(s, base, lo, off - 1);
    }
}

/// Forward the first block not before an offset is found, backward the last one, if it has
/// its length byte in the region.
pub proof fn block_is_found_from(s: Seq<u8>, base: u32, size: u32, from: u32, backward: bool)
    ensures
        match lfsr_block(s, base, size, from, backward) {
            Some(o) => from <= o && o + 96 <= size && lfsr_at(s, base, o) && (forall|q: u32|
                from <= q && q + 96 <= size && (if backward {
                    o < q
                } else {
                    q < o
                }) ==> !(#[trigger] lfsr_at(s, base, q))),
            None => forall|q: u32|
                from <= q && q + 96 <= size ==> !(#[trigger] lfsr_at(s, base, q)),
        },
{
    if size >= 96 {
        up_is_first(s, base, from as int, size - 95);
        down_is_last(s, base, from as int, size - 96);
    }
}

/// Whether a word holds the payload's address, and the second word behind it an address
/// that a multiple of 0x200, at most 0x1000, parts from the end of the enciphered part.
pub open spec fn anchor_stands(s: Seq<u8>, info3: u32, info6: u32, p: int) -> bool {
    &&& le32(s, p) == info3
    &&& exists|k: int| 1 <= k <= 8 && info6 == #[trigger] apart_by(le32(s, p + 8), k)
}

/// An address `k` times 0x200 behind another.
pub open spec fn apart_by(v: u32, k: int) -> int {
    v + 0x200 * k
}

proof fn anchor_is_anchor(s: Seq<u8>, info3: u32, info6: u32, p: int)
    ensures
        anchor_stands(s, info3, info6, p) == crate::pe::config64::is_anchor(s, info3, info6, p),
{
    let v = le32(s, p + 8);
    if crate::pe::config64::is_anchor(s, info3, info6, p) {
        let k = (info6 - v) / 0x200;
        assert(info6 == apart_by(v, k));
    }
}

proof fn first_anchor_is_first(s: Seq<u8>, info3: u32, info6: u32, p: int, end: int)
    requires
        0 <= p,
        s.len() <= u32::MAX,
    ensures
        match anchor_from(s, info3, info6, p, end) {
            Some(o) => p <= o && (o - p) % 4 == 0 && o + 12 <= end && o + 12 <= s.len()
                && anchor_stands(s, info3, info6, o as int) && (forall|q: int|
                p <= q < o && (q - p) % 4 == 0 ==> !(#[trigger] anchor_stands(s, info3, info6, q))),
            None => forall|q: int|
                p <= q && (q - p) % 4 == 0 && q + 12 <= end && q + 12 <= s.len() ==> !(
                #[trigger] anchor_stands(s, info3, info6, q)),
        },
    decreases s.len() - p,
{
    if p + 12 <= end && p + 12 <= s.len() {
        anchor_is_anchor(s, info3, info6, p);
        first_anchor_is_first(s, info3, info6, p + 4, end);
    }
}

/// Whether an address and a length at `p` name at least sixteen bytes of the image from the
/// payload on.
pub open spec fn names_stage(s: Seq<u8>, info3: u32, p: int) -> bool {
    &&& p + 8 <= s.len()
    &&& info3 <= le32(s, p)
    &&& 16 <= le32(s, p + 4)
    &&& le32(s, p) + le32(s, p + 4) <= s.len()
}

/// The configuration block is found by the first anchor between 1000 and 8000 bytes behind
/// the end of the enciphered part; its fields are shifted by eight bytes exactly where the
/// first stage is named there and not in the common place.
pub proof fn configuration_is_found(s: Seq<u8>, info3: u32, info6: u32)
    requires
        info6 + 8000 <= u32::MAX,
        s.len() <= u32::MAX,
    ensures
        match located(s, info3, info6) {
            Ok((a, x)) => {
                &&& info6 + 1000 <= a
                &&& a + 12 <= info6 + 8000
                &&& (a - info6) % 4 == 0
                &&& anchor_stands(s, info3, info6, a as int)
                &&& forall|q: int|
                    info6 + 1000 <= q < a && (q - info6) % 4 == 0 ==> !(#[trigger] anchor_stands(
                        s,
                        info3,
                        info6,
                        q,
                    ))
                &&& x == 0 || x == 8
                &&& names_stage(s, info3, a + 120 + x)
                &&& x == 8 ==> !names_stage(s, info3, a + 120)
            },
            Err(e) => true,
        },
        located(s, info3, info6) is Err ==> (forall|q: int|
            info6 + 1000 <= q && (q - info6) % 4 == 0 && q + 12 <= info6 + 8000 && q + 12 <= s.len()
                && #[trigger] anchor_stands(s, info3, info6, q) ==> exists|r: int|
                info6 + 1000 <= r <= q && (r - info6) % 4 == 0 && #[trigger] anchor_stands(
                    s,
                    info3,
                    info6,
                    r,
                ) && !names_stage(s, info3, r + 120) && !names_stage(s, info3, r + 128)),
{
    let p = info6 + 1000;
    let end = info6 + 8000;
    assert(info6.wrapping_add(1000) == p && info6.wrapping_add(8000) == end);
    first_anchor_is_first(s, info3, info6, p, end);
    match anchor_from(s, info3, info6, p, end) {
        Some(a) => {
            assert((a - info6) % 4 == 0);
            if located(s, info3, info6) is Err {
                assert forall|q: int|
                    info6 + 1000 <= q && (q - info6) % 4 == 0 && q + 12 <= info6 + 8000 && q + 12
                        <= s.len() && #[trigger] anchor_stands(s, info3, info6, q) implies exists|
                    r: int,
                |
                    info6 + 1000 <= r <= q && (r - info6) % 4 == 0 && #[trigger] anchor_stands(
                        s,
                        info3,
                        info6,
                        r,
                    ) && !names_stage(s, info3, r + 120) && !names_stage(s, info3, r + 128) by {
                    assert(a <= q);
                    assert(anchor_stands(s, info3, info6, a as int));
                }
            }
        },
        None => {},
    }
}

/// Whether sixteen bytes are the record of the second stage: its two addresses are equal and
/// inside the payload, its source is longer than 0x10000 bytes, its output is shorter and
/// not empty.
pub open spec fn second_stage_stands(s: Seq<u8>, p: u32, lo: u32, hi: u32) -> bool {
    &&& p + 16 <= s.len()
    &&& le32(s, p as int) == le32(s, p + 8)
    &&& lo <= le32(s, p as int)
    &&& le32(s, p as int) < hi
    &&& 0x10000 < le32(s, p + 4)
    &&& 0 < le32(s, p + 12)
    &&& le32(s, p + 12) < le32(s, p + 4)
}

/// The first record of the second stage is found, in steps of four.
pub proof fn second_stage_is_found(s: Seq<u8>, stage1: u32, off: int, end: int, lo: u32, hi: u32)
    requires
        0 <= off,
        end <= u32::MAX,
    ensures
        match stage2_from(s, stage1, off, end, lo, hi) {
            Some(o) => off <= o < end && (o - off) % 4 == 0 && second_stage_stands(
                s,
                stage1.wrapping_add(o),
                lo,
                hi,
            ) && (forall|q: u32|
                off <= q < o && (q - off) % 4 == 0 ==> !second_stage_stands(
                    s,
                    #[trigger] stage1.wrapping_add(q),
                    lo,
                    hi,
                )),
            None => forall|q: u32|
                off <= q < end && (q - off) % 4 == 0 ==> !second_stage_stands(
                    s,
                    #[trigger] stage1.wrapping_add(q),
                    lo,
                    hi,
                ),
        },
    decreases end + 4 - off,
{
    if off < end {
        second_stage_is_found(s, stage1, off + 4, end, lo, hi);
    }
}

/// The first table of operations of the second stage is found, in steps of four: a one, a
/// zero, the payload's address and a zero.
pub proof fn operations_are_found(s: Seq<u8>, stage2: u32, off: int, info3: u32)
    requires
        0 <= off,
    ensures
        match op_table_from(s, stage2, off, info3) {
            Some(o) => off <= o && o + 16 < 12000 && (o - off) % 4 == 0 && table_stands(
                s,
                stage2.wrapping_add(o),
                info3,
            ) && (forall|q: u32|
                off <= q < o && (q - off) % 4 == 0 ==> !table_stands(
                    s,
                    #[trigger] stage2.wrapping_add(q),
                    info3,
                )),
            None => forall|q: u32|
                off <= q && q + 16 < 12000 && (q - off) % 4 == 0 ==> !table_stands(
                    s,
                    #[trigger] stage2.wrapping_add(q),
                    info3,
                ),
        },
    decreases 12000 - off,
{
    if off + 16 < 12000 {
        operations_are_found(s, stage2, off + 4, info3);
    }
}

/// Whether a table of operations starts at `p`.
pub open spec fn table_stands(s: Seq<u8>, p: u32, info3: u32) -> bool {
    p + 16 <= s.len() && le32(s, p as int) == 1 && le32(s, p + 4) == 0 && le32(s, p + 8) == info3
        && le32(s, p + 12) == 0
}

/// The header of a 64-bit image gets the import directory that stands, size first, behind
/// the anchor, and the resource directory 40 bytes behind it; the relocations are dropped.
pub proof fn directories_come_from_the_configuration(s: Seq<u8>, pe: u32, a: u32, x: u32)
    requires
        x == 0 || x == 8,
        pe + 184 <= a,
        a + 48 + x <= s.len() <= u32::MAX,
    ensures
        with_directories(s, pe, a, x) matches Ok(v) && {
            &&& v.len() == s.len()
            &&& le32(v, pe + 144) == le32(s, a + 8)
            &&& le32(v, pe + 148) == le32(s, a + 4)
            &&& le32(v, pe + 152) == le32(s, a + 40 + x)
            &&& le32(v, pe + 156) == le32(s, a + 44 + x)
            &&& le32(v, pe + 176) == 0
            &&& le32(v, pe + 180) == 0
            &&& forall|b: int|
                0 <= b < s.len() && !(pe + 144 <= b < pe + 160) && !(pe + 176 <= b < pe + 184)
                    ==> #[trigger] v[b] == s[b]
        },
{
    let (d1, d2, d3, d4, d5, d6) = (
        pe + 144,
        pe + 148,
        pe + 152,
        pe + 156,
        pe + 176,
        pe + 180,
    );
    assert(pe.wrapping_add(144) == d1 && pe.wrapping_add(148) == d2 && pe.wrapping_add(152) == d3
        && pe.wrapping_add(156) == d4 && pe.wrapping_add(176) == d5 && pe.wrapping_add(180) == d6);
    assert(a.wrapping_add(8) == a + 8 && a.wrapping_add(4) == a + 4 && a.wrapping_add((40 + x) as u32)
        == a + 40 + x && a.wrapping_add((44 + x) as u32) == a + 44 + x);
    let (w1, w2, w3, w4) = (le32(s, a + 8), le32(s, a + 4), le32(s, a + 40 + x), le32(s, a + 44 + x));
    crate::bytes::write_then_read_32(s, d1, w1);
    let a1 = crate::bytes::put32(s, d1, w1);
    crate::bytes::write_then_read_32(a1, d2, w2);
    let a2 = crate::bytes::put32(a1, d2, w2);
    crate::bytes::write_then_read_32(a2, d3, w3);
    let a3 = crate::bytes::put32(a2, d3, w3);
    crate::bytes::write_then_read_32(a3, d4, w4);
    let a4 = crate::bytes::put32(a3, d4, w4);
    crate::bytes::write_then_read_32(a4, d5, 0);
    let a5 = crate::bytes::put32(a4, d5, 0);
    crate::bytes::write_then_read_32(a5, d6, 0);
    let v = crate::bytes::put32(a5, d6, 0);
    assert(with_directories(s, pe, a, x) == Ok::<Seq<u8>, crate::error::UnpackError>(v));
    assert(le32(a2, d1) == le32(a1, d1));
    assert(le32(a3, d1) == le32(a2, d1) && le32(a3, d2) == le32(a2, d2));
    assert(le32(a4, d1) == w1 && le32(a4, d2) == w2 && le32(a4, d3) == w3);
    assert(le32(a5, d1) == w1 && le32(a5, d2) == w2 && le32(a5, d3) == w3 && le32(a5, d4) == w4);
    assert(le32(v, d1) == w1 && le32(v, d2) == w2 && le32(v, d3) == w3 && le32(v, d4) == w4 && le32(
        v,
        d5,
    ) == 0);
}

} // verus!
