//! How a 32-bit payload holds its entry point, and that the image gets it.

use vstd::prelude::*;

use crate::bits::{pages_by_shifts, xor_twice};
use crate::bytecode::Op;
use crate::bytes::{fits, le16, le32, overlay, write_then_read_32};
use crate::pe::dd8::{dd8_formula, formula_key, page_inside, page_mix, page_pass, page_target};
use crate::pe::discovery::{byte5, data5};
use crate::pe::eighth32::Cluster;
use crate::pe::finish32::{
    code_passed, finished, metadata, pages_passed, with_entry, with_header, with_imports,
    with_sections, with_tls_directory,
};
use crate::pe::headers::{
    section_laid, sections_laid, with_flags, with_headers, Export, Found,
};
use crate::pe::stage::Keys;
use crate::pe::steps::{has4, pasted, w16, w32};

verus! {

/// A byte turned right by two bits.
pub open spec fn turned(b: u8) -> u8 {
    (b / 4 + 64 * (b % 4)) as u8
}

/// A byte enciphered for the position `i`.
pub open spec fn positioned(b: u8, i: int) -> u8 {
    turned(turned(turned(b) ^ (i as u8)) ^ (i as u8).wrapping_add(1))
}

proof fn positioned_byte_is_read(b: u8, i: int)
    ensures
        byte5(positioned(b, i), i) == b,
{
    let k = i as u8;
    let x = turned(b) ^ k;
    let y = turned(x) ^ k.wrapping_add(1);
    xor_twice(0, 0, b, k, 0, 0);
    xor_twice(0, 0, turned(b), k, 0, 0);
    xor_twice(0, 0, x, k, 0, 0);
    xor_twice(0, 0, turned(x), k.wrapping_add(1), 0, 0);
    xor_twice(0, 0, y, k, 0, 0);
}

/// Whether the bytes from `o` on are `block`, each enciphered for its position.
pub open spec fn holds_positioned(s: Seq<u8>, o: int, block: Seq<u8>) -> bool {
    &&& 0 <= o
    &&& o + block.len() <= s.len()
    &&& forall|j: int| o <= j < o + block.len() ==> #[trigger] s[j] == positioned(block[j - o], j)
}

/// A block that was enciphered by position is deciphered, and nothing else changes.
pub proof fn positioned_block_is_read(s: Seq<u8>, o: int, block: Seq<u8>)
    requires
        holds_positioned(s, o, block),
    ensures
        data5(s, o, block.len() as int) == overlay(s, o, block),
{
    let t = data5(s, o, block.len() as int);
    assert forall|j: int| 0 <= j < s.len() implies t[j] == overlay(s, o, block)[j] by {
        if o <= j < o + block.len() {
            positioned_byte_is_read(block[j - o], j);
        }
    }
    assert(t =~= overlay(s, o, block));
}

/// Whether a payload holds `block`, enciphered, as what is known of its image: a short
/// block behind a small word, a long one in the place of a large word.
pub open spec fn holds_metadata(s: Seq<u8>, info3: u32, block: Seq<u8>) -> bool {
    &&& info3 + 0x2A0 <= s.len() <= u32::MAX
    &&& if le32(s, info3 + 0x10) <= 0x1_0000 {
        block.len() == 144 && holds_positioned(s, info3 + 0x40, block)
    } else {
        block.len() == 0x290 && holds_positioned(s, info3 + 0x10, block)
    }
}

/// Where a block holds the entry point: a long one has sixteen bytes in front of it.
pub open spec fn entry_place(block: Seq<u8>) -> int {
    if block.len() == 144 {
        0
    } else {
        16
    }
}

/// The entry point and the data directories of a block that was enciphered into a payload
/// are read from it.
pub proof fn written_metadata_is_read(s: Seq<u8>, info3: u32, block: Seq<u8>)
    requires
        holds_metadata(s, info3, block),
    ensures
        metadata(s, info3) == Ok::<(u32, Seq<u8>), crate::error::UnpackError>(
            (
                le32(block, entry_place(block)),
                block.subrange(entry_place(block) + 16, entry_place(block) + 144),
            ),
        ),
{
    let p = info3.wrapping_add(0x10);
    assert(p == info3 + 0x10 && info3.wrapping_add(0x40) == info3 + 0x40);
    let o: int = if le32(s, p as int) <= 0x1_0000 {
        info3 + 0x40
    } else {
        info3 + 0x10
    };
    positioned_block_is_read(s, o, block);
    let t = overlay(s, o, block);
    let e = entry_place(block);
    assert(t.subrange(o + e + 0x10, o + e + 0x90) =~= block.subrange(e + 16, e + 144));
    assert(le32(t, o + e) == le32(block, e));
}

/// Whether the headers of a file lie in front of everything that they name.
pub open spec fn headers_in_front(f: Seq<u8>) -> bool {
    let pe = le32(f, 60);
    let table = pe + 24 + le16(f, pe + 20);
    &&& 4096 <= f.len() <= u32::MAX
    &&& 64 <= pe
    &&& table <= 4096
    &&& 128 <= table
    &&& table + 40 * le16(f, pe + 6) <= 4096
    &&& le32(f, table - 124) == 0 || le32(f, table - 128) >= 4096
    &&& forall|i: int|
        0 <= i < le16(f, pe + 6) ==> 4096 <= le32(f, #[trigger] (table + 40 * i) + 12) && le32(
            f,
            table + 40 * i + 12,
        ) + le32(f, table + 40 * i + 8) <= u32::MAX
}

/// Whether a section of code, where there is one, lies behind the headers.
pub open spec fn code_behind(w: Found) -> bool {
    w.text_va == 0 || (4096 <= w.text_va && w.text_va + w.text_size <= u32::MAX)
}

proof fn section_keeps_front(s: Seq<u8>, f: Seq<u8>, p: u32, narrow: bool)
    requires
        64 <= p <= 4096,
        4096 <= s.len(),
    ensures
        section_laid(s, f, p, narrow) matches Ok(v) ==> v.len() == s.len() && (forall|a: int|
            0 <= a < 64 ==> v[a] == s[a]),
{
    let p1 = p.wrapping_add(16);
    let p2 = p.wrapping_add(20);
    let p3 = p.wrapping_add(36);
    assert(p1 == p + 16 && p2 == p + 20 && p3 == p + 36);
    if has4(s, p1) && has4(s, p2) {
        let x = w32(f, p.wrapping_add(8));
        let y = w32(f, p.wrapping_add(12));
        write_then_read_32(s, p1 as int, x);
        let a = crate::bytes::put32(s, p1 as int, x);
        write_then_read_32(a, p2 as int, y);
        let b = crate::bytes::put32(a, p2 as int, y);
        if has4(b, p3) {
            write_then_read_32(b, p3 as int, 0xC000_0040);
        }
    }
}

proof fn sections_keep_front(
    s: Seq<u8>,
    f: Seq<u8>,
    table: u32,
    i: u32,
    n: u32,
    x: Export,
    narrow: bool,
    w: Found,
)
    requires
        64 <= table,
        i <= n,
        table + 40 * n <= 4096,
        4096 <= s.len(),
        forall|k: int|
            0 <= k < n ==> 4096 <= le32(f, #[trigger] (table + 40 * k) + 12) && le32(
                f,
                table + 40 * k + 12,
            ) + le32(f, table + 40 * k + 8) <= u32::MAX,
        code_behind(w),
    ensures
        sections_laid(s, f, table, i, n, x, narrow, w) matches Ok((v, r)) ==> v.len() == s.len()
            && code_behind(r) && (forall|a: int| 0 <= a < 64 ==> v[a] == s[a]),
    decreases n - i,
{
    if i < n {
        let p = table.wrapping_add(i.wrapping_mul(40));
        assert(i.wrapping_mul(40) == i * 40);
        assert(p == table + 40 * i);
        assert(p.wrapping_add(12) == table + 40 * i + 12);
        assert(p.wrapping_add(8) == table + 40 * i + 8);
        section_keeps_front(s, f, p, narrow);
        match section_laid(s, f, p, narrow) {
            Ok(t) => {
                let m = crate::pe::headers::noted(f, p, x, narrow, w);
                sections_keep_front(t, f, table, (i + 1) as u32, n, x, narrow, m);
            },
            Err(e) => {},
        }
    }
}

proof fn headers_stay_in_front(s: Seq<u8>, f: Seq<u8>)
    requires
        headers_in_front(f),
    ensures
        with_headers(s, f, le32(f, 60), true) matches Ok((v, w)) ==> 4096 <= v.len() && le32(v, 60)
            == le32(f, 60) && code_behind(w),
{
    let pe = le32(f, 60);
    if fits(s, 0, 4096) {
        let a = overlay(s, 0, f.subrange(0, 4096));
        assert(forall|k: int| 0 <= k < 64 ==> a[k] == f[k]);
        assert(pe.wrapping_add(20) == pe + 20 && pe.wrapping_add(6) == pe + 6);
        let table = pe.wrapping_add(24).wrapping_add(w16(f, pe.wrapping_add(20)) as u32);
        assert(table == pe + 24 + le16(f, pe + 20));
        let count = w16(f, pe.wrapping_add(6)) as u32;
        let n = if count < 96 {
            count
        } else {
            96
        };
        let x = Export { va: w32(f, table.wrapping_sub(128)), size: w32(f, table.wrapping_sub(124)) };
        let none = Found { text_va: 0, text_size: 0, export_off: 0 };
        sections_keep_front(a, f, table, 0, n, x, true, none);
    }
}

proof fn pass_keeps_front(s: Seq<u8>, va: u32, key: u32, n: nat)
    requires
        n <= 256,
        va + 4096 <= u32::MAX + 1,
        page_inside(s, va, key, n),
    ensures
        page_pass(s, va, key, n).len() == s.len(),
        forall|a: int| 0 <= a < va && a < s.len() ==> #[trigger] page_pass(s, va, key, n)[a] == s[a],
    decreases n,
{
    if n > 0 {
        let i = (n - 1) as nat;
        assert forall|j: nat| 1 <= j < i implies #[trigger] page_target(va, key, j) < s.len() by {}
        pass_keeps_front(s, va, key, i);
        if n > 1 {
            pages_by_shifts(page_mix(key, i), 0);
            assert((i as u32).wrapping_mul(16) == 16 * i);
            assert(va <= page_target(va, key, i) < s.len());
        }
    }
}

proof fn pages_keep_front(s: Seq<u8>, va: u32, page: u32, end: u32, big: bool)
    requires
        4096 <= va,
        va + end * 4096 <= u32::MAX,
        4096 <= s.len(),
    ensures
        pages_passed(s, va, page, end, big) matches Ok(v) ==> v.len() == s.len() && (forall|a: int|
            0 <= a < 4096 ==> v[a] == s[a]),
    decreases end - page,
{
    if page < end {
        let p = va.wrapping_add(page.wrapping_mul(0x1000));
        assert(page.wrapping_mul(0x1000) == page * 4096);
        assert(p == va + page * 4096);
        let key = formula_key(big, page);
        if page_inside(s, p, key, 256) {
            pass_keeps_front(s, p, key, 256);
            pages_keep_front(page_pass(s, p, key, 256), va, (page + 1) as u32, end, big);
        }
    }
}

proof fn code_keeps_front(s: Seq<u8>, w: Found)
    requires
        code_behind(w),
        4096 <= s.len(),
    ensures
        code_passed(s, w) matches Ok(v) ==> v.len() == s.len() && (forall|a: int|
            0 <= a < 4096 ==> v[a] == s[a]),
{
    if w.text_size != 0 && w.text_va != 0 {
        match dd8_formula(s, w.text_va, w.text_size) {
            Some(big) => pages_keep_front(s, w.text_va, 0, w.text_size / 0x1000, big),
            None => {},
        }
    }
}

proof fn entry_is_put(s: Seq<u8>, f: Seq<u8>, pe0: u32, pe: u32, ep: u32)
    ensures
        with_entry(s, f, pe0, pe, ep) matches Ok(v) ==> {
            let at = pe.wrapping_add(40);
            &&& fits(v, at as int, 4)
            &&& ep != 0 ==> le32(v, at as int) == ep
            &&& ep == 0 ==> fits(f, pe0.wrapping_add(40) as int, 4) && le32(v, at as int) == le32(
                f,
                pe0.wrapping_add(40) as int,
            )
        },
{
    let at = pe.wrapping_add(40);
    if has4(s, at) {
        write_then_read_32(s, at as int, ep);
        write_then_read_32(s, at as int, w32(f, pe0.wrapping_add(40)));
    }
}

/// A header gets the entry point that it is given, where that is none the file's own.
pub proof fn header_gets_its_entry_point(
    s: Seq<u8>,
    f: Seq<u8>,
    pe0: u32,
    slot: u32,
    ep: u32,
    dirs: Seq<u8>,
)
    ensures
        with_header(s, f, pe0, slot, ep, dirs) matches Ok(v) ==> {
            let at = le32(s, 60).wrapping_add(40);
            &&& fits(v, at as int, 4)
            &&& ep != 0 ==> le32(v, at as int) == ep
            &&& ep == 0 ==> fits(f, pe0.wrapping_add(40) as int, 4) && le32(v, at as int) == le32(
                f,
                pe0.wrapping_add(40) as int,
            )
        },
{
    if has4(s, 60) {
        let pe = w32(s, 60);
        match pasted(s, pe + 0x78, dirs, 0, 128) {
            Err(e) => {},
            Ok(a) => match with_flags(a, pe, 0xA0) {
                Err(e) => {},
                Ok(b) => match with_tls_directory(b, f, pe0, pe) {
                    Err(e) => {},
                    Ok(c) => match with_imports(c, pe, slot, dirs) {
                        Err(e) => {},
                        Ok(d) => entry_is_put(d, f, pe0, pe, ep),
                    },
                },
            },
        }
    }
}

/// The word at the entry point's place in the header of an unpacked 32-bit image is the
/// entry point that the payload held enciphered; where that is none it is the file's own.
pub proof fn unpacked_image_gets_its_entry_point(
    s: Seq<u8>,
    f: Seq<u8>,
    info3: u32,
    keys: Keys,
    start: u32,
    c: Cluster,
    ops: Seq<Op>,
    block: Seq<u8>,
)
    requires
        holds_metadata(s, info3, block),
        headers_in_front(f),
    ensures
        finished(s, f, le32(f, 60), info3, keys, start, c, ops) matches Ok(v) ==> {
            let at = le32(f, 60) + 40;
            let ep = le32(block, entry_place(block));
            &&& fits(v, at, 4)
            &&& ep != 0 ==> le32(v, at) == ep
            &&& ep == 0 ==> le32(v, at) == le32(f, at)
        },
{
    let pe0 = le32(f, 60);
    written_metadata_is_read(s, info3, block);
    let e = entry_place(block);
    let ep = le32(block, e);
    let dirs = block.subrange(e + 16, e + 144);
    match with_sections(s, f, keys, start, c, ops) {
        Err(_) => {},
        Ok(a) => {
            headers_stay_in_front(a, f);
            match with_headers(a, f, pe0, true) {
                Err(_) => {},
                Ok((b, w)) => {
                    code_keeps_front(b, w);
                    match code_passed(b, w) {
                        Err(_) => {},
                        Ok(d) => {
                            assert(le32(d, 60) == pe0);
                            header_gets_its_entry_point(
                                d,
                                f,
                                pe0,
                                start.wrapping_add(c.imports),
                                ep,
                                dirs,
                            );
                        },
                    }
                },
            }
        },
    }
}

} // verus!
