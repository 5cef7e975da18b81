//! What a 32-bit image gets where its payload leaves a choice.

use vstd::prelude::*;

use crate::bytes::{le32, put32, write_then_read_32, zeroed};
use crate::pe::finish32::{chosen_imports, with_placeholder, Places};
use crate::pe::stages32::with_table;
use crate::pe::steps::{advanced_key, sum_to};

verus! {

/// Whether a directory of imports stands at an address: its first descriptor names a library
/// and a lookup table behind the headers of the image.
pub open spec fn imports_lead(s: Seq<u8>, p: u32) -> bool {
    &&& 0x1000 < le32(s, p as int) < s.len()
    &&& 0x1000 < le32(s, p + 12) < s.len()
}

/// The directory of imports that the payload holds is taken wherever imports stand at it;
/// else the one that the last stage names. A size goes with its address.
pub proof fn imports_are_chosen(s: Seq<u8>, p: u32, n: u32, dirs: Seq<u8>)
    requires
        20 <= s.len() <= u32::MAX,
    ensures
        ({
            let rva = le32(dirs, 8);
            let own = 0x1000 < rva && rva + 20 < s.len() && imports_lead(s, rva);
            let r = chosen_imports(s, p, n, dirs);
            &&& own ==> r.0 == rva
            &&& own && rva != p ==> r.1 == le32(dirs, 12)
            &&& own && rva == p ==> r.1 == n || r.1 == le32(dirs, 12)
            &&& own && rva == p && 0 < n < 0x1_0000 ==> r.1 == n
            &&& !own ==> r == (p, n)
        }),
{
}

/// An empty directory of thread-local storage has an empty template in `.tls`, and its index
/// and its callbacks in the last sixteen bytes of `.data`, which are cleared.
pub proof fn empty_tls_is_made(s: Seq<u8>, rva: u32, base: u32, w: Places)
    requires
        16 <= w.data_size,
        w.data + w.data_size <= s.len() <= u32::MAX,
        base + s.len() <= u32::MAX,
        w.tls < s.len(),
        rva + 24 <= s.len(),
        rva + 24 <= w.data + w.data_size - 16 || w.data + w.data_size <= rva,
    ensures
        with_placeholder(s, rva, base, w) matches Ok(v) && {
            let scratch = w.data + w.data_size - 16;
            &&& v.len() == s.len()
            &&& le32(v, rva as int) == base + w.tls
            &&& le32(v, rva + 4) == base + w.tls
            &&& le32(v, rva + 8) == base + scratch
            &&& le32(v, rva + 12) == base + scratch + 8
            &&& le32(v, rva + 16) == 0
            &&& le32(v, rva + 20) == 0x30_0000
            &&& forall|a: int| scratch <= a < scratch + 16 ==> #[trigger] v[a] == 0
            &&& forall|a: int|
                0 <= a < s.len() && !(scratch <= a < scratch + 16) && !(rva <= a < rva + 24)
                    ==> #[trigger] v[a] == s[a]
        },
{
    let scratch = w.data + w.data_size - 16;
    let end = base.wrapping_add(w.data).wrapping_add(w.data_size);
    assert(end == base + w.data + w.data_size);
    let t = zeroed(s, scratch, 16);
    let x = base.wrapping_add(w.tls);
    let r = rva as int;
    write_then_read_32(t, r, x);
    let a = put32(t, r, x);
    write_then_read_32(a, r + 4, x);
    let b = put32(a, r + 4, x);
    write_then_read_32(b, r + 8, end.wrapping_sub(16));
    let c = put32(b, r + 8, end.wrapping_sub(16));
    write_then_read_32(c, r + 12, end.wrapping_sub(8));
    let d = put32(c, r + 12, end.wrapping_sub(8));
    write_then_read_32(d, r + 16, 0);
    let e = put32(d, r + 16, 0);
    write_then_read_32(e, r + 20, 0x30_0000);
    let v = put32(e, r + 20, 0x30_0000);
    assert(le32(b, r) == x);
    assert(le32(c, r) == x && le32(c, r + 4) == x);
    assert(le32(d, r) == x && le32(d, r + 4) == x && le32(d, r + 8) == end - 16);
    assert(le32(e, r) == x && le32(e, r + 4) == x && le32(e, r + 8) == end - 16 && le32(e, r + 12)
        == end - 8);
    assert(le32(v, r) == x && le32(v, r + 4) == x && le32(v, r + 8) == end - 16 && le32(v, r + 12)
        == end - 8 && le32(v, r + 16) == 0);
}

/// The header of a 32-bit image gets the address of the imports and the resource directory
/// that its table holds, and loses two words that are not the image's.
pub proof fn directories_come_from_the_table(s: Seq<u8>, pe: u32, tbl: u32)
    requires
        pe + 0xB8 <= tbl,
        tbl + 0xD0 <= s.len() <= u32::MAX,
    ensures
        with_table(s, pe, tbl) matches Ok(v) && {
            &&& v.len() == s.len()
            &&& le32(v, pe + 0x80) == le32(s, tbl + 0xBC)
            &&& le32(v, pe + 0x88) == le32(s, tbl + 0xC8)
            &&& le32(v, pe + 0x8C) == le32(s, tbl + 0xCC)
            &&& le32(v, pe + 0xB0) == 0
            &&& le32(v, pe + 0xB4) == 0
            &&& forall|a: int|
                0 <= a < s.len() && !(pe + 0x80 <= a < pe + 0x84) && !(pe + 0x88 <= a < pe + 0x90)
                    && !(pe + 0xB0 <= a < pe + 0xB8) ==> #[trigger] v[a] == s[a]
        },
{
    assert(tbl.wrapping_add(0xBC) == tbl + 0xBC && tbl.wrapping_add(0xC8) == tbl + 0xC8
        && tbl.wrapping_add(0xCC) == tbl + 0xCC);
    assert(pe.wrapping_add(0x80) == pe + 0x80 && pe.wrapping_add(0x88) == pe + 0x88
        && pe.wrapping_add(0x8C) == pe + 0x8C && pe.wrapping_add(0xB0) == pe + 0xB0
        && pe.wrapping_add(0xB4) == pe + 0xB4);
    let (x, y, z) = (le32(s, tbl + 0xBC), le32(s, tbl + 0xC8), le32(s, tbl + 0xCC));
    write_then_read_32(s, pe + 0x80, x);
    let a = put32(s, pe + 0x80, x);
    write_then_read_32(a, pe + 0x88, y);
    let b = put32(a, pe + 0x88, y);
    write_then_read_32(b, pe + 0x8C, z);
    let c = put32(b, pe + 0x8C, z);
    write_then_read_32(c, pe + 0xB0, 0);
    let d = put32(c, pe + 0xB0, 0);
    write_then_read_32(d, pe + 0xB4, 0);
    let v = put32(d, pe + 0xB4, 0);
    assert(le32(b, pe + 0x80) == x);
    assert(le32(c, pe + 0x80) == x && le32(c, pe + 0x88) == y);
    assert(le32(d, pe + 0x80) == x && le32(d, pe + 0x88) == y && le32(d, pe + 0x8C) == z);
    assert(le32(v, pe + 0x80) == x && le32(v, pe + 0x88) == y && le32(v, pe + 0x8C) == z && le32(
        v,
        pe + 0xB0,
    ) == 0);
}

proof fn numbers_add_up(n: nat)
    ensures
        2 * sum_to(n) == n * (n + 1),
    decreases n,
{
    if n > 0 {
        numbers_add_up((n - 1) as nat);
        assert(n * (n + 1) == (n - 1) * n + 2 * n) by (nonlinear_arith);
    }
}

/// Round `n` of a counter adds the numbers from one to a hundred times `n`.
pub proof fn rounds_add_up(key: u32, n: nat)
    ensures
        advanced_key(key, 0) == key,
        advanced_key(key, n + 1) == advanced_key(key, n).wrapping_add(
            (50 * (n + 1) * (100 * (n + 1) + 1)) as u32,
        ),
{
    let m = (100 * (n + 1)) as nat;
    numbers_add_up(m);
    assert(2 * (50 * (n + 1) * (100 * (n + 1) + 1)) == m * (m + 1)) by (nonlinear_arith)
        requires
            m == 100 * (n + 1),
    ;
}

} // verus!
