//! The page pass over code, and the choice of its key.
//!
//! Of each sixteen-byte block of a page but the first, the pass combines one
//! byte with a rolling key. How the key derives from the page is recorded
//! nowhere, so it is chosen by what the pass makes of the code.

use vstd::prelude::*;

use crate::bits::masks;
use crate::bytes::{le32, opt32, peek_u32, sub_vec};
use crate::ciphers::rotr32;
use crate::pe::discovery::{addressable, past, trial5, trial_decrypt5_u32};

verus! {

/// The rolling key in front of block `n`.
pub open spec fn page_key(key: u32, n: nat) -> u32
    decreases n,
{
    if n == 0 {
        key
    } else {
        let i = (n - 1) as u32;
        rotr32(page_key(key, (n - 1) as nat), 15).wrapping_add(i).wrapping_add(i)
    }
}

/// What selects the byte of block `i`.
pub open spec fn page_mix(key: u32, i: nat) -> u32 {
    rotr32(page_key(key, i), 15).wrapping_add(i as u32)
}

/// The byte of block `i` that the pass over the page at `va` changes.
pub open spec fn page_target(va: u32, key: u32, i: nat) -> u32 {
    va.wrapping_add((i as u32).wrapping_mul(16)).wrapping_add(page_mix(key, i) & 0xFu32)
}

/// `s` after the pass over the first `n` blocks of the page at `va`.
pub open spec fn page_pass(s: Seq<u8>, va: u32, key: u32, n: nat) -> Seq<u8>
    decreases n,
{
    if n == 0 {
        s
    } else {
        let t = page_pass(s, va, key, (n - 1) as nat);
        if n == 1 {
            t
        } else {
            let o = page_target(va, key, (n - 1) as nat) as int;
            t.update(o, t[o] ^ (page_key(key, n) as u8))
        }
    }
}

/// Whether the pass over the first `n` blocks of the page at `va` stays inside
/// `s`.
pub open spec fn page_inside(s: Seq<u8>, va: u32, key: u32, n: nat) -> bool {
    forall|i: nat| 1 <= i < n ==> #[trigger] page_target(va, key, i) < s.len()
}

/// `v` rotated right by fifteen bits.
fn turn(v: u32) -> (r: u32)
    ensures
        r == rotr32(v, 15),
{
    (v >> 15u32) | (v << 17u32)
}

/// Run the pass over the 4096 bytes at `va`; where it leaves the buffer, `false`
/// comes back and the buffer's contents are unspecified.
pub fn page_pass_checked(d: &mut [u8], va: u32, key: u32) -> (ok: bool)
    ensures
        ok == page_inside(old(d)@, va, key, 256),
        ok ==> final(d)@ == page_pass(old(d)@, va, key, 256),
        final(d)@.len() == old(d)@.len(),
{
    let len: usize = d.len();
    let mut k: u32 = key;
    let mut i: u32 = 0;
    while i < 256
        invariant
            i <= 256,
            len == d@.len() == old(d)@.len(),
            k == page_key(key, i as nat),
            d@ == page_pass(old(d)@, va, key, i as nat),
            page_inside(old(d)@, va, key, i as nat),
        decreases 256 - i,
    {
        let mixed: u32 = turn(k).wrapping_add(i);
        assert(mixed == page_mix(key, i as nat));
        k = mixed.wrapping_add(i);
        if i != 0 {
            let o: u32 = va.wrapping_add(i.wrapping_mul(16)).wrapping_add(mixed & 0xFu32);
            assert(o == page_target(va, key, i as nat));
            if o as usize >= len {
                return false;
            }
            let b: u8 = d[o as usize];
            let c: u8 = #[verifier::truncate]
            (k as u8);
            d[o as usize] = b ^ c;
        }
        i = i + 1;
    }
    true
}

/// The number of `CC` bytes in the first `n` bytes of `s`.
pub open spec fn int3_count(s: Seq<u8>, n: nat) -> nat
    decreases n,
{
    if n == 0 {
        0
    } else {
        int3_count(s, (n - 1) as nat) + (if s[n - 1] == 0xCC {
            1nat
        } else {
            0nat
        })
    }
}

fn count_int3(page: &[u8]) -> (r: u32)
    requires
        page@.len() == 0x1000,
    ensures
        r == int3_count(page@, 0x1000),
        r <= 0x1000,
{
    let mut c: u32 = 0;
    let mut i: usize = 0;
    while i < 0x1000
        invariant
            i <= 0x1000,
            page@.len() == 0x1000,
            c == int3_count(page@, i as nat),
            c <= i,
        decreases 0x1000 - i,
    {
        if page[i] == 0xCC {
            c = c + 1;
        }
        i = i + 1;
    }
    c
}

/// The page `sp` pages behind `text_off`, if it lies inside `s`.
pub open spec fn sample(s: Seq<u8>, text_off: u32, sp: u32) -> Option<Seq<u8>> {
    let o = text_off + sp * 0x1000;
    if o + 0x1000 <= s.len() {
        Some(s.subrange(o, o + 0x1000))
    } else {
        None
    }
}

fn sample_page(data: &[u8], text_off: u32, sp: u32) -> (r: Option<Vec<u8>>)
    ensures
        match r {
            Some(v) => sample(data@, text_off, sp) == Some(v@) && v@.len() == 0x1000,
            None => sample(data@, text_off, sp) is None,
        },
{
    let o: u64 = text_off as u64 + sp as u64 * 0x1000;
    let len: u64 = data.len() as u64;
    if len < 0x1000 || o > len - 0x1000 {
        return None;
    }
    Some(sub_vec(data, o as usize, o as usize + 0x1000))
}

proof fn page_pass_inside(s: Seq<u8>, key: u32)
    requires
        s.len() == 0x1000,
    ensures
        page_inside(s, 0, key, 256),
{
    assert forall|i: nat| 1 <= i < 256 implies #[trigger] page_target(0, key, i) < s.len() by {
        let m = page_mix(key, i);
        masks(m, 0);
    }
}

/// The page key of a 32-bit image: a multiple of the page number, counted from
/// one.
pub open spec fn formula_key(big: bool, sp: u32) -> u32 {
    if big {
        0x8000u32.wrapping_mul(sp.wrapping_add(1))
    } else {
        sp.wrapping_add(1)
    }
}

/// The page key under a formula.
pub fn key_by_formula(big: bool, sp: u32) -> (k: u32)
    ensures
        k == formula_key(big, sp),
{
    if big {
        0x8000u32.wrapping_mul(sp.wrapping_add(1))
    } else {
        sp.wrapping_add(1)
    }
}

/// The `CC` bytes of the first `n` sampled pages, as they are or after the pass
/// with a formula.
pub open spec fn formula_score(
    s: Seq<u8>,
    text_off: u32,
    pages: Seq<u32>,
    formula: Option<bool>,
    n: nat,
) -> nat
    decreases n,
{
    if n == 0 {
        0
    } else {
        let before = formula_score(s, text_off, pages, formula, (n - 1) as nat);
        let sp = pages[n - 1];
        match sample(s, text_off, sp) {
            None => before,
            Some(page) => before + int3_count(
                match formula {
                    None => page,
                    Some(big) => page_pass(page, 0, formula_key(big, sp), 256),
                },
                0x1000,
            ),
        }
    }
}

fn score_formula(data: &[u8], text_off: u32, pages: &Vec<u32>, formula: Option<bool>) -> (r: u32)
    requires
        pages@.len() <= 4,
    ensures
        r == formula_score(data@, text_off, pages@, formula, pages@.len()),
        r <= 0x4000,
{
    let mut total: u32 = 0;
    let mut n: usize = 0;
    while n < pages.len()
        invariant
            n <= pages@.len() <= 4,
            total == formula_score(data@, text_off, pages@, formula, n as nat),
            total <= n * 0x1000,
        decreases pages@.len() - n,
    {
        let sp: u32 = pages[n];
        match sample_page(data, text_off, sp) {
            None => {},
            Some(mut page) => {
                if let Some(big) = formula {
                    proof {
                        page_pass_inside(page@, formula_key(big, sp));
                    }
                    let _ok = page_pass_checked(&mut page, 0, key_by_formula(big, sp));
                }
                total = total + count_int3(&page);
            },
        }
        n = n + 1;
    }
    total
}

/// The pages at a quarter, a half and three quarters of `n` pages, as far as
/// they are inner pages.
pub open spec fn quarter_pages(n: u32) -> Seq<u32> {
    let one = if 0 < n / 4 < n {
        seq![n / 4]
    } else {
        Seq::empty()
    };
    let two = if 0 < n / 2 < n {
        one.push(n / 2)
    } else {
        one
    };
    let q = (3 * n / 4) as u32;
    if 0 < q < n {
        two.push(q)
    } else {
        two
    }
}

fn sample_quarters(n: u32) -> (v: Vec<u32>)
    requires
        n <= 0x10_0000,
    ensures
        v@ == quarter_pages(n),
        v@.len() <= 3,
{
    let mut v: Vec<u32> = Vec::new();
    if n / 4 > 0 && n / 4 < n {
        v.push(n / 4);
    }
    assert(v@ =~= (if 0 < n / 4 < n {
        seq![n / 4]
    } else {
        Seq::empty()
    }));
    if n / 2 > 0 && n / 2 < n {
        v.push(n / 2);
    }
    let q: u32 = 3 * n / 4;
    if q > 0 && q < n {
        v.push(q);
    }
    v
}

/// The key formula that the code of a 32-bit image was passed over with, or
/// `None` where the code is plain: the pass must gain at least 32 `CC` bytes over
/// the sampled pages. Without a page to sample the pass is taken to apply.
pub open spec fn dd8_formula(s: Seq<u8>, text_off: u32, text_size: u32) -> Option<bool> {
    let pages = quarter_pages(text_size / 0x1000);
    let n = pages.len();
    let small = formula_score(s, text_off, pages, Some(false), n);
    let large = formula_score(s, text_off, pages, Some(true), n);
    let plain = formula_score(s, text_off, pages, None, n);
    let best = if large > small {
        large
    } else {
        small
    };
    if n == 0 || best >= plain + 32 {
        Some(large > small)
    } else {
        None
    }
}

/// Whether the sampled pages have 32-bit positions.
pub open spec fn samples_addressable(text_off: u32, text_size: u32) -> bool {
    let pages = quarter_pages(text_size / 0x1000);
    forall|k: int| 0 <= k < pages.len() ==> text_off + #[trigger] pages[k] * 0x1000 <= u32::MAX
}

/// Choose the key formula of a 32-bit image's code, or `None` where its code is
/// plain.
pub fn select_dd8_formula_pe32(data: &[u8], text_off: u32, text_size: u32) -> (r: Option<bool>)
    requires
        samples_addressable(text_off, text_size),
    ensures
        r == dd8_formula(data@, text_off, text_size),
{
    let pages: Vec<u32> = sample_quarters(text_size / 0x1000);
    let small: u32 = score_formula(data, text_off, &pages, Some(false));
    let large: u32 = score_formula(data, text_off, &pages, Some(true));
    let plain: u32 = score_formula(data, text_off, &pages, None);
    let best: u32 = if large > small {
        large
    } else {
        small
    };
    if pages.len() == 0 || best >= plain + 32 {
        Some(large > small)
    } else {
        None
    }
}

/// Whether the sampled pages have 32-bit positions.
pub fn samples_are_addressable(text_off: u32, text_size: u32) -> (r: bool)
    ensures
        r == samples_addressable(text_off, text_size),
{
    let pages: Vec<u32> = sample_quarters(text_size / 0x1000);
    let mut k: usize = 0;
    while k < pages.len()
        invariant
            k <= pages@.len(),
            pages@ == quarter_pages(text_size / 0x1000),
            forall|j: int| 0 <= j < k ==> text_off + #[trigger] pages@[j] * 0x1000 <= u32::MAX,
        decreases pages@.len() - k,
    {
        if text_off as u64 + pages[k] as u64 * 0x1000 > 0xFFFF_FFFFu64 {
            assert(text_off + pages@[k as int] * 0x1000 > u32::MAX);
            return false;
        }
        k = k + 1;
    }
    true
}

/// The byte at `rva` after the pass with the key `page << shift` over the first
/// `n` blocks of its page.
pub open spec fn candidate_run(b: u8, rva: u32, key: u32, n: nat) -> u8
    decreases n,
{
    if n == 0 {
        b
    } else {
        let t = candidate_run(b, rva, key, (n - 1) as nat);
        if n > 1 && page_target((rva >> 12u32) << 12u32, key, (n - 1) as nat) == rva {
            t ^ (page_key(key, n) as u8)
        } else {
            t
        }
    }
}

/// The byte at `rva`, as it is or after the pass with a shift.
pub open spec fn candidate_byte(s: Seq<u8>, rva: u32, shift: Option<u32>) -> Option<u8> {
    if rva >= s.len() {
        None
    } else {
        match shift {
            None => Some(s[rva as int]),
            Some(sh) => Some(
                candidate_run(
                    s[rva as int],
                    rva,
                    (rva >> 12u32) << sh,
                    (((rva & 0xFFFu32) >> 4u32) + 1) as nat,
                ),
            ),
        }
    }
}

fn byte_under(data: &[u8], rva: u32, shift: Option<u32>) -> (r: Option<u8>)
    requires
        shift matches Some(sh) ==> sh < 32,
    ensures
        r == candidate_byte(data@, rva, shift),
{
    if rva as usize >= data.len() {
        return None;
    }
    let b: u8 = data[rva as usize];
    let sh: u32 = match shift {
        None => return Some(b),
        Some(x) => x,
    };
    let page: u32 = rva >> 12u32;
    let block: u32 = (rva & 0xFFFu32) >> 4u32;
    proof {
        masks(rva, 0);
    }
    let va: u32 = page << 12u32;
    let key: u32 = page << sh;
    let mut k: u32 = key;
    let mut c: u8 = b;
    let mut i: u32 = 0;
    while i <= block
        invariant
            i <= block + 1,
            block <= 255,
            va == (rva >> 12u32) << 12u32,
            k == page_key(key, i as nat),
            c == candidate_run(b, rva, key, i as nat),
        decreases block + 1 - i,
    {
        let mixed: u32 = turn(k).wrapping_add(i);
        assert(mixed == page_mix(key, i as nat));
        k = mixed.wrapping_add(i);
        if i != 0 {
            let o: u32 = va.wrapping_add(i.wrapping_mul(16)).wrapping_add(mixed & 0xFu32);
            assert(o == page_target(va, key, i as nat));
            if o == rva {
                let x: u8 = #[verifier::truncate]
                (k as u8);
                c = c ^ x;
            }
        }
        i = i + 1;
    }
    Some(c)
}

/// The end of the code, at most 2^32 - 1.
pub open spec fn text_limit(va: u32, size: u32) -> int {
    if va + size > u32::MAX {
        u32::MAX as int
    } else {
        va + size
    }
}

/// The entry point that the PE header gives, if it lies in the code.
pub open spec fn header_entry(s: Seq<u8>, va: u32, size: u32) -> Seq<u32> {
    match opt32(s, 0x3C) {
        Some(pe) => if pe + 40 > u32::MAX {
            Seq::empty()
        } else {
            match opt32(s, pe + 40) {
                Some(e) => if va <= e < text_limit(va, size) {
                    seq![e]
                } else {
                    Seq::empty()
                },
                None => Seq::empty(),
            }
        },
        None => Seq::empty(),
    }
}

/// `list`, and the entry point that the enciphered record at `info3 + off`
/// gives, if the record names `info3` and the entry lies in the code and not in
/// `list`.
pub open spec fn record_entry(
    s: Seq<u8>,
    va: u32,
    size: u32,
    info3: u32,
    off: u32,
    list: Seq<u32>,
) -> Seq<u32> {
    let o = info3 + off;
    if o + 8 > u32::MAX || o + 8 > s.len() {
        list
    } else {
        let e = trial5(s, o as u32);
        if trial5(s, (o + 4) as u32) == info3 && va <= e < text_limit(va, size) && !list.contains(
            e,
        ) {
            list.push(e)
        } else {
            list
        }
    }
}

/// Where execution may enter the code.
pub open spec fn entries(s: Seq<u8>, va: u32, size: u32, info3: u32) -> Seq<u32> {
    record_entry(
        s,
        va,
        size,
        info3,
        64,
        record_entry(s, va, size, info3, 32, header_entry(s, va, size)),
    )
}

fn add_record_entry(data: &[u8], va: u32, size: u32, info3: u32, off: u32, list: Vec<u32>) -> (v:
    Vec<u32>)
    requires
        addressable(data@),
        off <= 64,
        list@.len() <= 2,
    ensures
        v@ == record_entry(data@, va, size, info3, off, list@),
        v@.len() <= list@.len() + 1,
{
    let mut v: Vec<u32> = list;
    let limit: u32 = va.saturating_add(size);
    let o: u64 = info3 as u64 + off as u64;
    if o + 8 <= 0xFFFF_FFFFu64 && o + 8 <= data.len() as u64 {
        let e: u32 = trial_decrypt5_u32(data, o as u32);
        let base: u32 = trial_decrypt5_u32(data, (o + 4) as u32);
        if base == info3 && e >= va && e < limit {
            let mut known: bool = false;
            let mut k: usize = 0;
            while k < v.len()
                invariant
                    k <= v@.len(),
                    known == (exists|j: int| 0 <= j < k && v@[j] == e),
                decreases v@.len() - k,
            {
                if v[k] == e {
                    known = true;
                }
                k = k + 1;
            }
            assert(known == v@.contains(e));
            if !known {
                v.push(e);
            }
        }
    }
    v
}

fn entry_list(data: &[u8], va: u32, size: u32, info3: u32) -> (v: Vec<u32>)
    requires
        addressable(data@),
    ensures
        v@ == entries(data@, va, size, info3),
        v@.len() <= 3,
{
    let mut v: Vec<u32> = Vec::new();
    let limit: u32 = va.saturating_add(size);
    if let Some(pe) = peek_u32(data, 0x3C) {
        if pe <= 0xFFFF_FFFF - 40 {
            if let Some(e) = peek_u32(data, (pe + 40) as usize) {
                if e >= va && e < limit {
                    v.push(e);
                }
            }
        }
    }
    assert(v@ =~= header_entry(data@, va, size));
    let w: Vec<u32> = add_record_entry(data, va, size, info3, 32, v);
    add_record_entry(data, va, size, info3, 64, w)
}

/// The eighteen bytes at `entry` under a shift, if they lie inside `s`.
pub open spec fn stub_bytes(s: Seq<u8>, entry: u32, shift: Option<u32>, n: nat) -> Option<Seq<u8>>
    decreases n,
{
    if n == 0 {
        Some(Seq::empty())
    } else {
        match (
            stub_bytes(s, entry, shift, (n - 1) as nat),
            candidate_byte(s, (entry + n - 1) as u32, shift),
        ) {
            (Some(v), Some(b)) => Some(v.push(b)),
            _ => None,
        }
    }
}

/// Whether `v` is the start-up stub: make room on the stack, call, give the room
/// back, jump.
pub open spec fn is_stub(v: Seq<u8>) -> bool {
    &&& v[0] == 0x48 && v[1] == 0x83 && v[2] == 0xEC
    &&& v[4] == 0xE8
    &&& v[9] == 0x48 && v[10] == 0x83 && v[11] == 0xC4
    &&& v[12] == v[3]
    &&& v[13] == 0xE9
}

/// How many of the two branches of the start-up stub at `entry` stay in the
/// code; `None` where there is no such stub.
pub open spec fn stub_score(s: Seq<u8>, va: u32, size: u32, entry: u32, shift: Option<u32>) -> Option<
    u8,
> {
    if va + size > u32::MAX || entry < va || entry + 18 > va + size {
        None
    } else {
        match stub_bytes(s, entry, shift, 18) {
            None => None,
            Some(v) => if !is_stub(v) {
                None
            } else {
                let call = entry + 9 + (le32(v, 5) as i32);
                let jump = entry + 18 + (le32(v, 14) as i32);
                Some(
                    ((if va <= call < va + size {
                        1int
                    } else {
                        0int
                    }) + (if va <= jump < va + size {
                        1int
                    } else {
                        0int
                    })) as u8,
                )
            },
        }
    }
}

fn score_stub(data: &[u8], va: u32, size: u32, entry: u32, shift: Option<u32>) -> (r: Option<u8>)
    requires
        shift matches Some(sh) ==> sh < 32,
    ensures
        r == stub_score(data@, va, size, entry, shift),
        r matches Some(x) ==> x <= 2,
{
    if size > 0xFFFF_FFFF - va {
        return None;
    }
    let end: u32 = va + size;
    if entry < va || end < 18 || entry > end - 18 {
        return None;
    }
    let mut v: Vec<u8> = Vec::new();
    let mut n: u32 = 0;
    while n < 18
        invariant
            n <= 18,
            va + size <= u32::MAX,
            va <= entry,
            entry + 18 <= va + size,
            shift matches Some(sh) ==> sh < 32,
            stub_bytes(data@, entry, shift, n as nat) == Some(v@),
            v@.len() == n,
        decreases 18 - n,
    {
        match byte_under(data, entry + n, shift) {
            None => {
                proof {
                    stub_none(data@, entry, shift, n as nat + 1, 18);
                }
                return None;
            },
            Some(b) => {
                v.push(b);
            },
        }
        n = n + 1;
    }
    if !(v[0] == 0x48 && v[1] == 0x83 && v[2] == 0xEC && v[4] == 0xE8 && v[9] == 0x48 && v[10]
        == 0x83 && v[11] == 0xC4 && v[12] == v[3] && v[13] == 0xE9) {
        return None;
    }
    let call_word: u32 = match peek_u32(&v, 5) {
        Some(x) => x,
        None => 0,
    };
    let jump_word: u32 = match peek_u32(&v, 14) {
        Some(x) => x,
        None => 0,
    };
    let call_rel: i32 = #[verifier::truncate]
    (call_word as i32);
    let jump_rel: i32 = #[verifier::truncate]
    (jump_word as i32);
    let call: i64 = entry as i64 + 9 + call_rel as i64;
    let jump: i64 = entry as i64 + 18 + jump_rel as i64;
    let a: u8 = if va as i64 <= call && call < end as i64 {
        1
    } else {
        0
    };
    let b: u8 = if va as i64 <= jump && jump < end as i64 {
        1
    } else {
        0
    };
    Some(a + b)
}

proof fn stub_none(s: Seq<u8>, entry: u32, shift: Option<u32>, m: nat, n: nat)
    requires
        stub_bytes(s, entry, shift, m) is None,
        m <= n,
    ensures
        stub_bytes(s, entry, shift, n) is None,
    decreases n,
{
    if m < n {
        stub_none(s, entry, shift, m, (n - 1) as nat);
    }
}

/// The shift that the start-up stub at one of the entries `k..` tells: the only
/// one of no pass (99), 0 and 15 under which both branches stay in the code.
pub open spec fn shift_by_stub(s: Seq<u8>, va: u32, size: u32, list: Seq<u32>, k: int) -> Option<u32>
    decreases list.len() - k,
{
    if !(0 <= k < list.len()) {
        None
    } else {
        let e = list[k];
        match (
            stub_score(s, va, size, e, None),
            stub_score(s, va, size, e, Some(0)),
            stub_score(s, va, size, e, Some(15)),
        ) {
            (Some(a), Some(b), Some(c)) => if a == 2 && b != 2 && c != 2 {
                Some(99)
            } else if a != 2 && b == 2 && c != 2 {
                Some(0)
            } else if a != 2 && b != 2 && c == 2 {
                Some(15)
            } else {
                shift_by_stub(s, va, size, list, k + 1)
            },
            _ => shift_by_stub(s, va, size, list, k + 1),
        }
    }
}

fn select_by_stub(data: &[u8], va: u32, size: u32, info3: u32) -> (r: Option<u32>)
    requires
        addressable(data@),
    ensures
        r == shift_by_stub(data@, va, size, entries(data@, va, size, info3), 0),
{
    let list: Vec<u32> = entry_list(data, va, size, info3);
    let mut k: usize = 0;
    while k < list.len()
        invariant
            k <= list@.len(),
            list@ == entries(data@, va, size, info3),
            shift_by_stub(data@, va, size, list@, 0) == shift_by_stub(
                data@,
                va,
                size,
                list@,
                k as int,
            ),
        decreases list@.len() - k,
    {
        let e: u32 = list[k];
        let a: Option<u8> = score_stub(data, va, size, e, None);
        let b: Option<u8> = score_stub(data, va, size, e, Some(0));
        let c: Option<u8> = score_stub(data, va, size, e, Some(15));
        if let (Some(a), Some(b), Some(c)) = (a, b, c) {
            if a == 2 && b != 2 && c != 2 {
                return Some(99);
            }
            if a != 2 && b == 2 && c != 2 {
                return Some(0);
            }
            if a != 2 && b != 2 && c == 2 {
                return Some(15);
            }
        }
        k = k + 1;
    }
    None
}

/// The length of the `CC` runs of at least four bytes that follow a `C3`, from
/// `i` on.
pub open spec fn padding(page: Seq<u8>, i: int) -> nat
    decreases page.len() - i,
    when 0 <= i
{
    if i >= page.len() {
        0
    } else if page[i] == 0xC3 {
        let j = past(page, 0xCC, i + 1, page.len() as int);
        proof {
            past_bounds(page, 0xCC, i + 1, page.len() as int);
        }
        let run = j - i - 1;
        (if run >= 4 {
            run as nat
        } else {
            0nat
        }) + padding(page, j)
    } else {
        padding(page, i + 1)
    }
}

/// [`past`] goes forward, and not beyond the end.
pub proof fn past_bounds(s: Seq<u8>, b: u8, i: int, end: int)
    requires
        i <= end,
    ensures
        i <= past(s, b, i, end) <= end,
    decreases end - i,
{
    if i < end && s[i] == b {
        past_bounds(s, b, i + 1, end);
    }
}

fn measure_padding(page: &[u8]) -> (r: u32)
    requires
        page@.len() == 0x1000,
    ensures
        r == padding(page@, 0),
        r <= 0x1000,
{
    let mut total: u32 = 0;
    let mut i: usize = 0;
    while i < 0x1000
        invariant
            i <= 0x1000,
            page@.len() == 0x1000,
            total + padding(page@, i as int) == padding(page@, 0),
            total <= i,
        decreases 0x1000 - i,
    {
        if page[i] == 0xC3 {
            let mut j: usize = i + 1;
            while j < 0x1000 && page[j] == 0xCC
                invariant
                    i < j <= 0x1000,
                    page@.len() == 0x1000,
                    past(page@, 0xCC, i + 1, 0x1000) == past(page@, 0xCC, j as int, 0x1000),
                decreases 0x1000 - j,
            {
                j = j + 1;
            }
            let run: u32 = (j - i - 1) as u32;
            if run >= 4 {
                total = total + run;
            }
            i = j;
        } else {
            i = i + 1;
        }
    }
    total
}

/// The padding in the first `n` sampled pages, as they are or after the pass
/// with a shift.
pub open spec fn padding_score(
    s: Seq<u8>,
    va: u32,
    pages: Seq<u32>,
    shift: Option<u32>,
    n: nat,
) -> nat
    decreases n,
{
    if n == 0 {
        0
    } else {
        let before = padding_score(s, va, pages, shift, (n - 1) as nat);
        let sp = pages[n - 1];
        match sample(s, va, sp) {
            None => before,
            Some(page) => before + padding(
                match shift {
                    None => page,
                    Some(sh) => page_pass(page, 0, (va >> 12u32).wrapping_add(sp) << sh, 256),
                },
                0,
            ),
        }
    }
}

fn score_padding(data: &[u8], va: u32, pages: &Vec<u32>, shift: Option<u32>) -> (r: u32)
    requires
        pages@.len() <= 4,
        shift matches Some(sh) ==> sh < 32,
    ensures
        r == padding_score(data@, va, pages@, shift, pages@.len()),
        r <= 0x4000,
{
    let mut total: u32 = 0;
    let mut n: usize = 0;
    while n < pages.len()
        invariant
            n <= pages@.len() <= 4,
            shift matches Some(sh) ==> sh < 32,
            total == padding_score(data@, va, pages@, shift, n as nat),
            total <= n * 0x1000,
        decreases pages@.len() - n,
    {
        let sp: u32 = pages[n];
        match sample_page(data, va, sp) {
            None => {},
            Some(mut page) => {
                if let Some(sh) = shift {
                    let key: u32 = (va >> 12u32).wrapping_add(sp) << sh;
                    proof {
                        page_pass_inside(page@, key);
                    }
                    let _ok = page_pass_checked(&mut page, 0, key);
                }
                total = total + measure_padding(&page);
            },
        }
        n = n + 1;
    }
    total
}

/// The `CC` bytes at the starts of blocks `1..n` of a page.
pub open spec fn block_starts(page: Seq<u8>, n: nat) -> nat
    decreases n,
{
    if n <= 1 {
        0
    } else {
        block_starts(page, (n - 1) as nat) + (if page[16 * (n - 1)] == 0xCC {
            1nat
        } else {
            0nat
        })
    }
}

/// The bytes of blocks `1..n` that the pass would turn into `CC`.
pub open spec fn pass_hits(page: Seq<u8>, key: u32, n: nat) -> nat
    decreases n,
{
    if n <= 1 {
        0
    } else {
        let o = page_target(0, key, (n - 1) as nat) as int;
        pass_hits(page, key, (n - 1) as nat) + (if page[o] ^ (page_key(key, n) as u8) == 0xCC {
            1nat
        } else {
            0nat
        })
    }
}

fn count_starts(page: &[u8]) -> (r: u32)
    requires
        page@.len() == 0x1000,
    ensures
        r == block_starts(page@, 256),
        r <= 256,
{
    let mut c: u32 = 0;
    let mut i: usize = 1;
    while i < 256
        invariant
            1 <= i <= 256,
            page@.len() == 0x1000,
            c == block_starts(page@, i as nat),
            c <= i,
        decreases 256 - i,
    {
        if page[i * 16] == 0xCC {
            c = c + 1;
        }
        i = i + 1;
    }
    c
}

fn count_hits(page: &[u8], key: u32) -> (r: u32)
    requires
        page@.len() == 0x1000,
    ensures
        r == pass_hits(page@, key, 256),
        r <= 256,
{
    let mut c: u32 = 0;
    let mut k: u32 = key;
    let mut i: u32 = 0;
    proof {
        page_pass_inside(page@, key);
    }
    while i < 256
        invariant
            i <= 256,
            page@.len() == 0x1000,
            page_inside(page@, 0, key, 256),
            k == page_key(key, i as nat),
            c == pass_hits(page@, key, i as nat),
            c <= i,
        decreases 256 - i,
    {
        let mixed: u32 = turn(k).wrapping_add(i);
        assert(mixed == page_mix(key, i as nat));
        k = mixed.wrapping_add(i);
        if i != 0 {
            let o: u32 = 0u32.wrapping_add(i.wrapping_mul(16)).wrapping_add(mixed & 0xFu32);
            assert(o == page_target(0, key, i as nat));
            let x: u8 = #[verifier::truncate]
            (k as u8);
            if page[o as usize] ^ x == 0xCC {
                c = c + 1;
            }
        }
        i = i + 1;
    }
    c
}

/// The block starts (no shift) or pass hits (with a shift) in the first `n`
/// sampled pages.
pub open spec fn hit_score(s: Seq<u8>, va: u32, pages: Seq<u32>, shift: Option<u32>, n: nat) -> nat
    decreases n,
{
    if n == 0 {
        0
    } else {
        let before = hit_score(s, va, pages, shift, (n - 1) as nat);
        let sp = pages[n - 1];
        match sample(s, va, sp) {
            None => before,
            Some(page) => before + (match shift {
                None => block_starts(page, 256),
                Some(sh) => pass_hits(page, (va >> 12u32).wrapping_add(sp) << sh, 256),
            }),
        }
    }
}

fn score_hits(data: &[u8], va: u32, pages: &Vec<u32>, shift: Option<u32>) -> (r: u32)
    requires
        pages@.len() <= 4,
        shift matches Some(sh) ==> sh < 32,
    ensures
        r == hit_score(data@, va, pages@, shift, pages@.len()),
        r <= 0x400,
{
    let mut total: u32 = 0;
    let mut n: usize = 0;
    while n < pages.len()
        invariant
            n <= pages@.len() <= 4,
            shift matches Some(sh) ==> sh < 32,
            total == hit_score(data@, va, pages@, shift, n as nat),
            total <= n * 0x100,
        decreases pages@.len() - n,
    {
        let sp: u32 = pages[n];
        match sample_page(data, va, sp) {
            None => {},
            Some(page) => {
                let hits: u32 = match shift {
                    None => count_starts(&page),
                    Some(sh) => count_hits(&page, (va >> 12u32).wrapping_add(sp) << sh),
                };
                total = total + hits;
            },
        }
        n = n + 1;
    }
    total
}

/// The sampled pages of `n` pages of code: all of at most four, else four spread
/// over the middle.
pub open spec fn spread_pages(n: u32) -> Seq<u32> {
    if n <= 4 {
        Seq::new(n as nat, |i: int| i as u32)
    } else {
        let margin = if n / 8 >= 1 {
            n / 8
        } else {
            1
        };
        let step = if (n - 2 * margin) / 4 >= 1 {
            (n - 2 * margin) / 4
        } else {
            1
        };
        seq![
            margin as u32,
            (margin + step) as u32,
            (margin + 2 * step) as u32,
            (margin + 3 * step) as u32,
        ]
    }
}

fn sample_spread(n: u32) -> (v: Vec<u32>)
    requires
        n <= 0x10_0000,
    ensures
        v@ == spread_pages(n),
        v@.len() <= 4,
{
    let mut v: Vec<u32> = Vec::new();
    if n <= 4 {
        let mut i: u32 = 0;
        while i < n
            invariant
                i <= n <= 4,
                v@ =~= Seq::new(i as nat, |k: int| k as u32),
            decreases n - i,
        {
            v.push(i);
            i = i + 1;
        }
        return v;
    }
    let margin: u32 = if n / 8 >= 1 {
        n / 8
    } else {
        1
    };
    let part: u32 = (n - 2 * margin) / 4;
    let step: u32 = if part >= 1 {
        part
    } else {
        1
    };
    v.push(margin);
    v.push(margin + step);
    v.push(margin + 2 * step);
    v.push(margin + 3 * step);
    assert(v@ =~= spread_pages(n));
    v
}

/// The shift whose padding rises at least eight bytes above the plain padding,
/// or 99.
pub open spec fn by_padding(none: nat, s0: nat, s15: nat) -> u32 {
    let first = s0 > none;
    let best = if first {
        s0
    } else {
        none
    };
    if s15 > best {
        if s15 - none < 8 {
            99
        } else {
            15
        }
    } else if first {
        if s0 - none < 8 {
            99
        } else {
            0
        }
    } else {
        99
    }
}

/// The shift whose hits are at least twice the plain hits and at least eight, or
/// 99.
pub open spec fn by_hits(none: nat, s0: nat, s15: nat) -> u32 {
    let first = s0 > none;
    let best = if first {
        s0
    } else {
        none
    };
    if s15 > best {
        if s15 < 2 * none || s15 < 8 {
            99
        } else {
            15
        }
    } else if first {
        if s0 < 2 * none || s0 < 8 {
            99
        } else {
            0
        }
    } else {
        99
    }
}

/// The shift of the page keys of a 64-bit image's code, or 99 where its code is
/// plain. A recognised start-up stub decides; else code of less than two pages
/// has shift 0; else padding decides where there is any, and hits where there is
/// none.
pub open spec fn dd8_shift(s: Seq<u8>, va: u32, size: u32, info3: u32) -> u32 {
    match shift_by_stub(s, va, size, entries(s, va, size, info3), 0) {
        Some(sh) => sh,
        None => {
            let total = size >> 12u32;
            if total < 2 {
                0
            } else {
                let pages = spread_pages(total);
                let n = pages.len();
                let none = padding_score(s, va, pages, None, n);
                let s0 = padding_score(s, va, pages, Some(0), n);
                let s15 = padding_score(s, va, pages, Some(15), n);
                if none != 0 || s0 != 0 || s15 != 0 {
                    by_padding(none, s0, s15)
                } else {
                    by_hits(
                        hit_score(s, va, pages, None, n),
                        hit_score(s, va, pages, Some(0), n),
                        hit_score(s, va, pages, Some(15), n),
                    )
                }
            }
        },
    }
}

fn pick_by_padding(none: u32, s0: u32, s15: u32) -> (r: u32)
    ensures
        r == by_padding(none as nat, s0 as nat, s15 as nat),
{
    let mut best: u32 = none;
    let mut shift: u32 = 99;
    if s0 > best {
        best = s0;
        shift = 0;
    }
    if s15 > best {
        best = s15;
        shift = 15;
    }
    if shift != 99 && best - none < 8 {
        shift = 99;
    }
    shift
}

fn pick_by_hits(none: u32, s0: u32, s15: u32) -> (r: u32)
    requires
        none <= 0x400,
    ensures
        r == by_hits(none as nat, s0 as nat, s15 as nat),
{
    let mut best: u32 = none;
    let mut shift: u32 = 99;
    if s0 > best {
        best = s0;
        shift = 0;
    }
    if s15 > best {
        best = s15;
        shift = 15;
    }
    if shift != 99 && (best < none * 2 || best < 8) {
        shift = 99;
    }
    shift
}

/// Choose the shift of the page keys of a 64-bit image's code, or 99 where its
/// code is plain.
pub fn select_dd8_shift(data: &[u8], text_va: u32, text_size: u32, info3: u32) -> (r: u32)
    requires
        addressable(data@),
    ensures
        r == dd8_shift(data@, text_va, text_size, info3),
        r == 0 || r == 15 || r == 99,
{
    if let Some(sh) = select_by_stub(data, text_va, text_size, info3) {
        proof {
            stub_shifts(
                data@,
                text_va,
                text_size,
                entries(data@, text_va, text_size, info3),
                0,
            );
        }
        return sh;
    }
    let total: u32 = text_size >> 12u32;
    proof {
        masks(text_size, 0);
    }
    if total < 2 {
        return 0;
    }
    let pages: Vec<u32> = sample_spread(total);
    let none: u32 = score_padding(data, text_va, &pages, None);
    let s0: u32 = score_padding(data, text_va, &pages, Some(0));
    let s15: u32 = score_padding(data, text_va, &pages, Some(15));
    if none != 0 || s0 != 0 || s15 != 0 {
        pick_by_padding(none, s0, s15)
    } else {
        pick_by_hits(
            score_hits(data, text_va, &pages, None),
            score_hits(data, text_va, &pages, Some(0)),
            score_hits(data, text_va, &pages, Some(15)),
        )
    }
}

proof fn stub_shifts(s: Seq<u8>, va: u32, size: u32, list: Seq<u32>, k: int)
    ensures
        shift_by_stub(s, va, size, list, k) matches Some(sh) ==> sh == 0 || sh == 15 || sh == 99,
    decreases list.len() - k,
{
    if 0 <= k < list.len() {
        stub_shifts(s, va, size, list, k + 1);
    }
}

} // verus!
