//! What the choice of the page key of code rests on.

use vstd::prelude::*;

use crate::bits::pages_by_shifts;
use crate::pe::dd8::{
    candidate_byte, candidate_run, dd8_shift, entries, hit_score, padding, padding_score,
    page_inside, page_mix, page_pass, page_target, shift_by_stub, spread_pages, stub_score,
};
use crate::pe::discovery::past;

verus! {

proof fn run_follows_pass(s: Seq<u8>, rva: u32, va: u32, key: u32, n: nat)
    requires
        n <= 256,
        rva < s.len(),
        va + 4096 <= u32::MAX + 1,
        va == (rva >> 12u32) << 12u32,
        page_inside(s, va, key, n),
    ensures
        page_pass(s, va, key, n).len() == s.len(),
        page_pass(s, va, key, n)[rva as int] == candidate_run(s[rva as int], rva, key, n),
    decreases n,
{
    if n > 0 {
        let i = (n - 1) as nat;
        assert forall|j: nat| 1 <= j < i implies #[trigger] page_target(va, key, j) < s.len() by {}
        run_follows_pass(s, rva, va, key, i);
        if n > 1 {
            assert(page_target(va, key, i) < s.len());
        }
    }
}

proof fn later_blocks_do_not_matter(b: u8, rva: u32, va: u32, key: u32, m: nat, n: nat)
    requires
        va + 4096 <= u32::MAX + 1,
        va == (rva >> 12u32) << 12u32,
        va <= rva < va + 16 * m,
        m <= n <= 256,
    ensures
        candidate_run(b, rva, key, n) == candidate_run(b, rva, key, m),
    decreases n,
{
    if n > m {
        let i = (n - 1) as nat;
        later_blocks_do_not_matter(b, rva, va, key, m, i);
        pages_by_shifts(page_mix(key, i), 0);
        assert((i as u32).wrapping_mul(16) == 16 * i);
        assert(page_target(va, key, i) >= va + 16 * i);
    }
}

/// A byte on trial under a shift is the byte that the pass over its page with that shift
/// leaves.
pub proof fn trial_is_what_the_pass_leaves(s: Seq<u8>, rva: u32, shift: u32)
    requires
        rva < s.len(),
        page_inside(s, (rva / 4096 * 4096) as u32, (rva / 4096) << shift, 256),
    ensures
        candidate_byte(s, rva, Some(shift)) == Some(
            page_pass(s, (rva / 4096 * 4096) as u32, (rva / 4096) << shift, 256)[rva as int],
        ),
{
    pages_by_shifts(rva, rva / 4096);
    let va = (rva / 4096 * 4096) as u32;
    let key = (rva / 4096) << shift;
    let o = rva & 0xFFFu32;
    pages_by_shifts(o, 0);
    let m = (o / 16 + 1) as nat;
    assert(o == rva - va);
    run_follows_pass(s, rva, va, key, 256);
    later_blocks_do_not_matter(s[rva as int], rva, va, key, m, 256);
}

/// Whether a page holds a return that at least four bytes of padding follow.
pub open spec fn has_padding(page: Seq<u8>, from: int) -> bool {
    exists|i: int| from <= i && #[trigger] is_padded(page, i)
}

/// Whether a return stands at `i` of a page and at least four bytes of padding behind it.
pub open spec fn is_padded(page: Seq<u8>, i: int) -> bool {
    &&& 0 <= i
    &&& i + 4 < page.len()
    &&& page[i] == 0xC3
    &&& page[i + 1] == 0xCC
    &&& page[i + 2] == 0xCC
    &&& page[i + 3] == 0xCC
    &&& page[i + 4] == 0xCC
}

proof fn past_is_padding(s: Seq<u8>, b: u8, i: int, end: int)
    requires
        0 <= i <= end <= s.len(),
    ensures
        i <= past(s, b, i, end) <= end,
        forall|k: int| i <= k < past(s, b, i, end) ==> #[trigger] s[k] == b,
        past(s, b, i, end) < end ==> s[past(s, b, i, end)] != b,
    decreases end - i,
{
    if i < end && s[i] == b {
        past_is_padding(s, b, i + 1, end);
    }
}

/// Padding is counted exactly where a return is followed by at least four bytes of it.
pub proof fn padding_is_counted_where_it_is(page: Seq<u8>, i: int)
    requires
        0 <= i,
    ensures
        padding(page, i) > 0 <==> has_padding(page, i),
    decreases page.len() - i,
{
    if i < page.len() {
        if page[i] == 0xC3 {
            let j = past(page, 0xCC, i + 1, page.len() as int);
            past_is_padding(page, 0xCC, i + 1, page.len() as int);
            padding_is_counted_where_it_is(page, j);
            if j - i - 1 >= 4 {
                assert(page[i + 1] == 0xCC && page[i + 2] == 0xCC && page[i + 3] == 0xCC && page[i + 4]
                    == 0xCC);
                assert(is_padded(page, i));
            } else {
                assert forall|k: int| i <= k < j implies !(#[trigger] is_padded(page, k)) by {
                    if k > i {
                        assert(page[k] == 0xCC);
                    } else if is_padded(page, i) {
                        assert(page[j] == 0xCC);
                    }
                }
                if has_padding(page, i) {
                    let k = choose|k: int| i <= k && #[trigger] is_padded(page, k);
                    assert(j <= k && is_padded(page, k));
                }
            }
            if has_padding(page, j) {
                let k = choose|k: int| j <= k && #[trigger] is_padded(page, k);
                assert(i <= k && is_padded(page, k));
            }
        } else {
            padding_is_counted_where_it_is(page, i + 1);
            if has_padding(page, i) {
                let k = choose|k: int| i <= k && #[trigger] is_padded(page, k);
                assert(i + 1 <= k && is_padded(page, k));
            }
            if has_padding(page, i + 1) {
                let k = choose|k: int| i + 1 <= k && #[trigger] is_padded(page, k);
                assert(i <= k && is_padded(page, k));
            }
        }
    } else {
        assert forall|k: int| i <= k implies !(#[trigger] is_padded(page, k)) by {}
    }
}

/// Whether the start-up stub at an entry is whole under all three readings of the code, and
/// both of its branches stay in the code under the reading `a` alone.
pub open spec fn stub_tells(
    s: Seq<u8>,
    va: u32,
    size: u32,
    entry: u32,
    a: Option<u32>,
    b: Option<u32>,
    c: Option<u32>,
) -> bool {
    &&& stub_score(s, va, size, entry, a) == Some(2u8)
    &&& stub_score(s, va, size, entry, b) is Some
    &&& stub_score(s, va, size, entry, b) != Some(2u8)
    &&& stub_score(s, va, size, entry, c) is Some
    &&& stub_score(s, va, size, entry, c) != Some(2u8)
}

/// Whether the stub at an entry tells the shift `k`.
#[verifier::opaque]
pub open spec fn tells(s: Seq<u8>, va: u32, size: u32, entry: u32, k: u32) -> bool {
    ||| k == 99 && stub_tells(s, va, size, entry, None, Some(0), Some(15))
    ||| k == 0 && stub_tells(s, va, size, entry, Some(0), None, Some(15))
    ||| k == 15 && stub_tells(s, va, size, entry, Some(15), None, Some(0))
}

/// Whether the stub at an entry tells nothing.
pub open spec fn tells_nothing(s: Seq<u8>, va: u32, size: u32, entry: u32) -> bool {
    !tells(s, va, size, entry, 99) && !tells(s, va, size, entry, 0) && !tells(s, va, size, entry, 15)
}

#[verifier::rlimit(60)]
proof fn one_stub_decides(s: Seq<u8>, va: u32, size: u32, list: Seq<u32>, k: int)
    requires
        0 <= k < list.len(),
    ensures
        match shift_by_stub(s, va, size, list, k) {
            Some(r) => tells(s, va, size, list[k], r) || (tells_nothing(s, va, size, list[k])
                && shift_by_stub(s, va, size, list, k + 1) == Some(r)),
            None => tells_nothing(s, va, size, list[k]) && shift_by_stub(s, va, size, list, k + 1)
                is None,
        },
{
    reveal(tells);
    let e = list[k];
    let a = stub_score(s, va, size, e, None);
    let b = stub_score(s, va, size, e, Some(0));
    let c = stub_score(s, va, size, e, Some(15));
    assert(shift_by_stub(s, va, size, list, k) == (match (a, b, c) {
        (Some(a), Some(b), Some(c)) => if a == 2 && b != 2 && c != 2 {
            Some(99)
        } else if a != 2 && b == 2 && c != 2 {
            Some(0)
        } else if a != 2 && b != 2 && c == 2 {
            Some(15)
        } else {
            shift_by_stub(s, va, size, list, k + 1)
        },
        _ => shift_by_stub(s, va, size, list, k + 1),
    }));
}

/// Whether the first of the entries from `k` on whose stub tells a shift is number `i`, and
/// tells `r`.
pub open spec fn first_tells(
    s: Seq<u8>,
    va: u32,
    size: u32,
    list: Seq<u32>,
    k: int,
    i: int,
    r: u32,
) -> bool {
    &&& k <= i < list.len()
    &&& tells(s, va, size, list[i], r)
    &&& all_tell_nothing(s, va, size, list, k, i)
}

/// Whether the stubs at the entries `k..i` tell nothing.
pub open spec fn all_tell_nothing(
    s: Seq<u8>,
    va: u32,
    size: u32,
    list: Seq<u32>,
    k: int,
    i: int,
) -> bool {
    forall|j: int| k <= j < i ==> tells_nothing(s, va, size, #[trigger] list[j])
}

/// The first entry whose stub tells a shift decides.
pub proof fn first_stub_decides(s: Seq<u8>, va: u32, size: u32, list: Seq<u32>, k: int)
    requires
        0 <= k <= list.len(),
    ensures
        match shift_by_stub(s, va, size, list, k) {
            Some(r) => exists|i: int| #[trigger] first_tells(s, va, size, list, k, i, r),
            None => all_tell_nothing(s, va, size, list, k, list.len() as int),
        },
    decreases list.len() - k,
{
    if k < list.len() {
        first_stub_decides(s, va, size, list, k + 1);
        one_stub_decides(s, va, size, list, k);
        match shift_by_stub(s, va, size, list, k) {
            Some(r) => {
                if tells(s, va, size, list[k], r) {
                    assert(first_tells(s, va, size, list, k, k, r));
                } else {
                    let i = choose|i: int| #[trigger] first_tells(s, va, size, list, k + 1, i, r);
                    assert(first_tells(s, va, size, list, k, i, r));
                }
            },
            None => {},
        }
    }
}

/// Where no stub tells the shift of code of two pages or more, the padding in the sampled
/// pages does: a shift is chosen exactly where it brings out at least eight bytes of padding
/// more than the plain pages have, and more than the other shift does; on a draw the
/// shift 0 is. Where there is no padding at all, hits decide: at least eight, more than and
/// twice as many as the plain pages have.
pub proof fn scores_decide(s: Seq<u8>, va: u32, size: u32, info3: u32)
    requires
        shift_by_stub(s, va, size, entries(s, va, size, info3), 0) is None,
        size >= 0x2000,
    ensures
        ({
            let pages = spread_pages(size / 4096);
            let n = pages.len();
            let a = padding_score(s, va, pages, None, n);
            let b = padding_score(s, va, pages, Some(0), n);
            let c = padding_score(s, va, pages, Some(15), n);
            let x = hit_score(s, va, pages, None, n);
            let y = hit_score(s, va, pages, Some(0), n);
            let z = hit_score(s, va, pages, Some(15), n);
            let r = dd8_shift(s, va, size, info3);
            &&& a + b + c > 0 ==> {
                &&& r == 0 <==> b >= a + 8 && b >= c
                &&& r == 15 <==> c >= a + 8 && c > b
            }
            &&& a + b + c == 0 ==> {
                &&& r == 0 <==> y >= 8 && y > x && y >= 2 * x && y >= z
                &&& r == 15 <==> z >= 8 && z > x && z >= 2 * x && z > y
            }
            &&& r == 0 || r == 15 || r == 99
        }),
{
    pages_by_shifts(size, 0);
}

} // verus!
