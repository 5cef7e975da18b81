//! How code is enciphered page by page, and that it is deciphered.

use vstd::prelude::*;

use crate::bits::{pages_by_shifts, xor_twice};
use crate::pe::config64::Config;
use crate::pe::dd8::{dd8_formula, formula_key, page_inside, page_key, page_mix, page_pass, page_target};
use crate::pe::finish32;
use crate::pe::finish64::{
    code_entered, code_passed, entry_block, made_native, marked_finished, pages_passed, shift_of,
    unmarked_finished, with_directories, with_managed, with_named_imports, with_tls_directory,
};
use crate::pe::headers::{with_headers, Found};
use crate::pe::steps::{corrupt, has2, has4, w32, Out};

verus! {

/// A key behind `i` blocks of a page.
pub open spec fn rolled(key: u32, i: nat) -> u32
    decreases i,
{
    if i == 0 {
        key
    } else {
        turned(rolled(key, (i - 1) as nat)).wrapping_add((2 * (i - 1)) as u32)
    }
}

/// A key turned right by fifteen bits.
pub open spec fn turned(key: u32) -> u32 {
    (key >> 15u32) | (key << 17u32)
}

/// The byte `b` at `o` of a page, enciphered: of each sixteen bytes but the first sixteen,
/// one byte is combined with the key.
pub open spec fn scrambled(b: u8, key: u32, o: int) -> u8 {
    let i = o / 16;
    if i >= 1 && o % 16 == turned(rolled(key, i as nat)).wrapping_add(i as u32) % 16 {
        b ^ (rolled(key, (i + 1) as nat) as u8)
    } else {
        b
    }
}

/// `s` with the pages in `page..end` enciphered, each under its number, shifted.
pub open spec fn enciphered(s: Seq<u8>, page: int, end: int, shift: u32) -> Seq<u8> {
    Seq::new(
        s.len(),
        |a: int|
            if page <= a / 4096 < end {
                scrambled(s[a], ((a / 4096) as u32) << shift, a % 4096)
            } else {
                s[a]
            },
    )
}

proof fn keys_roll(key: u32, i: nat)
    requires
        i <= 257,
    ensures
        page_key(key, i) == rolled(key, i),
    decreases i,
{
    if i > 0 {
        keys_roll(key, (i - 1) as nat);
    }
}

proof fn scrambled_twice(b: u8, key: u32, o: int)
    ensures
        scrambled(scrambled(b, key, o), key, o) == b,
{
    xor_twice(0, 0, b, rolled(key, (o / 16 + 1) as nat) as u8, 0, 0);
}

proof fn pass_scrambles(s: Seq<u8>, va: u32, key: u32, n: nat)
    requires
        1 <= n <= 256,
        va + 4096 <= s.len(),
        va + 4096 <= 0x1_0000_0000,
    ensures
        page_inside(s, va, key, n),
        page_pass(s, va, key, n).len() == s.len(),
        forall|a: int|
            0 <= a < s.len() ==> #[trigger] page_pass(s, va, key, n)[a] == (if va <= a < va + 16 * n {
                scrambled(s[a], key, a - va)
            } else {
                s[a]
            }),
    decreases n,
{
    let i = (n - 1) as nat;
    let t = page_pass(s, va, key, i);
    if n > 1 {
        pass_scrambles(s, va, key, i);
        keys_roll(key, i);
        keys_roll(key, n);
        let m = page_mix(key, i);
        pages_by_shifts(m, 0);
        assert(m == turned(rolled(key, i)).wrapping_add(i as u32));
        assert((i as u32).wrapping_mul(16) == 16 * i);
        let o = page_target(va, key, i) as int;
        assert(o == va + 16 * i + m % 16);
        let c = o - va;
        assert(c / 16 == i && c % 16 == m % 16);
        assert forall|a: int| 0 <= a < s.len() implies #[trigger] page_pass(s, va, key, n)[a] == (if va
            <= a < va + 16 * n {
            scrambled(s[a], key, a - va)
        } else {
            s[a]
        }) by {
            if va + 16 * i <= a < va + 16 * n {
                assert((a - va) / 16 == i);
                assert((a - va) % 16 == a - va - 16 * i);
            }
        }
        assert forall|j: nat| 1 <= j < n implies #[trigger] page_target(va, key, j) < s.len() by {
            if j < i {
                assert(page_inside(s, va, key, i));
            }
        }
    } else {
        assert(t == s);
        assert forall|a: int| va <= a < va + 16 implies #[trigger] s[a] == scrambled(
            s[a],
            key,
            a - va,
        ) by {
            assert((a - va) / 16 == 0);
        }
    }
}

proof fn page_is_deciphered(s: Seq<u8>, page: u32, end: int, shift: u32)
    requires
        page < end,
        end * 4096 <= s.len() <= u32::MAX,
        shift < 32,
    ensures
        page_inside(enciphered(s, page as int, end, shift), page << 12u32, page << shift, 256),
        page_pass(enciphered(s, page as int, end, shift), page << 12u32, page << shift, 256)
            == enciphered(s, page + 1, end, shift),
{
    let e = enciphered(s, page as int, end, shift);
    let va = page << 12u32;
    let key = page << shift;
    assert(page < 0x10_0000);
    pages_by_shifts(0, page);
    pass_scrambles(e, va, key, 256);
    let after = page_pass(e, va, key, 256);
    let want = enciphered(s, page + 1, end, shift);
    assert forall|a: int| 0 <= a < s.len() implies after[a] == want[a] by {
        if va <= a < va + 4096 {
            assert(a / 4096 == page && a % 4096 == a - va);
            scrambled_twice(s[a], key, a - va);
        } else {
            assert(a / 4096 != page);
        }
    }
    assert(after =~= want);
}

proof fn pages_are_deciphered(s: Seq<u8>, page: u32, end: u32, shift: u32)
    requires
        end * 4096 <= s.len() <= u32::MAX,
        shift < 32,
    ensures
        pages_passed(enciphered(s, page as int, end as int, shift), page, end, shift) == Ok::<
            Seq<u8>,
            crate::error::UnpackError,
        >(s),
    decreases end - page,
{
    if page < end {
        page_is_deciphered(s, page, end as int, shift);
        pages_are_deciphered(s, (page + 1) as u32, end, shift);
    } else {
        assert(enciphered(s, page as int, end as int, shift) =~= s);
    }
}

/// Whether a section of code lies inside an image.
pub open spec fn has_code(s: Seq<u8>, w: Found) -> bool {
    w.text_va + w.text_size <= s.len() <= u32::MAX
}

/// An image with its code enciphered under a shift.
pub open spec fn with_code_enciphered(s: Seq<u8>, w: Found, shift: u32) -> Seq<u8> {
    enciphered(s, w.text_va as int / 4096, (w.text_va + w.text_size) / 4096, shift)
}

/// Code that was enciphered under a shift that is recognised, or given, is deciphered to
/// what it was.
pub proof fn enciphered_code_comes_back(
    s: Seq<u8>,
    w: Found,
    info3: u32,
    forced: Option<u32>,
    shift: u32,
)
    requires
        has_code(s, w),
        shift < 32,
        shift_of(with_code_enciphered(s, w, shift), w, info3, forced) == shift,
    ensures
        code_passed(with_code_enciphered(s, w, shift), w, info3, forced) == Ok::<
            Seq<u8>,
            crate::error::UnpackError,
        >(s),
{
    let sum = w.text_va.wrapping_add(w.text_size);
    assert(sum == w.text_va + w.text_size);
    pages_by_shifts(w.text_va, 0);
    pages_by_shifts(sum, 0);
    pages_are_deciphered(s, w.text_va >> 12u32, sum >> 12u32, shift);
}

/// Code that is recognised as plain, or said to be, stays as it is.
pub proof fn plain_code_stays(s: Seq<u8>, w: Found, info3: u32, forced: Option<u32>)
    requires
        shift_of(s, w, info3, forced) == 99,
    ensures
        code_passed(s, w, info3, forced) == Ok::<Seq<u8>, crate::error::UnpackError>(s),
{
}

/// A shift that is given is taken.
pub proof fn given_shift_is_taken(s: Seq<u8>, w: Found, info3: u32, k: u32)
    ensures
        shift_of(s, w, info3, Some(k)) == k,
{
}

/// An image of a marked build with enciphered code is finished as if its code had been
/// plain.
pub proof fn marked_image_with_enciphered_code_is_finished(
    s: Seq<u8>,
    t: Seq<u8>,
    f: Seq<u8>,
    pe0: u32,
    info3: u32,
    plain: Seq<u8>,
    w: Found,
    shift: u32,
)
    requires
        has_code(plain, w),
        shift < 32,
        shift_of(with_code_enciphered(plain, w, shift), w, info3, None) == shift,
        with_headers(s, f, pe0, false) == Ok::<(Seq<u8>, Found), crate::error::UnpackError>(
            (with_code_enciphered(plain, w, shift), w),
        ),
        with_headers(t, f, pe0, false) == Ok::<(Seq<u8>, Found), crate::error::UnpackError>(
            (plain, w),
        ),
    ensures
        marked_finished(s, f, pe0, info3, None) == marked_finished(t, f, pe0, info3, Some(99)),
{
    enciphered_code_comes_back(plain, w, info3, None, shift);
    plain_code_stays(plain, w, info3, Some(99));
}

/// `s` with the pages of code in `page..end` behind `va` enciphered, each under a multiple
/// of its number.
pub open spec fn enciphered32(s: Seq<u8>, va: int, page: int, end: int, unit: u32) -> Seq<u8> {
    Seq::new(
        s.len(),
        |a: int|
            if page <= (a - va) / 4096 < end {
                scrambled(s[a], unit.wrapping_mul(((a - va) / 4096 + 1) as u32), (a - va) % 4096)
            } else {
                s[a]
            },
    )
}

/// What the number of a page is multiplied by.
pub open spec fn key_unit(big: bool) -> u32 {
    if big {
        0x8000
    } else {
        1
    }
}

proof fn pages32_are_deciphered(s: Seq<u8>, va: u32, page: u32, end: u32, big: bool)
    requires
        va + end * 4096 <= s.len() <= u32::MAX,
    ensures
        finish32::pages_passed(
            enciphered32(s, va as int, page as int, end as int, key_unit(big)),
            va,
            page,
            end,
            big,
        ) == Ok::<Seq<u8>, crate::error::UnpackError>(s),
    decreases end - page,
{
    let unit = key_unit(big);
    let e = enciphered32(s, va as int, page as int, end as int, unit);
    if page < end {
        let p = va.wrapping_add(page.wrapping_mul(0x1000));
        assert(page.wrapping_mul(0x1000) == page * 4096);
        assert(p == va + page * 4096);
        let key = formula_key(big, page);
        assert(key == unit.wrapping_mul((page + 1) as u32));
        pass_scrambles(e, p, key, 256);
        let after = page_pass(e, p, key, 256);
        let want = enciphered32(s, va as int, page + 1, end as int, unit);
        assert forall|a: int| 0 <= a < s.len() implies after[a] == want[a] by {
            if p <= a < p + 4096 {
                assert((a - va) / 4096 == page && (a - va) % 4096 == a - p);
                scrambled_twice(s[a], key, a - p);
            } else {
                assert((a - va) / 4096 != page);
            }
        }
        assert(after =~= want);
        pages32_are_deciphered(s, va, (page + 1) as u32, end, big);
    } else {
        assert(e =~= s);
    }
}

/// A 32-bit image with its code enciphered.
pub open spec fn with_code_enciphered32(s: Seq<u8>, w: Found, big: bool) -> Seq<u8> {
    enciphered32(s, w.text_va as int, 0, w.text_size as int / 4096, key_unit(big))
}

/// Code of a 32-bit image that was enciphered under keys that are recognised is deciphered
/// to what it was.
pub proof fn enciphered_code_comes_back32(s: Seq<u8>, w: Found, big: bool)
    requires
        has_code(s, w),
        w.text_va != 0,
        dd8_formula(with_code_enciphered32(s, w, big), w.text_va, w.text_size) == Some(big),
    ensures
        finish32::code_passed(with_code_enciphered32(s, w, big), w) == Ok::<
            Seq<u8>,
            crate::error::UnpackError,
        >(s),
{
    let e = with_code_enciphered32(s, w, big);
    if w.text_size == 0 {
        assert(e =~= s);
    } else {
        let n = w.text_size / 4096;
        let pages = crate::pe::dd8::quarter_pages(n);
        assert forall|k: int| 0 <= k < pages.len() implies w.text_va + #[trigger] pages[k] * 0x1000
            <= u32::MAX by {
            assert(pages[k] < n);
        }
        pages32_are_deciphered(s, w.text_va, 0, n, big);
    }
}

/// Code of a 32-bit image that is recognised as plain stays as it is.
pub proof fn plain_code_stays32(s: Seq<u8>, w: Found)
    requires
        has_code(s, w),
        dd8_formula(s, w.text_va, w.text_size) is None,
    ensures
        finish32::code_passed(s, w) == Ok::<Seq<u8>, crate::error::UnpackError>(s),
{
    let n = w.text_size / 4096;
    let pages = crate::pe::dd8::quarter_pages(n);
    assert forall|k: int| 0 <= k < pages.len() implies w.text_va + #[trigger] pages[k] * 0x1000
        <= u32::MAX by {
        assert(pages[k] < n);
    }
}

/// An image of an unmarked build, whose entry point lies in its code, has its code
/// deciphered to what it was.
pub proof fn entered_code_comes_back(
    s: Seq<u8>,
    w: Found,
    info3: u32,
    forced: Option<u32>,
    shift: u32,
    pe: u32,
)
    requires
        has_code(s, w),
        shift < 32,
        shift_of(with_code_enciphered(s, w, shift), w, info3, forced) == shift,
        has4(with_code_enciphered(s, w, shift), pe.wrapping_add(40)),
        0 < w.text_va <= w32(with_code_enciphered(s, w, shift), pe.wrapping_add(40)) < w.text_va
            + w.text_size,
    ensures
        code_entered(with_code_enciphered(s, w, shift), w, info3, forced, pe) == Ok::<
            Seq<u8>,
            crate::error::UnpackError,
        >(s),
{
    enciphered_code_comes_back(s, w, info3, forced, shift);
}

/// Code that the entry point does not lie in stays as it is.
pub proof fn code_not_entered_stays(s: Seq<u8>, w: Found, info3: u32, forced: Option<u32>, pe: u32)
    requires
        has_code(s, w),
        has4(s, pe.wrapping_add(40)),
        !(0 < w.text_va <= w32(s, pe.wrapping_add(40)) < w.text_va + w.text_size),
    ensures
        code_entered(s, w, info3, forced, pe) == Ok::<Seq<u8>, crate::error::UnpackError>(s),
{
}

/// What becomes of an image of an unmarked build behind its code.
spec fn after_code(d: Seq<u8>, f: Seq<u8>, pe0: u32, pe: u32) -> Out<Seq<u8>> {
    match with_named_imports(d, pe) {
        Err(e) => Err(e),
        Ok(g) => match with_managed(g, f, pe0, pe) {
            Err(e) => Err(e),
            Ok((h, managed)) => match with_tls_directory(h, f, pe0, pe, true) {
                Err(e) => Err(e),
                Ok(k) => if !has2(k, pe.wrapping_add(22)) {
                    corrupt()
                } else {
                    made_native(k, pe, managed)
                },
            },
        },
    }
}

proof fn code_is_reached(
    s: Seq<u8>,
    f: Seq<u8>,
    pe0: u32,
    info3: u32,
    c: Config,
    forced: Option<u32>,
    a: Seq<u8>,
    w: Found,
    b: Seq<u8>,
    d: Seq<u8>,
)
    requires
        with_headers(s, f, pe0, false) == Ok::<(Seq<u8>, Found), crate::error::UnpackError>((a, w)),
        entry_block(a, info3) is Ok,
        with_directories(a, entry_block(a, info3)->Ok_0.0, entry_block(a, info3)->Ok_0.1, w32(a, 60), c)
            == Ok::<Seq<u8>, crate::error::UnpackError>(b),
        code_entered(b, w, info3, forced, w32(a, 60)) == Ok::<Seq<u8>, crate::error::UnpackError>(d),
    ensures
        unmarked_finished(s, f, pe0, info3, c, forced) == after_code(d, f, pe0, w32(a, 60)),
{
}

/// An image of an unmarked build with enciphered code is finished as if its code had been
/// plain.
pub proof fn unmarked_image_with_enciphered_code_is_finished(
    s: Seq<u8>,
    t: Seq<u8>,
    f: Seq<u8>,
    pe0: u32,
    info3: u32,
    c: Config,
    a: Seq<u8>,
    b: Seq<u8>,
    plain: Seq<u8>,
    w: Found,
    shift: u32,
)
    requires
        has_code(plain, w),
        shift < 32,
        shift_of(with_code_enciphered(plain, w, shift), w, info3, None) == shift,
        with_headers(s, f, pe0, false) == Ok::<(Seq<u8>, Found), crate::error::UnpackError>((a, w)),
        with_headers(t, f, pe0, false) == Ok::<(Seq<u8>, Found), crate::error::UnpackError>((b, w)),
        entry_block(a, info3) is Ok,
        entry_block(b, info3) == entry_block(a, info3),
        w32(a, 60) == w32(b, 60),
        ({
            let (ep, dirs) = entry_block(a, info3)->Ok_0;
            let pe = w32(a, 60);
            let e = with_code_enciphered(plain, w, shift);
            &&& with_directories(a, ep, dirs, pe, c) == Ok::<Seq<u8>, crate::error::UnpackError>(e)
            &&& with_directories(b, ep, dirs, pe, c) == Ok::<Seq<u8>, crate::error::UnpackError>(
                plain,
            )
            &&& has4(e, pe.wrapping_add(40))
            &&& w32(e, pe.wrapping_add(40)) == w32(plain, pe.wrapping_add(40))
            &&& 0 < w.text_va <= w32(e, pe.wrapping_add(40)) < w.text_va + w.text_size
        }),
    ensures
        unmarked_finished(s, f, pe0, info3, c, None) == unmarked_finished(
            t,
            f,
            pe0,
            info3,
            c,
            Some(99),
        ),
{
    let pe = w32(a, 60);
    entered_code_comes_back(plain, w, info3, None, shift, pe);
    plain_code_stays(plain, w, info3, Some(99));
    let e = with_code_enciphered(plain, w, shift);
    assert(has4(plain, pe.wrapping_add(40)));
    assert(code_entered(plain, w, info3, Some(99), pe) == Ok::<Seq<u8>, crate::error::UnpackError>(
        plain,
    ));
    code_is_reached(s, f, pe0, info3, c, None, a, w, e, plain);
    code_is_reached(t, f, pe0, info3, c, Some(99), b, w, plain, plain);
}

} // verus!
