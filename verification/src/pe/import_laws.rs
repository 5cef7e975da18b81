//! How the names of imports are enciphered, and that they are made plain.

use vstd::prelude::*;

use crate::bits::tops;
use crate::bytes::{le32, le64, put16, write_then_read_16};
use crate::cipher_laws::{has_name_sealed, name_key, sealed_byte, sealed_name_is_read};
use crate::ciphers::data7;
use crate::pe::finish32;
use crate::pe::imports::thunks_named;
use crate::pe::steps::{w32, w64};

verus! {

/// The name of an import: a hint of two bytes, the name itself and a zero byte.
pub struct Name {
    pub at: u32,
    pub len: nat,
}

/// What a thunk says: a name, or an ordinal.
pub type Item = Option<Name>;

/// Whether the name of an item holds a byte.
pub open spec fn item_holds(x: Item, a: int) -> bool {
    x matches Some(n) && n.at <= a < n.at + n.len + 3
}

/// Whether two items have no byte in common.
pub open spec fn items_apart(x: Item, y: Item) -> bool {
    match (x, y) {
        (Some(m), Some(n)) => m.at + m.len + 3 <= n.at || n.at + n.len + 3 <= m.at,
        _ => true,
    }
}

/// Whether an item has no byte in common with `p..end`, and lies inside an image of `len`
/// bytes.
pub open spec fn item_clear(x: Item, p: int, end: int, len: int) -> bool {
    x matches Some(n) ==> 0 < n.at && n.at + n.len + 3 <= len && (n.at + n.len + 3 <= p || end
        <= n.at)
}

/// Whether the name of an item stands plain, with an empty hint, in `q`, and enciphered under
/// the low byte of its address in `s`.
pub open spec fn item_sealed(s: Seq<u8>, q: Seq<u8>, x: Item) -> bool {
    x matches Some(n) ==> {
        &&& q[n.at as int] == 0
        &&& q[n.at + 1] == 0
        &&& q[n.at + 2 + n.len] == 0
        &&& s[n.at + 2 + n.len] == 0
        &&& forall|a: int| n.at + 2 <= a < n.at + 2 + n.len ==> #[trigger] q[a] != 0
        &&& forall|a: int|
            n.at + 2 <= a < n.at + 2 + n.len ==> #[trigger] s[a] == sealed_byte(
                q[a],
                name_key(n.at as u8, (a - (n.at + 2)) as nat),
            )
    }
}

/// Whether one of the items from `k` on holds a byte.
pub open spec fn some_item_holds(list: Seq<Item>, k: int, a: int) -> bool {
    exists|j: int| k <= j < list.len() && #[trigger] item_holds(list[j], a)
}

/// Whether `s` is `q` with the names of the items from `k` on enciphered.
#[verifier::opaque]
pub open spec fn names_sealed(s: Seq<u8>, q: Seq<u8>, list: Seq<Item>, k: int) -> bool {
    &&& s.len() == q.len()
    &&& forall|j: int| k <= j < list.len() ==> item_sealed(s, q, #[trigger] list[j])
    &&& forall|a: int|
        0 <= a < q.len() && !some_item_holds(list, k, a) ==> #[trigger] s[a] == q[a]
}

/// Whether the names of a list have no bytes in common with one another or with `p..end`.
#[verifier::opaque]
pub open spec fn names_apart(list: Seq<Item>, p: int, end: int, len: int) -> bool {
    &&& forall|i: int, j: int|
        0 <= i < j < list.len() ==> items_apart(#[trigger] list[i], #[trigger] list[j])
    &&& forall|i: int| 0 <= i < list.len() ==> item_clear(#[trigger] list[i], p, end, len)
}

/// `s` with the bytes of one name as they are in `q`.
spec fn with_name(s: Seq<u8>, q: Seq<u8>, n: Name) -> Seq<u8> {
    Seq::new(
        s.len(),
        |a: int|
            if n.at + 2 <= a < n.at + 2 + n.len {
                q[a]
            } else {
                s[a]
            },
    )
}

proof fn one_name_is_read(s: Seq<u8>, q: Seq<u8>, n: Name)
    requires
        s.len() == q.len() <= u32::MAX,
        n.at + n.len + 3 <= s.len(),
        item_sealed(s, q, Some(n)),
    ensures
        data7(s, n.at.wrapping_add(2) as int, n.at as u8) == Some(with_name(s, q, n)),
        put16(with_name(s, q, n), n.at as int, 0).len() == s.len(),
        forall|a: int|
            0 <= a < s.len() ==> #[trigger] put16(with_name(s, q, n), n.at as int, 0)[a] == (if n.at
                <= a < n.at + n.len + 3 {
                q[a]
            } else {
                s[a]
            }),
{
    let t = with_name(s, q, n);
    assert(n.at.wrapping_add(2) == n.at + 2);
    assert forall|a: int| n.at + 2 <= a < n.at + 2 + n.len implies #[trigger] t[a] != 0 by {
        assert(q[a] != 0);
    }
    assert forall|a: int| 0 <= a < s.len() implies #[trigger] s[a] == (if n.at + 2 <= a < n.at + 2
        + n.len {
        sealed_byte(t[a], name_key(n.at as u8, (a - (n.at + 2)) as nat))
    } else {
        t[a]
    }) by {}
    assert(has_name_sealed(s, t, n.at + 2, n.len, n.at as u8));
    sealed_name_is_read(s, t, n.at + 2, n.len, n.at as u8);
    write_then_read_16(t, n.at as int, 0);
    let u = put16(t, n.at as int, 0);
    assert(crate::bytes::le16(u, n.at as int) == 0);
    crate::bits::parts_of_words(u[n.at as int], u[n.at + 1], 0, 0);
}

proof fn item_stays_sealed(s: Seq<u8>, u: Seq<u8>, q: Seq<u8>, x: Item)
    requires
        item_sealed(s, q, x),
        forall|a: int| item_holds(x, a) ==> #[trigger] u[a] == s[a],
    ensures
        item_sealed(u, q, x),
{
    match x {
        Some(n) => {
            assert forall|a: int| n.at + 2 <= a < n.at + 2 + n.len implies #[trigger] u[a] == sealed_byte(
                q[a],
                name_key(n.at as u8, (a - (n.at + 2)) as nat),
            ) by {
                assert(item_holds(x, a));
                assert(s[a] == sealed_byte(q[a], name_key(n.at as u8, (a - (n.at + 2)) as nat)));
            }
            assert(item_holds(x, n.at + 2 + n.len));
            assert(u[n.at + 2 + n.len] == 0);
        },
        None => {},
    }
}

proof fn names_stay_sealed(s: Seq<u8>, q: Seq<u8>, list: Seq<Item>, k: int, u: Seq<u8>, p: int, end: int)
    requires
        names_sealed(s, q, list, k),
        names_apart(list, p, end, q.len() as int),
        0 <= k < list.len(),
        u.len() == s.len(),
        forall|a: int|
            0 <= a < s.len() ==> #[trigger] u[a] == (if item_holds(list[k], a) {
                q[a]
            } else {
                s[a]
            }),
    ensures
        names_sealed(u, q, list, k + 1),
{
    reveal(names_sealed);
    reveal(names_apart);
    assert forall|j: int| k + 1 <= j < list.len() implies item_sealed(u, q, #[trigger] list[j]) by {
        assert(item_sealed(s, q, list[j]));
        assert(items_apart(list[k], list[j]));
        assert(item_clear(list[j], p, end, q.len() as int));
        assert forall|a: int| item_holds(list[j], a) implies #[trigger] u[a] == s[a] by {
            assert(!item_holds(list[k], a));
        }
        item_stays_sealed(s, u, q, list[j]);
    }
    assert forall|a: int|
        0 <= a < q.len() && !some_item_holds(list, k + 1, a) implies #[trigger] u[a] == q[a] by {
        if !item_holds(list[k], a) {
            if some_item_holds(list, k, a) {
                let j = choose|j: int| k <= j < list.len() && #[trigger] item_holds(list[j], a);
                assert(j > k && item_holds(list[j], a));
            }
        }
    }
}

proof fn table_is_plain(s: Seq<u8>, q: Seq<u8>, list: Seq<Item>, k: int, p: int, end: int)
    requires
        names_sealed(s, q, list, k),
        names_apart(list, p, end, q.len() as int),
        0 <= k,
        0 <= p <= end <= q.len(),
    ensures
        forall|a: int| p <= a < end ==> #[trigger] s[a] == q[a],
        s.len() == q.len(),
        k >= list.len() ==> s == q,
{
    reveal(names_sealed);
    reveal(names_apart);
    assert forall|a: int| p <= a < end implies #[trigger] s[a] == q[a] by {
        if some_item_holds(list, k, a) {
            let j = choose|j: int| k <= j < list.len() && #[trigger] item_holds(list[j], a);
            assert(item_clear(list[j], p, end, q.len() as int));
        }
    }
    if k >= list.len() {
        assert forall|a: int| 0 <= a < q.len() implies s[a] == q[a] by {
            assert(!some_item_holds(list, k, a));
        }
        assert(s =~= q);
    }
}

proof fn item_is_sealed(s: Seq<u8>, q: Seq<u8>, list: Seq<Item>, k: int, p: int, end: int)
    requires
        names_sealed(s, q, list, k),
        names_apart(list, p, end, q.len() as int),
        0 <= k < list.len(),
    ensures
        item_sealed(s, q, list[k]),
        item_clear(list[k], p, end, q.len() as int),
{
    reveal(names_sealed);
    reveal(names_apart);
}

/// Whether the thunks of a 64-bit table say what the items do, with a zero behind them.
pub open spec fn table_says(q: Seq<u8>, p: int, list: Seq<Item>) -> bool {
    &&& le64(q, p + 8 * list.len()) == 0
    &&& forall|i: int| 0 <= i < list.len() ==> #[trigger] thunk_says(q, p + 8 * i, list[i])
}

/// Whether a 64-bit thunk says what an item does: the address of a name, or an ordinal behind
/// a top bit.
pub open spec fn thunk_says(q: Seq<u8>, p: int, x: Item) -> bool {
    match x {
        Some(n) => le64(q, p) == n.at,
        None => le64(q, p) >= 0x8000_0000_0000_0000,
    }
}

/// The names that the thunks of a 64-bit table point at, enciphered each under the low byte
/// of its address, are made plain, and their hints are cleared; nothing else changes.
pub proof fn sealed_names_are_read(s: Seq<u8>, q: Seq<u8>, p: u32, list: Seq<Item>, k: int)
    requires
        0 <= k <= list.len(),
        p + 8 * (list.len() + 1) <= q.len() <= u32::MAX,
        names_sealed(s, q, list, k),
        names_apart(list, p as int, p + 8 * (list.len() + 1), q.len() as int),
        table_says(q, p as int, list),
    ensures
        thunks_named(s, (p + 8 * k) as u32) == Ok::<Seq<u8>, crate::error::UnpackError>(q),
    decreases list.len() - k,
{
    let end = p + 8 * (list.len() + 1);
    let o = (p + 8 * k) as u32;
    table_is_plain(s, q, list, k, p as int, end);
    let v = w64(s, o);
    assert(le64(s, o as int) == le64(q, o as int));
    tops(v, 0);
    if k < list.len() {
        assert(thunk_says(q, p + 8 * k, list[k]));
        item_is_sealed(s, q, list, k, p as int, end);
        match list[k] {
            Some(n) => {
                one_name_is_read(s, q, n);
                assert(v as u32 == n.at);
                let u = put16(with_name(s, q, n), n.at as int, 0);
                names_stay_sealed(s, q, list, k, u, p as int, end);
                sealed_names_are_read(u, q, p, list, k + 1);
            },
            None => {
                names_stay_sealed(s, q, list, k, s, p as int, end);
                sealed_names_are_read(s, q, p, list, k + 1);
            },
        }
    }
}

/// Whether the thunks of a 32-bit table say what the items do, with a zero behind them.
pub open spec fn table_says32(q: Seq<u8>, p: int, list: Seq<Item>) -> bool {
    &&& le32(q, p + 4 * list.len()) == 0
    &&& forall|i: int| 0 <= i < list.len() ==> #[trigger] thunk_says32(q, p + 4 * i, list[i])
}

/// Whether a 32-bit thunk says what an item does: the address of a name, or an ordinal behind
/// a top bit.
pub open spec fn thunk_says32(q: Seq<u8>, p: int, x: Item) -> bool {
    match x {
        Some(n) => le32(q, p) == n.at && n.at < 0x8000_0000,
        None => le32(q, p) >= 0x8000_0000,
    }
}

/// The names that the thunks of a 32-bit table point at, enciphered each under the low byte
/// of its address, are made plain, and their hints are cleared; nothing else changes.
pub proof fn sealed_names_are_read32(s: Seq<u8>, q: Seq<u8>, p: u32, list: Seq<Item>, k: int)
    requires
        0 <= k <= list.len(),
        p + 4 * (list.len() + 1) <= q.len() <= u32::MAX,
        names_sealed(s, q, list, k),
        names_apart(list, p as int, p + 4 * (list.len() + 1), q.len() as int),
        table_says32(q, p as int, list),
    ensures
        finish32::thunks_named(s, (p + 4 * k) as u32) == Ok::<Seq<u8>, crate::error::UnpackError>(q),
    decreases list.len() - k,
{
    let end = p + 4 * (list.len() + 1);
    let o = (p + 4 * k) as u32;
    table_is_plain(s, q, list, k, p as int, end);
    let v = w32(s, o);
    assert(le32(s, o as int) == le32(q, o as int));
    tops(0, v);
    if k < list.len() {
        assert(thunk_says32(q, p + 4 * k, list[k]));
        item_is_sealed(s, q, list, k, p as int, end);
        match list[k] {
            Some(n) => {
                one_name_is_read(s, q, n);
                let u = put16(with_name(s, q, n), n.at as int, 0);
                names_stay_sealed(s, q, list, k, u, p as int, end);
                sealed_names_are_read32(u, q, p, list, k + 1);
            },
            None => {
                names_stay_sealed(s, q, list, k, s, p as int, end);
                sealed_names_are_read32(s, q, p, list, k + 1);
            },
        }
    }
}

} // verus!
