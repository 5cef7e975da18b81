//! How chains of records are enciphered, and that they are read.

use vstd::prelude::*;

use crate::bytes::{le32, overlay, zeroed};
use crate::pe::blocks::{plain_record, records};
use crate::pe::discovery::data5;
use crate::pe::entry_laws::{holds_positioned, positioned_block_is_read};
use crate::pe::finish32::zeros_done;
use crate::pe::sections64::zero_filled;
use crate::pe::stage::Record;
use crate::pe::steps::Out;

verus! {

/// Whether sixteen bytes spell a record.
pub open spec fn spells(b: Seq<u8>, r: Record) -> bool {
    &&& b.len() == 16
    &&& le32(b, 0) == r.src
    &&& le32(b, 4) == r.slen
    &&& le32(b, 8) == r.dest
    &&& le32(b, 12) == r.dlen
}

/// Whether the records of a chain, and a last one of length zero, stand enciphered from `p`
/// on.
#[verifier::opaque]
pub open spec fn holds_chain(s: Seq<u8>, p: int, list: Seq<Record>, plain: Seq<Seq<u8>>) -> bool {
    &&& plain.len() == list.len() + 1
    &&& 0 <= p
    &&& p + 16 * plain.len() <= s.len() <= u32::MAX
    &&& forall|i: int| 0 <= i < plain.len() ==> #[trigger] plain[i].len() == 16
    &&& forall|i: int| 0 <= i < list.len() ==> #[trigger] spells(plain[i], list[i])
    &&& forall|i: int| 0 <= i < list.len() ==> #[trigger] list[i].slen != 0
    &&& le32(plain.last(), 4) == 0
    &&& forall|i: int| 0 <= i < plain.len() ==> #[trigger] holds_record(s, p, plain, i)
}

/// Whether record `i` of a chain stands enciphered in its place.
pub open spec fn holds_record(s: Seq<u8>, p: int, plain: Seq<Seq<u8>>, i: int) -> bool {
    holds_positioned(s, p + 16 * i, plain[i])
}

/// Whether `t` is `s` with the records of a chain in the clear.
#[verifier::opaque]
pub open spec fn chain_laid_open(t: Seq<u8>, s: Seq<u8>, p: int, plain: Seq<Seq<u8>>) -> bool {
    &&& t.len() == s.len()
    &&& forall|a: int|
        0 <= a < s.len() ==> #[trigger] t[a] == (if p <= a < p + 16 * plain.len() {
            plain[(a - p) / 16][(a - p) % 16]
        } else {
            s[a]
        })
}

proof fn record_is_read(s: Seq<u8>, p: int, b: Seq<u8>)
    requires
        0 <= p,
        p + 16 <= s.len() <= u32::MAX,
        b.len() == 16,
        holds_positioned(s, p, b),
    ensures
        data5(s, p, 16) == overlay(s, p, b),
        spells(b, plain_record(data5(s, p, 16), p as u32)),
{
    positioned_block_is_read(s, p, b);
    let t = overlay(s, p, b);
    assert(le32(t, p) == le32(b, 0));
    assert(le32(t, p + 4) == le32(b, 4));
    assert(le32(t, p + 8) == le32(b, 8));
    assert(le32(t, p + 12) == le32(b, 12));
}

proof fn rest_of_chain_stays(s: Seq<u8>, p: int, list: Seq<Record>, plain: Seq<Seq<u8>>)
    requires
        holds_chain(s, p, list, plain),
        list.len() > 0,
    ensures
        holds_chain(overlay(s, p, plain[0]), p + 16, list.skip(1), plain.skip(1)),
{
    reveal(holds_chain);
    let t = overlay(s, p, plain[0]);
    let l = list.skip(1);
    let q = plain.skip(1);
    assert forall|i: int| 0 <= i < q.len() implies #[trigger] q[i].len() == 16 by {
        assert(q[i] == plain[i + 1]);
    }
    assert forall|i: int| 0 <= i < l.len() implies #[trigger] spells(q[i], l[i]) by {
        assert(spells(plain[i + 1], list[i + 1]));
    }
    assert forall|i: int| 0 <= i < l.len() implies #[trigger] l[i].slen != 0 by {
        assert(list[i + 1].slen != 0);
    }
    assert(q.last() == plain.last());
    assert forall|i: int| 0 <= i < q.len() implies #[trigger] holds_record(t, p + 16, q, i) by {
        assert(holds_record(s, p, plain, i + 1));
        assert(plain[i + 1].len() == 16);
    }
}

proof fn first_of_chain(s: Seq<u8>, p: int, list: Seq<Record>, plain: Seq<Seq<u8>>)
    requires
        holds_chain(s, p, list, plain),
    ensures
        0 <= p,
        plain.len() == list.len() + 1,
        p + 16 * plain.len() <= s.len() <= u32::MAX,
        plain[0].len() == 16,
        holds_positioned(s, p, plain[0]),
        list.len() == 0 ==> le32(plain[0], 4) == 0,
        list.len() > 0 ==> spells(plain[0], list[0]) && list[0].slen != 0,
{
    reveal(holds_chain);
    assert(holds_record(s, p, plain, 0));
    assert(plain[0].len() == 16);
    if list.len() > 0 {
        assert(spells(plain[0], list[0]));
        assert(list[0].slen != 0);
    } else {
        assert(plain.last() == plain[0]);
    }
}

proof fn chain_bounds(s: Seq<u8>, p: int, list: Seq<Record>, plain: Seq<Seq<u8>>)
    requires
        holds_chain(s, p, list, plain),
    ensures
        0 <= p,
        plain.len() == list.len() + 1,
        p + 16 * plain.len() <= s.len() <= u32::MAX,
        plain[0].len() == 16,
{
    first_of_chain(s, p, list, plain);
}

proof fn chain_is_laid_open_on(u: Seq<u8>, s: Seq<u8>, p: int, plain: Seq<Seq<u8>>)
    requires
        0 <= p,
        1 <= plain.len(),
        plain[0].len() == 16,
        p + 16 * plain.len() <= s.len(),
        chain_laid_open(u, overlay(s, p, plain[0]), p + 16, plain.skip(1)),
    ensures
        chain_laid_open(u, s, p, plain),
{
    reveal(chain_laid_open);
    let more = plain.skip(1);
    assert forall|a: int| 0 <= a < s.len() implies #[trigger] u[a] == (if p <= a < p + 16
        * plain.len() {
        plain[(a - p) / 16][(a - p) % 16]
    } else {
        s[a]
    }) by {
        if p + 16 <= a < p + 16 * plain.len() {
            assert((a - (p + 16)) / 16 == (a - p) / 16 - 1);
            assert((a - (p + 16)) % 16 == (a - p) % 16);
            assert(more[(a - p) / 16 - 1] == plain[(a - p) / 16]);
        } else if p <= a < p + 16 {
            assert((a - p) / 16 == 0 && (a - p) % 16 == a - p);
        }
    }
}

proof fn nothing_more_is_laid_open(s: Seq<u8>, p: int, plain: Seq<Seq<u8>>)
    requires
        0 <= p,
        plain.len() == 1,
        plain[0].len() == 16,
        p + 16 <= s.len(),
    ensures
        chain_laid_open(overlay(s, p, plain[0]), s, p, plain),
{
    reveal(chain_laid_open);
    let t = overlay(s, p, plain[0]);
    assert forall|a: int| 0 <= a < s.len() implies #[trigger] t[a] == (if p <= a < p + 16
        * plain.len() {
        plain[(a - p) / 16][(a - p) % 16]
    } else {
        s[a]
    }) by {
        if p <= a < p + 16 {
            assert((a - p) / 16 == 0 && (a - p) % 16 == a - p);
        }
    }
}

proof fn record_of_chain_is_read(
    s: Seq<u8>,
    p: u32,
    list: Seq<Record>,
    plain: Seq<Seq<u8>>,
    found: Seq<Record>,
)
    requires
        holds_chain(s, p as int, list, plain),
    ensures
        list.len() == 0 ==> records(s, p, found) == Ok::<
            (Seq<u8>, Seq<Record>, u32),
            crate::error::UnpackError,
        >((overlay(s, p as int, plain[0]), found, (p + 16) as u32)),
        list.len() > 0 ==> records(s, p, found) == records(
            overlay(s, p as int, plain[0]),
            (p + 16) as u32,
            found.push(list[0]),
        ),
{
    first_of_chain(s, p as int, list, plain);
    record_is_read(s, p as int, plain[0]);
    let r = plain_record(data5(s, p as int, 16), p);
    if list.len() > 0 {
        assert(r == list[0]);
    }
}

/// Whether a result is what reading a chain behind the records `found` gives.
pub open spec fn is_chain_read(
    x: Out<(Seq<u8>, Seq<Record>, u32)>,
    s: Seq<u8>,
    p: int,
    list: Seq<Record>,
    plain: Seq<Seq<u8>>,
    found: Seq<Record>,
) -> bool {
    x matches Ok((t, rs, q)) && rs == found + list && q == p + 16 * plain.len() && chain_laid_open(
        t,
        s,
        p,
        plain,
    )
}

proof fn chain_is_read_on(
    x: Out<(Seq<u8>, Seq<Record>, u32)>,
    s: Seq<u8>,
    p: int,
    list: Seq<Record>,
    plain: Seq<Seq<u8>>,
    found: Seq<Record>,
)
    requires
        0 <= p,
        1 <= list.len(),
        plain.len() == list.len() + 1,
        plain[0].len() == 16,
        p + 16 * plain.len() <= s.len(),
        is_chain_read(
            x,
            overlay(s, p, plain[0]),
            p + 16,
            list.skip(1),
            plain.skip(1),
            found.push(list[0]),
        ),
    ensures
        is_chain_read(x, s, p, list, plain, found),
{
    assert(found.push(list[0]) + list.skip(1) =~= found + list);
    match x {
        Ok((u, rs, q)) => chain_is_laid_open_on(u, s, p, plain),
        Err(e) => {},
    }
}

proof fn chain_is_read_to_its_end(
    s: Seq<u8>,
    p: int,
    list: Seq<Record>,
    plain: Seq<Seq<u8>>,
    found: Seq<Record>,
)
    requires
        0 <= p,
        p + 16 <= s.len() <= u32::MAX,
        list.len() == 0,
        plain.len() == 1,
        plain[0].len() == 16,
    ensures
        is_chain_read(
            Ok((overlay(s, p, plain[0]), found, (p + 16) as u32)),
            s,
            p,
            list,
            plain,
            found,
        ),
{
    assert(found + list =~= found);
    nothing_more_is_laid_open(s, p, plain);
}

/// A chain of records that was enciphered is read, up to its end, and laid open.
pub proof fn sealed_chain_is_read(
    s: Seq<u8>,
    p: u32,
    list: Seq<Record>,
    plain: Seq<Seq<u8>>,
    found: Seq<Record>,
)
    requires
        holds_chain(s, p as int, list, plain),
    ensures
        is_chain_read(records(s, p, found), s, p as int, list, plain, found),
    decreases list.len(),
{
    record_of_chain_is_read(s, p, list, plain, found);
    chain_bounds(s, p as int, list, plain);
    if list.len() == 0 {
        chain_is_read_to_its_end(s, p as int, list, plain, found);
    } else {
        let t = overlay(s, p as int, plain[0]);
        rest_of_chain_stays(s, p as int, list, plain);
        sealed_chain_is_read(
            t,
            (p + 16) as u32,
            list.skip(1),
            plain.skip(1),
            found.push(list[0]),
        );
        chain_is_read_on(records(s, p, found), s, p as int, list, plain, found);
    }
}

/// Whether the ranges that the records of a chain name lie inside an image and in front of
/// or behind the chain.
pub open spec fn ranges_are_clear(list: Seq<Record>, p: int, n: int, len: int) -> bool {
    forall|i: int| 0 <= i < list.len() ==> #[trigger] range_is_clear(list[i], p, n, len)
}

/// Whether the range that a record names lies inside an image and in front of or behind a
/// chain of `n` records.
pub open spec fn range_is_clear(r: Record, p: int, n: int, len: int) -> bool {
    r.src + r.slen <= len && (r.src + r.slen <= p || p + 16 * n <= r.src)
}

/// Whether one of the ranges of a chain holds a byte.
pub open spec fn in_a_range(list: Seq<Record>, a: int) -> bool {
    exists|i: int| 0 <= i < list.len() && #[trigger] range_holds(list[i], a)
}

/// What stands at `a` behind the clearing of the ranges of a chain.
pub open spec fn cleared_byte(s: Seq<u8>, p: int, list: Seq<Record>, plain: Seq<Seq<u8>>, a: int) -> u8 {
    if p <= a < p + 16 * plain.len() {
        plain[(a - p) / 16][(a - p) % 16]
    } else if in_a_range(list, a) {
        0
    } else {
        s[a]
    }
}

/// Whether the range that a record names holds a byte.
pub open spec fn range_holds(r: Record, a: int) -> bool {
    r.src <= a < r.src + r.slen
}

proof fn one_range_is_cleared(s: Seq<u8>, p: int, list: Seq<Record>, plain: Seq<Seq<u8>>, a: int)
    requires
        0 <= p,
        list.len() >= 1,
        plain.len() == list.len() + 1,
        plain[0].len() == 16,
        p + 16 * plain.len() <= s.len(),
        ranges_are_clear(list, p, plain.len() as int, s.len() as int),
        0 <= a < s.len(),
    ensures
        cleared_byte(
            zeroed(overlay(s, p, plain[0]), list[0].src as int, list[0].slen as int),
            p + 16,
            list.skip(1),
            plain.skip(1),
            a,
        ) == cleared_byte(s, p, list, plain, a),
{
    let r = list[0];
    let l = list.skip(1);
    let more = plain.skip(1);
    assert(range_is_clear(r, p, plain.len() as int, s.len() as int));
    if p + 16 <= a < p + 16 * plain.len() {
        assert((a - (p + 16)) / 16 == (a - p) / 16 - 1);
        assert((a - (p + 16)) % 16 == (a - p) % 16);
        assert(more[(a - p) / 16 - 1] == plain[(a - p) / 16]);
    } else if p <= a < p + 16 {
        assert((a - p) / 16 == 0 && (a - p) % 16 == a - p);
        if in_a_range(l, a) {
            let i = choose|i: int| 0 <= i < l.len() && #[trigger] range_holds(l[i], a);
            assert(range_is_clear(list[i + 1], p, plain.len() as int, s.len() as int));
        }
    } else {
        if in_a_range(list, a) {
            let i = choose|i: int| 0 <= i < list.len() && #[trigger] range_holds(list[i], a);
            if i > 0 {
                assert(range_holds(l[i - 1], a));
            }
        }
        if in_a_range(l, a) {
            let i = choose|i: int| 0 <= i < l.len() && #[trigger] range_holds(l[i], a);
            assert(range_holds(list[i + 1], a));
        }
        if range_holds(r, a) {
            assert(range_holds(list[0], a));
        }
    }
}

proof fn clearing_keeps_the_chain(
    t: Seq<u8>,
    p: int,
    list: Seq<Record>,
    plain: Seq<Seq<u8>>,
    o: int,
    n: int,
)
    requires
        holds_chain(t, p, list, plain),
        o + n <= p || p + 16 * plain.len() <= o,
    ensures
        holds_chain(zeroed(t, o, n), p, list, plain),
{
    reveal(holds_chain);
    let u = zeroed(t, o, n);
    assert forall|i: int| 0 <= i < plain.len() implies #[trigger] holds_record(u, p, plain, i) by {
        assert(holds_record(t, p, plain, i));
        assert(plain[i].len() == 16);
    }
}

/// The ranges that a chain of records names are cleared, and no other byte changes but for
/// the chain, which is laid open.
pub proof fn named_ranges_are_cleared(s: Seq<u8>, p: u32, list: Seq<Record>, plain: Seq<Seq<u8>>)
    requires
        holds_chain(s, p as int, list, plain),
        ranges_are_clear(list, p as int, plain.len() as int, s.len() as int),
    ensures
        zero_filled(s, p) matches Ok(t) && t.len() == s.len() && (forall|a: int|
            0 <= a < s.len() ==> #[trigger] t[a] == cleared_byte(s, p as int, list, plain, a)),
    decreases list.len(),
{
    first_of_chain(s, p as int, list, plain);
    record_is_read(s, p as int, plain[0]);
    let t = overlay(s, p as int, plain[0]);
    assert(le32(t, p + 4) == le32(plain[0], 4));
    assert(le32(t, p as int) == le32(plain[0], 0));
    if list.len() == 0 {
        nothing_more_is_laid_open(s, p as int, plain);
        reveal(chain_laid_open);
        assert(zero_filled(s, p) == Ok::<Seq<u8>, crate::error::UnpackError>(t));
        assert forall|a: int| 0 <= a < s.len() implies #[trigger] t[a] == cleared_byte(
            s,
            p as int,
            list,
            plain,
            a,
        ) by {
            assert(!in_a_range(list, a));
        }
    } else {
        let r = list[0];
        assert(range_is_clear(r, p as int, plain.len() as int, s.len() as int));
        let u = zeroed(t, r.src as int, r.slen as int);
        assert(le32(u, p + 4) == le32(t, p + 4));
        let l = list.skip(1);
        let more = plain.skip(1);
        rest_of_chain_stays(s, p as int, list, plain);
        clearing_keeps_the_chain(t, p + 16, l, more, r.src as int, r.slen as int);
        assert forall|i: int| 0 <= i < l.len() implies #[trigger] range_is_clear(
            l[i],
            p + 16,
            more.len() as int,
            u.len() as int,
        ) by {
            assert(range_is_clear(list[i + 1], p as int, plain.len() as int, s.len() as int));
        }
        named_ranges_are_cleared(u, (p + 16) as u32, l, more);
        assert(zero_filled(s, p) == zero_filled(u, (p + 16) as u32));
        match zero_filled(s, p) {
            Ok(v) => {
                assert forall|a: int| 0 <= a < s.len() implies #[trigger] v[a] == cleared_byte(
                    s,
                    p as int,
                    list,
                    plain,
                    a,
                ) by {
                    one_range_is_cleared(s, p as int, list, plain, a);
                }
            },
            Err(e) => {},
        }
    }
}

/// In a 32-bit image too the ranges that a chain of records names are cleared, and no other
/// byte changes but for the chain, which is laid open.
pub proof fn named_ranges_are_cleared32(s: Seq<u8>, p: u32, list: Seq<Record>, plain: Seq<Seq<u8>>)
    requires
        holds_chain(s, p as int, list, plain),
        ranges_are_clear(list, p as int, plain.len() as int, s.len() as int),
    ensures
        zeros_done(s, p) matches Ok(t) && t.len() == s.len() && (forall|a: int|
            0 <= a < s.len() ==> #[trigger] t[a] == cleared_byte(s, p as int, list, plain, a)),
    decreases list.len(),
{
    first_of_chain(s, p as int, list, plain);
    record_is_read(s, p as int, plain[0]);
    let t = overlay(s, p as int, plain[0]);
    assert(le32(t, p + 4) == le32(plain[0], 4));
    assert(le32(t, p as int) == le32(plain[0], 0));
    if list.len() == 0 {
        nothing_more_is_laid_open(s, p as int, plain);
        reveal(chain_laid_open);
        assert(zeros_done(s, p) == Ok::<Seq<u8>, crate::error::UnpackError>(t));
        assert forall|a: int| 0 <= a < s.len() implies #[trigger] t[a] == cleared_byte(
            s,
            p as int,
            list,
            plain,
            a,
        ) by {
            assert(!in_a_range(list, a));
        }
    } else {
        let r = list[0];
        assert(range_is_clear(r, p as int, plain.len() as int, s.len() as int));
        let u = zeroed(t, r.src as int, r.slen as int);
        assert(le32(u, p + 4) == le32(t, p + 4));
        let l = list.skip(1);
        let more = plain.skip(1);
        rest_of_chain_stays(s, p as int, list, plain);
        clearing_keeps_the_chain(t, p + 16, l, more, r.src as int, r.slen as int);
        assert forall|i: int| 0 <= i < l.len() implies #[trigger] range_is_clear(
            l[i],
            p + 16,
            more.len() as int,
            u.len() as int,
        ) by {
            assert(range_is_clear(list[i + 1], p as int, plain.len() as int, s.len() as int));
        }
        named_ranges_are_cleared32(u, (p + 16) as u32, l, more);
        assert(zeros_done(s, p) == zeros_done(u, (p + 16) as u32));
        match zeros_done(s, p) {
            Ok(v) => {
                assert forall|a: int| 0 <= a < s.len() implies #[trigger] v[a] == cleared_byte(
                    s,
                    p as int,
                    list,
                    plain,
                    a,
                ) by {
                    one_range_is_cleared(s, p as int, list, plain, a);
                }
            },
            Err(e) => {},
        }
    }
}

} // verus!
