//! How bytes are written as codes of a table, and that the codes are expanded to them.

use vstd::prelude::*;

use crate::bits::{bits_of_word, no_bits, parts_of_entry, parts_of_words, shifts_add};
use crate::bytes::{le16, le32};
use crate::error::MAX_IMAGE_SIZE;
use crate::huffman::{
    advanced, applied_bounds, apply, branch, entry_at, entry_len, entry_word, expand, expanded,
    fill16, fill32, fill8, front, repeat_back, run_fill, snapshot_expands_alike, source, symbol,
    table_of, walk, Applied, Cursor, Outcome, Symbol,
};

verus! {

/// One step of writing: what it puts out, and how many bits its code has.
pub struct Step {
    pub act: Act,
    pub bits: nat,
}

/// What a step puts out.
pub enum Act {
    /// A byte.
    Byte(u8),
    /// A number for the next run or copy: a further one is appended to it.
    Number(u8),
    /// The last `width` bytes, as often as the number in front says, or once.
    Run(u8),
    /// A number of bytes, from as far back as the number in front and this one say.
    Copy(u8),
}

/// The bytes in front of a cursor, with what an act puts out, and the number that it leaves;
/// `None` where it cannot be done. `made` is how many of the bytes were put out.
pub open spec fn acted(all: Seq<u8>, made: int, number: nat, act: Act) -> Option<(Seq<u8>, nat)> {
    let n = all.len() as int;
    match act {
        Act::Byte(b) => Some((all.push(b), number)),
        Act::Number(b) => if number >= 256 {
            None
        } else if number == 0 {
            Some((all, b as nat))
        } else {
            Some((all, (256 * number + b) as nat))
        },
        Act::Run(width) => if (width == 1 || width == 2 || width == 4) && width <= n {
            let times = if number == 0 {
                1nat
            } else {
                number
            };
            Some(
                (
                    all + Seq::new(
                        (times * width) as nat,
                        |i: int| all[n - width + i % (width as int)],
                    ),
                    0,
                ),
            )
        } else {
            None
        },
        Act::Copy(len) => if number + len <= made {
            Some((all + all.subrange(n - number - len, n - number), 0))
        } else {
            None
        },
    }
}

/// What the first `n` steps make of the bytes in front.
pub open spec fn made_by(steps: Seq<Step>, n: nat, before: Seq<u8>) -> Option<(Seq<u8>, nat)>
    decreases n,
{
    if n == 0 {
        Some((before, 0))
    } else {
        match made_by(steps, (n - 1) as nat, before) {
            None => None,
            Some((all, number)) => acted(all, all.len() - before.len(), number, steps[n - 1].act),
        }
    }
}

/// The bytes in front and what the first `n` steps put out.
pub open spec fn output(steps: Seq<Step>, n: nat, before: Seq<u8>) -> Seq<u8> {
    match made_by(steps, n, before) {
        Some((all, _)) => all,
        None => before,
    }
}

/// How many bits the codes of the first `n` steps have.
pub open spec fn bits_of(steps: Seq<Step>, n: nat) -> nat
    decreases n,
{
    if n == 0 {
        0
    } else {
        bits_of(steps, (n - 1) as nat) + steps[n - 1].bits
    }
}

/// Bit `p` of some bytes, the lowest of each byte first; behind them, no bit is set.
pub open spec fn bit_at(v: Seq<u8>, p: int) -> bool {
    0 <= p / 8 < v.len() && (v[p / 8] >> ((p % 8) as u8)) & 1 == 1
}

/// A bit as a number.
pub open spec fn one_if(b: bool) -> int {
    if b {
        1
    } else {
        0
    }
}

/// The eight bits from `p` on.
pub open spec fn eight_bits(v: Seq<u8>, p: int) -> int {
    one_if(bit_at(v, p)) + 2 * one_if(bit_at(v, p + 1)) + 4 * one_if(bit_at(v, p + 2)) + 8 * one_if(
        bit_at(v, p + 3),
    ) + 16 * one_if(bit_at(v, p + 4)) + 32 * one_if(bit_at(v, p + 5)) + 64 * one_if(
        bit_at(v, p + 6),
    ) + 128 * one_if(bit_at(v, p + 7))
}

/// The number in entry `i` of a table: from 0x8000 on it ends a code, below it names a pair
/// of entries.
pub open spec fn entry(t: Seq<u8>, i: int) -> int {
    t[3 * i] + 256 * t[3 * i + 1]
}

/// Whether entry `i` lies inside a table.
pub open spec fn in_table(t: Seq<u8>, i: int) -> bool {
    0 <= i && 3 * i + 3 <= t.len()
}

/// The number of an act in a table.
pub open spec fn act_number(a: Act) -> int {
    match a {
        Act::Byte(b) => b as int,
        Act::Number(b) => 0x100 + b,
        Act::Run(b) => 0x200 + b,
        Act::Copy(b) => 0x300 + b,
    }
}

/// Whether an entry ends a code of an act.
pub open spec fn ends_code(e: int, a: Act) -> bool {
    0x8000 <= e && e % 0x400 == act_number(a)
}

/// Whether entry `i` of a way is an inner one, and the bit at `p` leads from it to the next.
pub open spec fn leads_on(t: Seq<u8>, v: Seq<u8>, p: int, way: Seq<int>, i: int) -> bool {
    entry(t, way[i]) < 0x8000 && way[i + 1] == entry(t, way[i]) + one_if(bit_at(v, p))
}

/// Whether the bits from `p` on are a code of `step`, on a way of entries: the first is
/// named by eight bits, and every further one by a bit behind those that the first counts.
#[verifier::opaque]
pub open spec fn is_code(t: Seq<u8>, v: Seq<u8>, p: int, step: Step, way: Seq<int>) -> bool {
    let counted = t[3 * way[0] + 2] as int;
    &&& 0 < way.len() <= 65
    &&& 0 < step.bits <= 25
    &&& way[0] == eight_bits(v, p)
    &&& step.bits == counted + way.len() - 1
    &&& forall|i: int| 0 <= i < way.len() ==> #[trigger] in_table(t, way[i])
    &&& forall|i: int|
        0 <= i < way.len() - 1 ==> #[trigger] leads_on(t, v, p + counted + i, way, i)
    &&& ends_code(entry(t, way[way.len() - 1]), step.act)
}

/// Whether some bytes are the codes of steps, one behind the other, each of which starts
/// inside them.
pub open spec fn are_codes(t: Seq<u8>, v: Seq<u8>, steps: Seq<Step>, ways: Seq<Seq<int>>) -> bool {
    &&& ways.len() == steps.len()
    &&& forall|k: int|
        0 <= k < steps.len() ==> bits_of(steps, k as nat) < 8 * v.len() && is_code(
            t,
            v,
            bits_of(steps, k as nat) as int,
            #[trigger] steps[k],
            ways[k],
        )
}

/// Whether the first `k` steps make fewer than `size` bytes.
pub open spec fn unfinished(steps: Seq<Step>, k: int, before: Seq<u8>, size: int) -> bool {
    made_by(steps, k as nat, before) is Some && output(steps, k as nat, before).len() < before.len()
        + size
}

/// Whether steps make exactly `size` bytes behind `before`, the last of them with the last
/// step.
pub open spec fn fill_up(steps: Seq<Step>, before: Seq<u8>, size: int) -> bool {
    &&& made_by(steps, steps.len(), before) is Some
    &&& output(steps, steps.len(), before).len() == before.len() + size
    &&& forall|k: int| 0 <= k < steps.len() ==> #[trigger] unfinished(steps, k, before, size)
}

proof fn front_bit(v: Seq<u8>, p: nat, j: int)
    requires
        p / 8 < v.len(),
        0 <= j < 25,
    ensures
        ({
            let w = front(v + seq![0u8, 0u8, 0u8], p);
            ((w >> (j as u32)) & 1 == 1) == bit_at(v, p + j)
        }),
{
    let all = v + seq![0u8, 0u8, 0u8];
    let o = (p / 8) as int;
    let r = (p % 8) as u32;
    let x = le32(all, o);
    shifts_add(x, r, j as u32);
    let k = (r + j) as u32;
    bits_of_word(all[o], all[o + 1], all[o + 2], all[o + 3], k, 0, 0);
    assert((p + j) / 8 == o + k as int / 8 && (p + j) % 8 == k as int % 8);
    let b = all[o + k as int / 8];
    if o + k as int / 8 >= v.len() {
        assert(b == 0);
        no_bits(0, (k % 8) as u8);
    }
}

proof fn front_root(v: Seq<u8>, p: nat)
    requires
        p / 8 < v.len(),
    ensures
        front(v + seq![0u8, 0u8, 0u8], p) & 0xFFu32 == eight_bits(v, p as int),
{
    let w = front(v + seq![0u8, 0u8, 0u8], p);
    front_bit(v, p, 0);
    front_bit(v, p, 1);
    front_bit(v, p, 2);
    front_bit(v, p, 3);
    front_bit(v, p, 4);
    front_bit(v, p, 5);
    front_bit(v, p, 6);
    front_bit(v, p, 7);
    bits_of_word(0, 0, 0, 0, 0, w, 0);
    bits_of_word(0, 0, 0, 0, 0, w, 1);
    bits_of_word(0, 0, 0, 0, 0, w, 2);
    bits_of_word(0, 0, 0, 0, 0, w, 3);
    bits_of_word(0, 0, 0, 0, 0, w, 4);
    bits_of_word(0, 0, 0, 0, 0, w, 5);
    bits_of_word(0, 0, 0, 0, 0, w, 6);
    bits_of_word(0, 0, 0, 0, 0, w, 7);
}

proof fn entry_is(t: Seq<u8>, i: u32)
    requires
        in_table(t, i as int),
        i <= 0x8000,
    ensures
        entry_word(t, 0, 3, i) == Some(le16(t, 3 * i)),
        entry_len(t, 0, i) == Some(t[3 * i + 2]),
        le16(t, 3 * i) == entry(t, i as int),
{
    assert(entry_at(0, i) == 3 * i);
    parts_of_words(t[3 * i], t[3 * i + 1], 0, 0);
}

/// The symbol of a terminal entry.
spec fn tab_of(e: int) -> u16 {
    (e % 0x8000) as u16
}

proof fn rest_of_code(
    t: Seq<u8>,
    v: Seq<u8>,
    p: nat,
    step: Step,
    way: Seq<int>,
    i: int,
)
    requires
        is_code(t, v, p as int, step, way),
        p / 8 < v.len(),
        1 <= i < way.len(),
    ensures
        ({
            let c = t[3 * way[0] + 2];
            walk(
                t,
                0,
                3,
                front(v + seq![0u8, 0u8, 0u8], p),
                way[i] as u32,
                1u32 << ((c + i - 1) as u32),
                (c + i) as u8,
                (i - 1) as nat,
            ) == (Symbol::Code { tab: tab_of(entry(t, way[way.len() - 1])), bits: step.bits as u8 })
        }),
    decreases way.len() - i,
{
    reveal(is_code);
    let c = t[3 * way[0] + 2];
    let w = front(v + seq![0u8, 0u8, 0u8], p);
    assert(in_table(t, way[i]));
    assert(leads_on(t, v, p + c + (i - 1), way, i - 1));
    assert(0 <= way[i] <= 0x8000);
    entry_is(t, way[i] as u32);
    let e = le16(t, 3 * way[i]);
    parts_of_entry(e, 0, 0);
    if i < way.len() - 1 {
        assert(leads_on(t, v, p + c + i, way, i));
        let j = (c + i) as u32;
        assert(j <= 25);
        bits_of_word(0, 0, 0, 0, 0, w, (j - 1) as u32);
        bits_of_word(0, 0, 0, 0, 0, w, j);
        front_bit(v, p, j as int);
        assert(branch(e, w, 1u32 << j) == way[i + 1]);
        rest_of_code(t, v, p, step, way, i + 1);
    }
}

proof fn code_is_read(t: Seq<u8>, v: Seq<u8>, p: nat, step: Step, way: Seq<int>)
    requires
        is_code(t, v, p as int, step, way),
        p / 8 < v.len(),
    ensures
        symbol(t, 0, 3, front(v + seq![0u8, 0u8, 0u8], p)) == (Symbol::Code {
            tab: tab_of(entry(t, way[way.len() - 1])),
            bits: step.bits as u8,
        }),
        0 < step.bits <= 25,
        ends_code(entry(t, way[way.len() - 1]), step.act),
{
    reveal(is_code);
    let w = front(v + seq![0u8, 0u8, 0u8], p);
    front_root(v, p);
    let root = w & 0xFFu32;
    assert(in_table(t, way[0]));
    entry_is(t, root);
    let e = le16(t, 3 * way[0]);
    parts_of_entry(e, 0, 0);
    if way.len() > 1 {
        let c = t[3 * way[0] + 2];
        assert(leads_on(t, v, p + c + 0, way, 0));
        bits_of_word(0, 0, 0, 0, 0, w, c as u32);
        front_bit(v, p, c as int);
        assert(branch(e, w, 1u32 << (c as u32)) == way[1]);
        rest_of_code(t, v, p, step, way, 1);
    }
}

proof fn filled8(s: Seq<u8>, o: int, v: u8, n: nat)
    requires
        0 <= o,
        o + n <= s.len(),
    ensures
        fill8(s, o, v, n).len() == s.len(),
        forall|i: int|
            0 <= i < s.len() ==> #[trigger] fill8(s, o, v, n)[i] == (if o <= i < o + n {
                v
            } else {
                s[i]
            }),
    decreases n,
{
    if n > 0 {
        filled8(s, o, v, (n - 1) as nat);
    }
}

proof fn filled16(s: Seq<u8>, o: int, a: u8, b: u8, n: nat)
    requires
        0 <= o,
        o + 2 * n <= s.len(),
    ensures
        ({
            let r = fill16(s, o, (a as u16) | ((b as u16) << 8u16), n);
            &&& r.len() == s.len()
            &&& forall|i: int|
                0 <= i < s.len() ==> #[trigger] r[i] == (if o <= i < o + 2 * n {
                    if (i - o) % 2 == 0 {
                        a
                    } else {
                        b
                    }
                } else {
                    s[i]
                })
        }),
    decreases n,
{
    if n > 0 {
        filled16(s, o, a, b, (n - 1) as nat);
        parts_of_words(a, b, 0, 0);
    }
}

proof fn filled32(s: Seq<u8>, o: int, q: Seq<u8>, n: nat)
    requires
        0 <= o,
        q.len() == 4,
        o + 4 * n <= s.len(),
    ensures
        ({
            let r = fill32(s, o, le32(q, 0), n);
            &&& r.len() == s.len()
            &&& forall|i: int|
                0 <= i < s.len() ==> #[trigger] r[i] == (if o <= i < o + 4 * n {
                    q[(i - o) % 4]
                } else {
                    s[i]
                })
        }),
    decreases n,
{
    if n > 0 {
        filled32(s, o, q, (n - 1) as nat);
        parts_of_words(q[0], q[1], q[2], q[3]);
    }
}

proof fn copied(s: Seq<u8>, o: int, back: int, n: nat)
    requires
        n <= back <= o,
        o + n <= s.len(),
    ensures
        repeat_back(s, o, back, n).len() == s.len(),
        forall|i: int|
            0 <= i < s.len() ==> #[trigger] repeat_back(s, o, back, n)[i] == (if o <= i < o + n {
                s[i - back]
            } else {
                s[i]
            }),
    decreases n,
{
    if n > 0 {
        copied(s, o, back, (n - 1) as nat);
    }
}

/// A buffer whose first bytes are `all`.
spec fn filled(s: Seq<u8>, all: Seq<u8>) -> Seq<u8> {
    all + s.subrange(all.len() as int, s.len() as int)
}

proof fn run_is_made(all: Seq<u8>, s: Seq<u8>, width: u8, count: u32, after: Seq<u8>)
    requires
        width == 1 || width == 2 || width == 4,
        width <= all.len(),
        0 < count <= 0xFFFF,
        after == all + Seq::new(
            (count * width) as nat,
            |i: int| all[all.len() - width + i % (width as int)],
        ),
        after.len() <= s.len() <= u32::MAX,
        all.len() <= s.len(),
    ensures
        run_fill(filled(s, all), all.len() as u32, width as u32, count) == (Applied::Wrote {
            data: filled(s, after),
            step: (count * width) as u32,
            pending: 0,
        }),
{
    let d = filled(s, all);
    let n = all.len() as int;
    assert(count * width <= 0x3_FFFC) by (nonlinear_arith)
        requires
            count <= 0xFFFF,
            width <= 4,
    ;
    assert(count.wrapping_mul(width as u32) == count * width);
    if width == 1 {
        filled8(d, n, d[n - 1], count as nat);
        assert(fill8(d, n, d[n - 1], count as nat) =~= filled(s, after));
    } else if width == 2 {
        filled16(d, n, d[n - 2], d[n - 1], count as nat);
        assert(le16(d, n - 2) == (d[n - 2] as u16) | ((d[n - 1] as u16) << 8u16));
        assert(fill16(d, n, le16(d, n - 2), count as nat) =~= filled(s, after));
    } else {
        let q = seq![d[n - 4], d[n - 3], d[n - 2], d[n - 1]];
        assert(le32(q, 0) == le32(d, n - 4));
        filled32(d, n, q, count as nat);
        assert forall|i: int| 0 <= i < 4 implies q[i] == all[n - 4 + i] by {}
        assert(fill32(d, n, le32(d, n - 4), count as nat) =~= filled(s, after));
    }
}

proof fn parts_of_tab(e: int, act: Act)
    requires
        0x8000 <= e < 0x1_0000,
        ends_code(e, act),
    ensures
        ((tab_of(e) as u32) & 0xFFu32) == act_number(act) % 256,
        ((tab_of(e) as u32) & 0x300u32) == 256 * (act_number(act) / 256),
{
    parts_of_entry(e as u16, 0, 0);
    assert(tab_of(e) == (e as u16) & 0x7FFFu16);
    assert(e % 256 == (e % 0x400) % 256);
    assert(e / 256 % 4 == (e % 0x400) / 256);
}

/// Whether a cursor stands behind `all` in the buffer `s`.
spec fn stands_behind(s: Seq<u8>, dest: u32, c: Cursor, all: Seq<u8>, number: nat) -> bool {
    &&& dest <= all.len() <= s.len() <= u32::MAX
    &&& c.data == filled(s, all)
    &&& c.dest == all.len()
    &&& c.written == all.len() - dest
    &&& c.pending == number
    &&& number < 0x1_0000
}

proof fn byte_is_made(s: Seq<u8>, dest: u32, c: Cursor, all: Seq<u8>, number: nat, e: int, x: u8, d_size: u32)
    requires
        0x8000 <= e < 0x1_0000,
        ends_code(e, Act::Byte(x)),
        stands_behind(s, dest, c, all, number),
        all.len() + 1 <= s.len(),
    ensures
        apply(c, tab_of(e), d_size) == (Applied::Wrote {
            data: filled(s, all.push(x)),
            step: 1,
            pending: number as u32,
        }),
{
    parts_of_tab(e, Act::Byte(x));
    assert(c.data.update(c.dest as int, x) =~= filled(s, all.push(x)));
}

proof fn number_is_made(s: Seq<u8>, dest: u32, c: Cursor, all: Seq<u8>, number: nat, e: int, x: u8, d_size: u32)
    requires
        0x8000 <= e < 0x1_0000,
        ends_code(e, Act::Number(x)),
        stands_behind(s, dest, c, all, number),
        number < 256,
    ensures
        apply(c, tab_of(e), d_size) == (Applied::Wrote {
            data: filled(s, all),
            step: 0,
            pending: (if number == 0 {
                x as int
            } else {
                256 * number + x
            }) as u32,
        }),
{
    parts_of_tab(e, Act::Number(x));
    parts_of_entry(0, number as u32, x as u32);
}

proof fn repeat_is_made(s: Seq<u8>, dest: u32, c: Cursor, all: Seq<u8>, number: nat, e: int, width: u8, d_size: u32, after: Seq<u8>)
    requires
        0x8000 <= e < 0x1_0000,
        ends_code(e, Act::Run(width)),
        stands_behind(s, dest, c, all, number),
        acted(all, all.len() - dest, number, Act::Run(width)) == Some((after, 0nat)),
        after.len() <= dest + d_size <= s.len(),
    ensures
        apply(c, tab_of(e), d_size) == (Applied::Wrote {
            data: filled(s, after),
            step: (after.len() - all.len()) as u32,
            pending: 0,
        }),
        after.len() >= all.len(),
{
    parts_of_tab(e, Act::Run(width));
    let count = if number == 0 {
        1u32
    } else {
        number as u32
    };
    assert(count * width <= 0x3_FFFC) by (nonlinear_arith)
        requires
            count <= 0xFFFF,
            width <= 4,
    ;
    assert(after.len() - all.len() == count * width);
    run_is_made(all, s, width, count, after);
}

proof fn copy_is_made(s: Seq<u8>, dest: u32, c: Cursor, all: Seq<u8>, number: nat, e: int, len: u8, d_size: u32)
    requires
        0x8000 <= e < 0x1_0000,
        ends_code(e, Act::Copy(len)),
        stands_behind(s, dest, c, all, number),
        number + len <= all.len() - dest,
        all.len() + len <= dest + d_size <= s.len(),
    ensures
        apply(c, tab_of(e), d_size) == (Applied::Wrote {
            data: filled(s, all + all.subrange(all.len() - number - len, all.len() - number)),
            step: len as u32,
            pending: 0,
        }),
{
    parts_of_tab(e, Act::Copy(len));
    let n = all.len() as int;
    let back = number + len;
    copied(c.data, n, back as int, len as nat);
    assert(repeat_back(c.data, n, back as int, len as nat) =~= filled(
        s,
        all + all.subrange(n - number - len, n - number),
    ));
}

proof fn step_is_made(
    s: Seq<u8>,
    dest: u32,
    c: Cursor,
    all: Seq<u8>,
    number: nat,
    e: int,
    act: Act,
    d_size: u32,
)
    requires
        0x8000 <= e < 0x1_0000,
        ends_code(e, act),
        stands_behind(s, dest, c, all, number),
        acted(all, all.len() - dest, number, act) matches Some((after, _)) && after.len() <= dest
            + d_size && dest + d_size <= s.len(),
    ensures
        ({
            let (after, left) = acted(all, all.len() - dest, number, act)->0;
            &&& apply(c, tab_of(e), d_size) == (Applied::Wrote {
                data: filled(s, after),
                step: (after.len() - all.len()) as u32,
                pending: left as u32,
            })
            &&& left < 0x1_0000
            &&& after.len() >= all.len()
        }),
{
    let (after, left) = acted(all, all.len() - dest, number, act)->0;
    match act {
        Act::Byte(x) => byte_is_made(s, dest, c, all, number, e, x, d_size),
        Act::Number(x) => number_is_made(s, dest, c, all, number, e, x, d_size),
        Act::Run(width) => repeat_is_made(s, dest, c, all, number, e, width, d_size, after),
        Act::Copy(len) => copy_is_made(s, dest, c, all, number, e, len, d_size),
    }
}

proof fn expansion_goes_on(
    t: Seq<u8>,
    v: Seq<u8>,
    s_size: u32,
    d_size: u32,
    c: Cursor,
    tab: u16,
    bits: u8,
    data: Seq<u8>,
    step: u32,
    pending: u32,
)
    requires
        c.written <= c.dest,
        c.bits / 8 < s_size,
        c.written < d_size,
        symbol(t, 0, 3, front(v, c.bits)) == (Symbol::Code { tab, bits }),
        apply(c, tab, d_size) == (Applied::Wrote { data, step, pending }),
        bits > 0,
    ensures
        expand(Some(t), 0, v, s_size, d_size, c) == expand(
            Some(t),
            0,
            v,
            s_size,
            d_size,
            advanced(c, bits, data, step, pending),
        ),
        c.dest + step <= u32::MAX,
        c.written + step <= d_size,
{
    applied_bounds(c, tab, d_size);
}

proof fn steps_are_made(
    t: Seq<u8>,
    s: Seq<u8>,
    src: u32,
    dest: u32,
    s_size: u32,
    d_size: u32,
    steps: Seq<Step>,
    ways: Seq<Seq<int>>,
    k: nat,
    c: Cursor,
)
    requires
        s.len() <= u32::MAX,
        src + s_size <= s.len(),
        dest + d_size <= s.len(),
        are_codes(t, s.subrange(src as int, src + s_size), steps, ways),
        fill_up(steps, s.subrange(0, dest as int), d_size as int),
        k <= steps.len(),
        made_by(steps, k, s.subrange(0, dest as int)) matches Some((all, number)) && stands_behind(
            s,
            dest,
            c,
            all,
            number,
        ) && all.len() <= dest + d_size,
        c.bits == bits_of(steps, k),
    ensures
        expand(Some(t), 0, source(s, src, s_size), s_size, d_size, c) == (Outcome::Ended {
            data: filled(s, output(steps, steps.len(), s.subrange(0, dest as int))),
            result: Ok(()),
        }),
    decreases steps.len() - k,
{
    let before = s.subrange(0, dest as int);
    let v = s.subrange(src as int, src + s_size);
    let (all, number) = made_by(steps, k, before)->0;
    assert(source(s, src, s_size) == v + seq![0u8, 0u8, 0u8]);
    if k < steps.len() {
        let step = steps[k as int];
        let way = ways[k as int];
        assert(bits_of(steps, k) < 8 * v.len() && is_code(
            t,
            v,
            bits_of(steps, k) as int,
            step,
            way,
        ));
        code_is_read(t, v, c.bits, step, way);
        let e = entry(t, way[way.len() - 1]);
        assert(unfinished(steps, k as int, before, d_size as int));
        assert(all.len() < dest + d_size);
        let m = made_by(steps, (k + 1) as nat, before);
        assert(m == acted(all, all.len() - dest, number, step.act));
        if k + 1 < steps.len() {
            assert(unfinished(steps, k as int + 1, before, d_size as int));
        }
        step_is_made(s, dest, c, all, number, e, step.act, d_size);
        let (after, left) = m->0;
        expansion_goes_on(
            t,
            v + seq![0u8, 0u8, 0u8],
            s_size,
            d_size,
            c,
            tab_of(e),
            step.bits as u8,
            filled(s, after),
            (after.len() - all.len()) as u32,
            left as u32,
        );
        let next = advanced(
            c,
            step.bits as u8,
            filled(s, after),
            (after.len() - all.len()) as u32,
            left as u32,
        );
        steps_are_made(t, s, src, dest, s_size, d_size, steps, ways, (k + 1) as nat, next);
    }
}

/// Bytes that were written as codes of a table are expanded to themselves, and nothing else
/// of the buffer changes.
pub proof fn written_codes_are_expanded(
    t: Seq<u8>,
    s: Seq<u8>,
    src: u32,
    dest: u32,
    s_size: u32,
    d_size: u32,
    steps: Seq<Step>,
    ways: Seq<Seq<int>>,
)
    requires
        s.len() <= u32::MAX,
        s_size as u64 <= MAX_IMAGE_SIZE,
        src + s_size <= s.len(),
        dest + d_size <= s.len(),
        are_codes(t, s.subrange(src as int, src + s_size), steps, ways),
        fill_up(steps, s.subrange(0, dest as int), d_size as int),
    ensures
        expanded(Some(t), s, src, dest, 0, s_size, d_size) == (Outcome::Ended {
            data: output(steps, steps.len(), s.subrange(0, dest as int)) + s.subrange(
                dest + d_size,
                s.len() as int,
            ),
            result: Ok(()),
        }),
{
    let before = s.subrange(0, dest as int);
    let c = Cursor { data: s, dest, bits: 0, pending: 0, written: 0 };
    assert(filled(s, before) =~= s);
    steps_are_made(t, s, src, dest, s_size, d_size, steps, ways, 0, c);
}

/// The same with the table in the buffer itself, apart from the output.
pub proof fn written_codes_are_expanded_in_place(
    t: Seq<u8>,
    s: Seq<u8>,
    src: u32,
    dest: u32,
    ko: u32,
    s_size: u32,
    d_size: u32,
    steps: Seq<Step>,
    ways: Seq<Seq<int>>,
)
    requires
        s.len() <= u32::MAX,
        s_size as u64 <= MAX_IMAGE_SIZE,
        src + s_size <= s.len(),
        dest + d_size <= s.len(),
        table_of(s, ko) == Some(t),
        dest + d_size <= ko || ko + t.len() <= dest,
        ko + (t.len() - 3) <= u32::MAX,
        are_codes(t, s.subrange(src as int, src + s_size), steps, ways),
        fill_up(steps, s.subrange(0, dest as int), d_size as int),
    ensures
        expanded(None, s, src, dest, ko, s_size, d_size) == (Outcome::Ended {
            data: output(steps, steps.len(), s.subrange(0, dest as int)) + s.subrange(
                dest + d_size,
                s.len() as int,
            ),
            result: Ok(()),
        }),
{
    written_codes_are_expanded(t, s, src, dest, s_size, d_size, steps, ways);
    snapshot_expands_alike(s, src, dest, ko, s_size, d_size, t);
}

} // verus!
