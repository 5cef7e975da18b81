//! How a record stream is written, and that what is written is read.

use vstd::prelude::*;

use crate::android::stream::{
    first_of, header_of, mix_shift, product_of, record_of, record_word, records_from, stream_of,
    FixedProduct, HeaderWords, Record,
};
use crate::bits::{power_bits, xor_twice};
use crate::bytes::le32;

verus! {

/// Whether `inv` undoes the multiplication by `m`.
pub open spec fn undoes(m: FixedProduct, inv: FixedProduct) -> bool {
    forall|x: u32| m.product(#[trigger] inv.product(x)) == x
}

proof fn low_bits_have_no_product(columns: Seq<u32>, x: u32, n: int)
    requires
        0 <= n <= 32,
        forall|k: u32| k < n ==> #[trigger] (x >> k) & 1 == 0,
    ensures
        product_of(columns, x, n) == 0,
    decreases n,
{
    if n > 0 {
        assert((x >> ((n - 1) as u32)) & 1 == 0);
        low_bits_have_no_product(columns, x, n - 1);
    }
}

proof fn power_above(columns: Seq<u32>, i: u32, n: int)
    requires
        i < n <= 32,
    ensures
        product_of(columns, 1u32 << i, n) == columns[i as int],
    decreases n,
{
    let x = 1u32 << i;
    let k = (n - 1) as u32;
    power_bits(i, k);
    if i == n - 1 {
        assert forall|j: u32| j < n - 1 implies #[trigger] (x >> j) & 1 == 0 by {
            power_bits(i, j);
        }
        low_bits_have_no_product(columns, x, n - 1);
        xors_cancel(columns[i as int], 0);
    } else {
        power_above(columns, i, n - 1);
    }
}

/// The product with a power of the generator is its column.
pub proof fn product_of_a_power(m: FixedProduct, i: u32)
    requires
        i < 32,
    ensures
        m.product(1u32 << i) == m.columns@[i as int],
{
    power_above(m.columns@, i, 32);
}

/// What a stream's number adds to its words.
pub open spec fn number_mark(id: u32) -> u32 {
    let k = id.wrapping_mul(0x9d32_3cd7);
    (k >> (id & 7)).wrapping_add(k << (id & 0xb)).wrapping_add(0x5590_ad79)
}

/// The two words in front of a stream whose header stands for `p0` and `p1`.
pub open spec fn sealed_header(inv: FixedProduct, id: u32, p0: u32, p1: u32) -> (u32, u32) {
    let k = number_mark(id);
    let c0 = inv.product(p0 ^ k.wrapping_add(0xebe8_1dba)).wrapping_sub(0xcbf0_c1d8);
    (c0, inv.product(p1 ^ k.wrapping_add(0x9b88_94a2)).wrapping_sub(c0))
}

/// Word `w` of record `index` enciphered to follow `before`.
pub open spec fn sealed_word(
    inv: FixedProduct,
    plain: u32,
    before: u32,
    w: int,
    index: int,
    state: u32,
) -> u32 {
    let square = state.wrapping_mul(state.wrapping_add(0x96f6_0b71));
    let mixed = square.wrapping_add(state.wrapping_mul(0x06a5_5bcc)) >> (if w % 2 == 0 {
        1u32
    } else {
        5u32
    });
    let step = 0xe64d_33d8u32.wrapping_mul(w as u32).wrapping_add(0x7993_4cf6);
    let turned = square << (((index + 1) % 4) as u32);
    inv.product(plain.wrapping_add(mixed).wrapping_sub(state).wrapping_sub(step) ^ turned) ^ (
    before.wrapping_mul(before) >> 3u32)
}

/// The first `n` words of record `index`, enciphered one after the other.
pub open spec fn sealed_record(
    inv: FixedProduct,
    words: Seq<u32>,
    n: nat,
    index: int,
    state: u32,
) -> Seq<u32>
    decreases n,
{
    if n == 0 {
        Seq::empty()
    } else {
        let before = sealed_record(inv, words, (n - 1) as nat, index, state);
        before.push(
            sealed_word(
                inv,
                words[n - 1],
                if n == 1 {
                    0xf02f_7685
                } else {
                    before[n - 2]
                },
                n - 1,
                index,
                state,
            ),
        )
    }
}

/// Whether the descriptor at `o` of `s` is the nine words of record `index`, enciphered.
pub open spec fn is_sealed(
    s: Seq<u8>,
    o: int,
    inv: FixedProduct,
    words: Seq<u32>,
    index: int,
    state: u32,
) -> bool {
    forall|w: int|
        0 <= w < 9 ==> #[trigger] le32(s, o + 4 * w) == sealed_record(
            inv,
            words,
            9,
            index,
            state,
        )[w]
}

/// The record that nine words are.
pub open spec fn record_from(words: Seq<u32>, index: usize) -> Record {
    Record {
        index,
        command_id: words[0],
        flags: words[1],
        image_offset: words[2],
        image_size: words[3],
        metadata_offset: words[4],
        metadata_size: words[5],
        id_copy: words[6],
        entry_offset: words[7],
        init_offset: words[8],
    }
}

proof fn sealed_prefix(inv: FixedProduct, words: Seq<u32>, k: nat, n: nat, index: int, state: u32)
    requires
        k <= n,
    ensures
        sealed_record(inv, words, n, index, state).len() == n,
        forall|j: int|
            0 <= j < k ==> sealed_record(inv, words, n, index, state)[j] == sealed_record(
                inv,
                words,
                k,
                index,
                state,
            )[j],
    decreases n,
{
    if k < n {
        sealed_prefix(inv, words, k, (n - 1) as nat, index, state);
    } else if n > 0 {
        sealed_prefix(inv, words, (n - 1) as nat, (n - 1) as nat, index, state);
    }
}

proof fn xors_cancel(a: u32, b: u32)
    ensures
        (a ^ b) ^ b == a,
        0u32 ^ a == a,
{
    xor_twice(a, b, 0, 0, 0, 0);
}

proof fn shift_by_parity(w: u32)
    requires
        w < 9,
    ensures
        mix_shift(w) == (if w % 2 == 0 {
            1u32
        } else {
            5u32
        }),
{
    assert(((w * 4 + 3) as u32) & 5 == (if w % 2 == 0 {
        1u32
    } else {
        5u32
    })) by (bit_vector)
        requires
            w < 9,
    ;
}

proof fn sums_cancel(plain: u32, mixed: u32, state: u32, step: u32, turned: u32)
    ensures
        ((plain.wrapping_add(mixed).wrapping_sub(state).wrapping_sub(step) ^ turned)
            ^ turned).wrapping_add(step).wrapping_add(state).wrapping_sub(mixed) == plain,
{
    let inner = plain.wrapping_add(mixed).wrapping_sub(state).wrapping_sub(step);
    xors_cancel(inner, turned);
    assert(inner.wrapping_add(step) == plain.wrapping_add(mixed).wrapping_sub(state));
    assert(inner.wrapping_add(step).wrapping_add(state) == plain.wrapping_add(mixed));
}

proof fn factors_turn(a: u32, b: u32)
    ensures
        a.wrapping_mul(b) == b.wrapping_mul(a),
{
    assert(a as int * b as int == b as int * a as int) by (nonlinear_arith);
}

proof fn word_is_read(
    m: FixedProduct,
    inv: FixedProduct,
    d: Seq<u8>,
    words: Seq<u32>,
    w: u32,
    index: usize,
    state: u32,
)
    requires
        undoes(m, inv),
        w < 9,
        is_sealed(d, 0, inv, words, index as int, state),
    ensures
        record_word(m, d, w, index, state) == words[w as int],
{
    let all = sealed_record(inv, words, 9, index as int, state);
    sealed_prefix(inv, words, (w + 1) as nat, 9, index as int, state);
    sealed_prefix(inv, words, w as nat, 9, index as int, state);
    assert(le32(d, 0 + 4 * (w as int)) == all[w as int]);
    let before = if w == 0 {
        0xf02f_7685u32
    } else {
        le32(d, 0 + 4 * (w - 1))
    };
    let c = all[w as int];
    let product = state.wrapping_add(0x96f6_0b71).wrapping_mul(state);
    factors_turn(state, state.wrapping_add(0x96f6_0b71));
    shift_by_parity(w);
    let turn = ((index as int + 1) % 4) as u32;
    assert(turn == (((index % 4) + 1) % 4) as u32);
    let turned = product << turn;
    let sum = product.wrapping_add(state.wrapping_mul(0x06a5_5bcc));
    assert(sum == state.wrapping_mul(0x06a5_5bcc).wrapping_add(product));
    let mixed = sum >> mix_shift(w);
    let step = 0xe64d_33d8u32.wrapping_mul(w).wrapping_add(0x7993_4cf6);
    assert(step == 0x7993_4cf6u32.wrapping_add(0xe64d_33d8u32.wrapping_mul(w)));
    let plain = words[w as int];
    let inner = plain.wrapping_add(mixed).wrapping_sub(state).wrapping_sub(step);
    let fb = before.wrapping_mul(before) >> 3u32;
    let upto = sealed_record(inv, words, w as nat, index as int, state);
    assert(upto.len() == w) by {
        sealed_prefix(inv, words, w as nat, w as nat, index as int, state);
    }
    if w > 0 {
        assert(le32(d, 0 + 4 * (w - 1)) == all[w - 1]);
        assert(before == upto[w - 1]);
    }
    assert(sealed_record(inv, words, (w + 1) as nat, index as int, state) == upto.push(
        sealed_word(inv, plain, before, w as int, index as int, state),
    ));
    assert(c == sealed_word(inv, plain, before, w as int, index as int, state));
    assert(c == inv.product(inner ^ turned) ^ fb);
    xors_cancel(inv.product(inner ^ turned), fb);
    assert(m.product(c ^ fb) == inner ^ turned);
    sums_cancel(plain, mixed, state, step, turned);
}

/// A record that was enciphered word by word, under any multiplier that can be undone,
/// is deciphered to its words.
pub proof fn sealed_record_is_read(
    m: FixedProduct,
    inv: FixedProduct,
    d: Seq<u8>,
    words: Seq<u32>,
    index: usize,
    state: u32,
)
    requires
        undoes(m, inv),
        is_sealed(d, 0, inv, words, index as int, state),
    ensures
        record_of(m, d, index, state) == record_from(words, index),
{
    reveal(record_of);
    word_is_read(m, inv, d, words, 0, index, state);
    word_is_read(m, inv, d, words, 1, index, state);
    word_is_read(m, inv, d, words, 2, index, state);
    word_is_read(m, inv, d, words, 3, index, state);
    word_is_read(m, inv, d, words, 4, index, state);
    word_is_read(m, inv, d, words, 5, index, state);
    word_is_read(m, inv, d, words, 6, index, state);
    word_is_read(m, inv, d, words, 7, index, state);
    word_is_read(m, inv, d, words, 8, index, state);
}

/// Whether a payload that is there starts behind the table's end and inside the stream.
pub open spec fn payload_placed(offset: u32, size: u32, end: int, len: int) -> bool {
    offset != 0 && size != 0 ==> end <= offset < len
}

/// Whether a payload starts right behind the table.
pub open spec fn leads_payloads(words: Seq<u32>, end: int) -> bool {
    ||| words[2] == end && words[3] != 0
    ||| words[4] == end && words[5] != 0
}

/// Whether records can be written as the table of a stream of `len` bytes: each names its
/// command twice or once, payloads follow the table, and the first stands right behind
/// it, unless the table is all there is.
pub open spec fn is_table(list: Seq<Seq<u32>>, len: int) -> bool {
    let end: int = 8int + 92 * list.len();
    &&& 0 < list.len() <= 256
    &&& end <= len
    &&& forall|i: int|
        0 <= i < list.len() ==> {
            let x = #[trigger] list[i];
            &&& x[6] == 0 || x[6] == x[0]
            &&& payload_placed(x[2], x[3], end, len)
            &&& payload_placed(x[4], x[5], end, len)
        }
    &&& end == len || exists|i: int| 0 <= i < list.len() && leads_payloads(#[trigger] list[i], end)
}

/// Whether `s` is a stream whose header stands for `p0` and `p1` and whose records are
/// `list`.
pub open spec fn is_stream(
    s: Seq<u8>,
    inv: FixedProduct,
    id: u32,
    p0: u32,
    p1: u32,
    list: Seq<Seq<u32>>,
) -> bool {
    &&& is_table(list, s.len() as int)
    &&& (le32(s, 0), le32(s, 4)) == sealed_header(inv, id, p0, p1)
    &&& forall|i: int|
        0 <= i < list.len() ==> is_sealed(
            s,
            8 + 92 * i,
            inv,
            #[trigger] list[i],
            i,
            p1.wrapping_add(number_mark(id)),
        )
}

proof fn header_is_read(m: FixedProduct, inv: FixedProduct, s: Seq<u8>, id: u32, p0: u32, p1: u32)
    requires
        undoes(m, inv),
        (le32(s, 0), le32(s, 4)) == sealed_header(inv, id, p0, p1),
    ensures
        header_of(m, s, id) == (HeaderWords {
            encrypted: (le32(s, 0), le32(s, 4)),
            decrypted: (p0, p1),
            record_state: p1.wrapping_add(number_mark(id)),
        }),
{
    let k = number_mark(id);
    assert(crate::android::stream::stream_base(id) == k);
    let a = k.wrapping_add(0xebe8_1dba);
    let b = k.wrapping_add(0x9b88_94a2);
    assert(0xeb_e81dbau32.wrapping_add(k) == a);
    assert(0xeb_e81dbau32.wrapping_mul(5).wrapping_add(k) == b);
    xors_cancel(p0, a);
    xors_cancel(p1, b);
    let c0 = le32(s, 0);
    let c1 = le32(s, 4);
    assert(c0.wrapping_add(0xcbf0_c1d8) == inv.product(p0 ^ a));
    assert(c1.wrapping_add(c0) == inv.product(p1 ^ b));
}

/// The first payload of the first `n` records, `len` where there is none.
spec fn lead(list: Seq<Seq<u32>>, n: int, len: int) -> int
    decreases n,
{
    if n <= 0 {
        len
    } else {
        let x = list[n - 1];
        first_of(first_of(lead(list, n - 1, len), x[2], x[3]), x[4], x[5])
    }
}

proof fn lead_bounds(list: Seq<Seq<u32>>, n: int, len: int)
    requires
        is_table(list, len),
        0 <= n <= list.len(),
    ensures
        8 + 92 * list.len() <= lead(list, n, len) <= len,
        forall|i: int|
            0 <= i < n && leads_payloads(#[trigger] list[i], 8int + 92 * list.len()) ==> lead(
                list,
                n,
                len,
            ) == 8 + 92 * list.len(),
    decreases n,
{
    if n > 0 {
        lead_bounds(list, n - 1, len);
    }
}

proof fn records_are_read(
    m: FixedProduct,
    inv: FixedProduct,
    s: Seq<u8>,
    id: u32,
    p0: u32,
    p1: u32,
    list: Seq<Seq<u32>>,
    i: int,
)
    requires
        undoes(m, inv),
        is_stream(s, inv, id, p0, p1, list),
        0 <= i < list.len(),
    ensures
        records_from(
            m,
            s,
            id,
            p1.wrapping_add(number_mark(id)),
            i,
            lead(list, i, s.len() as int),
            Seq::new(i as nat, |k: int| record_from(list[k], k as usize)),
        ) == Ok::<(Seq<Record>, int), Seq<char>>(
            (
                Seq::new(list.len(), |k: int| record_from(list[k], k as usize)),
                8int + 92 * list.len(),
            ),
        ),
    decreases list.len() - i,
{
    let state = p1.wrapping_add(number_mark(id));
    let len = s.len() as int;
    let acc = Seq::new(i as nat, |k: int| record_from(list[k], k as usize));
    let start = 8 + 92 * i;
    let d = s.subrange(start, start + 92);
    let words = list[i];
    let sealed = sealed_record(inv, words, 9, i, state);
    assert forall|w: int| 0 <= w < 9 implies #[trigger] le32(d, 0 + 4 * w) == sealed[w] by {
        assert(le32(s, start + 4 * w) == sealed[w]);
    }
    assert(is_sealed(d, 0, inv, words, i, state));
    sealed_record_is_read(m, inv, d, words, i as usize, state);
    let x = record_from(words, i as usize);
    lead_bounds(list, i, len);
    lead_bounds(list, i + 1, len);
    let next = Seq::new((i + 1) as nat, |k: int| record_from(list[k], k as usize));
    assert(acc.push(x) =~= next);
    assert(i * crate::android::stream::RECORD_SIZE == 92 * i);
    if i + 1 < list.len() {
        records_are_read(m, inv, s, id, p0, p1, list, i + 1);
    } else {
        lead_bounds(list, list.len() as int, len);
    }
}

/// A stream that was written, under any multiplier that can be undone, is read: its header,
/// its records in order, and the end of its table.
pub proof fn written_stream_is_read(
    m: FixedProduct,
    inv: FixedProduct,
    s: Seq<u8>,
    id: u32,
    p0: u32,
    p1: u32,
    list: Seq<Seq<u32>>,
)
    requires
        undoes(m, inv),
        is_stream(s, inv, id, p0, p1, list),
    ensures
        stream_of(m, s, id) == Ok::<(HeaderWords, Seq<Record>, int), Seq<char>>(
            (
                HeaderWords {
                    encrypted: (le32(s, 0), le32(s, 4)),
                    decrypted: (p0, p1),
                    record_state: p1.wrapping_add(number_mark(id)),
                },
                Seq::new(list.len(), |k: int| record_from(list[k], k as usize)),
                8int + 92 * list.len(),
            ),
        ),
{
    header_is_read(m, inv, s, id, p0, p1);
    assert(Seq::new(0, |k: int| record_from(list[k], k as usize)) =~= Seq::<Record>::empty());
    records_are_read(m, inv, s, id, p0, p1, list, 0);
}

} // verus!
