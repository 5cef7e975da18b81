//! The symbol hash tables of a shared library.

use vstd::prelude::*;

use crate::android::error::{invalid, invalid_as, Error};
use crate::android::layout::{bytes32, bytes64, push_u32, push_u64};

verus! {

/// One step of the System V hash.
pub open spec fn elf_step(h: u32, b: u8) -> u32 {
    let v = (h << 4u32).wrapping_add(b as u32);
    let high = v & 0xf000_0000;
    if high != 0 {
        (v ^ (high >> 24u32)) & !high
    } else {
        v
    }
}

/// The System V hash of the first `n` bytes of a name.
pub open spec fn elf_hash_of(name: Seq<u8>, n: int) -> u32
    decreases n,
{
    if n <= 0 {
        0
    } else {
        elf_step(elf_hash_of(name, n - 1), name[n - 1])
    }
}

/// The GNU hash of the first `n` bytes of a name.
pub open spec fn gnu_hash_of(name: Seq<u8>, n: int) -> u32
    decreases n,
{
    if n <= 0 {
        5381
    } else {
        gnu_hash_of(name, n - 1).wrapping_mul(33).wrapping_add(name[n - 1] as u32)
    }
}

/// The System V hash of a name.
pub fn elf_hash(name: &[u8]) -> (r: u32)
    ensures
        r == elf_hash_of(name@, name@.len() as int),
{
    let mut value: u32 = 0;
    let mut i: usize = 0;
    while i < name.len()
        invariant
            i <= name@.len(),
            value == elf_hash_of(name@, i as int),
        decreases name@.len() - i,
    {
        value = (value << 4u32).wrapping_add(name[i] as u32);
        let high: u32 = value & 0xf000_0000;
        if high != 0 {
            value = (value ^ (high >> 24u32)) & !high;
        }
        i = i + 1;
    }
    value
}

/// The GNU hash of a name.
pub fn gnu_hash(name: &[u8]) -> (r: u32)
    ensures
        r == gnu_hash_of(name@, name@.len() as int),
{
    let mut value: u32 = 5381;
    let mut i: usize = 0;
    while i < name.len()
        invariant
            i <= name@.len(),
            value == gnu_hash_of(name@, i as int),
        decreases name@.len() - i,
    {
        value = value.wrapping_mul(33).wrapping_add(name[i] as u32);
        i = i + 1;
    }
    value
}

/// The bytes of some words, one after the other.
pub open spec fn words_bytes(w: Seq<u32>) -> Seq<u8>
    decreases w.len(),
{
    if w.len() == 0 {
        Seq::empty()
    } else {
        words_bytes(w.drop_last()) + bytes32(w.last())
    }
}

/// Append the bytes of some words.
fn push_words(out: &mut Vec<u8>, w: &[u32])
    ensures
        final(out)@ == old(out)@ + words_bytes(w@),
{
    let mut i: usize = 0;
    assert(out@ =~= old(out)@ + words_bytes(w@.take(0)));
    while i < w.len()
        invariant
            i <= w@.len(),
            out@ == old(out)@ + words_bytes(w@.take(i as int)),
        decreases w@.len() - i,
    {
        push_u32(out, w[i]);
        assert(w@.take(i + 1).drop_last() =~= w@.take(i as int));
        assert(out@ =~= old(out)@ + words_bytes(w@.take(i + 1)));
        i = i + 1;
    }
    assert(w@.take(i as int) =~= w@);
}

/// The bucket of symbol `i`.
pub open spec fn bucket_of(names: Seq<Vec<u8>>, i: int) -> int {
    elf_hash_of(names[i]@, names[i]@.len() as int) as int % names.len() as int
}

/// The first symbol of bucket `b` among `i..end`, 0 where there is none.
pub open spec fn next_in(names: Seq<Vec<u8>>, b: int, i: int, end: int) -> int
    decreases end - i,
{
    if i >= end {
        0
    } else if bucket_of(names, i) == b {
        i
    } else {
        next_in(names, b, i + 1, end)
    }
}

/// Each bucket's first symbol among the first `end`.
pub open spec fn buckets_of(names: Seq<Vec<u8>>, end: int) -> Seq<u32> {
    Seq::new(names.len(), |b: int| next_in(names, b, 1, end) as u32)
}

/// Each symbol's successor in its bucket among the first `end`. Symbol 0 is in
/// no bucket.
pub open spec fn chains_of(names: Seq<Vec<u8>>, end: int) -> Seq<u32> {
    Seq::new(
        names.len(),
        |i: int|
            if i == 0 {
                0
            } else {
                next_in(names, bucket_of(names, i), i + 1, end) as u32
            },
    )
}

/// The System V hash table: a bucket for each symbol, and for each symbol the
/// next one of its bucket.
pub open spec fn sysv_table(names: Seq<Vec<u8>>) -> Result<Seq<u8>, Seq<char>> {
    let n = names.len();
    if n < 2 {
        Err("dynamic symbol table is unexpectedly empty"@)
    } else if n - 1 > u32::MAX {
        Err("dynamic symbol index exceeds u32"@)
    } else if n > u32::MAX {
        Err("SysV bucket count exceeds u32"@)
    } else {
        Ok(
            bytes32(n as u32) + bytes32(n as u32) + words_bytes(buckets_of(names, n as int))
                + words_bytes(chains_of(names, n as int)),
        )
    }
}

proof fn next_in_bounds(names: Seq<Vec<u8>>, b: int, i: int, end: int)
    requires
        0 < i,
    ensures
        ({
            let r = next_in(names, b, i, end);
            ||| r == 0 && forall|j: int| i <= j < end ==> bucket_of(names, j) != b
            ||| i <= r < end && bucket_of(names, r) == b && forall|j: int|
                i <= j < r ==> bucket_of(names, j) != b
        }),
    decreases end - i,
{
    if i < end && bucket_of(names, i) != b {
        next_in_bounds(names, b, i + 1, end);
    }
}

/// One more symbol: it follows where nothing followed, if the bucket is its own.
proof fn next_in_grows(names: Seq<Vec<u8>>, b: int, i: int, end: int)
    requires
        0 < i <= end,
    ensures
        next_in(names, b, i, end + 1) == (if next_in(names, b, i, end) != 0 {
            next_in(names, b, i, end)
        } else if bucket_of(names, end) == b {
            end
        } else {
            0
        }),
    decreases end - i,
{
    if i < end {
        if bucket_of(names, i) != b {
            next_in_grows(names, b, i + 1, end);
        }
    } else {
        assert(next_in(names, b, i + 1, end + 1) == 0);
    }
}

/// The tables after one more symbol, which is the first of its bucket or follows
/// `last`, the last one so far.
proof fn tables_grow(names: Seq<Vec<u8>>, k: int, last: int)
    requires
        0 < k < names.len() <= u32::MAX,
        0 <= last < k,
        last == 0 ==> next_in(names, bucket_of(names, k), 1, k) == 0,
        last > 0 ==> bucket_of(names, last) == bucket_of(names, k) && next_in(
            names,
            bucket_of(names, k),
            last + 1,
            k,
        ) == 0 && next_in(names, bucket_of(names, k), 1, k) != 0,
    ensures
        buckets_of(names, k + 1) == (if last == 0 {
            buckets_of(names, k).update(bucket_of(names, k), k as u32)
        } else {
            buckets_of(names, k)
        }),
        chains_of(names, k + 1) == (if last == 0 {
            chains_of(names, k)
        } else {
            chains_of(names, k).update(last, k as u32)
        }),
{
    let b = bucket_of(names, k);
    assert(0 <= b < names.len());
    let firsts = buckets_of(names, k + 1);
    let nexts = chains_of(names, k + 1);
    assert forall|c: int| 0 <= c < names.len() implies #[trigger] firsts[c] == (if last == 0
        && c == b {
        k as u32
    } else {
        buckets_of(names, k)[c]
    }) by {
        next_in_grows(names, c, 1, k);
    }
    assert forall|i: int| 0 <= i < names.len() implies #[trigger] nexts[i] == (if last > 0
        && i == last {
        k as u32
    } else {
        chains_of(names, k)[i]
    }) by {
        if i > 0 {
            let c = bucket_of(names, i);
            if i + 1 <= k {
                next_in_grows(names, c, i + 1, k);
                next_in_bounds(names, c, i + 1, k);
                next_in_bounds(names, b, last + 1, k);
                if c == b && i != last {
                    if last == 0 {
                        next_in_bounds(names, b, 1, k);
                    } else if i < last {
                        assert(bucket_of(names, last) == b);
                    } else {
                        assert(bucket_of(names, i) == b);
                    }
                }
            } else {
                assert(next_in(names, c, i + 1, k + 1) == 0);
                assert(next_in(names, c, i + 1, k) == 0);
            }
        }
    }
    assert(firsts =~= (if last == 0 {
        buckets_of(names, k).update(b, k as u32)
    } else {
        buckets_of(names, k)
    }));
    assert(nexts =~= (if last == 0 {
        chains_of(names, k)
    } else {
        chains_of(names, k).update(last, k as u32)
    }));
}

/// The System V hash table of the symbols `names`.
pub fn build_sysv_hash(names: &[Vec<u8>]) -> (r: Result<Vec<u8>, Error>)
    ensures
        match sysv_table(names@) {
            Ok(v) => r is Ok && r->Ok_0@ == v,
            Err(t) => invalid_as(r, t),
        },
{
    let n: usize = names.len();
    if n < 2 {
        return Err(invalid("dynamic symbol table is unexpectedly empty"));
    }
    if n - 1 > u32::MAX as usize {
        return Err(invalid("dynamic symbol index exceeds u32"));
    }
    if n > u32::MAX as usize {
        return Err(invalid("SysV bucket count exceeds u32"));
    }
    let mut buckets: Vec<u32> = vec![0u32; n];
    let mut chains: Vec<u32> = vec![0u32; n];
    assert(buckets@ =~= buckets_of(names@, 1));
    assert forall|i: int| 0 <= i < n implies #[trigger] chains_of(names@, 1)[i] == 0 by {
        if i > 0 {
            assert(next_in(names@, bucket_of(names@, i), i + 1, 1) == 0);
        }
    }
    assert(chains@ =~= chains_of(names@, 1));
    let mut k: usize = 1;
    while k < n
        invariant
            1 <= k <= n,
            n == names@.len(),
            2 <= n <= u32::MAX,
            buckets@ == buckets_of(names@, k as int),
            chains@ == chains_of(names@, k as int),
        decreases n - k,
    {
        let b: usize = elf_hash(&names[k]) as usize % n;
        assert(b == bucket_of(names@, k as int));
        proof {
            next_in_bounds(names@, b as int, 1, k as int);
        }
        if buckets[b] == 0 {
            proof {
                tables_grow(names@, k as int, 0);
            }
            buckets.set(b, k as u32);
        } else {
            let mut at: usize = buckets[b] as usize;
            while chains[at] != 0
                invariant
                    1 <= k < n,
                    n == names@.len(),
                    n <= u32::MAX,
                    0 < at < k,
                    chains@ == chains_of(names@, k as int),
                    b == bucket_of(names@, k as int),
                    bucket_of(names@, at as int) == b,
                decreases k - at,
            {
                proof {
                    next_in_bounds(names@, b as int, at + 1, k as int);
                }
                at = chains[at] as usize;
            }
            proof {
                next_in_bounds(names@, b as int, at + 1, k as int);
                tables_grow(names@, k as int, at as int);
            }
            chains.set(at, k as u32);
        }
        k = k + 1;
    }
    let mut out: Vec<u8> = Vec::new();
    push_u32(&mut out, n as u32);
    push_u32(&mut out, n as u32);
    push_words(&mut out, &buckets);
    push_words(&mut out, &chains);
    assert(out@ =~= sysv_table(names@)->Ok_0);
    Ok(out)
}

/// The GNU hash of symbol `i`.
pub open spec fn gnu_of(names: Seq<Vec<u8>>, i: int) -> u32 {
    gnu_hash_of(names[i]@, names[i]@.len() as int)
}

/// The filter word of the symbols `1..end`: two bits for each.
pub open spec fn bloom_of(names: Seq<Vec<u8>>, end: int) -> u64
    decreases end,
{
    if end <= 1 {
        0
    } else {
        let h = gnu_of(names, end - 1);
        bloom_of(names, end - 1) | (1u64 << ((h & 63) as u64)) | (1u64 << (((h >> 5u32) & 63) as u64))
    }
}

/// The chain words: the hash of each symbol but the first, with its low bit set
/// on the last alone.
pub open spec fn gnu_chain(names: Seq<Vec<u8>>) -> Seq<u32> {
    Seq::new(
        (names.len() - 1) as nat,
        |i: int|
            if i + 2 == names.len() {
                (gnu_of(names, i + 1) & !1u32) | 1
            } else {
                gnu_of(names, i + 1) & !1u32
            },
    )
}

/// The GNU hash table: one bucket, one filter word.
pub open spec fn gnu_table(names: Seq<Vec<u8>>) -> Result<Seq<u8>, Seq<char>> {
    if names.len() < 2 {
        Err("GNU hash requires at least one dynamic symbol"@)
    } else {
        Ok(
            bytes32(1) + bytes32(1) + bytes32(1) + bytes32(5) + bytes64(
                bloom_of(names, names.len() as int),
            ) + bytes32(1) + words_bytes(gnu_chain(names)),
        )
    }
}

/// The GNU hash table of the symbols `names`.
pub fn build_gnu_hash(names: &[Vec<u8>]) -> (r: Result<Vec<u8>, Error>)
    ensures
        match gnu_table(names@) {
            Ok(v) => r is Ok && r->Ok_0@ == v,
            Err(t) => invalid_as(r, t),
        },
{
    let n: usize = names.len();
    if n < 2 {
        return Err(invalid("GNU hash requires at least one dynamic symbol"));
    }
    let mut bloom: u64 = 0;
    let mut chain: Vec<u32> = Vec::new();
    let mut i: usize = 1;
    while i < n
        invariant
            1 <= i <= n,
            n == names@.len(),
            bloom == bloom_of(names@, i as int),
            chain@ =~= gnu_chain(names@).take(i - 1),
        decreases n - i,
    {
        let h: u32 = gnu_hash(&names[i]);
        let low: u64 = (h & 63) as u64;
        let high: u64 = ((h >> 5u32) & 63) as u64;
        assert(h & 63 < 64 && (h >> 5u32) & 63 < 64) by (bit_vector);
        bloom = bloom | (1u64 << low) | (1u64 << high);
        let word: u32 = if i + 1 == n {
            (h & !1u32) | 1
        } else {
            h & !1u32
        };
        chain.push(word);
        i = i + 1;
    }
    assert(gnu_chain(names@).take(n - 1) =~= gnu_chain(names@));
    let mut out: Vec<u8> = Vec::new();
    push_u32(&mut out, 1);
    push_u32(&mut out, 1);
    push_u32(&mut out, 1);
    push_u32(&mut out, 5);
    push_u64(&mut out, bloom);
    push_u32(&mut out, 1);
    push_words(&mut out, &chain);
    assert(out@ =~= gnu_table(names@)->Ok_0);
    Ok(out)
}

/// Whether a walk of the chain from symbol `at` on comes to symbol `i`. A chain
/// goes up until it ends.
pub open spec fn reaches(names: Seq<Vec<u8>>, at: int, i: int) -> bool
    decreases names.len() - at,
{
    let next = chains_of(names, names.len() as int)[at] as int;
    at == i || (at < next < names.len() && reaches(names, next, i))
}

proof fn walk_reaches(names: Seq<Vec<u8>>, at: int, i: int)
    requires
        2 <= names.len() <= u32::MAX,
        0 < at <= i < names.len(),
        bucket_of(names, at) == bucket_of(names, i),
    ensures
        reaches(names, at, i),
    decreases i - at,
{
    if at < i {
        next_in_bounds(names, bucket_of(names, at), at + 1, names.len() as int);
        walk_reaches(names, next_in(names, bucket_of(names, at), at + 1, names.len() as int), i);
    }
}

/// A lookup finds every symbol: the bucket of its hash has a first symbol, and
/// the chain from there on comes to it.
pub proof fn every_symbol_is_found(names: Seq<Vec<u8>>, i: int)
    requires
        2 <= names.len() <= u32::MAX,
        0 < i < names.len(),
    ensures
        ({
            let first = buckets_of(names, names.len() as int)[bucket_of(names, i)] as int;
            0 < first < names.len() && reaches(names, first, i)
        }),
{
    let b = bucket_of(names, i);
    let n = names.len() as int;
    next_in_bounds(names, b, 1, n);
    assert(0 <= b < n);
    walk_reaches(names, next_in(names, b, 1, n), i);
}

/// The filter lets every symbol through: both of its bits are set.
pub proof fn filter_passes_every_symbol(names: Seq<Vec<u8>>, end: int, i: int)
    requires
        0 < i < end <= names.len(),
    ensures
        ({
            let h = gnu_of(names, i);
            let bits = (1u64 << ((h & 63) as u64)) | (1u64 << (((h >> 5u32) & 63) as u64));
            bloom_of(names, end) & bits == bits
        }),
    decreases end,
{
    let h = gnu_of(names, i);
    let bits = (1u64 << ((h & 63) as u64)) | (1u64 << (((h >> 5u32) & 63) as u64));
    let g = gnu_of(names, end - 1);
    let p = 1u64 << ((g & 63) as u64);
    let q = 1u64 << (((g >> 5u32) & 63) as u64);
    let before = bloom_of(names, end - 1);
    if i == end - 1 {
        assert((before | p | q) & (p | q) == p | q) by (bit_vector);
    } else {
        filter_passes_every_symbol(names, end - 1, i);
        assert((before | p | q) & bits == bits) by (bit_vector)
            requires
                before & bits == bits,
        ;
    }
}

/// A chain word differs from the hash in its low bit at most, and that bit is
/// set on the last word alone, where a walk ends.
pub proof fn chain_ends_at_the_last_symbol(names: Seq<Vec<u8>>, i: int)
    requires
        0 < i < names.len(),
    ensures
        gnu_chain(names)[i - 1] | 1 == gnu_of(names, i) | 1,
        gnu_chain(names)[i - 1] & 1 == 1 <==> i + 1 == names.len(),
{
    let h = gnu_of(names, i);
    assert((h & !1u32) | 1 == h | 1 && ((h & !1u32) | 1) | 1 == h | 1 && ((h & !1u32) | 1) & 1 == 1
        && (h & !1u32) & 1 == 0) by (bit_vector);
}

} // verus!
