//! The permutation of method numbers.

use vstd::prelude::*;

use crate::bits::masks;
use crate::metadata::error::{fails, validation, Error, Problem};

verus! {

/// One round backwards.
pub open spec fn unround(v: u32, count: u32, key: u32) -> u32 {
    let mirror = count.wrapping_mul(2).wrapping_sub(1);
    let a = (if v & 1u32 != 0 {
        mirror.wrapping_sub(v)
    } else {
        v
    }) >> 1u32;
    let b = if a >= count {
        mirror.wrapping_sub(a)
    } else {
        a
    };
    let c = b.wrapping_sub(key);
    if c > count {
        c.wrapping_add(count)
    } else {
        c
    }
}

/// `n` rounds backwards.
pub open spec fn unrounds(v: u32, count: u32, key: u32, n: nat) -> u32
    decreases n,
{
    if n == 0 {
        v
    } else {
        unround(unrounds(v, count, key, (n - 1) as nat), count, key)
    }
}

fn inverse_round(value: u32, count: u32, key: u32) -> (r: u32)
    ensures
        r == unround(value, count, key),
{
    let mirror: u32 = count.wrapping_mul(2).wrapping_sub(1);
    let mut v: u32 = value;
    if v & 1u32 != 0 {
        v = mirror.wrapping_sub(v);
    }
    v = v >> 1u32;
    if v >= count {
        v = mirror.wrapping_sub(v);
    }
    let w: u32 = v.wrapping_sub(key);
    if w > count {
        w.wrapping_add(count)
    } else {
        w
    }
}

/// The five rounds backwards.
pub fn five_rounds(value: u32, count: u32, key: u32) -> (r: u32)
    ensures
        r == unrounds(value, count, key, 5),
{
    let mut v: u32 = value;
    let mut n: u32 = 0;
    while n < 5
        invariant
            n <= 5,
            v == unrounds(value, count, key, n as nat),
        decreases 5 - n,
    {
        v = inverse_round(v, count, key);
        n = n + 1;
    }
    v
}

/// The plain value of a round, for a value, a count and a key of ordinary size.
proof fn unround_plain(v: u32, count: u32, key: u32)
    requires
        v < count,
        key < count,
        count <= 0x0100_0000,
    ensures
        ({
            let a = if v % 2 == 1 {
                (2 * count - 1 - v) / 2
            } else {
                v as int / 2
            };
            unround(v, count, key) == (if a >= key {
                a - key
            } else {
                a - key + count
            }) && 0 <= a < count
        }),
{
    masks(v, 0);
    let mirror = count.wrapping_mul(2).wrapping_sub(1);
    assert(mirror == 2 * count - 1);
    let w = if v & 1u32 != 0 {
        mirror.wrapping_sub(v)
    } else {
        v
    };
    masks(w, 0);
}

/// A round keeps a value below the count.
proof fn unround_bounds(v: u32, count: u32, key: u32)
    requires
        v < count,
        key < count,
        count <= 0x0100_0000,
    ensures
        unround(v, count, key) < count,
{
    unround_plain(v, count, key);
}

/// The rounds keep a value below the count.
pub proof fn unrounds_bounds(v: u32, count: u32, key: u32, n: nat)
    requires
        v < count,
        key < count,
        count <= 0x0100_0000,
    ensures
        unrounds(v, count, key, n) < count,
    decreases n,
{
    if n > 0 {
        unrounds_bounds(v, count, key, (n - 1) as nat);
        unround_bounds(unrounds(v, count, key, (n - 1) as nat), count, key);
    }
}

/// Different values stay different: the rounds permute the values below the
/// count.
pub proof fn rounds_are_injective(v: u32, w: u32, count: u32, key: u32, n: nat)
    requires
        v < count,
        w < count,
        v != w,
        key < count,
        count <= 0x0100_0000,
    ensures
        unrounds(v, count, key, n) != unrounds(w, count, key, n),
    decreases n,
{
    if n > 0 {
        rounds_are_injective(v, w, count, key, (n - 1) as nat);
        unrounds_bounds(v, count, key, (n - 1) as nat);
        unrounds_bounds(w, count, key, (n - 1) as nat);
        unround_plain(unrounds(v, count, key, (n - 1) as nat), count, key);
        unround_plain(unrounds(w, count, key, (n - 1) as nat), count, key);
    }
}

/// The plain number of the enciphered number `rid` of an image whose numbers lie
/// in `low..=high`.
pub open spec fn plain_rid(rid: u32, low: u32, high: u32, seed: u32) -> Result<u32, Problem> {
    let count = high + 1 - low;
    if high + 1 > u32::MAX || count < 0 {
        Err(Problem::Validation("invalid image RID interval"@))
    } else if count < 2 {
        Err(Problem::Validation("RID inverse permutation requires at least two entries"@))
    } else if rid < low {
        Err(Problem::Validation("encrypted RID lies below image minimum"@))
    } else {
        let key = seed % ((count / 2) as u32) + count / 4;
        let v = unrounds((rid - low) as u32, count as u32, key as u32, 5);
        if v + low > u32::MAX {
            Err(Problem::Validation("restored RID overflow"@))
        } else {
            Ok((v + low) as u32)
        }
    }
}

/// Decipher a method number.
pub fn decrypt_rid(rid: u32, low: u32, high: u32, seed: u32) -> (r: Result<u32, Error>)
    ensures
        match plain_rid(rid, low, high, seed) {
            Ok(v) => r is Ok && r->Ok_0 == v,
            Err(p) => fails(r, p),
        },
{
    if high == 0xFFFF_FFFF || high + 1 < low {
        return Err(validation("invalid image RID interval"));
    }
    let count: u32 = high + 1 - low;
    if count < 2 {
        return Err(validation("RID inverse permutation requires at least two entries"));
    }
    let key: u32 = seed % (count / 2) + count / 4;
    if rid < low {
        return Err(validation("encrypted RID lies below image minimum"));
    }
    let v: u32 = five_rounds(rid - low, count, key);
    match v.checked_add(low) {
        Some(x) => Ok(x),
        None => Err(validation("restored RID overflow")),
    }
}

/// The plain number under a given key.
pub open spec fn keyed_rid(rid: u32, low: u32, high: u32, key: u32) -> int {
    unrounds((rid - low) as u32, (high - low + 1) as u32, key, 5) + low
}

/// Decipher a method number with a given key.
pub fn decrypt_rid_with_key(rid: u32, low: u32, high: u32, key: u32) -> (r: u32)
    requires
        low <= rid <= high <= 0x00FF_FFFF,
        key <= high - low,
    ensures
        r == keyed_rid(rid, low, high, key),
{
    let count: u32 = high - low + 1;
    proof {
        unrounds_bounds((rid - low) as u32, count, key, 5);
    }
    let v: u32 = five_rounds(rid - low, count, key);
    v + low
}

/// Deciphering takes the numbers of an image to numbers of the image, no two to
/// the same one.
pub proof fn deciphering_permutes(a: u32, b: u32, low: u32, high: u32, seed: u32)
    requires
        low <= a <= high,
        low <= b <= high,
        a != b,
        high <= 0x00FF_FFFF,
    ensures
        plain_rid(a, low, high, seed) is Ok,
        plain_rid(b, low, high, seed) is Ok,
        low <= plain_rid(a, low, high, seed)->Ok_0 <= high,
        plain_rid(a, low, high, seed) != plain_rid(b, low, high, seed),
{
    let count = (high + 1 - low) as u32;
    let key = (seed % (count / 2) + count / 4) as u32;
    assert(key < count) by {
        assert(seed % (count / 2) < count / 2);
    }
    unrounds_bounds((a - low) as u32, count, key, 5);
    unrounds_bounds((b - low) as u32, count, key, 5);
    rounds_are_injective((a - low) as u32, (b - low) as u32, count, key, 5);
}

} // verus!
