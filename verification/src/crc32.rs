//! CRC-32 (reflected polynomial 0xEDB88320), with chaining.

use vstd::prelude::*;

verus! {

/// One shift of the CRC register.
pub open spec fn crc_bit(c: u32) -> u32 {
    if c & 1u32 != 0 {
        (c >> 1u32) ^ 0xEDB8_8320u32
    } else {
        c >> 1u32
    }
}

/// `n` shifts of the CRC register.
pub open spec fn crc_bits(c: u32, n: nat) -> u32
    decreases n,
{
    if n == 0 {
        c
    } else {
        crc_bit(crc_bits(c, (n - 1) as nat))
    }
}

/// The register after the bytes of `s`.
pub open spec fn crc_run(c: u32, s: Seq<u8>) -> u32
    decreases s.len(),
{
    if s.len() == 0 {
        c
    } else {
        crc_bits(crc_run(c, s.drop_last()) ^ (s.last() as u32), 8)
    }
}

/// The CRC-32 of what `start` is the CRC-32 of, followed by `s`.
pub open spec fn crc_append(start: u32, s: Seq<u8>) -> u32 {
    !crc_run(!start, s)
}

/// Continue the checksum `start` over `data`.
pub fn append(start: u32, data: &[u8]) -> (c: u32)
    ensures
        c == crc_append(start, data@),
{
    let mut c: u32 = !start;
    let mut i: usize = 0;
    while i < data.len()
        invariant
            i <= data@.len(),
            c == crc_run(!start, data@.take(i as int)),
        decreases data@.len() - i,
    {
        let before: u32 = c ^ (data[i] as u32);
        c = before;
        let mut k: u32 = 0;
        while k < 8
            invariant
                k <= 8,
                c == crc_bits(before, k as nat),
            decreases 8 - k,
        {
            c = if c & 1u32 != 0 {
                (c >> 1u32) ^ 0xEDB8_8320u32
            } else {
                c >> 1u32
            };
            k = k + 1;
        }
        assert(data@.take(i as int + 1).drop_last() =~= data@.take(i as int));
        i = i + 1;
    }
    assert(data@.take(i as int) =~= data@);
    !c
}

/// The checksum of `data`.
pub fn compute(data: &[u8]) -> (c: u32)
    ensures
        c == crc_append(0, data@),
{
    append(0, data)
}

/// The checksum of two parts, one after the other, is the checksum of the
/// second continued from that of the first.
pub proof fn append_is_chaining(start: u32, a: Seq<u8>, b: Seq<u8>)
    ensures
        crc_append(crc_append(start, a), b) == crc_append(start, a + b),
{
    let c = crc_run(!start, a);
    assert(!(!c) == c) by (bit_vector);
    run_concat(!start, a, b);
}

proof fn run_concat(c: u32, a: Seq<u8>, b: Seq<u8>)
    ensures
        crc_run(crc_run(c, a), b) == crc_run(c, a + b),
    decreases b.len(),
{
    if b.len() == 0 {
        assert(a + b =~= a);
    } else {
        run_concat(c, a, b.drop_last());
        assert((a + b).drop_last() =~= a + b.drop_last());
    }
}

} // verus!
