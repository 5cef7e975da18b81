//! The first steps of both pipelines: the header of the protected file, and the
//! image that its payload is loaded into.

use vstd::prelude::*;

use crate::bytes::{fits, get_u32, le32, put32, write_u32, zero_vec, zeros};
use crate::ciphers::{decrypt_data1, header_field, word_pos};
use crate::error::{UnpackError, MAX_IMAGE_SIZE};
use crate::pe::steps::{corrupt, has2, has4, paste, pasted, rd16, rd32, w16, w32, wr32, Out};

verus! {

/// The least length of a protected file.
pub const HEADER_LEN: usize = 4128;

/// The image and the key after `n` words of the payload cipher.
pub open spec fn data2_run(s: Seq<u8>, f: Seq<u8>, to: u32, from: u32, key: u32, n: nat) -> (
    Seq<u8>,
    u32,
)
    decreases n,
{
    if n == 0 {
        (s, key)
    } else {
        let (t, k) = data2_run(s, f, to, from, key, (n - 1) as nat);
        let i = (n - 1) as u32;
        let cell = le32(f, word_pos(from, n - 1) as int);
        (
            put32(t, word_pos(to, n - 1) as int, k ^ cell),
            i.wrapping_mul(i) ^ k.wrapping_add(cell).wrapping_add(i),
        )
    }
}

/// Whether payload word `i` lies inside the file and its place inside the image.
pub open spec fn word_in_range(s: Seq<u8>, f: Seq<u8>, to: u32, from: u32, i: int) -> bool {
    fits(f, word_pos(from, i) as int, 4) && fits(s, word_pos(to, i) as int, 4)
}

/// Whether the payload words lie inside the file and their places inside the
/// image.
pub open spec fn data2_in_range(s: Seq<u8>, f: Seq<u8>, to: u32, from: u32, n: int) -> bool {
    forall|i: int| 0 <= i < n ==> #[trigger] word_in_range(s, f, to, from, i)
}

/// The number of payload bytes that are enciphered word by word.
pub open spec fn enciphered(f: Seq<u8>) -> u32 {
    header_field(f, 6).wrapping_sub(header_field(f, 3)).wrapping_add(8192)
}

/// The image with the enciphered part of the payload loaded.
pub open spec fn with_words(s: Seq<u8>, f: Seq<u8>) -> Out<Seq<u8>> {
    let size = enciphered(f);
    let from = header_field(f, 4).wrapping_add(4096);
    let to = header_field(f, 3);
    let n = (size >> 2u32) as int;
    if data2_in_range(s, f, to, from, n) {
        Ok(data2_run(s, f, to, from, header_field(f, 0).wrapping_add(!size), n as nat).0)
    } else {
        corrupt()
    }
}

/// The image with the plain rest of the payload loaded.
pub open spec fn with_rest(s: Seq<u8>, f: Seq<u8>) -> Out<Seq<u8>> {
    let size = enciphered(f);
    pasted(
        s,
        header_field(f, 3).wrapping_add(size) as int,
        f,
        header_field(f, 4).wrapping_add(4096).wrapping_add(size) as int,
        header_field(f, 5).wrapping_sub(size) as int,
    )
}

/// The image with the payload, the page size where the payload starts, and the
/// first page of the file.
pub open spec fn with_payload(s: Seq<u8>, f: Seq<u8>) -> Out<Seq<u8>> {
    match with_words(s, f) {
        Err(e) => Err(e),
        Ok(a) => match with_rest(a, f) {
            Err(e) => Err(e),
            Ok(b) => if has4(b, header_field(f, 3)) {
                pasted(put32(b, header_field(f, 3) as int, 4096), 0, f, 0, 4096)
            } else {
                corrupt()
            },
        },
    }
}

/// A protected file loaded.
pub struct LoadedView {
    pub img: Seq<u8>,
    pub pe_off: u32,
    pub magic: u16,
}

/// The loaded image, where the PE header stands, and the optional header's magic.
pub open spec fn loaded(f: Seq<u8>, supported: Seq<u32>) -> Out<LoadedView> {
    let pe = le32(f, 60);
    if !supported.contains(header_field(f, 1)) {
        Err(UnpackError::HeaderMagicMismatch { found: header_field(f, 1) })
    } else if pe + 84 > f.len() {
        Err(UnpackError::InvalidPeOffset { offset: pe as i64, input_len: f.len() as usize })
    } else if !has4(f, pe.wrapping_add(80)) {
        corrupt()
    } else {
        let size = w32(f, pe.wrapping_add(80));
        if size == 0 || size > MAX_IMAGE_SIZE {
            Err(UnpackError::InvalidImageSize { size: size as i64, max: MAX_IMAGE_SIZE })
        } else {
            match with_payload(zeros(size as nat), f) {
                Err(e) => Err(e),
                Ok(img) => if has2(f, pe.wrapping_add(24)) {
                    Ok(LoadedView { img, pe_off: pe, magic: w16(f, pe.wrapping_add(24)) })
                } else {
                    corrupt()
                },
            }
        }
    }
}

/// A protected file loaded.
pub struct Loaded {
    pub img: Vec<u8>,
    pub pe_off: u32,
    pub magic: u16,
    pub info: [u32; 8],
}

/// Whether `info` holds the header fields of `f`.
pub open spec fn is_info(info: Seq<u32>, f: Seq<u8>) -> bool {
    info.len() == 8 && forall|i: int| 0 <= i < 8 ==> #[trigger] info[i] == header_field(f, i)
}

fn load_words(s: &mut [u8], f: &[u8], to: u32, from: u32, key: u32, n: u32) -> (r: Out<()>)
    ensures
        r == (if data2_in_range(old(s)@, f@, to, from, n as int) {
            Ok(())
        } else {
            corrupt()
        }),
        r is Ok ==> final(s)@ == data2_run(old(s)@, f@, to, from, key, n as nat).0,
        final(s)@.len() == old(s)@.len(),
{
    let a: usize = s.len();
    let b: usize = f.len();
    let mut k: u32 = key;
    let mut i: u32 = 0;
    while i < n
        invariant
            i <= n,
            a == s@.len() == old(s)@.len(),
            b == f@.len(),
            (s@, k) == data2_run(old(s)@, f@, to, from, key, i as nat),
            data2_in_range(old(s)@, f@, to, from, i as int),
        decreases n - i,
    {
        let o: u32 = from.wrapping_add(i.wrapping_mul(4));
        let p: u32 = to.wrapping_add(i.wrapping_mul(4));
        assert(o == word_pos(from, i as int) && p == word_pos(to, i as int));
        if b < 4 || o as usize > b - 4 || a < 4 || p as usize > a - 4 {
            assert(!word_in_range(old(s)@, f@, to, from, i as int));
            return Err(UnpackError::CorruptInput);
        }
        assert(word_in_range(old(s)@, f@, to, from, i as int));
        let cell: u32 = get_u32(f, o);
        write_u32(s, p, k ^ cell);
        k = i.wrapping_mul(i) ^ k.wrapping_add(cell).wrapping_add(i);
        i = i + 1;
    }
    Ok(())
}

fn load_payload(s: &mut [u8], f: &[u8], info: &[u32; 8]) -> (r: Out<()>)
    requires
        is_info(info@, f@),
    ensures
        match with_payload(old(s)@, f@) {
            Ok(v) => r is Ok && final(s)@ == v,
            Err(e) => r == Err::<(), UnpackError>(e),
        },
        final(s)@.len() == old(s)@.len(),
{
    let size: u32 = info[6].wrapping_sub(info[3]).wrapping_add(8192);
    assert(size == enciphered(f@));
    load_words(
        s,
        f,
        info[3],
        info[4].wrapping_add(4096),
        info[0].wrapping_add(!size),
        size >> 2u32,
    )?;
    paste(
        s,
        info[3].wrapping_add(size) as usize,
        f,
        info[4].wrapping_add(4096).wrapping_add(size) as usize,
        info[5].wrapping_sub(size) as usize,
    )?;
    wr32(s, info[3], 4096)?;
    paste(s, 0, f, 0, 4096)?;
    Ok(())
}

fn is_supported(supported: &[u32], magic: u32) -> (r: bool)
    ensures
        r == supported@.contains(magic),
{
    let mut i: usize = 0;
    while i < supported.len()
        invariant
            i <= supported@.len(),
            forall|k: int| 0 <= k < i ==> supported@[k] != magic,
        decreases supported@.len() - i,
    {
        if supported[i] == magic {
            return true;
        }
        i = i + 1;
    }
    false
}

/// Read the header of a protected file and load its payload.
pub fn load(f: &[u8], supported: &[u32]) -> (r: Out<Loaded>)
    requires
        f@.len() >= HEADER_LEN,
    ensures
        match (loaded(f@, supported@), r) {
            (Ok(v), Ok(l)) => {
                &&& l.img@ == v.img
                &&& l.pe_off == v.pe_off
                &&& l.magic == v.magic
                &&& is_info(l.info@, f@)
                &&& l.img@.len() <= MAX_IMAGE_SIZE
                &&& l.img@.len() == w32(f@, l.pe_off.wrapping_add(80))
            },
            (Err(a), Err(b)) => a == b,
            _ => false,
        },
{
    let mut info: [u32; 8] = [0u32; 8];
    decrypt_data1(f, &mut info);
    if !is_supported(supported, info[1]) {
        return Err(UnpackError::HeaderMagicMismatch { found: info[1] });
    }
    let pe: u32 = get_u32(f, 60);
    if pe as u64 + 84 > f.len() as u64 {
        return Err(UnpackError::InvalidPeOffset { offset: pe as i64, input_len: f.len() });
    }
    let size: u32 = rd32(f, pe.wrapping_add(80))?;
    if size == 0 || size as u64 > MAX_IMAGE_SIZE {
        return Err(UnpackError::InvalidImageSize { size: size as i64, max: MAX_IMAGE_SIZE });
    }
    let mut img: Vec<u8> = zero_vec(size as usize);
    load_payload(&mut img, f, &info)?;
    let magic: u16 = rd16(f, pe.wrapping_add(24))?;
    Ok(Loaded { img, pe_off: pe, magic, info })
}

} // verus!
