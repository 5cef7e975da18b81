//! Digests and their text.

use sha2::Digest;
use vstd::prelude::*;

use crate::text::{push_small_digit, small_digit};

verus! {

/// Two lower-case hexadecimal digits for each byte.
pub open spec fn hex_text(data: Seq<u8>) -> Seq<char> {
    Seq::new(
        2 * data.len(),
        |i: int|
            if i % 2 == 0 {
                small_digit(data[i / 2] as int / 16)
            } else {
                small_digit(data[i / 2] as int % 16)
            },
    )
}

/// Lower-case hexadecimal text of `data`.
pub fn hex_digest(data: &[u8]) -> (r: String)
    ensures
        r@ == hex_text(data@),
{
    let mut output: String = String::new();
    let mut i: usize = 0;
    while i < data.len()
        invariant
            i <= data@.len(),
            output@ =~= hex_text(data@.take(i as int)),
        decreases data@.len() - i,
    {
        push_small_digit(&mut output, data[i] / 16);
        push_small_digit(&mut output, data[i] % 16);
        i = i + 1;
    }
    assert(data@.take(i as int) =~= data@);
    output
}

proof fn digits_tell_apart(a: int, b: int)
    requires
        0 <= a < 16,
        0 <= b < 16,
        small_digit(a) == small_digit(b),
    ensures
        a == b,
{
    assert(small_digit(a) as int == if a < 10 { 48 + a } else { 87 + a });
    assert(small_digit(b) as int == if b < 10 { 48 + b } else { 87 + b });
}

/// Different bytes have different texts.
pub proof fn text_tells_bytes_apart(a: Seq<u8>, b: Seq<u8>)
    requires
        hex_text(a) == hex_text(b),
    ensures
        a == b,
{
    let s = hex_text(a);
    let t = hex_text(b);
    assert(s.len() == 2 * a.len() && t.len() == 2 * b.len());
    assert(a.len() == b.len());
    assert forall|i: int| 0 <= i < a.len() implies a[i] == b[i] by {
        let (j, k) = (2 * i, 2 * i + 1);
        assert(j % 2 == 0 && k % 2 == 1 && j / 2 == i && k / 2 == i);
        assert(s[j] == small_digit(a[i] as int / 16) && s[k] == small_digit(a[i] as int % 16));
        assert(t[j] == small_digit(b[i] as int / 16) && t[k] == small_digit(b[i] as int % 16));
        digits_tell_apart(a[i] as int / 16, b[i] as int / 16);
        digits_tell_apart(a[i] as int % 16, b[i] as int % 16);
    }
    assert(a =~= b);
}

/// The SHA-256 digest of `data`.
pub uninterp spec fn sha256_of(data: Seq<u8>) -> Seq<u8>;

/// `Sha256::digest` of the crate `sha2`. Claimed of it: the digest is a function
/// of the data, and has 32 bytes.
#[verifier::external_body]
fn sha256_digest(data: &[u8]) -> (r: Vec<u8>)
    ensures
        r@ == sha256_of(data@),
        r@.len() == 32,
{
    sha2::Sha256::digest(data).to_vec()
}

/// The text of the SHA-256 digest of `data`.
pub open spec fn identity_of(data: Seq<u8>) -> Seq<char> {
    hex_text(sha256_of(data))
}

/// The text of the SHA-256 digest of `data`: 64 digits.
pub fn content_identity(data: &[u8]) -> (r: String)
    ensures
        r@ == identity_of(data@),
        r@.len() == 64,
{
    hex_digest(&sha256_digest(data))
}

} // verus!
