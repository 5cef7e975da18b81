//! The entries of app packages.

use std::io::Read;
use vstd::prelude::*;

use crate::text::{dec, padded, push_dec, push_padded, push_small_hex, small_hex};

verus! {

/// How an entry is stored.
#[derive(Debug, PartialEq, Eq)]
pub enum Method {
    Stored,
    Deflated,
    /// Another method, by its name.
    Other(String),
}

/// Why an entry was not read.
#[derive(Debug, PartialEq, Eq)]
pub enum EntryError {
    /// Its deflate stream; what the reader said.
    Deflate(String),
    /// Its method.
    Method(String),
    /// Its size.
    Size { actual: usize, expected: usize },
}

/// What an [`EntryError`] says.
pub enum EntryProblem {
    Deflate(Seq<char>),
    Method(Seq<char>),
    Size { actual: usize, expected: usize },
}

impl View for EntryError {
    type V = EntryProblem;

    open spec fn view(&self) -> EntryProblem {
        match *self {
            EntryError::Deflate(t) => EntryProblem::Deflate(t@),
            EntryError::Method(t) => EntryProblem::Method(t@),
            EntryError::Size { actual, expected } => EntryProblem::Size { actual, expected },
        }
    }
}

/// The message of a problem with entry `index` of `archive`.
pub open spec fn entry_text(p: EntryProblem, archive: Seq<char>, index: usize) -> Seq<char> {
    match p {
        EntryProblem::Deflate(t) => "deflate archive `"@ + archive + "` entry index "@ + dec(
            index as nat,
        ) + ": "@ + t,
        EntryProblem::Method(t) => "unsupported compression method "@ + t + " in archive `"@
            + archive + "` entry index "@ + dec(index as nat),
        EntryProblem::Size { actual, expected } => "archive `"@ + archive + "` entry index "@ + dec(
            index as nat,
        ) + " decompressed to 0x"@ + small_hex(actual as nat) + ", expected 0x"@ + small_hex(
            expected as nat,
        ),
    }
}

impl EntryError {
    /// The message of an error with entry `index` of `archive`.
    pub fn message(&self, archive: &str, index: usize) -> (r: String)
        ensures
            r@ == entry_text(self@, archive@, index),
    {
        match self {
            EntryError::Deflate(t) => {
                let mut s: String = "deflate archive `".to_owned();
                s.append(archive);
                s.append("` entry index ");
                push_dec(&mut s, index as u64);
                s.append(": ");
                s.append(t.as_str());
                s
            },
            EntryError::Method(t) => {
                let mut s: String = "unsupported compression method ".to_owned();
                s.append(t.as_str());
                s.append(" in archive `");
                s.append(archive);
                s.append("` entry index ");
                push_dec(&mut s, index as u64);
                s
            },
            EntryError::Size { actual, expected } => {
                let mut s: String = "archive `".to_owned();
                s.append(archive);
                s.append("` entry index ");
                push_dec(&mut s, index as u64);
                s.append(" decompressed to 0x");
                push_small_hex(&mut s, *actual as u64);
                s.append(", expected 0x");
                push_small_hex(&mut s, *expected as u64);
                s
            },
        }
    }
}

/// What a deflate stream holds, or why it is none.
pub uninterp spec fn inflated(stream: Seq<u8>) -> Result<Seq<u8>, Seq<char>>;

/// `read_to_end` of a `DeflateDecoder` of the crate `flate2`. Claimed of it: the bytes,
/// or the message of the error, are a function of the stream.
#[verifier::external_body]
fn inflate(stream: &[u8]) -> (r: Result<Vec<u8>, String>)
    ensures
        match r {
            Ok(v) => inflated(stream@) == Ok::<Seq<u8>, Seq<char>>(v@),
            Err(t) => inflated(stream@) == Err::<Seq<u8>, Seq<char>>(t@),
        },
{
    let mut out = Vec::new();
    match flate2::read::DeflateDecoder::new(stream).read_to_end(&mut out) {
        Ok(_) => Ok(out),
        Err(error) => Err(error.to_string()),
    }
}

/// What an entry holds, once its stream was read.
pub open spec fn sized_entry(data: Result<Seq<u8>, Seq<char>>, expected: usize) -> Result<
    Seq<u8>,
    EntryProblem,
> {
    match data {
        Err(t) => Err(EntryProblem::Deflate(t)),
        Ok(v) => if v.len() == expected {
            Ok(v)
        } else {
            Err(EntryProblem::Size { actual: v.len() as usize, expected })
        },
    }
}

/// Take what a stream held, if it has the size that the archive declares.
pub fn check_entry(data: Result<Vec<u8>, String>, expected: usize) -> (r: Result<
    Vec<u8>,
    EntryError,
>)
    ensures
        match sized_entry(
            match data {
                Ok(v) => Ok(v@),
                Err(t) => Err(t@),
            },
            expected,
        ) {
            Ok(v) => r is Ok && r->Ok_0@ == v,
            Err(p) => r is Err && r->Err_0@ == p,
        },
{
    match data {
        Err(t) => Err(EntryError::Deflate(t)),
        Ok(v) => {
            let actual: usize = v.len();
            if actual == expected {
                Ok(v)
            } else {
                Err(EntryError::Size { actual, expected })
            }
        },
    }
}

/// What an entry holds.
pub open spec fn entry_of(m: Method, stored: Seq<u8>, expected: usize) -> Result<
    Seq<u8>,
    EntryProblem,
> {
    match m {
        Method::Stored => sized_entry(Ok(stored), expected),
        Method::Deflated => sized_entry(inflated(stored), expected),
        Method::Other(t) => Err(EntryProblem::Method(t@)),
    }
}

/// What an entry holds: `stored` are its bytes in the archive, `expected` the size that
/// the archive declares.
pub fn decode_entry(method: Method, stored: &[u8], expected: usize) -> (r: Result<
    Vec<u8>,
    EntryError,
>)
    ensures
        match entry_of(method, stored@, expected) {
            Ok(v) => r is Ok && r->Ok_0@ == v,
            Err(p) => r is Err && r->Err_0@ == p,
        },
{
    match method {
        Method::Stored => check_entry(Ok(vstd::slice::slice_to_vec(stored)), expected),
        Method::Deflated => check_entry(inflate(stored), expected),
        Method::Other(t) => Err(EntryError::Method(t)),
    }
}

/// A text with each separator of paths replaced.
pub open spec fn flattened(s: Seq<char>) -> Seq<char> {
    Seq::new(
        s.len(),
        |i: int|
            if s[i] == '/' || s[i] == '\\' {
                '_'
            } else {
                s[i]
            },
    )
}

/// The name of the temporary file of entry `index` of `archive`.
pub fn temporary_name(archive: &str, index: usize) -> (r: String)
    ensures
        r@ == flattened(archive@) + "-"@ + index_text(index),
{
    let n: usize = archive.unicode_len();
    let mut s: String = String::new();
    assert(s@ =~= Seq::<char>::empty());
    let mut i: usize = 0;
    while i < n
        invariant
            i <= n,
            n == archive@.len(),
            s@ =~= flattened(archive@).take(i as int),
        decreases n - i,
    {
        let c: char = archive.get_char(i);
        if c == '/' || c == '\\' {
            proof {
                reveal_strlit("_");
            }
            s.append("_");
        } else {
            s.append(archive.substring_char(i, i + 1));
        }
        i = i + 1;
    }
    assert(flattened(archive@).take(n as int) =~= flattened(archive@));
    s.append("-");
    push_index(&mut s, index);
    s
}

/// An index in hexadecimal, with at least eight digits.
pub open spec fn index_text(index: usize) -> Seq<char> {
    padded(small_hex(index as nat), 8)
}

fn push_index(s: &mut String, index: usize)
    ensures
        final(s)@ == old(s)@ + index_text(index),
{
    let mut t: String = String::new();
    push_small_hex(&mut t, index as u64);
    assert(t@ =~= small_hex(index as nat));
    push_padded(s, t.as_str(), 8);
}

} // verus!
