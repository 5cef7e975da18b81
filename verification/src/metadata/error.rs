//! What can go wrong with a metadata file.

use vstd::prelude::*;

use crate::text::{
    dec, push_dec, push_small_hex, push_small_hex_digits, small_hex, small_hex_digits,
};

verus! {

/// A metadata file that was not read or not restored.
#[derive(Debug, Clone, PartialEq, Eq)]
pub enum Error {
    NotMetadata,
    UnsupportedVersion(u32),
    Malformed(String),
    Validation(String),
}

/// What an [`Error`] says.
pub enum Problem {
    NotMetadata,
    UnsupportedVersion(u32),
    Malformed(Seq<char>),
    Validation(Seq<char>),
}

impl View for Error {
    type V = Problem;

    open spec fn view(&self) -> Problem {
        match *self {
            Error::NotMetadata => Problem::NotMetadata,
            Error::UnsupportedVersion(v) => Problem::UnsupportedVersion(v),
            Error::Malformed(t) => Problem::Malformed(t@),
            Error::Validation(t) => Problem::Validation(t@),
        }
    }
}

/// The message of a problem.
pub open spec fn problem_text(p: Problem) -> Seq<char> {
    match p {
        Problem::NotMetadata => "not an IL2CPP global-metadata.dat"@,
        Problem::UnsupportedVersion(v) => "unsupported metadata version "@ + dec(v as nat),
        Problem::Malformed(t) => "malformed metadata: "@ + t,
        Problem::Validation(t) => "method-token restoration failed: "@ + t,
    }
}

impl Error {
    /// The message of an error.
    pub fn to_string(&self) -> (r: String)
        ensures
            r@ == problem_text(self@),
    {
        match self {
            Error::NotMetadata => "not an IL2CPP global-metadata.dat".to_owned(),
            Error::UnsupportedVersion(v) => {
                let mut s: String = "unsupported metadata version ".to_owned();
                push_dec(&mut s, *v as u64);
                s
            },
            Error::Malformed(t) => {
                let mut s: String = "malformed metadata: ".to_owned();
                s.append(t.as_str());
                s
            },
            Error::Validation(t) => {
                let mut s: String = "method-token restoration failed: ".to_owned();
                s.append(t.as_str());
                s
            },
        }
    }
}

/// What comes of a step, as far as its error goes.
pub open spec fn fails<T>(r: Result<T, Error>, p: Problem) -> bool {
    r is Err && r->Err_0@ == p
}

/// A malformed file, described by a literal.
pub fn malformed(t: &str) -> (e: Error)
    ensures
        e@ == Problem::Malformed(t@),
{
    Error::Malformed(t.to_owned())
}

/// A failed restoration, described by a literal.
pub fn validation(t: &str) -> (e: Error)
    ensures
        e@ == Problem::Validation(t@),
{
    Error::Validation(t.to_owned())
}

/// `a`, `n`, `b`.
pub open spec fn numbered(a: Seq<char>, n: int, b: Seq<char>) -> Seq<char> {
    a + dec(n as nat) + b
}

/// A malformed file, described with a number.
pub fn malformed_at(a: &str, n: usize, b: &str) -> (e: Error)
    ensures
        e@ == Problem::Malformed(numbered(a@, n as int, b@)),
{
    Error::Malformed(crate::text::with_dec(a, n as u64, b))
}

/// A failed restoration, described with a number.
pub fn validation_at(a: &str, n: usize, b: &str) -> (e: Error)
    ensures
        e@ == Problem::Validation(numbered(a@, n as int, b@)),
{
    Error::Validation(crate::text::with_dec(a, n as u64, b))
}

/// The `n` bytes at `o` leave a file.
pub open spec fn range_problem(o: int, n: int) -> Problem {
    if o + n > usize::MAX {
        Problem::Malformed("byte range overflow"@)
    } else {
        Problem::Malformed(
            "byte range 0x"@ + small_hex(o as nat) + "..0x"@ + small_hex((o + n) as nat)
                + " is out of bounds"@,
        )
    }
}

/// The `n` bytes at `o` leave a file.
pub fn range_error(o: usize, n: usize) -> (e: Error)
    ensures
        e@ == range_problem(o as int, n as int),
{
    match o.checked_add(n) {
        None => malformed("byte range overflow"),
        Some(end) => {
            let mut s: String = "byte range 0x".to_owned();
            push_small_hex(&mut s, o as u64);
            s.append("..0x");
            push_small_hex(&mut s, end as u64);
            s.append(" is out of bounds");
            Error::Malformed(s)
        },
    }
}

/// A method whose token is of another table.
pub open spec fn foreign_text(m: int, token: u32) -> Seq<char> {
    "method "@ + dec(m as nat) + " has non-MethodDef token 0x"@ + small_hex_digits(token as nat, 8)
}

/// A method whose token is of another table.
pub fn foreign(m: usize, token: u32) -> (s: String)
    ensures
        s@ == foreign_text(m as int, token),
{
    let mut s: String = "method ".to_owned();
    push_dec(&mut s, m as u64);
    s.append(" has non-MethodDef token 0x");
    push_small_hex_digits(&mut s, token as u64, 8);
    s
}

/// `a`, `n`, `b`, `m`, `c`.
pub open spec fn twice(a: Seq<char>, n: int, b: Seq<char>, m: int, c: Seq<char>) -> Seq<char> {
    a + dec(n as nat) + b + dec(m as nat) + c
}

/// `a`, `n`, `b`, `m`, `c`.
pub fn say_twice(a: &str, n: u64, b: &str, m: u64, c: &str) -> (s: String)
    ensures
        s@ == twice(a@, n as int, b@, m as int, c@),
{
    let mut s: String = a.to_owned();
    push_dec(&mut s, n);
    s.append(b);
    push_dec(&mut s, m);
    s.append(c);
    s
}

} // verus!
