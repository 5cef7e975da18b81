//! What can go wrong with a protected shared library.

use vstd::prelude::*;

use crate::text::{dec, hex, padded, push_dec, push_hex, push_padded};

verus! {

/// A part of a record that holds an encoded container.
#[derive(Debug, Clone, Copy, PartialEq, Eq, Structural)]
pub enum Part {
    Image,
    Metadata,
}

/// A shared library that was not read, not extracted or not restored.
///
/// `source` is what the container decoder said.
#[derive(Debug, Clone, PartialEq, Eq)]
pub enum Error {
    EmbeddedConfig(String),
    InterpreterConfig { depth: usize, stream_id: u32, interpreter_id: u32, source: String },
    RecordDecode {
        depth: usize,
        stream_id: u32,
        record_index: usize,
        command_id: u32,
        part: Part,
        source: String,
    },
    Invalid(String),
}

/// What an [`Error`] says.
pub enum Problem {
    EmbeddedConfig(Seq<char>),
    InterpreterConfig { depth: usize, stream_id: u32, interpreter_id: u32, source: Seq<char> },
    RecordDecode {
        depth: usize,
        stream_id: u32,
        record_index: usize,
        command_id: u32,
        part: Part,
        source: Seq<char>,
    },
    Invalid(Seq<char>),
}

impl View for Error {
    type V = Problem;

    open spec fn view(&self) -> Problem {
        match *self {
            Error::EmbeddedConfig(t) => Problem::EmbeddedConfig(t@),
            Error::InterpreterConfig { depth, stream_id, interpreter_id, source } =>
                Problem::InterpreterConfig { depth, stream_id, interpreter_id, source: source@ },
            Error::RecordDecode { depth, stream_id, record_index, command_id, part, source } =>
                Problem::RecordDecode {
                    depth,
                    stream_id,
                    record_index,
                    command_id,
                    part,
                    source: source@,
                },
            Error::Invalid(t) => Problem::Invalid(t@),
        }
    }
}

/// `n` in hexadecimal with at least two digits.
pub open spec fn hex2(n: u32) -> Seq<char> {
    padded(hex(n as nat), 2)
}

/// Append `n` in hexadecimal with at least two digits.
pub fn push_hex2(s: &mut String, n: u32)
    ensures
        final(s)@ == old(s)@ + hex2(n),
{
    let mut t: String = String::new();
    push_hex(&mut t, n as u64);
    assert(t@ =~= hex(n as nat));
    push_padded(s, t.as_str(), 2);
}

/// The name of a part.
pub open spec fn part_text(p: Part) -> Seq<char> {
    match p {
        Part::Image => "image decode"@,
        Part::Metadata => "metadata decode"@,
    }
}

/// The message of a problem.
pub open spec fn problem_text(p: Problem) -> Seq<char> {
    match p {
        Problem::EmbeddedConfig(t) => "embedded Stage 2 decoder configuration: "@ + t,
        Problem::InterpreterConfig { depth, stream_id, interpreter_id, source } => "depth "@ + dec(
            depth as nat,
        ) + " stream 0x"@ + hex2(stream_id) + " interpreter 0x"@ + hex2(interpreter_id)
            + " configuration: "@ + source,
        Problem::RecordDecode { depth, stream_id, record_index, command_id, part, source } =>
            "depth "@ + dec(depth as nat) + " stream 0x"@ + hex2(stream_id) + " record "@ + dec(
                record_index as nat,
            ) + " command 0x"@ + hex2(command_id) + " "@ + part_text(part) + ": "@ + source,
        Problem::Invalid(t) => t,
    }
}

impl Error {
    /// The message of an error.
    pub fn to_string(&self) -> (r: String)
        ensures
            r@ == problem_text(self@),
    {
        match self {
            Error::EmbeddedConfig(t) => {
                let mut s: String = "embedded Stage 2 decoder configuration: ".to_owned();
                s.append(t.as_str());
                s
            },
            Error::InterpreterConfig { depth, stream_id, interpreter_id, source } => {
                let mut s: String = "depth ".to_owned();
                push_dec(&mut s, *depth as u64);
                s.append(" stream 0x");
                push_hex2(&mut s, *stream_id);
                s.append(" interpreter 0x");
                push_hex2(&mut s, *interpreter_id);
                s.append(" configuration: ");
                s.append(source.as_str());
                s
            },
            Error::RecordDecode { depth, stream_id, record_index, command_id, part, source } => {
                let mut s: String = "depth ".to_owned();
                push_dec(&mut s, *depth as u64);
                s.append(" stream 0x");
                push_hex2(&mut s, *stream_id);
                s.append(" record ");
                push_dec(&mut s, *record_index as u64);
                s.append(" command 0x");
                push_hex2(&mut s, *command_id);
                s.append(" ");
                match part {
                    Part::Image => s.append("image decode"),
                    Part::Metadata => s.append("metadata decode"),
                }
                s.append(": ");
                s.append(source.as_str());
                s
            },
            Error::Invalid(t) => t.clone(),
        }
    }
}

/// Whether `r` is the failure that `text` describes.
pub open spec fn invalid_as<T>(r: Result<T, Error>, text: Seq<char>) -> bool {
    r is Err && r->Err_0@ == Problem::Invalid(text)
}

/// A failure described by a literal.
pub fn invalid(t: &str) -> (e: Error)
    ensures
        e@ == Problem::Invalid(t@),
{
    Error::Invalid(t.to_owned())
}

/// A failure with a number in its description.
pub fn invalid_dec(a: &str, n: u64, b: &str) -> (e: Error)
    ensures
        e@ == Problem::Invalid(a@ + dec(n as nat) + b@),
{
    Error::Invalid(crate::text::with_dec(a, n, b))
}

} // verus!
