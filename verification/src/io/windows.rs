//! The byte interface with addresses looked up by well-formed headers.

use vstd::prelude::*;

use crate::error::UnpackError;
use crate::io::companion::Lookup;
use crate::io::job::{
    companion_view, executable, routed, unpack_executable, unpack_routed, Automatic, Kind,
    UnpackedImage,
};

verus! {

/// Unpack a file by detection.
pub fn unpack_bytes(
    input: &[u8],
    companion: Option<&[u8]>,
    supported: &[u32],
    dd8_shift: Option<u32>,
    kind: Option<Kind>,
    auto: Automatic,
) -> (r: Result<UnpackedImage, UnpackError>)
    ensures
        match routed(
            Lookup::Headers,
            input@,
            companion_view(companion),
            supported@,
            dd8_shift,
            kind,
            auto.kind(),
            auto.bytes(),
        ) {
            Ok(v) => r is Ok && r->Ok_0@ == v,
            Err(e) => r is Err && r->Err_0 == e,
        },
{
    unpack_routed(Lookup::Headers, input, companion, supported, dd8_shift, kind, auto)
}

/// Unpack a file as an executable.
pub fn unpack_bytes_force_exe(
    input: &[u8],
    companion: Option<&[u8]>,
    supported: &[u32],
    dd8_shift: Option<u32>,
    kind: Option<Kind>,
) -> (r: Result<UnpackedImage, UnpackError>)
    ensures
        match executable(
            Lookup::Headers,
            input@,
            companion_view(companion),
            supported@,
            dd8_shift,
            kind,
        ) {
            Ok(v) => r is Ok && r->Ok_0@ == v,
            Err(e) => r is Err && r->Err_0 == e,
        },
{
    unpack_executable(Lookup::Headers, input, companion, supported, dd8_shift, kind)
}

} // verus!
