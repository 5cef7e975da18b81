//! Unity IL2CPP metadata.

use vstd::prelude::*;

use crate::bytes::{fits, le32, peek_u32};

pub mod discover;
pub mod error;
pub mod laws;
pub mod layout;
pub mod restore;
pub mod rid;

verus! {

/// What a metadata file starts with.
pub const MAGIC: u32 = 0xFAB1_1BAF;

/// Whether the bytes are those of a metadata file, by its first word.
#[must_use]
pub fn is_metadata(data: &[u8]) -> (r: bool)
    ensures
        r == (fits(data@, 0, 4) && le32(data@, 0) == MAGIC),
{
    match peek_u32(data, 0) {
        Some(v) => v == MAGIC,
        None => false,
    }
}

} // verus!
