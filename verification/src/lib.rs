//! Static restoration of packed Windows PE images and Android shared libraries.

use vstd::prelude::*;

pub mod aes;
pub mod aes_laws;
pub mod android;
pub mod bits;
pub mod bytecode;
pub mod bytecode_laws;
pub mod bytes;
pub mod cipher_laws;
pub mod ciphers;
pub mod crc32;
pub mod digest;
pub mod elf;
pub mod error;
pub mod huffman;
pub mod huffman_laws;
pub mod io;
pub mod metadata;
pub mod payload;
pub mod pe;
pub mod text;

verus! {

} // verus!
