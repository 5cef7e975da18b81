//! Protected AArch64 shared libraries: the ELF around them, the module streams
//! inside them, and the metadata that some of them carry.

pub mod archive;
pub mod embedded;
pub mod error;
pub mod extract;
pub mod extract_laws;
pub mod folder;
pub mod hash;
pub mod jobs;
pub mod layout;
pub mod order;
pub mod report;
pub mod stream;
pub mod stream_laws;
pub mod targets;
pub mod tasks;
