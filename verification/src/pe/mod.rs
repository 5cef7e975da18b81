//! Windows executables.

pub mod dd8;
pub mod discovery;
pub mod blocks;
pub mod chain_laws;
pub mod choice_laws;
pub mod code_laws;
pub mod entry64_laws;
pub mod entry_laws;
pub mod compact;
pub mod config64;
pub mod eighth32;
pub mod finish32;
pub mod finish32_laws;
pub mod finish64;
pub mod format;
pub mod header_laws;
pub mod headers;
pub mod import_laws;
pub mod imports;
pub mod integrity;
pub mod integrity_laws;
pub mod load;
pub mod load_laws;
pub mod moved_laws;
pub mod output32;
pub mod pipeline;
pub mod search_laws;
pub mod sections64;
pub mod stage;
pub mod stage_laws;
pub mod stages64;
pub mod stages32;
pub mod steps;
