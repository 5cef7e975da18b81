//! What an extraction reports.

use vstd::prelude::*;

use crate::digest::{content_identity, identity_of};

verus! {

/// The first stage: the private section and the payload inside it.
#[derive(Debug, Clone)]
pub struct Stage1Report {
    pub section_index: usize,
    pub section_type: u32,
    pub section_offset: usize,
    pub section_size: usize,
    pub outer_size: usize,
    pub header_offset: usize,
    pub header_key: u32,
    pub payload_offset: u32,
    pub payload_size: u32,
    pub payload_key: u32,
    pub entry_offset: u32,
    pub protect_size: u32,
    pub stage2_file_offset: usize,
    pub stage2_size: usize,
    pub stage2_sha256: String,
    pub remaining_file_offset: usize,
    pub remaining_size: usize,
}

/// The decoder of a stream.
#[derive(Debug, Clone)]
pub struct DecoderReport {
    pub kind: String,
    pub interpreter_id: Option<u32>,
    pub header_seed: u32,
    pub container_seed: u32,
    pub schedule_offset: usize,
    pub aes_key_sha256: String,
    pub skip_aes: bool,
}

/// What a [`DecoderReport`] says.
#[verifier::ext_equal]
pub struct Decoder {
    pub kind: Seq<char>,
    pub interpreter_id: Option<u32>,
    pub header_seed: u32,
    pub container_seed: u32,
    pub schedule_offset: usize,
    pub aes_key_sha256: Seq<char>,
    pub skip_aes: bool,
}

impl View for DecoderReport {
    type V = Decoder;

    open spec fn view(&self) -> Decoder {
        Decoder {
            kind: self.kind@,
            interpreter_id: self.interpreter_id,
            header_seed: self.header_seed,
            container_seed: self.container_seed,
            schedule_offset: self.schedule_offset,
            aes_key_sha256: self.aes_key_sha256@,
            skip_aes: self.skip_aes,
        }
    }
}

/// A file that was written.
#[derive(Debug)]
pub struct ArtifactReport {
    pub kind: String,
    pub path: String,
    pub size: usize,
    pub sha256: String,
    pub depth: usize,
    pub stream_id: u32,
    pub record_index: Option<usize>,
    pub command_id: Option<u32>,
    pub classification: String,
}

/// What an [`ArtifactReport`] says.
#[verifier::ext_equal]
pub struct Artifact {
    pub kind: Seq<char>,
    pub path: Seq<char>,
    pub size: int,
    pub sha256: Seq<char>,
    pub depth: usize,
    pub stream_id: u32,
    pub record_index: Option<usize>,
    pub command_id: Option<u32>,
    pub classification: Seq<char>,
}

impl View for ArtifactReport {
    type V = Artifact;

    open spec fn view(&self) -> Artifact {
        Artifact {
            kind: self.kind@,
            path: self.path@,
            size: self.size as int,
            sha256: self.sha256@,
            depth: self.depth,
            stream_id: self.stream_id,
            record_index: self.record_index,
            command_id: self.command_id,
            classification: self.classification@,
        }
    }
}

impl Clone for ArtifactReport {
    fn clone(&self) -> (r: Self)
        ensures
            r@ == self@,
    {
        ArtifactReport {
            kind: self.kind.clone(),
            path: self.path.clone(),
            size: self.size,
            sha256: self.sha256.clone(),
            depth: self.depth,
            stream_id: self.stream_id,
            record_index: self.record_index,
            command_id: self.command_id,
            classification: self.classification.clone(),
        }
    }
}

/// A record of a stream.
#[derive(Debug, Clone)]
pub struct RecordReport {
    pub index: usize,
    pub command_id: u32,
    pub flags: u32,
    pub image_offset: u32,
    pub image_size: u32,
    pub metadata_offset: u32,
    pub metadata_size: u32,
    pub id_copy: u32,
    pub entry_offset: u32,
    pub init_offset: u32,
    pub direct: bool,
    pub extraction_status: String,
    pub image: Option<ArtifactReport>,
    pub metadata: Option<ArtifactReport>,
    pub nested_stream_id: Option<u32>,
}

/// What a [`RecordReport`] says.
#[verifier::ext_equal]
pub struct RecordInfo {
    pub index: usize,
    pub command_id: u32,
    pub flags: u32,
    pub image_offset: u32,
    pub image_size: u32,
    pub metadata_offset: u32,
    pub metadata_size: u32,
    pub id_copy: u32,
    pub entry_offset: u32,
    pub init_offset: u32,
    pub direct: bool,
    pub extraction_status: Seq<char>,
    pub image: Option<Artifact>,
    pub metadata: Option<Artifact>,
    pub nested_stream_id: Option<u32>,
}

/// What a file that may have been written is.
pub open spec fn artifact_view(a: Option<ArtifactReport>) -> Option<Artifact> {
    match a {
        Some(x) => Some(x@),
        None => None,
    }
}

impl View for RecordReport {
    type V = RecordInfo;

    open spec fn view(&self) -> RecordInfo {
        RecordInfo {
            index: self.index,
            command_id: self.command_id,
            flags: self.flags,
            image_offset: self.image_offset,
            image_size: self.image_size,
            metadata_offset: self.metadata_offset,
            metadata_size: self.metadata_size,
            id_copy: self.id_copy,
            entry_offset: self.entry_offset,
            init_offset: self.init_offset,
            direct: self.direct,
            extraction_status: self.extraction_status@,
            image: artifact_view(self.image),
            metadata: artifact_view(self.metadata),
            nested_stream_id: self.nested_stream_id,
        }
    }
}

/// The record that a stream came from.
#[derive(Debug, Clone, Copy, PartialEq, Eq, Structural)]
pub struct StreamParent {
    pub stream_id: u32,
    pub record_index: usize,
    pub command_id: u32,
}

/// A stream.
#[derive(Debug, Clone)]
pub struct StreamReport {
    pub depth: usize,
    pub stream_id: u32,
    pub parent: Option<StreamParent>,
    pub source_file_offset: Option<usize>,
    pub available_size: usize,
    pub descriptor_table_size: usize,
    pub encrypted_header_words: [u32; 2],
    pub decrypted_header_words: [u32; 2],
    pub record_state: u32,
    pub sha256: String,
    pub decoder: DecoderReport,
    pub records: Vec<RecordReport>,
}

/// What a [`StreamReport`] says.
#[verifier::ext_equal]
pub struct StreamInfo {
    pub depth: usize,
    pub stream_id: u32,
    pub parent: Option<StreamParent>,
    pub source_file_offset: Option<usize>,
    pub available_size: int,
    pub descriptor_table_size: int,
    pub encrypted: (u32, u32),
    pub decrypted: (u32, u32),
    pub record_state: u32,
    pub sha256: Seq<char>,
    pub decoder: Decoder,
    pub records: Seq<RecordInfo>,
}

/// What some records are.
pub open spec fn record_views(v: Seq<RecordReport>) -> Seq<RecordInfo> {
    Seq::new(v.len(), |i: int| v[i]@)
}

impl View for StreamReport {
    type V = StreamInfo;

    open spec fn view(&self) -> StreamInfo {
        StreamInfo {
            depth: self.depth,
            stream_id: self.stream_id,
            parent: self.parent,
            source_file_offset: self.source_file_offset,
            available_size: self.available_size as int,
            descriptor_table_size: self.descriptor_table_size as int,
            encrypted: (self.encrypted_header_words@[0], self.encrypted_header_words@[1]),
            decrypted: (self.decrypted_header_words@[0], self.decrypted_header_words@[1]),
            record_state: self.record_state,
            sha256: self.sha256@,
            decoder: self.decoder@,
            records: record_views(self.records@),
        }
    }
}

/// A module of the registry.
#[derive(Debug, Clone)]
pub struct ModuleRegistryEntry {
    pub command_id: u32,
    pub size: usize,
    pub sha256: String,
    pub depth: usize,
    pub record_index: usize,
    pub image_path: String,
    pub metadata_path: Option<String>,
    pub init_offset: u32,
    pub entry_offset: u32,
    pub classification: String,
}

/// What a [`ModuleRegistryEntry`] says.
#[verifier::ext_equal]
pub struct ModuleInfo {
    pub command_id: u32,
    pub size: int,
    pub sha256: Seq<char>,
    pub depth: usize,
    pub record_index: usize,
    pub image_path: Seq<char>,
    pub metadata_path: Option<Seq<char>>,
    pub init_offset: u32,
    pub entry_offset: u32,
    pub classification: Seq<char>,
}

/// What a text that may be there says.
pub open spec fn text_view(t: Option<String>) -> Option<Seq<char>> {
    match t {
        Some(x) => Some(x@),
        None => None,
    }
}

impl View for ModuleRegistryEntry {
    type V = ModuleInfo;

    open spec fn view(&self) -> ModuleInfo {
        ModuleInfo {
            command_id: self.command_id,
            size: self.size as int,
            sha256: self.sha256@,
            depth: self.depth,
            record_index: self.record_index,
            image_path: self.image_path@,
            metadata_path: text_view(self.metadata_path),
            init_offset: self.init_offset,
            entry_offset: self.entry_offset,
            classification: self.classification@,
        }
    }
}

/// The report of one complete extraction.
#[derive(Debug, Clone)]
pub struct ExtractionReport {
    pub format_version: u32,
    pub protected_elf: String,
    pub output_dir: String,
    pub stage1: Stage1Report,
    pub streams: Vec<StreamReport>,
    pub artifacts: Vec<ArtifactReport>,
    pub errors: Vec<String>,
    pub module_registry: Vec<ModuleRegistryEntry>,
}

/// The header of the payload in the private section.
#[derive(Debug, Clone, Copy)]
pub struct PayloadHeader {
    pub key: u32,
    pub payload_offset: u32,
    pub payload_size: u32,
    pub payload_key: u32,
    pub entry_offset: u32,
    pub protect_size: u32,
}

/// What the first stage found, and the plaintext of the second.
#[derive(Debug, Clone)]
pub struct Stage1Result {
    pub section_index: usize,
    pub section_offset: usize,
    pub section_size: usize,
    pub header_offset: usize,
    pub header: PayloadHeader,
    pub payload_file_offset: usize,
    pub plaintext: Vec<u8>,
    pub remaining_file_offset: usize,
    pub remaining_size: usize,
}

/// The report of the first stage.
pub fn stage1_report(stage1: &Stage1Result, outer_size: usize) -> (r: Stage1Report)
    ensures
        r.section_index == stage1.section_index,
        r.section_type == crate::android::layout::SHT_LOUSER,
        r.section_offset == stage1.section_offset,
        r.section_size == stage1.section_size,
        r.outer_size == outer_size,
        r.header_offset == stage1.header_offset,
        r.header_key == stage1.header.key,
        r.payload_offset == stage1.header.payload_offset,
        r.payload_size == stage1.header.payload_size,
        r.payload_key == stage1.header.payload_key,
        r.entry_offset == stage1.header.entry_offset,
        r.protect_size == stage1.header.protect_size,
        r.stage2_file_offset == stage1.payload_file_offset,
        r.stage2_size == stage1.plaintext@.len(),
        r.stage2_sha256@ == identity_of(stage1.plaintext@),
        r.remaining_file_offset == stage1.remaining_file_offset,
        r.remaining_size == stage1.remaining_size,
{
    Stage1Report {
        section_index: stage1.section_index,
        section_type: crate::android::layout::SHT_LOUSER,
        section_offset: stage1.section_offset,
        section_size: stage1.section_size,
        outer_size,
        header_offset: stage1.header_offset,
        header_key: stage1.header.key,
        payload_offset: stage1.header.payload_offset,
        payload_size: stage1.header.payload_size,
        payload_key: stage1.header.payload_key,
        entry_offset: stage1.header.entry_offset,
        protect_size: stage1.header.protect_size,
        stage2_file_offset: stage1.payload_file_offset,
        stage2_size: stage1.plaintext.len(),
        stage2_sha256: content_identity(&stage1.plaintext),
        remaining_file_offset: stage1.remaining_file_offset,
        remaining_size: stage1.remaining_size,
    }
}

} // verus!
