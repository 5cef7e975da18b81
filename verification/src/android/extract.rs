//! Extraction of the modules of a stream.
//!
//! A stream holds records. A record's image and metadata are containers that a
//! decoder opens, or an image that is stored as it is. A stored image is either a
//! plain artifact or, where the module it needs was decoded beside it, a stream of
//! its own, which that module's decoder opens.
//!
//! The containers are opened outside, one after the other as
//! [`Extractor::next_task`] asks for them: [`Extractor::extract_stream`] is then told
//! what the decoder made of each record.

use vstd::prelude::*;

use crate::android::error::{hex2, invalid_as, push_hex2, Error, Part, Problem};
use crate::android::report::{
    artifact_view, record_views, text_view, Artifact, ArtifactReport, Decoder, DecoderReport,
    ExtractionReport, ModuleInfo, ModuleRegistryEntry, RecordInfo, RecordReport, Stage1Report,
    Stage1Result, StreamInfo, StreamParent, StreamReport,
};
use crate::android::stream::{
    parse_record_stream, stream_of, FixedProduct, HeaderWords, Record, StreamHeader,
};
use crate::digest::{content_identity, identity_of};
use crate::text::{
    dec, hex_digits, padded, push_dec, push_hex_digits, push_padded, push_small_hex, small_hex,
};

verus! {

/// Inputs and output locations of one complete extraction.
#[derive(Debug, Clone)]
pub struct ExtractOptions {
    pub input: String,
    pub output_dir: String,
    pub stage2_output: Option<String>,
    pub outer_size: usize,
    pub cipher_constant: u32,
}

/// The constants of the first stage.
#[derive(Debug, Clone, Copy)]
pub struct Defaults {
    pub outer_size: usize,
    pub cipher_constant: u32,
}

impl ExtractOptions {
    /// Options with the constants of the first stage and no copy of the second
    /// stage's plaintext.
    pub fn with_defaults(input: String, output_dir: String, defaults: Defaults) -> (r: Self)
        ensures
            r.input == input,
            r.output_dir == output_dir,
            r.stage2_output is None,
            r.outer_size == defaults.outer_size,
            r.cipher_constant == defaults.cipher_constant,
    {
        ExtractOptions {
            input,
            output_dir,
            stage2_output: None,
            outer_size: defaults.outer_size,
            cipher_constant: defaults.cipher_constant,
        }
    }
}

/// The configuration of a stream's decoder.
#[derive(Debug, Clone)]
pub struct DecoderConfig {
    pub header_seed: u32,
    pub container_seed: u32,
    pub schedule_offset: usize,
    pub aes_key: Vec<u8>,
    pub skip_aes: bool,
}

/// What the decoder made of a record's containers. What a record has no container
/// for is not looked at.
#[derive(Debug)]
pub struct Decoded {
    pub image: Result<Vec<u8>, String>,
    pub metadata: Result<Vec<u8>, String>,
}

/// What a [`Decoded`] says.
pub struct Outcome {
    pub image: Result<Seq<u8>, Seq<char>>,
    pub metadata: Result<Seq<u8>, Seq<char>>,
}

/// What came of a container.
pub open spec fn bytes_view(r: Result<Vec<u8>, String>) -> Result<Seq<u8>, Seq<char>> {
    match r {
        Ok(v) => Ok(v@),
        Err(t) => Err(t@),
    }
}

impl View for Decoded {
    type V = Outcome;

    open spec fn view(&self) -> Outcome {
        Outcome { image: bytes_view(self.image), metadata: bytes_view(self.metadata) }
    }
}

/// A decoded module.
#[derive(Debug)]
pub struct LoadedModule {
    pub image: Vec<u8>,
    pub has_metadata: bool,
    pub image_path: String,
    pub metadata_path: Option<String>,
    pub sha256: String,
    pub depth: usize,
    pub record_index: usize,
    pub command_id: u32,
    pub init_offset: u32,
    pub entry_offset: u32,
}

/// What a [`LoadedModule`] says.
#[verifier::ext_equal]
pub struct Module {
    pub image: Seq<u8>,
    pub has_metadata: bool,
    pub image_path: Seq<char>,
    pub metadata_path: Option<Seq<char>>,
    pub sha256: Seq<char>,
    pub depth: usize,
    pub record_index: usize,
    pub command_id: u32,
    pub init_offset: u32,
    pub entry_offset: u32,
}

impl View for LoadedModule {
    type V = Module;

    open spec fn view(&self) -> Module {
        Module {
            image: self.image@,
            has_metadata: self.has_metadata,
            image_path: self.image_path@,
            metadata_path: text_view(self.metadata_path),
            sha256: self.sha256@,
            depth: self.depth,
            record_index: self.record_index,
            command_id: self.command_id,
            init_offset: self.init_offset,
            entry_offset: self.entry_offset,
        }
    }
}

/// An extraction: what was found so far.
pub struct Extractor {
    pub streams: Vec<StreamReport>,
    pub artifacts: Vec<ArtifactReport>,
    /// The decoded modules, by command number.
    pub registry: Vec<LoadedModule>,
    /// The number and the digest of each stream.
    pub seen_streams: Vec<(u32, String)>,
}

/// What an [`Extractor`] holds.
#[verifier::ext_equal]
pub struct State {
    pub streams: Seq<StreamInfo>,
    pub artifacts: Seq<Artifact>,
    pub registry: Seq<Module>,
    pub seen: Seq<(u32, Seq<char>)>,
}

/// What some files are.
pub open spec fn artifact_views(v: Seq<ArtifactReport>) -> Seq<Artifact> {
    Seq::new(v.len(), |i: int| v[i]@)
}

/// What some streams are.
pub open spec fn stream_views(v: Seq<StreamReport>) -> Seq<StreamInfo> {
    Seq::new(v.len(), |i: int| v[i]@)
}

/// What some modules are.
pub open spec fn module_views(v: Seq<LoadedModule>) -> Seq<Module> {
    Seq::new(v.len(), |i: int| v[i]@)
}

/// What the numbers and digests of some streams are.
pub open spec fn seen_views(v: Seq<(u32, String)>) -> Seq<(u32, Seq<char>)> {
    Seq::new(v.len(), |i: int| (v[i].0, v[i].1@))
}

/// What the outcomes of some records are.
pub open spec fn outcome_views(v: Seq<Decoded>) -> Seq<Outcome> {
    Seq::new(v.len(), |i: int| v[i]@)
}

impl View for Extractor {
    type V = State;

    open spec fn view(&self) -> State {
        State {
            streams: stream_views(self.streams@),
            artifacts: artifact_views(self.artifacts@),
            registry: module_views(self.registry@),
            seen: seen_views(self.seen_streams@),
        }
    }
}

/// A stored image that is a stream: the record, and the number of the module that
/// opens it, which is the stream's own number.
#[derive(Debug, Clone, Copy, PartialEq, Eq, Structural)]
pub struct Child {
    pub record: Record,
    pub stream_id: u32,
}

/// Where a record's bytes were written.
#[derive(Debug, Clone, Copy, PartialEq, Eq, Structural)]
pub enum ArtifactKind {
    /// An opened image, with or without metadata beside it.
    Image { with_metadata: bool },
    /// Opened metadata.
    Metadata,
    /// An image that is stored as it is.
    Direct,
}

impl ArtifactKind {
    /// The end of the file name.
    pub open spec fn suffix(self) -> Seq<char> {
        match self {
            ArtifactKind::Image { .. } => "module.bin"@,
            ArtifactKind::Metadata => "metadata.bin"@,
            ArtifactKind::Direct => "direct.bin"@,
        }
    }

    /// What it is called.
    pub open spec fn kind(self) -> Seq<char> {
        match self {
            ArtifactKind::Image { .. } => "decoded_container"@,
            ArtifactKind::Metadata => "decoded_metadata"@,
            ArtifactKind::Direct => "direct"@,
        }
    }

    /// What it counts as.
    pub open spec fn classification(self) -> Seq<char> {
        match self {
            ArtifactKind::Image { with_metadata } => if with_metadata {
                "module_image"@
            } else {
                "decoded_data"@
            },
            ArtifactKind::Metadata => "decoded_metadata"@,
            ArtifactKind::Direct => "direct_data"@,
        }
    }
}

/// The name of the file that a record's bytes are written to.
pub open spec fn artifact_name(
    x: Record,
    depth: usize,
    id: u32,
    digest: Seq<char>,
    suffix: Seq<char>,
) -> Seq<char> {
    "d"@ + padded(dec(depth as nat), 2) + "_s"@ + hex2(id) + "_r"@ + padded(dec(x.index as nat), 3)
        + "_id"@ + hex_digits(x.command_id as nat, 8) + "_"@ + digest.subrange(0, 12) + "."@
        + suffix
}

/// The report of a file that a record's bytes are written to.
pub open spec fn artifact_for(
    x: Record,
    depth: usize,
    id: u32,
    k: ArtifactKind,
    data: Seq<u8>,
) -> Artifact {
    Artifact {
        kind: k.kind(),
        path: artifact_name(x, depth, id, identity_of(data), k.suffix()),
        size: data.len() as int,
        sha256: identity_of(data),
        depth,
        stream_id: id,
        record_index: Some(x.index),
        command_id: Some(x.command_id),
        classification: k.classification(),
    }
}

/// Append `n` in decimal, with zeros in front up to `k` digits.
fn push_dec_padded(s: &mut String, n: u64, k: usize)
    ensures
        final(s)@ == old(s)@ + padded(dec(n as nat), k as nat),
{
    let mut t: String = String::new();
    push_dec(&mut t, n);
    assert(t@ =~= dec(n as nat));
    push_padded(s, t.as_str(), k);
}

/// The report of the file that a record's bytes are written to, its name included.
pub fn artifact_of(x: &Record, depth: usize, stream_id: u32, k: ArtifactKind, data: &[u8]) -> (r:
    ArtifactReport)
    ensures
        r@ == artifact_for(*x, depth, stream_id, k, data@),
{
    let digest: String = content_identity(data);
    let mut path: String = "d".to_owned();
    push_dec_padded(&mut path, depth as u64, 2);
    path.append("_s");
    push_hex2(&mut path, stream_id);
    path.append("_r");
    push_dec_padded(&mut path, x.index as u64, 3);
    path.append("_id");
    push_hex_digits(&mut path, x.command_id as u64, 8);
    path.append("_");
    path.append(digest.as_str().substring_char(0, 12));
    path.append(".");
    let (suffix, kind, classification): (&str, &str, &str) = match k {
        ArtifactKind::Image { with_metadata } => if with_metadata {
            ("module.bin", "decoded_container", "module_image")
        } else {
            ("module.bin", "decoded_container", "decoded_data")
        },
        ArtifactKind::Metadata => ("metadata.bin", "decoded_metadata", "decoded_metadata"),
        ArtifactKind::Direct => ("direct.bin", "direct", "direct_data"),
    };
    path.append(suffix);
    ArtifactReport {
        kind: kind.to_owned(),
        path,
        size: data.len(),
        sha256: digest,
        depth,
        stream_id,
        record_index: Some(x.index),
        command_id: Some(x.command_id),
        classification: classification.to_owned(),
    }
}

/// The report of a record, as far as its descriptor goes.
pub open spec fn record_info(x: Record) -> RecordInfo {
    RecordInfo {
        index: x.index,
        command_id: x.command_id,
        flags: x.flags,
        image_offset: x.image_offset,
        image_size: x.image_size,
        metadata_offset: x.metadata_offset,
        metadata_size: x.metadata_size,
        id_copy: x.id_copy,
        entry_offset: x.entry_offset,
        init_offset: x.init_offset,
        direct: x.is_direct(),
        extraction_status: "complete"@,
        image: None,
        metadata: None,
        nested_stream_id: None,
    }
}

/// The report of a record, as far as its descriptor goes.
fn record_report(x: Record) -> (r: RecordReport)
    ensures
        r@ == record_info(x),
{
    RecordReport {
        index: x.index,
        command_id: x.command_id,
        flags: x.flags,
        image_offset: x.image_offset,
        image_size: x.image_size,
        metadata_offset: x.metadata_offset,
        metadata_size: x.metadata_size,
        id_copy: x.id_copy,
        entry_offset: x.entry_offset,
        init_offset: x.init_offset,
        direct: x.direct(),
        extraction_status: "complete".to_owned(),
        image: None,
        metadata: None,
        nested_stream_id: None,
    }
}

/// The report of a decoder.
pub open spec fn decoder_info(depth: usize, id: u32, c: DecoderConfig) -> Decoder {
    Decoder {
        kind: if depth == 0 {
            "embedded_stage2"@
        } else {
            "decoded_interpreter"@
        },
        interpreter_id: if depth == 0 {
            None
        } else {
            Some(id)
        },
        header_seed: c.header_seed,
        container_seed: c.container_seed,
        schedule_offset: c.schedule_offset,
        aes_key_sha256: identity_of(c.aes_key@),
        skip_aes: c.skip_aes,
    }
}

/// The report of a decoder.
fn decoder_report(depth: usize, id: u32, c: &DecoderConfig) -> (r: DecoderReport)
    ensures
        r@ == decoder_info(depth, id, *c),
{
    DecoderReport {
        kind: if depth == 0 {
            "embedded_stage2".to_owned()
        } else {
            "decoded_interpreter".to_owned()
        },
        interpreter_id: if depth == 0 {
            None
        } else {
            Some(id)
        },
        header_seed: c.header_seed,
        container_seed: c.container_seed,
        schedule_offset: c.schedule_offset,
        aes_key_sha256: content_identity(&c.aes_key),
        skip_aes: c.skip_aes,
    }
}

/// The description of a container that starts outside the stream.
pub open spec fn tail_text(offset: u32, len: int) -> Seq<char> {
    "record container offset 0x"@ + small_hex(offset as nat) + " exceeds stream 0x"@ + small_hex(
        len as nat,
    )
}

/// The description of a stored image that leaves the stream.
pub open spec fn slice_text(offset: u32, size: u32, len: int) -> Seq<char> {
    if offset + size > usize::MAX {
        "record payload range overflows usize"@
    } else {
        "record payload range 0x"@ + small_hex(offset as nat) + "..0x"@ + small_hex(
            (offset + size) as nat,
        ) + " exceeds stream 0x"@ + small_hex(len as nat)
    }
}

/// Where a container starts: it goes on to the end of the stream.
pub fn record_tail(len: usize, offset: u32) -> (r: Result<usize, Error>)
    ensures
        if offset <= len {
            r == Ok::<usize, Error>(offset as usize)
        } else {
            invalid_as(r, tail_text(offset, len as int))
        },
{
    if offset as usize <= len {
        return Ok(offset as usize);
    }
    let mut t: String = "record container offset 0x".to_owned();
    push_small_hex(&mut t, offset as u64);
    t.append(" exceeds stream 0x");
    push_small_hex(&mut t, len as u64);
    Err(Error::Invalid(t))
}

/// Where a stored image starts and ends.
pub fn record_slice(len: usize, offset: u32, size: u32) -> (r: Result<(usize, usize), Error>)
    ensures
        if offset + size <= len {
            r == Ok::<(usize, usize), Error>((offset as usize, (offset + size) as usize))
        } else {
            invalid_as(r, slice_text(offset, size, len as int))
        },
{
    let start: usize = offset as usize;
    let end: usize = match start.checked_add(size as usize) {
        Some(v) => v,
        None => return Err(crate::android::error::invalid("record payload range overflows usize")),
    };
    if end <= len {
        return Ok((start, end));
    }
    let mut t: String = "record payload range 0x".to_owned();
    push_small_hex(&mut t, start as u64);
    t.append("..0x");
    push_small_hex(&mut t, end as u64);
    t.append(" exceeds stream 0x");
    push_small_hex(&mut t, len as u64);
    Err(Error::Invalid(t))
}

/// The first module from `i` on whose number is not below `id`.
pub open spec fn slot_from(reg: Seq<Module>, id: u32, i: int) -> int
    decreases reg.len() - i,
{
    if i >= reg.len() || reg[i].command_id >= id {
        i
    } else {
        slot_from(reg, id, i + 1)
    }
}

/// The registry with a module; one that is there already has to be the same image.
pub open spec fn registered(reg: Seq<Module>, x: Module) -> Result<Seq<Module>, Problem> {
    let i = slot_from(reg, x.command_id, 0);
    if i < reg.len() && reg[i].command_id == x.command_id {
        if reg[i].sha256 != x.sha256 {
            Err(
                Problem::Invalid(
                    "module 0x"@ + hex2(x.command_id) + " produced conflicting images: "@
                        + reg[i].sha256 + " and "@ + x.sha256,
                ),
            )
        } else {
            Ok(reg)
        }
    } else {
        Ok(reg.insert(i, x))
    }
}

/// What came of the records so far.
#[verifier::ext_equal]
pub struct Level {
    pub artifacts: Seq<Artifact>,
    pub registry: Seq<Module>,
    pub records: Seq<RecordInfo>,
    /// The records whose image is stored as it is, and their places.
    pub direct: Seq<(Record, int)>,
    /// The numbers of the modules that this stream holds.
    pub modules: Seq<u32>,
}

/// A record that comes to nothing because a container was not opened.
pub open spec fn undecoded(
    x: Record,
    depth: usize,
    id: u32,
    part: Part,
    source: Seq<char>,
) -> Problem {
    Problem::RecordDecode {
        depth,
        stream_id: id,
        record_index: x.index,
        command_id: x.command_id,
        part,
        source,
    }
}

/// What became of a record's container: the file, where there is one.
pub open spec fn opened(
    len: int,
    x: Record,
    depth: usize,
    id: u32,
    part: Part,
    wanted: bool,
    offset: u32,
    k: ArtifactKind,
    got: Result<Seq<u8>, Seq<char>>,
) -> Result<Option<Artifact>, Problem> {
    if !wanted {
        Ok(None)
    } else if offset > len {
        Err(Problem::Invalid(tail_text(offset, len)))
    } else {
        match got {
            Err(t) => Err(undecoded(x, depth, id, part, t)),
            Ok(data) => Ok(Some(artifact_for(x, depth, id, k, data))),
        }
    }
}

/// A list with a file, where there is one.
pub open spec fn with_artifact(v: Seq<Artifact>, a: Option<Artifact>) -> Seq<Artifact> {
    match a {
        Some(x) => v.push(x),
        None => v,
    }
}

/// The module of a record.
pub open spec fn module_of(
    x: Record,
    depth: usize,
    image: Artifact,
    metadata: Option<Artifact>,
    bytes: Seq<u8>,
) -> Module {
    Module {
        image: bytes,
        has_metadata: metadata is Some,
        image_path: image.path,
        metadata_path: match metadata {
            Some(a) => Some(a.path),
            None => None,
        },
        sha256: image.sha256,
        depth,
        record_index: x.index,
        command_id: x.command_id,
        init_offset: x.init_offset,
        entry_offset: x.entry_offset,
    }
}

/// One more record.
pub open spec fn with_record(
    l: Level,
    len: int,
    depth: usize,
    id: u32,
    x: Record,
    d: Outcome,
) -> Result<Level, Problem> {
    let wants_image = !x.is_direct() && x.image_size != 0;
    let wants_metadata = x.metadata_size != 0;
    let image = opened(
        len,
        x,
        depth,
        id,
        Part::Image,
        wants_image,
        x.image_offset,
        ArtifactKind::Image { with_metadata: wants_metadata },
        d.image,
    );
    match image {
        Err(p) => Err(p),
        Ok(i) => {
            let metadata = opened(
                len,
                x,
                depth,
                id,
                Part::Metadata,
                wants_metadata,
                x.metadata_offset,
                ArtifactKind::Metadata,
                d.metadata,
            );
            match metadata {
                Err(p) => Err(p),
                Ok(m) => {
                    let registry = match i {
                        None => Ok(l.registry),
                        Some(a) => registered(
                            l.registry,
                            module_of(x, depth, a, m, d.image->Ok_0),
                        ),
                    };
                    match registry {
                        Err(p) => Err(p),
                        Ok(registry) => Ok(
                            Level {
                                artifacts: with_artifact(with_artifact(l.artifacts, i), m),
                                registry,
                                records: l.records.push(
                                    RecordInfo { image: i, metadata: m, ..record_info(x) },
                                ),
                                direct: if x.is_direct() && x.image_size != 0 {
                                    l.direct.push((x, l.records.len() as int))
                                } else {
                                    l.direct
                                },
                                modules: if i is Some {
                                    l.modules.push(x.command_id)
                                } else {
                                    l.modules
                                },
                            },
                        ),
                    }
                },
            }
        },
    }
}

/// The records from `n` on.
pub open spec fn with_records(
    l: Level,
    len: int,
    depth: usize,
    id: u32,
    list: Seq<Record>,
    got: Seq<Outcome>,
    n: int,
) -> Result<Level, Problem>
    decreases list.len() - n,
{
    if n >= list.len() {
        Ok(l)
    } else {
        match with_record(l, len, depth, id, list[n], got[n]) {
            Err(p) => Err(p),
            Ok(l) => with_records(l, len, depth, id, list, got, n + 1),
        }
    }
}

/// The number of the stream that a stored image may be.
pub open spec fn child_id(x: Record) -> u32 {
    x.command_id.wrapping_sub(0x10)
}

/// The stored images from `n` on: streams, where this level has their module, and
/// files otherwise.
pub open spec fn with_directs(l: Level, s: Seq<u8>, depth: usize, id: u32, n: int, acc: Seq<
    Child,
>) -> Result<(Level, Seq<Child>), Problem>
    decreases l.direct.len() - n,
{
    if n >= l.direct.len() {
        Ok((l, acc))
    } else {
        let (x, at) = l.direct[n];
        let info = l.records[at];
        if l.modules.contains(child_id(x)) {
            let next = Level {
                records: l.records.update(
                    at,
                    RecordInfo { nested_stream_id: Some(child_id(x)), ..info },
                ),
                ..l
            };
            with_directs(
                next,
                s,
                depth,
                id,
                n + 1,
                acc.push(Child { record: x, stream_id: child_id(x) }),
            )
        } else if x.image_offset + x.image_size > s.len() {
            Err(Problem::Invalid(slice_text(x.image_offset, x.image_size, s.len() as int)))
        } else {
            let data = s.subrange(x.image_offset as int, x.image_offset + x.image_size);
            let a = artifact_for(x, depth, id, ArtifactKind::Direct, data);
            let next = Level {
                artifacts: l.artifacts.push(a),
                records: l.records.update(at, RecordInfo { image: Some(a), ..info }),
                ..l
            };
            with_directs(next, s, depth, id, n + 1, acc)
        }
    }
}

/// A stream, and where it stands.
pub struct Source {
    pub stream: Seq<u8>,
    pub id: u32,
    pub depth: usize,
    pub parent: Option<StreamParent>,
    pub offset: Option<usize>,
}

/// An extraction that met a stream: what it holds then, and the streams inside.
pub open spec fn extracted(
    st: State,
    m: FixedProduct,
    c: DecoderConfig,
    src: Source,
    got: Seq<Outcome>,
) -> Result<(State, Seq<Child>), Problem> {
    let key = (src.id, identity_of(src.stream));
    if st.seen.contains(key) {
        Ok((st, Seq::empty()))
    } else {
        match stream_of(m, src.stream, src.id) {
            Err(t) => Err(
                Problem::Invalid(
                    "depth "@ + dec(src.depth as nat) + " stream 0x"@ + hex2(src.id)
                        + " record table: "@ + t,
                ),
            ),
            Ok((h, list, end)) => {
                let l0 = Level {
                    artifacts: st.artifacts,
                    registry: st.registry,
                    records: Seq::empty(),
                    direct: Seq::empty(),
                    modules: Seq::empty(),
                };
                let len = src.stream.len() as int;
                match with_records(l0, len, src.depth, src.id, list, got, 0) {
                    Err(p) => Err(p),
                    Ok(l) => match with_directs(
                        l,
                        src.stream,
                        src.depth,
                        src.id,
                        0,
                        Seq::empty(),
                    ) {
                        Err(p) => Err(p),
                        Ok((l, children)) => Ok(
                            (
                                State {
                                    streams: st.streams.push(
                                        stream_info(src, h, end, c, l.records),
                                    ),
                                    artifacts: l.artifacts,
                                    registry: l.registry,
                                    seen: st.seen.push(key),
                                },
                                children,
                            ),
                        ),
                    },
                }
            },
        }
    }
}

/// The report of a stream.
pub open spec fn stream_info(
    src: Source,
    h: HeaderWords,
    end: int,
    c: DecoderConfig,
    records: Seq<RecordInfo>,
) -> StreamInfo {
    StreamInfo {
        depth: src.depth,
        stream_id: src.id,
        parent: src.parent,
        source_file_offset: src.offset,
        available_size: src.stream.len() as int,
        descriptor_table_size: end,
        encrypted: h.encrypted,
        decrypted: h.decrypted,
        record_state: h.record_state,
        sha256: identity_of(src.stream),
        decoder: decoder_info(src.depth, src.id, c),
        records,
    }
}

/// What some stored images and their places are.
spec fn direct_views(v: Seq<(Record, usize)>) -> Seq<(Record, int)> {
    Seq::new(v.len(), |i: int| (v[i].0, v[i].1 as int))
}

/// What came of the records of one stream so far.
struct Working {
    records: Vec<RecordReport>,
    direct: Vec<(Record, usize)>,
    modules: Vec<u32>,
}

impl Working {
    /// Every place is that of a record.
    spec fn sound(self) -> bool {
        forall|i: int|
            0 <= i < self.direct@.len() ==> (#[trigger] self.direct@[i]).1 < self.records@.len()
    }

    spec fn level(self, e: Extractor) -> Level {
        Level {
            artifacts: artifact_views(e.artifacts@),
            registry: module_views(e.registry@),
            records: record_views(self.records@),
            direct: direct_views(self.direct@),
            modules: self.modules@,
        }
    }
}

/// What became of a record's container.
fn open_container(
    len: usize,
    x: &Record,
    depth: usize,
    id: u32,
    part: Part,
    wanted: bool,
    offset: u32,
    k: ArtifactKind,
    got: &Result<Vec<u8>, String>,
) -> (r: Result<Option<ArtifactReport>, Error>)
    ensures
        match opened(
            len as int,
            *x,
            depth,
            id,
            part,
            wanted,
            offset,
            k,
            bytes_view(*got),
        ) {
            Ok(a) => r is Ok && artifact_view(r->Ok_0) == a,
            Err(p) => r is Err && r->Err_0@ == p,
        },
{
    if !wanted {
        return Ok(None);
    }
    let _ = record_tail(len, offset)?;
    match got {
        Err(t) => Err(
            Error::RecordDecode {
                depth,
                stream_id: id,
                record_index: x.index,
                command_id: x.command_id,
                part,
                source: t.clone(),
            },
        ),
        Ok(data) => Ok(Some(artifact_of(x, depth, id, k, data))),
    }
}

impl Extractor {
    /// An extraction that met nothing yet.
    pub fn new() -> (r: Self)
        ensures
            r@ == (State {
                streams: Seq::empty(),
                artifacts: Seq::empty(),
                registry: Seq::empty(),
                seen: Seq::empty(),
            }),
    {
        let r = Extractor {
            streams: Vec::new(),
            artifacts: Vec::new(),
            registry: Vec::new(),
            seen_streams: Vec::new(),
        };
        assert(stream_views(r.streams@) =~= Seq::<StreamInfo>::empty());
        assert(artifact_views(r.artifacts@) =~= Seq::<Artifact>::empty());
        assert(module_views(r.registry@) =~= Seq::<Module>::empty());
        assert(seen_views(r.seen_streams@) =~= Seq::<(u32, Seq<char>)>::empty());
        r
    }

    /// The first module whose number is not below `id`.
    fn slot(&self, id: u32) -> (i: usize)
        ensures
            i == slot_from(module_views(self.registry@), id, 0),
            i <= self.registry@.len(),
    {
        let mut i: usize = 0;
        while i < self.registry.len() && self.registry[i].command_id < id
            invariant
                i <= self.registry@.len(),
                slot_from(module_views(self.registry@), id, i as int) == slot_from(
                    module_views(self.registry@),
                    id,
                    0,
                ),
            decreases self.registry@.len() - i,
        {
            i = i + 1;
        }
        i
    }

    /// Enter a module. One whose number is there already has to be the same image,
    /// and then nothing changes.
    pub fn register_module(&mut self, module: LoadedModule) -> (r: Result<(), Error>)
        ensures
            match registered(old(self)@.registry, module@) {
                Ok(reg) => r is Ok && final(self)@ == (State { registry: reg, ..old(self)@ }),
                Err(p) => r is Err && r->Err_0@ == p && final(self)@ == old(self)@,
            },
            final(self).streams == old(self).streams,
            final(self).artifacts == old(self).artifacts,
            final(self).seen_streams == old(self).seen_streams,
    {
        let i: usize = self.slot(module.command_id);
        if i < self.registry.len() && self.registry[i].command_id == module.command_id {
            if self.registry[i].sha256 != module.sha256 {
                let mut t: String = "module 0x".to_owned();
                push_hex2(&mut t, module.command_id);
                t.append(" produced conflicting images: ");
                t.append(self.registry[i].sha256.as_str());
                t.append(" and ");
                t.append(module.sha256.as_str());
                return Err(Error::Invalid(t));
            }
            return Ok(());
        }
        let ghost before = self.registry@;
        self.registry.insert(i, module);
        assert(module_views(self.registry@) =~= module_views(before).insert(i as int, module@));
        Ok(())
    }

    /// Note a file.
    fn note(&mut self, a: &Option<ArtifactReport>)
        ensures
            final(self)@ == (State {
                artifacts: with_artifact(old(self)@.artifacts, artifact_view(*a)),
                ..old(self)@
            }),
            final(self).streams == old(self).streams,
            final(self).registry == old(self).registry,
            final(self).seen_streams == old(self).seen_streams,
    {
        match a {
            None => {},
            Some(x) => {
                let ghost before = self.artifacts@;
                let y: ArtifactReport = x.clone();
                self.artifacts.push(y);
                assert(artifact_views(self.artifacts@) =~= artifact_views(before).push(x@));
            },
        }
    }

    /// Take one more record.
    fn take_record(
        &mut self,
        work: &mut Working,
        len: usize,
        depth: usize,
        id: u32,
        x: Record,
        got: &Decoded,
    ) -> (r: Result<(), Error>)
        requires
            old(work).sound(),
        ensures
            final(self).streams == old(self).streams,
            final(self).seen_streams == old(self).seen_streams,
            match with_record(old(work).level(*old(self)), len as int, depth, id, x, got@) {
                Ok(l) => r is Ok && final(work).level(*final(self)) == l && final(work).sound(),
                Err(p) => r is Err && r->Err_0@ == p,
            },
    {
        let wants_image: bool = !x.direct() && x.image_size != 0;
        let wants_metadata: bool = x.metadata_size != 0;
        let image: Option<ArtifactReport> = open_container(
            len,
            &x,
            depth,
            id,
            Part::Image,
            wants_image,
            x.image_offset,
            ArtifactKind::Image { with_metadata: wants_metadata },
            &got.image,
        )?;
        let metadata: Option<ArtifactReport> = open_container(
            len,
            &x,
            depth,
            id,
            Part::Metadata,
            wants_metadata,
            x.metadata_offset,
            ArtifactKind::Metadata,
            &got.metadata,
        )?;
        self.note(&image);
        self.note(&metadata);
        match (&image, &got.image) {
            (Some(a), Ok(bytes)) => {
                let metadata_path: Option<String> = match &metadata {
                    Some(b) => Some(b.path.clone()),
                    None => None,
                };
                let module = LoadedModule {
                    image: vstd::slice::slice_to_vec(bytes),
                    has_metadata: metadata.is_some(),
                    image_path: a.path.clone(),
                    metadata_path,
                    sha256: a.sha256.clone(),
                    depth,
                    record_index: x.index,
                    command_id: x.command_id,
                    init_offset: x.init_offset,
                    entry_offset: x.entry_offset,
                };
                assert(module@ =~= module_of(
                    x,
                    depth,
                    a@,
                    artifact_view(metadata),
                    got@.image->Ok_0,
                ));
                self.register_module(module)?;
                work.modules.push(x.command_id);
            },
            _ => {},
        }
        let place: usize = work.records.len();
        if x.direct() && x.image_size != 0 {
            work.direct.push((x, place));
        }
        let mut report: RecordReport = record_report(x);
        report.image = image;
        report.metadata = metadata;
        work.records.push(report);
        assert(work.level(*self) =~= with_record(
            old(work).level(*old(self)),
            len as int,
            depth,
            id,
            x,
            got@,
        )->Ok_0);
        Ok(())
    }

    /// Sort the stored images into streams and files.
    fn take_directs(
        &mut self,
        work: &mut Working,
        stream: &[u8],
        depth: usize,
        id: u32,
    ) -> (r: Result<Vec<Child>, Error>)
        requires
            old(work).sound(),
        ensures
            final(self).streams == old(self).streams,
            final(self).seen_streams == old(self).seen_streams,
            match with_directs(
                old(work).level(*old(self)),
                stream@,
                depth,
                id,
                0,
                Seq::empty(),
            ) {
                Ok((l, list)) => r is Ok && r->Ok_0@ == list && final(work).level(*final(self))
                    == l,
                Err(p) => r is Err && r->Err_0@ == p,
            },
    {
        let mut children: Vec<Child> = Vec::new();
        let mut n: usize = 0;
        let ghost whole = with_directs(
            work.level(*self),
            stream@,
            depth,
            id,
            0,
            Seq::empty(),
        );
        while n < work.direct.len()
            invariant
                n <= work.direct@.len(),
                work.sound(),
                self.streams == old(self).streams,
                self.seen_streams == old(self).seen_streams,
                whole == with_directs(
                    old(work).level(*old(self)),
                    stream@,
                    depth,
                    id,
                    0,
                    Seq::empty(),
                ),
                with_directs(work.level(*self), stream@, depth, id, n as int, children@) == whole,
            decreases work.direct@.len() - n,
        {
            let ghost l = work.level(*self);
            let (x, at): (Record, usize) = work.direct[n];
            assert(l.direct[n as int] == (x, at as int));
            let next: u32 = x.command_id.wrapping_sub(0x10);
            let ghost before = work.records@;
            if has_number(&work.modules, next) {
                work.records[at].nested_stream_id = Some(next);
                children.push(Child { record: x, stream_id: next });
                assert(record_views(work.records@) =~= record_views(before).update(
                    at as int,
                    RecordInfo { nested_stream_id: Some(next), ..before[at as int]@ },
                ));
                assert(work.level(*self) =~= Level { records: record_views(work.records@), ..l });
            } else {
                let (start, end): (usize, usize) = record_slice(
                    stream.len(),
                    x.image_offset,
                    x.image_size,
                )?;
                let a: ArtifactReport = artifact_of(
                    &x,
                    depth,
                    id,
                    ArtifactKind::Direct,
                    vstd::slice::slice_subrange(stream, start, end),
                );
                let noted: Option<ArtifactReport> = Some(a);
                self.note(&noted);
                work.records[at].image = noted;
                assert(record_views(work.records@) =~= record_views(before).update(
                    at as int,
                    RecordInfo { image: Some(a@), ..before[at as int]@ },
                ));
                assert(work.level(*self) =~= Level {
                    artifacts: l.artifacts.push(a@),
                    records: record_views(work.records@),
                    ..l
                });
            }
            n = n + 1;
        }
        Ok(children)
    }

    /// Whether a stream was met before.
    pub(crate) fn has_seen(&self, id: u32, digest: &String) -> (r: bool)
        ensures
            r == self@.seen.contains((id, digest@)),
    {
        let mut i: usize = 0;
        while i < self.seen_streams.len()
            invariant
                i <= self.seen_streams@.len(),
                forall|k: int| 0 <= k < i ==> self@.seen[k] != (id, digest@),
            decreases self.seen_streams@.len() - i,
        {
            if self.seen_streams[i].0 == id && self.seen_streams[i].1 == *digest {
                assert(self@.seen[i as int] == (id, digest@));
                return true;
            }
            i = i + 1;
        }
        false
    }

    /// Extract a stream: every module it holds is entered, every file is noted, and
    /// the streams inside come back, for [`Extractor::descend`].
    ///
    /// `got` is what the decoder of this stream made of each record. A stream that
    /// was met before changes nothing. With an error the extraction is over: no stream
    /// is reported, and what was entered and noted before it stays.
    pub fn extract_stream(
        &mut self,
        m: &FixedProduct,
        stream: &[u8],
        stream_id: u32,
        depth: usize,
        parent: Option<StreamParent>,
        source_file_offset: Option<usize>,
        config: &DecoderConfig,
        got: &[Decoded],
    ) -> (r: Result<Vec<Child>, Error>)
        requires
            stream_of(*m, stream@, stream_id) matches Ok((_, list, _)) ==> got@.len()
                >= list.len(),
        ensures
            match extracted(
                old(self)@,
                *m,
                *config,
                (Source {
                    stream: stream@,
                    id: stream_id,
                    depth,
                    parent,
                    offset: source_file_offset,
                }),
                outcome_views(got@),
            ) {
                Ok((st, list)) => r is Ok && r->Ok_0@ == list && final(self)@ == st,
                Err(p) => r is Err && r->Err_0@ == p && final(self).streams == old(self).streams,
            },
    {
        let ghost src = Source {
            stream: stream@,
            id: stream_id,
            depth,
            parent,
            offset: source_file_offset,
        };
        let ghost st = self@;
        let digest: String = content_identity(stream);
        if self.has_seen(stream_id, &digest) {
            return Ok(Vec::new());
        }
        let ghost seen_before = self.seen_streams@;
        self.seen_streams.push((stream_id, digest.clone()));
        assert(seen_views(self.seen_streams@) =~= seen_views(seen_before).push(
            (stream_id, digest@),
        ));
        let (header, records, table_size): (StreamHeader, Vec<Record>, usize) =
            match parse_record_stream(m, stream, stream_id) {
            Ok(v) => v,
            Err(e) => {
                let mut t: String = "depth ".to_owned();
                push_dec(&mut t, depth as u64);
                t.append(" stream 0x");
                push_hex2(&mut t, stream_id);
                t.append(" record table: ");
                let text: String = e.to_string();
                t.append(text.as_str());
                return Err(Error::Invalid(t));
            },
        };
        let mut work = Working { records: Vec::new(), direct: Vec::new(), modules: Vec::new() };
        let ghost l0 = Level {
            artifacts: st.artifacts,
            registry: st.registry,
            records: Seq::empty(),
            direct: Seq::empty(),
            modules: Seq::empty(),
        };
        assert(work.level(*self) =~= l0);
        let ghost list = records@;
        let ghost outcomes = outcome_views(got@);
        let mut n: usize = 0;
        while n < records.len()
            invariant
                n <= records@.len(),
                records@ == list,
                got@.len() >= list.len(),
                outcomes == outcome_views(got@),
                work.sound(),
                self.streams == old(self).streams,
                seen_views(self.seen_streams@) == st.seen.push((stream_id, identity_of(stream@))),
                st == old(self)@,
                with_records(
                    work.level(*self),
                    stream@.len() as int,
                    depth,
                    stream_id,
                    list,
                    outcomes,
                    n as int,
                ) == with_records(
                    l0,
                    stream@.len() as int,
                    depth,
                    stream_id,
                    list,
                    outcomes,
                    0,
                ),
                src.stream == stream@ && src.id == stream_id && src.depth == depth,
                stream_of(*m, stream@, stream_id) == Ok::<
                    (HeaderWords, Seq<Record>, int),
                    Seq<char>,
                >((header@, list, table_size as int)),
                !st.seen.contains((stream_id, identity_of(stream@))),
                l0 == (Level {
                    artifacts: st.artifacts,
                    registry: st.registry,
                    records: Seq::empty(),
                    direct: Seq::empty(),
                    modules: Seq::empty(),
                }),
            decreases records@.len() - n,
        {
            assert(outcomes[n as int] == got@[n as int]@);
            self.take_record(&mut work, stream.len(), depth, stream_id, records[n], &got[n])?;
            n = n + 1;
        }
        let children: Vec<Child> = self.take_directs(&mut work, stream, depth, stream_id)?;
        let report = StreamReport {
            depth,
            stream_id,
            parent,
            source_file_offset,
            available_size: stream.len(),
            descriptor_table_size: table_size,
            encrypted_header_words: header.encrypted_words,
            decrypted_header_words: header.decrypted_words,
            record_state: header.record_state,
            sha256: digest,
            decoder: decoder_report(depth, stream_id, config),
            records: work.records,
        };
        let ghost streams_before = self.streams@;
        assert(report@ =~= stream_info(
            src,
            header@,
            table_size as int,
            *config,
            record_views(report.records@),
        ));
        self.streams.push(report);
        assert(stream_views(self.streams@) =~= stream_views(streams_before).push(report@));
        Ok(children)
    }

    /// Where the stream of a child stands in its parent's, and which module of the
    /// registry opens it.
    pub fn descend(&self, stream_len: usize, stream_id: u32, depth: usize, child: &Child) -> (r:
        Result<((usize, usize), usize), Error>)
        ensures
            ({
                let x = child.record;
                let i = slot_from(self@.registry, child.stream_id, 0);
                if x.image_offset + x.image_size > stream_len {
                    invalid_as(r, slice_text(x.image_offset, x.image_size, stream_len as int))
                } else if i < self@.registry.len() && self@.registry[i].command_id
                    == child.stream_id {
                    r is Ok && r->Ok_0.0 == (
                        x.image_offset as usize,
                        (x.image_offset + x.image_size) as usize,
                    ) && r->Ok_0.1 == i
                } else {
                    invalid_as(
                        r,
                        "depth "@ + dec(depth as nat) + " stream 0x"@ + hex2(stream_id)
                            + " child 0x"@ + hex2(child.stream_id) + " has no interpreter module"@,
                    )
                }
            }),
    {
        let range: (usize, usize) = record_slice(
            stream_len,
            child.record.image_offset,
            child.record.image_size,
        )?;
        let i: usize = self.slot(child.stream_id);
        if i < self.registry.len() && self.registry[i].command_id == child.stream_id {
            return Ok((range, i));
        }
        let mut t: String = "depth ".to_owned();
        push_dec(&mut t, depth as u64);
        t.append(" stream 0x");
        push_hex2(&mut t, stream_id);
        t.append(" child 0x");
        push_hex2(&mut t, child.stream_id);
        t.append(" has no interpreter module");
        Err(Error::Invalid(t))
    }

    /// The registry, for the report.
    pub fn registry_entries(&self) -> (r: Vec<ModuleRegistryEntry>)
        ensures
            entry_views(r@) == Seq::new(
                self@.registry.len(),
                |i: int| entry_of(self@.registry[i]),
            ),
    {
        let mut out: Vec<ModuleRegistryEntry> = Vec::new();
        let mut i: usize = 0;
        while i < self.registry.len()
            invariant
                i <= self.registry@.len(),
                entry_views(out@) =~= Seq::new(i as nat, |k: int| entry_of(self@.registry[k])),
            decreases self.registry@.len() - i,
        {
            let x: &LoadedModule = &self.registry[i];
            let metadata_path: Option<String> = match &x.metadata_path {
                Some(p) => Some(p.clone()),
                None => None,
            };
            let entry = ModuleRegistryEntry {
                command_id: x.command_id,
                size: x.image.len(),
                sha256: x.sha256.clone(),
                depth: x.depth,
                record_index: x.record_index,
                image_path: x.image_path.clone(),
                metadata_path,
                init_offset: x.init_offset,
                entry_offset: x.entry_offset,
                classification: if x.has_metadata {
                    "module_image".to_owned()
                } else {
                    "decoded_data".to_owned()
                },
            };
            assert(entry@ =~= entry_of(self@.registry[i as int]));
            let ghost before = out@;
            out.push(entry);
            assert(entry_views(out@) =~= entry_views(before).push(entry@));
            i = i + 1;
        }
        out
    }

    /// The report of the whole extraction.
    pub fn report(self, protected_elf: String, output_dir: String, stage1: Stage1Report) -> (r:
        ExtractionReport)
        ensures
            r.format_version == 4,
            r.protected_elf == protected_elf,
            r.output_dir == output_dir,
            r.stage1 == stage1,
            stream_views(r.streams@) == self@.streams,
            artifact_views(r.artifacts@) == self@.artifacts,
            r.errors@.len() == 0,
            entry_views(r.module_registry@) == Seq::new(
                self@.registry.len(),
                |i: int| entry_of(self@.registry[i]),
            ),
    {
        let module_registry: Vec<ModuleRegistryEntry> = self.registry_entries();
        ExtractionReport {
            format_version: 4,
            protected_elf,
            output_dir,
            stage1,
            streams: self.streams,
            artifacts: self.artifacts,
            errors: Vec::new(),
            module_registry,
        }
    }
}

/// Whether `v` holds `x`.
pub(crate) fn has_number(v: &[u32], x: u32) -> (r: bool)
    ensures
        r == v@.contains(x),
{
    let mut i: usize = 0;
    while i < v.len()
        invariant
            i <= v@.len(),
            forall|k: int| 0 <= k < i ==> v@[k] != x,
        decreases v@.len() - i,
    {
        if v[i] == x {
            return true;
        }
        i = i + 1;
    }
    false
}

/// What some entries of the registry are.
pub open spec fn entry_views(v: Seq<ModuleRegistryEntry>) -> Seq<ModuleInfo> {
    Seq::new(v.len(), |i: int| v[i]@)
}

/// The entry of a module.
pub open spec fn entry_of(x: Module) -> ModuleInfo {
    ModuleInfo {
        command_id: x.command_id,
        size: x.image.len() as int,
        sha256: x.sha256,
        depth: x.depth,
        record_index: x.record_index,
        image_path: x.image_path,
        metadata_path: x.metadata_path,
        init_offset: x.init_offset,
        entry_offset: x.entry_offset,
        classification: if x.has_metadata {
            "module_image"@
        } else {
            "decoded_data"@
        },
    }
}

/// Where the first stream stands in the file: behind the payload of the first
/// stage.
pub fn bootstrap_range(stage1: &Stage1Result, file_len: usize) -> (r: Result<
    (usize, usize),
    Error,
>)
    ensures
        ({
            let start = stage1.remaining_file_offset;
            let end = start + stage1.remaining_size;
            if end > usize::MAX {
                invalid_as(r, "Stage 2 bootstrap range overflow"@)
            } else if end > file_len {
                invalid_as(r, "Stage 2 bootstrap range is outside the ELF"@)
            } else {
                r == Ok::<(usize, usize), Error>((start, end as usize))
            }
        }),
{
    let end: usize = match stage1.remaining_file_offset.checked_add(stage1.remaining_size) {
        Some(v) => v,
        None => return Err(crate::android::error::invalid("Stage 2 bootstrap range overflow")),
    };
    if end > file_len {
        return Err(
            crate::android::error::invalid("Stage 2 bootstrap range is outside the ELF"),
        );
    }
    Ok((stage1.remaining_file_offset, end))
}

/// Whether the numbers of the modules go up.
pub open spec fn ascending(reg: Seq<Module>) -> bool {
    forall|i: int, j: int|
        0 <= i < j < reg.len() ==> (#[trigger] reg[i]).command_id < (#[trigger] reg[j]).command_id
}

/// Whether a module has the number `id`.
pub open spec fn has_module(reg: Seq<Module>, id: u32) -> bool {
    exists|i: int| 0 <= i < reg.len() && (#[trigger] reg[i]).command_id == id
}

proof fn slot_bounds(reg: Seq<Module>, id: u32, i: int)
    requires
        0 <= i <= reg.len(),
    ensures
        i <= slot_from(reg, id, i) <= reg.len(),
        forall|k: int| i <= k < slot_from(reg, id, i) ==> (#[trigger] reg[k]).command_id < id,
        slot_from(reg, id, i) < reg.len() ==> reg[slot_from(reg, id, i)].command_id >= id,
    decreases reg.len() - i,
{
    if i < reg.len() && reg[i].command_id < id {
        slot_bounds(reg, id, i + 1);
    }
}

/// A module that is there is found.
pub proof fn module_is_found(reg: Seq<Module>, id: u32)
    requires
        ascending(reg),
        has_module(reg, id),
    ensures
        ({
            let i = slot_from(reg, id, 0);
            0 <= i < reg.len() && reg[i].command_id == id
        }),
{
    slot_bounds(reg, id, 0);
    let k = choose|k: int| 0 <= k < reg.len() && (#[trigger] reg[k]).command_id == id;
    let i = slot_from(reg, id, 0);
    assert(i <= k);
    if i < k {
        assert(reg[i].command_id < reg[k].command_id);
    }
}

/// The registry has each number once, in order: entering a module keeps the order,
/// keeps every module, and leaves one with that number and that image's digest.
pub proof fn registry_stays_in_order(reg: Seq<Module>, x: Module)
    requires
        ascending(reg),
        registered(reg, x) is Ok,
    ensures
        ({
            let after = registered(reg, x)->Ok_0;
            let i = slot_from(after, x.command_id, 0);
            &&& ascending(after)
            &&& forall|id: u32| has_module(reg, id) ==> #[trigger] has_module(after, id)
            &&& 0 <= i < after.len() && after[i].command_id == x.command_id && after[i].sha256
                == x.sha256
        }),
{
    let i = slot_from(reg, x.command_id, 0);
    slot_bounds(reg, x.command_id, 0);
    let after = registered(reg, x)->Ok_0;
    if i < reg.len() && reg[i].command_id == x.command_id {
        assert(after == reg);
    } else {
        assert(after == reg.insert(i, x));
        assert forall|a: int, b: int| 0 <= a < b < after.len() implies (
        #[trigger] after[a]).command_id < (#[trigger] after[b]).command_id by {
            let p = if a < i {
                a
            } else {
                a - 1
            };
            let q = if b < i {
                b
            } else {
                b - 1
            };
            if a < i {
                assert(after[a] == reg[a]);
            }
            if b > i {
                assert(after[b] == reg[b - 1]);
                if i < b - 1 {
                    assert(reg[i].command_id < reg[b - 1].command_id);
                }
            }
            if a > i {
                assert(after[a] == reg[a - 1]);
            }
            if a != i && b != i {
                assert(reg[p].command_id < reg[q].command_id);
            }
        }
        assert forall|id: u32| has_module(reg, id) implies #[trigger] has_module(after, id) by {
            let k = choose|k: int| 0 <= k < reg.len() && (#[trigger] reg[k]).command_id == id;
            if k < i {
                assert(after[k] == reg[k]);
            } else {
                assert(after[k + 1] == reg[k]);
            }
        }
        assert(after[i] == x);
    }
    assert(after[i].command_id == x.command_id);
    module_is_found(after, x.command_id);
    let j = slot_from(after, x.command_id, 0);
    if i < j {
        assert(after[i].command_id < after[j].command_id);
    }
    if j < i {
        assert(after[j].command_id < after[i].command_id);
    }
}

/// Whether every module of a level is registered, in order.
pub open spec fn level_is_sound(l: Level) -> bool {
    &&& ascending(l.registry)
    &&& forall|k: int| 0 <= k < l.modules.len() ==> has_module(l.registry, #[trigger] l.modules[k])
}

proof fn record_keeps_level(l: Level, len: int, depth: usize, id: u32, x: Record, d: Outcome)
    requires
        level_is_sound(l),
    ensures
        with_record(l, len, depth, id, x, d) matches Ok(after) ==> level_is_sound(after),
{
    match with_record(l, len, depth, id, x, d) {
        Err(_) => {},
        Ok(after) => {
            let wants_image = !x.is_direct() && x.image_size != 0;
            let i = opened(
                len,
                x,
                depth,
                id,
                Part::Image,
                wants_image,
                x.image_offset,
                ArtifactKind::Image { with_metadata: x.metadata_size != 0 },
                d.image,
            )->Ok_0;
            let m = opened(
                len,
                x,
                depth,
                id,
                Part::Metadata,
                x.metadata_size != 0,
                x.metadata_offset,
                ArtifactKind::Metadata,
                d.metadata,
            )->Ok_0;
            if let Some(a) = i {
                let module = module_of(x, depth, a, m, d.image->Ok_0);
                registry_stays_in_order(l.registry, module);
                let j = slot_from(after.registry, x.command_id, 0);
                assert(after.registry[j].command_id == x.command_id);
                assert forall|k: int| 0 <= k < after.modules.len() implies has_module(
                    after.registry,
                    #[trigger] after.modules[k],
                ) by {
                    if k < l.modules.len() {
                        assert(after.modules[k] == l.modules[k]);
                    }
                }
            }
        },
    }
}

proof fn records_keep_level(
    l: Level,
    len: int,
    depth: usize,
    id: u32,
    list: Seq<Record>,
    got: Seq<Outcome>,
    n: int,
)
    requires
        level_is_sound(l),
    ensures
        with_records(l, len, depth, id, list, got, n) matches Ok(after) ==> level_is_sound(after),
    decreases list.len() - n,
{
    if n < list.len() {
        record_keeps_level(l, len, depth, id, list[n], got[n]);
        match with_record(l, len, depth, id, list[n], got[n]) {
            Err(_) => {},
            Ok(next) => records_keep_level(next, len, depth, id, list, got, n + 1),
        }
    }
}

proof fn directs_keep_level(
    l: Level,
    s: Seq<u8>,
    depth: usize,
    id: u32,
    n: int,
    acc: Seq<Child>,
)
    requires
        level_is_sound(l),
        forall|k: int|
            0 <= k < acc.len() ==> has_module(l.registry, (#[trigger] acc[k]).stream_id),
    ensures
        with_directs(l, s, depth, id, n, acc) matches Ok((after, children)) ==> {
            &&& after.registry == l.registry
            &&& forall|k: int|
                0 <= k < children.len() ==> has_module(
                    after.registry,
                    (#[trigger] children[k]).stream_id,
                )
        },
    decreases l.direct.len() - n,
{
    if n < l.direct.len() {
        let (x, at) = l.direct[n];
        let info = l.records[at];
        if l.modules.contains(child_id(x)) {
            let next = Level {
                records: l.records.update(
                    at,
                    RecordInfo { nested_stream_id: Some(child_id(x)), ..info },
                ),
                ..l
            };
            let more = acc.push(Child { record: x, stream_id: child_id(x) });
            let k = choose|k: int| 0 <= k < l.modules.len() && l.modules[k] == child_id(x);
            assert(has_module(l.registry, l.modules[k]));
            directs_keep_level(next, s, depth, id, n + 1, more);
        } else if x.image_offset + x.image_size <= s.len() {
            let data = s.subrange(x.image_offset as int, x.image_offset + x.image_size);
            let a = artifact_for(x, depth, id, ArtifactKind::Direct, data);
            let next = Level {
                artifacts: l.artifacts.push(a),
                records: l.records.update(at, RecordInfo { image: Some(a), ..info }),
                ..l
            };
            directs_keep_level(next, s, depth, id, n + 1, acc);
        }
    }
}

/// Every stream that comes back from a stream has the module that opens it in the
/// registry, which stays in order.
pub proof fn children_have_interpreters(
    st: State,
    m: FixedProduct,
    c: DecoderConfig,
    src: Source,
    got: Seq<Outcome>,
)
    requires
        ascending(st.registry),
        extracted(st, m, c, src, got) is Ok,
    ensures
        ({
            let (after, children) = extracted(st, m, c, src, got)->Ok_0;
            &&& ascending(after.registry)
            &&& forall|k: int|
                0 <= k < children.len() ==> has_module(
                    after.registry,
                    (#[trigger] children[k]).stream_id,
                )
        }),
{
    let key = (src.id, identity_of(src.stream));
    if !st.seen.contains(key) {
        let (h, list, end) = stream_of(m, src.stream, src.id)->Ok_0;
        let l0 = Level {
            artifacts: st.artifacts,
            registry: st.registry,
            records: Seq::empty(),
            direct: Seq::empty(),
            modules: Seq::empty(),
        };
        let len = src.stream.len() as int;
        records_keep_level(l0, len, src.depth, src.id, list, got, 0);
        let l = with_records(l0, len, src.depth, src.id, list, got, 0)->Ok_0;
        directs_keep_level(l, src.stream, src.depth, src.id, 0, Seq::empty());
    }
}

/// A stream that was extracted is not extracted again.
pub proof fn stream_is_extracted_once(
    st: State,
    m: FixedProduct,
    c: DecoderConfig,
    src: Source,
    got: Seq<Outcome>,
    other_config: DecoderConfig,
    other: Source,
    other_got: Seq<Outcome>,
)
    requires
        extracted(st, m, c, src, got) is Ok,
        other.id == src.id,
        other.stream == src.stream,
    ensures
        ({
            let after = extracted(st, m, c, src, got)->Ok_0.0;
            extracted(after, m, other_config, other, other_got) == Ok::<
                (State, Seq<Child>),
                Problem,
            >((after, Seq::empty()))
        }),
{
    let key = (src.id, identity_of(src.stream));
    let after = extracted(st, m, c, src, got)->Ok_0.0;
    if !st.seen.contains(key) {
        assert(after.seen[st.seen.len() as int] == key);
    }
}

} // verus!
