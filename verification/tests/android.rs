use senbei::android::archive::{decode_entry, temporary_name, EntryError, Method};
use senbei::android::embedded::{
    embedded_metadata_size, extract_embedded_metadata, Keystream, FIRST_PROBE, SECOND_PROBE,
    STANDARD_MAGIC, STANDARD_VERSION,
};
use senbei::android::error::{Error, Part};
use senbei::android::extract::{
    artifact_of, bootstrap_range, record_slice, record_tail, ArtifactKind, Decoded, DecoderConfig,
    Defaults, ExtractOptions, Extractor,
};
use senbei::android::folder::{
    choose_seed, deduplicate_targets, entry_use, file_use, is_archive, is_metadata_path,
    is_so_path, stage2_dir, EntryUse, FileUse, FolderSummary, SeedChoice, Target, TargetKind,
};
use senbei::android::hash::{build_gnu_hash, build_sysv_hash, elf_hash, gnu_hash};
use senbei::android::jobs::{restore_options, RestoreMetadataJob, RestoreSoJob};
use senbei::android::layout::{align_up, ElfLayout, SectionHeader, SHT_LOUSER};
use senbei::android::order::{arrange_targets, destination_is_taken};
use senbei::android::report::{stage1_report, PayloadHeader, Stage1Result};
use senbei::android::stream::{parse_record_stream, FixedProduct, Record, RECORD_SIZE};
use senbei::android::targets::{
    is_bundle, loose_target, nested_base, packed_target, without_extension,
};
use senbei::android::tasks::{gather, Task};
use senbei::digest::{content_identity, hex_digest};
use senbei::io::paths::{default_module_index, Platform};
use senbei::metadata::discover::{ImageKeyDiscovery, SeedDiscoveryReport};
use senbei::metadata::restore::DEFAULT_METHOD_TOKEN_SEED;

#[test]
fn standard_elf_hash_is_stable() {
    assert_eq!(elf_hash(b"printf"), 0x0779_05a6);
    assert_eq!(gnu_hash(b"printf"), 0x156b_2bb8);
}

#[test]
fn derives_index_next_to_input() {
    assert_eq!(
        default_module_index(Platform::Windows, r"C:\game\Native\libil2cpp.so"),
        r"C:\game\Native\libil2cpp_stage2_modules\index.json"
    );
}

#[test]
fn metadata_job_uses_current_seed() {
    let job = RestoreMetadataJob::new("in".to_string(), "out".to_string());
    assert_eq!(job.seed, DEFAULT_METHOD_TOKEN_SEED);
}

fn keys() -> Keystream {
    let mut x: u32 = 0x1357_9bdf;
    let mut next = || {
        x = x.wrapping_mul(1_664_525).wrapping_add(1_013_904_223);
        x
    };
    let header: Vec<u32> = (0..64).map(|_| next()).collect();
    let mut end = 0x100u32;
    let mut segments = Vec::new();
    for _ in 0..256 {
        end += 4 * (1 + (next() >> 28));
        segments.push((end, next()));
    }
    Keystream { header, segments }
}

fn xor_word(data: &mut [u8], offset: usize, key: u32) {
    let word = u32::from_le_bytes(data[offset..offset + 4].try_into().expect("word in bounds"));
    data[offset..offset + 4].copy_from_slice(&(word ^ key).to_le_bytes());
}

#[test]
fn roundtrip_wrapped_blob() {
    let keys = keys();
    let total = embedded_metadata_size(&keys);
    let mut image = vec![0_u8; total + 0x40];
    // Plaintext blob: standard probe words, then a ramp.
    image[0..4].copy_from_slice(&FIRST_PROBE.to_le_bytes());
    image[4..8].copy_from_slice(&SECOND_PROBE.to_le_bytes());
    for o in (8..total).step_by(4) {
        let v = (o as u32).wrapping_mul(0x9e37_79b1);
        image[o..o + 4].copy_from_slice(&v.to_le_bytes());
    }
    // Wrap with the keystream.
    for (i, &key) in keys.header.iter().enumerate() {
        xor_word(&mut image, 4 * i, key);
    }
    let mut pos = 0x100_usize;
    for &(end, key) in &keys.segments {
        let mut o = pos;
        while o + 4 <= end as usize {
            xor_word(&mut image, o, key);
            o += 4;
        }
        pos = end as usize;
    }

    let out = extract_embedded_metadata(&image, &keys).expect("blob found");
    assert_eq!(out.len(), total);
    // Header rewritten to the standard magic/version…
    assert_eq!(&out[0..4], &STANDARD_MAGIC.to_le_bytes());
    assert_eq!(&out[4..8], &STANDARD_VERSION.to_le_bytes());
    // …and the body round-trips.
    for o in (8..total).step_by(4) {
        let v = (o as u32).wrapping_mul(0x9e37_79b1);
        assert_eq!(&out[o..o + 4], &v.to_le_bytes(), "word at {o:#x}");
    }
}

#[test]
fn no_blob_in_plain_data() {
    let image = vec![0xAB_u8; 0x1000];
    assert!(extract_embedded_metadata(&image, &keys()).is_none());
}

#[test]
fn truncated_blob_is_not_extracted() {
    let keys = keys();
    let mut image = vec![0u8; 0x80];
    image[0x20..0x24].copy_from_slice(&(FIRST_PROBE ^ keys.header[0]).to_le_bytes());
    image[0x24..0x28].copy_from_slice(&(SECOND_PROBE ^ keys.header[1]).to_le_bytes());
    assert!(extract_embedded_metadata(&image, &keys).is_none());
}

fn words(bytes: &[u8]) -> Vec<u32> {
    bytes
        .chunks(4)
        .map(|c| u32::from_le_bytes([c[0], c[1], c[2], c[3]]))
        .collect()
}

#[test]
fn sysv_table_leads_to_every_symbol() {
    let names: Vec<Vec<u8>> = ["", "printf", "malloc", "free", "a", "b", "c", "memcpy", "strlen"]
        .iter()
        .map(|s| s.as_bytes().to_vec())
        .collect();
    let w = words(&build_sysv_hash(&names).unwrap());
    let n = names.len();
    assert_eq!(w[0] as usize, n);
    assert_eq!(w[1] as usize, n);
    assert_eq!(w.len(), 2 + 2 * n);
    let buckets = &w[2..2 + n];
    let chains = &w[2 + n..];
    for i in 1..n {
        let mut at = buckets[elf_hash(&names[i]) as usize % n] as usize;
        while at != i {
            assert_ne!(at, 0, "symbol {i} is lost");
            at = chains[at] as usize;
        }
    }
    assert_eq!(chains[0], 0);
    assert_eq!(
        build_sysv_hash(&names[..1]).unwrap_err().to_string(),
        "dynamic symbol table is unexpectedly empty"
    );
}

#[test]
fn gnu_table_has_one_bucket_and_a_filter() {
    let names = vec![Vec::new(), b"printf".to_vec(), b"x".to_vec()];
    let w = words(&build_gnu_hash(&names).unwrap());
    assert_eq!(&w[..4], &[1, 1, 1, 5]);
    let bloom = u64::from(w[4]) | (u64::from(w[5]) << 32);
    for name in &names[1..] {
        let h = gnu_hash(name);
        assert_ne!(bloom & (1 << (h & 63)), 0);
        assert_ne!(bloom & (1 << ((h >> 5) & 63)), 0);
    }
    assert_eq!(w[6], 1);
    assert_eq!(w[7], gnu_hash(b"printf") & !1);
    assert_eq!(w[8], gnu_hash(b"x") | 1);
    assert!(build_gnu_hash(&names[..1]).is_err());
}

fn put(d: &mut [u8], o: usize, v: &[u8]) {
    d[o..o + v.len()].copy_from_slice(v);
}

/// A library with two program headers, one of them loaded, and three sections.
fn library() -> Vec<u8> {
    let mut d = vec![0u8; 0x400];
    put(&mut d, 0, b"\x7fELF\x02\x01\x01");
    put(&mut d, 0x10, &3u16.to_le_bytes());
    put(&mut d, 0x12, &0xb7u16.to_le_bytes());
    put(&mut d, 0x14, &1u32.to_le_bytes());
    put(&mut d, 0x18, &0x1234u64.to_le_bytes());
    put(&mut d, 0x20, &0x40u64.to_le_bytes());
    put(&mut d, 0x28, &0x200u64.to_le_bytes());
    put(&mut d, 0x36, &0x38u16.to_le_bytes());
    put(&mut d, 0x38, &2u16.to_le_bytes());
    put(&mut d, 0x3a, &0x40u16.to_le_bytes());
    put(&mut d, 0x3c, &3u16.to_le_bytes());
    put(&mut d, 0x3e, &1u16.to_le_bytes());
    put(&mut d, 0x40, &1u32.to_le_bytes());
    put(&mut d, 0x44, &5u32.to_le_bytes());
    put(&mut d, 0x48, &0x100u64.to_le_bytes());
    put(&mut d, 0x50, &0x8000u64.to_le_bytes());
    put(&mut d, 0x60, &0x80u64.to_le_bytes());
    put(&mut d, 0x68, &0x200u64.to_le_bytes());
    put(&mut d, 0x78, &6u32.to_le_bytes());
    let strings = SectionHeader {
        name: 1,
        section_type: 3,
        flags: 0,
        address: 0,
        offset: 0x180,
        size: 0x20,
        link: 0,
        info: 0,
        alignment: 1,
        entry_size: 0,
    };
    put(&mut d, 0x240, &strings.encode());
    let private = SectionHeader {
        name: 11,
        section_type: SHT_LOUSER,
        flags: 0x1122_3344_5566_7788,
        address: 5,
        offset: 6,
        size: 7,
        link: 8,
        info: 9,
        alignment: 10,
        entry_size: 11,
    };
    put(&mut d, 0x280, &private.encode());
    put(&mut d, 0x180, b"\0.shstrtab\0.priv\0");
    d
}

#[test]
fn layout_of_a_small_library() {
    let d = library();
    let l = ElfLayout::parse(&d, true).unwrap();
    assert_eq!(l.entrypoint, 0x1234);
    assert_eq!(l.program_headers.len(), 1);
    assert_eq!(l.section_headers.len(), 3);
    assert_eq!(l.private_section_index, 2);
    assert_eq!(l.private_section().unwrap().flags, 0x1122_3344_5566_7788);
    assert_eq!(l.load_end().unwrap(), 0x8200);
    assert_eq!(l.file_load_end().unwrap(), 0x180);
    assert_eq!(l.section_names(&d).unwrap(), vec!["", ".shstrtab", ".priv"]);
    assert_eq!(l.file_offset_to_virtual_address(0x110, 0x10).unwrap(), 0x8010);
    assert_eq!(
        l.file_offset_to_virtual_address(0x170, 0x20).unwrap_err().to_string(),
        "file range 0x170..0x190 is not in PT_LOAD"
    );
    assert_eq!(
        l.file_offset_to_virtual_address(u64::MAX, 1).unwrap_err().to_string(),
        "file range overflow"
    );
}

#[test]
fn section_headers_are_read_back() {
    let d = library();
    let h = SectionHeader::parse(&d, 0x280).unwrap();
    assert_eq!(h.encode(), d[0x280..0x2c0].to_vec());
    assert_eq!(
        SectionHeader::parse(&d, 0x3f0).unwrap_err().to_string(),
        "byte range 0x400..0x408 is out of bounds"
    );
}

#[test]
fn broken_libraries_are_refused() {
    let good = library();
    let fails = |edit: &dyn Fn(&mut Vec<u8>), need: bool| {
        let mut d = good.clone();
        edit(&mut d);
        ElfLayout::parse(&d, need).unwrap_err().to_string()
    };
    assert_eq!(
        fails(&|d| d[4] = 1, true),
        "input is not a little-endian ELF64 file"
    );
    assert_eq!(fails(&|d| d[0x12] = 0x3e, true), "input is not an AArch64 ELF");
    assert_eq!(
        fails(&|d| d[0x36] = 0x20, true),
        "unexpected ELF program/section header size"
    );
    assert_eq!(
        fails(&|d| d[0x40] = 7, true),
        "input ELF contains no PT_LOAD segments"
    );
    assert_eq!(
        fails(&|d| d[0x62] = 1, true),
        "PT_LOAD 0 exceeds input file"
    );
    assert_eq!(
        fails(&|d| d[0x3e] = 3, true),
        "ELF section-name index is out of range"
    );
    assert_eq!(
        fails(&|d| d[0x287] = 0, true),
        "expected one SHT_LOUSER section, found 0"
    );
    assert_eq!(
        fails(&|d| put(d, 0x244, &SHT_LOUSER.to_le_bytes()), false),
        "expected at most one SHT_LOUSER section, found 2"
    );
    assert_eq!(
        fails(&|d| d.truncate(3), true),
        "byte range 0x0..0x6 is out of bounds"
    );
    let mut none = good.clone();
    none[0x287] = 0;
    let l = ElfLayout::parse(&none, false).unwrap();
    assert_eq!(l.private_section_index, usize::MAX);
    assert_eq!(
        l.private_section().unwrap_err().to_string(),
        "ELF has no private section"
    );
}

#[test]
fn alignment_rounds_up() {
    assert_eq!(align_up(0x1001, 0x1000).unwrap(), 0x2000);
    assert_eq!(align_up(0x1000, 0x1000).unwrap(), 0x1000);
    assert_eq!(align_up(7, 1).unwrap(), 7);
    assert_eq!(align_up(1, 3).unwrap_err().to_string(), "invalid alignment 3");
    assert_eq!(align_up(1, 0).unwrap_err().to_string(), "invalid alignment 0");
    assert_eq!(
        align_up(u64::MAX, 16).unwrap_err().to_string(),
        "alignment overflow"
    );
}

/// Multiplication by one: every bit stands for itself.
fn identity() -> FixedProduct {
    let mut columns = [0u32; 32];
    for (i, c) in columns.iter_mut().enumerate() {
        *c = 1 << i;
    }
    FixedProduct { columns }
}

const ID: u32 = 0xe2;

fn base(id: u32) -> u32 {
    let key = id.wrapping_mul(0x9d32_3cd7);
    (key >> (id & 7))
        .wrapping_add(0x5e72_7d74)
        .wrapping_add(key.wrapping_shl(id & 0xb))
        .wrapping_add(0xf71e_3005)
}

/// A stream of which the records are enciphered so that they decipher to `records`.
fn stream_of(id: u32, records: &[[u32; 9]], tail: &[u8]) -> Vec<u8> {
    let (c0, c1) = (0x0102_0304u32, 0x0506_0708u32);
    let plain1 = c1.wrapping_add(c0) ^ 0xeb_e81dba_u32.wrapping_mul(5).wrapping_add(base(id));
    let state = plain1.wrapping_add(base(id));
    let product = state.wrapping_add(0x96f6_0b71).wrapping_mul(state);
    let mix = state.wrapping_mul(0x06a5_5bcc).wrapping_add(product);
    let mut s = Vec::new();
    s.extend_from_slice(&c0.to_le_bytes());
    s.extend_from_slice(&c1.to_le_bytes());
    for (index, r) in records.iter().enumerate() {
        let mask = product.wrapping_shl(((index + 1) & 3) as u32);
        let mut accumulator = 0x7993_4cf6u32;
        let mut feedback = 0xf02f_7685u32;
        for w in 0..RECORD_SIZE / 4 {
            feedback = feedback.wrapping_mul(feedback);
            let value = if w < 9 { r[w] } else { 0 };
            let mixed = value
                .wrapping_add(mix >> ((w * 4 + 3) & 5))
                .wrapping_sub(accumulator)
                .wrapping_sub(state);
            let cipher = (mixed ^ mask) ^ (feedback >> 3);
            s.extend_from_slice(&cipher.to_le_bytes());
            accumulator = accumulator.wrapping_add(0xe64d_33d8);
            feedback = cipher;
        }
    }
    s.extend_from_slice(tail);
    s
}

fn at(records: usize) -> u32 {
    (8 + records * RECORD_SIZE) as u32
}

#[test]
fn record_table_ends_at_the_first_payload() {
    let p = at(2);
    let s = stream_of(
        ID,
        &[
            [0x20, 0, p, 4, 0, 0, 0x20, 1, 2],
            [0x30, 2, p + 4, 4, 0, 0, 0, 3, 4],
        ],
        b"abcdwxyz",
    );
    let (header, records, end) = parse_record_stream(&identity(), &s, ID).unwrap();
    assert_eq!(header.encrypted_words, [0x0102_0304, 0x0506_0708]);
    assert_eq!(end, p as usize);
    assert_eq!(records.len(), 2);
    assert_eq!(records[0].command_id, 0x20);
    assert!(!records[0].direct());
    assert!(records[1].direct());
    assert_eq!(records[1].index, 1);
    assert_eq!(records[1].init_offset, 4);
}

#[test]
fn broken_record_tables_are_refused() {
    let m = identity();
    let text = |s: &[u8]| parse_record_stream(&m, s, ID).unwrap_err().to_string();
    assert_eq!(text(&[0; 7]), "stream 0xE2 is shorter than its 8-byte header");
    assert_eq!(
        text(&[0; 8]),
        "stream 0xE2 descriptor table is truncated at record 0"
    );
    let s = stream_of(ID, &[[0x20, 0, at(1), 4, 0, 0, 0x21, 0, 0]], b"abcd");
    assert_eq!(
        text(&s),
        "stream 0xE2 record 0 command/id mismatch: 0x20 != 0x21"
    );
    let s = stream_of(ID, &[[0x20, 0, 0x9999, 4, 0, 0, 0, 0, 0]], b"abcd");
    assert_eq!(
        text(&s),
        "stream 0xE2 record 0 payload offset 0x9999 exceeds stream 0x68"
    );
    let s = stream_of(ID, &[[0x20, 0, 0x10, 4, 0, 0, 0, 0, 0]], b"abcd");
    assert_eq!(
        text(&s),
        "stream 0xE2 descriptor table crosses first payload at 0x10"
    );
    let none = [[0x20u32, 0, 0, 0, 0, 0, 0, 0, 0]; 257];
    let s = stream_of(ID, &none, b"abcd");
    assert_eq!(text(&s), "stream 0xE2 has no descriptor boundary in 256 records");
}

#[test]
fn products_are_linear() {
    let mut m = identity();
    for (i, c) in m.columns.iter_mut().enumerate() {
        *c = 0x1234_5679u32.rotate_left(i as u32);
    }
    let (x, y) = (0xdead_beef, 0x0bad_cafe);
    assert_eq!(m.multiply(x ^ y), m.multiply(x) ^ m.multiply(y));
    assert_eq!(m.multiply(0), 0);
    assert_eq!(m.multiply(1 << 31), m.columns[31]);
    assert_eq!(identity().multiply(x), x);
}

fn config() -> DecoderConfig {
    DecoderConfig {
        header_seed: 1,
        container_seed: 2,
        schedule_offset: 3,
        aes_key: vec![1, 2, 3],
        skip_aes: false,
    }
}

fn nothing() -> Decoded {
    Decoded {
        image: Err("not opened".to_string()),
        metadata: Err("not opened".to_string()),
    }
}

fn opened(image: &[u8], metadata: Option<&[u8]>) -> Decoded {
    Decoded {
        image: Ok(image.to_vec()),
        metadata: match metadata {
            Some(m) => Ok(m.to_vec()),
            None => Err("no metadata".to_string()),
        },
    }
}

/// A module with metadata, a stored image that it opens, and a plain stored image.
fn three_records() -> Vec<u8> {
    let p = at(3);
    stream_of(
        ID,
        &[
            [0x20, 0, p, 4, p + 4, 4, 0x20, 1, 2],
            [0x30, 2, p + 8, 4, 0, 0, 0x30, 0, 0],
            [0x99, 2, p + 12, 4, 0, 0, 0x99, 0, 0],
        ],
        b"imagmetachldplan",
    )
}

#[test]
fn stream_is_extracted_into_modules_files_and_children() {
    let m = identity();
    let s = three_records();
    let got = vec![opened(b"IMAGE", Some(b"META")), nothing(), nothing()];
    let mut e = Extractor::new();
    let children = e
        .extract_stream(&m, &s, ID, 0, None, Some(0x77), &config(), &got)
        .unwrap();
    assert_eq!(children.len(), 1);
    assert_eq!(children[0].stream_id, 0x20);
    assert_eq!(children[0].record.command_id, 0x30);
    assert_eq!(e.streams.len(), 1);
    let report = &e.streams[0];
    assert_eq!(report.decoder.kind, "embedded_stage2");
    assert_eq!(report.decoder.interpreter_id, None);
    assert_eq!(report.decoder.aes_key_sha256, content_identity(&[1, 2, 3]));
    assert_eq!(report.source_file_offset, Some(0x77));
    assert_eq!(report.sha256, content_identity(&s));
    assert_eq!(report.records.len(), 3);
    assert_eq!(report.records[1].nested_stream_id, Some(0x20));
    assert_eq!(e.artifacts.len(), 3);
    assert_eq!(e.artifacts[0].classification, "module_image");
    assert_eq!(e.artifacts[1].kind, "decoded_metadata");
    assert_eq!(e.artifacts[2].kind, "direct");
    assert_eq!(e.artifacts[2].size, 4);
    let name = format!("d00_sE2_r000_id00000020_{}.module.bin", &content_identity(b"IMAGE")[..12]);
    assert_eq!(e.artifacts[0].path, name);
    assert_eq!(
        report.records[2].image.as_ref().unwrap().sha256,
        content_identity(b"plan")
    );

    let ((start, end), module) = e.descend(s.len(), ID, 0, &children[0]).unwrap();
    assert_eq!(&s[start..end], b"chld");
    assert_eq!(e.registry[module].image, b"IMAGE");

    // The same stream again changes nothing.
    let again = e
        .extract_stream(&m, &s, ID, 1, None, None, &config(), &got)
        .unwrap();
    assert!(again.is_empty());
    assert_eq!(e.streams.len(), 1);
    assert_eq!(e.artifacts.len(), 3);

    let entries = e.registry_entries();
    assert_eq!(entries.len(), 1);
    assert_eq!(entries[0].classification, "module_image");
    assert_eq!(entries[0].size, 5);
    assert!(entries[0].metadata_path.is_some());
}

#[test]
fn conflicting_modules_end_an_extraction() {
    let m = identity();
    let p = at(2);
    let s = stream_of(
        ID,
        &[
            [0x20, 0, p, 4, 0, 0, 0x20, 0, 0],
            [0x20, 0, p + 4, 4, 0, 0, 0x20, 0, 0],
        ],
        b"aaaabbbb",
    );
    let mut e = Extractor::new();
    let got = vec![opened(b"A", None), opened(b"B", None)];
    let error = e
        .extract_stream(&m, &s, ID, 0, None, None, &config(), &got)
        .unwrap_err();
    assert_eq!(
        error.to_string(),
        format!(
            "module 0x20 produced conflicting images: {} and {}",
            content_identity(b"A"),
            content_identity(b"B")
        )
    );
    let mut e = Extractor::new();
    let got = vec![opened(b"A", None), opened(b"A", None)];
    e.extract_stream(&m, &s, ID, 0, None, None, &config(), &got).unwrap();
    assert_eq!(e.registry.len(), 1);
    assert_eq!(e.registry_entries()[0].classification, "decoded_data");
}

#[test]
fn undecoded_records_end_an_extraction() {
    let m = identity();
    let s = three_records();
    let mut e = Extractor::new();
    let error = e
        .extract_stream(&m, &s, ID, 0, None, None, &config(), &[nothing(), nothing(), nothing()])
        .unwrap_err();
    assert_eq!(
        error,
        Error::RecordDecode {
            depth: 0,
            stream_id: ID,
            record_index: 0,
            command_id: 0x20,
            part: Part::Image,
            source: "not opened".to_string(),
        }
    );
    assert_eq!(
        error.to_string(),
        "depth 0 stream 0xE2 record 0 command 0x20 image decode: not opened"
    );
    let mut e = Extractor::new();
    let error = e
        .extract_stream(&m, &[0; 4], 5, 2, None, None, &config(), &[])
        .unwrap_err();
    assert_eq!(
        error.to_string(),
        "depth 2 stream 0x05 record table: stream 0x05 is shorter than its 8-byte header"
    );
}

#[test]
fn record_ranges_are_checked() {
    assert_eq!(record_tail(10, 10), Ok(10));
    assert_eq!(
        record_tail(10, 11).unwrap_err().to_string(),
        "record container offset 0xb exceeds stream 0xa"
    );
    assert_eq!(record_slice(10, 4, 6), Ok((4, 10)));
    assert_eq!(
        record_slice(10, 4, 7).unwrap_err().to_string(),
        "record payload range 0x4..0xb exceeds stream 0xa"
    );
}

#[test]
fn child_without_a_module_is_refused() {
    let e = Extractor::new();
    let record = Record {
        index: 0,
        command_id: 0x30,
        flags: 2,
        image_offset: 0,
        image_size: 1,
        metadata_offset: 0,
        metadata_size: 0,
        id_copy: 0,
        entry_offset: 0,
        init_offset: 0,
    };
    let child = senbei::android::extract::Child { record, stream_id: 0x20 };
    assert_eq!(
        e.descend(4, ID, 3, &child).unwrap_err().to_string(),
        "depth 3 stream 0xE2 child 0x20 has no interpreter module"
    );
    let a = artifact_of(&record, 12, 0xABC, ArtifactKind::Direct, b"x");
    assert_eq!(
        a.path,
        format!("d12_sABC_r000_id00000030_{}.direct.bin", &content_identity(b"x")[..12])
    );
}

#[test]
fn configuration_errors_name_their_place() {
    assert_eq!(
        Error::EmbeddedConfig("bad".to_string()).to_string(),
        "embedded Stage 2 decoder configuration: bad"
    );
    assert_eq!(
        Error::InterpreterConfig {
            depth: 1,
            stream_id: 0x20,
            interpreter_id: 0x5,
            source: "bad".to_string(),
        }
        .to_string(),
        "depth 1 stream 0x20 interpreter 0x05 configuration: bad"
    );
}

fn first_stage() -> Stage1Result {
    Stage1Result {
        section_index: 1,
        section_offset: 2,
        section_size: 3,
        header_offset: 4,
        header: PayloadHeader {
            key: 5,
            payload_offset: 6,
            payload_size: 7,
            payload_key: 8,
            entry_offset: 9,
            protect_size: 10,
        },
        payload_file_offset: 11,
        plaintext: b"plain".to_vec(),
        remaining_file_offset: 12,
        remaining_size: 13,
    }
}

#[test]
fn first_stage_is_reported() {
    let stage1 = first_stage();
    let r = stage1_report(&stage1, 99);
    assert_eq!(r.section_type, SHT_LOUSER);
    assert_eq!(r.outer_size, 99);
    assert_eq!(r.stage2_size, 5);
    assert_eq!(r.stage2_sha256, content_identity(b"plain"));
    assert_eq!(r.remaining_size, 13);
    assert_eq!(bootstrap_range(&stage1, 25), Ok((12, 25)));
    assert_eq!(
        bootstrap_range(&stage1, 24).unwrap_err().to_string(),
        "Stage 2 bootstrap range is outside the ELF"
    );
    let mut far = first_stage();
    far.remaining_file_offset = usize::MAX;
    assert_eq!(
        bootstrap_range(&far, 24).unwrap_err().to_string(),
        "Stage 2 bootstrap range overflow"
    );
    let report = Extractor::new().report("in.so".to_string(), "out".to_string(), r);
    assert_eq!(report.format_version, 4);
    assert_eq!(report.protected_elf, "in.so");
    assert!(report.errors.is_empty());
}

#[test]
fn options_take_the_defaults() {
    let o = ExtractOptions::with_defaults(
        "a".to_string(),
        "b".to_string(),
        Defaults { outer_size: 7, cipher_constant: 8 },
    );
    assert_eq!((o.outer_size, o.cipher_constant), (7, 8));
    assert!(o.stage2_output.is_none());
}

#[test]
fn digests_are_lower_case_text() {
    assert_eq!(hex_digest(&[0x00, 0x1f, 0xAB]), "001fab");
    assert_eq!(
        content_identity(b"abc"),
        "ba7816bf8f01cfea414140de5dae2223b00361a396177a9cb410ff61f20015ad"
    );
    assert_ne!(hex_digest(&[1, 2]), hex_digest(&[2, 1]));
}

#[test]
fn entries_are_stored_or_deflated() {
    assert_eq!(decode_entry(Method::Stored, b"abc", 3).unwrap(), b"abc");
    assert_eq!(
        decode_entry(Method::Stored, b"abc", 4).unwrap_err(),
        EntryError::Size { actual: 3, expected: 4 }
    );
    // A final deflate block without compression.
    let stream = [1u8, 5, 0, 0xfa, 0xff, b'h', b'e', b'l', b'l', b'o'];
    assert_eq!(decode_entry(Method::Deflated, &stream, 5).unwrap(), b"hello");
    let size = decode_entry(Method::Deflated, &stream, 6).unwrap_err();
    assert_eq!(
        size.message("a.apk", 3),
        "archive `a.apk` entry index 3 decompressed to 0x5, expected 0x6"
    );
    let cut = decode_entry(Method::Deflated, &stream[..7], 5).unwrap_err();
    assert!(matches!(cut, EntryError::Deflate(_)));
    assert!(cut.message("a.apk", 3).starts_with("deflate archive `a.apk` entry index 3: "));
    let other = decode_entry(Method::Other("Bzip2".to_string()), b"", 0).unwrap_err();
    assert_eq!(
        other.message("a.apk", 1),
        "unsupported compression method Bzip2 in archive `a.apk` entry index 1"
    );
    assert_eq!(temporary_name(r"x\y/base.apk", 0x1f), "x_y_base.apk-0000001f");
}

#[test]
fn targets_are_known_by_their_paths() {
    let u = Platform::Unix;
    assert!(is_so_path(u, "lib/arm64-v8a/libil2cpp.SO"));
    assert!(is_archive(u, "base.apk") && is_archive(u, "all.APKS") && !is_archive(u, "x.xapk"));
    let meta = "a/assets/bin/data/managed/METADATA/global-metadata.dat";
    assert!(is_metadata_path(u, meta));
    assert!(is_metadata_path(Platform::Windows, &meta.replace('/', "\\")));
    assert!(!is_metadata_path(u, "assets/bin/Data/Managed/global-metadata.dat"));
    assert_eq!(file_use(u, meta), FileUse::Metadata);
    assert_eq!(file_use(u, "x.so"), FileUse::Library);
    assert_eq!(file_use(u, "x.apk"), FileUse::Archive);
    assert_eq!(file_use(u, "x.txt"), FileUse::Nothing);
    assert_eq!(entry_use(u, true, "base.apk"), EntryUse::Nested);
    assert_eq!(entry_use(u, true, "lib/x.so"), EntryUse::Nothing);
    assert_eq!(entry_use(u, false, "lib/x.so"), EntryUse::Direct(TargetKind::So));
    assert_eq!(entry_use(u, false, meta), EntryUse::Direct(TargetKind::Metadata));
    assert_eq!(entry_use(u, false, "base.apk"), EntryUse::Nothing);
    assert_eq!(stage2_dir(b"a"), "stage2-0000000000000061");
    assert_eq!(stage2_dir(b"ab"), format!("stage2-{:016x}", 0x61 * 131 + 0x62));
}

fn target(kind: TargetKind, identity: &str, priority: u8, label: &str, source: &str) -> Target {
    Target {
        kind,
        source: source.to_string(),
        destination: label.to_string(),
        label: label.to_string(),
        identity: identity.to_string(),
        source_priority: priority,
    }
}

#[test]
fn one_copy_of_each_file_is_kept() {
    let out = deduplicate_targets(&[
        target(TargetKind::Metadata, "11", 0, "m", "s0"),
        target(TargetKind::So, "bb", 0, "z", "s1"),
        target(TargetKind::So, "aa", 1, "q", "s2"),
        target(TargetKind::So, "bb", 2, "y", "s3"),
        target(TargetKind::So, "bb", 2, "x", "s4"),
        target(TargetKind::So, "bb", 2, "x", "s5"),
        target(TargetKind::So, "aa", 0, "a", "s6"),
    ]);
    let kept: Vec<&str> = out.iter().map(|t| t.source.as_str()).collect();
    assert_eq!(kept, vec!["s2", "s4", "s0"]);
    assert!(deduplicate_targets(&[]).is_empty());
}

fn discovery(version: u32, clean: bool, seeds: &[u32]) -> SeedDiscoveryReport {
    SeedDiscoveryReport {
        version,
        images: vec![ImageKeyDiscovery {
            image: 0,
            method_count: 2,
            modulus: 1,
            clean,
            seed_residues: Vec::new(),
        }],
        seed_candidates: seeds.to_vec(),
    }
}

#[test]
fn seed_is_chosen_by_what_was_found() {
    assert_eq!(choose_seed(&discovery(29, false, &[1])), SeedChoice::Skip);
    assert_eq!(choose_seed(&discovery(31, true, &[1])), SeedChoice::Skip);
    assert_eq!(
        choose_seed(&discovery(31, false, &[])),
        SeedChoice::Restore(DEFAULT_METHOD_TOKEN_SEED)
    );
    assert_eq!(choose_seed(&discovery(31, false, &[7])), SeedChoice::Restore(7));
    assert_eq!(choose_seed(&discovery(31, false, &[7, 8])), SeedChoice::Ambiguous(2));
}

#[test]
fn folder_tally_counts_each_target() {
    let mut s = FolderSummary::new(3);
    s.count(TargetKind::So, true);
    s.count(TargetKind::So, false);
    s.count(TargetKind::Metadata, true);
    s.count(TargetKind::Metadata, false);
    s.count(TargetKind::Metadata, false);
    assert_eq!(
        s,
        FolderSummary {
            so_restored: 1,
            so_skipped: 1,
            metadata_restored: 1,
            metadata_skipped: 2,
            archives: 3,
        }
    );
}

#[test]
fn job_without_an_index_looks_beside_the_library() {
    let mut job = RestoreSoJob {
        input: "/game/libil2cpp.so".to_string(),
        output: "out.so".to_string(),
        index: None,
        report: None,
        dump_auxiliary: Some("aux".to_string()),
        outer_only: true,
        preserve_entrypoint: false,
    };
    let o = restore_options(Platform::Unix, &job);
    assert_eq!(o.index, "/game/libil2cpp_stage2_modules/index.json");
    assert_eq!(o.dump_auxiliary.as_deref(), Some("aux"));
    assert!(o.outer_only && !o.preserve_entrypoint);
    job.index = Some("i.json".to_string());
    assert_eq!(restore_options(Platform::Unix, &job).index, "i.json");
}

#[test]
fn targets_are_arranged_by_destination() {
    let u = Platform::Unix;
    let at = |dest: &str, source: &str| target(TargetKind::So, "", 0, dest, source);
    let out = arrange_targets(
        u,
        &[
            at("o/b/a.so", "1"),
            at("o/b.so", "2"),
            at("o/a/z.so", "3"),
            at("o/a//z.so", "4"),
            at("/o", "5"),
            at("o", "6"),
        ],
    );
    let order: Vec<&str> = out.iter().map(|t| t.source.as_str()).collect();
    let mut expected: Vec<(&str, &str)> = vec![
        ("o/b/a.so", "1"),
        ("o/b.so", "2"),
        ("o/a/z.so", "3"),
        ("o/a//z.so", "4"),
        ("/o", "5"),
        ("o", "6"),
    ];
    expected.sort_by(|x, y| std::path::Path::new(x.0).cmp(std::path::Path::new(y.0)));
    let expected: Vec<&str> = expected.iter().map(|x| x.1).collect();
    assert_eq!(order, expected);
    let taken: Vec<bool> = (0..out.len()).map(|i| destination_is_taken(u, &out, i)).collect();
    assert_eq!(taken, vec![false, false, false, true, false, false]);
}

#[test]
fn targets_say_where_they_come_from() {
    let u = Platform::Unix;
    assert!(is_bundle(u, "x.APKS") && !is_bundle(u, "x.apk"));
    assert_eq!(without_extension(u, "a/base.v1.apk"), "a/base.v1");
    assert_eq!(without_extension(u, "a/.apk"), "a/.apk");
    assert_eq!(nested_base(u, "d/all.apks", "splits/base.apk"), "d/all.apks/splits/base");
    let t = loose_target(u, TargetKind::So, "/g/l/x.so", "/g/unpack", "l/x.so", "id");
    assert_eq!(t.destination, "/g/unpack/l/x.so");
    assert_eq!(t.label, "l/x.so");
    assert_eq!(t.source_priority, 0);
    let t = packed_target(
        u,
        TargetKind::Metadata,
        "/tmp/e",
        "/g/unpack",
        "base.apk",
        "base.apk",
        "assets/m.dat",
        "id",
        false,
    );
    assert_eq!(t.destination, "/g/unpack/base.apk/assets/m.dat");
    assert_eq!(t.label, "base.apk::assets/m.dat");
    assert_eq!(t.source_priority, 1);
    assert_eq!(t.source, "/tmp/e");
    let t = packed_target(u, TargetKind::So, "s", "o", "b", "a", "e", "i", true);
    assert_eq!(t.source_priority, 2);
}

#[test]
fn tasks_follow_what_was_opened() {
    let m = identity();
    let s = three_records();
    let mut e = Extractor::new();
    let p = at(3) as usize;
    let mut got: Vec<Result<Vec<u8>, String>> = Vec::new();
    match e.next_task(&m, &s, ID, 0, &got, 0) {
        Some(Task::Open { record, kind, start, size }) => {
            assert_eq!(record.command_id, 0x20);
            assert_eq!(kind, ArtifactKind::Image { with_metadata: true });
            assert_eq!((start, size), (p, 4));
        }
        other => panic!("{other:?}"),
    }
    // An image that was not opened ends it.
    assert_eq!(e.next_task(&m, &s, ID, 0, &[Err("no".to_string())], 0), None);
    got.push(Ok(b"IMAGE".to_vec()));
    match e.next_task(&m, &s, ID, 0, &got, 0) {
        Some(Task::Open { kind, start, size, .. }) => {
            assert_eq!(kind, ArtifactKind::Metadata);
            assert_eq!((start, size), (p + 4, 4));
        }
        other => panic!("{other:?}"),
    }
    got.push(Ok(b"META".to_vec()));
    // The stored image 0x30 is a stream; 0x99 is a file.
    match e.next_task(&m, &s, ID, 0, &got, 0) {
        Some(Task::Store { record, start, end }) => {
            assert_eq!(record.command_id, 0x99);
            assert_eq!(&s[start..end], b"plan");
        }
        other => panic!("{other:?}"),
    }
    assert_eq!(e.next_task(&m, &s, ID, 0, &got, 1), None);
    let decoded = gather(&m, &s, ID, got);
    assert_eq!(decoded.len(), 3);
    assert_eq!(decoded[0].image, Ok(b"IMAGE".to_vec()));
    assert_eq!(decoded[0].metadata, Ok(b"META".to_vec()));
    assert_eq!(decoded[2].image, Err("not opened".to_string()));
    e.extract_stream(&m, &s, ID, 0, None, None, &config(), &decoded).unwrap();
    // A stream that was met before has nothing to do.
    assert_eq!(e.next_task(&m, &s, ID, 1, &[], 0), None);
    assert_eq!(e.next_task(&m, &[0; 4], 5, 0, &[], 0), None);
    assert!(gather(&m, &[0; 4], 5, vec![Ok(vec![1])]).is_empty());
}

#[test]
fn conflicting_modules_leave_nothing_to_do() {
    let m = identity();
    let p = at(3);
    let s = stream_of(
        ID,
        &[
            [0x20, 0, p, 4, 0, 0, 0x20, 0, 0],
            [0x20, 0, p + 4, 4, 0, 0, 0x20, 0, 0],
            [0x21, 0, p + 8, 4, 0, 0, 0x21, 0, 0],
        ],
        b"aaaabbbbcccc",
    );
    let e = Extractor::new();
    let ok = |t: &[u8]| -> Result<Vec<u8>, String> { Ok(t.to_vec()) };
    assert_eq!(e.next_task(&m, &s, ID, 0, &[ok(b"A"), ok(b"B")], 0), None);
    assert!(matches!(
        e.next_task(&m, &s, ID, 0, &[ok(b"A"), ok(b"A")], 0),
        Some(Task::Open { start, .. }) if start == p as usize + 8
    ));
    assert_eq!(e.next_task(&m, &s, ID, 0, &[ok(b"A"), ok(b"A"), ok(b"C")], 0), None);
}
