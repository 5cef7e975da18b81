use senbei::metadata::discover::discover_method_token_seeds;
use senbei::metadata::error::Error;
use senbei::metadata::is_metadata;
use senbei::metadata::restore::{
    restore_method_tokens, DEFAULT_METHOD_TOKEN_SEED, METHOD_TOKEN_TABLE,
};
use senbei::metadata::rid::decrypt_rid;

const MAGIC: u32 = 0xFAB1_1BAF;
const SUPPORTED_V29: u32 = 29;
const SUPPORTED_V31: u32 = 31;
const HDR_METHODS: usize = 0x30;
const HDR_TYPES: usize = 0xa0;
const HDR_IMAGES: usize = 0xa8;
const TYPE_STRIDE: usize = 0x58;
const TYPE_METHOD_START_OFFSET: usize = 0x24;
const TYPE_METHOD_COUNT_OFFSET: usize = 0x40;
const IMAGE_STRIDE: usize = 0x28;
const IMAGE_TYPE_START_OFFSET: usize = 0x08;
const IMAGE_TYPE_COUNT_OFFSET: usize = 0x0c;
const METHOD_STRIDE: usize = 0x24;
const METHOD_TOKEN_OFFSET: usize = 0x18;
const V39_METHODS: usize = 5;
const V39_PARAMETERS: usize = 10;
const V39_GENERIC_CONTAINERS: usize = 14;
const V39_INTERFACE_OFFSETS: usize = 18;
const V39_TYPES: usize = 19;
const V39_IMAGES: usize = 20;

fn put_u16(data: &mut [u8], offset: usize, value: u16) {
    data[offset..offset + 2].copy_from_slice(&value.to_le_bytes());
}

fn put_u32(data: &mut [u8], offset: usize, value: u32) {
    data[offset..offset + 4].copy_from_slice(&value.to_le_bytes());
}

fn read_u32(data: &[u8], offset: usize) -> Option<u32> {
    let b = data.get(offset..offset + 4)?;
    Some(u32::from_le_bytes([b[0], b[1], b[2], b[3]]))
}

fn encrypted_rid(expected: u32, count: u32, seed: u32) -> u32 {
    (1..=count)
        .find(|&candidate| decrypt_rid(candidate, 1, count, seed) == Ok(expected))
        .expect("inverse permutation must be bijective")
}

fn build(tokens: &[u32]) -> (Vec<u8>, usize) {
    let header_size = 0x100;
    let images = header_size;
    let types = images + IMAGE_STRIDE;
    let methods = types + 2 * TYPE_STRIDE;
    let mut data = vec![0_u8; methods + tokens.len() * METHOD_STRIDE];
    put_u32(&mut data, 0, MAGIC);
    put_u32(&mut data, 4, SUPPORTED_V31);
    put_u32(&mut data, HDR_METHODS, methods as u32);
    put_u32(
        &mut data,
        HDR_METHODS + 4,
        (tokens.len() * METHOD_STRIDE) as u32,
    );
    put_u32(&mut data, HDR_TYPES, types as u32);
    put_u32(&mut data, HDR_TYPES + 4, (2 * TYPE_STRIDE) as u32);
    put_u32(&mut data, HDR_IMAGES, images as u32);
    put_u32(&mut data, HDR_IMAGES + 4, IMAGE_STRIDE as u32);
    put_u32(&mut data, images + IMAGE_TYPE_START_OFFSET, 0);
    put_u32(&mut data, images + IMAGE_TYPE_COUNT_OFFSET, 2);
    // Deliberately traverse the high method indices first.
    put_u32(&mut data, types + TYPE_METHOD_START_OFFSET, 4);
    put_u16(&mut data, types + TYPE_METHOD_COUNT_OFFSET, 3);
    put_u32(&mut data, types + TYPE_STRIDE + TYPE_METHOD_START_OFFSET, 0);
    put_u16(&mut data, types + TYPE_STRIDE + TYPE_METHOD_COUNT_OFFSET, 4);
    for (index, &token) in tokens.iter().enumerate() {
        put_u32(
            &mut data,
            methods + index * METHOD_STRIDE + METHOD_TOKEN_OFFSET,
            token,
        );
    }
    (data, methods)
}

fn enciphered_tokens() -> Vec<u32> {
    (1..=7)
        .map(|expected| METHOD_TOKEN_TABLE | encrypted_rid(expected, 7, DEFAULT_METHOD_TOKEN_SEED))
        .collect::<Vec<_>>()
}

#[test]
fn restores_five_round_permutation_by_physical_method_index() {
    let tokens = enciphered_tokens();
    let (data, methods) = build(&tokens);
    let (restored, report) =
        restore_method_tokens(&data, DEFAULT_METHOD_TOKEN_SEED).expect("restore");
    assert_eq!(report.encryption_status, "encrypted");
    assert!(report.changed_tokens > 0);
    assert_eq!(report.correct_after, 7);
    for index in 0..7 {
        assert_eq!(
            read_u32(
                &restored,
                methods + index * METHOD_STRIDE + METHOD_TOKEN_OFFSET
            )
            .expect("token"),
            METHOD_TOKEN_TABLE | (index as u32 + 1)
        );
    }
}

#[test]
fn restores_v29_method_tokens_with_legacy_method_layout() {
    let method_stride = 0x20;
    let method_token_offset = 0x14;
    let hdr = 0x100usize;
    let images = hdr;
    let types = images + IMAGE_STRIDE;
    let methods = types + 2 * TYPE_STRIDE;
    let mut data = vec![0_u8; methods + 7 * method_stride];
    put_u32(&mut data, 0, MAGIC);
    put_u32(&mut data, 4, SUPPORTED_V29);
    put_u32(&mut data, HDR_METHODS, methods as u32);
    put_u32(&mut data, HDR_METHODS + 4, (7 * method_stride) as u32);
    put_u32(&mut data, HDR_TYPES, types as u32);
    put_u32(&mut data, HDR_TYPES + 4, (2 * TYPE_STRIDE) as u32);
    put_u32(&mut data, HDR_IMAGES, images as u32);
    put_u32(&mut data, HDR_IMAGES + 4, IMAGE_STRIDE as u32);
    put_u32(&mut data, images + IMAGE_TYPE_START_OFFSET, 0);
    put_u32(&mut data, images + IMAGE_TYPE_COUNT_OFFSET, 2);
    put_u32(&mut data, types + TYPE_METHOD_START_OFFSET, 0);
    put_u16(&mut data, types + TYPE_METHOD_COUNT_OFFSET, 3);
    put_u32(&mut data, types + TYPE_STRIDE + TYPE_METHOD_START_OFFSET, 3);
    put_u16(&mut data, types + TYPE_STRIDE + TYPE_METHOD_COUNT_OFFSET, 4);
    for expected in 1..=7 {
        let encrypted = encrypted_rid(expected, 7, DEFAULT_METHOD_TOKEN_SEED);
        put_u32(
            &mut data,
            methods + (expected as usize - 1) * method_stride + method_token_offset,
            METHOD_TOKEN_TABLE | encrypted,
        );
    }
    let (restored, report) =
        restore_method_tokens(&data, DEFAULT_METHOD_TOKEN_SEED).expect("v29 restore");
    assert_eq!(report.version, SUPPORTED_V29);
    assert_eq!(report.changed_tokens, 7);
    for expected in 1..=7 {
        let offset = methods + (expected as usize - 1) * method_stride + method_token_offset;
        assert_eq!(
            read_u32(&restored, offset).unwrap(),
            METHOD_TOKEN_TABLE | expected
        );
    }
}

#[test]
fn clean_metadata_is_idempotent() {
    let tokens = (1..=7)
        .map(|rid| METHOD_TOKEN_TABLE | rid)
        .collect::<Vec<_>>();
    let (data, _) = build(&tokens);
    let (restored, report) =
        restore_method_tokens(&data, DEFAULT_METHOD_TOKEN_SEED).expect("restore");
    assert_eq!(report.encryption_status, "clean");
    assert_eq!(report.changed_tokens, 0);
    assert_eq!(restored, data);
}

#[test]
fn encrypted_metadata_rejects_the_wrong_seed() {
    let tokens = enciphered_tokens();
    let (data, _) = build(&tokens);
    let wrong_seed = DEFAULT_METHOD_TOKEN_SEED.wrapping_add(1);

    assert!(matches!(
        restore_method_tokens(&data, wrong_seed),
        Err(Error::Validation(_))
    ));
}

#[test]
fn restores_compact_v39_method_tokens_without_touching_other_fields() {
    let method_stride = 25;
    let type_stride = 75;
    let image_stride = 34;
    let method_offset = 0x400;
    let type_offset = 0x600;
    let image_offset = 0x700;
    let method_count = 7_u32;
    let mut data = vec![0_u8; image_offset + image_stride];
    put_u32(&mut data, 0, MAGIC);
    put_u32(&mut data, 4, 39);
    let section = |data: &mut [u8], index: usize, offset: usize, size: usize, count: usize| {
        let header = 8 + index * 12;
        put_u32(data, header, offset as u32);
        put_u32(data, header + 4, size as u32);
        put_u32(data, header + 8, count as u32);
    };
    section(
        &mut data,
        V39_METHODS,
        method_offset,
        method_stride * method_count as usize,
        method_count as usize,
    );
    section(&mut data, V39_PARAMETERS, 0x300, 1, 1);
    section(&mut data, V39_GENERIC_CONTAINERS, 0x320, 1, 1);
    section(&mut data, V39_INTERFACE_OFFSETS, 0x340, 6, 1);
    section(&mut data, V39_TYPES, type_offset, type_stride, 1);
    section(&mut data, V39_IMAGES, image_offset, image_stride, 1);
    data.resize(image_offset + image_stride, 0);
    // Compact v39 type definition: firstMethod at offset 23, methodCount at 51.
    put_u32(&mut data, type_offset + 23, 0);
    put_u16(&mut data, type_offset + 51, method_count as u16);
    // Compact v39 image definition: firstTypeIndex (one byte) and typeCount.
    data[image_offset + 8] = 0;
    put_u32(&mut data, image_offset + 9, 1);
    for expected in 1..=method_count {
        let token = METHOD_TOKEN_TABLE
            | encrypted_rid(expected, method_count, DEFAULT_METHOD_TOKEN_SEED);
        put_u32(
            &mut data,
            method_offset + (expected as usize - 1) * method_stride + 13,
            token,
        );
    }
    let (out, report) =
        restore_method_tokens(&data, DEFAULT_METHOD_TOKEN_SEED).expect("v39 restore");
    assert_eq!(report.version, 39);
    assert_eq!(report.changed_tokens, method_count as usize);
    for expected in 1..=method_count {
        let offset = method_offset + (expected as usize - 1) * method_stride + 13;
        assert_eq!(
            read_u32(&out, offset).unwrap(),
            METHOD_TOKEN_TABLE | expected
        );
    }
    let discovery = discover_method_token_seeds(&data).expect("v39 discovery");
    assert_eq!(discovery.version, 39);
    assert!(discovery.seed_candidates.is_empty());
}

#[test]
fn only_token_words_change() {
    let (data, methods) = build(&enciphered_tokens());
    let (restored, _) = restore_method_tokens(&data, DEFAULT_METHOD_TOKEN_SEED).unwrap();
    assert_eq!(restored.len(), data.len());
    for i in 0..data.len() {
        let in_token = i >= methods
            && (i - methods) % METHOD_STRIDE >= METHOD_TOKEN_OFFSET
            && (i - methods) % METHOD_STRIDE < METHOD_TOKEN_OFFSET + 4;
        assert!(in_token || restored[i] == data[i], "byte {i}");
    }
}

#[test]
fn restoring_twice_is_restoring_once() {
    let (data, _) = build(&enciphered_tokens());
    let (once, _) = restore_method_tokens(&data, DEFAULT_METHOD_TOKEN_SEED).unwrap();
    let (twice, report) = restore_method_tokens(&once, DEFAULT_METHOD_TOKEN_SEED).unwrap();
    assert_eq!(once, twice);
    assert_eq!(report.encryption_status, "clean");
    assert_eq!(report.changed_tokens, 0);
    assert_eq!(report.transformed_images, 0);
}

#[test]
fn reports_add_up() {
    let (data, _) = build(&enciphered_tokens());
    let (_, report) = restore_method_tokens(&data, DEFAULT_METHOD_TOKEN_SEED).unwrap();
    let kept = (1..=7)
        .filter(|&rid| encrypted_rid(rid, 7, DEFAULT_METHOD_TOKEN_SEED) == rid)
        .count();
    assert_eq!(report.methods, 7);
    assert_eq!(report.visited_methods, 7);
    assert_eq!(report.correct_after, 7);
    assert_eq!(report.already_correct_before, kept);
    assert_eq!(report.changed_tokens, 7 - kept);
    assert_eq!(report.transformed_images, 1);
}

#[test]
fn numbers_that_are_no_permutation_are_refused() {
    let mut tokens = enciphered_tokens();
    tokens[0] = tokens[1];
    let (data, _) = build(&tokens);
    assert!(restore_method_tokens(&data, DEFAULT_METHOD_TOKEN_SEED).is_err());
    let shifted: Vec<u32> = (2..=8).map(|rid| METHOD_TOKEN_TABLE | rid).collect();
    let (data, _) = build(&shifted);
    assert!(restore_method_tokens(&data, DEFAULT_METHOD_TOKEN_SEED).is_err());
}

#[test]
fn restoring_seed_is_among_the_residues() {
    let count = 4099u32;
    let mut tokens = vec![0u32; count as usize];
    for rid in 1..=count {
        let plain = decrypt_rid(rid, 1, count, DEFAULT_METHOD_TOKEN_SEED).unwrap();
        tokens[plain as usize - 1] = METHOD_TOKEN_TABLE | rid;
    }
    let (mut data, _) = build(&tokens);
    let types = 0x100 + IMAGE_STRIDE;
    put_u16(&mut data, types + TYPE_METHOD_COUNT_OFFSET, count as u16 - 4);
    let found = discover_method_token_seeds(&data).unwrap();
    assert_eq!(found.version, 31);
    assert_eq!(found.images.len(), 1);
    let image = &found.images[0];
    assert!(!image.clean);
    assert_eq!(image.method_count, count);
    assert_eq!(image.modulus, 2049);
    let residue = DEFAULT_METHOD_TOKEN_SEED % image.modulus;
    assert!(image.seed_residues.contains(&residue));
    assert!(found.seed_candidates.contains(&DEFAULT_METHOD_TOKEN_SEED));
    assert!(found.seed_candidates.contains(&residue));
    assert!(!found.seed_candidates.contains(&(residue + 1)));
    assert!(found.seed_candidates.windows(2).all(|w| w[0] < w[1]));
    let (restored, _) = restore_method_tokens(&data, residue).unwrap();
    let (same, _) = restore_method_tokens(&data, DEFAULT_METHOD_TOKEN_SEED).unwrap();
    assert_eq!(restored, same);
}

#[test]
fn other_files_are_no_metadata() {
    assert!(!is_metadata(&[0xAF, 0x1B, 0xB1]));
    assert!(is_metadata(&[0xAF, 0x1B, 0xB1, 0xFA]));
    assert_eq!(
        restore_method_tokens(&[0u8; 16], 1).unwrap_err(),
        Error::NotMetadata
    );
    let mut data = vec![0u8; 0x200];
    put_u32(&mut data, 0, MAGIC);
    put_u32(&mut data, 4, 77);
    let error = restore_method_tokens(&data, 1).unwrap_err();
    assert_eq!(error, Error::UnsupportedVersion(77));
    assert_eq!(error.to_string(), "unsupported metadata version 77");
    put_u32(&mut data, 4, 31);
    put_u32(&mut data, HDR_METHODS, 0xFFFF_0000);
    assert!(matches!(
        restore_method_tokens(&data, 1),
        Err(Error::Malformed(_))
    ));
}

#[test]
fn numbers_are_deciphered_inside_an_interval_alone() {
    for (rid, low, high) in [(0, 1, 7), (5, 5, 5), (5, 9, 7), (5, 1, u32::MAX)] {
        assert!(matches!(
            decrypt_rid(rid, low, high, 3),
            Err(Error::Validation(_))
        ));
    }
    let mut seen = vec![false; 8];
    for rid in 1..=7 {
        seen[decrypt_rid(rid, 1, 7, 12345).unwrap() as usize] = true;
    }
    assert!(seen[1..].iter().all(|&b| b));
}
