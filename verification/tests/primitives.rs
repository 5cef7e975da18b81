use senbei::aes::{aes_decrypt, aes_decrypt_ks, aes_schedule_snapshot, INV_SBOX};
use senbei::bytes::{
    get_u16, get_u32, get_u64, try_copy_from_slice, try_i32, try_u32, write_u16, write_u32,
};
use senbei::ciphers::{
    calculate_checksum, calculate_checksum2, decrypt_data3, decrypt_data6, decrypt_data7,
    lfsr_keystream,
};
use senbei::crc32;
use senbei::error::{
    BufferOperation, BytecodeStage, DecompressionFailure, DecompressionStage, DescriptorTable,
    Error, SectionPipeline, UnpackError,
};
use senbei::huffman::{decompress, decompress_detailed, decompress_tbl, huffman_table_snapshot};
use senbei::payload::decrypt_and_decompress_data;

#[test]
fn checked_copy_distinguishes_source_and_destination_ranges() {
    let mut short_destination = [0u8; 2];
    let source = [1u8; 4];
    let error = try_copy_from_slice(&mut short_destination, 0, 3, &source, 0)
        .expect_err("destination must be rejected");
    assert!(matches!(
        error,
        Error::BufferRangeOutOfBounds {
            operation: BufferOperation::CopyDestination,
            offset: 0,
            size: 3,
            buffer_len: 2,
        }
    ));

    let mut destination = [0u8; 4];
    let short_source = [1u8; 2];
    let error = try_copy_from_slice(&mut destination, 0, 3, &short_source, 0)
        .expect_err("source must be rejected");
    assert!(matches!(
        error,
        Error::BufferRangeOutOfBounds {
            operation: BufferOperation::CopySource,
            offset: 0,
            size: 3,
            buffer_len: 2,
        }
    ));
}

#[test]
fn aes_ks_variant_matches_single_buffer() {
    let ko: usize = 0x40;
    let mut d = vec![0u8; 0x400];
    let mut x: u32 = 0x12345678;
    for b in d.iter_mut() {
        x = x.wrapping_mul(1664525).wrapping_add(1013904223);
        *b = (x >> 24) as u8;
    }
    d[ko + 2] = 10; // round count = 10
    d[ko + 3] = 0;
    let snap = aes_schedule_snapshot(&d, ko as u32).expect("snapshot");

    let mut a = d.clone();
    aes_decrypt(&mut a, 0x100, 0x80, ko as u32);
    let mut b = d.clone();
    aes_decrypt_ks(&snap, &mut b, 0x100, 0x80);
    if a != b {
        let idx = (0..a.len()).find(|&i| a[i] != b[i]).unwrap();
        panic!(
            "first diff at {idx:#x}: a={:02x} b={:02x}\n a[..]: {:02x?}\n b[..]: {:02x?}",
            a[idx],
            b[idx],
            &a[idx..idx + 16],
            &b[idx..idx + 16]
        );
    }
    assert_ne!(a, d);
}

#[test]
fn dtbl_variant_matches_single_buffer() {
    let ko: usize = 0x100;
    let mut d = vec![0u8; 0x1000];
    for e in 0..256usize {
        let off = ko + e * 3;
        let sym = 0x8000u16 | (e as u16 & 0xFF); // terminal, mode 0, payload=e
        d[off] = (sym & 0xFF) as u8;
        d[off + 1] = (sym >> 8) as u8;
        d[off + 2] = 8; // 8 bits per symbol
    }
    let src = 0x600u32;
    for i in 0..16u32 {
        d[(src + i) as usize] = i as u8;
    }
    let snap = huffman_table_snapshot(&d, ko as u32).expect("table snapshot");

    let mut a = vec![0u8; 0x1000];
    a[..d.len()].copy_from_slice(&d);
    assert!(decompress(&mut a, src, 0x800, ko as u32, 16, 16));
    let mut b = d.clone();
    assert!(decompress_tbl(&snap, &mut b, src, 0x800, 16, 16));
    assert_eq!(&a[0x800..0x810], &b[0x800..0x810]);
    assert_eq!(&b[0x800..0x810], &(0u8..16).collect::<Vec<_>>()[..]);
}

#[test]
fn decompress_rejects_unknown_run_fill_width() {
    let mut d = vec![0u8; 0x100];
    let sym: u16 = 0x8000 | 0x203;
    d[0..2].copy_from_slice(&sym.to_le_bytes());
    d[2] = 8;
    assert_eq!(
        decompress_detailed(&mut d, 0x40, 0x80, 0, 4, 3),
        Err(DecompressionFailure::InvalidRunFillWidth { width: 3 })
    );
}

#[test]
fn decompress_accepts_width1_run_fill() {
    let mut d = vec![0u8; 0x100];
    d[0x7F] = 0x5A; // unit to replicate
    let sym: u16 = 0x8000 | 0x201;
    d[0..2].copy_from_slice(&sym.to_le_bytes());
    d[2] = 8;
    assert!(decompress(&mut d, 0x40, 0x80, 0, 4, 3));
    assert_eq!(&d[0x80..0x83], &[0x5A, 0x5A, 0x5A]);
}

#[test]
fn checksum2_rejects_source_range_outside_clean_image() {
    let mut descriptor = [0u8; 8];
    descriptor[0..4].copy_from_slice(&448u32.to_le_bytes());
    descriptor[4..8].copy_from_slice(&634_432u32.to_le_bytes());
    let clean = vec![0u8; 590_896];
    let error = calculate_checksum2(&descriptor, &clean, 0, 0).expect_err("range must fail");
    assert!(matches!(
        error,
        Error::BufferRangeOutOfBounds {
            operation: BufferOperation::Read,
            offset: 448,
            size: 634_432,
            buffer_len: 590_896,
        }
    ));
}

#[test]
fn structured_errors_include_stage_and_block_context() {
    let stage = UnpackError::StageDecompressionFailed {
        stage: DecompressionStage::ExeStage4,
        reason: DecompressionFailure::NoProgress,
    };
    assert_eq!(
        stage.to_string(),
        "EXE stage4 decompression failed: Huffman symbol consumed no input and produced no output"
    );

    let block = UnpackError::SectionDecompressionFailed {
        pipeline: SectionPipeline::ExePe32,
        block: 7,
    };
    assert_eq!(
        block.to_string(),
        "PE32 EXE section block 7 decompression failed"
    );
}

#[test]
fn messages_carry_their_numbers() {
    assert_eq!(
        UnpackError::InputTooShort { actual: 10, required: 4128 }.to_string(),
        "input too short (need at least 4128 bytes, got 10)"
    );
    assert_eq!(
        UnpackError::HeaderMagicMismatch { found: 0xAB }.to_string(),
        "decrypted header magic mismatch (got 0x000000AB)"
    );
    assert_eq!(
        UnpackError::InvalidImageSize { size: -5, max: 9 }.to_string(),
        "invalid SizeOfImage -5; expected 1..=9"
    );
    assert_eq!(
        UnpackError::InvalidImageSize { size: i64::MIN, max: 0 }.to_string(),
        "invalid SizeOfImage -9223372036854775808; expected 1..=0"
    );
    assert_eq!(
        UnpackError::BytecodeGenerationFailed(BytecodeStage::Pe32FileDecryptor).to_string(),
        "PE32 file decryptor bytecode generation failed — corrupt data or wrong offset"
    );
    assert_eq!(
        UnpackError::DescriptorOutOfBounds {
            table: DescriptorTable::DllZeroFill,
            offset: 3,
            image_len: 4,
        }
        .to_string(),
        "DLL zero-fill descriptor out of bounds (offset 3, size 16, image length 4)"
    );
    assert_eq!(
        UnpackError::PipelineFallbackFailed {
            dll: Box::new(UnpackError::AnchorNotFound),
            exe: Box::new(UnpackError::NotCrackproof),
        }
        .to_string(),
        "DLL pipeline failed: anchor field not found — corrupt data or wrong offset; \
         EXE fallback failed: not a Crackproof-protected file"
    );
    assert_eq!(
        UnpackError::UnsupportedDllPeMagic { found: 0x10B }.to_string(),
        "DLL pipeline requires PE32+ optional-header magic, got 0x010B"
    );
    assert_eq!(
        UnpackError::InternalPanic {
            message: "index out of bounds".to_string(),
            file: "src/codec.rs".to_string(),
            line: 12,
            column: 5,
        }
        .to_string(),
        "internal panic at src/codec.rs:12:5: index out of bounds"
    );
}

#[test]
fn range_errors_become_unpack_errors() {
    let e = Error::BufferRangeOutOfBounds {
        operation: BufferOperation::Read,
        offset: 1,
        size: 2,
        buffer_len: 3,
    };
    assert_eq!(
        UnpackError::from(e),
        UnpackError::BufferRangeOutOfBounds {
            operation: BufferOperation::Read,
            offset: 1,
            size: 2,
            buffer_len: 3,
        }
    );
}

#[test]
fn words_are_little_endian() {
    let mut d = vec![0u8; 16];
    write_u32(&mut d, 1, 0x1234_5678);
    assert_eq!(&d[1..5], &[0x78, 0x56, 0x34, 0x12]);
    write_u16(&mut d, 6, 0xABCD_EF01);
    assert_eq!(&d[6..8], &[0x01, 0xEF]);
    assert_eq!(get_u32(&d, 1), 0x1234_5678);
    assert_eq!(get_u16(&d, 6), 0xEF01);
    assert_eq!(get_u64(&d, 1), 0x00EF_0100_1234_5678);
    assert_eq!(try_u32(&d, 1), Ok(0x1234_5678));
    assert!(try_u32(&d, 13).is_err());
    assert_eq!(try_i32(&[0xff, 0xff, 0xff, 0xff], 0), Ok(-1));
    assert!(try_u32(&d, usize::MAX).is_err());
}

#[test]
fn copy_moves_exactly_the_bytes_asked_for() {
    let mut d = [0u8; 6];
    try_copy_from_slice(&mut d, 2, 3, &[9, 8, 7, 6, 5], 1).unwrap();
    assert_eq!(d, [0, 0, 8, 7, 6, 0]);
}

#[test]
fn crc_has_its_check_value_and_chains() {
    assert_eq!(crc32::compute(b"123456789"), 0xCBF4_3926);
    let first = crc32::compute(b"12345");
    assert_eq!(crc32::append(first, b"6789"), 0xCBF4_3926);
}

#[test]
fn block_cipher_undoes_itself() {
    let mut d: Vec<u8> = (0..=255u8).collect();
    d[0x10 + 95] = 0x40;
    let before = d.clone();
    decrypt_data6(&mut d, 0x10);
    assert_ne!(d, before);
    decrypt_data6(&mut d, 0x10);
    assert_eq!(d, before);
}

#[test]
fn checksum_covers_the_named_bytes() {
    let mut d = vec![0u8; 32];
    d[0..4].copy_from_slice(&8u32.to_le_bytes());
    d[4..8].copy_from_slice(&9u32.to_le_bytes());
    d[8..17].copy_from_slice(b"123456789");
    assert_eq!(calculate_checksum2(&d, &d, 0, 0), Ok(0xCBF4_3926));
    assert_eq!(calculate_checksum(&d, 0), 0xCBF4_3926 ^ 9);
}

#[test]
fn keystream_does_not_depend_on_its_length() {
    let mut long = [0u8; 64];
    let mut short = [0u8; 16];
    lfsr_keystream(&mut long);
    lfsr_keystream(&mut short);
    assert_eq!(&long[..16], &short[..]);
    assert!(long.iter().any(|&b| b != 0));
}

#[test]
fn huffman_failures_are_told_apart() {
    // A symbol without bits makes no progress or has no valid length.
    let mut d = vec![0u8; 0x100];
    assert!(decompress_detailed(&mut d, 0x40, 0x80, 0, 4, 3).is_err());
    assert_eq!(
        decompress_detailed(&mut d, 0x40, 0x80, 0, 0x4000_0001, 3),
        Err(DecompressionFailure::SourceTooLarge { size: 0x4000_0001, max: 0x4000_0000 })
    );
    assert!(huffman_table_snapshot(&[0u8; 4], 0).is_none());
}

fn times(a: u8, mut b: u8) -> u8 {
    let mut a = a;
    let mut p = 0;
    while b != 0 {
        if b & 1 != 0 {
            p ^= a;
        }
        a = (a << 1) ^ if a & 0x80 != 0 { 0x1B } else { 0 };
        b >>= 1;
    }
    p
}

/// The round keys of a 128-bit key, as they are used for deciphering.
fn inverse_schedule(key: &[u8; 16]) -> Vec<[u8; 16]> {
    let mut sbox = [0u8; 256];
    for (i, &v) in INV_SBOX.iter().enumerate() {
        sbox[v as usize] = i as u8;
    }
    let mut words: Vec<[u8; 4]> = key.chunks(4).map(|c| [c[0], c[1], c[2], c[3]]).collect();
    let mut constant = 1u8;
    for i in 4..44 {
        let mut t = words[i - 1];
        if i % 4 == 0 {
            t = [t[1], t[2], t[3], t[0]].map(|b| sbox[b as usize]);
            t[0] ^= constant;
            constant = times(constant, 2);
        }
        let w = words[i - 4];
        words.push([w[0] ^ t[0], w[1] ^ t[1], w[2] ^ t[2], w[3] ^ t[3]]);
    }
    let mut keys = Vec::new();
    for round in (0..11).rev() {
        let mut key = [0u8; 16];
        for c in 0..4 {
            let w = words[round * 4 + c];
            let mixed = if round == 0 || round == 10 {
                w
            } else {
                let f = [14u8, 11, 13, 9];
                let mut m = [0u8; 4];
                for r in 0..4 {
                    for k in 0..4 {
                        m[r] ^= times(w[k], f[(k + 4 - r) % 4]);
                    }
                }
                m
            };
            key[c * 4..c * 4 + 4].copy_from_slice(&mixed);
        }
        keys.push(key);
    }
    keys
}

#[test]
fn block_of_the_standard_is_deciphered() {
    let key: [u8; 16] = std::array::from_fn(|i| i as u8);
    let mut d = vec![0u8; 0x200];
    d[2] = 10;
    for (r, k) in inverse_schedule(&key).iter().enumerate() {
        for c in 0..4 {
            let w = u32::from_be_bytes([k[c * 4], k[c * 4 + 1], k[c * 4 + 2], k[c * 4 + 3]]);
            write_u32(&mut d, (4 + r * 16 + c * 4) as u32, w);
        }
    }
    let cipher = [
        0x69, 0xC4, 0xE0, 0xD8, 0x6A, 0x7B, 0x04, 0x30, 0xD8, 0xCD, 0xB7, 0x80, 0x70, 0xB4, 0xC5,
        0x5A,
    ];
    let plain: Vec<u8> = (0..16).map(|i| i * 0x11).collect();
    d[0x100..0x110].copy_from_slice(&cipher);
    d[0x110..0x120].copy_from_slice(&cipher);
    aes_decrypt(&mut d, 0x100, 0x20, 0);
    assert_eq!(&d[0x100..0x110], &plain[..]);
    // The second block is chained to the first.
    let chained: Vec<u8> = plain.iter().zip(cipher).map(|(a, b)| a ^ b).collect();
    assert_eq!(&d[0x110..0x120], &chained[..]);
}

#[test]
fn words_and_strings_are_deciphered() {
    let mut d = vec![0u8; 0x40];
    write_u32(&mut d, 0, 0x20);
    write_u32(&mut d, 4, 11);
    let key = 0x1234_5678u32;
    let plain = [0xDEAD_BEEFu32, 0x0BAD_CAFE];
    write_u32(&mut d, 0x20, plain[0].rotate_left(19) ^ key);
    write_u32(&mut d, 0x24, plain[1].wrapping_add(1).rotate_left(19) ^ key);
    write_u32(&mut d, 0x28, 77);
    decrypt_data3(&mut d, 0, key, 19);
    assert_eq!(get_u32(&d, 0x20), plain[0]);
    assert_eq!(get_u32(&d, 0x24), plain[1]);
    assert_eq!(get_u32(&d, 0x28), 77);

    let name = b"kernel32.dll";
    let mut key = 0x21u8;
    let mut text = Vec::new();
    for &c in name {
        text.push(c.wrapping_add(key).rotate_left(4));
        key = key.wrapping_add(67);
    }
    assert!(text.iter().all(|&b| b != 0));
    text.extend_from_slice(&[0, 1, 2]);
    decrypt_data7(&mut text, 0, 0x21);
    assert_eq!(&text[..12], name);
    assert_eq!(&text[12..], &[0, 1, 2]);
}

#[test]
fn payload_of_equal_lengths_is_not_expanded() {
    // A schedule without rounds at 0x40, a descriptor at 0 and eight bytes at 0x80.
    let mut d = vec![0u8; 0x100];
    for (i, v) in [0x80u32, 8, 0xC0, 8].into_iter().enumerate() {
        write_u32(&mut d, (i * 4) as u32, v);
    }
    write_u32(&mut d, 0x80, 5u32.rotate_left(19) ^ 9);
    write_u32(&mut d, 0x84, 7u32.rotate_left(19) ^ 9);
    assert!(decrypt_and_decompress_data(&mut d, 0, 9, 0, 0x40, None));
    assert_eq!(get_u32(&d, 0x80), 5);
    assert_eq!(get_u32(&d, 0x84), 6);
    assert_eq!(get_u32(&d, 0xC0), 0);
}
