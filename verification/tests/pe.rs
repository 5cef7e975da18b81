use senbei::bytes::{write_u16, write_u32};
use senbei::ciphers::lfsr_keystream;
use senbei::error::{SectionPipeline, UnpackError};
use senbei::pe::blocks::{are_apart, place_blocks};
use senbei::pe::compact::compact_memory_image_to_pe;
use senbei::pe::dd8::{select_dd8_formula_pe32, select_dd8_shift};
use senbei::pe::discovery::{
    discover_eighth_slots, find_bytecode_offset, find_str_pos, get_string_to_null, section_name,
};
use senbei::pe::format::{
    characteristics, data_directory, parse, rva_range, rva_to_offset, sections, Error, Headers,
};
use senbei::pe::integrity::check;
use senbei::pe::output32::{move_pe32_imports_to_kmiat, pe32_imports_already_match_idata_layout};
use senbei::pe::pipeline::{unpack, unpack_v};
use senbei::pe::stage::Record;

fn entry_stub_fixture() -> Vec<u8> {
    let mut data = vec![0u8; 0x5000];
    data[0x3C..0x40].copy_from_slice(&0x100u32.to_le_bytes());
    data[0x128..0x12C].copy_from_slice(&0x1264u32.to_le_bytes());
    data[0x1264..0x1276].copy_from_slice(&[
        0x48, 0x83, 0xEC, 0x28, 0xE8, 0x5B, 0x02, 0x00, 0x00, 0x48, 0x83, 0xC4, 0x28, 0xE9,
        0x7A, 0xFE, 0xFF, 0xFF,
    ]);
    data
}

fn apply_dd8_page(data: &mut [u8], page_rva: u32, shift: u32) {
    let mut key = (page_rva >> 12) << shift;
    for index in 0..256u32 {
        let mixed = key.rotate_right(15).wrapping_add(index);
        key = mixed.wrapping_add(index);
        if index == 0 {
            continue;
        }
        let target = page_rva.wrapping_add(index << 4).wrapping_add(mixed & 0xF) as usize;
        data[target] ^= key as u8;
    }
}

#[test]
fn entry_stub_selects_plaintext_and_both_dd8_shifts() {
    let plain = entry_stub_fixture();
    assert_eq!(select_dd8_shift(&plain, 0x1000, 0x4000, 0), 99);

    for expected in [0u32, 15] {
        let mut encrypted = plain.clone();
        apply_dd8_page(&mut encrypted, 0x1000, expected);
        assert_eq!(select_dd8_shift(&encrypted, 0x1000, 0x4000, 0), expected);
    }
}

fn seed_dd8_int3(data: &mut [u8], text_off: u32, pages: &[u32], count: u32) {
    for &sp in pages {
        let pg_off = (text_off + sp * 0x1000) as usize;
        let mut k = sp.wrapping_add(1);
        k = k.rotate_right(15);
        let mut planted = 0u32;
        for bi in 1..256u32 {
            let ri = k.rotate_right(15).wrapping_add(bi);
            k = ri.wrapping_add(bi);
            if planted >= count {
                continue;
            }
            let ct = 0xCCu8 ^ (k as u8);
            if ct == 0xCC {
                continue;
            }
            let tidx = (bi.wrapping_mul(16).wrapping_add(ri & 0xF)) as usize;
            data[pg_off + tidx] = ct;
            planted += 1;
        }
    }
}

#[test]
fn pe32_dd8_skips_text_whose_gain_is_only_noise_sized() {
    let text_off: u32 = 0x1000;
    let text_size: u32 = 8 * 0x1000;
    let mut data = vec![0u8; (text_off + text_size) as usize];
    seed_dd8_int3(&mut data, text_off, &[2, 4, 6], 5);
    assert!(
        !data.contains(&0xCC),
        "fixture must have a zero 0xCC baseline"
    );
    assert_eq!(
        select_dd8_formula_pe32(&data, text_off, text_size),
        None,
        "a gain this small is indistinguishable from dd8's own noise"
    );
}

#[test]
fn pe32_dd8_applies_when_padding_is_restored() {
    let text_off: u32 = 0x1000;
    let text_size: u32 = 8 * 0x1000;
    let mut data = vec![0u8; (text_off + text_size) as usize];
    seed_dd8_int3(&mut data, text_off, &[2, 4, 6], 255);
    assert_eq!(
        select_dd8_formula_pe32(&data, text_off, text_size),
        Some(false),
        "encrypted .text must be decrypted with the page+1 formula"
    );
}

#[test]
fn bytecode_locate_double_window_retry() {
    let base: u32 = 0;
    let len: u32 = 256;
    // Block sits at base + len + 16 = 272, aligned to 16.
    let block_pos: usize = (base + len + 16) as usize; // 272

    // The buffer must be large enough for the block (block_pos + 96 bytes).
    let buf_len = block_pos + 256;
    let mut buf = vec![0u8; buf_len];

    // [4, 0, 4, 0, 4, 0, 4, 0, 195]  (4 ADD-AL ops then RET)
    let count: usize = 10;
    let mut plain = [0u8; 256];
    plain[0] = 4;
    plain[1] = 0;
    plain[2] = 4;
    plain[3] = 0;
    plain[4] = 4;
    plain[5] = 0;
    plain[6] = 4;
    plain[7] = 0;
    plain[8] = 195; // ret

    let mut ks = [0u8; 256];
    lfsr_keystream(&mut ks);
    for i in 0..count {
        buf[block_pos + i] = plain[i] ^ ks[i];
    }
    // Raw count byte at block_pos+95 (outside the XOR range since count=10 < 95).
    buf[block_pos + 95] = count as u8;

    assert_eq!(
        find_bytecode_offset(&buf, base, len),
        None,
        "smaller window should not find the block"
    );

    // The doubled window should find it at block_pos.
    assert_eq!(
        find_bytecode_offset(&buf, base, len.saturating_mul(2)),
        Some(block_pos as u32),
        "doubled window should locate the block"
    );
}

#[test]
fn kmiat_bogus_section_va_bails_without_wiping_headers() {
    for last_sec_va in [0u32, 0x5000_0000] {
        let pe: u32 = 0x80;
        let mut data = vec![0xAAu8; 0x8000];
        // COFF header: 1 section, optional header size 0xE0 (PE32).
        write_u16(&mut data, pe + 6, 1);
        write_u16(&mut data, pe + 20, 0xE0);
        // Import directory at pe+0x80: one descriptor + null terminator.
        write_u32(&mut data, pe + 0x80, 0x1100);
        write_u32(&mut data, pe + 0x84, 0x28);
        write_u32(&mut data, 0x1100, 0x1200); // OFT rva
        write_u32(&mut data, 0x1100 + 12, 0x1300); // name rva
        write_u32(&mut data, 0x1100 + 16, 0x1400); // IAT rva
        for b in &mut data[0x1100 + 20..0x1100 + 40] {
            *b = 0; // null terminator descriptor
        }
        data[0x1300..0x1300 + 13].copy_from_slice(b"KERNEL32.dll\0");
        write_u32(&mut data, 0x1200, 0x1500); // thunk -> hint/name
        write_u32(&mut data, 0x1204, 0); // thunk terminator
        data[0x1500..0x1502].copy_from_slice(&0u16.to_le_bytes());
        data[0x1502..0x1502 + 12].copy_from_slice(b"ExitProcess\0");
        // Section table at pe+24+0xE0 = 0x178; VA field at +12.
        write_u32(&mut data, 0x178 + 12, last_sec_va);

        let head_before: Vec<u8> = data[..0x400].to_vec();
        let len_before = data.len();
        move_pe32_imports_to_kmiat(&mut data, pe);
        assert_eq!(
            data.len(),
            len_before,
            "VA 0x{last_sec_va:08X}: image must not grow"
        );
        assert_eq!(
            &data[..0x400],
            &head_before[..],
            "VA 0x{last_sec_va:08X}: headers must be untouched"
        );
    }
}

#[test]
fn rva_ranges_require_file_backing_for_every_byte() {
    let mut data = [0u8; 0x400];
    let headers = Headers {
        pe_offset: 0x40,
        is_pe32_plus: false,
        image_base: 0,
        size_of_image: 0x2000,
        entry_rva: 0x1000,
        sections_offset: 0x100,
        sections: 1,
    };
    for (offset, value) in [
        (0x94, 0x200u32),
        (0x108, 0x100),
        (0x10c, 0x1000),
        (0x110, 0x80),
        (0x114, 0x200),
    ] {
        data[offset..offset + 4].copy_from_slice(&value.to_le_bytes());
    }
    assert_eq!(rva_range(&data, headers, 0x1000, 0x80), Ok(0x200..0x280));
    assert_eq!(rva_range(&data, headers, 0x100, 0x100), Ok(0x100..0x200));
    for (rva, size) in [(0x1070, 0x20), (0x1080, 1), (0x1f0, 0x20), (u32::MAX, 4)] {
        assert_eq!(
            rva_range(&data, headers, rva, size),
            Err(Error::OutOfBounds)
        );
    }
}

#[test]
fn short_input_reports_actual_and_required_lengths() {
    let error = unpack(&[0; 4096], &[]).expect_err("header must be rejected");
    assert_eq!(
        error,
        UnpackError::InputTooShort {
            actual: 4096,
            required: 4128,
        }
    );
}

#[test]
fn unknown_header_magic_is_reported() {
    let error = unpack(&[0; 8192], &[0x1234_5678]).unwrap_err();
    match error {
        UnpackError::HeaderMagicMismatch { found } => {
            // The same file, with that magic known, gets further.
            let next = unpack_v(&[0; 8192], &[found], Some(0)).unwrap_err();
            assert_eq!(next, UnpackError::InvalidImageSize { size: 0, max: 0x4000_0000 });
        }
        other => panic!("{other:?}"),
    }
}

fn small_image() -> Vec<u8> {
    let mut d = vec![0u8; 0x600];
    d[0] = b'M';
    d[1] = b'Z';
    write_u32(&mut d, 0x3c, 0x80);
    d[0x80..0x84].copy_from_slice(b"PE\0\0");
    write_u16(&mut d, 0x84, 0x8664);
    write_u16(&mut d, 0x86, 1);
    write_u16(&mut d, 0x94, 0xF0);
    write_u16(&mut d, 0x96, 0x22);
    write_u16(&mut d, 0x98, 0x20B);
    write_u32(&mut d, 0x98 + 16, 0x1000);
    write_u32(&mut d, 0x98 + 24, 0x4000_0000);
    write_u32(&mut d, 0x98 + 56, 0x3000);
    write_u32(&mut d, 0x98 + 112, 0x1010);
    write_u32(&mut d, 0x98 + 116, 0x28);
    // One section: 0x1000..0x1100 at 0x200.
    write_u32(&mut d, 0x188 + 8, 0x100);
    write_u32(&mut d, 0x188 + 12, 0x1000);
    write_u32(&mut d, 0x188 + 16, 0x200);
    write_u32(&mut d, 0x188 + 20, 0x200);
    d
}

#[test]
fn headers_of_a_small_image() {
    let d = small_image();
    let h = parse(&d).unwrap();
    assert_eq!(h.pe_offset, 0x80);
    assert!(h.is_pe32_plus);
    assert_eq!(h.image_base, 0x4000_0000);
    assert_eq!(h.entry_rva, 0x1000);
    assert_eq!(h.sections, 1);
    assert_eq!(characteristics(&d, h), Ok(0x22));
    assert_eq!(data_directory(&d, h, 0), Ok((0x1010, 0x28)));
    assert_eq!(sections(&d, h).unwrap()[0].raw_offset, 0x200);
    assert_eq!(rva_to_offset(&d, h, 0x1010), Ok(0x210));
    assert_eq!(rva_to_offset(&d, h, 0x9000), Err(Error::OutOfBounds));
    assert!(parse(&d[..0x90]).is_err());
    assert!(parse(b"not a pe").is_err());
}

#[test]
fn integrity_names_what_is_missing() {
    let report = check(b"not a pe");
    assert!(!report.ok());
    assert_eq!(report.issues[0], "missing 'MZ' DOS signature");
}

#[test]
fn strings_end_at_zero_and_replace_bad_bytes() {
    let mut d = vec![0u8; 64];
    d[8..13].copy_from_slice(b".text");
    assert_eq!(section_name(&d, 8), ".text");
    d[20..24].copy_from_slice(b"ab\xffc");
    assert_eq!(get_string_to_null(&d, 20), "ab\u{fffd}c");
    assert_eq!(find_str_pos(&d, 0, 64, b"text"), Some(9));
    assert_eq!(find_str_pos(&d, 0, 64, b"none"), None);
}

#[test]
fn image_without_sections_keeps_its_headers_alone() {
    let mut d = vec![7u8; 0x1000];
    write_u16(&mut d, 0x86, 0);
    write_u16(&mut d, 0x94, 0xE0);
    let mut headers = d[..0x400].to_vec();
    write_u32(&mut headers, 0x98 + 36, 0x200);
    write_u32(&mut headers, 0x98 + 60, 0x400);
    assert_eq!(compact_memory_image_to_pe(&d, 0x80), Some(headers));
}

fn block(src: u32, dest: u32, len: u32) -> Record {
    Record { src, slen: len, dest, dlen: len }
}

#[test]
fn empty_block_sharing_a_start_is_apart() {
    assert!(are_apart(&vec![block(0, 100, 100), block(0, 100, 0)], 512));
    assert!(are_apart(&vec![block(0, 100, 0), block(0, 100, 100)], 512));
    assert!(!are_apart(&vec![block(0, 100, 100), block(0, 150, 0)], 512));
    assert!(!are_apart(&vec![block(0, 100, 100), block(0, 199, 10)], 512));
    assert!(!are_apart(&vec![block(0, 500, 13)], 512));
    assert!(are_apart(&vec![], 0));
}

/// An image with a key schedule at 0 and at 0x100 a table of one code for each byte.
fn image_with_tables() -> Vec<u8> {
    let mut image = vec![0u8; 0x600];
    for e in 0..256usize {
        let entry = 0x100 + e * 3;
        image[entry] = e as u8;
        image[entry + 1] = 0x80;
        image[entry + 2] = 8;
    }
    image
}

#[test]
fn order_of_blocks_does_not_matter() {
    let file: Vec<u8> = (0..64).collect();
    let shrinking = Record { src: 24, slen: 8, dest: 0x540, dlen: 5 };
    let blocks = [block(1, 0x508, 8), block(9, 0x510, 15), block(40, 0x4FE, 10), shrinking];
    let before = image_with_tables();
    let place = |order: &[usize]| {
        let mut image = before.clone();
        let list: Vec<Record> = order.iter().map(|&i| blocks[i]).collect();
        let kind = SectionPipeline::ExePe32;
        place_blocks(&mut image, &file, &list, 0, 0x100, 0, &[], kind).map(|()| image)
    };
    let image = place(&[0, 1, 2, 3]).unwrap();
    assert_eq!(&image[0x508..0x510], &file[1..9]);
    assert_eq!(&image[0x510..0x51F], &file[9..24]);
    assert_eq!(&image[0x4FE..0x508], &file[40..50]);
    assert_eq!(&image[0x540..0x545], &file[24..29]);
    assert_eq!(&image[..0x4FE], &before[..0x4FE]);
    assert_eq!(&image[0x548..], &before[0x548..]);
    assert_eq!(place(&[3, 2, 1, 0]).unwrap(), image);
    assert_eq!(place(&[1, 3, 2, 0]).unwrap(), image);
    let mut image = before.clone();
    let outside = vec![block(60, 0x500, 8)];
    let kind = SectionPipeline::ExePe32;
    assert_eq!(
        place_blocks(&mut image, &file, &outside, 0, 0x100, 0, &[], kind),
        Err(UnpackError::CorruptInput)
    );
}

#[test]
fn imports_in_their_own_section_stay() {
    let mut d = vec![0u8; 0x3000];
    write_u16(&mut d, 0x86, 1);
    write_u16(&mut d, 0x94, 0xE0);
    write_u32(&mut d, 0x100, 0x1000);
    write_u32(&mut d, 0x104, 0x28);
    d[0x178..0x17E].copy_from_slice(b".idata");
    write_u32(&mut d, 0x178 + 8, 0x1000);
    write_u32(&mut d, 0x178 + 12, 0x1000);
    write_u32(&mut d, 0x1000, 0x1100);
    write_u32(&mut d, 0x100C, 0x1200);
    write_u32(&mut d, 0x1010, 0x1300);
    d[0x1200..0x120A].copy_from_slice(b"Kernel.DLL");
    write_u32(&mut d, 0x1300, 0x1400);
    write_u32(&mut d, 0x1304, 0x1410);
    let mut kept = d.clone();
    assert!(pe32_imports_already_match_idata_layout(&mut kept, 0x80));
    // The address table and its end stand in the directory.
    let mut expected = d.clone();
    write_u32(&mut expected, 0x80 + 0xD8, 0x1300);
    write_u32(&mut expected, 0x80 + 0xDC, 12);
    assert_eq!(kept, expected);
    // Another section: the imports have to move.
    d[0x178..0x17E].copy_from_slice(b".kdata");
    let before = d.clone();
    assert!(!pe32_imports_already_match_idata_layout(&mut d, 0x80));
    assert_eq!(d, before);
}

#[test]
fn moved_imports_are_sorted_and_lowered() {
    let mut d = vec![0u8; 0x6000];
    write_u16(&mut d, 0x86, 1);
    write_u16(&mut d, 0x94, 0xE0);
    write_u32(&mut d, 0x100, 0x1100);
    write_u32(&mut d, 0x104, 0x3C);
    write_u32(&mut d, 0x178 + 12, 0x5000);
    for (at, oft, name, iat) in [(0x1100, 0x1200, 0x1300, 0x1490), (0x1114, 0x1220, 0x1320, 0x1400)] {
        write_u32(&mut d, at, oft);
        write_u32(&mut d, at + 12, name);
        write_u32(&mut d, at + 16, iat);
    }
    d[0x1300..0x130C].copy_from_slice(b"KERNEL32.dll");
    d[0x1320..0x1330].copy_from_slice(b"API-MS-WIN-CRT-x");
    write_u32(&mut d, 0x1200, 0x1500);
    d[0x1502..0x150D].copy_from_slice(b"ExitProcess");
    write_u32(&mut d, 0x1220, 0x8000_0007);
    move_pe32_imports_to_kmiat(&mut d, 0x80);
    assert_eq!(d.len(), 0x5000 + 0x7000);
    assert_eq!(&d[0x178..0x180], b".kmiat\0\0");
    let word = |o: usize| u32::from_le_bytes([d[o], d[o + 1], d[o + 2], d[o + 3]]) as usize;
    let table = word(0x100);
    assert_eq!(table, 0x5000 + 16 + 0x2C);
    assert_eq!(word(0x104), 60);
    assert_eq!(word(table + 16), 0x1400);
    assert_eq!(word(table + 36), 0x1490);
    let first = word(table + 12);
    assert_eq!(&d[first..first + 13], b"ucrtbase.dll\0");
    let second = word(table + 32);
    assert_eq!(&d[second..second + 13], b"kernel32.dll\0");
    assert_eq!(word(word(table)), 0x8000_0007);
    let hint = word(word(table + 20));
    assert_eq!(&d[hint..hint + 14], b"\0\0ExitProcess\0");
}

#[test]
fn slots_need_a_bytecode_block() {
    let d = vec![0u8; 0x2000];
    assert!(discover_eighth_slots(&d, 0x1000, 0x800, 0x1000, 0, 0x2000).is_none());
}

#[test]
fn too_many_import_names_move_nothing() {
    let build = |functions: u32| {
        let mut d = vec![0u8; 0x19000];
        write_u16(&mut d, 0x86, 1);
        write_u16(&mut d, 0x94, 0xE0);
        write_u32(&mut d, 0x100, 0x1100);
        write_u32(&mut d, 0x104, 0x28);
        write_u32(&mut d, 0x178 + 12, 0x18000);
        write_u32(&mut d, 0x1100, 0x2000);
        write_u32(&mut d, 0x110C, 0x1300);
        write_u32(&mut d, 0x1110, 0x3000);
        d[0x1300..0x130C].copy_from_slice(b"KERNEL32.dll");
        for i in 0..functions {
            let at = 0x4000 + 128 * i;
            write_u32(&mut d, 0x2000 + 4 * i, at);
            for b in &mut d[at as usize + 2..at as usize + 122] {
                *b = b'A';
            }
        }
        d
    };
    // 122 bytes for each name, four for each lookup: 200 fit into 0x7000, 300 do not.
    let mut few = build(200);
    move_pe32_imports_to_kmiat(&mut few, 0x80);
    assert_eq!(few.len(), 0x18000 + 0x7000);
    let many = build(300);
    let mut moved = many.clone();
    move_pe32_imports_to_kmiat(&mut moved, 0x80);
    assert_eq!(moved, many);
}

#[test]
fn compaction_keeps_every_byte_of_a_section() {
    let mut d = vec![0u8; 0x4000];
    write_u16(&mut d, 0x86, 2);
    write_u16(&mut d, 0x94, 0xE0);
    for (header, size, va) in [(0x178, 0x1000u32, 0x1000u32), (0x1A0, 0x2000, 0x2000)] {
        write_u32(&mut d, header + 8, size);
        write_u32(&mut d, header + 12, va);
    }
    for i in 0..0x321usize {
        d[0x1000 + i] = (i % 251) as u8 + 1;
    }
    let file = compact_memory_image_to_pe(&d, 0x80).unwrap();
    assert_eq!(file.len(), 0x400 + 0x400 + 0x200);
    let word = |o: usize| {
        u32::from_le_bytes([file[o], file[o + 1], file[o + 2], file[o + 3]]) as usize
    };
    for (header, size, va) in [(0x178, 0x1000, 0x1000), (0x1A0, 0x2000, 0x2000)] {
        let (raw, at) = (word(header + 16), word(header + 20));
        let mut loaded = file[at..at + raw].to_vec();
        loaded.resize(size, 0);
        assert_eq!(loaded, d[va..va + size]);
    }
    assert_eq!((word(0x188), word(0x18C)), (0x400, 0x400));
    assert_eq!((word(0x1B0), word(0x1B4)), (0x200, 0x800));
}
