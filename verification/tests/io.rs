use senbei::bytes::{write_u16, write_u32};
use senbei::elf::sums::do_sums_fit;
use senbei::elf::{self, is_aarch64, load_file_end, parse};
use senbei::error::UnpackError;
use senbei::io::args::{parse_u32, NumberError};
use senbei::io::companion::{
    overlay_exports_from_stub, pe_export_dir, restore_tls_from_stub, rva_to_file_off,
    splice_companion, Lookup, HEADER_OFF,
};
use senbei::io::job::{
    route, unpack_bytes, unpack_bytes_force_exe, unpacker_input, Automatic, Embedded, Event, Kind,
    Route, Summary,
};
use senbei::io::paths::{
    default_out_root_for_file, default_out_root_for_folder, file_name, out_name, rel_in_tree,
    Platform,
};
use senbei::io::run::{
    can_meet_again, companion_path, entry_event, file_destination, file_out_root,
    folder_out_root, metadata_event, plan, voice, EntryKind, EntryStatus, Met, Step, Task, Voice,
};
use senbei::io::scan::{
    classify, collect, companion_of, descends, detector_for, is_companion, is_metadata_name,
    is_package_name, is_pe_extension, is_selected, is_so_name, scans_all, thread_cap, verdict,
    Class, Detector, ScanResult, ScanStats, Verdicts,
};
use senbei::io::tree::{join, mirrored};
use senbei::io::windows;
use senbei::metadata::error::Error as MetadataError;

#[test]
fn parses_decimal_and_hex_seeds() {
    assert_eq!(parse_u32("42").unwrap(), 42);
    assert_eq!(parse_u32("0xA6FAE968").unwrap(), 0xa6fa_e968);
}

#[test]
fn numbers_are_read_like_std_reads_them() {
    for text in [
        "", "+", "-", "+7", "-7", "7+", "0", "00012", "4294967295", "4294967296", "99999999999x",
        "x", " 1", "1 ", "++1", "12a", "十",
    ] {
        let expected = text.parse::<u32>();
        match (parse_u32(text), expected) {
            (Ok(a), Ok(b)) => assert_eq!(a, b, "{text}"),
            (Err(a), Err(b)) => assert_eq!(a.message(), b.to_string(), "{text}"),
            (a, b) => panic!("{text}: {a:?} {b:?}"),
        }
        let hex = format!("0x{text}");
        match (parse_u32(&hex), u32::from_str_radix(text, 16)) {
            (Ok(a), Ok(b)) => assert_eq!(a, b, "{hex}"),
            (Err(a), Err(b)) => assert_eq!(a.message(), b.to_string(), "{hex}"),
            (a, b) => panic!("{hex}: {a:?} {b:?}"),
        }
    }
    assert_eq!(parse_u32("0Xff"), Ok(255));
    assert_eq!(parse_u32("0x"), Err(NumberError::Empty));
    assert_eq!(parse_u32("0x100000000"), Err(NumberError::Overflow));
    assert_eq!(parse_u32("zz"), Err(NumberError::InvalidDigit));
}

#[test]
fn rel_in_tree_falls_back_to_file_name_outside_root() {
    let root = r"D:\out-of-tree-root";
    let abs = r"C:\game\bin\app.exe";
    let rel = rel_in_tree(Platform::Windows, root, abs);
    assert_eq!(rel, "app.exe");

    // And the normal case still preserves the tree structure.
    let under = r"D:\out-of-tree-root\bin\app.exe";
    let rel = rel_in_tree(Platform::Windows, root, under);
    assert_eq!(rel, r"bin\app.exe");
}

#[test]
fn relative_paths_follow_the_platform() {
    let u = Platform::Unix;
    assert_eq!(rel_in_tree(u, "/a/b", "/a/b/c/d.exe"), "c/d.exe");
    assert_eq!(rel_in_tree(u, "/a/b/", "/a//b/./c.exe"), "c.exe");
    assert_eq!(rel_in_tree(u, "/a/b", "/a/bc/d.exe"), "d.exe");
    assert_eq!(rel_in_tree(u, "/a/b", "/a/b"), "");
    assert_eq!(rel_in_tree(u, "/x", "/a/.."), "");
    assert_eq!(rel_in_tree(Platform::Windows, r"d:\x", r"D:/x/y\z.dll"), r"y\z.dll");
    assert_eq!(rel_in_tree(Platform::Windows, r"\\?\C:\g", r"C:\g\a.exe"), "a.exe");
    assert_eq!(rel_in_tree(u, r"D:\x", r"D:\x\y"), r"D:\x\y");
}

#[test]
fn output_names_change_the_file_name_alone() {
    let u = Platform::Unix;
    assert_eq!(out_name(u, "v1.2/launcher"), "v1.2/launcher.unpack");
    assert_eq!(out_name(u, "bin/app.exe"), "bin/app.unpack.exe");
    assert_eq!(out_name(u, "app.tar.gz"), "app.tar.unpack.gz");
    assert_eq!(out_name(u, "/app"), "/app.unpack");
    assert_eq!(out_name(u, ".hidden"), ".unpack.hidden");
    assert_eq!(out_name(u, "a/.."), "a/.unpack");
    assert_eq!(out_name(u, ""), ".unpack");
    assert_eq!(out_name(Platform::Windows, r"C:\x\y.dll"), r"C:\x\y.unpack.dll");
    assert_eq!(out_name(Platform::Windows, r"C:y.dll"), r"C:y.unpack.dll");
}

#[test]
fn output_roots_stand_beside_the_input() {
    let u = Platform::Unix;
    assert_eq!(default_out_root_for_folder(u, "/game"), "/game/unpack");
    assert_eq!(default_out_root_for_folder(u, "/"), "/unpack");
    assert_eq!(default_out_root_for_folder(u, "."), "./unpack");
    assert_eq!(default_out_root_for_file(u, "/game/a.exe"), "/game/unpack");
    assert_eq!(default_out_root_for_file(u, "a.exe"), "./unpack");
    assert_eq!(default_out_root_for_file(u, "/"), "./unpack");
    assert_eq!(default_out_root_for_file(Platform::Windows, r"C:\a.exe"), r"C:\unpack");
    assert_eq!(file_name(u, "a/b/"), Some("b".to_string()));
    assert_eq!(file_name(u, "a/.."), None);
}

fn stub_with_header(header: &[u8; 32], extra: usize) -> Vec<u8> {
    let mut s = vec![0u8; HEADER_OFF];
    s.extend_from_slice(header);
    s.extend_from_slice(&vec![0xAAu8; extra]);
    s
}

#[test]
fn job_splices_when_header_matches() {
    let header = [7u8; 32];
    let stub = stub_with_header(&header, 16);
    // Companion: same 32-byte header, then the real (longer) payload.
    let mut comp = header.to_vec();
    comp.extend_from_slice(&[0x42u8; 1000]);

    let out = splice_companion(&stub, &comp).expect("should splice");
    assert_eq!(out.len(), HEADER_OFF + comp.len());
    assert_eq!(&out[..HEADER_OFF], &stub[..HEADER_OFF]);
    assert_eq!(&out[HEADER_OFF..], &comp[..]);
}

#[test]
fn job_no_splice_when_header_differs() {
    let stub = stub_with_header(&[7u8; 32], 16);
    let mut comp = vec![9u8; 32]; // different header
    comp.extend_from_slice(&[0x42u8; 1000]);
    assert!(splice_companion(&stub, &comp).is_none());
}

#[test]
fn job_no_splice_when_too_short() {
    let short_stub = vec![0u8; HEADER_OFF + 8]; // < HEADER_OFF + 32
    let comp = vec![0u8; 64];
    assert!(splice_companion(&short_stub, &comp).is_none());

    let stub = stub_with_header(&[1u8; 32], 0);
    let short_comp = vec![1u8; 16]; // < 32
    assert!(splice_companion(&stub, &short_comp).is_none());
}

#[test]
fn mod_splices_when_header_matches() {
    let header = [7_u8; 32];
    let stub = stub_with_header(&header, 16);
    let mut companion = header.to_vec();
    companion.extend_from_slice(&[0x42_u8; 1000]);

    let output = splice_companion(&stub, &companion).expect("should splice");
    assert_eq!(output.len(), HEADER_OFF + companion.len());
    assert_eq!(&output[..HEADER_OFF], &stub[..HEADER_OFF]);
    assert_eq!(&output[HEADER_OFF..], &companion[..]);
}

#[test]
fn mod_no_splice_when_header_differs() {
    let stub = stub_with_header(&[7_u8; 32], 16);
    let mut companion = vec![9_u8; 32];
    companion.extend_from_slice(&[0x42_u8; 1000]);
    assert!(splice_companion(&stub, &companion).is_none());
}

#[test]
fn mod_no_splice_when_too_short() {
    let short_stub = vec![0_u8; HEADER_OFF + 8];
    let companion = vec![0_u8; 64];
    assert!(splice_companion(&short_stub, &companion).is_none());

    let stub = stub_with_header(&[1_u8; 32], 0);
    let short_companion = vec![1_u8; 16];
    assert!(splice_companion(&stub, &short_companion).is_none());
}

#[test]
fn own_payload_splices_back() {
    let s = stub_with_header(&[3u8; 32], 100);
    assert_eq!(splice_companion(&s, &s[HEADER_OFF..]), Some(s.clone()));
    let (bytes, pair) = unpacker_input(&s, Some(&s[HEADER_OFF..]));
    assert!(pair);
    assert_eq!(bytes, s);
    let (bytes, pair) = unpacker_input(&s, None);
    assert!(!pair);
    assert_eq!(bytes, s);
}

/// A 64-bit image with one section, 0x1000..0x1400 at 0x200, and `fill` in it.
fn image64(fill: u8) -> Vec<u8> {
    let mut d = vec![0u8; 0x200];
    d.extend_from_slice(&vec![fill; 0x400]);
    d[0..2].copy_from_slice(b"MZ");
    write_u32(&mut d, 0x3c, 0x80);
    d[0x80..0x84].copy_from_slice(b"PE\0\0");
    write_u16(&mut d, 0x86, 1);
    write_u16(&mut d, 0x94, 0xF0);
    write_u16(&mut d, 0x98, 0x20B);
    write_u32(&mut d, 0x98 + 24, 0x40_0000);
    write_u32(&mut d, 0x98 + 56, 0x3000);
    write_u32(&mut d, 0x188 + 8, 0x400);
    write_u32(&mut d, 0x188 + 12, 0x1000);
    write_u32(&mut d, 0x188 + 16, 0x400);
    write_u32(&mut d, 0x188 + 20, 0x200);
    d
}

#[test]
fn exports_come_from_the_stub() {
    for lookup in [Lookup::Sections, Lookup::Headers] {
        let mut out = image64(0x11);
        let stub = image64(0x22);
        let before = out.clone();
        // No export directory: nothing happens.
        overlay_exports_from_stub(lookup, &mut out, &stub);
        assert_eq!(out, before);
        write_u32(&mut out, 0x98 + 112, 0x1010);
        write_u32(&mut out, 0x98 + 116, 0x20);
        assert_eq!(pe_export_dir(lookup, &out), Some((0x1010, 0x20)));
        assert_eq!(rva_to_file_off(lookup, &out, 0x1010), Some(0x210));
        assert_eq!(rva_to_file_off(lookup, &out, 0x8000), None);
        overlay_exports_from_stub(lookup, &mut out, &stub);
        assert!(out[0x210..0x230].iter().all(|&b| b == 0x22));
        assert!(out[0x230..].iter().all(|&b| b == 0x11));
        assert!(out[0x200..0x210].iter().all(|&b| b == 0x11));
        // An export table that leaves the file: nothing happens.
        write_u32(&mut out, 0x98 + 116, 0x4000);
        let before = out.clone();
        overlay_exports_from_stub(lookup, &mut out, &stub);
        assert_eq!(out, before);
    }
    assert_eq!(pe_export_dir(Lookup::Sections, b"none"), None);
    assert_eq!(rva_to_file_off(Lookup::Headers, b"none", 0), None);
}

#[test]
fn tls_directory_comes_from_the_stub_with_relocations() {
    let mut stub = image64(0);
    // TLS directory at 0x1100, 0x28 bytes; template 0x1200..0x1210.
    write_u32(&mut stub, 0x98 + 184, 0x1100);
    write_u32(&mut stub, 0x98 + 188, 0x28);
    write_u32(&mut stub, 0x300, 0x40_1200);
    write_u32(&mut stub, 0x308, 0x40_1210);
    write_u32(&mut stub, 0x310, 0x40_1300);
    write_u32(&mut stub, 0x318, 0x40_1308);
    for b in &mut stub[0x400..0x410] {
        *b = 0x77;
    }
    for lookup in [Lookup::Sections, Lookup::Headers] {
        let mut out = image64(0);
        // Relocations at 0x1300, 0x10 bytes.
        write_u32(&mut out, 0x98 + 152, 0x1300);
        write_u32(&mut out, 0x98 + 156, 0x10);
        let before = out.clone();
        restore_tls_from_stub(lookup, &mut out, &stub);
        assert_eq!(&out[0x98 + 184..0x98 + 192], &stub[0x98 + 184..0x98 + 192]);
        assert_eq!(&out[0x300..0x328], &stub[0x300..0x328]);
        assert!(out[0x400..0x410].iter().all(|&b| b == 0x77));
        // A block of 16 bytes behind the table: page, size, four entries.
        let block = [
            0x00, 0x10, 0, 0, 16, 0, 0, 0, 0x00, 0xa1, 0x08, 0xa1, 0x10, 0xa1, 0x18, 0xa1,
        ];
        assert_eq!(&out[0x510..0x520], &block);
        assert_eq!(out[0x98 + 156], 0x20);
        assert_eq!(out.len(), before.len());

        // Without room for the relocations nothing changes.
        let mut full = before.clone();
        full[0x515] = 1;
        let full_before = full.clone();
        restore_tls_from_stub(lookup, &mut full, &stub);
        assert_eq!(full, full_before);

        // A template that does not map: nothing changes.
        let mut astray = stub.clone();
        write_u32(&mut astray, 0x300, 0x48_1200);
        write_u32(&mut astray, 0x308, 0x48_1210);
        let mut kept = before.clone();
        restore_tls_from_stub(lookup, &mut kept, &astray);
        assert_eq!(kept, before);

        // A stub without TLS, and a 32-bit image, change nothing.
        let mut same = before.clone();
        restore_tls_from_stub(lookup, &mut same, &image64(9));
        assert_eq!(same, before);
        let mut narrow = before.clone();
        write_u16(&mut narrow, 0x98, 0x10B);
        let narrow_before = narrow.clone();
        restore_tls_from_stub(lookup, &mut narrow, &stub);
        assert_eq!(narrow, narrow_before);
    }
}

#[test]
fn unpacking_follows_detection() {
    let input = image64(5);
    let auto = Automatic::Unpacked(Kind::ManagedDll, input.clone());
    let r = unpack_bytes(&input, None, &[], None, None, auto).unwrap();
    assert_eq!(r.kind, Kind::ManagedDll);
    assert_eq!(r.bytes, input);
    assert!(!r.companion);
    assert!(!r.integrity.ok());
    let failed = Automatic::Failed(UnpackError::AnchorNotFound);
    assert_eq!(
        windows::unpack_bytes(&input, None, &[], None, None, failed).err(),
        Some(UnpackError::AnchorNotFound)
    );
    // As an executable: what was not detected is not unpacked.
    assert_eq!(
        unpack_bytes_force_exe(&input, None, &[], None, None).err(),
        Some(UnpackError::NotCrackproof)
    );
    assert_eq!(
        windows::unpack_bytes_force_exe(&input, None, &[], None, Some(Kind::NativeExe)).err(),
        Some(UnpackError::InputTooShort { actual: input.len(), required: 4128 })
    );
    // With a companion the pipelines' own result is not taken.
    let stub = stub_with_header(&[3u8; 32], 0);
    let auto = Automatic::Unpacked(Kind::NativeDll, vec![1]);
    assert_eq!(
        unpack_bytes(&stub, Some(&stub[HEADER_OFF..]), &[], None, None, auto).err(),
        Some(UnpackError::NotCrackproof)
    );
    assert_eq!(Kind::ManagedExe.kind_str(), "managed-exe");
    assert_eq!(Kind::NativeDll.kind_str(), "native-dll");
}

#[test]
fn candidate_names_are_platform_specific() {
    let u = Platform::Unix;
    for p in [
        "daemon.exe",
        "GameLib.DLL",
        "libil2cpp.so",
        "global-metadata.dat",
    ] {
        assert!(
            is_metadata_name(u, p) || is_pe_extension(u, p) || is_so_name(u, p),
            "{p} should be a candidate"
        );
    }
    for p in [
        "app.exe.bak",
        "managed.dll.bak",
        "libil2cpp.so.bak",
        "global-metadata.bin",
        "asset",
        "a.ab",
    ] {
        assert!(
            !is_metadata_name(u, p) && !is_pe_extension(u, p) && !is_so_name(u, p),
            "{p} must not be a candidate"
        );
    }
}

#[test]
fn companions_and_packages_are_known_by_name() {
    let u = Platform::Unix;
    assert!(is_companion(u, "/x/app.exe._"));
    assert!(is_companion(u, &companion_of("Lib.DLL")));
    assert!(!is_companion(u, "app.exe") && !is_companion(u, "app._") && !is_companion(u, "._"));
    assert!(is_package_name(u, "a.apk") && is_package_name(u, "a.apks"));
    assert!(is_package_name(u, "a.XAPK") && !is_package_name(u, "apk"));
    assert!(descends(0, "unpack", true));
    assert!(!descends(1, "UnPack", false) && !descends(1, "x", true) && descends(1, "x", false));
}

#[test]
fn selection_is_by_name_and_size() {
    let u = Platform::Unix;
    assert!(is_selected(u, "a.exe", Some(4128), false));
    assert!(!is_selected(u, "a.exe", Some(4127), false));
    assert!(is_selected(u, "a.exe", Some(4127), true));
    assert!(is_selected(u, "a.exe", None, false));
    assert!(!is_selected(u, "a.exe._", Some(9999), true));
    assert!(!is_selected(u, "renamed.bin", Some(9999), true));
    assert!(scans_all(Some("1")) && !scans_all(Some("0")) && !scans_all(Some("")));
    assert!(!scans_all(None));
    assert!(!scans_all(Some(" 0\t")) && !scans_all(Some(" \u{3000}\n")));
    assert!(scans_all(Some(" 1 ")) && scans_all(Some("0 0")) && scans_all(Some("\u{200b}")));
    assert_eq!(thread_cap(Some(3), Some(8)), 3);
    assert_eq!(thread_cap(Some(0), Some(8)), 8);
    assert_eq!(thread_cap(None, None), 1);
}

#[test]
fn classes_need_both_name_and_content() {
    let u = Platform::Unix;
    let all = Verdicts { package: true, module: true, library: true };
    let magic = [0xAF, 0x1B, 0xB1, 0xFA];
    assert_eq!(classify(u, "x.apk", &[], all), Class::AndroidPackage);
    assert_eq!(classify(u, "global-metadata.dat", &magic, all), Class::Metadata);
    assert_eq!(classify(u, "global-metadata.dat", &[], all), Class::Other);
    assert_eq!(classify(u, "a.dll", &magic, all), Class::Crackproof);
    assert_eq!(classify(u, "a.so", &[], all), Class::AndroidSo);
    let none = Verdicts { package: false, module: false, library: false };
    assert_eq!(classify(u, "a.dll", &[], none), Class::Other);
}

#[test]
fn scan_keeps_the_order_and_loses_nothing() {
    let paths: Vec<String> = (0..7).map(|i| format!("p{i}")).collect();
    let classes = [
        Some(Class::Crackproof),
        None,
        Some(Class::Other),
        Some(Class::Crackproof),
        Some(Class::Metadata),
        Some(Class::AndroidSo),
        Some(Class::AndroidPackage),
    ];
    let stats = ScanStats { skipped: 1, walk_errors: 2, probe_errors: 3 };
    let r = collect(&paths, &classes, stats);
    assert_eq!(r.crackproof, vec!["p0", "p3"]);
    assert_eq!(r.metadata, vec!["p4"]);
    assert_eq!(r.android_so, vec!["p5"]);
    assert_eq!(r.android_packages, vec!["p6"]);
    assert_eq!(r.stats, ScanStats { skipped: 2, walk_errors: 2, probe_errors: 4 });
}

#[test]
fn summary_line_names_packages_only_when_there_are_some() {
    let mut s = Summary::start(4, 1);
    s.count(Event::Unpacked { sound: true });
    s.count(Event::Unpacked { sound: false });
    s.count(Event::Metadata { remapped: 0 });
    s.count(Event::Metadata { remapped: 9 });
    s.count(Event::MetadataUnsupported);
    s.count(Event::Duplicate);
    s.count(Event::Failed);
    s.count(Event::LibraryRestored { embedded: Embedded::Written });
    s.count(Event::LibraryRestored { embedded: Embedded::Failed });
    s.count(Event::LibraryRestored { embedded: Embedded::Absent });
    assert_eq!(
        s.line(),
        "5 unpacked · 6 skipped · 3 errors · 1 suspect · 2 metadata"
    );
    s.count(Event::Package);
    s.count(Event::EntryLibrary);
    s.count(Event::EntryMetadata);
    s.count(Event::EntryLeft);
    assert_eq!(
        s.line(),
        "6 unpacked · 7 skipped · 3 errors · 1 suspect · 3 metadata · 1 packages"
    );
}

#[test]
fn single_files_are_routed_by_content() {
    assert_eq!(route(true, true, true), Route::Metadata);
    assert_eq!(route(false, true, true), Route::Library);
    assert_eq!(route(false, false, true), Route::Package);
    assert_eq!(route(false, false, false), Route::Module);
}

#[test]
fn rejects_non_elf() {
    assert!(matches!(parse(b"not elf"), Err(elf::Error::Parse(_))));
}

/// An image of `class` with one loaded program header.
fn elf_image(class: u8, machine: u16) -> Vec<u8> {
    let mut d = vec![0u8; 0x100];
    d[0..7].copy_from_slice(&[0x7f, b'E', b'L', b'F', class, 1, 1]);
    d[0x10..0x12].copy_from_slice(&3u16.to_le_bytes());
    d[0x12..0x14].copy_from_slice(&machine.to_le_bytes());
    if class == 2 {
        d[0x20..0x28].copy_from_slice(&0x40u64.to_le_bytes());
        d[0x34..0x36].copy_from_slice(&0x40u16.to_le_bytes());
        d[0x36..0x38].copy_from_slice(&0x38u16.to_le_bytes());
        d[0x38..0x3a].copy_from_slice(&2u16.to_le_bytes());
        d[0x40..0x44].copy_from_slice(&1u32.to_le_bytes());
        d[0x48..0x50].copy_from_slice(&0x30u64.to_le_bytes());
        d[0x60..0x68].copy_from_slice(&0x50u64.to_le_bytes());
        d[0x78..0x7c].copy_from_slice(&6u32.to_le_bytes());
        d[0x80..0x88].copy_from_slice(&0x5000u64.to_le_bytes());
        d[0x98..0xa0].copy_from_slice(&0x50u64.to_le_bytes());
    }
    d
}

#[test]
fn elf_images_are_read() {
    let d = elf_image(2, 183);
    let image = parse(&d).unwrap();
    assert_eq!(image.machine, 183);
    assert_eq!(image.program_headers.len(), 2);
    assert!(is_aarch64(&d));
    assert_eq!(load_file_end(&d).unwrap(), 0x80);
    assert!(!is_aarch64(&elf_image(2, 62)));
    assert_eq!(parse(&elf_image(1, 183)).unwrap_err(), elf::Error::NotElf64);
    assert_eq!(load_file_end(&elf_image(1, 40)).unwrap_err(), elf::Error::NotElf64);
    assert!(!is_aarch64(b"not elf"));
    assert_eq!(
        elf::Error::NotElf64.to_string(),
        "input is not an ELF64 little-endian image"
    );
    assert!(parse(b"x").unwrap_err().to_string().starts_with("ELF parse failed: "));
}

/// A dynamic image: a GNU hash table at 0x200 and relocations with addends at 0x300.
fn dynamic_image() -> Vec<u8> {
    let mut d = vec![0u8; 0x400];
    d[..0x40].copy_from_slice(&elf_image(2, 183)[..0x40]);
    let mut put = |o: usize, v: &[u8]| d[o..o + v.len()].copy_from_slice(v);
    // The whole file is loaded at 0x1000, and the entries stand at 0x100.
    put(0x40, &1u32.to_le_bytes());
    put(0x50, &0x1000u64.to_le_bytes());
    put(0x60, &0x400u64.to_le_bytes());
    put(0x68, &0x400u64.to_le_bytes());
    put(0x78, &2u32.to_le_bytes());
    put(0x80, &0x100u64.to_le_bytes());
    put(0x98, &0x50u64.to_le_bytes());
    let entries = [(0x6fff_fef5u64, 0x1200u64), (7, 0x1300), (8, 48), (6, 0x1380), (0, 0)];
    for (i, (tag, value)) in entries.iter().enumerate() {
        put(0x100 + 16 * i, &tag.to_le_bytes());
        put(0x108 + 16 * i, &value.to_le_bytes());
    }
    // One bucket, symbols from 1 on, one word of the filter; chain 1 ends the table.
    for (i, word) in [1u32, 1, 1, 0, 0, 0, 1, 1].iter().enumerate() {
        put(0x200 + 4 * i, &word.to_le_bytes());
    }
    d
}

#[test]
fn sums_of_elf_tables_are_told_beforehand() {
    let d = dynamic_image();
    assert!(do_sums_fit(&d));
    assert_eq!(parse(&d).unwrap().program_headers.len(), 2);
    let with = |o: usize, v: u32| {
        let mut e = d.clone();
        e[o..o + 4].copy_from_slice(&v.to_le_bytes());
        e
    };
    // The filter's size.
    assert!(do_sums_fit(&with(0x208, 0x1fff_ffb0)));
    assert!(!do_sums_fit(&with(0x208, 0x2000_0000)));
    // The last bucket.
    assert!(!do_sums_fit(&with(0x218, 0x4000_0001)));
    assert!(!do_sums_fit(&with(0x218, u32::MAX)));
    assert!(do_sums_fit(&with(0x218, 0)));
    // The symbol of the second relocation.
    assert!(!do_sums_fit(&with(0x300 + 24 + 12, u32::MAX)));
    assert!(do_sums_fit(&with(0x300 + 24 + 12, u32::MAX - 1)));
    assert!(do_sums_fit(&with(0x300 + 48 + 12, u32::MAX)));
    // A table that is not read has no sums.
    let mut short = with(0x208, 0x2000_0000);
    short.truncate(0x208);
    assert!(do_sums_fit(&short));
    assert!(do_sums_fit(b"not elf") && do_sums_fit(&elf_image(1, 40)));
}

#[test]
fn one_detector_is_asked() {
    let u = Platform::Unix;
    let magic = [0xAF, 0x1B, 0xB1, 0xFA];
    assert_eq!(detector_for(u, "x.APK", &[]), Some(Detector::Package));
    assert_eq!(detector_for(u, "a/b.exe", &magic), Some(Detector::Module));
    assert_eq!(detector_for(u, "lib.so", &[]), Some(Detector::Library));
    assert_eq!(detector_for(u, "global-metadata.dat", &magic), None);
    assert_eq!(detector_for(u, "notes.txt", &magic), None);
    let yes = verdict(Some(Detector::Module), true);
    assert_eq!(yes, Verdicts { package: false, module: true, library: false });
    assert_eq!(classify(u, "a.dll", &[], yes), Class::Crackproof);
    assert_eq!(classify(u, "a.dll", &[], verdict(Some(Detector::Module), false)), Class::Other);
}

#[test]
fn paths_are_joined_as_std_joins_them() {
    let u = Platform::Unix;
    for (base, path) in [
        ("a", "b"),
        ("a/", "b/c"),
        ("/", "b"),
        ("", "b"),
        ("a", ""),
        ("a", "/b"),
        ("a", "./b"),
        (".", "b"),
        ("a", "../b"),
        ("a/..", "b"),
    ] {
        let expected = std::path::Path::new(base).join(path);
        let got = join(u, base, path);
        assert_eq!(std::path::Path::new(&got), expected.as_path(), "{base} {path}");
    }
    let w = Platform::Windows;
    assert_eq!(join(w, r"C:\a", r"b\c"), r"C:\a\b\c");
    assert_eq!(join(w, r"C:\a", r"\b"), r"C:\b");
    assert_eq!(join(w, r"C:\a", r"D:b"), r"D:b");
    assert_eq!(join(w, r"C:", r"b"), r"C:b");
}

#[test]
fn outputs_mirror_the_tree() {
    let u = Platform::Unix;
    assert_eq!(
        mirrored(u, "/game", "/game/unpack", "/game/bin/v1.2/app"),
        "/game/unpack/bin/v1.2/app.unpack"
    );
    assert_eq!(
        mirrored(u, "/game", "/out", "/elsewhere/lib.dll"),
        "/out/lib.unpack.dll"
    );
    assert_eq!(
        mirrored(Platform::Windows, r"\\?\C:\g", r"D:\out", r"C:\g\x\a.exe"),
        r"D:\out\a.unpack.exe"
    );
    assert_eq!(mirrored(u, "game", "out", "game/../x.exe"), "out/../x.unpack.exe");
}

#[test]
fn plan_goes_by_kinds() {
    let scan = ScanResult {
        crackproof: vec!["/g/b.exe".to_string(), "/g/a.dll".to_string()],
        metadata: vec!["/g/m/global-metadata.dat".to_string()],
        android_so: vec!["/g/lib.so".to_string()],
        android_packages: vec!["/g/p/base.apk".to_string()],
        stats: ScanStats { skipped: 0, walk_errors: 0, probe_errors: 0 },
    };
    let steps = plan(Platform::Unix, "/g", "/o", &scan);
    let step = |task, rel: &str, dest: &str| Step {
        task,
        input: format!("/g/{rel}"),
        rel: rel.to_string(),
        dest: dest.to_string(),
    };
    assert_eq!(
        steps,
        vec![
            step(Task::Module, "b.exe", "/o/b.unpack.exe"),
            step(Task::Module, "a.dll", "/o/a.unpack.dll"),
            step(Task::Library, "lib.so", "/o/lib.unpack.so"),
            step(Task::Package, "p/base.apk", "/o"),
            step(
                Task::Metadata,
                "m/global-metadata.dat",
                "/o/m/global-metadata.unpack.dat"
            ),
        ]
    );
}

#[test]
fn roots_and_companions_of_a_run() {
    let u = Platform::Unix;
    assert_eq!(folder_out_root(u, "/g", Some("x")), "x");
    assert_eq!(folder_out_root(u, "/g", None), "/g/unpack");
    assert_eq!(file_out_root(u, "/g/a.exe", Some("x")), "x");
    assert_eq!(file_out_root(u, "/g/a.exe", None), "/g/unpack");
    assert_eq!(file_destination(u, "/o", "/g/a.exe"), "/o/a.unpack.exe");
    assert_eq!(companion_path(u, "/g/a.dll"), Some("/g/a.dll._".to_string()));
    assert_eq!(companion_path(u, "/"), None);
}

#[test]
fn quiet_wins_over_verbose() {
    let all = |files, steps, bar| Voice { files, steps, bar };
    assert_eq!(voice(0, false), all(true, false, true));
    assert_eq!(voice(0, true), all(true, true, false));
    assert_eq!(voice(1, true), all(false, false, false));
    assert_eq!(voice(2, false), all(false, false, false));
}

#[test]
fn contents_are_met_once() {
    let mut met = Met::new();
    assert!(met.meet("aa") && met.meet("bb"));
    assert!(!met.meet("aa") && !met.meet("bb"));
    assert!(met.meet("aab"));
    assert!(!can_meet_again(1, 0) && can_meet_again(2, 0) && can_meet_again(0, 1));
}

#[test]
fn outcomes_become_events() {
    assert_eq!(metadata_event(true, &Ok(3)), Event::Metadata { remapped: 3 });
    let unknown = Err(MetadataError::UnsupportedVersion(99));
    assert_eq!(metadata_event(true, &unknown), Event::MetadataUnsupported);
    assert_eq!(metadata_event(false, &unknown), Event::Failed);
    let broken = Err(MetadataError::Malformed("x".to_string()));
    assert_eq!(metadata_event(true, &broken), Event::Failed);
    let restored = EntryStatus::Restored;
    assert_eq!(entry_event(EntryKind::So, restored), Event::EntryLibrary);
    assert_eq!(
        entry_event(EntryKind::Metadata { remapped: 1 }, restored),
        Event::EntryMetadata
    );
    assert_eq!(
        entry_event(EntryKind::EmbeddedMetadata, restored),
        Event::EntryMetadata
    );
    for status in [
        EntryStatus::Duplicate,
        EntryStatus::NotTarget,
        EntryStatus::Unchanged,
    ] {
        assert_eq!(entry_event(EntryKind::So, status), Event::EntryLeft);
    }
    assert_eq!(entry_event(EntryKind::So, EntryStatus::Failed), Event::Failed);
}

#[test]
fn windows_prefixes_are_kept() {
    let w = Platform::Windows;
    for (root, expected) in [
        (r"\\server\share\g", r"\\server\share\g\unpack"),
        (r"\\server\share", r"\\server\share\unpack"),
        (r"//server/share/g", r"//server/share\g\unpack"),
        (r"\\?\C:\g", r"\\?\C:\g\unpack"),
        (r"\\?\C:", r"\\?\C:\unpack"),
        (r"\\?\UNC\server\share\g", r"\\?\UNC\server\share\g\unpack"),
        (r"\\?\Volume{x}\g", r"\\?\Volume{x}\g\unpack"),
        (r"\\.\COM1", r"\\.\COM1\unpack"),
        (r"\\server", r"\server\unpack"),
        (r"C:", r"C:unpack"),
    ] {
        assert_eq!(default_out_root_for_folder(w, root), expected);
    }
    assert_eq!(
        default_out_root_for_file(w, r"\\?\UNC\s\h\a.exe"),
        r"\\?\UNC\s\h\unpack"
    );
    assert_eq!(out_name(w, r"\\s\h\y.dll"), r"\\s\h\y.unpack.dll");
    assert_eq!(out_name(w, r"\\?\C:\v1.2\y"), r"\\?\C:\v1.2\y.unpack");
    assert_eq!(
        companion_path(w, r"\\?\C:\g\a.dll"),
        Some(r"\\?\C:\g\a.dll._".to_string())
    );
}

#[test]
fn windows_prefixes_are_compared_and_joined() {
    let w = Platform::Windows;
    assert_eq!(rel_in_tree(w, r"\\?\C:\g", r"\\?\c:\g\x\a.exe"), r"x\a.exe");
    assert_eq!(rel_in_tree(w, r"\\s\h", r"//s/h/x.exe"), "x.exe");
    assert_eq!(rel_in_tree(w, r"\\s\h", r"\\S\h\d\x.exe"), "x.exe");
    assert_eq!(rel_in_tree(w, r"\\?\C:\g", r"\\?\C:\g\a/b.exe"), "a/b.exe");
    assert_eq!(join(w, r"\\?\C:\a\b", r"..\c"), r"\\?\C:\a\c");
    assert_eq!(join(w, r"\\?\C:\a", r".\c/d"), r"\\?\C:\a\c\d");
    assert_eq!(join(w, r"\\?\C:\a", r"\x"), r"\\?\C:\x");
    assert_eq!(join(w, r"\\s\h\a", r"\x"), r"\\s\h\x");
    assert_eq!(join(w, r"\\s\h\a", r"\\?\D:\x"), r"\\?\D:\x");
    assert_eq!(
        mirrored(w, r"\\?\C:\g", r"\\?\C:\g\unpack", r"\\?\C:\g\lib\a.so"),
        r"\\?\C:\g\unpack\lib\a.unpack.so"
    );
}
