# Senbei

A static unpacker for CrackProof-protected Windows PE files and Android AArch64
shared libraries, written in Verus: the transformations are executable Rust with
contracts, and Verus proves that the code meets them.

## Layout

- `src/` is the library. Nothing in it does I/O, and no function in it panics.
  - `bytes`, `text`, `crc32`, `aes`, `ciphers`, `bytecode`, `huffman`, `payload`:
    the primitives of the protection.
  - `pe`: PE headers, the 64-bit and 32-bit unpacking pipelines, the layout
    heuristics, import reconstruction, compaction and the integrity check.
  - `metadata`: IL2CPP metadata, its method tokens and the discovery of their seeds.
  - `android`: the ELF layout of protected libraries, their record streams and
    modules, the metadata inside them, and folders of libraries and packages.
  - `elf`, `digest`: AArch64 ELF files and content digests.
  - `io`: names, companions, scans, plans and tallies of a run; no file is touched.
- `tests/` runs the library on concrete values.
- `app/` is the program around it: arguments, files, archives, progress and logs. The
  decoders that are not part of the library enter it through the trait `Engine`. The
  one that comes with it unpacks executables whose header words are listed, separated
  by commas, in the environment variable `SENBEI_HEADER_WORDS`.

## Contracts

A contract speaks of a specification function with the same subject: `unpack` of
`unpacked`, `restore_method_tokens` of `restored`, `splice_companion` of `spliced`.
Where an input is refused, the contract says with which error. What holds of several
functions at once is stated by public proof functions beside them.

Four calls are trusted, each behind one private function whose comment says what is
claimed of it: `String::from_utf8_lossy`, `Sha256::digest`, `Elf::parse` and the
deflate reader.
