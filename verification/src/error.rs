//! What can go wrong in the primitives and the pipelines.

use vstd::prelude::*;

use crate::text::{dec, hex_digits, push_dec, push_hex_digits};

verus! {

/// What a buffer range was meant for.
#[derive(Debug, Clone, Copy, PartialEq, Eq, Structural)]
pub enum BufferOperation {
    Read,
    CopyDestination,
    CopySource,
}

/// A range that leaves its buffer.
#[derive(Debug, Clone, Copy, PartialEq, Eq, Structural)]
pub enum Error {
    BufferRangeOutOfBounds {
        operation: BufferOperation,
        offset: usize,
        size: usize,
        buffer_len: usize,
    },
}

/// Why a compressed stream cannot give exactly the bytes asked for.
#[derive(Debug, Clone, Copy, PartialEq, Eq, Structural)]
pub enum DecompressionFailure {
    SourceTooLarge { size: u32, max: u64 },
    InvalidCodeLength { bits: u8 },
    HuffmanTraversalLimit,
    TableTruncated,
    PendingLengthOverflow { pending: u32 },
    OutputOverflow { written: u32, step: u32, expected: u32 },
    RunFillBeforeOutput { width: u32, destination: u32 },
    InvalidRunFillWidth { width: u32 },
    InvalidBackReference { distance: u32, written: u32 },
    NoProgress,
    OutputSizeMismatch { written: u32, expected: u32, consumed: u32, source_size: u32 },
}

/// The largest image, and the largest compressed source, that is worked on.
pub const MAX_IMAGE_SIZE: u64 = 0x4000_0000;

/// A stage whose payload is expanded.
#[derive(Debug, Clone, Copy, PartialEq, Eq, Structural)]
pub enum DecompressionStage {
    ExeStage3,
    ExeStage3Secondary,
    ExeStage4,
    ExeStage5,
    Pe32FourthStage,
    Pe32FifthStage,
    Pe32SeventhStage,
    DllCodeBlock1,
    DllCodeBlock2,
    DllCodeBlock3,
    DllCodeBlock4,
}

/// A stage that carries a byte transform.
#[derive(Debug, Clone, Copy, PartialEq, Eq, Structural)]
pub enum BytecodeStage {
    ExeStage4,
    ExeStage5,
    Pe32CustomDecryptor,
    Pe32FileDecryptor,
    DllPrimaryDecryptor,
    DllSectionDecryptor,
}

/// A pipeline that loads section blocks.
#[derive(Debug, Clone, Copy, PartialEq, Eq, Structural)]
pub enum SectionPipeline {
    ExePe32Plus,
    ExePe32,
    Dll,
}

/// A table of descriptors.
#[derive(Debug, Clone, Copy, PartialEq, Eq, Structural)]
pub enum DescriptorTable {
    DllSectionBlocks,
    DllZeroFill,
}

/// Why a file was not unpacked.
#[derive(Debug, PartialEq, Eq)]
#[non_exhaustive]
#[allow(inconsistent_fields)]
pub enum UnpackError {
    InputTooShort { actual: usize, required: usize },
    HeaderMagicMismatch { found: u32 },
    AnchorNotFound,
    Stage1DescriptorNotFound { anchor: u32 },
    Stage2NotFound,
    ChkSrcStartNotFound,
    TableStartNotFound,
    BytecodeGenerationFailed(BytecodeStage),
    Stage5MarkerNotFound,
    NotCrackproof,
    InvalidPeOffset { offset: i64, input_len: usize },
    UnsupportedDllPeMagic { found: u16 },
    InvalidDllPrimaryDescriptor { address: u32, minimum: u32, image_len: usize },
    InvalidImageSize { size: i64, max: u64 },
    BufferRangeOutOfBounds {
        operation: BufferOperation,
        offset: usize,
        size: usize,
        buffer_len: usize,
    },
    ExeChecksumRangeOutOfBounds { descriptor: u32, offset: usize, size: usize, image_len: usize },
    DescriptorOutOfBounds { table: DescriptorTable, offset: usize, image_len: usize },
    Pe32TblNotFound,
    Pe32ThirdStageFailed,
    Pe32CustomDecryptorNotFound,
    Pe32EighthKeyNotFound,
    Pe32FileLfsrNotFound,
    StageDecompressionFailed { stage: DecompressionStage, reason: DecompressionFailure },
    SectionDecompressionFailed { pipeline: SectionPipeline, block: usize },
    InvalidAesKeySchedule { offset: u32 },
    InvalidHuffmanTable { offset: u32 },
    PipelineFallbackFailed { dll: Box<UnpackError>, exe: Box<UnpackError> },
    Pe32SecondStageRangeInvalid { offset: u32, size: u32, image_len: usize },
    Pe32RelocationDataNotFound,
    FileDecryptorValidationFailed,
    Pe32OutputLayoutInvalid,
    /// A decoder that a caller ran panicked. Nothing in this library does.
    InternalPanic { message: String, file: String, line: u32, column: u32 },
    /// The image refers outside itself or outside the file.
    CorruptInput,
}

/// The unpacking error that a primitive's range error becomes.
pub open spec fn range_failure(error: Error) -> UnpackError {
    match error {
        Error::BufferRangeOutOfBounds { operation, offset, size, buffer_len } =>
            UnpackError::BufferRangeOutOfBounds { operation, offset, size, buffer_len },
    }
}

impl From<Error> for UnpackError {
    fn from(error: Error) -> (r: UnpackError) {
        match error {
            Error::BufferRangeOutOfBounds { operation, offset, size, buffer_len } =>
                UnpackError::BufferRangeOutOfBounds { operation, offset, size, buffer_len },
        }
    }
}

impl vstd::std_specs::convert::FromSpecImpl<Error> for UnpackError {
    open spec fn obeys_from_spec() -> bool {
        true
    }

    open spec fn from_spec(error: Error) -> UnpackError {
        range_failure(error)
    }
}

impl BufferOperation {
    /// What an operation is called.
    pub open spec fn text(self) -> Seq<char> {
        match self {
            BufferOperation::Read => "read"@,
            BufferOperation::CopyDestination => "copy destination"@,
            BufferOperation::CopySource => "copy source"@,
        }
    }

    /// What an operation is called.
    pub fn name(self) -> (r: &'static str)
        ensures
            r@ == self.text(),
    {
        match self {
            BufferOperation::Read => "read",
            BufferOperation::CopyDestination => "copy destination",
            BufferOperation::CopySource => "copy source",
        }
    }
}

impl DecompressionStage {
    /// What a stage is called.
    pub open spec fn text(self) -> Seq<char> {
        match self {
            DecompressionStage::ExeStage3 => "EXE stage3"@,
            DecompressionStage::ExeStage3Secondary => "EXE secondary stage3"@,
            DecompressionStage::ExeStage4 => "EXE stage4"@,
            DecompressionStage::ExeStage5 => "EXE stage5"@,
            DecompressionStage::Pe32FourthStage => "PE32 fourth stage"@,
            DecompressionStage::Pe32FifthStage => "PE32 fifth stage"@,
            DecompressionStage::Pe32SeventhStage => "PE32 seventh stage"@,
            DecompressionStage::DllCodeBlock1 => "DLL code block 1"@,
            DecompressionStage::DllCodeBlock2 => "DLL code block 2"@,
            DecompressionStage::DllCodeBlock3 => "DLL code block 3"@,
            DecompressionStage::DllCodeBlock4 => "DLL code block 4"@,
        }
    }

    /// What a stage is called.
    pub fn name(self) -> (r: &'static str)
        ensures
            r@ == self.text(),
    {
        match self {
            DecompressionStage::ExeStage3 => "EXE stage3",
            DecompressionStage::ExeStage3Secondary => "EXE secondary stage3",
            DecompressionStage::ExeStage4 => "EXE stage4",
            DecompressionStage::ExeStage5 => "EXE stage5",
            DecompressionStage::Pe32FourthStage => "PE32 fourth stage",
            DecompressionStage::Pe32FifthStage => "PE32 fifth stage",
            DecompressionStage::Pe32SeventhStage => "PE32 seventh stage",
            DecompressionStage::DllCodeBlock1 => "DLL code block 1",
            DecompressionStage::DllCodeBlock2 => "DLL code block 2",
            DecompressionStage::DllCodeBlock3 => "DLL code block 3",
            DecompressionStage::DllCodeBlock4 => "DLL code block 4",
        }
    }
}

impl BytecodeStage {
    /// What a stage is called.
    pub open spec fn text(self) -> Seq<char> {
        match self {
            BytecodeStage::ExeStage4 => "EXE stage4"@,
            BytecodeStage::ExeStage5 => "EXE stage5"@,
            BytecodeStage::Pe32CustomDecryptor => "PE32 custom decryptor"@,
            BytecodeStage::Pe32FileDecryptor => "PE32 file decryptor"@,
            BytecodeStage::DllPrimaryDecryptor => "DLL primary decryptor"@,
            BytecodeStage::DllSectionDecryptor => "DLL section decryptor"@,
        }
    }

    /// What a stage is called.
    pub fn name(self) -> (r: &'static str)
        ensures
            r@ == self.text(),
    {
        match self {
            BytecodeStage::ExeStage4 => "EXE stage4",
            BytecodeStage::ExeStage5 => "EXE stage5",
            BytecodeStage::Pe32CustomDecryptor => "PE32 custom decryptor",
            BytecodeStage::Pe32FileDecryptor => "PE32 file decryptor",
            BytecodeStage::DllPrimaryDecryptor => "DLL primary decryptor",
            BytecodeStage::DllSectionDecryptor => "DLL section decryptor",
        }
    }
}

impl SectionPipeline {
    /// What a pipeline is called.
    pub open spec fn text(self) -> Seq<char> {
        match self {
            SectionPipeline::ExePe32Plus => "PE32+ EXE"@,
            SectionPipeline::ExePe32 => "PE32 EXE"@,
            SectionPipeline::Dll => "DLL"@,
        }
    }

    /// What a pipeline is called.
    pub fn name(self) -> (r: &'static str)
        ensures
            r@ == self.text(),
    {
        match self {
            SectionPipeline::ExePe32Plus => "PE32+ EXE",
            SectionPipeline::ExePe32 => "PE32 EXE",
            SectionPipeline::Dll => "DLL",
        }
    }
}

impl DescriptorTable {
    /// What a table is called.
    pub open spec fn text(self) -> Seq<char> {
        match self {
            DescriptorTable::DllSectionBlocks => "DLL section-block"@,
            DescriptorTable::DllZeroFill => "DLL zero-fill"@,
        }
    }

    /// What a table is called.
    pub fn name(self) -> (r: &'static str)
        ensures
            r@ == self.text(),
    {
        match self {
            DescriptorTable::DllSectionBlocks => "DLL section-block",
            DescriptorTable::DllZeroFill => "DLL zero-fill",
        }
    }
}

/// A number that may be negative, in decimal.
pub open spec fn signed(n: int) -> Seq<char> {
    if n < 0 {
        "-"@ + dec((-n) as nat)
    } else {
        dec(n as nat)
    }
}

/// Append a number that may be negative, in decimal.
fn push_signed(s: &mut String, n: i64)
    ensures
        final(s)@ == old(s)@ + signed(n as int),
{
    if n < 0 {
        s.append("-");
        let m: u64 = if n == i64::MIN {
            0x8000_0000_0000_0000
        } else {
            (-n) as u64
        };
        push_dec(s, m);
        assert(s@ =~= old(s)@ + signed(n as int));
    } else {
        push_dec(s, n as u64);
    }
}

impl DecompressionFailure {
    /// The message of a failure.
    pub open spec fn text(self) -> Seq<char> {
        match self {
            DecompressionFailure::SourceTooLarge { size, max } => "compressed source of "@ + dec(size as nat) + " bytes exceeds "@ + dec(max as nat),
            DecompressionFailure::InvalidCodeLength { bits } => "invalid Huffman code length "@ + dec(bits as nat),
            DecompressionFailure::HuffmanTraversalLimit => "Huffman traversal limit reached"@,
            DecompressionFailure::TableTruncated => "Huffman table is truncated"@,
            DecompressionFailure::PendingLengthOverflow { pending } => "pending length "@ + dec(pending as nat) + " overflows"@,
            DecompressionFailure::OutputOverflow { written, step, expected } => "output overflow ("@ + dec(written as nat) + " written, "@ + dec(step as nat) + " more, "@ + dec(expected as nat) + " expected)"@,
            DecompressionFailure::RunFillBeforeOutput { width, destination } => "run fill of width "@ + dec(width as nat) + " starts before the output at "@ + dec(destination as nat),
            DecompressionFailure::InvalidRunFillWidth { width } => "invalid run-fill width "@ + dec(width as nat),
            DecompressionFailure::InvalidBackReference { distance, written } => "back reference "@ + dec(distance as nat) + " exceeds the "@ + dec(written as nat) + " bytes written"@,
            DecompressionFailure::NoProgress => "Huffman symbol consumed no input and produced no output"@,
            DecompressionFailure::OutputSizeMismatch { written, expected, consumed, source_size } => "wrote "@ + dec(written as nat) + " of "@ + dec(expected as nat) + " bytes from "@ + dec(consumed as nat) + " of "@ + dec(source_size as nat) + " source bytes"@,
        }
    }

    /// The message of a failure.
    pub fn to_string(&self) -> (r: String)
        ensures
            r@ == self.text(),
    {
        match self {
            DecompressionFailure::SourceTooLarge { size, max } => {
                let mut s: String = "compressed source of ".to_owned();
                push_dec(&mut s, *size as u64);
                s.append(" bytes exceeds ");
                push_dec(&mut s, *max as u64);
                s
            },
            DecompressionFailure::InvalidCodeLength { bits } => {
                let mut s: String = "invalid Huffman code length ".to_owned();
                push_dec(&mut s, *bits as u64);
                s
            },
            DecompressionFailure::HuffmanTraversalLimit => "Huffman traversal limit reached".to_owned(),
            DecompressionFailure::TableTruncated => "Huffman table is truncated".to_owned(),
            DecompressionFailure::PendingLengthOverflow { pending } => {
                let mut s: String = "pending length ".to_owned();
                push_dec(&mut s, *pending as u64);
                s.append(" overflows");
                s
            },
            DecompressionFailure::OutputOverflow { written, step, expected } => {
                let mut s: String = "output overflow (".to_owned();
                push_dec(&mut s, *written as u64);
                s.append(" written, ");
                push_dec(&mut s, *step as u64);
                s.append(" more, ");
                push_dec(&mut s, *expected as u64);
                s.append(" expected)");
                s
            },
            DecompressionFailure::RunFillBeforeOutput { width, destination } => {
                let mut s: String = "run fill of width ".to_owned();
                push_dec(&mut s, *width as u64);
                s.append(" starts before the output at ");
                push_dec(&mut s, *destination as u64);
                s
            },
            DecompressionFailure::InvalidRunFillWidth { width } => {
                let mut s: String = "invalid run-fill width ".to_owned();
                push_dec(&mut s, *width as u64);
                s
            },
            DecompressionFailure::InvalidBackReference { distance, written } => {
                let mut s: String = "back reference ".to_owned();
                push_dec(&mut s, *distance as u64);
                s.append(" exceeds the ");
                push_dec(&mut s, *written as u64);
                s.append(" bytes written");
                s
            },
            DecompressionFailure::NoProgress => "Huffman symbol consumed no input and produced no output".to_owned(),
            DecompressionFailure::OutputSizeMismatch { written, expected, consumed, source_size } => {
                let mut s: String = "wrote ".to_owned();
                push_dec(&mut s, *written as u64);
                s.append(" of ");
                push_dec(&mut s, *expected as u64);
                s.append(" bytes from ");
                push_dec(&mut s, *consumed as u64);
                s.append(" of ");
                push_dec(&mut s, *source_size as u64);
                s.append(" source bytes");
                s
            },
        }
    }
}

impl UnpackError {
    /// The message of an error.
    pub open spec fn text(self) -> Seq<char>
        decreases self,
    {
        match self {
            UnpackError::InputTooShort { actual, required } => "input too short (need at least "@ + dec(required as nat) + " bytes, got "@ + dec(actual as nat) + ")"@,
            UnpackError::HeaderMagicMismatch { found } => "decrypted header magic mismatch (got 0x"@ + hex_digits(found as nat, 8) + ")"@,
            UnpackError::AnchorNotFound => "anchor field not found — corrupt data or wrong offset"@,
            UnpackError::Stage1DescriptorNotFound { anchor } => "stage1 descriptor not found near anchor 0x"@ + hex_digits(anchor as nat, 8),
            UnpackError::Stage2NotFound => "stage2 field not found — corrupt data or wrong offset"@,
            UnpackError::ChkSrcStartNotFound => "chk_src_start not found — corrupt data or wrong offset"@,
            UnpackError::TableStartNotFound => "table_start not found — corrupt data or wrong offset"@,
            UnpackError::BytecodeGenerationFailed(stage) => stage.text() + " bytecode generation failed — corrupt data or wrong offset"@,
            UnpackError::Stage5MarkerNotFound => "stage5 marker not found — this build's layout is not supported by this unpacker"@,
            UnpackError::NotCrackproof => "not a Crackproof-protected file"@,
            UnpackError::InvalidPeOffset { offset, input_len } => "invalid PE header offset "@ + signed(offset as int) + " for "@ + dec(input_len as nat) + "-byte input"@,
            UnpackError::UnsupportedDllPeMagic { found } => "DLL pipeline requires PE32+ optional-header magic, got 0x"@ + hex_digits(found as nat, 4),
            UnpackError::InvalidDllPrimaryDescriptor { address, minimum, image_len } => "DLL primary descriptor address 0x"@ + hex_digits(address as nat, 8) + " is below layout base 0x"@ + hex_digits(minimum as nat, 8) + " or outside "@ + dec(image_len as nat) + "-byte image"@,
            UnpackError::InvalidImageSize { size, max } => "invalid SizeOfImage "@ + signed(size as int) + "; expected 1..="@ + dec(max as nat),
            UnpackError::BufferRangeOutOfBounds { operation, offset, size, buffer_len } => operation.text() + " range out of bounds (offset "@ + dec(offset as nat) + ", size "@ + dec(size as nat) + ", buffer length "@ + dec(buffer_len as nat) + ")"@,
            UnpackError::ExeChecksumRangeOutOfBounds { descriptor, offset, size, image_len } => "EXE checksum descriptor at 0x"@ + hex_digits(descriptor as nat, 8) + " points outside input (offset "@ + dec(offset as nat) + ", size "@ + dec(size as nat) + ", input length "@ + dec(image_len as nat) + ")"@,
            UnpackError::DescriptorOutOfBounds { table, offset, image_len } => table.text() + " descriptor out of bounds (offset "@ + dec(offset as nat) + ", size 16, image length "@ + dec(image_len as nat) + ")"@,
            UnpackError::Pe32TblNotFound => "PE32 tbl not found — corrupt data or wrong offset"@,
            UnpackError::Pe32ThirdStageFailed => "PE32 thirdStage decrypt failed — corrupt data or wrong offset"@,
            UnpackError::Pe32CustomDecryptorNotFound => "PE32 customDecryptor not found in sevenStage"@,
            UnpackError::Pe32EighthKeyNotFound => "PE32 eighthStageKey not found"@,
            UnpackError::Pe32FileLfsrNotFound => "PE32 file LFSR not found in eighthStage"@,
            UnpackError::StageDecompressionFailed { stage, reason } => stage.text() + " decompression failed: "@ + reason.text(),
            UnpackError::SectionDecompressionFailed { pipeline, block } => pipeline.text() + " section block "@ + dec(block as nat) + " decompression failed"@,
            UnpackError::InvalidAesKeySchedule { offset } => "AES key schedule is outside the image at offset "@ + dec(offset as nat),
            UnpackError::InvalidHuffmanTable { offset } => "Huffman table is outside the image at offset "@ + dec(offset as nat),
            UnpackError::PipelineFallbackFailed { dll, exe } => "DLL pipeline failed: "@ + dll.text() + "; EXE fallback failed: "@ + exe.text(),
            UnpackError::Pe32SecondStageRangeInvalid { offset, size, image_len } => "PE32 second-stage range is invalid (offset "@ + dec(offset as nat) + ", size "@ + dec(size as nat) + ", image length "@ + dec(image_len as nat) + ")"@,
            UnpackError::Pe32RelocationDataNotFound => "PE32 relocation-data descriptor not found"@,
            UnpackError::FileDecryptorValidationFailed => "file decryptor candidate failed structural validation"@,
            UnpackError::Pe32OutputLayoutInvalid => "PE32 memory image could not be rebuilt as a file-layout PE"@,
            UnpackError::InternalPanic { message, file, line, column } => "internal panic at "@ + file@ + ":"@ + dec(line as nat) + ":"@ + dec(column as nat) + ": "@ + message@,
            UnpackError::CorruptInput => "the image refers outside itself or outside the file"@,
        }
    }

    /// The message of an error.
    pub fn to_string(&self) -> (r: String)
        ensures
            r@ == self.text(),
        decreases self,
    {
        match self {
            UnpackError::InputTooShort { actual, required } => {
                let mut s: String = "input too short (need at least ".to_owned();
                push_dec(&mut s, *required as u64);
                s.append(" bytes, got ");
                push_dec(&mut s, *actual as u64);
                s.append(")");
                s
            },
            UnpackError::HeaderMagicMismatch { found } => {
                let mut s: String = "decrypted header magic mismatch (got 0x".to_owned();
                push_hex_digits(&mut s, *found as u64, 8);
                s.append(")");
                s
            },
            UnpackError::AnchorNotFound => "anchor field not found — corrupt data or wrong offset".to_owned(),
            UnpackError::Stage1DescriptorNotFound { anchor } => {
                let mut s: String = "stage1 descriptor not found near anchor 0x".to_owned();
                push_hex_digits(&mut s, *anchor as u64, 8);
                s
            },
            UnpackError::Stage2NotFound => "stage2 field not found — corrupt data or wrong offset".to_owned(),
            UnpackError::ChkSrcStartNotFound => "chk_src_start not found — corrupt data or wrong offset".to_owned(),
            UnpackError::TableStartNotFound => "table_start not found — corrupt data or wrong offset".to_owned(),
            UnpackError::BytecodeGenerationFailed(stage) => {
                let mut s: String = stage.name().to_owned();
                s.append(" bytecode generation failed — corrupt data or wrong offset");
                s
            },
            UnpackError::Stage5MarkerNotFound => "stage5 marker not found — this build's layout is not supported by this unpacker".to_owned(),
            UnpackError::NotCrackproof => "not a Crackproof-protected file".to_owned(),
            UnpackError::InvalidPeOffset { offset, input_len } => {
                let mut s: String = "invalid PE header offset ".to_owned();
                push_signed(&mut s, *offset);
                s.append(" for ");
                push_dec(&mut s, *input_len as u64);
                s.append("-byte input");
                s
            },
            UnpackError::UnsupportedDllPeMagic { found } => {
                let mut s: String = "DLL pipeline requires PE32+ optional-header magic, got 0x".to_owned();
                push_hex_digits(&mut s, *found as u64, 4);
                s
            },
            UnpackError::InvalidDllPrimaryDescriptor { address, minimum, image_len } => {
                let mut s: String = "DLL primary descriptor address 0x".to_owned();
                push_hex_digits(&mut s, *address as u64, 8);
                s.append(" is below layout base 0x");
                push_hex_digits(&mut s, *minimum as u64, 8);
                s.append(" or outside ");
                push_dec(&mut s, *image_len as u64);
                s.append("-byte image");
                s
            },
            UnpackError::InvalidImageSize { size, max } => {
                let mut s: String = "invalid SizeOfImage ".to_owned();
                push_signed(&mut s, *size);
                s.append("; expected 1..=");
                push_dec(&mut s, *max as u64);
                s
            },
            UnpackError::BufferRangeOutOfBounds { operation, offset, size, buffer_len } => {
                let mut s: String = operation.name().to_owned();
                s.append(" range out of bounds (offset ");
                push_dec(&mut s, *offset as u64);
                s.append(", size ");
                push_dec(&mut s, *size as u64);
                s.append(", buffer length ");
                push_dec(&mut s, *buffer_len as u64);
                s.append(")");
                s
            },
            UnpackError::ExeChecksumRangeOutOfBounds { descriptor, offset, size, image_len } => {
                let mut s: String = "EXE checksum descriptor at 0x".to_owned();
                push_hex_digits(&mut s, *descriptor as u64, 8);
                s.append(" points outside input (offset ");
                push_dec(&mut s, *offset as u64);
                s.append(", size ");
                push_dec(&mut s, *size as u64);
                s.append(", input length ");
                push_dec(&mut s, *image_len as u64);
                s.append(")");
                s
            },
            UnpackError::DescriptorOutOfBounds { table, offset, image_len } => {
                let mut s: String = table.name().to_owned();
                s.append(" descriptor out of bounds (offset ");
                push_dec(&mut s, *offset as u64);
                s.append(", size 16, image length ");
                push_dec(&mut s, *image_len as u64);
                s.append(")");
                s
            },
            UnpackError::Pe32TblNotFound => "PE32 tbl not found — corrupt data or wrong offset".to_owned(),
            UnpackError::Pe32ThirdStageFailed => "PE32 thirdStage decrypt failed — corrupt data or wrong offset".to_owned(),
            UnpackError::Pe32CustomDecryptorNotFound => "PE32 customDecryptor not found in sevenStage".to_owned(),
            UnpackError::Pe32EighthKeyNotFound => "PE32 eighthStageKey not found".to_owned(),
            UnpackError::Pe32FileLfsrNotFound => "PE32 file LFSR not found in eighthStage".to_owned(),
            UnpackError::StageDecompressionFailed { stage, reason } => {
                let mut s: String = stage.name().to_owned();
                s.append(" decompression failed: ");
                let t: String = reason.to_string();
                s.append(t.as_str());
                s
            },
            UnpackError::SectionDecompressionFailed { pipeline, block } => {
                let mut s: String = pipeline.name().to_owned();
                s.append(" section block ");
                push_dec(&mut s, *block as u64);
                s.append(" decompression failed");
                s
            },
            UnpackError::InvalidAesKeySchedule { offset } => {
                let mut s: String = "AES key schedule is outside the image at offset ".to_owned();
                push_dec(&mut s, *offset as u64);
                s
            },
            UnpackError::InvalidHuffmanTable { offset } => {
                let mut s: String = "Huffman table is outside the image at offset ".to_owned();
                push_dec(&mut s, *offset as u64);
                s
            },
            UnpackError::PipelineFallbackFailed { dll, exe } => {
                let mut s: String = "DLL pipeline failed: ".to_owned();
                let t: String = dll.to_string();
                s.append(t.as_str());
                s.append("; EXE fallback failed: ");
                let t: String = exe.to_string();
                s.append(t.as_str());
                s
            },
            UnpackError::Pe32SecondStageRangeInvalid { offset, size, image_len } => {
                let mut s: String = "PE32 second-stage range is invalid (offset ".to_owned();
                push_dec(&mut s, *offset as u64);
                s.append(", size ");
                push_dec(&mut s, *size as u64);
                s.append(", image length ");
                push_dec(&mut s, *image_len as u64);
                s.append(")");
                s
            },
            UnpackError::Pe32RelocationDataNotFound => "PE32 relocation-data descriptor not found".to_owned(),
            UnpackError::FileDecryptorValidationFailed => "file decryptor candidate failed structural validation".to_owned(),
            UnpackError::Pe32OutputLayoutInvalid => "PE32 memory image could not be rebuilt as a file-layout PE".to_owned(),
            UnpackError::InternalPanic { message, file, line, column } => {
                let mut s: String = "internal panic at ".to_owned();
                s.append(file.as_str());
                s.append(":");
                push_dec(&mut s, *line as u64);
                s.append(":");
                push_dec(&mut s, *column as u64);
                s.append(": ");
                s.append(message.as_str());
                s
            },
            UnpackError::CorruptInput => "the image refers outside itself or outside the file".to_owned(),
        }
    }
}

} // verus!
