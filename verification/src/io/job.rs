//! One file, in memory: splice its companion, unpack it, restore what the stub
//! keeps, check the result. And the tally of a run over many.

use vstd::prelude::*;

use crate::error::UnpackError;
use crate::io::companion::{
    overlay_exports_from_stub, restore_tls_from_stub, splice_companion, spliced, with_exports,
    with_tls, Lookup,
};
use crate::pe::integrity::{check, issues_of, IntegrityReport};
use crate::pe::pipeline::{unpack_v, unpacked};
use crate::text::{dec, push_dec, texts};

verus! {

/// The kind of a protected module.
#[derive(Debug, Clone, Copy, PartialEq, Eq, Structural)]
pub enum Kind {
    NativeExe,
    ManagedExe,
    NativeDll,
    ManagedDll,
}

impl Kind {
    /// The name of a kind.
    pub open spec fn name(self) -> Seq<char> {
        match self {
            Kind::NativeExe => "native-exe"@,
            Kind::ManagedExe => "managed-exe"@,
            Kind::NativeDll => "native-dll"@,
            Kind::ManagedDll => "managed-dll"@,
        }
    }

    /// The name of a kind.
    pub fn kind_str(self) -> (r: &'static str)
        ensures
            r@ == self.name(),
    {
        match self {
            Kind::NativeExe => "native-exe",
            Kind::ManagedExe => "managed-exe",
            Kind::NativeDll => "native-dll",
            Kind::ManagedDll => "managed-dll",
        }
    }
}

/// What unpacking a file in memory gave.
pub struct UnpackedImage {
    pub kind: Kind,
    pub bytes: Vec<u8>,
    pub integrity: IntegrityReport,
    /// Whether the input was spliced with a companion.
    pub companion: bool,
}

/// What an [`UnpackedImage`] says.
#[verifier::ext_equal]
pub struct ImageInfo {
    pub kind: Kind,
    pub bytes: Seq<u8>,
    pub issues: Seq<Seq<char>>,
    pub companion: bool,
}

impl View for UnpackedImage {
    type V = ImageInfo;

    open spec fn view(&self) -> ImageInfo {
        ImageInfo {
            kind: self.kind,
            bytes: self.bytes@,
            issues: texts(self.integrity.issues@),
            companion: self.companion,
        }
    }
}

/// A file and its companion as one, where they are a pair.
pub open spec fn joined(input: Seq<u8>, companion: Option<Seq<u8>>) -> Option<Seq<u8>> {
    match companion {
        Some(c) => spliced(input, c),
        None => None,
    }
}

/// The bytes of a companion that may be there.
pub open spec fn companion_view(c: Option<&[u8]>) -> Option<Seq<u8>> {
    match c {
        Some(v) => Some(v@),
        None => None,
    }
}

/// The bytes that are unpacked.
pub open spec fn worked_on(input: Seq<u8>, companion: Option<Seq<u8>>) -> Seq<u8> {
    match joined(input, companion) {
        Some(v) => v,
        None => input,
    }
}

/// The image that comes of an unpacked one: restored from the stub, if there was
/// a companion, and checked.
pub open spec fn image_of(
    l: Lookup,
    input: Seq<u8>,
    with_companion: bool,
    kind: Kind,
    out: Seq<u8>,
) -> ImageInfo {
    let bytes = if with_companion {
        with_tls(l, with_exports(l, out, input), input)
    } else {
        out
    };
    ImageInfo { kind, bytes, issues: issues_of(bytes), companion: with_companion }
}

/// What unpacking as an executable gives. `kind` is what the file was detected as.
pub open spec fn executable(
    l: Lookup,
    input: Seq<u8>,
    companion: Option<Seq<u8>>,
    supported: Seq<u32>,
    forced: Option<u32>,
    kind: Option<Kind>,
) -> Result<ImageInfo, UnpackError> {
    match kind {
        None => Err(UnpackError::NotCrackproof),
        Some(k) => match unpacked(worked_on(input, companion), supported, forced) {
            Err(e) => Err(e),
            Ok(out) => Ok(image_of(l, input, joined(input, companion) is Some, k, out)),
        },
    }
}

/// The bytes to unpack, and whether a companion is part of them.
pub fn unpacker_input(input: &[u8], companion: Option<&[u8]>) -> (r: (Vec<u8>, bool))
    ensures
        r.0@ == worked_on(input@, companion_view(companion)),
        r.1 == (joined(input@, companion_view(companion)) is Some),
{
    match companion {
        Some(c) => match splice_companion(input, c) {
            Some(v) => (v, true),
            None => (vstd::slice::slice_to_vec(input), false),
        },
        None => (vstd::slice::slice_to_vec(input), false),
    }
}

/// Restore what the stub keeps, and check the image.
fn finish_image(l: Lookup, input: &[u8], with_companion: bool, kind: Kind, bytes: Vec<u8>) -> (r:
    UnpackedImage)
    ensures
        r@ == image_of(l, input@, with_companion, kind, bytes@),
{
    let mut out: Vec<u8> = bytes;
    if with_companion {
        overlay_exports_from_stub(l, &mut out, input);
        restore_tls_from_stub(l, &mut out, input);
    }
    let integrity: IntegrityReport = check(&out);
    UnpackedImage { kind, bytes: out, integrity, companion: with_companion }
}

/// Unpack a file as an executable, its companion spliced in.
pub fn unpack_executable(
    l: Lookup,
    input: &[u8],
    companion: Option<&[u8]>,
    supported: &[u32],
    dd8_shift: Option<u32>,
    kind: Option<Kind>,
) -> (r: Result<UnpackedImage, UnpackError>)
    ensures
        match executable(
            l,
            input@,
            companion_view(companion),
            supported@,
            dd8_shift,
            kind,
        ) {
            Ok(v) => r is Ok && r->Ok_0@ == v,
            Err(e) => r is Err && r->Err_0 == e,
        },
{
    let kind: Kind = match kind {
        Some(k) => k,
        None => return Err(UnpackError::NotCrackproof),
    };
    let (bytes, with_companion): (Vec<u8>, bool) = unpacker_input(input, companion);
    let out: Vec<u8> = unpack_v(&bytes, supported, dd8_shift)?;
    Ok(finish_image(l, input, with_companion, kind, out))
}

/// What unpacking by detection gives: as an executable where a companion was
/// spliced in, and else what the pipelines made of it, checked.
pub open spec fn routed(
    l: Lookup,
    input: Seq<u8>,
    companion: Option<Seq<u8>>,
    supported: Seq<u32>,
    forced: Option<u32>,
    kind: Option<Kind>,
    auto_kind: Kind,
    auto: Result<Seq<u8>, UnpackError>,
) -> Result<ImageInfo, UnpackError> {
    if joined(input, companion) is Some {
        executable(l, input, companion, supported, forced, kind)
    } else {
        match auto {
            Err(e) => Err(e),
            Ok(out) => Ok(image_of(l, input, false, auto_kind, out)),
        }
    }
}

/// What the pipelines made of a file that was tried as a library first.
pub enum Automatic {
    Unpacked(Kind, Vec<u8>),
    Failed(UnpackError),
}

impl Automatic {
    /// The kind, where the file was unpacked.
    pub open spec fn kind(self) -> Kind {
        match self {
            Automatic::Unpacked(k, _) => k,
            Automatic::Failed(_) => Kind::NativeExe,
        }
    }

    /// The bytes, or the failure.
    pub open spec fn bytes(self) -> Result<Seq<u8>, UnpackError> {
        match self {
            Automatic::Unpacked(_, v) => Ok(v@),
            Automatic::Failed(e) => Err(e),
        }
    }
}

/// Unpack a file by detection. A file with its companion is an executable, whatever
/// it was detected as; for one without, `auto` is what the pipelines made of it.
pub fn unpack_routed(
    l: Lookup,
    input: &[u8],
    companion: Option<&[u8]>,
    supported: &[u32],
    dd8_shift: Option<u32>,
    kind: Option<Kind>,
    auto: Automatic,
) -> (r: Result<UnpackedImage, UnpackError>)
    ensures
        match routed(
            l,
            input@,
            companion_view(companion),
            supported@,
            dd8_shift,
            kind,
            auto.kind(),
            auto.bytes(),
        ) {
            Ok(v) => r is Ok && r->Ok_0@ == v,
            Err(e) => r is Err && r->Err_0 == e,
        },
{
    let pair: bool = match companion {
        Some(c) => splice_companion(input, c).is_some(),
        None => false,
    };
    if pair {
        return unpack_executable(l, input, companion, supported, dd8_shift, kind);
    }
    match auto {
        Automatic::Failed(e) => Err(e),
        Automatic::Unpacked(k, out) => Ok(finish_image(l, input, false, k, out)),
    }
}

/// Unpack a file by detection, addresses looked up by the section table.
pub fn unpack_bytes(
    input: &[u8],
    companion: Option<&[u8]>,
    supported: &[u32],
    dd8_shift: Option<u32>,
    kind: Option<Kind>,
    auto: Automatic,
) -> (r: Result<UnpackedImage, UnpackError>)
    ensures
        match routed(
            Lookup::Sections,
            input@,
            companion_view(companion),
            supported@,
            dd8_shift,
            kind,
            auto.kind(),
            auto.bytes(),
        ) {
            Ok(v) => r is Ok && r->Ok_0@ == v,
            Err(e) => r is Err && r->Err_0 == e,
        },
{
    unpack_routed(Lookup::Sections, input, companion, supported, dd8_shift, kind, auto)
}

/// Unpack a file as an executable, addresses looked up by the section table.
pub fn unpack_bytes_force_exe(
    input: &[u8],
    companion: Option<&[u8]>,
    supported: &[u32],
    dd8_shift: Option<u32>,
    kind: Option<Kind>,
) -> (r: Result<UnpackedImage, UnpackError>)
    ensures
        match executable(
            Lookup::Sections,
            input@,
            companion_view(companion),
            supported@,
            dd8_shift,
            kind,
        ) {
            Ok(v) => r is Ok && r->Ok_0@ == v,
            Err(e) => r is Err && r->Err_0 == e,
        },
{
    unpack_executable(Lookup::Sections, input, companion, supported, dd8_shift, kind)
}

/// The tally of a run.
#[derive(Debug, Clone, Copy, PartialEq, Eq, Structural)]
pub struct Summary {
    pub unpacked: usize,
    pub skipped: usize,
    pub errors: usize,
    /// Files that were unpacked, and counted so, but fail the integrity check.
    pub suspect: usize,
    /// Metadata files restored, those inside libraries included.
    pub metadata: usize,
    /// App packages that were searched.
    pub packages: usize,
    /// How long the run took.
    pub duration_ms: u128,
}

/// Metadata inside a restored library.
#[derive(Debug, Clone, Copy, PartialEq, Eq, Structural)]
pub enum Embedded {
    Absent,
    Written,
    Failed,
}

/// What became of a file.
#[derive(Debug, Clone, Copy, PartialEq, Eq, Structural)]
pub enum Event {
    /// A module was unpacked; whether it passed the integrity check.
    Unpacked { sound: bool },
    /// A file was not worked on to an end.
    Failed,
    /// A library that was met before.
    Duplicate,
    /// A library was restored.
    LibraryRestored { embedded: Embedded },
    /// A package was opened.
    Package,
    /// A library inside a package was restored.
    EntryLibrary,
    /// Metadata inside a package was restored.
    EntryMetadata,
    /// An entry of a package that is no target, needed nothing or was met before.
    EntryLeft,
    /// Metadata with this many tokens to restore.
    Metadata { remapped: usize },
    /// Metadata of a version that is not known: left as it is.
    MetadataUnsupported,
}

/// The tally after one more event.
pub open spec fn counted(s: Summary, e: Event) -> Summary {
    match e {
        Event::Unpacked { sound } => Summary {
            unpacked: (s.unpacked + 1) as usize,
            suspect: if sound {
                s.suspect
            } else {
                (s.suspect + 1) as usize
            },
            ..s
        },
        Event::Failed => Summary { errors: (s.errors + 1) as usize, ..s },
        Event::Duplicate => Summary { skipped: (s.skipped + 1) as usize, ..s },
        Event::LibraryRestored { embedded } => Summary {
            unpacked: (s.unpacked + 1) as usize,
            metadata: if embedded is Written {
                (s.metadata + 1) as usize
            } else {
                s.metadata
            },
            errors: if embedded is Failed {
                (s.errors + 1) as usize
            } else {
                s.errors
            },
            ..s
        },
        Event::Package => Summary { packages: (s.packages + 1) as usize, ..s },
        Event::EntryLibrary => Summary { unpacked: (s.unpacked + 1) as usize, ..s },
        Event::EntryMetadata => Summary { metadata: (s.metadata + 1) as usize, ..s },
        Event::EntryLeft => Summary { skipped: (s.skipped + 1) as usize, ..s },
        Event::Metadata { remapped } => if remapped > 0 {
            Summary { metadata: (s.metadata + 1) as usize, ..s }
        } else {
            s
        },
        Event::MetadataUnsupported => Summary { skipped: (s.skipped + 1) as usize, ..s },
    }
}

impl Summary {
    /// Whether one more event can be counted.
    pub open spec fn has_room(self) -> bool {
        self.unpacked < usize::MAX && self.skipped < usize::MAX && self.errors < usize::MAX
            && self.suspect < usize::MAX && self.metadata < usize::MAX && self.packages
            < usize::MAX
    }

    /// The tally at the start of a run: what the scan skipped, and what it could
    /// not classify, which may be a target that was missed.
    pub fn start(skipped: usize, unclassified: usize) -> (r: Self)
        ensures
            r == (Summary {
                unpacked: 0,
                skipped,
                errors: unclassified,
                suspect: 0,
                metadata: 0,
                packages: 0,
                duration_ms: 0,
            }),
    {
        Summary {
            unpacked: 0,
            skipped,
            errors: unclassified,
            suspect: 0,
            metadata: 0,
            packages: 0,
            duration_ms: 0,
        }
    }

    /// Count an event.
    pub fn count(&mut self, e: Event)
        requires
            old(self).has_room(),
        ensures
            *final(self) == counted(*old(self), e),
    {
        match e {
            Event::Unpacked { sound } => {
                self.unpacked = self.unpacked + 1;
                if !sound {
                    self.suspect = self.suspect + 1;
                }
            },
            Event::Failed => self.errors = self.errors + 1,
            Event::Duplicate => self.skipped = self.skipped + 1,
            Event::LibraryRestored { embedded } => {
                self.unpacked = self.unpacked + 1;
                match embedded {
                    Embedded::Absent => {},
                    Embedded::Written => self.metadata = self.metadata + 1,
                    Embedded::Failed => self.errors = self.errors + 1,
                }
            },
            Event::Package => self.packages = self.packages + 1,
            Event::EntryLibrary => self.unpacked = self.unpacked + 1,
            Event::EntryMetadata => self.metadata = self.metadata + 1,
            Event::EntryLeft => self.skipped = self.skipped + 1,
            Event::Metadata { remapped } => if remapped > 0 {
                self.metadata = self.metadata + 1;
            },
            Event::MetadataUnsupported => self.skipped = self.skipped + 1,
        }
    }

    /// The line that sums a run up.
    pub open spec fn text(self) -> Seq<char> {
        let line = dec(self.unpacked as nat) + " unpacked · "@ + dec(self.skipped as nat)
            + " skipped · "@ + dec(self.errors as nat) + " errors · "@ + dec(self.suspect as nat)
            + " suspect · "@ + dec(self.metadata as nat) + " metadata"@;
        if self.packages > 0 {
            line + " · "@ + dec(self.packages as nat) + " packages"@
        } else {
            line
        }
    }

    /// The line that sums a run up.
    pub fn line(&self) -> (r: String)
        ensures
            r@ == self.text(),
    {
        let mut s: String = String::new();
        push_dec(&mut s, self.unpacked as u64);
        assert(s@ =~= dec(self.unpacked as nat));
        s.append(" unpacked · ");
        push_dec(&mut s, self.skipped as u64);
        s.append(" skipped · ");
        push_dec(&mut s, self.errors as u64);
        s.append(" errors · ");
        push_dec(&mut s, self.suspect as u64);
        s.append(" suspect · ");
        push_dec(&mut s, self.metadata as u64);
        s.append(" metadata");
        if self.packages > 0 {
            s.append(" · ");
            push_dec(&mut s, self.packages as u64);
            s.append(" packages");
        }
        s
    }
}

/// The tally of a run over some events.
pub open spec fn tally(s: Summary, events: Seq<Event>) -> Summary
    decreases events.len(),
{
    if events.len() == 0 {
        s
    } else {
        counted(tally(s, events.drop_last()), events.last())
    }
}

/// Whether an event is an error.
pub open spec fn is_error(e: Event) -> bool {
    e is Failed || (e matches Event::LibraryRestored { embedded } && embedded is Failed)
}

/// A run without errors is one in which no event was an error and the scan
/// classified every file.
pub proof fn errors_are_never_lost(s: Summary, events: Seq<Event>)
    requires
        s.errors + events.len() < usize::MAX,
    ensures
        s.errors <= tally(s, events).errors <= s.errors + events.len(),
        tally(s, events).errors == 0 <==> s.errors == 0 && forall|i: int|
            0 <= i < events.len() ==> !is_error(#[trigger] events[i]),
    decreases events.len(),
{
    if events.len() > 0 {
        let before = events.drop_last();
        errors_are_never_lost(s, before);
        assert forall|i: int| 0 <= i < before.len() implies before[i] == #[trigger] events[i] by {
        }
        if tally(s, events).errors == 0 {
            assert forall|i: int| 0 <= i < events.len() implies !is_error(
                #[trigger] events[i],
            ) by {
                if i < before.len() {
                    assert(!is_error(before[i]));
                }
            }
        }
        if s.errors == 0 && (forall|i: int|
            0 <= i < events.len() ==> !is_error(#[trigger] events[i])) {
            assert forall|i: int| 0 <= i < before.len() implies !is_error(
                #[trigger] before[i],
            ) by {
                assert(!is_error(events[i]));
            }
            assert(!is_error(events[events.len() - 1]));
        }
    }
}

/// What a single file is worked on as.
#[derive(Debug, Clone, Copy, PartialEq, Eq, Structural)]
pub enum Route {
    Metadata,
    Library,
    Package,
    Module,
}

/// What a single file is worked on as: metadata first, a protected library next, a
/// package only where it is no such library, and all else as a module.
pub fn route(is_metadata: bool, is_library: bool, is_package: bool) -> (r: Route)
    ensures
        r == (if is_metadata {
            Route::Metadata
        } else if is_library {
            Route::Library
        } else if is_package {
            Route::Package
        } else {
            Route::Module
        }),
{
    if is_metadata {
        Route::Metadata
    } else if is_library {
        Route::Library
    } else if is_package {
        Route::Package
    } else {
        Route::Module
    }
}

} // verus!
