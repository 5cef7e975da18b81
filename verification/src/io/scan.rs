//! Which files of a tree are looked at, and what they are found to be.

use vstd::prelude::*;

use crate::bytes::{fits, le32};
use crate::io::paths::{
    alike, eq_ignore_case, extension_of, file_name, file_name_of, has_extension, lower,
    name_has_extension, path_extension, path_has_extension, same_text, split_of, Platform,
};
use crate::metadata::{is_metadata, MAGIC};
use crate::text::texts;

verus! {

/// The file name of a metadata file.
pub const METADATA_FILE_NAME: &'static str = "global-metadata.dat";

/// The smallest file that can be a target: a module has its key table at 4096.
pub const MIN_SIZE: u64 = 4128;

/// How many bytes of a file are read to find out what it is.
pub const DETECT_PREFIX: u64 = 8192;

/// What a file is found to be.
#[derive(Debug, Clone, Copy, PartialEq, Eq, Structural)]
pub enum Class {
    /// Nothing that is worked on.
    Other,
    /// A protected module.
    Crackproof,
    /// A metadata file.
    Metadata,
    /// A protected library.
    AndroidSo,
    /// An app package.
    AndroidPackage,
}

/// How many files were no targets.
#[derive(Debug, Clone, Copy, PartialEq, Eq, Structural)]
pub struct ScanStats {
    /// Files that were read and are no target.
    pub skipped: usize,
    /// Directory entries that were not read.
    pub walk_errors: usize,
    /// Files that were not classified.
    pub probe_errors: usize,
}

/// What a scan found, in the order of the walk.
pub struct ScanResult {
    pub crackproof: Vec<String>,
    pub metadata: Vec<String>,
    pub android_so: Vec<String>,
    pub android_packages: Vec<String>,
    pub stats: ScanStats,
}

/// Whether a path names a metadata file.
pub open spec fn metadata_name(p: Platform, path: Seq<char>) -> bool {
    file_name_of(split_of(p, path)) matches Some(t) && alike(t, METADATA_FILE_NAME@)
}

/// Whether a path names a metadata file.
pub fn is_metadata_name(p: Platform, path: &str) -> (r: bool)
    ensures
        r == metadata_name(p, path@),
{
    match file_name(p, path) {
        Some(t) => eq_ignore_case(t.as_str(), METADATA_FILE_NAME),
        None => false,
    }
}

/// Whether a path names a module.
pub open spec fn pe_name(p: Platform, path: Seq<char>) -> bool {
    path_extension(p, path, "exe"@) || path_extension(p, path, "dll"@)
}

/// Whether a path names a module: `.exe` or `.dll`.
pub fn is_pe_extension(p: Platform, path: &str) -> (r: bool)
    ensures
        r == pe_name(p, path@),
{
    path_has_extension(p, path, "exe") || path_has_extension(p, path, "dll")
}

/// Whether a path names a library.
pub open spec fn so_name(p: Platform, path: Seq<char>) -> bool {
    path_extension(p, path, "so"@)
}

/// Whether a path names a library: `.so`.
pub fn is_so_name(p: Platform, path: &str) -> (r: bool)
    ensures
        r == so_name(p, path@),
{
    path_has_extension(p, path, "so")
}

/// Whether a path names an app package.
pub open spec fn package_name(p: Platform, path: Seq<char>) -> bool {
    path_extension(p, path, "apk"@) || path_extension(p, path, "apks"@) || path_extension(
        p,
        path,
        "xapk"@,
    )
}

/// Whether a path names an app package: `.apk`, `.apks` or `.xapk`.
pub fn is_package_name(p: Platform, path: &str) -> (r: bool)
    ensures
        r == package_name(p, path@),
{
    path_has_extension(p, path, "apk") || path_has_extension(p, path, "apks")
        || path_has_extension(p, path, "xapk")
}

/// Whether a file name is that of a companion: a module's name and `._`.
pub open spec fn companion_file(name: Seq<char>) -> bool {
    let n = name.len() as int;
    &&& n >= 2
    &&& name[n - 2] == '.' && name[n - 1] == '_'
    &&& has_extension(name.subrange(0, n - 2), "exe"@) || has_extension(
        name.subrange(0, n - 2),
        "dll"@,
    )
}

/// Whether a path names a companion.
pub open spec fn companion_name(p: Platform, path: Seq<char>) -> bool {
    file_name_of(split_of(p, path)) matches Some(t) && companion_file(t)
}

/// Whether a path names a companion: a module's name and `._`.
pub fn is_companion(p: Platform, path: &str) -> (r: bool)
    ensures
        r == companion_name(p, path@),
{
    let name: String = match file_name(p, path) {
        Some(t) => t,
        None => return false,
    };
    let n: usize = name.as_str().unicode_len();
    if n < 2 {
        return false;
    }
    if name.as_str().get_char(n - 2) != '.' || name.as_str().get_char(n - 1) != '_' {
        return false;
    }
    let stub: &str = name.as_str().substring_char(0, n - 2);
    name_has_extension(stub, "exe") || name_has_extension(stub, "dll")
}

/// The name of a module's companion.
pub fn companion_of(name: &str) -> (r: String)
    ensures
        r@ == name@ + "._"@,
{
    let mut s: String = name.to_owned();
    s.append("._");
    s
}

/// A module's companion is known as one.
pub proof fn companion_is_recognised(name: Seq<char>)
    requires
        has_extension(name, "exe"@) || has_extension(name, "dll"@),
    ensures
        companion_file(name + "._"@),
{
    reveal_strlit("._");
    let t = name + "._"@;
    assert(t.subrange(0, t.len() - 2) =~= name);
}

/// Whether a directory is walked. The root always is; no directory named `unpack`,
/// which holds earlier output, and none that points elsewhere.
pub fn descends(depth: usize, name: &str, reparse_point: bool) -> (r: bool)
    ensures
        r == (depth == 0 || (!alike(name@, "unpack"@) && !reparse_point)),
{
    depth == 0 || (!eq_ignore_case(name, "unpack") && !reparse_point)
}

/// Whether a file is looked at.
pub open spec fn selected(
    p: Platform,
    path: Seq<char>,
    size: Option<u64>,
    scan_all: bool,
) -> bool {
    &&& !companion_name(p, path)
    &&& metadata_name(p, path) || pe_name(p, path) || so_name(p, path) || package_name(p, path)
    &&& scan_all || !(size matches Some(n) && n < MIN_SIZE)
}

/// Looking at all files drops the limit on their size alone: it looks at no file with
/// another name and at no companion, and misses none that is looked at otherwise.
pub proof fn looking_at_all_keeps_the_names(p: Platform, path: Seq<char>, size: Option<u64>)
    ensures
        selected(p, path, size, false) ==> selected(p, path, size, true),
        selected(p, path, size, true) ==> !companion_name(p, path) && (metadata_name(p, path)
            || pe_name(p, path) || so_name(p, path) || package_name(p, path)),
        size matches Some(n) && n < MIN_SIZE ==> !selected(p, path, size, false),
        !(size matches Some(n) && n < MIN_SIZE) ==> selected(p, path, size, false) == selected(
            p,
            path,
            size,
            true,
        ),
{
}

/// Whether a file is looked at: by its name, and, unless all are, by its size as far
/// as that is known.
pub fn is_selected(p: Platform, path: &str, size: Option<u64>, scan_all: bool) -> (r: bool)
    ensures
        r == selected(p, path@, size, scan_all),
{
    if is_companion(p, path) {
        return false;
    }
    if !is_metadata_name(p, path) && !is_pe_extension(p, path) && !is_so_name(p, path)
        && !is_package_name(p, path) {
        return false;
    }
    if scan_all {
        return true;
    }
    match size {
        Some(n) => n >= MIN_SIZE,
        None => true,
    }
}

/// Whether a character is white space.
pub open spec fn is_space(c: char) -> bool {
    let n = c as u32;
    ||| 9 <= n <= 13
    ||| n == 0x20 || n == 0x85 || n == 0xA0 || n == 0x1680
    ||| 0x2000 <= n <= 0x200A
    ||| n == 0x2028 || n == 0x2029 || n == 0x202F || n == 0x205F || n == 0x3000
}

/// How many of the characters from `i` on are white space, up to the first that is
/// not.
pub open spec fn spaces_from(s: Seq<char>, i: int) -> int
    decreases s.len() - i,
{
    if i < s.len() && is_space(s[i]) {
        spaces_from(s, i + 1)
    } else {
        i
    }
}

/// Where the white space at the end of the first `n` characters starts.
pub open spec fn spaces_to(s: Seq<char>, n: int) -> int
    decreases n,
{
    if n > 0 && is_space(s[n - 1]) {
        spaces_to(s, n - 1)
    } else {
        n
    }
}

/// A text without the white space around it.
pub open spec fn trimmed(s: Seq<char>) -> Seq<char> {
    let a = spaces_from(s, 0);
    let b = spaces_to(s, s.len() as int);
    if a < b {
        s.subrange(a, b)
    } else {
        Seq::empty()
    }
}

fn space(c: char) -> (r: bool)
    ensures
        r == is_space(c),
{
    let n: u32 = c as u32;
    (9 <= n && n <= 13) || n == 0x20 || n == 0x85 || n == 0xA0 || n == 0x1680 || (0x2000 <= n && n
        <= 0x200A) || n == 0x2028 || n == 0x2029 || n == 0x202F || n == 0x205F || n == 0x3000
}

/// A text without the white space around it.
pub fn trim(s: &str) -> (r: String)
    ensures
        r@ == trimmed(s@),
{
    let n: usize = s.unicode_len();
    let mut a: usize = 0;
    while a < n && space(s.get_char(a))
        invariant
            a <= n == s@.len(),
            spaces_from(s@, 0) == spaces_from(s@, a as int),
        decreases n - a,
    {
        a = a + 1;
    }
    let mut b: usize = n;
    while b > 0 && space(s.get_char(b - 1))
        invariant
            b <= n == s@.len(),
            spaces_to(s@, n as int) == spaces_to(s@, b as int),
        decreases b,
    {
        b = b - 1;
    }
    if a < b {
        s.substring_char(a, b).to_owned()
    } else {
        let t: String = String::new();
        assert(t@ =~= Seq::<char>::empty());
        t
    }
}

/// Whether small files are looked at too: a setting that is neither empty nor `0`,
/// whatever white space stands around it.
pub fn scans_all(value: Option<&str>) -> (r: bool)
    ensures
        r == (match value {
            Some(t) => trimmed(t@) != ""@ && trimmed(t@) != "0"@,
            None => false,
        }),
{
    match value {
        Some(t) => {
            let s: String = trim(t);
            !same_text(s.as_str(), "") && !same_text(s.as_str(), "0")
        },
        None => false,
    }
}

/// How many workers there are: as many as are set, if that is a number above zero,
/// else as many as the machine has, else one.
pub fn thread_cap(setting: Option<usize>, available: Option<usize>) -> (r: usize)
    ensures
        r == (match (setting, available) {
            (Some(n), _) if n >= 1 => n,
            (_, Some(n)) => n,
            _ => 1,
        }),
{
    match setting {
        Some(n) => if n >= 1 {
            return n;
        },
        None => {},
    }
    match available {
        Some(n) => n,
        None => 1,
    }
}

/// What the detectors say of a file.
#[derive(Debug, Clone, Copy, PartialEq, Eq, Structural)]
pub struct Verdicts {
    /// It is an app package.
    pub package: bool,
    /// It has the key table of a protected module.
    pub module: bool,
    /// It starts as an AArch64 ELF64 image and is a protected library.
    pub library: bool,
}

/// What a file is, by its name, its first bytes and what the detectors say.
pub open spec fn class_of(p: Platform, path: Seq<char>, head: Seq<u8>, v: Verdicts) -> Class {
    if package_name(p, path) && v.package {
        Class::AndroidPackage
    } else if metadata_name(p, path) && fits(head, 0, 4) && le32(head, 0) == MAGIC {
        Class::Metadata
    } else if pe_name(p, path) && v.module {
        Class::Crackproof
    } else if so_name(p, path) && v.library {
        Class::AndroidSo
    } else {
        Class::Other
    }
}

/// What a file is, by its name, its first bytes and what the detectors say.
pub fn classify(p: Platform, path: &str, head: &[u8], v: Verdicts) -> (r: Class)
    ensures
        r == class_of(p, path@, head@, v),
{
    if v.package && is_package_name(p, path) {
        return Class::AndroidPackage;
    }
    if is_metadata_name(p, path) && is_metadata(head) {
        return Class::Metadata;
    }
    if v.module && is_pe_extension(p, path) {
        return Class::Crackproof;
    }
    if v.library && is_so_name(p, path) {
        return Class::AndroidSo;
    }
    Class::Other
}

/// A detector of files.
#[derive(Debug, Clone, Copy, PartialEq, Eq, Structural)]
pub enum Detector {
    Package,
    Module,
    Library,
}

/// The detector that a file's name calls for. None is needed where the first bytes
/// decide.
pub open spec fn detector_of(p: Platform, path: Seq<char>, head: Seq<u8>) -> Option<Detector> {
    if package_name(p, path) {
        Some(Detector::Package)
    } else if metadata_name(p, path) && fits(head, 0, 4) && le32(head, 0) == MAGIC {
        None
    } else if pe_name(p, path) {
        Some(Detector::Module)
    } else if so_name(p, path) {
        Some(Detector::Library)
    } else {
        None
    }
}

/// The one detector to ask about a file.
pub fn detector_for(p: Platform, path: &str, head: &[u8]) -> (r: Option<Detector>)
    ensures
        r == detector_of(p, path@, head@),
{
    if is_package_name(p, path) {
        return Some(Detector::Package);
    }
    if is_metadata_name(p, path) && is_metadata(head) {
        return None;
    }
    if is_pe_extension(p, path) {
        return Some(Detector::Module);
    }
    if is_so_name(p, path) {
        return Some(Detector::Library);
    }
    None
}

/// What one detector says, where nothing is known of the others.
pub open spec fn verdict_of(d: Option<Detector>, yes: bool) -> Verdicts {
    Verdicts {
        package: d == Some(Detector::Package) && yes,
        module: d == Some(Detector::Module) && yes,
        library: d == Some(Detector::Library) && yes,
    }
}

/// What one detector says, where nothing is known of the others.
pub fn verdict(d: Option<Detector>, yes: bool) -> (r: Verdicts)
    ensures
        r == verdict_of(d, yes),
{
    Verdicts {
        package: d == Some(Detector::Package) && yes,
        module: d == Some(Detector::Module) && yes,
        library: d == Some(Detector::Library) && yes,
    }
}

/// What the detector `d` says among all verdicts.
pub open spec fn said_by(v: Verdicts, d: Option<Detector>) -> bool {
    match d {
        Some(Detector::Package) => v.package,
        Some(Detector::Module) => v.module,
        Some(Detector::Library) => v.library,
        None => false,
    }
}

proof fn extensions_differ(p: Platform, path: Seq<char>)
    ensures
        !(package_name(p, path) && pe_name(p, path)),
        !(package_name(p, path) && so_name(p, path)),
        !(pe_name(p, path) && so_name(p, path)),
{
    reveal_strlit("apk");
    reveal_strlit("apks");
    reveal_strlit("xapk");
    reveal_strlit("exe");
    reveal_strlit("dll");
    reveal_strlit("so");
    assert(lower("apk"@[0]) == 'a' as int && lower("exe"@[0]) == 'e' as int && lower("dll"@[0])
        == 'd' as int);
    match file_name_of(split_of(p, path)) {
        Some(name) => match extension_of(name) {
            Some(t) => {
                if t.len() == 3 {
                    if alike(t, "apk"@) {
                        assert(lower(t[0]) == 'a' as int);
                    }
                    if alike(t, "exe"@) {
                        assert(lower(t[0]) == 'e' as int);
                    }
                    if alike(t, "dll"@) {
                        assert(lower(t[0]) == 'd' as int);
                    }
                }
            },
            None => {},
        },
        None => {},
    }
}

/// What a file is depends on one detector alone: the one that its name calls for.
pub proof fn one_detector_decides(p: Platform, path: Seq<char>, head: Seq<u8>, v: Verdicts)
    ensures
        ({
            let d = detector_of(p, path, head);
            class_of(p, path, head, v) == class_of(p, path, head, verdict_of(d, said_by(v, d)))
        }),
{
    extensions_differ(p, path);
}

/// The paths of class `k` among the first `n`, in order.
pub open spec fn of_class(
    paths: Seq<Seq<char>>,
    classes: Seq<Option<Class>>,
    k: Class,
    n: int,
) -> Seq<Seq<char>>
    decreases n,
{
    if n <= 0 {
        Seq::empty()
    } else if classes[n - 1] == Some(k) {
        of_class(paths, classes, k, n - 1).push(paths[n - 1])
    } else {
        of_class(paths, classes, k, n - 1)
    }
}

/// How many of the first `n` files were not classified.
pub open spec fn unclassified(classes: Seq<Option<Class>>, n: int) -> int
    decreases n,
{
    if n <= 0 {
        0
    } else {
        unclassified(classes, n - 1) + if classes[n - 1] is None {
            1int
        } else {
            0
        }
    }
}

/// Sort the files of a walk by what they are. A file that was not classified is no
/// skipped one: it may be a target.
pub fn collect(paths: &[String], classes: &[Option<Class>], stats: ScanStats) -> (r: ScanResult)
    requires
        paths@.len() == classes@.len(),
        stats.skipped + paths@.len() <= usize::MAX,
        stats.probe_errors + paths@.len() <= usize::MAX,
    ensures
        ({
            let names = texts(paths@);
            let n = names.len() as int;
            &&& texts(r.crackproof@) == of_class(names, classes@, Class::Crackproof, n)
            &&& texts(r.metadata@) == of_class(names, classes@, Class::Metadata, n)
            &&& texts(r.android_so@) == of_class(names, classes@, Class::AndroidSo, n)
            &&& texts(r.android_packages@) == of_class(names, classes@, Class::AndroidPackage, n)
            &&& r.stats.skipped == stats.skipped + of_class(
                names,
                classes@,
                Class::Other,
                n,
            ).len()
            &&& r.stats.walk_errors == stats.walk_errors
            &&& r.stats.probe_errors == stats.probe_errors + unclassified(classes@, n)
        }),
{
    let mut r = ScanResult {
        crackproof: Vec::new(),
        metadata: Vec::new(),
        android_so: Vec::new(),
        android_packages: Vec::new(),
        stats,
    };
    let ghost names = texts(paths@);
    assert(texts(r.crackproof@) =~= Seq::<Seq<char>>::empty());
    assert(texts(r.metadata@) =~= Seq::<Seq<char>>::empty());
    assert(texts(r.android_so@) =~= Seq::<Seq<char>>::empty());
    assert(texts(r.android_packages@) =~= Seq::<Seq<char>>::empty());
    let mut i: usize = 0;
    while i < paths.len()
        invariant
            i <= paths@.len(),
            paths@.len() == classes@.len(),
            stats.skipped + paths@.len() <= usize::MAX,
            stats.probe_errors + paths@.len() <= usize::MAX,
            names == texts(paths@),
            texts(r.crackproof@) == of_class(names, classes@, Class::Crackproof, i as int),
            texts(r.metadata@) == of_class(names, classes@, Class::Metadata, i as int),
            texts(r.android_so@) == of_class(names, classes@, Class::AndroidSo, i as int),
            texts(r.android_packages@) == of_class(
                names,
                classes@,
                Class::AndroidPackage,
                i as int,
            ),
            r.stats.skipped == stats.skipped + of_class(
                names,
                classes@,
                Class::Other,
                i as int,
            ).len(),
            r.stats.walk_errors == stats.walk_errors,
            r.stats.probe_errors == stats.probe_errors + unclassified(classes@, i as int),
            r.stats.skipped <= stats.skipped + i,
            r.stats.probe_errors <= stats.probe_errors + i,
        decreases paths@.len() - i,
    {
        let path: String = paths[i].clone();
        assert(names[i as int] == path@);
        match classes[i] {
            Some(Class::Crackproof) => crate::text::push_text(&mut r.crackproof, path),
            Some(Class::Metadata) => crate::text::push_text(&mut r.metadata, path),
            Some(Class::AndroidSo) => crate::text::push_text(&mut r.android_so, path),
            Some(Class::AndroidPackage) => crate::text::push_text(&mut r.android_packages, path),
            Some(Class::Other) => r.stats.skipped = r.stats.skipped + 1,
            None => r.stats.probe_errors = r.stats.probe_errors + 1,
        }
        i = i + 1;
    }
    r
}

/// A scan loses no file: each is a target of one class, skipped, or not classified.
pub proof fn every_file_is_accounted_for(
    paths: Seq<Seq<char>>,
    classes: Seq<Option<Class>>,
    n: int,
)
    requires
        0 <= n <= classes.len(),
    ensures
        of_class(paths, classes, Class::Crackproof, n).len() + of_class(
            paths,
            classes,
            Class::Metadata,
            n,
        ).len() + of_class(paths, classes, Class::AndroidSo, n).len() + of_class(
            paths,
            classes,
            Class::AndroidPackage,
            n,
        ).len() + of_class(paths, classes, Class::Other, n).len() + unclassified(classes, n) == n,
    decreases n,
{
    if n > 0 {
        every_file_is_accounted_for(paths, classes, n - 1);
        match classes[n - 1] {
            None => {},
            Some(Class::Crackproof) => {},
            Some(Class::Metadata) => {},
            Some(Class::AndroidSo) => {},
            Some(Class::AndroidPackage) => {},
            Some(Class::Other) => {},
        }
    }
}

} // verus!
