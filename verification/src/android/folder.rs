//! The targets of a folder: which files are targets, which of several copies is
//! restored, and with what.

use vstd::prelude::*;

use crate::io::paths::{
    alike, eq_ignore_case, path_extension, path_has_extension, split, split_of, Part, Piece,
    Platform,
};
use crate::metadata::discover::{ImageKeyDiscovery, SeedDiscoveryReport};
use crate::metadata::restore::DEFAULT_METHOD_TOKEN_SEED;
use crate::text::{push_small_hex_digits, small_hex_digits};

verus! {

/// What a target is.
#[derive(Debug, Clone, Copy, PartialEq, Eq, Structural)]
pub enum TargetKind {
    So,
    Metadata,
}

/// A file to restore.
#[derive(Debug)]
pub struct Target {
    pub kind: TargetKind,
    pub source: String,
    pub destination: String,
    pub label: String,
    /// The digest of the content.
    pub identity: String,
    /// How deep in packages the file was found.
    pub source_priority: u8,
}

/// What a [`Target`] says.
#[verifier::ext_equal]
pub struct TargetInfo {
    pub kind: TargetKind,
    pub source: Seq<char>,
    pub destination: Seq<char>,
    pub label: Seq<char>,
    pub identity: Seq<char>,
    pub source_priority: u8,
}

impl View for Target {
    type V = TargetInfo;

    open spec fn view(&self) -> TargetInfo {
        TargetInfo {
            kind: self.kind,
            source: self.source@,
            destination: self.destination@,
            label: self.label@,
            identity: self.identity@,
            source_priority: self.source_priority,
        }
    }
}

impl Clone for Target {
    fn clone(&self) -> (r: Self)
        ensures
            r@ == self@,
    {
        Target {
            kind: self.kind,
            source: self.source.clone(),
            destination: self.destination.clone(),
            label: self.label.clone(),
            identity: self.identity.clone(),
            source_priority: self.source_priority,
        }
    }
}

/// What some targets say.
pub open spec fn targets_view(v: Seq<Target>) -> Seq<TargetInfo> {
    Seq::new(v.len(), |i: int| v[i]@)
}

/// The tally of a folder.
#[derive(Debug, Clone, Copy, PartialEq, Eq, Structural)]
pub struct FolderSummary {
    pub so_restored: usize,
    pub so_skipped: usize,
    pub metadata_restored: usize,
    pub metadata_skipped: usize,
    pub archives: usize,
}

impl FolderSummary {
    /// The tally of a folder with some archives, before any target.
    pub fn new(archives: usize) -> (r: Self)
        ensures
            r == (FolderSummary {
                so_restored: 0,
                so_skipped: 0,
                metadata_restored: 0,
                metadata_skipped: 0,
                archives,
            }),
    {
        FolderSummary {
            so_restored: 0,
            so_skipped: 0,
            metadata_restored: 0,
            metadata_skipped: 0,
            archives,
        }
    }

    /// The number of targets counted.
    pub open spec fn targets(self) -> int {
        self.so_restored + self.so_skipped + self.metadata_restored + self.metadata_skipped
    }

    /// Count a target that was restored or skipped.
    pub fn count(&mut self, kind: TargetKind, restored: bool)
        requires
            old(self).targets() < usize::MAX,
        ensures
            *final(self) == (match (kind, restored) {
                (TargetKind::So, true) => FolderSummary {
                    so_restored: (old(self).so_restored + 1) as usize,
                    ..*old(self)
                },
                (TargetKind::So, false) => FolderSummary {
                    so_skipped: (old(self).so_skipped + 1) as usize,
                    ..*old(self)
                },
                (TargetKind::Metadata, true) => FolderSummary {
                    metadata_restored: (old(self).metadata_restored + 1) as usize,
                    ..*old(self)
                },
                (TargetKind::Metadata, false) => FolderSummary {
                    metadata_skipped: (old(self).metadata_skipped + 1) as usize,
                    ..*old(self)
                },
            }),
            final(self).targets() == old(self).targets() + 1,
    {
        match kind {
            TargetKind::So => if restored {
                self.so_restored = self.so_restored + 1;
            } else {
                self.so_skipped = self.so_skipped + 1;
            },
            TargetKind::Metadata => if restored {
                self.metadata_restored = self.metadata_restored + 1;
            } else {
                self.metadata_skipped = self.metadata_skipped + 1;
            },
        }
    }
}

/// Whether a text comes before another, from character `i` on, by character codes.
pub open spec fn before_from(a: Seq<char>, b: Seq<char>, i: int) -> bool
    decreases b.len() - i,
{
    if i >= b.len() {
        false
    } else if i >= a.len() {
        true
    } else if a[i] != b[i] {
        a[i] < b[i]
    } else {
        before_from(a, b, i + 1)
    }
}

/// Whether a text comes before another.
pub open spec fn text_before(a: Seq<char>, b: Seq<char>) -> bool {
    before_from(a, b, 0)
}

proof fn before_transitive(a: Seq<char>, b: Seq<char>, c: Seq<char>, i: int)
    requires
        0 <= i,
        before_from(a, b, i),
        before_from(b, c, i),
    ensures
        before_from(a, c, i),
    decreases b.len() - i,
{
    if i < a.len() && a[i] == b[i] && b[i] == c[i] {
        before_transitive(a, b, c, i + 1);
    }
}

proof fn before_total(a: Seq<char>, b: Seq<char>, i: int)
    requires
        0 <= i,
        forall|k: int| 0 <= k < i ==> k < a.len() && k < b.len() && a[k] == b[k],
    ensures
        a == b || before_from(a, b, i) || before_from(b, a, i),
        !(before_from(a, b, i) && before_from(b, a, i)),
        a == b ==> !before_from(a, b, i),
    decreases b.len() - i,
{
    if i < a.len() && i < b.len() && a[i] == b[i] {
        before_total(a, b, i + 1);
    } else if i >= a.len() && i >= b.len() {
        if i > 0 {
            assert(a[i - 1] == b[i - 1]);
        }
        assert(a =~= b);
    }
}

/// Whether a text comes before another.
fn comes_before(a: &str, b: &str) -> (r: bool)
    ensures
        r == text_before(a@, b@),
{
    let n: usize = a.unicode_len();
    let m: usize = b.unicode_len();
    let mut i: usize = 0;
    while i < m
        invariant
            i <= m,
            n == a@.len(),
            m == b@.len(),
            before_from(a@, b@, i as int) == text_before(a@, b@),
        decreases m - i,
    {
        if i >= n {
            return true;
        }
        let c: char = a.get_char(i);
        let d: char = b.get_char(i);
        if c != d {
            return c < d;
        }
        i = i + 1;
    }
    false
}

/// Whether two targets are copies of one file.
pub open spec fn same_file(a: TargetInfo, b: TargetInfo) -> bool {
    a.kind == b.kind && a.identity == b.identity
}

/// Whether the file of a target comes before that of another.
#[verifier::opaque]
pub open spec fn file_before(a: TargetInfo, b: TargetInfo) -> bool {
    if a.kind == b.kind {
        text_before(a.identity, b.identity)
    } else {
        a.kind is So
    }
}

/// Whether a copy is taken rather than another: the one deeper in packages, else the
/// one whose label comes first.
#[verifier::opaque]
pub open spec fn preferred(a: TargetInfo, b: TargetInfo) -> bool {
    a.source_priority > b.source_priority || (a.source_priority == b.source_priority
        && text_before(a.label, b.label))
}

/// Whether target `i` is the copy that is taken among the first `n`: none is
/// preferred to it, and of equal ones it is the first.
#[verifier::opaque]
pub open spec fn taken(input: Seq<TargetInfo>, n: int, i: int) -> bool {
    &&& 0 <= i < n
    &&& forall|j: int|
        0 <= j < n && same_file(#[trigger] input[j], input[i]) ==> !preferred(input[j], input[i])
            && (j < i ==> preferred(input[i], input[j]))
}

/// Whether the files of some targets come one after the other.
pub open spec fn in_order(v: Seq<TargetInfo>) -> bool {
    forall|a: int, b: int| 0 <= a < b < v.len() ==> file_before(#[trigger] v[a], #[trigger] v[b])
}

/// Whether `out` holds one copy of each file in the first `n` of `input`.
#[verifier::opaque]
pub open spec fn one_of_each(input: Seq<TargetInfo>, n: int, out: Seq<TargetInfo>) -> bool {
    &&& in_order(out)
    &&& forall|k: int|
        0 <= k < out.len() ==> exists|i: int|
            #[trigger] taken(input, n, i) && input[i] == #[trigger] out[k]
    &&& forall|j: int|
        0 <= j < n ==> exists|k: int|
            0 <= k < out.len() && same_file(#[trigger] out[k], #[trigger] input[j])
}

fn is_before(a: &Target, b: &Target) -> (r: bool)
    ensures
        r == file_before(a@, b@),
{
    reveal(file_before);
    match (a.kind, b.kind) {
        (TargetKind::So, TargetKind::Metadata) => true,
        (TargetKind::Metadata, TargetKind::So) => false,
        _ => comes_before(a.identity.as_str(), b.identity.as_str()),
    }
}

fn is_preferred(a: &Target, b: &Target) -> (r: bool)
    ensures
        r == preferred(a@, b@),
{
    reveal(preferred);
    a.source_priority > b.source_priority || (a.source_priority == b.source_priority
        && comes_before(a.label.as_str(), b.label.as_str()))
}

proof fn file_order_transitive(a: TargetInfo, b: TargetInfo, c: TargetInfo)
    requires
        file_before(a, b),
        file_before(b, c),
    ensures
        file_before(a, c),
{
    reveal(file_before);
    if a.kind == b.kind && b.kind == c.kind {
        before_transitive(a.identity, b.identity, c.identity, 0);
    }
}

proof fn file_order_total(a: TargetInfo, b: TargetInfo)
    ensures
        same_file(a, b) || file_before(a, b) || file_before(b, a),
        same_file(a, b) ==> !file_before(a, b) && !file_before(b, a),
        !(file_before(a, b) && file_before(b, a)),
{
    reveal(file_before);
    before_total(a.identity, b.identity, 0);
}

proof fn preference_chains(a: TargetInfo, b: TargetInfo, c: TargetInfo)
    ensures
        preferred(a, b) && preferred(b, c) ==> preferred(a, c),
        preferred(a, b) && !preferred(c, b) ==> preferred(a, c),
        !preferred(a, b) && !preferred(b, c) ==> !preferred(a, c),
        !(preferred(a, b) && preferred(b, a)),
{
    reveal(preferred);
    before_total(a.label, b.label, 0);
    before_total(b.label, c.label, 0);
    before_total(a.label, c.label, 0);
    if text_before(a.label, b.label) && text_before(b.label, c.label) {
        before_transitive(a.label, b.label, c.label, 0);
    }
    if text_before(b.label, a.label) && text_before(a.label, c.label) {
        before_transitive(b.label, a.label, c.label, 0);
    }
    if text_before(a.label, c.label) && text_before(c.label, b.label) {
        before_transitive(a.label, c.label, b.label, 0);
    }
    if text_before(c.label, b.label) && text_before(b.label, a.label) {
        before_transitive(c.label, b.label, a.label, 0);
    }
}

/// A copy that was taken stays taken behind one that is another file or not
/// preferred to it.
proof fn taken_stays(input: Seq<TargetInfo>, n: int, i: int)
    requires
        taken(input, n, i),
        0 <= n < input.len(),
        same_file(input[n], input[i]) ==> !preferred(input[n], input[i]),
    ensures
        taken(input, n + 1, i),
{
    reveal(taken);
}

/// The first place whose file does not come before that of `x`.
spec fn is_place(out: Seq<TargetInfo>, x: TargetInfo, p: int) -> bool {
    &&& 0 <= p <= out.len()
    &&& forall|k: int| 0 <= k < p ==> file_before(#[trigger] out[k], x)
    &&& p < out.len() ==> !file_before(out[p], x)
}

/// A copy that is preferred to the one that was taken is taken.
proof fn better_is_taken(input: Seq<TargetInfo>, n: int, i: int)
    requires
        0 <= n < input.len(),
        taken(input, n, i),
        same_file(input[n], input[i]),
        preferred(input[n], input[i]),
    ensures
        taken(input, n + 1, n),
{
    reveal(taken);
    let x = input[n];
    assert forall|j: int| 0 <= j < n + 1 && same_file(#[trigger] input[j], x) implies !preferred(
        input[j],
        x,
    ) && (j < n ==> preferred(x, input[j])) by {
        if j < n {
            assert(same_file(input[j], input[i]));
            preference_chains(x, input[i], input[j]);
            preference_chains(x, input[j], x);
        } else {
            preference_chains(x, x, x);
        }
    }
}

/// A copy of a file that is new is taken.
proof fn first_is_taken(input: Seq<TargetInfo>, n: int)
    requires
        0 <= n < input.len(),
        forall|j: int| 0 <= j < n ==> !same_file(#[trigger] input[j], input[n]),
    ensures
        taken(input, n + 1, n),
{
    reveal(taken);
    preference_chains(input[n], input[n], input[n]);
}

proof fn file_order_alike(a: TargetInfo, b: TargetInfo, c: TargetInfo)
    requires
        same_file(a, b),
    ensures
        file_before(a, c) == file_before(b, c),
        file_before(c, a) == file_before(c, b),
{
    reveal(file_before);
}

proof fn order_survives(out: Seq<TargetInfo>, p: int, x: TargetInfo)
    requires
        in_order(out),
        0 <= p < out.len(),
        same_file(out[p], x),
    ensures
        in_order(out.update(p, x)),
{
    let after = out.update(p, x);
    assert forall|a: int, b: int| 0 <= a < b < after.len() implies file_before(
        #[trigger] after[a],
        #[trigger] after[b],
    ) by {
        assert(file_before(out[a], out[b]));
        if a == p {
            file_order_alike(out[p], x, out[b]);
        }
        if b == p {
            file_order_alike(out[p], x, out[a]);
        }
    }
}

/// The copy in place `k` stays taken, if the new target is no copy of its file.
proof fn other_stays(input: Seq<TargetInfo>, n: int, y: TargetInfo)
    requires
        0 <= n < input.len(),
        exists|i: int| #[trigger] taken(input, n, i) && input[i] == y,
        same_file(input[n], y) ==> !preferred(input[n], y),
    ensures
        exists|i: int| #[trigger] taken(input, n + 1, i) && input[i] == y,
{
    let i = choose|i: int| #[trigger] taken(input, n, i) && input[i] == y;
    taken_stays(input, n, i);
}

/// One more target whose file is there.
proof fn copy_is_weighed(input: Seq<TargetInfo>, n: int, out: Seq<TargetInfo>, p: int)
    requires
        0 <= n < input.len(),
        one_of_each(input, n, out),
        0 <= p < out.len(),
        same_file(out[p], input[n]),
    ensures
        one_of_each(
            input,
            n + 1,
            if preferred(input[n], out[p]) {
                out.update(p, input[n])
            } else {
                out
            },
        ),
{
    reveal(one_of_each);
    let x = input[n];
    let better = preferred(x, out[p]);
    let after = if better {
        out.update(p, x)
    } else {
        out
    };
    order_survives(out, p, x);
    assert forall|k: int| 0 <= k < after.len() implies exists|i: int|
        #[trigger] taken(input, n + 1, i) && input[i] == #[trigger] after[k] by {
        assert(exists|i: int| #[trigger] taken(input, n, i) && input[i] == out[k]);
        if k == p && better {
            let i = choose|i: int| #[trigger] taken(input, n, i) && input[i] == out[p];
            better_is_taken(input, n, i);
        } else {
            if k < p {
                assert(file_before(out[k], out[p]));
                file_order_total(out[k], out[p]);
            }
            if k > p {
                assert(file_before(out[p], out[k]));
                file_order_total(out[p], out[k]);
            }
            other_stays(input, n, out[k]);
        }
    }
    assert forall|j: int| 0 <= j < n + 1 implies exists|k: int|
        0 <= k < after.len() && same_file(#[trigger] after[k], #[trigger] input[j]) by {
        if j < n {
            let k = choose|k: int| 0 <= k < out.len() && same_file(#[trigger] out[k], input[j]);
            assert(same_file(after[k], input[j]));
        } else {
            assert(same_file(after[p], input[j]));
        }
    }
}

/// One more target whose file is new.
proof fn file_is_entered(input: Seq<TargetInfo>, n: int, out: Seq<TargetInfo>, p: int)
    requires
        0 <= n < input.len(),
        one_of_each(input, n, out),
        is_place(out, input[n], p),
        p < out.len() ==> !same_file(out[p], input[n]),
    ensures
        one_of_each(input, n + 1, out.insert(p, input[n])),
{
    reveal(one_of_each);
    let x = input[n];
    let after = out.insert(p, x);
    if p < out.len() {
        file_order_total(out[p], x);
    }
    assert forall|k: int| p <= k < out.len() implies file_before(x, #[trigger] out[k]) by {
        if k > p {
            assert(file_before(out[p], out[k]));
            file_order_transitive(x, out[p], out[k]);
        }
    }
    assert forall|k: int| 0 <= k < out.len() implies !same_file(#[trigger] out[k], x) by {
        file_order_total(out[k], x);
    }
    assert forall|a: int, b: int| 0 <= a < b < after.len() implies file_before(
        #[trigger] after[a],
        #[trigger] after[b],
    ) by {
        if a < p {
            assert(after[a] == out[a]);
        }
        if a > p {
            assert(after[a] == out[a - 1]);
        }
        if b < p {
            assert(after[b] == out[b]);
        }
        if b > p {
            assert(after[b] == out[b - 1]);
        }
    }
    assert forall|k: int| 0 <= k < after.len() implies exists|i: int|
        #[trigger] taken(input, n + 1, i) && input[i] == #[trigger] after[k] by {
        if k == p {
            assert forall|j: int| 0 <= j < n implies !same_file(#[trigger] input[j], x) by {
                let q = choose|q: int| 0 <= q < out.len() && same_file(#[trigger] out[q], input[j]);
                assert(!same_file(out[q], x));
            }
            first_is_taken(input, n);
        } else {
            let q = if k < p {
                k
            } else {
                k - 1
            };
            assert(after[k] == out[q]);
            assert(exists|i: int| #[trigger] taken(input, n, i) && input[i] == out[q]);
            other_stays(input, n, out[q]);
        }
    }
    assert forall|j: int| 0 <= j < n + 1 implies exists|k: int|
        0 <= k < after.len() && same_file(#[trigger] after[k], #[trigger] input[j]) by {
        if j < n {
            let k = choose|k: int| 0 <= k < out.len() && same_file(#[trigger] out[k], input[j]);
            let q = if k < p {
                k
            } else {
                k + 1
            };
            assert(after[q] == out[k]);
            assert(same_file(after[q], input[j]));
        } else {
            assert(same_file(after[p], input[j]));
        }
    }
}

/// Keep one copy of each file, in the order of kinds and digests: the copy deepest
/// in packages, of those the one whose label comes first.
pub fn deduplicate_targets(targets: &[Target]) -> (r: Vec<Target>)
    ensures
        one_of_each(targets_view(targets@), targets@.len() as int, targets_view(r@)),
{
    let ghost input = targets_view(targets@);
    let mut out: Vec<Target> = Vec::new();
    assert(targets_view(out@) =~= Seq::<TargetInfo>::empty());
    assert(one_of_each(input, 0, targets_view(out@))) by {
        reveal(one_of_each);
    }
    let mut n: usize = 0;
    while n < targets.len()
        invariant
            n <= targets@.len(),
            input == targets_view(targets@),
            one_of_each(input, n as int, targets_view(out@)),
        decreases targets@.len() - n,
    {
        let x: &Target = &targets[n];
        assert(input[n as int] == x@);
        let ghost list = targets_view(out@);
        let mut p: usize = 0;
        while p < out.len() && is_before(&out[p], x)
            invariant
                p <= out@.len(),
                list == targets_view(out@),
                forall|k: int| 0 <= k < p ==> file_before(#[trigger] list[k], x@),
            decreases out@.len() - p,
        {
            assert(list[p as int] == out@[p as int]@);
            p = p + 1;
        }
        if p < out.len() {
            assert(list[p as int] == out@[p as int]@);
        }
        assert(is_place(list, x@, p as int));
        if p < out.len() && !is_before(x, &out[p]) {
            proof {
                file_order_total(list[p as int], x@);
                copy_is_weighed(input, n as int, list, p as int);
            }
            if is_preferred(x, &out[p]) {
                let y: Target = x.clone();
                out.set(p, y);
                assert(targets_view(out@) =~= list.update(p as int, x@));
            }
        } else {
            proof {
                if p < out@.len() {
                    file_order_total(list[p as int], x@);
                }
                file_is_entered(input, n as int, list, p as int);
            }
            let y: Target = x.clone();
            out.insert(p, y);
            assert(targets_view(out@) =~= list.insert(p as int, x@));
        }
        n = n + 1;
    }
    out
}

/// Whether a path names a library: `.so`.
pub fn is_so_path(p: Platform, path: &str) -> (r: bool)
    ensures
        r == path_extension(p, path@, "so"@),
{
    path_has_extension(p, path, "so")
}

/// Whether a path names an archive.
pub open spec fn archive_name(p: Platform, path: Seq<char>) -> bool {
    path_extension(p, path, "apk"@) || path_extension(p, path, "apks"@)
}

/// Whether a path names an archive: `.apk` or `.apks`.
pub fn is_archive(p: Platform, path: &str) -> (r: bool)
    ensures
        r == archive_name(p, path@),
{
    path_has_extension(p, path, "apk") || path_has_extension(p, path, "apks")
}

/// The directories and the name that the path of a metadata file ends in.
pub open spec fn metadata_suffix() -> Seq<Seq<char>> {
    seq!["assets"@, "bin"@, "Data"@, "Managed"@, "Metadata"@, "global-metadata.dat"@]
}

/// Whether a component is the name `t`, in any case.
pub open spec fn is_named(x: Piece, t: Seq<char>) -> bool {
    x matches Piece::Name(u) && alike(u, t)
}

/// Whether a path ends as that of a metadata file does.
pub open spec fn metadata_path(p: Platform, path: Seq<char>) -> bool {
    let list = split_of(p, path);
    let n = list.len() - 6;
    n >= 0 && forall|i: int|
        0 <= i < 6 ==> is_named(#[trigger] list[n + i], metadata_suffix()[i])
}

fn part_named(x: &Part, t: &str) -> (r: bool)
    ensures
        r == is_named(x@, t@),
{
    match x {
        Part::Name(u) => eq_ignore_case(u.as_str(), t),
        _ => false,
    }
}

/// Whether a path ends in `assets/bin/Data/Managed/Metadata/global-metadata.dat`, in
/// any case.
pub fn is_metadata_path(p: Platform, path: &str) -> (r: bool)
    ensures
        r == metadata_path(p, path@),
{
    let list: Vec<Part> = split(p, path);
    if list.len() < 6 {
        return false;
    }
    let n: usize = list.len() - 6;
    let a: bool = part_named(&list[n], "assets");
    let b: bool = part_named(&list[n + 1], "bin");
    let c: bool = part_named(&list[n + 2], "Data");
    let d: bool = part_named(&list[n + 3], "Managed");
    let e: bool = part_named(&list[n + 4], "Metadata");
    let f: bool = part_named(&list[n + 5], "global-metadata.dat");
    proof {
        let v = split_of(p, path@);
        let t = metadata_suffix();
        assert(forall|i: int| 0 <= i < v.len() ==> #[trigger] v[i] == list@[i]@);
        assert(a == is_named(v[n + 0], t[0]));
        assert(b == is_named(v[n + 1], t[1]));
        assert(c == is_named(v[n + 2], t[2]));
        assert(d == is_named(v[n + 3], t[3]));
        assert(e == is_named(v[n + 4], t[4]));
        assert(f == is_named(v[n + 5], t[5]));
    }
    a && b && c && d && e && f
}

/// What a file of a folder is.
#[derive(Debug, Clone, Copy, PartialEq, Eq, Structural)]
pub enum FileUse {
    Library,
    Metadata,
    Archive,
    Nothing,
}

/// What a file of a folder is, by its path: a library is one only where it turns out
/// to be protected.
pub fn file_use(p: Platform, path: &str) -> (r: FileUse)
    ensures
        r == (if path_extension(p, path@, "so"@) {
            FileUse::Library
        } else if metadata_path(p, path@) {
            FileUse::Metadata
        } else if archive_name(p, path@) {
            FileUse::Archive
        } else {
            FileUse::Nothing
        }),
{
    if is_so_path(p, path) {
        FileUse::Library
    } else if is_metadata_path(p, path) {
        FileUse::Metadata
    } else if is_archive(p, path) {
        FileUse::Archive
    } else {
        FileUse::Nothing
    }
}

/// What an entry of an archive is.
#[derive(Debug, Clone, Copy, PartialEq, Eq, Structural)]
pub enum EntryUse {
    /// A package inside a bundle.
    Nested,
    /// A target.
    Direct(TargetKind),
    Nothing,
}

/// What an entry of an archive is. A bundle holds packages, a package holds targets.
pub fn entry_use(p: Platform, is_bundle: bool, path: &str) -> (r: EntryUse)
    ensures
        r == (if is_bundle {
            if path_extension(p, path@, "apk"@) {
                EntryUse::Nested
            } else {
                EntryUse::Nothing
            }
        } else if path_extension(p, path@, "so"@) {
            EntryUse::Direct(TargetKind::So)
        } else if metadata_path(p, path@) {
            EntryUse::Direct(TargetKind::Metadata)
        } else {
            EntryUse::Nothing
        }),
{
    if is_bundle {
        return if path_has_extension(p, path, "apk") {
            EntryUse::Nested
        } else {
            EntryUse::Nothing
        };
    }
    if is_so_path(p, path) {
        EntryUse::Direct(TargetKind::So)
    } else if is_metadata_path(p, path) {
        EntryUse::Direct(TargetKind::Metadata)
    } else {
        EntryUse::Nothing
    }
}

/// What is done with a metadata file.
#[derive(Debug, Clone, Copy, PartialEq, Eq, Structural)]
pub enum SeedChoice {
    /// It is of another version, or clean.
    Skip,
    /// It is restored with this seed.
    Restore(u32),
    /// This many seeds fit.
    Ambiguous(usize),
}

/// Whether every image is clean.
pub open spec fn all_clean(v: Seq<ImageKeyDiscovery>) -> bool {
    forall|i: int| 0 <= i < v.len() ==> (#[trigger] v[i]).clean
}

/// What is done with a metadata file, after its seed was looked for: only version 31
/// is restored, and only where an image is not clean; with the one seed that fits, or
/// the known one where none does.
pub fn choose_seed(discovery: &SeedDiscoveryReport) -> (r: SeedChoice)
    ensures
        r == (if discovery.version != 31 || all_clean(discovery.images@) {
            SeedChoice::Skip
        } else if discovery.seed_candidates@.len() == 0 {
            SeedChoice::Restore(DEFAULT_METHOD_TOKEN_SEED)
        } else if discovery.seed_candidates@.len() == 1 {
            SeedChoice::Restore(discovery.seed_candidates@[0])
        } else {
            SeedChoice::Ambiguous(discovery.seed_candidates@.len() as usize)
        }),
{
    if discovery.version != 31 {
        return SeedChoice::Skip;
    }
    let mut i: usize = 0;
    while i < discovery.images.len() && discovery.images[i].clean
        invariant
            i <= discovery.images@.len(),
            forall|k: int| 0 <= k < i ==> (#[trigger] discovery.images@[k]).clean,
        decreases discovery.images@.len() - i,
    {
        i = i + 1;
    }
    if i == discovery.images.len() {
        return SeedChoice::Skip;
    }
    assert(!discovery.images@[i as int].clean);
    let n: usize = discovery.seed_candidates.len();
    if n == 0 {
        SeedChoice::Restore(DEFAULT_METHOD_TOKEN_SEED)
    } else if n == 1 {
        SeedChoice::Restore(discovery.seed_candidates[0])
    } else {
        SeedChoice::Ambiguous(n)
    }
}

/// The number of a label, from the first `n` of its bytes.
pub open spec fn label_key(s: Seq<u8>, n: int) -> u64
    decreases n,
{
    if n <= 0 {
        0
    } else {
        label_key(s, n - 1).wrapping_mul(131).wrapping_add(s[n - 1] as u64)
    }
}

/// The name of the directory that the modules of a library are extracted to.
pub fn stage2_dir(label: &[u8]) -> (r: String)
    ensures
        r@ == "stage2-"@ + small_hex_digits(label_key(label@, label@.len() as int) as nat, 16),
{
    let mut key: u64 = 0;
    let mut i: usize = 0;
    while i < label.len()
        invariant
            i <= label@.len(),
            key == label_key(label@, i as int),
        decreases label@.len() - i,
    {
        key = key.wrapping_mul(131).wrapping_add(label[i] as u64);
        i = i + 1;
    }
    let mut s: String = "stage2-".to_owned();
    push_small_hex_digits(&mut s, key, 16);
    s
}

} // verus!
