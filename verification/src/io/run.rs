//! A run over a folder or a file: what is done, in which order, and how what became
//! of it counts.

use vstd::prelude::*;

use crate::io::job::Event;
use crate::io::paths::{
    default_out_root_for_file, default_out_root_for_folder, file_name, file_name_of, file_root,
    folder_root, out_name, out_path, pieces, rel_in_tree, rel_path, same_text, split, split_of,
    text_of, Part, Platform,
};
use crate::io::scan::ScanResult;
use crate::io::tree::{destination, join, join_parts, joined, mirrored};
use crate::metadata::error::Error;

verus! {

/// What is done with a file.
#[derive(Debug, Clone, Copy, PartialEq, Eq, Structural)]
pub enum Task {
    /// Unpack a protected module.
    Module,
    /// Restore a protected library.
    Library,
    /// Search a package.
    Package,
    /// Restore metadata.
    Metadata,
}

/// What is done with one file of a folder.
#[derive(Debug, PartialEq, Eq)]
pub struct Step {
    pub task: Task,
    pub input: String,
    /// Where the input stands in the folder.
    pub rel: String,
    /// Where the output is written. Of a package, the output root.
    pub dest: String,
}

/// What a [`Step`] says.
pub struct StepInfo {
    pub task: Task,
    pub input: Seq<char>,
    pub rel: Seq<char>,
    pub dest: Seq<char>,
}

impl View for Step {
    type V = StepInfo;

    open spec fn view(&self) -> StepInfo {
        StepInfo { task: self.task, input: self.input@, rel: self.rel@, dest: self.dest@ }
    }
}

/// What some steps say.
pub open spec fn steps_view(v: Seq<Step>) -> Seq<StepInfo> {
    Seq::new(v.len(), |i: int| v[i]@)
}

/// The step for one file.
pub open spec fn step_for(
    p: Platform,
    root: Seq<char>,
    out_root: Seq<char>,
    task: Task,
    input: Seq<char>,
) -> StepInfo {
    StepInfo {
        task,
        input,
        rel: text_of(p, rel_path(p, root, input)),
        dest: if task is Package {
            out_root
        } else {
            text_of(p, destination(p, root, out_root, input))
        },
    }
}

/// The steps for the files of one kind.
pub open spec fn pass(
    p: Platform,
    root: Seq<char>,
    out_root: Seq<char>,
    task: Task,
    files: Seq<String>,
) -> Seq<StepInfo> {
    Seq::new(files.len(), |i: int| step_for(p, root, out_root, task, files[i]@))
}

/// The steps of a run over a folder: its modules, its libraries, its packages and
/// its metadata, each in the order in which they were found.
pub open spec fn planned(p: Platform, root: Seq<char>, out_root: Seq<char>, scan: ScanResult) -> Seq<
    StepInfo,
> {
    pass(p, root, out_root, Task::Module, scan.crackproof@) + pass(
        p,
        root,
        out_root,
        Task::Library,
        scan.android_so@,
    ) + pass(p, root, out_root, Task::Package, scan.android_packages@) + pass(
        p,
        root,
        out_root,
        Task::Metadata,
        scan.metadata@,
    )
}

fn plan_pass(
    p: Platform,
    root: &str,
    out_root: &str,
    task: Task,
    files: &Vec<String>,
    out: &mut Vec<Step>,
)
    ensures
        steps_view(final(out)@) == steps_view(old(out)@) + pass(p, root@, out_root@, task, files@),
{
    let ghost before = steps_view(out@);
    let ghost whole = pass(p, root@, out_root@, task, files@);
    assert(steps_view(out@) =~= before + whole.subrange(0, 0));
    let mut i: usize = 0;
    while i < files.len()
        invariant
            i <= files@.len(),
            whole == pass(p, root@, out_root@, task, files@),
            steps_view(out@) == before + whole.subrange(0, i as int),
        decreases files@.len() - i,
    {
        let input: &str = files[i].as_str();
        let dest: String = match task {
            Task::Package => out_root.to_owned(),
            _ => mirrored(p, root, out_root, input),
        };
        let step: Step = Step {
            task,
            input: input.to_owned(),
            rel: rel_in_tree(p, root, input),
            dest,
        };
        assert(step@ == whole[i as int]);
        let ghost so_far = steps_view(out@);
        out.push(step);
        assert(steps_view(out@) =~= so_far.push(step@));
        i = i + 1;
        assert(steps_view(out@) =~= before + whole.subrange(0, i as int));
    }
    assert(whole.subrange(0, i as int) =~= whole);
}

/// What is done with the files that were found in a folder.
pub fn plan(p: Platform, root: &str, out_root: &str, scan: &ScanResult) -> (r: Vec<Step>)
    ensures
        steps_view(r@) == planned(p, root@, out_root@, *scan),
{
    let mut out: Vec<Step> = Vec::new();
    assert(steps_view(out@) =~= Seq::<StepInfo>::empty());
    plan_pass(p, root, out_root, Task::Module, &scan.crackproof, &mut out);
    plan_pass(p, root, out_root, Task::Library, &scan.android_so, &mut out);
    plan_pass(p, root, out_root, Task::Package, &scan.android_packages, &mut out);
    plan_pass(p, root, out_root, Task::Metadata, &scan.metadata, &mut out);
    assert(steps_view(out@) =~= planned(p, root@, out_root@, *scan));
    out
}

/// A library that stands alone is worked on before every package, so that it is
/// kept over a copy inside one.
pub proof fn libraries_come_before_packages(
    p: Platform,
    root: Seq<char>,
    out_root: Seq<char>,
    scan: ScanResult,
    i: int,
    j: int,
)
    requires
        0 <= i < planned(p, root, out_root, scan).len(),
        0 <= j < planned(p, root, out_root, scan).len(),
        planned(p, root, out_root, scan)[i].task is Library,
        planned(p, root, out_root, scan)[j].task is Package,
    ensures
        i < j,
{
    let a = scan.crackproof@.len() as int;
    let b = a + scan.android_so@.len();
    let c = b + scan.android_packages@.len();
    let whole = planned(p, root, out_root, scan);
    assert(i < a ==> whole[i] == pass(p, root, out_root, Task::Module, scan.crackproof@)[i]);
    assert(b <= i < c ==> whole[i] == pass(
        p,
        root,
        out_root,
        Task::Package,
        scan.android_packages@,
    )[i - b]);
    assert(c <= i ==> whole[i] == pass(p, root, out_root, Task::Metadata, scan.metadata@)[i - c]);
    assert(j < a ==> whole[j] == pass(p, root, out_root, Task::Module, scan.crackproof@)[j]);
    assert(a <= j < b ==> whole[j] == pass(p, root, out_root, Task::Library, scan.android_so@)[j
        - a]);
}

/// The output root of a folder: the one that was asked for, or the default.
pub fn folder_out_root(p: Platform, root: &str, asked: Option<&str>) -> (r: String)
    ensures
        r@ == (match asked {
            Some(t) => t@,
            None => text_of(p, folder_root(p, root@)),
        }),
{
    match asked {
        Some(t) => t.to_owned(),
        None => default_out_root_for_folder(p, root),
    }
}

/// The output root of a file: the one that was asked for, or the default.
pub fn file_out_root(p: Platform, input: &str, asked: Option<&str>) -> (r: String)
    ensures
        r@ == (match asked {
            Some(t) => t@,
            None => text_of(p, file_root(p, input@)),
        }),
{
    match asked {
        Some(t) => t.to_owned(),
        None => default_out_root_for_file(p, input),
    }
}

/// The name of a path, which may be empty.
pub open spec fn name_or_empty(p: Platform, input: Seq<char>) -> Seq<char> {
    match file_name_of(split_of(p, input)) {
        Some(t) => t,
        None => Seq::empty(),
    }
}

/// Where the output of a single file is written: under its output name in the
/// output root.
pub fn file_destination(p: Platform, out_root: &str, input: &str) -> (r: String)
    ensures
        r@ == text_of(
            p,
            joined(
                split_of(p, out_root@),
                split_of(p, text_of(p, out_path(p, name_or_empty(p, input@)))),
            ),
        ),
{
    let name: String = match file_name(p, input) {
        Some(t) => t,
        None => {
            let t: String = String::new();
            assert(t@ =~= Seq::<char>::empty());
            t
        },
    };
    let out: String = out_name(p, name.as_str());
    join(p, out_root, out.as_str())
}

/// Where the companion of a module is looked for, if the module has a name.
pub open spec fn companion_at(p: Platform, input: Seq<char>) -> Option<Seq<char>> {
    let list = split_of(p, input);
    match file_name_of(list) {
        Some(t) => Some(text_of(p, joined(list.drop_last(), split_of(p, t + "._"@)))),
        None => None,
    }
}

/// Where the companion of a module is looked for: beside it.
pub fn companion_path(p: Platform, input: &str) -> (r: Option<String>)
    ensures
        match companion_at(p, input@) {
            Some(t) => r is Some && r->0@ == t,
            None => r is None,
        },
{
    let mut list: Vec<Part> = split(p, input);
    let ghost before = list@;
    match file_name(p, input) {
        Some(t) => {
            let _last = list.pop();
            let name: String = crate::io::scan::companion_of(t.as_str());
            assert(pieces(list@) =~= pieces(before).drop_last());
            Some(crate::io::paths::write(p, &join_parts(list, split(p, name.as_str()))))
        },
        None => None,
    }
}

/// How much a run says.
#[derive(Debug, Clone, Copy, PartialEq, Eq, Structural)]
pub struct Voice {
    /// Whether there is a line for each file.
    pub files: bool,
    /// Whether the steps of each unpacking are shown.
    pub steps: bool,
    /// Whether a progress bar is shown.
    pub bar: bool,
}

/// How much a run says: being quiet wins over being verbose, and a bar gives way
/// to the steps.
pub fn voice(quiet: u8, verbose: bool) -> (r: Voice)
    ensures
        r.files == (quiet == 0),
        r.steps == (verbose && quiet == 0),
        r.bar == (quiet == 0 && !verbose),
{
    Voice {
        files: quiet == 0,
        steps: verbose && quiet == 0,
        bar: quiet == 0 && !verbose,
    }
}

/// Whether a library can be met twice in a run, so that the contents are worth
/// comparing.
pub fn can_meet_again(libraries: usize, packages: usize) -> (r: bool)
    ensures
        r == (libraries > 1 || packages > 0),
{
    libraries > 1 || packages > 0
}

/// The contents that were met in a run.
#[derive(Debug)]
pub struct Met {
    identities: Vec<String>,
}

impl Met {
    /// The identities that were met.
    pub closed spec fn seen(&self) -> Set<Seq<char>> {
        Set::new(
            |t: Seq<char>|
                exists|i: int| 0 <= i < self.identities@.len() && #[trigger] self.identities@[i]@ == t,
        )
    }

    /// Nothing was met.
    pub fn new() -> (r: Self)
        ensures
            r.seen() == Set::<Seq<char>>::empty(),
    {
        let r: Met = Met { identities: Vec::new() };
        assert(r.seen() =~= Set::<Seq<char>>::empty());
        r
    }

    /// Meet a content; whether it is met for the first time.
    pub fn meet(&mut self, identity: &str) -> (first: bool)
        ensures
            first == !old(self).seen().contains(identity@),
            final(self).seen() == old(self).seen().insert(identity@),
    {
        let n: usize = self.identities.len();
        let mut i: usize = 0;
        while i < n
            invariant
                i <= n == self.identities@.len(),
                *self == *old(self),
                forall|k: int| 0 <= k < i ==> #[trigger] self.identities@[k]@ != identity@,
            decreases n - i,
        {
            if same_text(self.identities[i].as_str(), identity) {
                assert(self.identities@[i as int]@ == identity@);
                assert(self.seen() =~= old(self).seen().insert(identity@));
                return false;
            }
            i = i + 1;
        }
        self.identities.push(identity.to_owned());
        assert forall|t: Seq<char>| old(self).seen().insert(identity@).contains(
            t,
        ) implies #[trigger] self.seen().contains(t) by {
            if t == identity@ {
                assert(self.identities@[n as int]@ == t);
            } else {
                let k = choose|k: int|
                    0 <= k < old(self).identities@.len() && #[trigger] old(self).identities@[k]@
                        == t;
                assert(self.identities@[k]@ == t);
            }
        }
        assert forall|t: Seq<char>| #[trigger] self.seen().contains(t) implies old(
            self,
        ).seen().insert(identity@).contains(t) by {
            let k = choose|k: int|
                0 <= k < self.identities@.len() && #[trigger] self.identities@[k]@ == t;
            if k < n {
                assert(old(self).identities@[k]@ == t);
            }
        }
        assert(self.seen() =~= old(self).seen().insert(identity@));
        true
    }
}

/// How the restoring of metadata counts. In a folder a version that is not known is
/// left as it is and fails nothing; asked for by itself it does.
pub open spec fn metadata_outcome(in_folder: bool, result: Result<usize, Error>) -> Event {
    match result {
        Ok(remapped) => Event::Metadata { remapped },
        Err(Error::UnsupportedVersion(_)) => if in_folder {
            Event::MetadataUnsupported
        } else {
            Event::Failed
        },
        Err(_) => Event::Failed,
    }
}

/// How the restoring of metadata counts.
pub fn metadata_event(in_folder: bool, result: &Result<usize, Error>) -> (r: Event)
    ensures
        r == metadata_outcome(in_folder, *result),
{
    match result {
        Ok(remapped) => Event::Metadata { remapped: *remapped },
        Err(e) => match e {
            Error::UnsupportedVersion(_) => if in_folder {
                Event::MetadataUnsupported
            } else {
                Event::Failed
            },
            _ => Event::Failed,
        },
    }
}

/// What an entry of a package is.
#[derive(Debug, Clone, Copy, PartialEq, Eq, Structural)]
pub enum EntryKind {
    So,
    Metadata { remapped: usize },
    /// Metadata inside a restored library.
    EmbeddedMetadata,
}

/// What became of an entry of a package.
#[derive(Debug, Clone, Copy, PartialEq, Eq, Structural)]
pub enum EntryStatus {
    Restored,
    Duplicate,
    NotTarget,
    Unchanged,
    Failed,
}

/// How an entry of a package counts.
pub open spec fn entry_outcome(kind: EntryKind, status: EntryStatus) -> Event {
    match status {
        EntryStatus::Restored => if kind is So {
            Event::EntryLibrary
        } else {
            Event::EntryMetadata
        },
        EntryStatus::Failed => Event::Failed,
        _ => Event::EntryLeft,
    }
}

/// How an entry of a package counts.
pub fn entry_event(kind: EntryKind, status: EntryStatus) -> (r: Event)
    ensures
        r == entry_outcome(kind, status),
{
    match status {
        EntryStatus::Restored => match kind {
            EntryKind::So => Event::EntryLibrary,
            _ => Event::EntryMetadata,
        },
        EntryStatus::Failed => Event::Failed,
        _ => Event::EntryLeft,
    }
}

} // verus!
