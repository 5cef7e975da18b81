//! How a file becomes a target: where it is written, and what it is called.

use vstd::prelude::*;

use crate::android::folder::{Target, TargetInfo, TargetKind};
use crate::io::paths::{
    file_name, last_dot, path_extension, path_has_extension, pieces, split, split_of, text_of,
    Part, Piece, Platform,
};
use crate::io::tree::{join, joined};

verus! {

/// Whether a path names a bundle of packages: `.apks`.
pub fn is_bundle(p: Platform, path: &str) -> (r: bool)
    ensures
        r == path_extension(p, path@, "apks"@),
{
    path_has_extension(p, path, "apks")
}

/// What stands before the last dot of a name, if something does, or the name.
pub open spec fn stem(name: Seq<char>) -> Seq<char> {
    match last_dot(name, name.len() as int) {
        Some(i) => if i > 0 {
            name.subrange(0, i)
        } else {
            name
        },
        None => name,
    }
}

/// A path without the extension of its name.
pub open spec fn bare(list: Seq<Piece>) -> Seq<Piece> {
    if list.len() > 0 {
        match list.last() {
            Piece::Name(t) => list.drop_last().push(Piece::Name(stem(t))),
            _ => list,
        }
    } else {
        list
    }
}

fn stem_of(name: &str) -> (r: String)
    ensures
        r@ == stem(name@),
{
    let n: usize = name.unicode_len();
    let mut i: usize = n;
    while i > 0
        invariant
            i <= n == name@.len(),
            last_dot(name@, i as int) == last_dot(name@, n as int),
        decreases i,
    {
        if name.get_char(i - 1) == '.' {
            if i > 1 {
                return name.substring_char(0, i - 1).to_owned();
            }
            return name.to_owned();
        }
        i = i - 1;
    }
    name.to_owned()
}

/// A path without the extension of its name.
pub fn without_extension(p: Platform, path: &str) -> (r: String)
    ensures
        r@ == text_of(p, bare(split_of(p, path@))),
{
    let mut list: Vec<Part> = split(p, path);
    let ghost before = pieces(list@);
    match file_name(p, path) {
        Some(t) => {
            let _last = list.pop();
            list.push(Part::Name(stem_of(t.as_str())));
            assert(pieces(list@) =~= bare(before));
        },
        None => {},
    }
    crate::io::paths::write(p, &list)
}

/// Where the targets of a package inside a bundle are written, under the output
/// root: in a directory of its own, inside one named like the bundle.
pub fn nested_base(p: Platform, bundle: &str, package: &str) -> (r: String)
    ensures
        r@ == text_of(
            p,
            joined(
                split_of(p, bundle@),
                split_of(p, text_of(p, bare(split_of(p, package@)))),
            ),
        ),
{
    let name: String = without_extension(p, package);
    join(p, bundle, name.as_str())
}

/// The target that a file of a folder is.
pub open spec fn loose(
    p: Platform,
    kind: TargetKind,
    source: Seq<char>,
    out_root: Seq<char>,
    rel: Seq<char>,
    identity: Seq<char>,
) -> TargetInfo {
    TargetInfo {
        kind,
        source,
        destination: text_of(p, joined(split_of(p, out_root), split_of(p, rel))),
        label: rel,
        identity,
        source_priority: 0,
    }
}

/// The target that a file of a folder is: it is written to the same place under the
/// output root.
pub fn loose_target(
    p: Platform,
    kind: TargetKind,
    source: &str,
    out_root: &str,
    rel: &str,
    identity: &str,
) -> (r: Target)
    ensures
        r@ == loose(p, kind, source@, out_root@, rel@, identity@),
{
    Target {
        kind,
        source: source.to_owned(),
        destination: join(p, out_root, rel),
        label: rel.to_owned(),
        identity: identity.to_owned(),
        source_priority: 0,
    }
}

/// The target that an entry of an archive is.
pub open spec fn packed(
    p: Platform,
    kind: TargetKind,
    source: Seq<char>,
    out_root: Seq<char>,
    base: Seq<char>,
    archive: Seq<char>,
    entry: Seq<char>,
    identity: Seq<char>,
    nested: bool,
) -> TargetInfo {
    let dir = text_of(p, joined(split_of(p, out_root), split_of(p, base)));
    TargetInfo {
        kind,
        source,
        destination: text_of(p, joined(split_of(p, dir), split_of(p, entry))),
        label: archive + "::"@ + entry,
        identity,
        source_priority: if nested {
            2
        } else {
            1
        },
    }
}

/// The target that an entry of an archive is: it is written under `base`, and named
/// after the archive and its path inside. `nested` tells a package inside a bundle.
pub fn packed_target(
    p: Platform,
    kind: TargetKind,
    source: &str,
    out_root: &str,
    base: &str,
    archive: &str,
    entry: &str,
    identity: &str,
    nested: bool,
) -> (r: Target)
    ensures
        r@ == packed(
            p,
            kind,
            source@,
            out_root@,
            base@,
            archive@,
            entry@,
            identity@,
            nested,
        ),
{
    let dir: String = join(p, out_root, base);
    let destination: String = join(p, dir.as_str(), entry);
    let mut label: String = archive.to_owned();
    label.append("::");
    label.append(entry);
    Target {
        kind,
        source: source.to_owned(),
        destination,
        label,
        identity: identity.to_owned(),
        source_priority: if nested {
            2
        } else {
            1
        },
    }
}

} // verus!
