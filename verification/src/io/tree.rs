//! The output tree: where the output of an input stands under an output root.

use vstd::prelude::*;

use crate::io::paths::{
    body_from, body_start, dot_bounds, dot_is_last, ends_open, extension_of, file_name_of,
    has_root, head_of, is_sep, last_dot, main_sep, out_name, out_path, parent_of, piece_of,
    piece_text, pieces, rel_in_tree, rel_path, relative_path_stays_relative, renamed, rooted,
    rules, rules_of, same_piece, sep_from, split, split_of, starts_here, starts_with, text_of,
    text_upto, Part, Piece, Platform, Rules,
};
use crate::io::prefix::{
    drive_at, prefix_bounds, prefix_extends, prefix_is_itself, prefix_of, prefix_stands_alone,
    whole_prefix,
};

verus! {

/// The components of a path behind those of a verbatim one, from number `i` on: a
/// step up takes a name off, a dot falls away, and a root leaves the prefix alone.
pub open spec fn cleaned(base: Seq<Piece>, list: Seq<Piece>, i: int) -> Seq<Piece>
    decreases list.len() - i,
{
    if i >= list.len() {
        base
    } else {
        cleaned(
            match list[i] {
                Piece::Root => base.subrange(0, 1).push(Piece::Root),
                Piece::Here => base,
                Piece::Up => if base.last() is Name {
                    base.drop_last()
                } else {
                    base
                },
                _ => base.push(list[i]),
            },
            list,
            i + 1,
        )
    }
}

/// A verbatim path with a root behind its prefix, if anything follows it.
pub open spec fn settled(list: Seq<Piece>) -> Seq<Piece> {
    if list.len() > 1 && !(list[1] is Root) {
        list.insert(1, Piece::Root)
    } else {
        list
    }
}

/// Whether a path starts with a verbatim prefix.
pub open spec fn is_verbatim(list: Seq<Piece>) -> bool {
    list.len() > 0 && (list[0] matches Piece::Prefix(k, _) && k.verbatim())
}

/// One path behind another. A path with a prefix stands for itself; a rooted one
/// keeps the prefix of the first alone. A verbatim path takes no dots and no steps.
pub open spec fn joined(base: Seq<Piece>, list: Seq<Piece>) -> Seq<Piece> {
    if base.len() == 0 || (list.len() > 0 && list[0] is Prefix) {
        list
    } else if is_verbatim(base) {
        settled(cleaned(base, list, 0))
    } else if list.len() > 0 && list[0] is Root {
        if base[0] is Prefix {
            seq![base[0]] + list
        } else {
            list
        }
    } else if list.len() > 0 && list[0] is Here {
        base + list.subrange(1, list.len() as int)
    } else {
        base + list
    }
}

fn copy_part(x: &Part) -> (r: Part)
    ensures
        r@ == x@,
{
    match x {
        Part::Prefix(k, t) => Part::Prefix(*k, t.clone()),
        Part::Root => Part::Root,
        Part::Here => Part::Here,
        Part::Up => Part::Up,
        Part::Name(t) => Part::Name(t.clone()),
    }
}

/// Add the components from number `from` on.
fn extend(list: &mut Vec<Part>, more: &Vec<Part>, from: usize)
    requires
        from <= more@.len(),
    ensures
        pieces(final(list)@) == pieces(old(list)@) + pieces(more@).subrange(
            from as int,
            more@.len() as int,
        ),
{
    let ghost left = pieces(list@);
    let ghost right = pieces(more@);
    let mut j: usize = from;
    assert(pieces(list@) =~= left + right.subrange(from as int, from as int));
    while j < more.len()
        invariant
            from <= j <= more@.len(),
            right == pieces(more@),
            pieces(list@) == left + right.subrange(from as int, j as int),
        decreases more@.len() - j,
    {
        let ghost before = pieces(list@);
        list.push(copy_part(&more[j]));
        assert(pieces(list@) =~= before.push(right[j as int]));
        assert(pieces(list@) =~= left + right.subrange(from as int, j + 1));
        j = j + 1;
    }
}

/// Add the components of a path to those of a verbatim one.
fn clean(list: &mut Vec<Part>, more: &Vec<Part>)
    requires
        old(list)@.len() > 0,
        pieces(old(list)@)[0] is Prefix,
    ensures
        pieces(final(list)@) == settled(cleaned(pieces(old(list)@), pieces(more@), 0)),
{
    let ghost base = pieces(list@);
    let ghost right = pieces(more@);
    let mut j: usize = 0;
    while j < more.len()
        invariant
            j <= more@.len(),
            right == pieces(more@),
            list@.len() > 0,
            pieces(list@)[0] is Prefix,
            cleaned(base, right, 0) == cleaned(pieces(list@), right, j as int),
        decreases more@.len() - j,
    {
        let ghost before = pieces(list@);
        let n: usize = list.len();
        assert(right[j as int] == more@[j as int]@);
        assert(before.last() == list@[n - 1]@);
        match &more[j] {
            Part::Root => {
                list.truncate(1);
                list.push(Part::Root);
                assert(pieces(list@) =~= before.subrange(0, 1).push(Piece::Root));
            },
            Part::Here => {},
            Part::Up => {
                let named: bool = match &list[n - 1] {
                    Part::Name(_) => true,
                    _ => false,
                };
                if named {
                    let _ = list.pop();
                    assert(pieces(list@) =~= before.drop_last());
                }
            },
            x => {
                list.push(copy_part(x));
                assert(pieces(list@) =~= before.push(right[j as int]));
            },
        }
        j = j + 1;
    }
    let ghost got = pieces(list@);
    if list.len() > 1 {
        assert(got[1] == list@[1]@);
        let rooted: bool = match &list[1] {
            Part::Root => true,
            _ => false,
        };
        if !rooted {
            list.insert(1, Part::Root);
            assert(pieces(list@) =~= got.insert(1, Piece::Root));
        }
    }
}

/// The components of one path behind those of another.
pub fn join_parts(first: Vec<Part>, second: Vec<Part>) -> (r: Vec<Part>)
    ensures
        pieces(r@) == joined(pieces(first@), pieces(second@)),
{
    let ghost left = pieces(first@);
    let ghost right = pieces(second@);
    let mut out: Vec<Part> = first;
    if out.len() == 0 {
        return second;
    }
    assert(left[0] == out@[0]@);
    if second.len() > 0 {
        assert(right[0] == second@[0]@);
        match &second[0] {
            Part::Prefix(_, _) => {
                return second;
            },
            _ => {},
        }
    }
    let (prefixed, verbatim): (bool, bool) = match &out[0] {
        Part::Prefix(k, _) => (true, k.is_verbatim()),
        _ => (false, false),
    };
    if verbatim {
        clean(&mut out, &second);
        return out;
    }
    if second.len() == 0 {
        assert(left + right =~= left);
        return out;
    }
    match &second[0] {
        Part::Root => {
            if !prefixed {
                return second;
            }
            out.truncate(1);
            extend(&mut out, &second, 0);
            assert(pieces(out@) =~= seq![left[0]] + right);
        },
        Part::Here => {
            extend(&mut out, &second, 1);
        },
        _ => {
            extend(&mut out, &second, 0);
            assert(pieces(out@) =~= left + right);
        },
    }
    out
}

/// One path behind another.
pub fn join(p: Platform, base: &str, path: &str) -> (r: String)
    ensures
        r@ == text_of(p, joined(split_of(p, base@), split_of(p, path@))),
{
    crate::io::paths::write(p, &join_parts(split(p, base), split(p, path)))
}

/// Where the output of the input at `path`, found under `root`, is written.
pub open spec fn destination(p: Platform, root: Seq<char>, out_root: Seq<char>, path: Seq<char>) -> Seq<
    Piece,
> {
    let rel = text_of(p, rel_path(p, root, path));
    joined(split_of(p, out_root), split_of(p, text_of(p, out_path(p, rel))))
}

/// Where the output of the input at `path`, found under `root`, is written: at the
/// same place under the output root, under the output name.
pub fn mirrored(p: Platform, root: &str, out_root: &str, path: &str) -> (r: String)
    ensures
        r@ == text_of(p, destination(p, root@, out_root@, path@)),
{
    let rel: String = rel_in_tree(p, root, path);
    let name: String = out_name(p, rel.as_str());
    join(p, out_root, name.as_str())
}

/// Whether a text is the name of a file or directory.
pub open spec fn plain_name(r: Rules, t: Seq<char>) -> bool {
    &&& t.len() > 0
    &&& t != seq!['.']
    &&& t != seq!['.', '.']
    &&& forall|i: int| 0 <= i < t.len() ==> !is_sep(r, #[trigger] t[i])
}

/// Whether a component is a step or a name.
pub open spec fn body_piece(r: Rules, x: Piece) -> bool {
    x is Up || (r is Exact && x is Here) || (x matches Piece::Name(t) && plain_name(r, t))
}

/// The rules of the body of a path.
pub open spec fn body_rules(p: Platform, list: Seq<Piece>) -> Rules {
    if is_verbatim(list) {
        Rules::Exact
    } else {
        rules(p)
    }
}

/// How many components stand before the steps and names of a path.
pub open spec fn head_len(list: Seq<Piece>) -> int {
    if list.len() == 0 {
        0
    } else if list[0] is Prefix {
        if list.len() > 1 && list[1] is Root {
            2
        } else {
            1
        }
    } else if list[0] is Root || list[0] is Here {
        1
    } else {
        0
    }
}

/// Whether a prefix is one, and the components behind it can follow it.
pub open spec fn prefix_fits(p: Platform, list: Seq<Piece>) -> bool {
    match list[0] {
        Piece::Prefix(k, t) => {
            &&& prefix_of(p, t) == Some((k, t.len() as int))
            &&& list.len() > 1 ==> whole_prefix(p, k, t)
            &&& k.implies_root() ==> list.len() > 1
            &&& list.len() > 1 && !(k is Drive) ==> list[1] is Root
        },
        _ => true,
    }
}

/// Whether some components are those of a path: a prefix, a root or a dot for the
/// path itself, each of which may be missing, and steps and names. The first name
/// is not one that starts like a drive, unless something stands before it.
pub open spec fn is_path(p: Platform, list: Seq<Piece>) -> bool {
    &&& list.len() > 0 ==> prefix_fits(p, list)
    &&& forall|k: int|
        head_len(list) <= k < list.len() ==> body_piece(body_rules(p, list), #[trigger] list[k])
    &&& head_len(list) == 0 && list.len() > 0 && p is Windows ==> !drive_at(
        piece_text(p, list[0]),
        0,
    )
}

/// Where the text of component `k` starts.
spec fn offset(p: Platform, list: Seq<Piece>, k: int) -> int {
    text_upto(p, list, k).len() + if k >= 1 && ends_open(list[k - 1]) {
        1int
    } else {
        0int
    }
}

proof fn text_is_prefix(p: Platform, list: Seq<Piece>, k: int, n: int)
    requires
        0 <= k <= n <= list.len(),
    ensures
        text_upto(p, list, k).len() <= text_upto(p, list, n).len(),
        text_upto(p, list, n).subrange(0, text_upto(p, list, k).len() as int) == text_upto(
            p,
            list,
            k,
        ),
    decreases n - k,
{
    let a = text_upto(p, list, k);
    let b = text_upto(p, list, n);
    if k < n {
        text_is_prefix(p, list, k, n - 1);
        let m = text_upto(p, list, n - 1);
        assert(b.subrange(0, m.len() as int) =~= m);
        assert(b.subrange(0, a.len() as int) =~= m.subrange(0, a.len() as int));
    } else {
        assert(b.subrange(0, a.len() as int) =~= a);
    }
}

/// What stands where in the text of a path.
proof fn text_at(p: Platform, list: Seq<Piece>, k: int)
    requires
        0 <= k < list.len(),
    ensures
        ({
            let t = text_of(p, list);
            let o = offset(p, list, k);
            let e = o + piece_text(p, list[k]).len();
            &&& 0 <= o <= e <= t.len()
            &&& t.subrange(o, e) == piece_text(p, list[k])
            &&& e == text_upto(p, list, k + 1).len()
            &&& k + 1 == list.len() ==> e == t.len()
            &&& k + 1 < list.len() && ends_open(list[k]) ==> e < t.len() && t[e] == main_sep(p)[0]
                && offset(p, list, k + 1) == e + 1
            &&& k + 1 < list.len() && !ends_open(list[k]) ==> offset(p, list, k + 1) == e
        }),
{
    reveal_strlit("/");
    reveal_strlit("\\");
    let n = list.len() as int;
    let t = text_of(p, list);
    let o = offset(p, list, k);
    let x = piece_text(p, list[k]);
    let e = o + x.len();
    text_is_prefix(p, list, k + 1, n);
    let u = text_upto(p, list, k + 1);
    assert(u.subrange(o, e) =~= x);
    assert(t.subrange(o, e) =~= u.subrange(o, e)) by {
        assert forall|i: int| o <= i < e implies t[i] == u[i] by {
            assert(t.subrange(0, u.len() as int)[i] == u[i]);
        }
    }
    if k + 1 < n && ends_open(list[k]) {
        text_is_prefix(p, list, k + 2, n);
        let w = text_upto(p, list, k + 2);
        assert(w[e] == main_sep(p)[0]);
        assert(t.subrange(0, w.len() as int)[e] == w[e]);
    }
}

proof fn sep_is_at(r: Rules, s: Seq<char>, i: int, e: int)
    requires
        0 <= i <= e <= s.len(),
        forall|k: int| i <= k < e ==> !is_sep(r, #[trigger] s[k]),
        e == s.len() || is_sep(r, s[e]),
    ensures
        sep_from(r, s, i) == e,
    decreases e - i,
{
    if i < e {
        sep_is_at(r, s, i + 1, e);
    }
}

/// The text of a step or name holds no separator.
proof fn body_text(p: Platform, r: Rules, x: Piece)
    requires
        body_piece(r, x),
    ensures
        piece_text(p, x).len() > 0,
        forall|i: int| 0 <= i < piece_text(p, x).len() ==> !is_sep(r, #[trigger] piece_text(p, x)[i]),
        piece_of(r, piece_text(p, x)) == seq![x],
        !(r is Exact) ==> piece_text(p, x) != seq!['.'],
{
    reveal_strlit(".");
    reveal_strlit("..");
    if x is Up {
        assert(piece_text(p, x) =~= seq!['.', '.']);
        assert(piece_text(p, x).len() == 2);
        assert(seq!['.'].len() == 1);
    }
    if x is Here {
        assert(piece_text(p, x) =~= seq!['.']);
    }
}

/// The separator that is written separates.
proof fn main_sep_separates(p: Platform, list: Seq<Piece>)
    requires
        p is Unix ==> !is_verbatim(list),
    ensures
        main_sep(p).len() == 1,
        is_sep(body_rules(p, list), main_sep(p)[0]),
        is_sep(rules(p), main_sep(p)[0]),
        p is Windows ==> main_sep(p)[0] == '\\',
{
    reveal_strlit("/");
    reveal_strlit("\\");
}

/// From component `k` on the text of a path is read as its components.
proof fn body_reads(p: Platform, list: Seq<Piece>, k: int)
    requires
        is_path(p, list),
        head_len(list) <= k < list.len(),
    ensures
        body_from(body_rules(p, list), text_of(p, list), offset(p, list, k), list.subrange(0, k))
            == list,
    decreases list.len() - k,
{
    let r = body_rules(p, list);
    let t = text_of(p, list);
    let o = offset(p, list, k);
    let x = piece_text(p, list[k]);
    let e = o + x.len();
    main_sep_separates(p, list);
    text_at(p, list, k);
    body_text(p, r, list[k]);
    assert forall|i: int| o <= i < e implies !is_sep(r, #[trigger] t[i]) by {
        assert(t.subrange(o, e)[i - o] == t[i]);
        assert(!is_sep(r, x[i - o]));
    }
    assert(ends_open(list[k]));
    sep_is_at(r, t, o, e);
    let more = list.subrange(0, k) + piece_of(r, t.subrange(o, e));
    assert(more =~= list.subrange(0, k + 1));
    if k + 1 < list.len() {
        body_reads(p, list, k + 1);
    } else {
        assert(more =~= list);
        assert(body_from(r, t, e + 1, more) == more);
    }
}

/// The text of a path has the prefix that the path has.
proof fn prefix_reads(p: Platform, list: Seq<Piece>)
    requires
        is_path(p, list),
    ensures
        prefix_of(p, text_of(p, list)) == (if list.len() > 0 {
            match list[0] {
                Piece::Prefix(k, t) => Some((k, t.len() as int)),
                _ => None,
            }
        } else {
            None
        }),
        rules_of(p, text_of(p, list)) == body_rules(p, list),
{
    reveal_strlit(".");
    reveal_strlit("..");
    let t = text_of(p, list);
    if list.len() > 0 {
        main_sep_separates(p, list);
        text_at(p, list, 0);
        assert(text_upto(p, list, 0).len() == 0);
        let first = piece_text(p, list[0]);
        let n = first.len() as int;
        assert forall|i: int| 0 <= i < n implies #[trigger] t[i] == first[i] by {
            assert(t.subrange(0, n)[i] == t[i]);
        }
        match list[0] {
            Piece::Prefix(k, u) => {
                if list.len() == 1 {
                    assert(t =~= u);
                } else {
                    text_at(p, list, 1);
                    assert(offset(p, list, 1) == n);
                    let x = piece_text(p, list[1]);
                    if k is Drive && !(list[1] is Root) {
                        body_text(p, body_rules(p, list), list[1]);
                    } else {
                        assert(t.subrange(n, n + x.len())[0] == t[n]);
                    }
                    prefix_extends(p, k, u, t);
                }
            },
            Piece::Root => {
                if p is Windows && list.len() > 1 {
                    text_at(p, list, 1);
                    assert(offset(p, list, 1) == 1);
                    let x = piece_text(p, list[1]);
                    body_text(p, rules(p), list[1]);
                    assert(t.subrange(1, 1int + x.len())[0] == t[1]);
                    assert(!is_sep(rules(p), x[0]));
                }
                assert(t[0] == first[0]);
            },
            Piece::Here => {
                assert(t[0] == first[0]);
            },
            _ => {
                body_text(p, rules(p), list[0]);
                assert(t[0] == first[0]);
                assert(!is_sep(rules(p), first[0]));
                if n > 1 {
                    assert(t[1] == first[1]);
                }
            },
        }
    }
}

/// The start of the text of a path is read as its start.
proof fn head_reads(p: Platform, list: Seq<Piece>)
    requires
        is_path(p, list),
    ensures
        ({
            let t = text_of(p, list);
            let h = head_len(list);
            &&& head_of(p, t) == list.subrange(0, h)
            &&& body_start(p, t) == (if list.len() > 0 && list[0] is Here {
                0
            } else if h < list.len() {
                offset(p, list, h)
            } else {
                t.len() as int
            })
        }),
{
    reveal_strlit(".");
    reveal_strlit("..");
    let t = text_of(p, list);
    let h = head_len(list);
    prefix_reads(p, list);
    if list.len() == 0 {
        assert(head_of(p, t) =~= list.subrange(0, 0));
        return ;
    }
    main_sep_separates(p, list);
    text_at(p, list, 0);
    assert(text_upto(p, list, 0).len() == 0);
    let first = piece_text(p, list[0]);
    let n = first.len() as int;
    assert forall|i: int| 0 <= i < n implies #[trigger] t[i] == first[i] by {
        assert(t.subrange(0, n)[i] == t[i]);
    }
    match list[0] {
        Piece::Prefix(k, u) => {
            assert(t.subrange(0, n) =~= u);
            if list.len() > 1 {
                text_at(p, list, 1);
                assert(offset(p, list, 1) == n);
                let x = piece_text(p, list[1]);
                if !(list[1] is Root) {
                    body_text(p, body_rules(p, list), list[1]);
                }
                assert(t.subrange(n, n + x.len())[0] == t[n]);
                assert(t[n] == x[0]);
                if list.len() > 2 && list[1] is Root {
                    text_at(p, list, 2);
                }
            }
        },
        Piece::Root => {
            assert(t[0] == first[0]);
        },
        Piece::Here => {
            assert(t[0] == first[0]);
            assert(n == 1);
        },
        _ => {
            body_text(p, rules(p), list[0]);
            assert(t[0] == first[0]);
            assert(!is_sep(rules(p), first[0]));
            if starts_here(p, t) {
                if n == 1 {
                    assert(first =~= seq!['.']);
                } else {
                    assert(t[1] == first[1]);
                    assert(!is_sep(rules(p), first[1]));
                }
            }
        },
    }
    assert(head_of(p, t) =~= list.subrange(0, h));
}

/// A path that is written is read as the same path.
pub proof fn written_path_is_read(p: Platform, list: Seq<Piece>)
    requires
        is_path(p, list),
    ensures
        split_of(p, text_of(p, list)) == list,
{
    reveal_strlit(".");
    let t = text_of(p, list);
    let n = list.len() as int;
    let h = head_len(list);
    head_reads(p, list);
    prefix_reads(p, list);
    main_sep_separates(p, list);
    if n > 0 && list[0] is Here {
        let r = rules(p);
        text_at(p, list, 0);
        assert(text_upto(p, list, 0).len() == 0);
        assert(piece_text(p, list[0]) =~= seq!['.']);
        assert(t.subrange(0, 1)[0] == t[0]);
        sep_is_at(r, t, 0, 1);
        assert(list.subrange(0, 1) + piece_of(r, t.subrange(0, 1)) =~= list.subrange(0, 1));
        if 1 < n {
            body_reads(p, list, 1);
        } else {
            assert(list.subrange(0, 1) =~= list);
            assert(body_from(r, t, 2, list) == list);
        }
    } else if h < n {
        body_reads(p, list, h);
    } else {
        assert(list.subrange(0, h) =~= list);
    }
}

/// What is read behind `acc` are steps and names.
proof fn body_is_plain(r: Rules, s: Seq<char>, i: int, acc: Seq<Piece>)
    requires
        0 <= i,
    ensures
        ({
            let v = body_from(r, s, i, acc);
            &&& acc.len() <= v.len()
            &&& forall|k: int| 0 <= k < acc.len() ==> #[trigger] v[k] == acc[k]
            &&& forall|k: int| acc.len() <= k < v.len() ==> body_piece(r, #[trigger] v[k])
        }),
    decreases s.len() + 1 - i,
{
    if i < s.len() {
        no_sep_before(r, s, i);
        let e = sep_from(r, s, i);
        let t = s.subrange(i, e);
        let more = acc + piece_of(r, t);
        assert forall|k: int| 0 <= k < t.len() implies !is_sep(r, #[trigger] t[k]) by {
            assert(!is_sep(r, s[i + k]));
        }
        body_is_plain(r, s, e + 1, more);
        let v = body_from(r, s, e + 1, more);
        assert forall|k: int| acc.len() <= k < v.len() implies body_piece(r, #[trigger] v[k]) by {
            if k < more.len() {
                assert(v[k] == more[k]);
            }
        }
        assert forall|k: int| 0 <= k < acc.len() implies #[trigger] v[k] == acc[k] by {
            assert(v[k] == more[k]);
        }
    }
}

proof fn no_sep_before(r: Rules, s: Seq<char>, i: int)
    requires
        0 <= i <= s.len(),
    ensures
        i <= sep_from(r, s, i) <= s.len(),
        forall|k: int| i <= k < sep_from(r, s, i) ==> !is_sep(r, #[trigger] s[k]),
        sep_from(r, s, i) < s.len() ==> is_sep(r, s[sep_from(r, s, i)]),
    decreases s.len() - i,
{
    if i < s.len() && !is_sep(r, s[i]) {
        no_sep_before(r, s, i + 1);
    }
}

/// Whether the prefix of a path, if other components follow it, is one that other
/// components can follow: a verbatim share that is followed names its share.
pub open spec fn prefix_is_whole(p: Platform, s: Seq<char>) -> bool {
    prefix_of(p, s) matches Some((k, n)) ==> n == s.len() || whole_prefix(p, k, s.subrange(0, n))
}

/// What a text is read as are the components of a path.
pub proof fn read_path_is_one(p: Platform, s: Seq<char>)
    requires
        prefix_is_whole(p, s),
    ensures
        is_path(p, split_of(p, s)),
{
    reveal_strlit("..");
    let r = rules_of(p, s);
    let head = head_of(p, s);
    let list = split_of(p, s);
    prefix_bounds(p, s);
    prefix_stands_alone(p, s);
    body_is_plain(r, s, body_start(p, s), head);
    if head.len() > 0 {
        assert(list[0] == head[0]);
    }
    if head.len() > 1 {
        assert(list[1] == head[1]);
    }
    if head.len() < list.len() {
        assert(body_piece(r, list[head.len() as int]));
    }
    assert(head_len(list) == head.len());
    assert(r == body_rules(p, list));
    match prefix_of(p, s) {
        Some((k, n)) => {
            if n == s.len() {
                assert(list == head);
                assert(s.subrange(0, n) =~= s);
            }
        },
        None => {},
    }
    if head.len() == 0 && list.len() > 0 {
        no_sep_before(r, s, 0);
        let e = sep_from(r, s, 0);
        assert(s.len() > 0);
        assert(!is_sep(r, s[0]));
        assert(e > 0) by {
            if e == 0 {
                assert(is_sep(r, s[0]));
            }
        }
        let t = s.subrange(0, e);
        let more = head + piece_of(r, t);
        if t == seq!['.'] {
            assert(t.len() == 1);
            assert(t[0] == s[0]);
            assert(starts_here(p, s));
        }
        assert(more.len() == 1);
        body_is_plain(r, s, e + 1, more);
        assert(list[0] == more[0]);
        if list[0] is Up {
            assert(piece_text(p, list[0]) =~= seq!['.', '.']);
        } else {
            assert(list[0] == Piece::Name(t));
            if drive_at(t, 0) {
                assert(t[0] == s[0] && t[1] == s[1]);
            }
        }
    }
}

/// A path that was read, written and read again is the same path.
pub proof fn path_is_read_back(p: Platform, s: Seq<char>)
    requires
        prefix_is_whole(p, s),
    ensures
        split_of(p, text_of(p, split_of(p, s))) == split_of(p, s),
{
    read_path_is_one(p, s);
    written_path_is_read(p, split_of(p, s));
}

/// A text without separators that does not start like a drive is read as a name.
proof fn name_is_read(p: Platform, t: Seq<char>)
    requires
        plain_name(rules(p), t),
        p is Windows ==> !drive_at(t, 0),
    ensures
        split_of(p, t) == seq![Piece::Name(t)],
{
    let list = seq![Piece::Name(t)];
    assert(list[0] == Piece::Name(t));
    assert(text_of(p, list) =~= t) by {
        assert(text_upto(p, list, 0) =~= Seq::empty());
        assert(text_upto(p, list, 1) =~= t);
    }
    written_path_is_read(p, list);
}

/// An output name is a name, and starts like a drive only if the name does.
proof fn renamed_is_plain(r: Rules, t: Seq<char>)
    requires
        forall|i: int| 0 <= i < t.len() ==> !is_sep(r, #[trigger] t[i]),
    ensures
        plain_name(r, renamed(t)),
        !drive_at(t, 0) ==> !drive_at(renamed(t), 0),
{
    reveal_strlit(".unpack");
    let v = renamed(t);
    dot_bounds(t, t.len() as int);
    match last_dot(t, t.len() as int) {
        Some(i) => {
            assert(v.len() == t.len() + 7);
            assert forall|k: int| 0 <= k < v.len() implies !is_sep(r, #[trigger] v[k]) by {
                if k < i {
                    assert(v[k] == t[k]);
                } else if k < i + 7 {
                    assert(v[k] == ".unpack"@[k - i]);
                } else {
                    assert(v[k] == t[k - 7]);
                }
            }
        },
        None => {
            assert forall|k: int| 0 <= k < v.len() implies !is_sep(r, #[trigger] v[k]) by {
                if k < t.len() {
                    assert(v[k] == t[k]);
                } else {
                    assert(v[k] == ".unpack"@[k - t.len()]);
                }
            }
        },
    }
}

/// Names behind a path that is not empty are added to it.
proof fn names_are_added(base: Seq<Piece>, list: Seq<Piece>, i: int)
    requires
        0 <= i <= list.len(),
        forall|k: int| i <= k < list.len() ==> #[trigger] list[k] is Name,
    ensures
        cleaned(base, list, i) == base + list.subrange(i, list.len() as int),
    decreases list.len() - i,
{
    if i < list.len() {
        names_are_added(base.push(list[i]), list, i + 1);
        assert(base.push(list[i]) + list.subrange(i + 1, list.len() as int) =~= base
            + list.subrange(i, list.len() as int));
    } else {
        assert(base + list.subrange(i, i) =~= base);
    }
}

/// A verbatim path that was read has a root in front of its names.
proof fn verbatim_has_root(p: Platform, s: Seq<char>)
    requires
        is_verbatim(split_of(p, s)),
        split_of(p, s).len() > 1,
    ensures
        split_of(p, s)[1] is Root,
{
    let list = split_of(p, s);
    prefix_bounds(p, s);
    prefix_stands_alone(p, s);
    body_is_plain(rules_of(p, s), s, body_start(p, s), head_of(p, s));
    if head_of(p, s).len() > 0 {
        assert(list[0] == head_of(p, s)[0]);
    }
    if head_of(p, s).len() > 1 {
        assert(list[1] == head_of(p, s)[1]);
    }
}

/// An output name is seven characters longer than the name, stands in the same
/// directory, and keeps the extension. On Windows that holds of names in which
/// nothing separates and which do not start like a drive.
pub proof fn output_name_is_another(p: Platform, input: Seq<char>, file: Seq<char>)
    requires
        file_name_of(split_of(p, input)) == Some(file),
        forall|i: int| 0 <= i < file.len() ==> !is_sep(rules(p), #[trigger] file[i]),
        p is Windows ==> !drive_at(file, 0),
    ensures
        ({
            let out = out_path(p, input);
            let list = split_of(p, input);
            &&& out.len() == list.len()
            &&& out.drop_last() == list.drop_last()
            &&& out.last() == Piece::Name(renamed(file))
            &&& renamed(file).len() == file.len() + 7
            &&& extension_of(file) is Some ==> extension_of(renamed(file)) == extension_of(file)
        }),
{
    reveal_strlit(".unpack");
    let list = split_of(p, input);
    let out = out_path(p, input);
    let base = list.drop_last();
    let name = seq![Piece::Name(renamed(file))];
    renamed_is_plain(rules(p), file);
    name_is_read(p, renamed(file));
    assert(name[0] is Name);
    if base.len() > 0 {
        assert(base[0] == list[0]);
        names_are_added(base, name, 0);
        assert(name.subrange(0, 1) =~= name);
        if is_verbatim(base) {
            verbatim_has_root(p, input);
            assert(list[1] is Root);
            assert((base + name)[1] == list[1]) by {
                if list.len() == 2 {
                    assert(list.last() == list[1]);
                }
            }
        }
    }
    assert(out =~= base + name);
    assert(out.drop_last() =~= list.drop_last());
    dot_bounds(file, file.len() as int);
    match last_dot(file, file.len() as int) {
        None => {},
        Some(i) => {
            let r = renamed(file);
            assert forall|k: int| i + 8 <= k < r.len() implies r[k] != '.' by {
                assert(r[k] == file[k - 7]);
            }
            assert(r[i + 7] == file[i]);
            dot_is_last(r, r.len() as int, i + 7);
            assert(r.subrange(i + 8, r.len() as int) =~= file.subrange(
                i + 1,
                file.len() as int,
            ));
        },
    }
}

/// What is left of a path behind a root that has a root itself, or of a path that has
/// neither root nor prefix, is read as a path that has neither, unless its first name
/// starts like a drive or a root.
pub proof fn rest_is_relative(p: Platform, root: Seq<char>, path: Seq<char>)
    requires
        has_root(p, root) || (!has_root(p, path) && prefix_of(p, path) is None),
        ({
            let rel = rel_path(p, root, path);
            rel.len() > 0 ==> (rel[0] matches Piece::Name(t) ==> !is_sep(rules(p), t[0]) && (
            p is Windows ==> !drive_at(t, 0)))
        }),
    ensures
        prefix_of(p, text_of(p, rel_path(p, root, path))) is None,
        !rooted(p, text_of(p, rel_path(p, root, path))),
{
    reveal_strlit(".");
    reveal_strlit("..");
    let rel = rel_path(p, root, path);
    let list = split_of(p, path);
    let t = text_of(p, rel);
    if rel.len() > 0 {
        relative_path_stays_relative(p, root, path, 0);
        prefix_bounds(p, path);
        body_is_plain(rules_of(p, path), path, body_start(p, path), head_of(p, path));
        let x = piece_text(p, rel[0]);
        assert(x.len() > 0) by {
            if rel[0] is Name {
                let k = if starts_with(list, split_of(p, root)) {
                    split_of(p, root).len() as int
                } else {
                    list.len() - 1
                };
                assert(list[k] == rel[0]);
                if k < head_of(p, path).len() {
                    assert(list[k] == head_of(p, path)[k]);
                } else {
                    assert(body_piece(rules_of(p, path), list[k]));
                }
            }
        }
        reveal_strlit("/");
        reveal_strlit("\\");
        text_at(p, rel, 0);
        assert(text_upto(p, rel, 0).len() == 0);
        let n = x.len() as int;
        assert(t.subrange(0, n)[0] == t[0]);
        if n > 1 {
            assert(t.subrange(0, n)[1] == t[1]);
        }
    }
}

/// Whether no component is a step up.
pub open spec fn steps_down(list: Seq<Piece>) -> bool {
    forall|k: int| 0 <= k < list.len() ==> !(#[trigger] list[k] is Up)
}

/// Output stays under the output root, as long as what is left of the path behind the
/// root is read as relative, the name does not start like a drive, the prefix of the
/// output root can be followed, and no step up is put behind a verbatim one.
pub proof fn output_stays_under_its_root(
    p: Platform,
    root: Seq<char>,
    out_root: Seq<char>,
    path: Seq<char>,
)
    requires
        ({
            let rel = text_of(p, rel_path(p, root, path));
            let list = split_of(p, rel);
            &&& prefix_of(p, rel) is None
            &&& !rooted(p, rel)
            &&& p is Windows ==> !drive_at(name_of(list), 0)
            &&& (prefix_of(p, out_root) matches Some((k, n)) ==> whole_prefix(
                p,
                k,
                out_root.subrange(0, n),
            ))
            &&& is_verbatim(split_of(p, out_root)) ==> steps_down(list)
        }),
    ensures
        ({
            let base = split_of(p, out_root);
            let out = split_of(p, text_of(p, destination(p, root, out_root, path)));
            &&& starts_with(out, base)
            &&& out.len() > base.len()
            &&& out.last() == Piece::Name(
                renamed(name_of(split_of(p, text_of(p, rel_path(p, root, path))))),
            )
        }),
{
    let rel = text_of(p, rel_path(p, root, path));
    let list = split_of(p, rel);
    let file = name_of(list);
    let base = split_of(p, out_root);
    read_path_is_one(p, rel);
    read_path_is_one(p, out_root);
    relative_head(p, rel);
    let name = out_path(p, rel);
    name_follows(p, list);
    written_path_is_read(p, name);
    let whole = joined(base, name);
    joined_is_path(p, out_root, name);
    written_path_is_read(p, whole);
}

/// The name of a path, which may be empty.
pub open spec fn name_of(list: Seq<Piece>) -> Seq<char> {
    match file_name_of(list) {
        Some(t) => t,
        None => Seq::empty(),
    }
}

/// A path without prefix and root starts at most with a dot for itself.
proof fn relative_head(p: Platform, s: Seq<char>)
    requires
        prefix_of(p, s) is None,
        !rooted(p, s),
    ensures
        forall|k: int|
            0 <= k < split_of(p, s).len() ==> !(#[trigger] split_of(p, s)[k] is Root) && !(
            split_of(p, s)[k] is Prefix),
{
    let head = head_of(p, s);
    let list = split_of(p, s);
    body_is_plain(rules_of(p, s), s, body_start(p, s), head);
    assert forall|k: int| 0 <= k < list.len() implies !(#[trigger] list[k] is Root) && !(
    list[k] is Prefix) by {
        if k < head.len() {
            assert(list[k] == head[k]);
        } else {
            assert(body_piece(rules_of(p, s), list[k]));
        }
    }
}

/// The output name of a relative path are the components of a path.
proof fn name_follows(p: Platform, rel: Seq<Piece>)
    requires
        is_path(p, rel),
        forall|i: int| 0 <= i < rel.len() ==> !(#[trigger] rel[i] is Root) && !(rel[i] is Prefix),
        p is Windows ==> !drive_at(name_of(rel), 0),
    ensures
        ({
            let name = joined(
                match parent_of(rel) {
                    Some(v) => v,
                    None => Seq::empty(),
                },
                split_of(p, renamed(name_of(rel))),
            );
            &&& is_path(p, name)
            &&& name.len() > 0
            &&& name.last() == Piece::Name(renamed(name_of(rel)))
            &&& !(name[0] is Root)
            &&& !(name[0] is Prefix)
            &&& steps_down(rel) ==> steps_down(name)
        }),
{
    let n = rel.len() as int;
    let file = name_of(rel);
    let base = match parent_of(rel) {
        Some(v) => v,
        None => Seq::empty(),
    };
    if n > 0 {
        assert(rel[n - 1] == rel.last());
        assert(ends_open(rel.last()));
        if rel.last() is Name {
            assert(body_piece(rules(p), rel[n - 1]));
        }
    }
    renamed_is_plain(rules(p), file);
    name_is_read(p, renamed(file));
    let last = seq![Piece::Name(renamed(file))];
    let name = joined(base, last);
    assert(last[0] is Name);
    assert(name =~= base + last);
    assert(head_len(name) <= head_len(rel));
    assert forall|k: int| head_len(name) <= k < name.len() implies body_piece(
        body_rules(p, name),
        #[trigger] name[k],
    ) by {
        if k < base.len() {
            assert(name[k] == rel[k]);
        }
    }
    assert forall|k: int| 0 <= k < base.len() implies #[trigger] name[k] == rel[k] by {}
}

/// A path behind another is a path.
proof fn joined_is_path(p: Platform, s: Seq<char>, list: Seq<Piece>)
    requires
        is_path(p, split_of(p, s)),
        prefix_of(p, s) matches Some((k, n)) ==> whole_prefix(p, k, s.subrange(0, n)),
        is_path(p, list),
        list.len() > 0,
        list.last() is Name,
        !(list[0] is Root),
        !(list[0] is Prefix),
        is_verbatim(split_of(p, s)) ==> steps_down(list),
    ensures
        ({
            let base = split_of(p, s);
            &&& is_path(p, joined(base, list))
            &&& starts_with(joined(base, list), base)
            &&& joined(base, list).len() > base.len()
            &&& joined(base, list).last() == list.last()
        }),
{
    let base = split_of(p, s);
    let whole = joined(base, list);
    let m = list.len() as int;
    let skip = if list[0] is Here {
        1int
    } else {
        0int
    };
    let more = list.subrange(skip, m);
    assert(list.last() == list[m - 1]);
    if base.len() == 0 {
        return ;
    }
    prefix_bounds(p, s);
    body_is_plain(rules_of(p, s), s, body_start(p, s), head_of(p, s));
    assert forall|k: int| 0 <= k < more.len() implies body_piece(rules(p), #[trigger] more[k]) by {
        assert(more[k] == list[k + skip]);
        assert(body_piece(body_rules(p, list), list[k + skip]));
    }
    assert(more.last() == list.last());
    if is_verbatim(base) {
        assert forall|k: int| skip <= k < m implies #[trigger] list[k] is Name by {
            assert(more[k - skip] == list[k]);
        }
        names_are_added(base, list, skip);
        assert(cleaned(base, list, 0) == base + more);
        if base.len() > 1 {
            verbatim_has_root(p, s);
            assert((base + more)[1] == base[1]);
            assert(whole == base + more);
        } else {
            assert((base + more)[1] == more[0]);
            assert(more[0] is Name);
            assert(whole == (base + more).insert(1, Piece::Root));
            assert(whole =~= base.push(Piece::Root) + more);
        }
        let b = whole.len() - more.len();
        assert forall|k: int| b <= k < whole.len() implies body_piece(
            Rules::Exact,
            #[trigger] whole[k],
        ) by {
            assert(whole[k] == more[k - b]);
            exact_is_looser(p, more[k - b]);
        }
    } else {
        assert(whole =~= base + more);
        let b = base.len() as int;
        assert forall|k: int| b <= k < whole.len() implies body_piece(
            rules(p),
            #[trigger] whole[k],
        ) by {
            assert(whole[k] == more[k - b]);
        }
    }
    assert(whole[0] == base[0]);
    if base.len() > 1 {
        assert(whole[1] == base[1]);
    }
    assert(head_of(p, s).len() > 0 ==> base[0] == head_of(p, s)[0]);
    assert forall|i: int| 0 <= i < base.len() implies same_piece(#[trigger] whole[i], base[i]) by {
        assert(whole[i] == base[i]);
        match base[i] {
            Piece::Prefix(k, u) => {
                prefix_is_itself(k, u, 0);
            },
            _ => {},
        }
    }
    assert forall|k: int| head_len(whole) <= k < whole.len() implies body_piece(
        body_rules(p, whole),
        #[trigger] whole[k],
    ) by {
        if k < base.len() {
            assert(whole[k] == base[k]);
            assert(head_len(base) <= k);
            assert(body_piece(body_rules(p, base), base[k]));
        }
    }
}

/// A step or name of an ordinary Windows path is one of a verbatim path.
proof fn exact_is_looser(p: Platform, x: Piece)
    requires
        p is Windows,
        body_piece(rules(p), x),
    ensures
        body_piece(Rules::Exact, x),
{
    match x {
        Piece::Name(t) => {
            assert forall|i: int| 0 <= i < t.len() implies !is_sep(
                Rules::Exact,
                #[trigger] t[i],
            ) by {
                assert(!is_sep(rules(p), t[i]));
            }
        },
        _ => {},
    }
}

} // verus!
