//! Paths as text, component by component.
//!
//! Two paths are the same when their components are. A path that is written here
//! has one separator between components and none at its end.

use vstd::prelude::*;

use crate::io::prefix::{find_prefix, order_prefixes, prefix_bounds, prefix_of, prefix_order, Prefix};
use crate::io::tree::{join_parts, joined};

verus! {

/// Whose rules a path follows.
#[derive(Debug, Clone, Copy, PartialEq, Eq, Structural)]
pub enum Platform {
    Unix,
    Windows,
}

/// A component.
#[derive(Debug, PartialEq, Eq)]
pub enum Part {
    /// A prefix, as it is written.
    Prefix(Prefix, String),
    Root,
    Here,
    Up,
    Name(String),
}

/// What a [`Part`] says.
pub enum Piece {
    Prefix(Prefix, Seq<char>),
    Root,
    Here,
    Up,
    Name(Seq<char>),
}

impl View for Part {
    type V = Piece;

    open spec fn view(&self) -> Piece {
        match *self {
            Part::Prefix(k, t) => Piece::Prefix(k, t@),
            Part::Root => Piece::Root,
            Part::Here => Piece::Here,
            Part::Up => Piece::Up,
            Part::Name(t) => Piece::Name(t@),
        }
    }
}

/// What some components say.
pub open spec fn pieces(v: Seq<Part>) -> Seq<Piece> {
    Seq::new(v.len(), |i: int| v[i]@)
}

/// What separates the components of a path.
#[derive(Debug, Clone, Copy, PartialEq, Eq, Structural)]
pub enum Rules {
    /// A slash.
    Slash,
    /// A slash or a backslash.
    Either,
    /// A backslash; a dot is a component.
    Exact,
}

/// The rules of a path without a verbatim prefix.
pub open spec fn rules(p: Platform) -> Rules {
    if p is Windows {
        Rules::Either
    } else {
        Rules::Slash
    }
}

/// The rules of what follows the prefix of a path.
pub open spec fn rules_of(p: Platform, s: Seq<char>) -> Rules {
    match prefix_of(p, s) {
        Some((k, n)) => if k.verbatim() {
            Rules::Exact
        } else {
            rules(p)
        },
        None => rules(p),
    }
}

/// Whether `c` separates components.
pub open spec fn is_sep(r: Rules, c: char) -> bool {
    match r {
        Rules::Slash => c == '/',
        Rules::Either => c == '/' || c == '\\',
        Rules::Exact => c == '\\',
    }
}

/// An ASCII letter.
pub open spec fn is_letter(c: char) -> bool {
    ('a' <= c && c <= 'z') || ('A' <= c && c <= 'Z')
}

/// An upper-case ASCII letter as the lower-case one.
pub open spec fn lower(c: char) -> int {
    if 'A' <= c && c <= 'Z' {
        c as int + 32
    } else {
        c as int
    }
}

/// Whether two texts are the same but for the case of ASCII letters.
pub open spec fn alike(a: Seq<char>, b: Seq<char>) -> bool {
    a.len() == b.len() && forall|i: int| 0 <= i < a.len() ==> lower(#[trigger] a[i]) == lower(b[i])
}

fn lower_char(c: char) -> (r: u32)
    ensures
        r == lower(c),
{
    if 'A' <= c && c <= 'Z' {
        c as u32 + 32
    } else {
        c as u32
    }
}

/// Whether two texts are the same but for the case of ASCII letters.
pub fn eq_ignore_case(a: &str, b: &str) -> (r: bool)
    ensures
        r == alike(a@, b@),
{
    let n: usize = a.unicode_len();
    if n != b.unicode_len() {
        return false;
    }
    let mut i: usize = 0;
    while i < n
        invariant
            i <= n,
            n == a@.len() == b@.len(),
            forall|k: int| 0 <= k < i ==> lower(#[trigger] a@[k]) == lower(b@[k]),
        decreases n - i,
    {
        if lower_char(a.get_char(i)) != lower_char(b.get_char(i)) {
            return false;
        }
        i = i + 1;
    }
    true
}

/// Whether two texts are the same.
pub fn same_text(a: &str, b: &str) -> (r: bool)
    ensures
        r == (a@ == b@),
{
    let n: usize = a.unicode_len();
    if n != b.unicode_len() {
        return false;
    }
    let mut i: usize = 0;
    while i < n
        invariant
            i <= n,
            n == a@.len() == b@.len(),
            forall|k: int| 0 <= k < i ==> a@[k] == b@[k],
        decreases n - i,
    {
        if a.get_char(i) != b.get_char(i) {
            return false;
        }
        i = i + 1;
    }
    assert(a@ =~= b@);
    true
}

/// The length of the prefix of a path.
pub open spec fn prefix_len(p: Platform, s: Seq<char>) -> int {
    match prefix_of(p, s) {
        Some((k, n)) => n,
        None => 0,
    }
}

/// The first separator from `i` on, or the end.
pub open spec fn sep_from(r: Rules, s: Seq<char>, i: int) -> int
    decreases s.len() - i,
{
    if i >= s.len() || is_sep(r, s[i]) {
        i
    } else {
        sep_from(r, s, i + 1)
    }
}

/// The component that the text between two separators is, if it is one.
pub open spec fn piece_of(r: Rules, t: Seq<char>) -> Seq<Piece> {
    if t.len() == 0 {
        Seq::empty()
    } else if t == seq!['.'] {
        if r is Exact {
            seq![Piece::Here]
        } else {
            Seq::empty()
        }
    } else if t == seq!['.', '.'] {
        seq![Piece::Up]
    } else {
        seq![Piece::Name(t)]
    }
}

/// `acc` and the components from `i` on.
pub open spec fn body_from(r: Rules, s: Seq<char>, i: int, acc: Seq<Piece>) -> Seq<Piece>
    decreases s.len() + 1 - i,
    via sep_goes_on
{
    if i >= s.len() {
        acc
    } else {
        body_from(
            r,
            s,
            sep_from(r, s, i) + 1,
            acc + piece_of(r, s.subrange(i, sep_from(r, s, i))),
        )
    }
}

#[via_fn]
proof fn sep_goes_on(r: Rules, s: Seq<char>, i: int, acc: Seq<Piece>) {
    if i < s.len() {
        sep_bounds(r, s, i);
    }
}

proof fn sep_bounds(r: Rules, s: Seq<char>, i: int)
    requires
        i <= s.len(),
    ensures
        i <= sep_from(r, s, i) <= s.len(),
    decreases s.len() - i,
{
    if i < s.len() && !is_sep(r, s[i]) {
        sep_bounds(r, s, i + 1);
    }
}

/// Whether a path has a written root, behind its prefix.
pub open spec fn rooted(p: Platform, s: Seq<char>) -> bool {
    prefix_len(p, s) < s.len() && is_sep(rules(p), s[prefix_len(p, s)])
}

/// Whether a path without prefix starts with a dot for itself.
pub open spec fn starts_here(p: Platform, s: Seq<char>) -> bool {
    &&& prefix_of(p, s) is None
    &&& s.len() > 0 && s[0] == '.' && (s.len() == 1 || is_sep(rules(p), s[1]))
}

/// What stands before the body of a path.
pub open spec fn head_of(p: Platform, s: Seq<char>) -> Seq<Piece> {
    match prefix_of(p, s) {
        Some((k, n)) => if rooted(p, s) || k.implies_root() {
            seq![Piece::Prefix(k, s.subrange(0, n)), Piece::Root]
        } else {
            seq![Piece::Prefix(k, s.subrange(0, n))]
        },
        None => if rooted(p, s) {
            seq![Piece::Root]
        } else if starts_here(p, s) {
            seq![Piece::Here]
        } else {
            Seq::empty()
        },
    }
}

/// Where the body of a path starts.
pub open spec fn body_start(p: Platform, s: Seq<char>) -> int {
    if rooted(p, s) {
        prefix_len(p, s) + 1
    } else {
        prefix_len(p, s)
    }
}

/// The components of a path.
pub open spec fn split_of(p: Platform, s: Seq<char>) -> Seq<Piece> {
    body_from(rules_of(p, s), s, body_start(p, s), head_of(p, s))
}

fn separates(r: Rules, c: char) -> (b: bool)
    ensures
        b == is_sep(r, c),
{
    match r {
        Rules::Slash => c == '/',
        Rules::Either => c == '/' || c == '\\',
        Rules::Exact => c == '\\',
    }
}

fn plain_rules(p: Platform) -> (r: Rules)
    ensures
        r == rules(p),
{
    match p {
        Platform::Windows => Rules::Either,
        Platform::Unix => Rules::Slash,
    }
}

/// The first separator from `from` on, or the end.
fn find_sep(rules: Rules, s: &str, from: usize, n: usize) -> (r: usize)
    requires
        n == s@.len(),
        from <= n,
    ensures
        r == sep_from(rules, s@, from as int),
        from <= r <= n,
{
    let mut i: usize = from;
    while i < n && !separates(rules, s.get_char(i))
        invariant
            from <= i <= n,
            n == s@.len(),
            sep_from(rules, s@, i as int) == sep_from(rules, s@, from as int),
        decreases n - i,
    {
        i = i + 1;
    }
    i
}

/// Read what stands before the body of a path, and find where the body starts.
fn split_head(p: Platform, s: &str, n: usize) -> (r: (Vec<Part>, usize, Rules))
    requires
        n == s@.len(),
    ensures
        pieces(r.0@) == head_of(p, s@),
        r.1 == body_start(p, s@),
        r.1 <= n,
        r.2 == rules_of(p, s@),
{
    let plain: Rules = plain_rules(p);
    let mut out: Vec<Part> = Vec::new();
    match find_prefix(p, s) {
        Some((k, m)) => {
            out.push(Part::Prefix(k, s.substring_char(0, m).to_owned()));
            let written: bool = m < n && separates(plain, s.get_char(m));
            if written || k.has_implied_root() {
                out.push(Part::Root);
            }
            assert(pieces(out@) =~= head_of(p, s@));
            (
                out,
                if written {
                    m + 1
                } else {
                    m
                },
                if k.is_verbatim() {
                    Rules::Exact
                } else {
                    plain
                },
            )
        },
        None => {
            if n > 0 && separates(plain, s.get_char(0)) {
                out.push(Part::Root);
                assert(pieces(out@) =~= head_of(p, s@));
                return (out, 1, plain);
            }
            if n > 0 && s.get_char(0) == '.' && (n == 1 || separates(plain, s.get_char(1))) {
                out.push(Part::Here);
            }
            assert(pieces(out@) =~= head_of(p, s@));
            (out, 0, plain)
        },
    }
}

/// The components of a path.
pub fn split(p: Platform, s: &str) -> (r: Vec<Part>)
    ensures
        pieces(r@) == split_of(p, s@),
{
    let n: usize = s.unicode_len();
    let (mut out, mut at, rules): (Vec<Part>, usize, Rules) = split_head(p, s, n);
    while at < n
        invariant
            n == s@.len(),
            rules == rules_of(p, s@),
            body_from(rules, s@, at as int, pieces(out@)) == split_of(p, s@),
        decreases n - at,
    {
        let end: usize = find_sep(rules, s, at, n);
        let t: &str = s.substring_char(at, end);
        let ghost before = pieces(out@);
        proof {
            reveal_strlit(".");
            reveal_strlit("..");
            assert("."@ =~= seq!['.']);
            assert(".."@ =~= seq!['.', '.']);
        }
        let exact: bool = match rules {
            Rules::Exact => true,
            _ => false,
        };
        if end == at {
            assert(before + piece_of(rules, t@) =~= before);
        } else if same_text(t, ".") {
            if exact {
                out.push(Part::Here);
                assert(pieces(out@) =~= before + piece_of(rules, t@));
            } else {
                assert(before + piece_of(rules, t@) =~= before);
            }
        } else if same_text(t, "..") {
            out.push(Part::Up);
            assert(pieces(out@) =~= before + piece_of(rules, t@));
        } else {
            out.push(Part::Name(t.to_owned()));
            assert(pieces(out@) =~= before + piece_of(rules, t@));
        }
        if end == n {
            assert(body_from(rules, s@, n + 1, pieces(out@)) == pieces(out@));
            return out;
        }
        at = end + 1;
    }
    out
}

/// The separator that is written.
pub open spec fn main_sep(p: Platform) -> Seq<char> {
    match p {
        Platform::Unix => "/"@,
        Platform::Windows => "\\"@,
    }
}

/// The text of a component.
pub open spec fn piece_text(p: Platform, x: Piece) -> Seq<char> {
    match x {
        Piece::Prefix(_, t) => t,
        Piece::Root => main_sep(p),
        Piece::Here => "."@,
        Piece::Up => ".."@,
        Piece::Name(t) => t,
    }
}

/// Whether a separator follows a component.
pub open spec fn ends_open(x: Piece) -> bool {
    x is Here || x is Up || x is Name
}

/// The text of the first `n` components.
pub open spec fn text_upto(p: Platform, list: Seq<Piece>, n: int) -> Seq<char>
    decreases n,
{
    if n <= 0 {
        Seq::empty()
    } else if n >= 2 && ends_open(list[n - 2]) {
        text_upto(p, list, n - 1) + main_sep(p) + piece_text(p, list[n - 1])
    } else {
        text_upto(p, list, n - 1) + piece_text(p, list[n - 1])
    }
}

/// The text of a path.
pub open spec fn text_of(p: Platform, list: Seq<Piece>) -> Seq<char> {
    text_upto(p, list, list.len() as int)
}

fn push_sep(p: Platform, s: &mut String)
    ensures
        final(s)@ == old(s)@ + main_sep(p),
{
    match p {
        Platform::Unix => s.append("/"),
        Platform::Windows => s.append("\\"),
    }
}

/// The text of a path.
pub fn write(p: Platform, list: &[Part]) -> (r: String)
    ensures
        r@ == text_of(p, pieces(list@)),
{
    let mut s: String = String::new();
    assert(s@ =~= Seq::<char>::empty());
    let mut i: usize = 0;
    while i < list.len()
        invariant
            i <= list@.len(),
            s@ == text_upto(p, pieces(list@), i as int),
        decreases list@.len() - i,
    {
        assert(pieces(list@)[i as int] == list@[i as int]@);
        if i >= 1 {
            assert(pieces(list@)[i - 1] == list@[i - 1]@);
            match &list[i - 1] {
                Part::Here | Part::Up | Part::Name(_) => push_sep(p, &mut s),
                _ => {},
            }
        }
        match &list[i] {
            Part::Prefix(_, t) => s.append(t.as_str()),
            Part::Root => push_sep(p, &mut s),
            Part::Here => s.append("."),
            Part::Up => s.append(".."),
            Part::Name(t) => s.append(t.as_str()),
        }
        i = i + 1;
    }
    s
}

/// The path that a path stands in, if it has a name or a step at its end.
pub open spec fn parent_of(list: Seq<Piece>) -> Option<Seq<Piece>> {
    if list.len() > 0 && ends_open(list.last()) {
        Some(list.drop_last())
    } else {
        None
    }
}

/// The name at the end of a path.
pub open spec fn file_name_of(list: Seq<Piece>) -> Option<Seq<char>> {
    if list.len() > 0 {
        match list.last() {
            Piece::Name(t) => Some(t),
            _ => None,
        }
    } else {
        None
    }
}

/// Take the last component off, if it is a name or a step.
fn pop_last(list: &mut Vec<Part>) -> (r: bool)
    ensures
        match parent_of(pieces(old(list)@)) {
            Some(v) => r && pieces(final(list)@) == v,
            None => !r && final(list)@ == old(list)@,
        },
{
    let n: usize = list.len();
    if n == 0 {
        return false;
    }
    let ghost before = list@;
    assert(pieces(before).last() == before[n - 1]@);
    let open: bool = match &list[n - 1] {
        Part::Here | Part::Up | Part::Name(_) => true,
        _ => false,
    };
    if open {
        let _ = list.pop();
        assert(pieces(list@) =~= pieces(before).drop_last());
    }
    open
}

fn named(t: &str) -> (r: Vec<Part>)
    ensures
        pieces(r@) == seq![Piece::Name(t@)],
{
    let mut list: Vec<Part> = Vec::new();
    list.push(Part::Name(t.to_owned()));
    assert(pieces(list@) =~= seq![Piece::Name(t@)]);
    list
}

/// The name at the end of a path.
pub fn file_name(p: Platform, path: &str) -> (r: Option<String>)
    ensures
        match file_name_of(split_of(p, path@)) {
            Some(t) => r is Some && r->0@ == t,
            None => r is None,
        },
{
    let list: Vec<Part> = split(p, path);
    let n: usize = list.len();
    if n == 0 {
        return None;
    }
    assert(pieces(list@).last() == list@[n - 1]@);
    match &list[n - 1] {
        Part::Name(t) => Some(t.clone()),
        _ => None,
    }
}

/// The last dot of the first `n` characters.
pub open spec fn last_dot(s: Seq<char>, n: int) -> Option<int>
    decreases n,
{
    if n <= 0 {
        None
    } else if s[n - 1] == '.' {
        Some(n - 1)
    } else {
        last_dot(s, n - 1)
    }
}

/// The last dot of a name.
fn find_dot(s: &str, n: usize) -> (r: Option<usize>)
    requires
        n == s@.len(),
    ensures
        match last_dot(s@, n as int) {
            Some(i) => r is Some && r->0 == i && i < n,
            None => r is None,
        },
{
    let mut i: usize = n;
    while i > 0
        invariant
            i <= n,
            n == s@.len(),
            last_dot(s@, i as int) == last_dot(s@, n as int),
        decreases i,
    {
        if s.get_char(i - 1) == '.' {
            return Some(i - 1);
        }
        i = i - 1;
    }
    None
}

/// What follows the last dot of a name, if something stands before it.
pub open spec fn extension_of(name: Seq<char>) -> Option<Seq<char>> {
    match last_dot(name, name.len() as int) {
        Some(i) => if i > 0 {
            Some(name.subrange(i + 1, name.len() as int))
        } else {
            None
        },
        None => None,
    }
}

/// Whether the extension of a name is `ext`, in any case.
pub open spec fn has_extension(name: Seq<char>, ext: Seq<char>) -> bool {
    extension_of(name) matches Some(t) && alike(t, ext)
}

/// Whether the extension of a name is `ext`, in any case.
pub fn name_has_extension(name: &str, ext: &str) -> (r: bool)
    ensures
        r == has_extension(name@, ext@),
{
    let n: usize = name.unicode_len();
    match find_dot(name, n) {
        Some(i) => i > 0 && eq_ignore_case(name.substring_char(i + 1, n), ext),
        None => false,
    }
}

/// Whether the extension of the name of a path is `ext`, in any case.
pub open spec fn path_extension(p: Platform, path: Seq<char>, ext: Seq<char>) -> bool {
    file_name_of(split_of(p, path)) matches Some(t) && has_extension(t, ext)
}

/// Whether the extension of the name of a path is `ext`, in any case.
pub fn path_has_extension(p: Platform, path: &str, ext: &str) -> (r: bool)
    ensures
        r == path_extension(p, path@, ext@),
{
    match file_name(p, path) {
        Some(t) => name_has_extension(t.as_str(), ext),
        None => false,
    }
}

/// The output root of a folder.
pub open spec fn folder_root(p: Platform, root: Seq<char>) -> Seq<Piece> {
    joined(split_of(p, root), seq![Piece::Name("unpack"@)])
}

/// The output root of a folder: `unpack` inside it.
pub fn default_out_root_for_folder(p: Platform, root: &str) -> (r: String)
    ensures
        r@ == text_of(p, folder_root(p, root@)),
{
    let list: Vec<Part> = split(p, root);
    write(p, &join_parts(list, named("unpack")))
}

/// The path that a path stands in, or a dot.
pub open spec fn base_of(list: Seq<Piece>) -> Seq<Piece> {
    match parent_of(list) {
        Some(v) => v,
        None => seq![Piece::Here],
    }
}

fn base(list: &mut Vec<Part>)
    ensures
        pieces(final(list)@) == base_of(pieces(old(list)@)),
{
    if !pop_last(list) {
        *list = here();
    }
}

fn here() -> (r: Vec<Part>)
    ensures
        pieces(r@) == seq![Piece::Here],
{
    let mut list: Vec<Part> = Vec::new();
    list.push(Part::Here);
    assert(pieces(list@) =~= seq![Piece::Here]);
    list
}

/// The output root of a file.
pub open spec fn file_root(p: Platform, input: Seq<char>) -> Seq<Piece> {
    let base = base_of(split_of(p, input));
    joined(
        if base.len() > 0 {
            base
        } else {
            seq![Piece::Here]
        },
        seq![Piece::Name("unpack"@)],
    )
}

/// The output root of a file: `unpack` beside it.
pub fn default_out_root_for_file(p: Platform, input: &str) -> (r: String)
    ensures
        r@ == text_of(p, file_root(p, input@)),
{
    let mut list: Vec<Part> = split(p, input);
    base(&mut list);
    if list.len() == 0 {
        list = here();
    }
    write(p, &join_parts(list, named("unpack")))
}

/// The module index beside a library.
pub open spec fn index_path(p: Platform, input: Seq<char>) -> Seq<Piece> {
    joined(
        joined(base_of(split_of(p, input)), seq![Piece::Name("libil2cpp_stage2_modules"@)]),
        seq![Piece::Name("index.json"@)],
    )
}

/// Where the module index of a library is looked for.
pub fn default_module_index(p: Platform, input: &str) -> (r: String)
    ensures
        r@ == text_of(p, index_path(p, input@)),
{
    let mut list: Vec<Part> = split(p, input);
    base(&mut list);
    let dir: Vec<Part> = join_parts(list, named("libil2cpp_stage2_modules"));
    write(p, &join_parts(dir, named("index.json")))
}

/// A file name with `.unpack` before its last dot, or at its end.
pub open spec fn renamed(file: Seq<char>) -> Seq<char> {
    match last_dot(file, file.len() as int) {
        Some(i) => file.subrange(0, i) + ".unpack"@ + file.subrange(i, file.len() as int),
        None => file + ".unpack"@,
    }
}

/// A file name with `.unpack` before its last dot, or at its end.
pub fn renamed_file(file: &str) -> (r: String)
    ensures
        r@ == renamed(file@),
{
    let n: usize = file.unicode_len();
    match find_dot(file, n) {
        Some(i) => {
            let mut s: String = file.substring_char(0, i).to_owned();
            s.append(".unpack");
            s.append(file.substring_char(i, n));
            s
        },
        None => {
            let mut s: String = file.to_owned();
            s.append(".unpack");
            s
        },
    }
}

/// The output name of a file.
pub open spec fn out_path(p: Platform, input: Seq<char>) -> Seq<Piece> {
    let list = split_of(p, input);
    let file = match file_name_of(list) {
        Some(t) => t,
        None => Seq::empty(),
    };
    let base = match parent_of(list) {
        Some(v) => v,
        None => Seq::empty(),
    };
    joined(base, split_of(p, renamed(file)))
}

/// The output name of a file: `.unpack` is put into its name alone, its
/// directories stay.
pub fn out_name(p: Platform, input: &str) -> (r: String)
    ensures
        r@ == text_of(p, out_path(p, input@)),
{
    let file: String = match file_name(p, input) {
        Some(t) => t,
        None => {
            let t: String = String::new();
            assert(t@ =~= Seq::<char>::empty());
            t
        },
    };
    let mut list: Vec<Part> = split(p, input);
    if !pop_last(&mut list) {
        list = Vec::new();
        assert(pieces(list@) =~= Seq::<Piece>::empty());
    }
    let new: String = renamed_file(file.as_str());
    write(p, &join_parts(list, split(p, new.as_str())))
}

/// Whether two components are the same. Prefixes are if they name the same, with
/// either slash and the letter of a drive in any case.
pub open spec fn same_piece(a: Piece, b: Piece) -> bool {
    match (a, b) {
        (Piece::Prefix(k, x), Piece::Prefix(m, y)) => k == m && prefix_order(k, x, y, 0) == 0,
        _ => a == b,
    }
}

/// Whether a path starts with the components of another.
pub open spec fn starts_with(list: Seq<Piece>, root: Seq<Piece>) -> bool {
    root.len() <= list.len() && forall|i: int|
        0 <= i < root.len() ==> same_piece(#[trigger] list[i], root[i])
}

/// A path relative to a root.
pub open spec fn rel_path(p: Platform, root: Seq<char>, path: Seq<char>) -> Seq<Piece> {
    let list = split_of(p, path);
    let base = split_of(p, root);
    if starts_with(list, base) {
        list.subrange(base.len() as int, list.len() as int)
    } else {
        match file_name_of(list) {
            Some(t) => seq![Piece::Name(t)],
            None => Seq::empty(),
        }
    }
}

fn same_part(a: &Part, b: &Part) -> (r: bool)
    ensures
        r == same_piece(a@, b@),
{
    match (a, b) {
        (Part::Prefix(k, x), Part::Prefix(m, y)) => *k == *m && order_prefixes(
            *k,
            x.as_str(),
            y.as_str(),
        ) == 0,
        (Part::Name(x), Part::Name(y)) => same_text(x.as_str(), y.as_str()),
        (Part::Root, Part::Root) => true,
        (Part::Here, Part::Here) => true,
        (Part::Up, Part::Up) => true,
        _ => false,
    }
}

/// Where a path stands in the tree under `root`: what is left of it behind the
/// root, or its name alone where it does not stand in that tree. It is never
/// rooted where the root is, so that it can be put under an output root.
pub fn rel_in_tree(p: Platform, root: &str, path: &str) -> (r: String)
    ensures
        r@ == text_of(p, rel_path(p, root@, path@)),
{
    let list: Vec<Part> = split(p, path);
    let base: Vec<Part> = split(p, root);
    let mut inside: bool = base.len() <= list.len();
    let mut i: usize = 0;
    while inside && i < base.len()
        invariant
            inside ==> base@.len() <= list@.len(),
            inside ==> i <= base@.len(),
            inside ==> forall|k: int|
                0 <= k < i ==> same_piece(#[trigger] pieces(list@)[k], pieces(base@)[k]),
            !inside ==> !starts_with(pieces(list@), pieces(base@)),
        decreases base@.len() - i + if inside {
            1int
        } else {
            0int
        },
    {
        assert(pieces(list@)[i as int] == list@[i as int]@);
        assert(pieces(base@)[i as int] == base@[i as int]@);
        if same_part(&list[i], &base[i]) {
            i = i + 1;
        } else {
            inside = false;
        }
    }
    if inside {
        let rest: &[Part] = vstd::slice::slice_subrange(
            list.as_slice(),
            base.len(),
            list.len(),
        );
        assert(pieces(rest@) =~= pieces(list@).subrange(
            base@.len() as int,
            list@.len() as int,
        ));
        return write(p, rest);
    }
    let mut out: Vec<Part> = Vec::new();
    assert(pieces(out@) =~= Seq::<Piece>::empty());
    match file_name(p, path) {
        Some(t) => {
            out = named(t.as_str());
        },
        None => {},
    }
    write(p, &out)
}

/// Whether a component steps or names, and so can follow another.
pub open spec fn goes_on(r: Rules, x: Piece) -> bool {
    x is Up || x is Name || (r is Exact && x is Here)
}

/// Behind the components that were read before, what is read steps or names.
pub proof fn body_goes_on(r: Rules, s: Seq<char>, i: int, acc: Seq<Piece>)
    requires
        0 <= i,
    ensures
        ({
            let v = body_from(r, s, i, acc);
            &&& acc.len() <= v.len()
            &&& forall|k: int| 0 <= k < acc.len() ==> #[trigger] v[k] == acc[k]
            &&& forall|k: int| acc.len() <= k < v.len() ==> goes_on(r, #[trigger] v[k])
        }),
    decreases s.len() + 1 - i,
{
    if i < s.len() {
        sep_bounds(r, s, i);
        let e = sep_from(r, s, i);
        let more = acc + piece_of(r, s.subrange(i, e));
        body_goes_on(r, s, e + 1, more);
        let v = body_from(r, s, e + 1, more);
        assert forall|k: int| acc.len() <= k < v.len() implies goes_on(r, #[trigger] v[k]) by {
            if k < more.len() {
                assert(v[k] == more[k]);
            }
        }
        assert forall|k: int| 0 <= k < acc.len() implies #[trigger] v[k] == acc[k] by {
            assert(v[k] == more[k]);
        }
    }
}

/// The start of what a path is read as.
pub proof fn head_is_read(p: Platform, s: Seq<char>)
    ensures
        ({
            let head = head_of(p, s);
            let list = split_of(p, s);
            &&& head.len() <= list.len()
            &&& forall|k: int| 0 <= k < head.len() ==> #[trigger] list[k] == head[k]
            &&& forall|k: int| head.len() <= k < list.len() ==> goes_on(
                rules_of(p, s),
                #[trigger] list[k],
            )
        }),
{
    prefix_bounds(p, s);
    body_goes_on(rules_of(p, s), s, body_start(p, s), head_of(p, s));
}

/// Whether a path has a root, written or implied by its prefix.
pub open spec fn has_root(p: Platform, s: Seq<char>) -> bool {
    rooted(p, s) || (prefix_of(p, s) matches Some((k, n)) && k.implies_root())
}

/// What is left of a path behind a root that has a root itself, or of a path that has
/// neither root nor prefix, has neither.
pub proof fn relative_path_stays_relative(p: Platform, root: Seq<char>, path: Seq<char>, i: int)
    requires
        has_root(p, root) || (!has_root(p, path) && prefix_of(p, path) is None),
        0 <= i < rel_path(p, root, path).len(),
    ensures
        !(rel_path(p, root, path)[i] is Root),
        !(rel_path(p, root, path)[i] is Prefix),
{
    let list = split_of(p, path);
    let base = split_of(p, root);
    head_is_read(p, path);
    head_is_read(p, root);
    if starts_with(list, base) {
        let head = head_of(p, path);
        if has_root(p, root) {
            let j = head_of(p, root).len() - 1;
            assert(base[j] is Root);
            assert(same_piece(list[j], base[j]));
            assert(list[j] is Root);
            if j < head.len() {
                assert(list[j] == head[j]);
                assert(j == head.len() - 1);
            }
            assert(base.len() >= head.len());
        }
        let k = base.len() + i;
        assert(rel_path(p, root, path)[i] == list[k]);
        if k < head.len() {
            assert(list[k] == head[k]);
        } else {
            assert(goes_on(rules_of(p, path), list[k]));
        }
    }
}

/// Where the last dot stands.
pub proof fn dot_bounds(s: Seq<char>, n: int)
    requires
        0 <= n <= s.len(),
    ensures
        last_dot(s, n) matches Some(i) ==> 0 <= i < n && s[i] == '.' && forall|k: int|
            i < k < n ==> s[k] != '.',
    decreases n,
{
    if n > 0 && s[n - 1] != '.' {
        dot_bounds(s, n - 1);
    }
}

/// A dot behind which none follows is the last.
pub proof fn dot_is_last(s: Seq<char>, n: int, i: int)
    requires
        0 <= i < n <= s.len(),
        s[i] == '.',
        forall|k: int| i < k < n ==> s[k] != '.',
    ensures
        last_dot(s, n) == Some(i),
    decreases n,
{
    if i < n - 1 {
        dot_is_last(s, n - 1, i);
    }
}

} // verus!
