//! What a Windows path may start with: a drive, a share, a device, or the verbatim
//! form of one.

use vstd::prelude::*;

use crate::io::paths::{is_letter, lower, Platform};

verus! {

/// A kind of prefix.
#[derive(Debug, Clone, Copy, PartialEq, Eq, Structural)]
pub enum Prefix {
    /// `\\?\name`.
    Verbatim,
    /// `\\?\UNC\server\share`.
    VerbatimShare,
    /// `\\?\C:`.
    VerbatimDrive,
    /// `\\.\name`.
    Device,
    /// `\\server\share`.
    Share,
    /// `C:`.
    Drive,
}

impl Prefix {
    /// Whether what follows is taken as it stands: only a backslash separates, and a
    /// dot is a component.
    pub open spec fn verbatim(self) -> bool {
        self is Verbatim || self is VerbatimShare || self is VerbatimDrive
    }

    /// Whether a root follows even where none is written.
    pub open spec fn implies_root(self) -> bool {
        self is Device || self is Share
    }

    /// Whether what follows is taken as it stands.
    pub fn is_verbatim(self) -> (r: bool)
        ensures
            r == self.verbatim(),
    {
        match self {
            Prefix::Verbatim | Prefix::VerbatimShare | Prefix::VerbatimDrive => true,
            _ => false,
        }
    }

    /// Whether a root follows even where none is written.
    pub fn has_implied_root(self) -> (r: bool)
        ensures
            r == self.implies_root(),
    {
        match self {
            Prefix::Device | Prefix::Share => true,
            _ => false,
        }
    }
}

/// Either slash.
pub open spec fn is_slash(c: char) -> bool {
    c == '/' || c == '\\'
}

/// The first separator from `i` on, or the end; a backslash alone separates where
/// `exact`.
pub open spec fn slash_from(s: Seq<char>, i: int, exact: bool) -> int
    decreases s.len() - i,
{
    if i >= s.len() || s[i] == '\\' || (!exact && s[i] == '/') {
        i
    } else {
        slash_from(s, i + 1, exact)
    }
}

/// Whether a drive stands at `i`.
pub open spec fn drive_at(s: Seq<char>, i: int) -> bool {
    i + 2 <= s.len() && is_letter(s[i]) && s[i + 1] == ':'
}

/// Whether a path starts verbatim.
pub open spec fn verbatim_at(s: Seq<char>) -> bool {
    s.len() >= 4 && s[0] == '\\' && s[1] == '\\' && s[2] == '?' && s[3] == '\\'
}

/// Whether a verbatim path goes on like a share.
pub open spec fn share_at(s: Seq<char>) -> bool {
    s.len() >= 8 && s[4] == 'U' && s[5] == 'N' && s[6] == 'C' && is_slash(s[7])
}

/// The kind and the length of the prefix of a verbatim path.
pub open spec fn verbatim_prefix(s: Seq<char>) -> (Prefix, int) {
    if share_at(s) {
        let a = slash_from(s, 8, true);
        let b = slash_from(s, a + 1, true);
        (
            Prefix::VerbatimShare,
            if a + 1 < b {
                b
            } else {
                a
            },
        )
    } else if drive_at(s, 4) && (s.len() == 6 || is_slash(s[6])) {
        (Prefix::VerbatimDrive, 6)
    } else {
        (Prefix::Verbatim, slash_from(s, 4, true))
    }
}

/// The kind and the length of the prefix of a path, if it has one.
pub open spec fn prefix_of(p: Platform, s: Seq<char>) -> Option<(Prefix, int)> {
    if p is Unix {
        None
    } else if s.len() >= 2 && is_slash(s[0]) && is_slash(s[1]) {
        if verbatim_at(s) {
            Some(verbatim_prefix(s))
        } else if s.len() >= 4 && s[2] == '.' && is_slash(s[3]) {
            Some((Prefix::Device, slash_from(s, 4, false)))
        } else {
            let a = slash_from(s, 2, false);
            let b = slash_from(s, a + 1, false);
            if 2 < a && a + 1 < b {
                Some((Prefix::Share, b))
            } else {
                None
            }
        }
    } else if drive_at(s, 0) {
        Some((Prefix::Drive, 2))
    } else {
        None
    }
}

/// Where the first separator from `i` on stands.
pub proof fn slash_bounds(s: Seq<char>, i: int, exact: bool)
    requires
        0 <= i,
    ensures
        ({
            let e = slash_from(s, i, exact);
            &&& i <= e
            &&& i <= s.len() ==> e <= s.len()
            &&& i > s.len() ==> e == i
            &&& forall|k: int| i <= k < e ==> #[trigger] s[k] != '\\' && (exact || s[k] != '/')
            &&& e < s.len() ==> s[e] == '\\' || (!exact && s[e] == '/')
        }),
    decreases s.len() - i,
{
    if i < s.len() && !(s[i] == '\\' || (!exact && s[i] == '/')) {
        slash_bounds(s, i + 1, exact);
    }
}

/// A separator that stands at `e`, with none before it, is the first.
pub proof fn slash_is_at(s: Seq<char>, i: int, exact: bool, e: int)
    requires
        0 <= i <= e <= s.len(),
        forall|k: int| i <= k < e ==> #[trigger] s[k] != '\\' && (exact || s[k] != '/'),
        e == s.len() || s[e] == '\\' || (!exact && s[e] == '/'),
    ensures
        slash_from(s, i, exact) == e,
    decreases e - i,
{
    if i < e {
        slash_is_at(s, i + 1, exact, e);
    }
}

/// A prefix lies inside its path and is not empty.
pub proof fn prefix_bounds(p: Platform, s: Seq<char>)
    ensures
        prefix_of(p, s) matches Some((k, n)) ==> 2 <= n <= s.len(),
{
    slash_bounds(s, 2, false);
    slash_bounds(s, slash_from(s, 2, false) + 1, false);
    slash_bounds(s, 4, false);
    slash_bounds(s, 4, true);
    slash_bounds(s, 8, true);
    slash_bounds(s, slash_from(s, 8, true) + 1, true);
}

/// Whether `t` is a prefix that other components can follow: a verbatim share names
/// its share, and nothing that follows is read into the prefix.
pub open spec fn whole_prefix(p: Platform, k: Prefix, t: Seq<char>) -> bool {
    &&& prefix_of(p, t) == Some((k, t.len() as int))
    &&& k is VerbatimShare ==> slash_from(t, 8, true) < t.len()
    &&& k is Verbatim ==> !share_at(t.push('\\'))
}

/// A prefix is read the same whatever follows it.
pub proof fn prefix_extends(p: Platform, k: Prefix, t: Seq<char>, s: Seq<char>)
    requires
        whole_prefix(p, k, t),
        t.len() < s.len(),
        forall|i: int| 0 <= i < t.len() ==> #[trigger] s[i] == t[i],
        k is Drive || s[t.len() as int] == '\\',
    ensures
        prefix_of(p, s) == Some((k, t.len() as int)),
{
    let n = t.len() as int;
    prefix_bounds(p, t);
    assert(s[0] == t[0] && s[1] == t[1]);
    match k {
        Prefix::Drive => {},
        Prefix::Device => {
            assert(s[2] == t[2] && s[3] == t[3]);
            slash_bounds(t, 4, false);
            slash_is_at(s, 4, false, n);
        },
        Prefix::Share => {
            let a = slash_from(t, 2, false);
            slash_bounds(t, 2, false);
            slash_bounds(t, a + 1, false);
            assert(s[2] == t[2] && s[3] == t[3]);
            slash_is_at(s, 2, false, a);
            slash_is_at(s, a + 1, false, n);
        },
        Prefix::VerbatimDrive => {
            assert(s[2] == t[2] && s[3] == t[3] && s[4] == t[4] && s[5] == t[5]);
        },
        Prefix::Verbatim => {
            slash_bounds(t, 4, true);
            assert(s[2] == t[2] && s[3] == t[3]);
            slash_is_at(s, 4, true, n);
            let u = t.push('\\');
            assert forall|i: int| 0 <= i <= n implies #[trigger] s[i] == u[i] by {}
            assert(!share_at(s)) by {
                if share_at(s) {
                    if n < 7 {
                        assert(s[n] == '\\');
                    }
                    assert(s[4] == u[4] && s[5] == u[5] && s[6] == u[6] && s[7] == u[7]);
                }
            }
            if drive_at(s, 4) && is_slash(s[6]) {
                if n <= 5 {
                    assert(s[n] == '\\');
                }
                assert(t[4] == s[4] && t[5] == s[5]);
                if n > 6 {
                    assert(t[6] == s[6]);
                }
            }
        },
        Prefix::VerbatimShare => {
            let a = slash_from(t, 8, true);
            slash_bounds(t, 8, true);
            slash_bounds(t, a + 1, true);
            assert(s[2] == t[2] && s[3] == t[3] && s[4] == t[4] && s[5] == t[5]);
            assert(s[6] == t[6] && s[7] == t[7]);
            slash_is_at(s, 8, true, a);
            slash_is_at(s, a + 1, true, n);
        },
    }
}

/// A prefix is read as itself, and stands alone or in front of a separator, except
/// for a drive.
pub proof fn prefix_stands_alone(p: Platform, s: Seq<char>)
    ensures
        prefix_of(p, s) matches Some((k, n)) ==> {
            &&& prefix_of(p, s.subrange(0, n)) == Some((k, n))
            &&& k is Drive || n == s.len() || is_slash(s[n])
            &&& k is Verbatim && n < s.len() ==> !share_at(s.subrange(0, n).push('\\'))
        },
{
    prefix_bounds(p, s);
    match prefix_of(p, s) {
        None => {},
        Some((k, n)) => {
            let t = s.subrange(0, n);
            assert forall|i: int| 0 <= i < n implies #[trigger] t[i] == s[i] by {}
            assert(t[0] == s[0] && t[1] == s[1]);
            match k {
                Prefix::Drive => {},
                Prefix::Device => {
                    slash_bounds(s, 4, false);
                    assert(s[2] == t[2] && s[3] == t[3]);
                    slash_is_at(t, 4, false, n);
                },
                Prefix::Share => {
                    let a = slash_from(s, 2, false);
                    slash_bounds(s, 2, false);
                    slash_bounds(s, a + 1, false);
                    assert(s[2] == t[2] && s[3] == t[3]);
                    slash_is_at(t, 2, false, a);
                    slash_is_at(t, a + 1, false, n);
                },
                Prefix::VerbatimDrive => {
                    assert(s[2] == t[2] && s[3] == t[3] && s[4] == t[4] && s[5] == t[5]);
                },
                Prefix::Verbatim => {
                    slash_bounds(s, 4, true);
                    assert(s[2] == t[2] && s[3] == t[3]);
                    slash_is_at(t, 4, true, n);
                    if share_at(t) {
                        assert(s[4] == t[4] && s[5] == t[5] && s[6] == t[6] && s[7] == t[7]);
                    }
                    if drive_at(t, 4) {
                        assert(s[4] == t[4] && s[5] == t[5]);
                        if n > 6 {
                            assert(s[6] == t[6]);
                        }
                    }
                    let u = t.push('\\');
                    if n < s.len() && share_at(u) {
                        assert(s[n] == '\\');
                        assert(s[4] == u[4] && s[5] == u[5] && s[6] == u[6] && s[7] == u[7]);
                    }
                },
                Prefix::VerbatimShare => {
                    let a = slash_from(s, 8, true);
                    slash_bounds(s, 8, true);
                    slash_bounds(s, a + 1, true);
                    assert(s[2] == t[2] && s[3] == t[3] && s[4] == t[4] && s[5] == t[5]);
                    assert(s[6] == t[6] && s[7] == t[7]);
                    slash_is_at(t, 8, true, a);
                    if a + 1 < slash_from(s, a + 1, true) {
                        slash_is_at(t, a + 1, true, n);
                    } else {
                        slash_bounds(t, a + 1, true);
                    }
                },
            }
        },
    }
}

fn slash(c: char) -> (r: bool)
    ensures
        r == is_slash(c),
{
    c == '/' || c == '\\'
}

fn find_slash(s: &str, from: usize, n: usize, exact: bool) -> (r: usize)
    requires
        n == s@.len(),
        from <= n,
    ensures
        r == slash_from(s@, from as int, exact),
        from <= r <= n,
{
    let mut i: usize = from;
    while i < n
        invariant
            from <= i <= n,
            n == s@.len(),
            slash_from(s@, i as int, exact) == slash_from(s@, from as int, exact),
        decreases n - i,
    {
        let c: char = s.get_char(i);
        if c == '\\' || (!exact && c == '/') {
            return i;
        }
        i = i + 1;
    }
    i
}

fn is_drive_at(s: &str, i: usize, n: usize) -> (r: bool)
    requires
        n == s@.len(),
        i <= 4,
    ensures
        r == drive_at(s@, i as int),
{
    if n < i + 2 {
        return false;
    }
    let c: char = s.get_char(i);
    (('a' <= c && c <= 'z') || ('A' <= c && c <= 'Z')) && s.get_char(i + 1) == ':'
}

fn find_verbatim(s: &str, n: usize) -> (r: (Prefix, usize))
    requires
        n == s@.len(),
        verbatim_at(s@),
    ensures
        r.0 == verbatim_prefix(s@).0,
        r.1 == verbatim_prefix(s@).1,
{
    if n >= 8 && s.get_char(4) == 'U' && s.get_char(5) == 'N' && s.get_char(6) == 'C' && slash(
        s.get_char(7),
    ) {
        let a: usize = find_slash(s, 8, n, true);
        if a == n {
            return (Prefix::VerbatimShare, a);
        }
        let b: usize = find_slash(s, a + 1, n, true);
        return (
            Prefix::VerbatimShare,
            if a + 1 < b {
                b
            } else {
                a
            },
        );
    }
    if is_drive_at(s, 4, n) && (n == 6 || slash(s.get_char(6))) {
        return (Prefix::VerbatimDrive, 6);
    }
    (Prefix::Verbatim, find_slash(s, 4, n, true))
}

/// Find the prefix of a path.
pub fn find_prefix(p: Platform, s: &str) -> (r: Option<(Prefix, usize)>)
    ensures
        match prefix_of(p, s@) {
            Some((k, n)) => r matches Some((a, b)) && a == k && b == n && 2 <= n <= s@.len(),
            None => r is None,
        },
{
    proof {
        prefix_bounds(p, s@);
    }
    let n: usize = s.unicode_len();
    match p {
        Platform::Unix => {
            return None;
        },
        Platform::Windows => {},
    }
    if n >= 2 && slash(s.get_char(0)) && slash(s.get_char(1)) {
        if n >= 4 && s.get_char(0) == '\\' && s.get_char(1) == '\\' && s.get_char(2) == '?'
            && s.get_char(3) == '\\' {
            return Some(find_verbatim(s, n));
        }
        if n >= 4 && s.get_char(2) == '.' && slash(s.get_char(3)) {
            return Some((Prefix::Device, find_slash(s, 4, n, false)));
        }
        let a: usize = find_slash(s, 2, n, false);
        if a == 2 || a == n {
            return None;
        }
        let b: usize = find_slash(s, a + 1, n, false);
        if a + 1 < b {
            return Some((Prefix::Share, b));
        }
        return None;
    }
    if is_drive_at(s, 0, n) {
        return Some((Prefix::Drive, 2));
    }
    None
}

/// What a character of a prefix counts as: slashes as one separator before all other
/// characters, and the letter of a drive in any case.
pub open spec fn prefix_char(k: Prefix, s: Seq<char>, i: int) -> int {
    let c = s[i];
    match k {
        Prefix::Drive | Prefix::VerbatimDrive => lower(c),
        Prefix::Device | Prefix::Share => if is_slash(c) {
            -1
        } else {
            c as int
        },
        Prefix::VerbatimShare => if c == '\\' || (i == 7 && c == '/') {
            -1
        } else {
            c as int
        },
        Prefix::Verbatim => if c == '\\' {
            -1
        } else {
            c as int
        },
    }
}

/// How two prefixes of a kind stand from character `i` on: negative where the first
/// comes first, positive where the second does.
pub open spec fn prefix_order(k: Prefix, a: Seq<char>, b: Seq<char>, i: int) -> int
    decreases a.len() - i,
{
    if i >= a.len() && i >= b.len() {
        0
    } else if i >= a.len() {
        -1
    } else if i >= b.len() {
        1
    } else if prefix_char(k, a, i) != prefix_char(k, b, i) {
        if prefix_char(k, a, i) < prefix_char(k, b, i) {
            -1
        } else {
            1
        }
    } else {
        prefix_order(k, a, b, i + 1)
    }
}

fn char_of_prefix(k: Prefix, s: &str, i: usize) -> (r: i64)
    requires
        i < s@.len(),
    ensures
        r == prefix_char(k, s@, i as int),
{
    let c: char = s.get_char(i);
    match k {
        Prefix::Drive | Prefix::VerbatimDrive => if 'A' <= c && c <= 'Z' {
            c as i64 + 32
        } else {
            c as i64
        },
        Prefix::Device | Prefix::Share => if c == '/' || c == '\\' {
            -1
        } else {
            c as i64
        },
        Prefix::VerbatimShare => if c == '\\' || (i == 7 && c == '/') {
            -1
        } else {
            c as i64
        },
        Prefix::Verbatim => if c == '\\' {
            -1
        } else {
            c as i64
        },
    }
}

/// How two prefixes of a kind stand.
pub fn order_prefixes(k: Prefix, a: &str, b: &str) -> (r: i8)
    ensures
        r == prefix_order(k, a@, b@, 0),
{
    let m: usize = a.unicode_len();
    let n: usize = b.unicode_len();
    let mut i: usize = 0;
    while i < m && i < n
        invariant
            i <= m == a@.len(),
            i <= n == b@.len(),
            prefix_order(k, a@, b@, 0) == prefix_order(k, a@, b@, i as int),
        decreases m - i,
    {
        let x: i64 = char_of_prefix(k, a, i);
        let y: i64 = char_of_prefix(k, b, i);
        if x != y {
            if x < y {
                return -1;
            }
            return 1;
        }
        i = i + 1;
    }
    if m < n {
        -1
    } else if m > n {
        1
    } else {
        0
    }
}

/// A prefix stands like itself, and a chain of prefixes is one.
pub proof fn prefix_order_chains(k: Prefix, a: Seq<char>, b: Seq<char>, c: Seq<char>, i: int)
    requires
        0 <= i,
    ensures
        ({
            let x = prefix_order(k, a, b, i);
            let y = prefix_order(k, b, c, i);
            let z = prefix_order(k, a, c, i);
            x <= 0 && y <= 0 ==> z <= 0 && (z == 0 <==> x == 0 && y == 0)
        }),
        prefix_order(k, a, b, i) == -prefix_order(k, b, a, i),
    decreases a.len() + b.len() + c.len() - i,
{
    if i < a.len() || i < b.len() || i < c.len() {
        prefix_order_chains(k, a, b, c, i + 1);
    }
}

/// A prefix stands like itself.
pub proof fn prefix_is_itself(k: Prefix, a: Seq<char>, i: int)
    ensures
        prefix_order(k, a, a, i) == 0,
    decreases a.len() - i,
{
    if i < a.len() {
        prefix_is_itself(k, a, i + 1);
    }
}

} // verus!
