//! The order in which the targets of a folder are worked on.

use vstd::prelude::*;

use crate::android::folder::{targets_view, Target, TargetInfo};
use crate::io::paths::{pieces, split, split_of, Part, Piece, Platform};
use crate::io::prefix::{order_prefixes, prefix_order, prefix_order_chains, Prefix};

verus! {

/// How two texts stand from character `i` on, by character codes: negative where the
/// first comes first, positive where the second does.
pub open spec fn text_order(a: Seq<char>, b: Seq<char>, i: int) -> int
    decreases a.len() - i,
{
    if i >= a.len() && i >= b.len() {
        0
    } else if i >= a.len() {
        -1
    } else if i >= b.len() {
        1
    } else if a[i] != b[i] {
        if a[i] < b[i] {
            -1
        } else {
            1
        }
    } else {
        text_order(a, b, i + 1)
    }
}

/// Where a kind of component stands among the kinds.
pub open spec fn rank(x: Piece) -> int {
    match x {
        Piece::Prefix(_, _) => 0,
        Piece::Root => 1,
        Piece::Here => 2,
        Piece::Up => 3,
        Piece::Name(_) => 4,
    }
}

/// How two numbers stand.
pub open spec fn sign(a: int, b: int) -> int {
    if a < b {
        -1
    } else if a > b {
        1
    } else {
        0
    }
}

/// Where a kind of prefix stands among the kinds.
pub open spec fn prefix_rank(k: Prefix) -> int {
    match k {
        Prefix::Verbatim => 0,
        Prefix::VerbatimShare => 1,
        Prefix::VerbatimDrive => 2,
        Prefix::Device => 3,
        Prefix::Share => 4,
        Prefix::Drive => 5,
    }
}

/// How two components stand: by their kinds, prefixes by what they name, and names as
/// texts.
pub open spec fn piece_order(a: Piece, b: Piece) -> int {
    match (a, b) {
        (Piece::Prefix(k, x), Piece::Prefix(m, y)) => if k == m {
            prefix_order(k, x, y, 0)
        } else {
            sign(prefix_rank(k), prefix_rank(m))
        },
        (Piece::Name(x), Piece::Name(y)) => text_order(x, y, 0),
        _ => sign(rank(a), rank(b)),
    }
}

/// How two paths stand from component `i` on.
pub open spec fn path_order(a: Seq<Piece>, b: Seq<Piece>, i: int) -> int
    decreases a.len() - i,
{
    if i >= a.len() && i >= b.len() {
        0
    } else if i >= a.len() {
        -1
    } else if i >= b.len() {
        1
    } else if piece_order(a[i], b[i]) != 0 {
        piece_order(a[i], b[i])
    } else {
        path_order(a, b, i + 1)
    }
}

/// Whether the destination of a target comes after that of another.
pub open spec fn comes_after(p: Platform, a: TargetInfo, b: TargetInfo) -> bool {
    path_order(split_of(p, a.destination), split_of(p, b.destination), 0) > 0
}

proof fn text_order_chains(a: Seq<char>, b: Seq<char>, c: Seq<char>, i: int)
    requires
        0 <= i,
    ensures
        ({
            let x = text_order(a, b, i);
            let y = text_order(b, c, i);
            let z = text_order(a, c, i);
            x <= 0 && y <= 0 ==> z <= 0 && (z == 0 <==> x == 0 && y == 0)
        }),
        text_order(a, b, i) == -text_order(b, a, i),
    decreases a.len() + b.len() + c.len() - i,
{
    if i < a.len() || i < b.len() || i < c.len() {
        text_order_chains(a, b, c, i + 1);
    }
}

proof fn piece_order_chains(a: Piece, b: Piece, c: Piece)
    ensures
        ({
            let x = piece_order(a, b);
            let y = piece_order(b, c);
            let z = piece_order(a, c);
            x <= 0 && y <= 0 ==> z <= 0 && (z == 0 <==> x == 0 && y == 0)
        }),
        piece_order(a, b) == -piece_order(b, a),
{
    match (a, b) {
        (Piece::Name(s), Piece::Name(t)) => {
            text_order_chains(s, t, t, 0);
            match c {
                Piece::Name(u) => text_order_chains(s, t, u, 0),
                _ => {},
            }
        },
        (Piece::Prefix(k, s), Piece::Prefix(_, t)) => {
            prefix_order_chains(k, s, t, t, 0);
            match c {
                Piece::Prefix(_, u) => prefix_order_chains(k, s, t, u, 0),
                _ => {},
            }
        },
        _ => {},
    }
}

proof fn path_order_chains(a: Seq<Piece>, b: Seq<Piece>, c: Seq<Piece>, i: int)
    requires
        0 <= i,
    ensures
        ({
            let x = path_order(a, b, i);
            let y = path_order(b, c, i);
            let z = path_order(a, c, i);
            x <= 0 && y <= 0 ==> z <= 0 && (z == 0 <==> x == 0 && y == 0)
        }),
        path_order(a, b, i) == -path_order(b, a, i),
    decreases a.len() + b.len() + c.len() - i,
{
    if i < a.len() || i < b.len() || i < c.len() {
        path_order_chains(a, b, c, i + 1);
    }
    if i < a.len() && i < b.len() {
        piece_order_chains(a[i], b[i], b[i]);
        if i < c.len() {
            piece_order_chains(a[i], b[i], c[i]);
        }
    }
}

/// How two texts stand.
fn order_texts(a: &str, b: &str) -> (r: i8)
    ensures
        r == text_order(a@, b@, 0),
{
    let m: usize = a.unicode_len();
    let n: usize = b.unicode_len();
    let mut i: usize = 0;
    while i < m && i < n
        invariant
            i <= m == a@.len(),
            i <= n == b@.len(),
            text_order(a@, b@, 0) == text_order(a@, b@, i as int),
        decreases m - i,
    {
        let x: char = a.get_char(i);
        let y: char = b.get_char(i);
        if x != y {
            if x < y {
                return -1;
            }
            return 1;
        }
        i = i + 1;
    }
    if m < n {
        -1
    } else if m > n {
        1
    } else {
        0
    }
}

fn rank_of(x: &Part) -> (r: i8)
    ensures
        r == rank(x@),
{
    match x {
        Part::Prefix(_, _) => 0,
        Part::Root => 1,
        Part::Here => 2,
        Part::Up => 3,
        Part::Name(_) => 4,
    }
}

fn prefix_rank_of(k: Prefix) -> (r: i8)
    ensures
        r == prefix_rank(k),
{
    match k {
        Prefix::Verbatim => 0,
        Prefix::VerbatimShare => 1,
        Prefix::VerbatimDrive => 2,
        Prefix::Device => 3,
        Prefix::Share => 4,
        Prefix::Drive => 5,
    }
}

/// How two components stand.
fn order_parts(a: &Part, b: &Part) -> (r: i8)
    ensures
        r == piece_order(a@, b@),
{
    match (a, b) {
        (Part::Prefix(k, x), Part::Prefix(l, y)) => {
            if *k == *l {
                return order_prefixes(*k, x.as_str(), y.as_str());
            }
            let m: i8 = prefix_rank_of(*k);
            let n: i8 = prefix_rank_of(*l);
            if m < n {
                -1
            } else if m > n {
                1
            } else {
                0
            }
        },
        (Part::Name(x), Part::Name(y)) => order_texts(x.as_str(), y.as_str()),
        _ => {
            let m: i8 = rank_of(a);
            let n: i8 = rank_of(b);
            if m < n {
                -1
            } else if m > n {
                1
            } else {
                0
            }
        },
    }
}

/// How two paths stand.
fn order_paths(p: Platform, a: &str, b: &str) -> (r: i8)
    ensures
        r == path_order(split_of(p, a@), split_of(p, b@), 0),
{
    let x: Vec<Part> = split(p, a);
    let y: Vec<Part> = split(p, b);
    let m: usize = x.len();
    let n: usize = y.len();
    let ghost left = pieces(x@);
    let ghost right = pieces(y@);
    let mut i: usize = 0;
    while i < m && i < n
        invariant
            i <= m == x@.len(),
            i <= n == y@.len(),
            left == pieces(x@),
            right == pieces(y@),
            left == split_of(p, a@),
            right == split_of(p, b@),
            path_order(left, right, 0) == path_order(left, right, i as int),
        decreases m - i,
    {
        assert(left[i as int] == x@[i as int]@);
        assert(right[i as int] == y@[i as int]@);
        let o: i8 = order_parts(&x[i], &y[i]);
        if o != 0 {
            return o;
        }
        i = i + 1;
    }
    if m < n {
        -1
    } else if m > n {
        1
    } else {
        0
    }
}

/// The first place from `k` on whose destination comes after that of `x`.
pub open spec fn place_from(p: Platform, list: Seq<TargetInfo>, x: TargetInfo, k: int) -> int
    decreases list.len() - k,
{
    if k >= list.len() || comes_after(p, list[k], x) {
        k
    } else {
        place_from(p, list, x, k + 1)
    }
}

/// The first `n` targets by their destinations; those with the same one as they
/// came.
pub open spec fn arranged(p: Platform, input: Seq<TargetInfo>, n: int) -> Seq<TargetInfo>
    decreases n,
{
    if n <= 0 {
        Seq::empty()
    } else {
        let list = arranged(p, input, n - 1);
        list.insert(place_from(p, list, input[n - 1], 0), input[n - 1])
    }
}

/// The targets in the order of their destinations.
pub fn arrange_targets(p: Platform, targets: &[Target]) -> (r: Vec<Target>)
    ensures
        targets_view(r@) == arranged(p, targets_view(targets@), targets@.len() as int),
{
    let ghost input = targets_view(targets@);
    let mut out: Vec<Target> = Vec::new();
    assert(targets_view(out@) =~= Seq::<TargetInfo>::empty());
    let mut n: usize = 0;
    while n < targets.len()
        invariant
            n <= targets@.len(),
            input == targets_view(targets@),
            targets_view(out@) == arranged(p, input, n as int),
        decreases targets@.len() - n,
    {
        let x: &Target = &targets[n];
        assert(input[n as int] == x@);
        let ghost list = targets_view(out@);
        let mut k: usize = 0;
        while k < out.len() && order_paths(
            p,
            out[k].destination.as_str(),
            x.destination.as_str(),
        ) <= 0
            invariant
                k <= out@.len(),
                list == targets_view(out@),
                place_from(p, list, x@, 0) == place_from(p, list, x@, k as int),
            decreases out@.len() - k,
        {
            assert(list[k as int] == out@[k as int]@);
            k = k + 1;
        }
        if k < out.len() {
            assert(list[k as int] == out@[k as int]@);
        }
        out.insert(k, x.clone());
        assert(targets_view(out@) =~= list.insert(k as int, x@));
        n = n + 1;
    }
    out
}

/// Whether a target before `i` has the destination of target `i`.
pub open spec fn is_taken(p: Platform, list: Seq<TargetInfo>, i: int) -> bool {
    exists|j: int|
        0 <= j < i && path_order(
            split_of(p, (#[trigger] list[j]).destination),
            split_of(p, list[i].destination),
            0,
        ) == 0
}

/// Whether a target before `i` is written to the same place as target `i`.
pub fn destination_is_taken(p: Platform, targets: &[Target], i: usize) -> (r: bool)
    requires
        i < targets@.len(),
    ensures
        r == is_taken(p, targets_view(targets@), i as int),
{
    let ghost list = targets_view(targets@);
    let mut j: usize = 0;
    while j < i
        invariant
            j <= i < targets@.len(),
            list == targets_view(targets@),
            forall|k: int|
                0 <= k < j ==> path_order(
                    split_of(p, (#[trigger] list[k]).destination),
                    split_of(p, list[i as int].destination),
                    0,
                ) != 0,
        decreases i - j,
    {
        assert(list[j as int] == targets@[j as int]@);
        assert(list[i as int] == targets@[i as int]@);
        if order_paths(p, targets[j].destination.as_str(), targets[i].destination.as_str()) == 0 {
            return true;
        }
        j = j + 1;
    }
    false
}

proof fn place_bounds(p: Platform, list: Seq<TargetInfo>, x: TargetInfo, k: int)
    requires
        0 <= k <= list.len(),
    ensures
        k <= place_from(p, list, x, k) <= list.len(),
        forall|j: int|
            k <= j < place_from(p, list, x, k) ==> !comes_after(p, #[trigger] list[j], x),
        place_from(p, list, x, k) < list.len() ==> comes_after(
            p,
            list[place_from(p, list, x, k)],
            x,
        ),
    decreases list.len() - k,
{
    if k < list.len() && !comes_after(p, list[k], x) {
        place_bounds(p, list, x, k + 1);
    }
}

/// Arranged targets stand in the order of their destinations, and they are the
/// targets that there were.
pub proof fn arranged_targets_are_in_order(p: Platform, input: Seq<TargetInfo>, n: int)
    requires
        0 <= n <= input.len(),
    ensures
        forall|i: int, j: int|
            0 <= i < j < arranged(p, input, n).len() ==> !comes_after(
                p,
                #[trigger] arranged(p, input, n)[i],
                #[trigger] arranged(p, input, n)[j],
            ),
        arranged(p, input, n).to_multiset() == input.subrange(0, n).to_multiset(),
    decreases n,
{
    if n == 0 {
        assert(arranged(p, input, 0) =~= input.subrange(0, 0));
    } else {
        let list = arranged(p, input, n - 1);
        let x = input[n - 1];
        let at = place_from(p, list, x, 0);
        let out = arranged(p, input, n);
        arranged_targets_are_in_order(p, input, n - 1);
        place_bounds(p, list, x, 0);
        assert forall|i: int, j: int| 0 <= i < j < out.len() implies !comes_after(
            p,
            #[trigger] out[i],
            #[trigger] out[j],
        ) by {
            let s = if i < at {
                list[i]
            } else if i == at {
                x
            } else {
                list[i - 1]
            };
            let t = if j < at {
                list[j]
            } else if j == at {
                x
            } else {
                list[j - 1]
            };
            assert(out[i] == s && out[j] == t);
            if i == at {
                let first = list[at];
                assert(comes_after(p, first, x));
                if j - 1 > at {
                    assert(!comes_after(p, list[at], list[j - 1]));
                }
                path_order_chains(
                    split_of(p, x.destination),
                    split_of(p, first.destination),
                    split_of(p, t.destination),
                    0,
                );
                path_order_chains(
                    split_of(p, first.destination),
                    split_of(p, t.destination),
                    split_of(p, t.destination),
                    0,
                );
                path_order_chains(
                    split_of(p, t.destination),
                    split_of(p, t.destination),
                    split_of(p, t.destination),
                    0,
                );
            }
        }
        assert(input.subrange(0, n) =~= input.subrange(0, n - 1).push(x));
        input.subrange(0, n - 1).to_multiset_ensures();
        out.to_multiset_ensures();
        assert(out[at] == x);
        assert(out.contains(x));
        assert(out.remove(at) =~= list);
        assert(out.to_multiset() =~= list.to_multiset().insert(x));
    }
}

} // verus!
