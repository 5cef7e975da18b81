//! Discovery of the seeds under which method tokens can have been enciphered.

use vstd::arithmetic::div_mod::lemma_fundamental_div_mod_converse;
use vstd::prelude::*;

use crate::metadata::error::{fails, foreign, malformed_at, numbered, validation_at, Error, Problem};
use crate::metadata::layout::{find_layout, layout_of, read_token, read_types, types_of, Layout};
use crate::metadata::restore::{
    all_below, canonical_count, ends_of, expected, foreign_from, gapless, high_rid, list_types,
    look_at_numbers, low_rid, lowest, numbers, rid_of, rids_between, top_bound, types_listed,
    Numbers, METHOD_TOKEN_TABLE,
};
use crate::metadata::rid::{decrypt_rid_with_key, keyed_rid};

verus! {

/// What the method numbers of one image say of the seed.
#[derive(Debug, Clone, PartialEq, Eq)]
pub struct ImageKeyDiscovery {
    pub image: usize,
    pub method_count: u32,
    pub modulus: u32,
    pub clean: bool,
    pub seed_residues: Vec<u32>,
}

/// What the method numbers of a file say of the seed.
#[derive(Debug, Clone, PartialEq, Eq)]
pub struct SeedDiscoveryReport {
    pub version: u32,
    pub images: Vec<ImageKeyDiscovery>,
    pub seed_candidates: Vec<u32>,
}

/// What an [`ImageKeyDiscovery`] says.
pub struct Finding {
    pub image: int,
    pub method_count: u32,
    pub modulus: u32,
    pub clean: bool,
    pub residues: Seq<u32>,
}

impl View for ImageKeyDiscovery {
    type V = Finding;

    open spec fn view(&self) -> Finding {
        Finding {
            image: self.image as int,
            method_count: self.method_count,
            modulus: self.modulus,
            clean: self.clean,
            residues: self.seed_residues@,
        }
    }
}

/// What a list of discoveries says.
pub open spec fn findings_view(v: Seq<ImageKeyDiscovery>) -> Seq<Finding> {
    Seq::new(v.len(), |i: int| v[i]@)
}

/// Whether `key` takes the number of every method to its place.
pub open spec fn key_fits(s: Seq<u8>, l: Layout, found: Seq<int>, low: u32, high: u32, key: u32) -> bool {
    forall|j: int|
        0 <= j < found.len() ==> keyed_rid(rid_of(s, l, #[trigger] found[j]), low, high, key)
            == expected(found[j], lowest(found, found.len()))
}

/// The residues below `n` whose keys fit.
pub open spec fn residues_below(
    s: Seq<u8>,
    l: Layout,
    found: Seq<int>,
    low: u32,
    high: u32,
    n: nat,
) -> Seq<u32>
    decreases n,
{
    if n == 0 {
        Seq::empty()
    } else {
        let r = residues_below(s, l, found, low, high, (n - 1) as nat);
        let quarter = found.len() / 4;
        if key_fits(s, l, found, low, high, (quarter + n - 1) as u32) {
            r.push((n - 1) as u32)
        } else {
            r
        }
    }
}

/// Why the methods of image `i` say nothing.
pub open spec fn block_problem(s: Seq<u8>, l: Layout, i: int, found: Seq<int>) -> Option<Problem> {
    let who = if l.compact {
        "v39 image "@
    } else {
        "image "@
    };
    if !gapless(found) {
        Some(Problem::Validation(numbered(who, i, " method block is not contiguous"@)))
    } else {
        match foreign_from(s, l, found, 0) {
            Some(Problem::Malformed(t)) => if l.compact {
                Some(Problem::Malformed(t))
            } else {
                Some(Problem::Validation(t))
            },
            Some(p) => Some(p),
            None => None,
        }
    }
}

/// What image `i`, whose methods are `found`, says.
pub open spec fn block_finding(s: Seq<u8>, l: Layout, i: int, found: Seq<int>) -> Result<
    Finding,
    Problem,
> {
    let n = found.len();
    match block_problem(s, l, i, found) {
        Some(p) => Err(p),
        None => if canonical_count(s, l, found, lowest(found, n), n) == n {
            Ok(
                Finding {
                    image: i,
                    method_count: n as u32,
                    modulus: (n / 2) as u32,
                    clean: true,
                    residues: Seq::empty(),
                },
            )
        } else {
            let low = low_rid(s, l, found, n);
            let high = high_rid(s, l, found, n);
            if high - low + 1 != n || n < 2 {
                Err(
                    Problem::Validation(
                        numbered(
                            if l.compact {
                                "v39 image "@
                            } else {
                                "image "@
                            },
                            i,
                            " RID interval is not a permutation"@,
                        ),
                    ),
                )
            } else {
                Ok(
                    Finding {
                        image: i,
                        method_count: n as u32,
                        modulus: (n / 2) as u32,
                        clean: false,
                        residues: residues_below(s, l, found, low, high, n / 2),
                    },
                )
            }
        },
    }
}

/// What image `i` says.
pub open spec fn image_finding(s: Seq<u8>, l: Layout, i: int) -> Result<Finding, Problem> {
    match types_of(s, l, i) {
        Err(p) => Err(p),
        Ok((a, b)) => match types_listed(s, l, a, b, Seq::empty()) {
            Err(p) => Err(p),
            Ok(found) => if found.len() == 0 {
                Ok(
                    Finding {
                        image: i,
                        method_count: 0,
                        modulus: 0,
                        clean: true,
                        residues: Seq::empty(),
                    },
                )
            } else {
                block_finding(s, l, i, found)
            },
        },
    }
}

/// `done` and what the images from `i` on say.
pub open spec fn findings_from(s: Seq<u8>, l: Layout, i: int, done: Seq<Finding>) -> Result<
    Seq<Finding>,
    Problem,
>
    decreases l.image_count - i,
{
    if i >= l.image_count {
        Ok(done)
    } else {
        match image_finding(s, l, i) {
            Err(p) => Err(p),
            Ok(f) => findings_from(s, l, i + 1, done.push(f)),
        }
    }
}

/// Whether a seed agrees with what an image says.
pub open spec fn agrees(f: Finding, seed: u32) -> bool {
    f.clean || (f.modulus != 0 && f.residues.contains((seed % f.modulus) as u32))
}

/// Whether a seed agrees with what every image says.
pub open spec fn compatible(fs: Seq<Finding>, seed: u32) -> bool {
    forall|k: int| 0 <= k < fs.len() ==> agrees(#[trigger] fs[k], seed)
}

/// The greatest modulus of the first `n` enciphered images, or zero.
pub open spec fn top_modulus(fs: Seq<Finding>, n: nat) -> u32
    decreases n,
{
    if n == 0 {
        0
    } else {
        let m = top_modulus(fs, (n - 1) as nat);
        if !fs[n - 1].clean && fs[n - 1].modulus > m {
            fs[n - 1].modulus
        } else {
            m
        }
    }
}

/// Whether the numbers stand in strictly increasing order.
pub open spec fn increasing(v: Seq<u32>) -> bool {
    forall|i: int, j: int| 0 <= i < j < v.len() ==> v[i] < v[j]
}

/// Whether `v` lists the seeds that agree with what the images say: none if no
/// image is enciphered, and none if the largest image of a compact file is too
/// small to tell many apart.
pub open spec fn lists_seeds(fs: Seq<Finding>, compact: bool, v: Seq<u32>) -> bool {
    let m = top_modulus(fs, fs.len());
    if m == 0 || (compact && m < 1024) {
        v.len() == 0
    } else {
        increasing(v) && forall|c: u32| #[trigger] v.contains(c) <==> compatible(fs, c)
    }
}

fn fits_key(
    data: &[u8],
    l: &Layout,
    found: &Vec<usize>,
    base: usize,
    low: u32,
    high: u32,
    key: u32,
) -> (r: bool)
    requires
        l.inside(data@.len() as int),
        all_below(found@, l.method_count as int),
        found@.len() > 0,
        base == lowest(numbers(found@), found@.len()),
        forall|i: int| 0 <= i < found@.len() ==> base <= #[trigger] found@[i],
        low == low_rid(data@, *l, numbers(found@), found@.len()),
        high == high_rid(data@, *l, numbers(found@), found@.len()),
        low <= high <= 0x00FF_FFFF,
        key <= high - low,
    ensures
        r == key_fits(data@, *l, numbers(found@), low, high, key),
{
    let n: usize = found.len();
    let ghost list = numbers(found@);
    proof {
        rids_between(data@, *l, list, n as nat);
    }
    let mut j: usize = 0;
    while j < n
        invariant
            j <= n == found@.len(),
            list == numbers(found@),
            l.inside(data@.len() as int),
            all_below(found@, l.method_count as int),
            base == lowest(list, list.len()),
            forall|i: int| 0 <= i < found@.len() ==> base <= #[trigger] found@[i],
            forall|k: int|
                0 <= k < list.len() ==> low <= rid_of(data@, *l, #[trigger] list[k]) <= high,
            high <= 0x00FF_FFFF,
            key <= high - low,
            forall|k: int|
                0 <= k < j ==> keyed_rid(rid_of(data@, *l, #[trigger] list[k]), low, high, key)
                    == expected(list[k], base as int),
        decreases n - j,
    {
        let m: usize = found[j];
        assert(list[j as int] == m);
        let rid: u32 = read_token(data, l, m) & 0x00FF_FFFFu32;
        let got: u32 = decrypt_rid_with_key(rid, low, high, key);
        if got != (m - base + 1) as u32 {
            assert(!key_fits(data@, *l, list, low, high, key));
            return false;
        }
        j = j + 1;
    }
    true
}

/// The residues stand in increasing order, below the bound.
proof fn residues_in_order(s: Seq<u8>, l: Layout, found: Seq<int>, low: u32, high: u32, n: nat)
    requires
        n <= u32::MAX,
    ensures
        increasing(residues_below(s, l, found, low, high, n)),
        forall|i: int|
            0 <= i < residues_below(s, l, found, low, high, n).len() ==> #[trigger] residues_below(
                s,
                l,
                found,
                low,
                high,
                n,
            )[i] < n,
    decreases n,
{
    if n > 0 {
        residues_in_order(s, l, found, low, high, (n - 1) as nat);
    }
}

fn find_residues(
    data: &[u8],
    l: &Layout,
    found: &Vec<usize>,
    base: usize,
    low: u32,
    high: u32,
) -> (r: Vec<u32>)
    requires
        l.inside(data@.len() as int),
        all_below(found@, l.method_count as int),
        found@.len() >= 2,
        base == lowest(numbers(found@), found@.len()),
        forall|i: int| 0 <= i < found@.len() ==> base <= #[trigger] found@[i],
        low == low_rid(data@, *l, numbers(found@), found@.len()),
        high == high_rid(data@, *l, numbers(found@), found@.len()),
        low <= high <= 0x00FF_FFFF,
        high - low + 1 == found@.len(),
    ensures
        r@ == residues_below(data@, *l, numbers(found@), low, high, found@.len() / 2),
        increasing(r@),
        forall|i: int| 0 <= i < r@.len() ==> #[trigger] r@[i] < found@.len() / 2,
{
    let n: u32 = high - low + 1;
    let half: u32 = n / 2;
    let quarter: u32 = n / 4;
    let ghost list = numbers(found@);
    assert(list.len() == n);
    let mut v: Vec<u32> = Vec::new();
    let mut d: u32 = 0;
    assert(v@ =~= Seq::empty());
    while d < half
        invariant
            d <= half,
            half == n / 2,
            quarter == n / 4,
            n == found@.len() == high - low + 1,
            n >= 2,
            list == numbers(found@),
            list.len() == n,
            l.inside(data@.len() as int),
            all_below(found@, l.method_count as int),
            base == lowest(numbers(found@), found@.len()),
            forall|i: int| 0 <= i < found@.len() ==> base <= #[trigger] found@[i],
            low == low_rid(data@, *l, numbers(found@), found@.len()),
            high == high_rid(data@, *l, numbers(found@), found@.len()),
            low <= high <= 0x00FF_FFFF,
            v@ == residues_below(data@, *l, list, low, high, d as nat),
        decreases half - d,
    {
        if fits_key(data, l, found, base, low, high, quarter + d) {
            v.push(d);
        }
        d = d + 1;
    }
    proof {
        residues_in_order(data@, *l, list, low, high, half as nat);
    }
    v
}

fn find_foreign(data: &[u8], l: &Layout, found: &Vec<usize>) -> (r: Option<Error>)
    requires
        l.inside(data@.len() as int),
        all_below(found@, l.method_count as int),
    ensures
        match foreign_from(data@, *l, numbers(found@), 0) {
            Some(Problem::Malformed(t)) => r is Some && r->Some_0@ == (if l.compact {
                Problem::Malformed(t)
            } else {
                Problem::Validation(t)
            }),
            Some(p) => false,
            None => r is None,
        },
{
    let n: usize = found.len();
    let mut j: usize = 0;
    while j < n
        invariant
            j <= n == found@.len(),
            l.inside(data@.len() as int),
            all_below(found@, l.method_count as int),
            foreign_from(data@, *l, numbers(found@), 0) == foreign_from(
                data@,
                *l,
                numbers(found@),
                j as int,
            ),
        decreases n - j,
    {
        let m: usize = found[j];
        assert(numbers(found@)[j as int] == m);
        let token: u32 = read_token(data, l, m);
        if token & 0xFF00_0000u32 != METHOD_TOKEN_TABLE {
            return Some(
                if l.compact {
                    malformed_at("v39 method ", m, " has a non-MethodDef token")
                } else {
                    Error::Validation(foreign(m, token))
                },
            );
        }
        j = j + 1;
    }
    None
}

/// Whether a finding of an enciphered image can be used: a modulus, and residues
/// in increasing order below it.
pub open spec fn usable(f: Finding) -> bool {
    f.clean || (f.modulus > 0 && increasing(f.residues) && forall|i: int|
        0 <= i < f.residues.len() ==> #[trigger] f.residues[i] < f.modulus)
}

fn discover_image(data: &[u8], l: &Layout, i: usize) -> (r: Result<ImageKeyDiscovery, Error>)
    requires
        l.inside(data@.len() as int),
        i < l.image_count,
    ensures
        match image_finding(data@, *l, i as int) {
            Ok(f) => r is Ok && r->Ok_0@ == f && usable(f),
            Err(p) => fails(r, p),
        },
{
    let (a, b): (usize, usize) = read_types(data, l, i)?;
    let found: Vec<usize> = list_types(data, l, a, b)?;
    let n: usize = found.len();
    assert(numbers(found@).len() == n);
    if n == 0 {
        let seed_residues: Vec<u32> = Vec::new();
        assert(seed_residues@ =~= Seq::empty());
        return Ok(
            ImageKeyDiscovery {
                image: i,
                method_count: 0,
                modulus: 0,
                clean: true,
                seed_residues,
            },
        );
    }
    let (base, last): (usize, usize) = ends_of(&found);
    proof {
        top_bound(found@, l.method_count as int);
    }
    if last - base + 1 != n {
        return Err(
            validation_at(
                if l.compact {
                    "v39 image "
                } else {
                    "image "
                },
                i,
                " method block is not contiguous",
            ),
        );
    }
    match find_foreign(data, l, &found) {
        Some(e) => {
            return Err(e);
        },
        None => {},
    }
    let x: Numbers = look_at_numbers(data, l, &found, base);
    let count: u32 = n as u32;
    if x.good == n {
        let seed_residues: Vec<u32> = Vec::new();
        assert(seed_residues@ =~= Seq::empty());
        return Ok(
            ImageKeyDiscovery {
                image: i,
                method_count: count,
                modulus: count / 2,
                clean: true,
                seed_residues,
            },
        );
    }
    if x.high - x.low + 1 != count || count < 2 {
        return Err(
            validation_at(
                if l.compact {
                    "v39 image "
                } else {
                    "image "
                },
                i,
                " RID interval is not a permutation",
            ),
        );
    }
    let seed_residues: Vec<u32> = find_residues(data, l, &found, base, x.low, x.high);
    Ok(
        ImageKeyDiscovery {
            image: i,
            method_count: count,
            modulus: count / 2,
            clean: false,
            seed_residues,
        },
    )
}

fn discover_images(data: &[u8], l: &Layout) -> (r: Result<Vec<ImageKeyDiscovery>, Error>)
    requires
        l.inside(data@.len() as int),
    ensures
        match findings_from(data@, *l, 0, Seq::empty()) {
            Ok(fs) => r is Ok && findings_view(r->Ok_0@) == fs && forall|k: int|
                0 <= k < fs.len() ==> usable(#[trigger] fs[k]),
            Err(p) => fails(r, p),
        },
{
    let mut list: Vec<ImageKeyDiscovery> = Vec::new();
    assert(findings_view(list@) =~= Seq::empty());
    let mut i: usize = 0;
    while i < l.image_count
        invariant
            i <= l.image_count,
            l.inside(data@.len() as int),
            forall|k: int|
                0 <= k < findings_view(list@).len() ==> usable(#[trigger] findings_view(list@)[k]),
            findings_from(data@, *l, 0, Seq::empty()) == findings_from(
                data@,
                *l,
                i as int,
                findings_view(list@),
            ),
        decreases l.image_count - i,
    {
        let f: ImageKeyDiscovery = discover_image(data, l, i)?;
        let ghost before = findings_view(list@);
        let ghost v = f@;
        list.push(f);
        assert(findings_view(list@) =~= before.push(v));
        i = i + 1;
    }
    Ok(list)
}

fn holds_residue(v: &Vec<u32>, x: u32) -> (r: bool)
    ensures
        r == v@.contains(x),
{
    let mut i: usize = 0;
    while i < v.len()
        invariant
            i <= v@.len(),
            forall|k: int| 0 <= k < i ==> v@[k] != x,
        decreases v@.len() - i,
    {
        if v[i] == x {
            assert(v@[i as int] == x);
            return true;
        }
        i = i + 1;
    }
    false
}

fn is_compatible(list: &Vec<ImageKeyDiscovery>, seed: u32) -> (r: bool)
    ensures
        r == compatible(findings_view(list@), seed),
{
    let n: usize = list.len();
    let ghost fs = findings_view(list@);
    let mut k: usize = 0;
    while k < n
        invariant
            k <= n == list@.len(),
            fs == findings_view(list@),
            forall|j: int| 0 <= j < k ==> agrees(#[trigger] fs[j], seed),
        decreases n - k,
    {
        assert(fs[k as int] == list@[k as int]@);
        let f: &ImageKeyDiscovery = &list[k];
        if !f.clean {
            if f.modulus == 0 || !holds_residue(&f.seed_residues, seed % f.modulus) {
                assert(!agrees(fs[k as int], seed));
                return false;
            }
        }
        k = k + 1;
    }
    true
}

fn find_anchor(list: &Vec<ImageKeyDiscovery>) -> (r: Option<usize>)
    requires
        forall|k: int|
            0 <= k < findings_view(list@).len() ==> usable(#[trigger] findings_view(list@)[k]),
    ensures
        match r {
            Some(a) => a < list@.len() && !list@[a as int].clean && list@[a as int].modulus
                == top_modulus(findings_view(list@), list@.len()) && list@[a as int].modulus > 0,
            None => top_modulus(findings_view(list@), list@.len()) == 0,
        },
{
    let n: usize = list.len();
    let ghost fs = findings_view(list@);
    let mut best: Option<usize> = None;
    let mut k: usize = 0;
    while k < n
        invariant
            k <= n == list@.len(),
            fs == findings_view(list@),
            forall|j: int| 0 <= j < fs.len() ==> usable(#[trigger] fs[j]),
            match best {
                Some(a) => a < k && !list@[a as int].clean && list@[a as int].modulus
                    == top_modulus(fs, k as nat) && list@[a as int].modulus > 0,
                None => top_modulus(fs, k as nat) == 0,
            },
        decreases n - k,
    {
        assert(fs[k as int] == list@[k as int]@);
        if !list[k].clean {
            let better: bool = match best {
                Some(a) => list[k].modulus > list[a].modulus,
                None => true,
            };
            if better {
                best = Some(k);
            }
        }
        k = k + 1;
    }
    best
}

fn list_seeds(list: &Vec<ImageKeyDiscovery>, a: usize) -> (r: Vec<u32>)
    requires
        a < list@.len(),
        !list@[a as int].clean,
        usable(list@[a as int]@),
    ensures
        increasing(r@),
        forall|c: u32| #[trigger] r@.contains(c) <==> compatible(findings_view(list@), c),
{
    let ghost fs = findings_view(list@);
    let anchor: &ImageKeyDiscovery = &list[a];
    let m: u64 = anchor.modulus as u64;
    let n: usize = anchor.seed_residues.len();
    let mut v: Vec<u32> = Vec::new();
    let mut base: u64 = 0;
    let ghost mut q: int = 0;
    while base <= 0xFFFF_FFFF
        invariant
            fs == findings_view(list@),
            a < list@.len(),
            anchor == list@[a as int],
            !anchor.clean,
            usable(anchor@),
            m == anchor.modulus,
            n == anchor.seed_residues@.len(),
            base == q * m,
            base <= 0x1_FFFF_FFFF,
            increasing(v@),
            forall|i: int| 0 <= i < v@.len() ==> #[trigger] v@[i] < base,
            forall|c: u32| #[trigger] v@.contains(c) <==> compatible(fs, c) && c < base,
        decreases 0x2_0000_0000 - base,
    {
        let mut j: usize = 0;
        while j < n
            invariant
                j <= n,
                fs == findings_view(list@),
                a < list@.len(),
                anchor == list@[a as int],
                usable(anchor@),
                !anchor.clean,
                m == anchor.modulus,
                n == anchor.seed_residues@.len(),
                base == q * m,
                base <= 0xFFFF_FFFF,
                increasing(v@),
                forall|i: int|
                    0 <= i < v@.len() ==> (#[trigger] v@[i] < base || (j > 0 && v@[i] <= base
                        + anchor.seed_residues@[j - 1])),
                forall|c: u32| #[trigger]
                    v@.contains(c) <==> compatible(fs, c) && (c < base || exists|i: int|
                        0 <= i < j && c == base + #[trigger] anchor.seed_residues@[i]),
            decreases n - j,
        {
            let ghost old_v = v@;
            let r: u32 = anchor.seed_residues[j];
            assert(anchor@.residues[j as int] == r);
            assert(j > 0 ==> anchor@.residues[j - 1] < r);
            let c: u64 = base + r as u64;
            if c <= 0xFFFF_FFFF {
                if is_compatible(list, c as u32) {
                    v.push(c as u32);
                    assert(v@ =~= old_v.push(c as u32));
                    assert forall|x: u32| #[trigger] v@.contains(x) <==> old_v.contains(x) || x
                        == c by {
                        if old_v.contains(x) {
                            let i = choose|i: int| 0 <= i < old_v.len() && old_v[i] == x;
                            assert(v@[i] == x);
                        }
                        if x == c {
                            assert(v@[old_v.len() as int] == x);
                        }
                    }
                }
            }
            assert forall|x: u32| #[trigger]
                v@.contains(x) <==> compatible(fs, x) && (x < base || exists|i: int|
                    0 <= i < j + 1 && x == base + #[trigger] anchor.seed_residues@[i]) by {
                if exists|i: int| 0 <= i < j + 1 && x == base + #[trigger] anchor.seed_residues@[i] {
                    let i = choose|i: int|
                        0 <= i < j + 1 && x == base + #[trigger] anchor.seed_residues@[i];
                    if i < j {
                    } else {
                        assert(x == c);
                    }
                }
                if x == c {
                    assert(x == base + anchor.seed_residues@[j as int]);
                }
            }
            j = j + 1;
        }
        assert forall|c: u32| #[trigger] v@.contains(c) <==> compatible(fs, c) && c < base + m by {
            if v@.contains(c) && c >= base {
                let i = choose|i: int| 0 <= i < n && c == base + #[trigger] anchor.seed_residues@[i];
                assert(anchor@.residues[i] < anchor.modulus);
            }
            if compatible(fs, c) && base <= c < base + m {
                assert(agrees(fs[a as int], c));
                lemma_fundamental_div_mod_converse(c as int, m as int, q, c - base);
                assert(anchor.seed_residues@.contains((c % anchor.modulus) as u32));
                let i = choose|i: int|
                    0 <= i < n && anchor.seed_residues@[i] == (c % anchor.modulus) as u32;
                assert(c == base + anchor.seed_residues@[i]);
            }
        }
        assert forall|i: int| 0 <= i < v@.len() implies #[trigger] v@[i] < base + m by {
            assert(v@.contains(v@[i]));
        }
        proof {
            assert((q + 1) * m == q * m + m) by (nonlinear_arith);
            q = q + 1;
        }
        base = base + m;
    }
    v
}

/// Discover the seeds under which the method tokens of a metadata file can have
/// been enciphered. Nothing is listed for a version without a known layout.
pub fn discover_method_token_seeds(data: &[u8]) -> (r: Result<SeedDiscoveryReport, Error>)
    ensures
        match layout_of(data@) {
            Err(Problem::UnsupportedVersion(v)) => r is Ok && r->Ok_0.version == v
                && r->Ok_0.images@.len() == 0 && r->Ok_0.seed_candidates@.len() == 0,
            Err(p) => fails(r, p),
            Ok(l) => match findings_from(data@, l, 0, Seq::empty()) {
                Err(p) => fails(r, p),
                Ok(fs) => r is Ok && r->Ok_0.version == l.version && findings_view(r->Ok_0.images@)
                    == fs && lists_seeds(fs, l.compact, r->Ok_0.seed_candidates@),
            },
        },
{
    let l: Layout = match find_layout(data) {
        Ok(l) => l,
        Err(Error::UnsupportedVersion(version)) => {
            return Ok(
                SeedDiscoveryReport {
                    version,
                    images: Vec::new(),
                    seed_candidates: Vec::new(),
                },
            );
        },
        Err(e) => return Err(e),
    };
    let images: Vec<ImageKeyDiscovery> = discover_images(data, &l)?;
    let mut seed_candidates: Vec<u32> = Vec::new();
    match find_anchor(&images) {
        Some(a) => {
            assert(findings_view(images@)[a as int] == images@[a as int]@);
            if !(l.compact && images[a].modulus < 1024) {
                seed_candidates = list_seeds(&images, a);
            }
        },
        None => {},
    }
    Ok(SeedDiscoveryReport { version: l.version, images, seed_candidates })
}

} // verus!
