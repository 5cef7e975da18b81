//! Restoration of method tokens.

use vstd::prelude::*;

use crate::bytes::{poke_u32, put32, sub_vec};
use crate::metadata::error::{
    fails, foreign, foreign_text, malformed, malformed_at, numbered, say_twice, twice,
    validation_at, Error, Problem,
};
use crate::metadata::layout::{
    find_layout, layout_of, methods_of, read_methods, read_token, read_types, record_inside,
    token_of, types_of, Layout,
};
use crate::metadata::rid::{decrypt_rid, plain_rid};
use crate::text::{dec, hex_digits, push_dec, push_hex_digits};

verus! {

/// The seed of the current build.
pub const DEFAULT_METHOD_TOKEN_SEED: u32 = 0xA6FA_E968;

/// The table of method definitions, as tokens name it.
pub const METHOD_TOKEN_TABLE: u32 = 0x0600_0000;

/// What a restoration found and did.
#[derive(Debug, Clone, PartialEq, Eq)]
pub struct Report {
    pub version: u32,
    pub seed: String,
    pub encryption_status: String,
    pub images: usize,
    pub images_with_methods: usize,
    pub types: usize,
    pub methods: usize,
    pub visited_methods: usize,
    pub already_correct_before: usize,
    pub correct_after: usize,
    pub changed_tokens: usize,
    pub transformed_images: usize,
}

/// The state of a restoration between two images.
pub struct State {
    pub out: Seq<u8>,
    /// Which methods have been met.
    pub owned: Seq<bool>,
    pub with_methods: nat,
    pub visited: nat,
    pub before: nat,
    pub after: nat,
    pub changed: nat,
    pub transformed: nat,
}

/// `owned` and `found` with the methods in `m..end` met, none of them for the
/// second time.
pub open spec fn claimed(owned: Seq<bool>, found: Seq<int>, m: int, end: int) -> Result<
    (Seq<bool>, Seq<int>),
    Problem,
>
    decreases end - m,
{
    if m >= end {
        Ok((owned, found))
    } else if owned[m] {
        Err(Problem::Malformed(numbered("method "@, m, " belongs to multiple images"@)))
    } else {
        claimed(owned.update(m, true), found.push(m), m + 1, end)
    }
}

/// [`claimed`] for the methods of the types in `t..end`.
pub open spec fn types_claimed(
    s: Seq<u8>,
    l: Layout,
    t: int,
    end: int,
    owned: Seq<bool>,
    found: Seq<int>,
) -> Result<(Seq<bool>, Seq<int>), Problem>
    decreases end - t,
{
    if t >= end {
        Ok((owned, found))
    } else {
        match methods_of(s, l, t, true) {
            Err(p) => Err(p),
            Ok((a, b)) => match claimed(owned, found, a, b) {
                Err(p) => Err(p),
                Ok((o, f)) => types_claimed(s, l, t + 1, end, o, f),
            },
        }
    }
}

/// `found` and the numbers in `m..end`.
pub open spec fn counted(found: Seq<int>, m: int, end: int) -> Seq<int>
    decreases end - m,
{
    if m >= end {
        found
    } else {
        counted(found.push(m), m + 1, end)
    }
}

/// `found` and the methods of the types in `t..end`.
pub open spec fn types_listed(s: Seq<u8>, l: Layout, t: int, end: int, found: Seq<int>) -> Result<
    Seq<int>,
    Problem,
>
    decreases end - t,
{
    if t >= end {
        Ok(found)
    } else {
        match methods_of(s, l, t, false) {
            Err(p) => Err(p),
            Ok((a, b)) => types_listed(s, l, t + 1, end, counted(found, a, b)),
        }
    }
}

/// The least of the first `n` numbers.
pub open spec fn lowest(v: Seq<int>, n: nat) -> int
    decreases n,
{
    if n <= 1 {
        v[0]
    } else {
        let m = lowest(v, (n - 1) as nat);
        if v[n - 1] < m {
            v[n - 1]
        } else {
            m
        }
    }
}

/// The greatest of the first `n` numbers.
pub open spec fn highest(v: Seq<int>, n: nat) -> int
    decreases n,
{
    if n <= 1 {
        v[0]
    } else {
        let m = highest(v, (n - 1) as nat);
        if v[n - 1] > m {
            v[n - 1]
        } else {
            m
        }
    }
}

/// Whether the numbers have the spread of a block without gaps.
pub open spec fn gapless(v: Seq<int>) -> bool {
    highest(v, v.len()) - lowest(v, v.len()) + 1 == v.len()
}

/// `owned` with the methods from number `j` on met, none of them for the second
/// time.
pub open spec fn list_claimed(owned: Seq<bool>, found: Seq<int>, j: int) -> Result<
    Seq<bool>,
    Problem,
>
    decreases found.len() - j,
{
    if j >= found.len() {
        Ok(owned)
    } else if owned[found[j]] {
        Err(
            Problem::Malformed(
                numbered("v39 method "@, found[j], " belongs to multiple images"@),
            ),
        )
    } else {
        list_claimed(owned.update(found[j], true), found, j + 1)
    }
}

/// The methods of image `i`, a block without gaps, and `owned` with them met.
pub open spec fn image_methods(s: Seq<u8>, l: Layout, i: int, owned: Seq<bool>) -> Result<
    (Seq<bool>, Seq<int>),
    Problem,
> {
    match types_of(s, l, i) {
        Err(p) => Err(p),
        Ok((a, b)) => if l.compact {
            match types_listed(s, l, a, b, Seq::empty()) {
                Err(p) => Err(p),
                Ok(found) => if found.len() == 0 {
                    Ok((owned, found))
                } else if !gapless(found) {
                    Err(
                        Problem::Validation(
                            numbered("v39 image "@, i, " method block is not contiguous"@),
                        ),
                    )
                } else {
                    match list_claimed(owned, found, 0) {
                        Err(p) => Err(p),
                        Ok(o) => Ok((o, found)),
                    }
                },
            }
        } else {
            match types_claimed(s, l, a, b, owned, Seq::empty()) {
                Err(p) => Err(p),
                Ok((o, found)) => if found.len() != 0 && !gapless(found) {
                    Err(
                        Problem::Malformed(
                            numbered("image "@, i, " method block is not contiguous"@),
                        ),
                    )
                } else {
                    Ok((o, found))
                },
            }
        },
    }
}

/// The number of a method in its token.
pub open spec fn rid_of(s: Seq<u8>, l: Layout, m: int) -> u32 {
    token_of(s, l, m) & 0x00FF_FFFFu32
}

/// The number that method `m` of an image whose first is `base` has.
pub open spec fn expected(m: int, base: int) -> u32 {
    (m - base + 1) as u32
}

/// Whether method `m` has its number.
pub open spec fn canonical(s: Seq<u8>, l: Layout, m: int, base: int) -> bool {
    rid_of(s, l, m) == expected(m, base)
}

/// What is wrong with the first of the methods from number `j` on whose token is
/// of another table.
pub open spec fn foreign_from(s: Seq<u8>, l: Layout, found: Seq<int>, j: int) -> Option<Problem>
    decreases found.len() - j,
{
    if j >= found.len() {
        None
    } else if token_of(s, l, found[j]) & 0xFF00_0000u32 != METHOD_TOKEN_TABLE {
        Some(
            Problem::Malformed(
                if l.compact {
                    numbered("v39 method "@, found[j], " has a non-MethodDef token"@)
                } else {
                    foreign_text(found[j], token_of(s, l, found[j]))
                },
            ),
        )
    } else {
        foreign_from(s, l, found, j + 1)
    }
}

/// How many of the first `n` methods have their number.
pub open spec fn canonical_count(s: Seq<u8>, l: Layout, found: Seq<int>, base: int, n: nat) -> nat
    decreases n,
{
    if n == 0 {
        0
    } else {
        canonical_count(s, l, found, base, (n - 1) as nat) + if canonical(
            s,
            l,
            found[n - 1],
            base,
        ) {
            1nat
        } else {
            0
        }
    }
}

/// The least number of the first `n` methods.
pub open spec fn low_rid(s: Seq<u8>, l: Layout, found: Seq<int>, n: nat) -> u32
    decreases n,
{
    let r = rid_of(s, l, found[n - 1]);
    if n <= 1 {
        r
    } else {
        let m = low_rid(s, l, found, (n - 1) as nat);
        if r < m {
            r
        } else {
            m
        }
    }
}

/// The greatest number of the first `n` methods.
pub open spec fn high_rid(s: Seq<u8>, l: Layout, found: Seq<int>, n: nat) -> u32
    decreases n,
{
    let r = rid_of(s, l, found[n - 1]);
    if n <= 1 {
        r
    } else {
        let m = high_rid(s, l, found, (n - 1) as nat);
        if r > m {
            r
        } else {
            m
        }
    }
}

/// What is wrong with method `m` that came out as `got`.
pub open spec fn mismatch(l: Layout, m: int, got: u32, want: u32) -> Problem {
    Problem::Validation(
        if l.compact {
            twice("v39 restored RID "@, got as int, " != expected "@, want as int, ""@)
        } else {
            "method "@ + dec(m as nat) + twice(
                " restored RID "@,
                got as int,
                " != expected "@,
                want as int,
                ""@,
            )
        },
    )
}

/// The file with the tokens of the methods from number `j` on restored, and the
/// number of those changed behind `changed`.
pub open spec fn tokens_restored(
    out: Seq<u8>,
    s: Seq<u8>,
    l: Layout,
    found: Seq<int>,
    low: u32,
    high: u32,
    seed: u32,
    j: int,
    changed: nat,
) -> Result<(Seq<u8>, nat), Problem>
    decreases found.len() - j,
{
    if j >= found.len() {
        Ok((out, changed))
    } else {
        let m = found[j];
        let want = expected(m, lowest(found, found.len()));
        match plain_rid(rid_of(s, l, m), low, high, seed) {
            Err(p) => Err(p),
            Ok(got) => if got != want {
                Err(mismatch(l, m, got, want))
            } else if METHOD_TOKEN_TABLE | got == token_of(s, l, m) {
                tokens_restored(out, s, l, found, low, high, seed, j + 1, changed)
            } else {
                tokens_restored(
                    put32(out, l.slot(m), METHOD_TOKEN_TABLE | got),
                    s,
                    l,
                    found,
                    low,
                    high,
                    seed,
                    j + 1,
                    changed + 1,
                )
            },
        }
    }
}

/// Why the numbers `low..=high` of the `n` methods of image `i` are not a
/// permutation.
pub open spec fn interval_problem(l: Layout, i: int, low: u32, high: u32, n: int) -> Option<Problem> {
    if !l.compact && high <= 1 {
        Some(
            Problem::Validation(
                numbered("image "@, i, " is noncanonical but native R > 1 gate would skip it"@),
            ),
        )
    } else if high - low + 1 != n {
        Some(
            Problem::Validation(
                if l.compact {
                    numbered("v39 image "@, i, " RID interval is not a permutation"@)
                } else {
                    "image "@ + dec(i as nat) + twice(
                        " RID interval "@,
                        low as int,
                        "..="@,
                        high as int,
                        " is not a permutation"@,
                    )
                },
            ),
        )
    } else {
        None
    }
}

/// The state behind image `i`, whose methods are `found`.
pub open spec fn methods_done(
    s: Seq<u8>,
    l: Layout,
    i: int,
    seed: u32,
    st: State,
    owned: Seq<bool>,
    found: Seq<int>,
) -> Result<State, Problem> {
    let n = found.len();
    let base = lowest(found, n);
    match foreign_from(s, l, found, 0) {
        Some(p) => Err(p),
        None => {
            let good = canonical_count(s, l, found, base, n);
            if good == n {
                Ok(
                    State {
                        out: st.out,
                        owned,
                        with_methods: st.with_methods + 1,
                        visited: st.visited + n,
                        before: st.before + good,
                        after: st.after + n,
                        changed: st.changed,
                        transformed: st.transformed,
                    },
                )
            } else {
                let low = low_rid(s, l, found, n);
                let high = high_rid(s, l, found, n);
                match interval_problem(l, i, low, high, n as int) {
                    Some(p) => Err(p),
                    None => match tokens_restored(
                        st.out,
                        s,
                        l,
                        found,
                        low,
                        high,
                        seed,
                        0,
                        st.changed,
                    ) {
                        Err(p) => Err(p),
                        Ok((out, changed)) => Ok(
                            State {
                                out,
                                owned,
                                with_methods: st.with_methods + 1,
                                visited: st.visited + n,
                                before: st.before + good,
                                after: st.after + n,
                                changed,
                                transformed: st.transformed + 1,
                            },
                        ),
                    },
                }
            }
        },
    }
}

/// The state behind the images from `i` on.
pub open spec fn images_done(s: Seq<u8>, l: Layout, i: int, seed: u32, st: State) -> Result<
    State,
    Problem,
>
    decreases l.image_count - i,
{
    if i >= l.image_count {
        Ok(st)
    } else {
        match image_methods(s, l, i, st.owned) {
            Err(p) => Err(p),
            Ok((owned, found)) => if found.len() == 0 {
                images_done(s, l, i + 1, seed, st)
            } else {
                match methods_done(s, l, i, seed, st, owned, found) {
                    Err(p) => Err(p),
                    Ok(t) => images_done(s, l, i + 1, seed, t),
                }
            },
        }
    }
}

/// The state in front of the first image.
pub open spec fn first_state(s: Seq<u8>, l: Layout) -> State {
    State {
        out: s,
        owned: Seq::new(l.method_count as nat, |i: int| false),
        with_methods: 0,
        visited: 0,
        before: 0,
        after: 0,
        changed: 0,
        transformed: 0,
    }
}

/// Why the methods are not all covered.
pub open spec fn coverage_problem(l: Layout, st: State) -> Option<Problem> {
    if st.owned.contains(false) {
        Some(
            Problem::Malformed(
                if l.compact {
                    "v39 method definitions are not all owned by an image"@
                } else {
                    "one or more method definitions are not owned by an image"@
                },
            ),
        )
    } else if st.visited != l.method_count || st.after != l.method_count {
        Some(
            Problem::Validation(
                twice(
                    if l.compact {
                        "v39 method coverage mismatch: visited="@
                    } else {
                        "method coverage mismatch: visited="@
                    },
                    st.visited as int,
                    ", correct="@,
                    st.after as int,
                    ", total="@,
                ) + dec(l.method_count as nat),
            ),
        )
    } else {
        None
    }
}

/// What restoring a metadata file gives.
pub open spec fn restored(s: Seq<u8>, seed: u32) -> Result<(Layout, State), Problem> {
    match layout_of(s) {
        Err(p) => Err(p),
        Ok(l) => match images_done(s, l, 0, seed, first_state(s, l)) {
            Err(p) => Err(p),
            Ok(st) => match coverage_problem(l, st) {
                Some(p) => Err(p),
                None => Ok((l, st)),
            },
        },
    }
}

/// Whether a report says what a restoration found and did.
pub open spec fn reports(r: Report, l: Layout, seed: u32, st: State) -> bool {
    &&& r.version == l.version
    &&& r.seed@ == "0x"@ + hex_digits(seed as nat, 8)
    &&& r.encryption_status@ == if st.changed == 0 {
        "clean"@
    } else {
        "encrypted"@
    }
    &&& r.images == l.image_count
    &&& r.images_with_methods == st.with_methods
    &&& r.types == l.type_count
    &&& r.methods == l.method_count
    &&& r.visited_methods == st.visited
    &&& r.already_correct_before == st.before
    &&& r.correct_after == st.after
    &&& r.changed_tokens == st.changed
    &&& r.transformed_images == st.transformed
}

/// How many methods have been met.
pub open spec fn owned_count(v: Seq<bool>) -> nat
    decreases v.len(),
{
    if v.len() == 0 {
        0
    } else {
        owned_count(v.drop_last()) + if v.last() {
            1nat
        } else {
            0
        }
    }
}

proof fn owned_bounds(v: Seq<bool>)
    ensures
        owned_count(v) <= v.len(),
    decreases v.len(),
{
    if v.len() > 0 {
        owned_bounds(v.drop_last());
    }
}

proof fn owned_one_more(v: Seq<bool>, m: int)
    requires
        0 <= m < v.len(),
        !v[m],
    ensures
        owned_count(v.update(m, true)) == owned_count(v) + 1,
    decreases v.len(),
{
    if m == v.len() - 1 {
        assert(v.update(m, true).drop_last() =~= v.drop_last());
    } else {
        assert(v.update(m, true).drop_last() =~= v.drop_last().update(m, true));
        owned_one_more(v.drop_last(), m);
    }
}

proof fn none_owned(n: nat)
    ensures
        owned_count(Seq::new(n, |i: int| false)) == 0,
    decreases n,
{
    let v: Seq<bool> = Seq::new(n, |i: int| false);
    if n > 0 {
        assert(v.drop_last() =~= Seq::new((n - 1) as nat, |i: int| false));
        none_owned((n - 1) as nat);
    }
}

/// Indices as numbers.
pub open spec fn numbers(v: Seq<usize>) -> Seq<int> {
    Seq::new(v.len(), |i: int| v[i] as int)
}

/// Whether every index is below `n`.
pub open spec fn all_below(v: Seq<usize>, n: int) -> bool {
    forall|i: int| 0 <= i < v.len() ==> #[trigger] v[i] < n
}

fn claim(owned: &mut Vec<bool>, found: &mut Vec<usize>, from: usize, end: usize) -> (r: Result<
    (),
    Error,
>)
    requires
        end <= old(owned)@.len(),
        all_below(old(found)@, old(owned)@.len() as int),
    ensures
        match claimed(old(owned)@, numbers(old(found)@), from as int, end as int) {
            Ok((o, f)) => r is Ok && final(owned)@ == o && numbers(final(found)@) == f,
            Err(p) => fails(r, p),
        },
        final(owned)@.len() == old(owned)@.len(),
        all_below(final(found)@, old(owned)@.len() as int),
        r is Ok ==> owned_count(final(owned)@) - owned_count(old(owned)@) == final(found)@.len()
            - old(found)@.len(),
{
    let mut m: usize = from;
    while m < end
        invariant
            end <= owned@.len(),
            owned@.len() == old(owned)@.len(),
            all_below(found@, old(owned)@.len() as int),
            owned_count(owned@) - owned_count(old(owned)@) == found@.len() - old(found)@.len(),
            claimed(old(owned)@, numbers(old(found)@), from as int, end as int) == claimed(
                owned@,
                numbers(found@),
                m as int,
                end as int,
            ),
        decreases end - m,
    {
        if owned[m] {
            return Err(malformed_at("method ", m, " belongs to multiple images"));
        }
        proof {
            owned_one_more(owned@, m as int);
        }
        let ghost before = found@;
        owned.set(m, true);
        found.push(m);
        assert(numbers(found@) =~= numbers(before).push(m as int));
        m = m + 1;
    }
    Ok(())
}

fn claim_types(
    data: &[u8],
    l: &Layout,
    from: usize,
    end: usize,
    owned: &mut Vec<bool>,
    found: &mut Vec<usize>,
) -> (r: Result<(), Error>)
    requires
        l.inside(data@.len() as int),
        end <= l.type_count,
        old(owned)@.len() == l.method_count,
        all_below(old(found)@, old(owned)@.len() as int),
    ensures
        match types_claimed(
            data@,
            *l,
            from as int,
            end as int,
            old(owned)@,
            numbers(old(found)@),
        ) {
            Ok((o, f)) => r is Ok && final(owned)@ == o && numbers(final(found)@) == f,
            Err(p) => fails(r, p),
        },
        final(owned)@.len() == old(owned)@.len(),
        all_below(final(found)@, old(owned)@.len() as int),
        r is Ok ==> owned_count(final(owned)@) - owned_count(old(owned)@) == final(found)@.len()
            - old(found)@.len(),
{
    let mut t: usize = from;
    while t < end
        invariant
            l.inside(data@.len() as int),
            end <= l.type_count,
            owned@.len() == l.method_count == old(owned)@.len(),
            all_below(found@, old(owned)@.len() as int),
            owned_count(owned@) - owned_count(old(owned)@) == found@.len() - old(found)@.len(),
            types_claimed(
                data@,
                *l,
                from as int,
                end as int,
                old(owned)@,
                numbers(old(found)@),
            ) == types_claimed(data@, *l, t as int, end as int, owned@, numbers(found@)),
        decreases end - t,
    {
        let (a, b): (usize, usize) = read_methods(data, l, t, true)?;
        claim(owned, found, a, b)?;
        t = t + 1;
    }
    Ok(())
}

/// List the methods of the types in `from..end`.
pub fn list_types(data: &[u8], l: &Layout, from: usize, end: usize) -> (r: Result<Vec<usize>, Error>)
    requires
        l.inside(data@.len() as int),
        end <= l.type_count,
    ensures
        match types_listed(data@, *l, from as int, end as int, Seq::empty()) {
            Ok(f) => r is Ok && numbers(r->Ok_0@) == f && all_below(
                r->Ok_0@,
                l.method_count as int,
            ),
            Err(p) => fails(r, p),
        },
{
    let mut found: Vec<usize> = Vec::new();
    assert(numbers(found@) =~= Seq::empty());
    let mut t: usize = from;
    while t < end
        invariant
            l.inside(data@.len() as int),
            end <= l.type_count,
            all_below(found@, l.method_count as int),
            types_listed(data@, *l, from as int, end as int, Seq::empty()) == types_listed(
                data@,
                *l,
                t as int,
                end as int,
                numbers(found@),
            ),
        decreases end - t,
    {
        let (a, b): (usize, usize) = read_methods(data, l, t, false)?;
        let ghost start = numbers(found@);
        let mut m: usize = a;
        while m < b
            invariant
                b <= l.method_count,
                all_below(found@, l.method_count as int),
                counted(start, a as int, b as int) == counted(numbers(found@), m as int, b as int),
            decreases b - m,
        {
            let ghost before = found@;
            found.push(m);
            assert(numbers(found@) =~= numbers(before).push(m as int));
            m = m + 1;
        }
        t = t + 1;
    }
    Ok(found)
}

/// The least and the greatest of a list.
pub fn ends_of(found: &Vec<usize>) -> (r: (usize, usize))
    requires
        found@.len() > 0,
    ensures
        r.0 == lowest(numbers(found@), found@.len()),
        r.1 == highest(numbers(found@), found@.len()),
        forall|i: int| 0 <= i < found@.len() ==> r.0 <= #[trigger] found@[i] <= r.1,
        r.0 <= r.1,
{
    let mut lo: usize = found[0];
    let mut hi: usize = found[0];
    let n: usize = found.len();
    let mut i: usize = 1;
    while i < n
        invariant
            1 <= i <= n == found@.len(),
            lo == lowest(numbers(found@), i as nat),
            hi == highest(numbers(found@), i as nat),
            forall|k: int| 0 <= k < i ==> lo <= #[trigger] found@[k] <= hi,
            lo <= hi,
        decreases n - i,
    {
        let m: usize = found[i];
        assert(numbers(found@)[i as int] == m);
        if m < lo {
            lo = m;
        }
        if m > hi {
            hi = m;
        }
        i = i + 1;
    }
    (lo, hi)
}

fn claim_list(owned: &mut Vec<bool>, found: &Vec<usize>) -> (r: Result<(), Error>)
    requires
        all_below(found@, old(owned)@.len() as int),
    ensures
        match list_claimed(old(owned)@, numbers(found@), 0) {
            Ok(o) => r is Ok && final(owned)@ == o,
            Err(p) => fails(r, p),
        },
        final(owned)@.len() == old(owned)@.len(),
        r is Ok ==> owned_count(final(owned)@) - owned_count(old(owned)@) == found@.len(),
{
    let n: usize = found.len();
    let mut j: usize = 0;
    while j < n
        invariant
            j <= n == found@.len(),
            owned@.len() == old(owned)@.len(),
            all_below(found@, old(owned)@.len() as int),
            owned_count(owned@) - owned_count(old(owned)@) == j,
            list_claimed(old(owned)@, numbers(found@), 0) == list_claimed(
                owned@,
                numbers(found@),
                j as int,
            ),
        decreases n - j,
    {
        let m: usize = found[j];
        assert(numbers(found@)[j as int] == m);
        if owned[m] {
            return Err(malformed_at("v39 method ", m, " belongs to multiple images"));
        }
        proof {
            owned_one_more(owned@, m as int);
        }
        owned.set(m, true);
        j = j + 1;
    }
    Ok(())
}

fn list_image(data: &[u8], l: &Layout, i: usize, owned: &mut Vec<bool>) -> (r: Result<
    Vec<usize>,
    Error,
>)
    requires
        l.inside(data@.len() as int),
        i < l.image_count,
        old(owned)@.len() == l.method_count,
    ensures
        match image_methods(data@, *l, i as int, old(owned)@) {
            Ok((o, f)) => r is Ok && final(owned)@ == o && numbers(r->Ok_0@) == f && all_below(
                r->Ok_0@,
                l.method_count as int,
            ) && owned_count(o) - owned_count(old(owned)@) == f.len() && (f.len() > 0
                ==> gapless(f)),
            Err(p) => fails(r, p),
        },
        final(owned)@.len() == old(owned)@.len(),
{
    let (a, b): (usize, usize) = read_types(data, l, i)?;
    if l.compact {
        let found: Vec<usize> = list_types(data, l, a, b)?;
        if found.len() == 0 {
            return Ok(found);
        }
        let (lo, hi): (usize, usize) = ends_of(&found);
        proof {
            top_bound(found@, l.method_count as int);
        }
        if hi - lo + 1 != found.len() {
            return Err(validation_at("v39 image ", i, " method block is not contiguous"));
        }
        claim_list(owned, &found)?;
        return Ok(found);
    }
    let mut found: Vec<usize> = Vec::new();
    assert(numbers(found@) =~= Seq::empty());
    claim_types(data, l, a, b, owned, &mut found)?;
    if found.len() != 0 {
        let (lo, hi): (usize, usize) = ends_of(&found);
        proof {
            top_bound(found@, l.method_count as int);
        }
        if hi - lo + 1 != found.len() {
            return Err(malformed_at("image ", i, " method block is not contiguous"));
        }
    }
    Ok(found)
}

/// The greatest of a list of indices below `n` is below `n`.
pub proof fn top_bound(found: Seq<usize>, n: int)
    requires
        found.len() > 0,
        all_below(found, n),
    ensures
        highest(numbers(found), found.len()) < n,
{
    top_bound_upto(found, n, found.len());
}

proof fn top_bound_upto(found: Seq<usize>, n: int, k: nat)
    requires
        0 < k <= found.len(),
        all_below(found, n),
    ensures
        highest(numbers(found), k) < n,
    decreases k,
{
    assert(found[0] < n);
    if k > 1 {
        top_bound_upto(found, n, (k - 1) as nat);
        assert(found[k - 1] < n);
    }
}

fn find_foreign(data: &[u8], l: &Layout, found: &Vec<usize>) -> (r: Option<Error>)
    requires
        l.inside(data@.len() as int),
        all_below(found@, l.method_count as int),
    ensures
        match foreign_from(data@, *l, numbers(found@), 0) {
            Some(p) => r is Some && r->Some_0@ == p,
            None => r is None,
        },
{
    let n: usize = found.len();
    let mut j: usize = 0;
    while j < n
        invariant
            j <= n == found@.len(),
            l.inside(data@.len() as int),
            all_below(found@, l.method_count as int),
            foreign_from(data@, *l, numbers(found@), 0) == foreign_from(
                data@,
                *l,
                numbers(found@),
                j as int,
            ),
        decreases n - j,
    {
        let m: usize = found[j];
        assert(numbers(found@)[j as int] == m);
        let token: u32 = read_token(data, l, m);
        if token & 0xFF00_0000u32 != METHOD_TOKEN_TABLE {
            return Some(
                if l.compact {
                    malformed_at("v39 method ", m, " has a non-MethodDef token")
                } else {
                    Error::Malformed(foreign(m, token))
                },
            );
        }
        j = j + 1;
    }
    None
}

/// What a look at the numbers of an image's methods gives.
pub struct Numbers {
    pub good: usize,
    pub low: u32,
    pub high: u32,
}

/// The numbers of the first `n` methods lie between the least and the greatest.
pub proof fn rids_between(s: Seq<u8>, l: Layout, found: Seq<int>, n: nat)
    requires
        0 < n <= found.len(),
    ensures
        forall|j: int|
            0 <= j < n ==> low_rid(s, l, found, n) <= rid_of(s, l, #[trigger] found[j])
                <= high_rid(s, l, found, n),
        high_rid(s, l, found, n) <= 0x00FF_FFFF,
        low_rid(s, l, found, n) <= high_rid(s, l, found, n),
    decreases n,
{
    let t = token_of(s, l, found[n - 1]);
    assert(t & 0x00FF_FFFFu32 <= 0x00FF_FFFF) by (bit_vector);
    if n > 1 {
        rids_between(s, l, found, (n - 1) as nat);
    }
}

proof fn count_bound(s: Seq<u8>, l: Layout, found: Seq<int>, base: int, n: nat)
    ensures
        canonical_count(s, l, found, base, n) <= n,
    decreases n,
{
    if n > 0 {
        count_bound(s, l, found, base, (n - 1) as nat);
    }
}

/// Look at the numbers of an image's methods.
pub fn look_at_numbers(data: &[u8], l: &Layout, found: &Vec<usize>, base: usize) -> (r: Numbers)
    requires
        l.inside(data@.len() as int),
        all_below(found@, l.method_count as int),
        found@.len() > 0,
        forall|i: int| 0 <= i < found@.len() ==> base <= #[trigger] found@[i],
    ensures
        r.good == canonical_count(data@, *l, numbers(found@), base as int, found@.len()),
        r.good <= found@.len(),
        r.low == low_rid(data@, *l, numbers(found@), found@.len()),
        r.high == high_rid(data@, *l, numbers(found@), found@.len()),
        r.low <= r.high <= 0x00FF_FFFF,
{
    let n: usize = found.len();
    let ghost list = numbers(found@);
    let mut good: usize = 0;
    let mut low: u32 = 0;
    let mut high: u32 = 0;
    let mut j: usize = 0;
    while j < n
        invariant
            j <= n == found@.len(),
            list == numbers(found@),
            l.inside(data@.len() as int),
            all_below(found@, l.method_count as int),
            forall|i: int| 0 <= i < found@.len() ==> base <= #[trigger] found@[i],
            good == canonical_count(data@, *l, list, base as int, j as nat),
            good <= j,
            j > 0 ==> low == low_rid(data@, *l, list, j as nat) && high == high_rid(
                data@,
                *l,
                list,
                j as nat,
            ),
        decreases n - j,
    {
        let m: usize = found[j];
        assert(list[j as int] == m);
        let rid: u32 = read_token(data, l, m) & 0x00FF_FFFFu32;
        if rid == (m - base + 1) as u32 {
            good = good + 1;
        }
        if j == 0 || rid < low {
            low = rid;
        }
        if j == 0 || rid > high {
            high = rid;
        }
        j = j + 1;
    }
    proof {
        rids_between(data@, *l, list, n as nat);
    }
    Numbers { good, low, high }
}

fn describe_mismatch(l: &Layout, m: usize, got: u32, want: u32) -> (e: Error)
    ensures
        e@ == mismatch(*l, m as int, got, want),
{
    if l.compact {
        return Error::Validation(
            say_twice("v39 restored RID ", got as u64, " != expected ", want as u64, ""),
        );
    }
    let mut s: String = "method ".to_owned();
    push_dec(&mut s, m as u64);
    let t: String = say_twice(" restored RID ", got as u64, " != expected ", want as u64, "");
    s.append(t.as_str());
    Error::Validation(s)
}

fn restore_tokens(
    out: &mut Vec<u8>,
    data: &[u8],
    l: &Layout,
    found: &Vec<usize>,
    base: usize,
    low: u32,
    high: u32,
    seed: u32,
) -> (r: Result<usize, Error>)
    requires
        l.inside(data@.len() as int),
        old(out)@.len() == data@.len(),
        all_below(found@, l.method_count as int),
        base == lowest(numbers(found@), found@.len()),
        forall|i: int| 0 <= i < found@.len() ==> base <= #[trigger] found@[i],
    ensures
        forall|k: nat|
            match #[trigger] tokens_restored(
                old(out)@,
                data@,
                *l,
                numbers(found@),
                low,
                high,
                seed,
                0,
                k,
            ) {
                Ok((v, n)) => r is Ok && final(out)@ == v && n == k + r->Ok_0,
                Err(p) => fails(r, p),
            },
        r matches Ok(n) ==> n <= found@.len(),
        final(out)@.len() == old(out)@.len(),
{
    let n: usize = found.len();
    let len: usize = data.len();
    let ghost list = numbers(found@);
    let mut changed: usize = 0;
    let mut j: usize = 0;
    while j < n
        invariant
            j <= n == found@.len(),
            changed <= j,
            list == numbers(found@),
            len == data@.len(),
            l.inside(len as int),
            out@.len() == len == old(out)@.len(),
            all_below(found@, l.method_count as int),
            base == lowest(numbers(found@), found@.len()),
            forall|i: int| 0 <= i < found@.len() ==> base <= #[trigger] found@[i],
            forall|k: nat|
                #[trigger] tokens_restored(old(out)@, data@, *l, list, low, high, seed, 0, k)
                    == tokens_restored(
                    out@,
                    data@,
                    *l,
                    list,
                    low,
                    high,
                    seed,
                    j as int,
                    k + changed as nat,
                ),
        decreases n - j,
    {
        let m: usize = found[j];
        assert(list[j as int] == m);
        let token: u32 = read_token(data, l, m);
        let got: u32 = decrypt_rid(token & 0x00FF_FFFFu32, low, high, seed)?;
        let want: u32 = (m - base + 1) as u32;
        if got != want {
            return Err(describe_mismatch(l, m, got, want));
        }
        proof {
            record_inside(
                l.method_offset as int,
                l.method_count as int,
                l.method_stride as int,
                len as int,
                m as int,
            );
        }
        if METHOD_TOKEN_TABLE | got != token {
            let p: usize = l.method_offset + m * l.method_stride + l.token_offset;
            poke_u32(out, p, METHOD_TOKEN_TABLE | got);
            changed = changed + 1;
        }
        j = j + 1;
    }
    Ok(changed)
}

fn check_interval(l: &Layout, i: usize, low: u32, high: u32, n: usize) -> (r: Option<Error>)
    requires
        low <= high <= 0x00FF_FFFF,
    ensures
        match interval_problem(*l, i as int, low, high, n as int) {
            Some(p) => r is Some && r->Some_0@ == p,
            None => r is None,
        },
{
    if !l.compact && high <= 1 {
        return Some(
            validation_at("image ", i, " is noncanonical but native R > 1 gate would skip it"),
        );
    }
    if (high - low + 1) as usize != n {
        if l.compact {
            return Some(validation_at("v39 image ", i, " RID interval is not a permutation"));
        }
        let mut s: String = "image ".to_owned();
        push_dec(&mut s, i as u64);
        let t: String = say_twice(
            " RID interval ",
            low as u64,
            "..=",
            high as u64,
            " is not a permutation",
        );
        s.append(t.as_str());
        return Some(Error::Validation(s));
    }
    None
}

struct Progress {
    out: Vec<u8>,
    owned: Vec<bool>,
    with_methods: usize,
    visited: usize,
    before: usize,
    after: usize,
    changed: usize,
    transformed: usize,
}

impl Progress {
    spec fn state(self) -> State {
        State {
            out: self.out@,
            owned: self.owned@,
            with_methods: self.with_methods as nat,
            visited: self.visited as nat,
            before: self.before as nat,
            after: self.after as nat,
            changed: self.changed as nat,
            transformed: self.transformed as nat,
        }
    }

    spec fn sound(self, l: Layout, len: int) -> bool {
        &&& self.out@.len() == len
        &&& self.owned@.len() == l.method_count
        &&& self.visited == owned_count(self.owned@)
        &&& self.with_methods <= self.visited
        &&& self.before <= self.visited
        &&& self.after == self.visited
        &&& self.changed <= self.visited
        &&& self.transformed <= self.with_methods
    }
}

fn do_image(data: &[u8], l: &Layout, i: usize, seed: u32, st: &mut Progress) -> (r: Result<(), Error>)
    requires
        l.inside(data@.len() as int),
        i < l.image_count,
        old(st).sound(*l, data@.len() as int),
    ensures
        match image_methods(data@, *l, i as int, old(st).owned@) {
            Err(p) => fails(r, p),
            Ok((owned, found)) => if found.len() == 0 {
                r is Ok && final(st).state() == old(st).state()
            } else {
                match methods_done(data@, *l, i as int, seed, old(st).state(), owned, found) {
                    Err(p) => fails(r, p),
                    Ok(t) => r is Ok && final(st).state() == t,
                }
            },
        },
        r is Ok ==> final(st).sound(*l, data@.len() as int),
{
    let ghost before = st.state();
    let found: Vec<usize> = list_image(data, l, i, &mut st.owned)?;
    let n: usize = found.len();
    if n == 0 {
        proof {
            nothing_claimed(data@, *l, i as int, before.owned);
        }
        return Ok(());
    }
    proof {
        owned_bounds(st.owned@);
    }
    let (base, last): (usize, usize) = ends_of(&found);
    match find_foreign(data, l, &found) {
        Some(e) => {
            return Err(e);
        },
        None => {},
    }
    let x: Numbers = look_at_numbers(data, l, &found, base);
    st.with_methods = st.with_methods + 1;
    st.visited = st.visited + n;
    st.before = st.before + x.good;
    if x.good == n {
        st.after = st.after + n;
        return Ok(());
    }
    match check_interval(l, i, x.low, x.high, n) {
        Some(e) => {
            return Err(e);
        },
        None => {},
    }
    let k: usize = restore_tokens(&mut st.out, data, l, &found, base, x.low, x.high, seed)?;
    assert(numbers(found@).len() == n);
    let ghost done = tokens_restored(
        before.out,
        data@,
        *l,
        numbers(found@),
        x.low,
        x.high,
        seed,
        0,
        before.changed,
    );
    assert(done is Ok);
    st.changed = st.changed + k;
    st.after = st.after + n;
    st.transformed = st.transformed + 1;
    Ok(())
}

proof fn claiming_grows(owned: Seq<bool>, found: Seq<int>, m: int, end: int)
    ensures
        claimed(owned, found, m, end) matches Ok((o, f)) ==> f.len() == found.len() + (if m < end {
            end - m
        } else {
            0
        }),
    decreases end - m,
{
    if m < end && !owned[m] {
        claiming_grows(owned.update(m, true), found.push(m), m + 1, end);
    }
}

proof fn types_claiming_grows(
    s: Seq<u8>,
    l: Layout,
    t: int,
    end: int,
    owned: Seq<bool>,
    found: Seq<int>,
)
    ensures
        types_claimed(s, l, t, end, owned, found) matches Ok((o, f)) ==> f.len() >= found.len() && (
        f.len() == found.len() ==> o == owned),
    decreases end - t,
{
    if t < end {
        match methods_of(s, l, t, true) {
            Ok((a, b)) => {
                claiming_grows(owned, found, a, b);
                match claimed(owned, found, a, b) {
                    Ok((o, f)) => {
                        types_claiming_grows(s, l, t + 1, end, o, f);
                    },
                    Err(_) => {},
                }
            },
            Err(_) => {},
        }
    }
}

proof fn nothing_claimed(s: Seq<u8>, l: Layout, i: int, owned: Seq<bool>)
    ensures
        image_methods(s, l, i, owned) matches Ok((o, f)) ==> (f.len() == 0 ==> o == owned),
{
    match types_of(s, l, i) {
        Ok((a, b)) => {
            types_claiming_grows(s, l, a, b, owned, Seq::empty());
        },
        Err(_) => {},
    }
}

fn has_unowned(v: &Vec<bool>) -> (r: bool)
    ensures
        r == v@.contains(false),
{
    let mut i: usize = 0;
    while i < v.len()
        invariant
            i <= v@.len(),
            forall|k: int| 0 <= k < i ==> v@[k],
        decreases v@.len() - i,
    {
        if !v[i] {
            assert(v@[i as int] == false);
            return true;
        }
        i = i + 1;
    }
    false
}

fn check_coverage(l: &Layout, st: &Progress) -> (r: Option<Error>)
    ensures
        match coverage_problem(*l, st.state()) {
            Some(p) => r is Some && r->Some_0@ == p,
            None => r is None,
        },
{
    if has_unowned(&st.owned) {
        return Some(
            malformed(
                if l.compact {
                    "v39 method definitions are not all owned by an image"
                } else {
                    "one or more method definitions are not owned by an image"
                },
            ),
        );
    }
    if st.visited != l.method_count || st.after != l.method_count {
        let mut s: String = say_twice(
            if l.compact {
                "v39 method coverage mismatch: visited="
            } else {
                "method coverage mismatch: visited="
            },
            st.visited as u64,
            ", correct=",
            st.after as u64,
            ", total=",
        );
        push_dec(&mut s, l.method_count as u64);
        return Some(Error::Validation(s));
    }
    None
}

fn seed_text(seed: u32) -> (r: String)
    ensures
        r@ == "0x"@ + hex_digits(seed as nat, 8),
{
    let mut s: String = "0x".to_owned();
    push_hex_digits(&mut s, seed as u64, 8);
    s
}

/// Restore the method tokens of a metadata file that were enciphered under `seed`.
///
/// An image whose tokens are canonical already is left as it is.
pub fn restore_method_tokens(data: &[u8], seed: u32) -> (r: Result<(Vec<u8>, Report), Error>)
    ensures
        match restored(data@, seed) {
            Ok((l, st)) => r is Ok && r->Ok_0.0@ == st.out && reports(r->Ok_0.1, l, seed, st),
            Err(p) => fails(r, p),
        },
{
    let l: Layout = find_layout(data)?;
    let len: usize = data.len();
    let owned: Vec<bool> = vec![false; l.method_count];
    let out: Vec<u8> = sub_vec(data, 0, len);
    assert(out@ =~= data@);
    assert(owned@ =~= Seq::new(l.method_count as nat, |i: int| false));
    proof {
        none_owned(l.method_count as nat);
    }
    let mut st: Progress = Progress {
        out,
        owned,
        with_methods: 0,
        visited: 0,
        before: 0,
        after: 0,
        changed: 0,
        transformed: 0,
    };
    assert(st.state() == first_state(data@, l));
    let mut i: usize = 0;
    while i < l.image_count
        invariant
            i <= l.image_count,
            l.inside(data@.len() as int),
            st.sound(l, data@.len() as int),
            layout_of(data@) == Ok::<Layout, Problem>(l),
            images_done(data@, l, 0, seed, first_state(data@, l)) == images_done(
                data@,
                l,
                i as int,
                seed,
                st.state(),
            ),
        decreases l.image_count - i,
    {
        do_image(data, &l, i, seed, &mut st)?;
        i = i + 1;
    }
    match check_coverage(&l, &st) {
        Some(e) => {
            return Err(e);
        },
        None => {},
    }
    let report: Report = Report {
        version: l.version,
        seed: seed_text(seed),
        encryption_status: if st.changed == 0 {
            "clean".to_owned()
        } else {
            "encrypted".to_owned()
        },
        images: l.image_count,
        images_with_methods: st.with_methods,
        types: l.type_count,
        methods: l.method_count,
        visited_methods: st.visited,
        already_correct_before: st.before,
        correct_after: st.after,
        changed_tokens: st.changed,
        transformed_images: st.transformed,
    };
    Ok((st.out, report))
}

} // verus!
