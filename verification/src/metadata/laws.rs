//! What restoring a metadata file keeps and what it establishes.

use vstd::prelude::*;

use crate::bytes::{fits, put32};
use crate::metadata::discover::{
    agrees, block_finding, compatible, findings_from, image_finding, key_fits, lists_seeds,
    residues_below, top_modulus, Finding,
};
use crate::metadata::error::Problem;
use crate::metadata::layout::{
    first_type, layout_of, methods_of, record_inside, section_at, sections_of, table_at, token_of,
    types_of, word, Layout,
};
use crate::metadata::restore::{
    canonical, canonical_count, claimed, counted, expected, first_state, foreign_from, gapless,
    high_rid, highest,
    image_methods, images_done, list_claimed, low_rid, lowest, methods_done, restored, rid_of,
    reports, rids_between, tokens_restored, types_claimed, types_listed, Report, State,
    METHOD_TOKEN_TABLE,
};
use crate::metadata::rid::{keyed_rid, plain_rid};

verus! {

/// The tables of a metadata file lie inside it.
pub proof fn layout_is_inside(s: Seq<u8>)
    requires
        layout_of(s) is Ok,
        s.len() <= usize::MAX,
    ensures
        layout_of(s)->Ok_0.inside(s.len() as int),
{
    let l = layout_of(s)->Ok_0;
    if l.compact {
        let x = sections_of(s)->Ok_0;
        assert(x.methods.2 <= 0x1000_0000) by (nonlinear_arith)
            requires
                x.methods.2 * l.method_stride == x.methods.1,
                x.methods.1 <= u32::MAX,
                l.method_stride >= 20,
        ;
    } else {
        let ms = table_at(s, 0x30)->Ok_0.1;
        let stride = l.method_stride as u32;
        assert(l.method_count * l.method_stride == ms) by (nonlinear_arith)
            requires
                l.method_count == ms / stride,
                l.method_stride == stride,
                ms % stride == 0,
                stride > 0,
        ;
        assert(l.method_count <= 0x1000_0000) by (nonlinear_arith)
            requires
                l.method_count == ms / stride,
                stride >= 0x20,
        ;
    }
}

/// Whether byte `i` belongs to the token of a method.
pub open spec fn in_token(l: Layout, i: int) -> bool {
    exists|m: int| 0 <= m < l.method_count && #[trigger] l.slot(m) <= i < l.slot(m) + 4
}

/// Whether two files are alike but for tokens.
pub open spec fn alike_but_tokens(l: Layout, s: Seq<u8>, t: Seq<u8>) -> bool {
    &&& s.len() == t.len()
    &&& forall|i: int| 0 <= i < s.len() && !in_token(l, i) ==> #[trigger] t[i] == s[i]
}

/// The methods that image `i` lists.
pub open spec fn block_of(s: Seq<u8>, l: Layout, i: int) -> Result<Seq<int>, Problem> {
    match types_of(s, l, i) {
        Err(p) => Err(p),
        Ok((a, b)) => types_listed(s, l, a, b, Seq::empty()),
    }
}

/// The token that method `m` of an image whose first is `base` has.
pub open spec fn canonical_token(m: int, base: int) -> u32 {
    METHOD_TOKEN_TABLE | expected(m, base)
}

/// Whether the methods of a list have their tokens, whose numbers fit.
pub open spec fn settled(s: Seq<u8>, l: Layout, found: Seq<int>) -> bool {
    forall|j: int|
        0 <= j < found.len() ==> {
            let base = lowest(found, found.len());
            token_of(s, l, #[trigger] found[j]) == canonical_token(found[j], base) && expected(
                found[j],
                base,
            ) <= 0x00FF_FFFF
        }
}

proof fn counted_facts(found: Seq<int>, m: int, end: int)
    ensures
        counted(found, m, end).len() == found.len() + (if m < end {
            end - m
        } else {
            0
        }),
        forall|j: int| 0 <= j < found.len() ==> counted(found, m, end)[j] == #[trigger] found[j],
        forall|j: int|
            found.len() <= j < counted(found, m, end).len() ==> m <= #[trigger] counted(
                found,
                m,
                end,
            )[j] < end,
    decreases end - m,
{
    if m < end {
        counted_facts(found.push(m), m + 1, end);
        assert forall|j: int| 0 <= j < found.len() implies counted(found, m, end)[j]
            == #[trigger] found[j] by {
            assert(found.push(m)[j] == found[j]);
        }
        assert forall|j: int|
            found.len() <= j < counted(found, m, end).len() implies m <= #[trigger] counted(
            found,
            m,
            end,
        )[j] < end by {
            if j == found.len() {
                assert(found.push(m)[j] == m);
            }
        }
    }
}

/// What meeting the methods behind `from` of a list does to `owned`.
pub open spec fn met(owned: Seq<bool>, o: Seq<bool>, f: Seq<int>, from: int) -> bool {
    &&& o.len() == owned.len()
    &&& forall|k: int| 0 <= k < owned.len() && #[trigger] owned[k] ==> o[k]
    &&& forall|j: int|
        from <= j < f.len() ==> 0 <= #[trigger] f[j] < owned.len() && !owned[f[j]] && o[f[j]]
    &&& forall|j: int, k: int| from <= j < k < f.len() ==> #[trigger] differ(f, j, k)
}

/// Whether two entries of a list differ.
pub open spec fn differ(f: Seq<int>, j: int, k: int) -> bool {
    f[j] != f[k]
}

proof fn claimed_facts(owned: Seq<bool>, found: Seq<int>, m: int, end: int)
    requires
        0 <= m,
        end <= owned.len(),
    ensures
        claimed(owned, found, m, end) matches Ok((o, f)) ==> f == counted(found, m, end) && met(
            owned,
            o,
            f,
            found.len() as int,
        ),
    decreases end - m,
{
    if m < end && !owned[m] {
        claimed_facts(owned.update(m, true), found.push(m), m + 1, end);
        counted_facts(found.push(m), m + 1, end);
        match claimed(owned, found, m, end) {
            Ok((o, f)) => {
                assert forall|k: int| 0 <= k < owned.len() && #[trigger] owned[k] implies o[k] by {
                    assert(owned.update(m, true)[k]);
                }
                assert forall|j: int| found.len() <= j < f.len() implies 0 <= #[trigger] f[j]
                    < owned.len() && !owned[f[j]] && o[f[j]] by {
                    if j == found.len() {
                        assert(found.push(m)[j] == m);
                        assert(f[j] == m);
                        assert(owned.update(m, true)[m]);
                    } else {
                        assert(!owned.update(m, true)[f[j]]);
                    }
                }
                assert forall|j: int, k: int|
                    found.len() <= j < k < f.len() implies #[trigger] differ(f, j, k) by {
                    assert(!owned.update(m, true)[f[k]]);
                    if j == found.len() {
                        assert(found.push(m)[j] == m);
                        assert(f[j] == m);
                    }
                }
            },
            Err(_) => {},
        }
    }
}

proof fn types_claimed_facts(
    s: Seq<u8>,
    l: Layout,
    t: int,
    end: int,
    owned: Seq<bool>,
    found: Seq<int>,
)
    requires
        owned.len() == l.method_count,
    ensures
        types_claimed(s, l, t, end, owned, found) matches Ok((o, f)) ==> types_listed(
            s,
            l,
            t,
            end,
            found,
        ) == Ok::<Seq<int>, Problem>(f) && met(owned, o, f, found.len() as int) && f.len()
            >= found.len() && (forall|j: int|
            0 <= j < found.len() ==> f[j] == #[trigger] found[j]),
    decreases end - t,
{
    if t < end {
        match methods_of(s, l, t, true) {
            Ok((a, b)) => {
                claimed_facts(owned, found, a, b);
                counted_facts(found, a, b);
                match claimed(owned, found, a, b) {
                    Ok((o1, f1)) => {
                        types_claimed_facts(s, l, t + 1, end, o1, f1);
                        match types_claimed(s, l, t, end, owned, found) {
                            Ok((o, f)) => {
                                assert forall|k: int|
                                    0 <= k < owned.len() && #[trigger] owned[k] implies o[k] by {
                                    assert(o1[k]);
                                }
                                assert forall|j: int| found.len() <= j < f.len() implies 0
                                    <= #[trigger] f[j] < owned.len() && !owned[f[j]] && o[f[j]] by {
                                    if j < f1.len() {
                                        assert(f[j] == f1[j]);
                                        assert(o1[f1[j]]);
                                    } else {
                                        assert(!o1[f[j]]);
                                    }
                                }
                                assert forall|j: int| 0 <= j < found.len() implies f[j]
                                    == #[trigger] found[j] by {
                                    assert(f1[j] == found[j]);
                                }
                                assert forall|j: int, k: int|
                                    found.len() <= j < k < f.len() implies #[trigger] differ(
                                    f,
                                    j,
                                    k,
                                ) by {
                                    if k < f1.len() {
                                        assert(differ(f1, j, k));
                                        assert(f[j] == f1[j] && f[k] == f1[k]);
                                    } else if j < f1.len() {
                                        assert(f[j] == f1[j]);
                                        assert(o1[f1[j]]);
                                        assert(!o1[f[k]]);
                                    }
                                }
                            },
                            Err(_) => {},
                        }
                    },
                    Err(_) => {},
                }
            },
            Err(_) => {},
        }
    }
}

proof fn list_claimed_facts(owned: Seq<bool>, found: Seq<int>, j: int)
    requires
        0 <= j,
        forall|k: int| 0 <= k < found.len() ==> 0 <= #[trigger] found[k] < owned.len(),
    ensures
        list_claimed(owned, found, j) matches Ok(o) ==> met(owned, o, found, j),
    decreases found.len() - j,
{
    if j < found.len() && !owned[found[j]] {
        let u = owned.update(found[j], true);
        list_claimed_facts(u, found, j + 1);
        match list_claimed(owned, found, j) {
            Ok(o) => {
                assert forall|k: int| 0 <= k < owned.len() && #[trigger] owned[k] implies o[k] by {
                    assert(u[k]);
                }
                assert forall|k: int| j <= k < found.len() implies 0 <= #[trigger] found[k]
                    < owned.len() && !owned[found[k]] && o[found[k]] by {
                    if k == j {
                        assert(u[found[j]]);
                    } else {
                        assert(!u[found[k]]);
                    }
                }
                assert forall|i: int, k: int| j <= i < k < found.len() implies #[trigger] differ(
                    found,
                    i,
                    k,
                ) by {
                    assert(!u[found[k]]);
                    if i == j {
                        assert(u[found[j]]);
                    }
                }
            },
            Err(_) => {},
        }
    }
}

proof fn listed_inside(s: Seq<u8>, l: Layout, t: int, end: int, found: Seq<int>)
    requires
        forall|j: int| 0 <= j < found.len() ==> 0 <= #[trigger] found[j] < l.method_count,
    ensures
        types_listed(s, l, t, end, found) matches Ok(f) ==> forall|j: int|
            0 <= j < f.len() ==> 0 <= #[trigger] f[j] < l.method_count,
    decreases end - t,
{
    if t < end {
        match methods_of(s, l, t, false) {
            Ok((a, b)) => {
                counted_facts(found, a, b);
                let g = counted(found, a, b);
                assert forall|j: int| 0 <= j < g.len() implies 0 <= #[trigger] g[j]
                    < l.method_count by {
                    if j < found.len() {
                        assert(g[j] == found[j]);
                    }
                }
                listed_inside(s, l, t + 1, end, g);
            },
            Err(_) => {},
        }
    }
}

proof fn image_facts(s: Seq<u8>, l: Layout, i: int, owned: Seq<bool>)
    requires
        owned.len() == l.method_count,
    ensures
        image_methods(s, l, i, owned) matches Ok((o, f)) ==> block_of(s, l, i) == Ok::<
            Seq<int>,
            Problem,
        >(f) && met(owned, o, f, 0) && (f.len() != 0 ==> gapless(f)),
{
    match types_of(s, l, i) {
        Ok((a, b)) => {
            if l.compact {
                listed_inside(s, l, a, b, Seq::empty());
                match types_listed(s, l, a, b, Seq::empty()) {
                    Ok(f) => {
                        list_claimed_facts(owned, f, 0);
                    },
                    Err(_) => {},
                }
            } else {
                types_claimed_facts(s, l, a, b, owned, Seq::empty());
            }
        },
        Err(_) => {},
    }
}

proof fn slots_apart(l: Layout, len: int, a: int, b: int)
    requires
        l.inside(len),
        0 <= a < l.method_count,
        0 <= b < l.method_count,
        a != b,
    ensures
        l.slot(a) + 4 <= l.slot(b) || l.slot(b) + 4 <= l.slot(a),
        0 <= l.slot(a),
        l.slot(a) + 4 <= len,
{
    record_inside(
        l.method_offset as int,
        l.method_count as int,
        l.method_stride as int,
        len,
        a,
    );
    if a < b {
        assert(a * l.method_stride + l.method_stride <= b * l.method_stride) by (nonlinear_arith)
            requires
                0 <= a < b,
                0 <= l.method_stride,
        ;
    } else {
        assert(b * l.method_stride + l.method_stride <= a * l.method_stride) by (nonlinear_arith)
            requires
                0 <= b < a,
                0 <= l.method_stride,
        ;
    }
}

/// Writing the token of one method.
proof fn token_written(out: Seq<u8>, l: Layout, m: int, v: u32)
    requires
        l.inside(out.len() as int),
        0 <= m < l.method_count,
    ensures
        token_of(put32(out, l.slot(m), v), l, m) == v,
        forall|k: int|
            0 <= k < l.method_count && k != m ==> #[trigger] token_of(
                put32(out, l.slot(m), v),
                l,
                k,
            ) == token_of(out, l, k),
        alike_but_tokens(l, out, put32(out, l.slot(m), v)),
{
    record_inside(
        l.method_offset as int,
        l.method_count as int,
        l.method_stride as int,
        out.len() as int,
        m,
    );
    crate::bytes::write_then_read_32(out, l.slot(m), v);
    let t = put32(out, l.slot(m), v);
    assert forall|k: int| 0 <= k < l.method_count && k != m implies #[trigger] token_of(t, l, k)
        == token_of(out, l, k) by {
        slots_apart(l, out.len() as int, k, m);
    }
    assert forall|i: int| 0 <= i < out.len() && !in_token(l, i) implies #[trigger] t[i] == out[i] by {
        assert(!(l.slot(m) <= i < l.slot(m) + 4));
    }
}

proof fn alike_is_transitive(l: Layout, a: Seq<u8>, b: Seq<u8>, c: Seq<u8>)
    requires
        alike_but_tokens(l, a, b),
        alike_but_tokens(l, b, c),
    ensures
        alike_but_tokens(l, a, c),
{
    assert forall|i: int| 0 <= i < a.len() && !in_token(l, i) implies #[trigger] c[i] == a[i] by {
        assert(b[i] == a[i]);
    }
}

/// Whether each method from number `j` on has its token in `out`, or the one that
/// it has in `s`.
spec fn ready(out: Seq<u8>, s: Seq<u8>, l: Layout, found: Seq<int>, j: int) -> bool {
    forall|k: int|
        j <= k < found.len() ==> token_of(out, l, #[trigger] found[k]) == token_of(s, l, found[k])
            || token_of(out, l, found[k]) == canonical_token(
            found[k],
            lowest(found, found.len()),
        )
}

proof fn tokens_restored_facts(
    out: Seq<u8>,
    s: Seq<u8>,
    l: Layout,
    found: Seq<int>,
    low: u32,
    high: u32,
    seed: u32,
    j: int,
    changed: nat,
)
    requires
        l.inside(out.len() as int),
        0 <= j,
        forall|k: int| 0 <= k < found.len() ==> 0 <= #[trigger] found[k] < l.method_count,
        ready(out, s, l, found, j),
        high <= 0x00FF_FFFF,
    ensures
        tokens_restored(out, s, l, found, low, high, seed, j, changed) matches Ok((v, n)) ==> {
            &&& v.len() == out.len()
            &&& alike_but_tokens(l, out, v)
            &&& n >= changed
            &&& n == changed ==> v == out
            &&& forall|k: int|
                j <= k < found.len() ==> token_of(v, l, #[trigger] found[k]) == canonical_token(
                    found[k],
                    lowest(found, found.len()),
                )
            &&& forall|k: int|
                j <= k < found.len() ==> plain_rid(
                    rid_of(s, l, #[trigger] found[k]),
                    low,
                    high,
                    seed,
                ) == Ok::<u32, Problem>(expected(found[k], lowest(found, found.len())))
            &&& forall|m: int|
                0 <= m < l.method_count && !found.contains(m) ==> #[trigger] token_of(v, l, m)
                    == token_of(out, l, m)
            &&& forall|m: int|
                0 <= m < l.method_count && token_of(out, l, m) == canonical_token(
                    m,
                    lowest(found, found.len()),
                ) ==> #[trigger] token_of(v, l, m) == token_of(out, l, m)
        },
    decreases found.len() - j,
{
    if j < found.len() {
        let base = lowest(found, found.len());
        let m = found[j];
        let want = expected(m, base);
        match plain_rid(rid_of(s, l, m), low, high, seed) {
            Ok(got) => {
                if got == want {
                    if METHOD_TOKEN_TABLE | got == token_of(s, l, m) {
                        assert(ready(out, s, l, found, j + 1));
                        tokens_restored_facts(out, s, l, found, low, high, seed, j + 1, changed);
                        match tokens_restored(out, s, l, found, low, high, seed, j, changed) {
                            Ok((v, n)) => {
                                assert(token_of(v, l, m) == canonical_token(m, base));
                            },
                            Err(_) => {},
                        }
                    } else {
                        let t = put32(out, l.slot(m), METHOD_TOKEN_TABLE | got);
                        token_written(out, l, m, METHOD_TOKEN_TABLE | got);
                        assert forall|k: int| j + 1 <= k < found.len() implies token_of(
                            t,
                            l,
                            #[trigger] found[k],
                        ) == token_of(s, l, found[k]) || token_of(t, l, found[k])
                            == canonical_token(found[k], base) by {
                            if found[k] != m {
                                assert(token_of(t, l, found[k]) == token_of(out, l, found[k]));
                            }
                        }
                        tokens_restored_facts(
                            t,
                            s,
                            l,
                            found,
                            low,
                            high,
                            seed,
                            j + 1,
                            changed + 1,
                        );
                        match tokens_restored(out, s, l, found, low, high, seed, j, changed) {
                            Ok((v, n)) => {
                                alike_is_transitive(l, out, t, v);
                                assert(token_of(v, l, m) == token_of(t, l, m));
                                assert forall|k: int|
                                    0 <= k < l.method_count && !found.contains(
                                        k,
                                    ) implies #[trigger] token_of(v, l, k) == token_of(out, l, k) by {
                                    assert(found.contains(m));
                                    assert(token_of(t, l, k) == token_of(out, l, k));
                                }
                                assert forall|k: int|
                                    0 <= k < l.method_count && token_of(out, l, k)
                                        == canonical_token(k, base) implies #[trigger] token_of(
                                    v,
                                    l,
                                    k,
                                ) == token_of(out, l, k) by {
                                    if k != m {
                                        assert(token_of(t, l, k) == token_of(out, l, k));
                                    }
                                }
                            },
                            Err(_) => {},
                        }
                    }
                }
            },
            Err(_) => {},
        }
    }
}

proof fn canonical_parts(e: u32)
    requires
        e <= 0x00FF_FFFF,
    ensures
        (METHOD_TOKEN_TABLE | e) & 0x00FF_FFFFu32 == e,
        (METHOD_TOKEN_TABLE | e) & 0xFF00_0000u32 == METHOD_TOKEN_TABLE,
{
    assert((0x0600_0000u32 | e) & 0x00FF_FFFFu32 == e) by (bit_vector)
        requires
            e <= 0x00FF_FFFFu32,
    ;
    assert((0x0600_0000u32 | e) & 0xFF00_0000u32 == 0x0600_0000u32) by (bit_vector)
        requires
            e <= 0x00FF_FFFFu32,
    ;
}

proof fn token_parts(t: u32)
    requires
        t & 0xFF00_0000u32 == METHOD_TOKEN_TABLE,
    ensures
        t == METHOD_TOKEN_TABLE | (t & 0x00FF_FFFFu32),
        t & 0x00FF_FFFFu32 <= 0x00FF_FFFF,
{
    assert(t & 0xFF00_0000u32 == 0x0600_0000u32 ==> t == 0x0600_0000u32 | (t & 0x00FF_FFFFu32))
        by (bit_vector);
    assert(t & 0x00FF_FFFFu32 <= 0x00FF_FFFF) by (bit_vector);
}

proof fn none_foreign(s: Seq<u8>, l: Layout, found: Seq<int>, j: int)
    requires
        0 <= j,
    ensures
        foreign_from(s, l, found, j) is None <==> forall|k: int|
            j <= k < found.len() ==> token_of(s, l, #[trigger] found[k]) & 0xFF00_0000u32
                == METHOD_TOKEN_TABLE,
    decreases found.len() - j,
{
    if j < found.len() {
        none_foreign(s, l, found, j + 1);
        if token_of(s, l, found[j]) & 0xFF00_0000u32 == METHOD_TOKEN_TABLE {
            assert forall|k: int|
                foreign_from(s, l, found, j + 1) is None && j <= k < found.len() implies token_of(
                s,
                l,
                #[trigger] found[k],
            ) & 0xFF00_0000u32 == METHOD_TOKEN_TABLE by {}
        }
    }
}

proof fn all_canonical(s: Seq<u8>, l: Layout, found: Seq<int>, base: int, n: nat)
    requires
        n <= found.len(),
    ensures
        canonical_count(s, l, found, base, n) <= n,
        canonical_count(s, l, found, base, n) == n <==> forall|k: int|
            0 <= k < n ==> rid_of(s, l, #[trigger] found[k]) == expected(found[k], base),
    decreases n,
{
    if n > 0 {
        all_canonical(s, l, found, base, (n - 1) as nat);
    }
}

/// An image whose tokens are settled passes unchanged.
proof fn settled_passes(
    s: Seq<u8>,
    l: Layout,
    i: int,
    seed: u32,
    st: State,
    owned: Seq<bool>,
    found: Seq<int>,
)
    requires
        found.len() > 0,
        settled(s, l, found),
    ensures
        methods_done(s, l, i, seed, st, owned, found) matches Ok(t) && t.out == st.out && t.owned
            == owned && t.changed == st.changed && t.visited == st.visited + found.len() && t.after
            == st.after + found.len(),
{
    let base = lowest(found, found.len());
    assert forall|k: int| 0 <= k < found.len() implies token_of(s, l, #[trigger] found[k])
        & 0xFF00_0000u32 == METHOD_TOKEN_TABLE && rid_of(s, l, found[k]) == expected(
        found[k],
        base,
    ) by {
        canonical_parts(expected(found[k], base));
    }
    none_foreign(s, l, found, 0);
    all_canonical(s, l, found, base, found.len());
}

/// Whether the numbers of a list of methods are those from one to its length, in
/// some order.
pub open spec fn permuted(s: Seq<u8>, l: Layout, found: Seq<int>) -> bool {
    &&& forall|j: int|
        0 <= j < found.len() ==> 1 <= rid_of(s, l, #[trigger] found[j]) <= found.len()
    &&& forall|j: int, k: int| 0 <= j < k < found.len() ==> #[trigger] rids_differ(s, l, found, j, k)
}

/// Whether two methods of a list have different numbers.
pub open spec fn rids_differ(s: Seq<u8>, l: Layout, found: Seq<int>, j: int, k: int) -> bool {
    rid_of(s, l, found[j]) != rid_of(s, l, found[k])
}

proof fn ends_are_met(v: Seq<int>, n: nat)
    requires
        0 < n <= v.len(),
    ensures
        forall|j: int| 0 <= j < n ==> lowest(v, n) <= #[trigger] v[j] <= highest(v, n),
        exists|j: int| 0 <= j < n && #[trigger] v[j] == lowest(v, n),
        exists|j: int| 0 <= j < n && #[trigger] v[j] == highest(v, n),
    decreases n,
{
    if n > 1 {
        ends_are_met(v, (n - 1) as nat);
        let a = choose|j: int| 0 <= j < n - 1 && #[trigger] v[j] == lowest(v, (n - 1) as nat);
        let b = choose|j: int| 0 <= j < n - 1 && #[trigger] v[j] == highest(v, (n - 1) as nat);
        let lo = if v[n - 1] < v[a] {
            n - 1
        } else {
            a
        };
        let hi = if v[n - 1] > v[b] {
            n - 1
        } else {
            b
        };
        assert(v[lo] == lowest(v, n));
        assert(v[hi] == highest(v, n));
    } else {
        assert(v[0] == lowest(v, n) && v[0] == highest(v, n));
    }
}

proof fn changed_count(
    out: Seq<u8>,
    s: Seq<u8>,
    l: Layout,
    found: Seq<int>,
    low: u32,
    high: u32,
    seed: u32,
    j: int,
    changed: nat,
)
    requires
        0 <= j <= found.len(),
        high <= 0x00FF_FFFF,
        forall|k: int|
            0 <= k < found.len() ==> low <= rid_of(s, l, #[trigger] found[k]) <= high && token_of(
                s,
                l,
                found[k],
            ) & 0xFF00_0000u32 == METHOD_TOKEN_TABLE,
    ensures
        tokens_restored(out, s, l, found, low, high, seed, j, changed) matches Ok((v, c)) ==> c + (
        canonical_count(s, l, found, lowest(found, found.len()), found.len()) - canonical_count(
            s,
            l,
            found,
            lowest(found, found.len()),
            j as nat,
        )) == changed + found.len() - j,
    decreases found.len() - j,
{
    if j < found.len() {
        let m = found[j];
        match plain_rid(rid_of(s, l, m), low, high, seed) {
            Ok(got) => {
                plain_rid_bounds(rid_of(s, l, m), low, high, seed);
                canonical_parts(got);
                token_parts(token_of(s, l, m));
                assert(canonical_count(s, l, found, lowest(found, found.len()), (j + 1) as nat)
                    == canonical_count(s, l, found, lowest(found, found.len()), j as nat) + (
                if canonical(s, l, m, lowest(found, found.len())) {
                    1nat
                } else {
                    0
                }));
                changed_count(out, s, l, found, low, high, seed, j + 1, changed);
                changed_count(
                    put32(out, l.slot(m), METHOD_TOKEN_TABLE | got),
                    s,
                    l,
                    found,
                    low,
                    high,
                    seed,
                    j + 1,
                    changed + 1,
                );
            },
            Err(_) => {},
        }
    }
}

proof fn places_are_counted(l: Layout, found: Seq<int>)
    requires
        found.len() > 0,
        gapless(found),
        l.method_count <= 0x1000_0000,
        forall|k: int| 0 <= k < found.len() ==> 0 <= #[trigger] found[k] < l.method_count,
    ensures
        forall|k: int|
            0 <= k < found.len() ==> {
                let e = expected(#[trigger] found[k], lowest(found, found.len()));
                1 <= e <= found.len() && e == found[k] - lowest(found, found.len()) + 1
            },
        exists|k: int|
            0 <= k < found.len() && expected(#[trigger] found[k], lowest(found, found.len())) == 1,
        exists|k: int|
            0 <= k < found.len() && expected(#[trigger] found[k], lowest(found, found.len()))
                == found.len(),
{
    let n = found.len();
    ends_are_met(found, n);
    let a = choose|j: int| 0 <= j < n && #[trigger] found[j] == lowest(found, n);
    let b = choose|j: int| 0 <= j < n && #[trigger] found[j] == highest(found, n);
    assert(expected(found[a], lowest(found, n)) == 1);
    assert(expected(found[b], lowest(found, n)) == n);
}

/// Whether a number is deciphered to `plain`.
#[verifier::opaque]
spec fn deciphers(rid: u32, low: u32, high: u32, seed: u32, plain: u32) -> bool {
    plain_rid(rid, low, high, seed) == Ok::<u32, Problem>(plain)
}

proof fn deciphered_inside(rid: u32, low: u32, high: u32, seed: u32, plain: u32)
    requires
        low <= rid <= high <= 0x00FF_FFFF,
        deciphers(rid, low, high, seed, plain),
    ensures
        low <= plain <= high,
{
    reveal(deciphers);
    plain_rid_bounds(rid, low, high, seed);
}

proof fn deciphered_alike(rid: u32, low: u32, high: u32, seed: u32, a: u32, b: u32)
    requires
        deciphers(rid, low, high, seed, a),
        deciphers(rid, low, high, seed, b),
    ensures
        a == b,
{
    reveal(deciphers);
}

proof fn deciphered_is_permuted(
    s: Seq<u8>,
    l: Layout,
    found: Seq<int>,
    low: u32,
    high: u32,
    seed: u32,
)
    requires
        found.len() > 0,
        gapless(found),
        l.method_count <= 0x1000_0000,
        forall|k: int| 0 <= k < found.len() ==> 0 <= #[trigger] found[k] < l.method_count,
        forall|j: int, k: int| 0 <= j < k < found.len() ==> #[trigger] differ(found, j, k),
        high <= 0x00FF_FFFF,
        high - low + 1 == found.len(),
        forall|k: int|
            0 <= k < found.len() ==> low <= rid_of(s, l, #[trigger] found[k]) <= high && deciphers(
                rid_of(s, l, found[k]),
                low,
                high,
                seed,
                expected(found[k], lowest(found, found.len())),
            ),
    ensures
        permuted(s, l, found),
{
    let n = found.len();
    let base = lowest(found, n);
    places_are_counted(l, found);
    assert forall|k: int| 0 <= k < n implies low <= expected(#[trigger] found[k], base) <= high by {
        deciphered_inside(rid_of(s, l, found[k]), low, high, seed, expected(found[k], base));
    }
    let a = choose|k: int| 0 <= k < n && expected(#[trigger] found[k], base) == 1;
    let b = choose|k: int| 0 <= k < n && expected(#[trigger] found[k], base) == n;
    assert(low <= expected(found[a], base));
    assert(expected(found[b], base) <= high);
    assert forall|j: int, k: int| 0 <= j < k < n implies #[trigger] rids_differ(
        s,
        l,
        found,
        j,
        k,
    ) by {
        assert(differ(found, j, k));
        let (e, f) = (expected(found[j], base), expected(found[k], base));
        assert(e != f);
        if rid_of(s, l, found[j]) == rid_of(s, l, found[k]) {
            deciphered_alike(rid_of(s, l, found[j]), low, high, seed, e, f);
        }
    }
}

/// The numbers of an image that can be restored are a permutation.
proof fn restorable_is_permuted(
    s: Seq<u8>,
    l: Layout,
    i: int,
    seed: u32,
    st: State,
    owned: Seq<bool>,
    found: Seq<int>,
)
    requires
        holds(s, l, i, st),
        found.len() > 0,
        gapless(found),
        met(st.owned, owned, found, 0),
        methods_done(s, l, i, seed, st, owned, found) is Ok,
    ensures
        permuted(s, l, found),
{
    let n = found.len();
    let base = lowest(found, n);
    assert forall|k: int| 0 <= k < n implies 0 <= #[trigger] found[k] < l.method_count && token_of(
        st.out,
        l,
        found[k],
    ) == token_of(s, l, found[k]) by {
        assert(!st.owned[found[k]]);
    }
    if canonical_count(s, l, found, base, n) == n {
        all_canonical(s, l, found, base, n);
        places_are_counted(l, found);
        assert forall|j: int, k: int| 0 <= j < k < n implies #[trigger] rids_differ(
            s,
            l,
            found,
            j,
            k,
        ) by {
            assert(differ(found, j, k));
        }
    } else {
        rids_between(s, l, found, n);
        let low = low_rid(s, l, found, n);
        let high = high_rid(s, l, found, n);
        assert(ready(st.out, s, l, found, 0));
        tokens_restored_facts(st.out, s, l, found, low, high, seed, 0, st.changed);
        assert forall|k: int| 0 <= k < n implies low <= rid_of(s, l, #[trigger] found[k]) <= high
            && deciphers(rid_of(s, l, found[k]), low, high, seed, expected(found[k], base)) by {
            reveal(deciphers);
        }
        deciphered_is_permuted(s, l, found, low, high, seed);
    }
}

/// What holds between two images: nothing but tokens has changed, the tokens of
/// methods not met yet are as they were, every image done is settled, and the
/// counts add up.
spec fn holds(s: Seq<u8>, l: Layout, i: int, st: State) -> bool {
    &&& l.inside(s.len() as int)
    &&& alike_but_tokens(l, s, st.out)
    &&& st.owned.len() == l.method_count
    &&& st.changed == 0 ==> st.out == s
    &&& st.visited == st.after
    &&& st.visited == st.before + st.changed
    &&& st.changed == 0 <==> st.transformed == 0
    &&& forall|m: int|
        0 <= m < l.method_count && !st.owned[m] ==> #[trigger] token_of(st.out, l, m) == token_of(
            s,
            l,
            m,
        )
    &&& forall|k: int| 0 <= k < i ==> #[trigger] image_settled(s, l, k, st)
}

/// Whether the methods of image `i` have been met and are settled.
spec fn image_settled(s: Seq<u8>, l: Layout, i: int, st: State) -> bool {
    block_of(s, l, i) matches Ok(f) && settled(st.out, l, f) && permuted(s, l, f) && (forall|j: int|
        0 <= j < f.len() ==> 0 <= #[trigger] f[j] < l.method_count && st.owned[f[j]])
}

proof fn methods_done_facts(
    s: Seq<u8>,
    l: Layout,
    i: int,
    seed: u32,
    st: State,
    owned: Seq<bool>,
    found: Seq<int>,
)
    requires
        holds(s, l, i, st),
        found.len() > 0,
        gapless(found),
        met(st.owned, owned, found, 0),
        block_of(s, l, i) == Ok::<Seq<int>, Problem>(found),
    ensures
        methods_done(s, l, i, seed, st, owned, found) matches Ok(t) ==> holds(s, l, i + 1, t)
            && t.changed >= st.changed,
{
    let n = found.len();
    let base = lowest(found, n);
    match methods_done(s, l, i, seed, st, owned, found) {
        Ok(t) => {
            restorable_is_permuted(s, l, i, seed, st, owned, found);
            none_foreign(s, l, found, 0);
            all_canonical(s, l, found, base, n);
            assert forall|k: int| 0 <= k < n implies 0 <= #[trigger] found[k] < l.method_count by {}
            if canonical_count(s, l, found, base, n) == n {
                assert forall|k: int| 0 <= k < n implies token_of(t.out, l, #[trigger] found[k])
                    == canonical_token(found[k], base) && expected(found[k], base) <= 0x00FF_FFFF by {
                    assert(!st.owned[found[k]]);
                    assert(token_of(st.out, l, found[k]) == token_of(s, l, found[k]));
                    token_parts(token_of(s, l, found[k]));
                }
                assert(settled(t.out, l, found));
                assert forall|k: int| 0 <= k < i implies #[trigger] image_settled(s, l, k, t) by {
                    assert(image_settled(s, l, k, st));
                    let f = block_of(s, l, k)->Ok_0;
                    assert forall|j: int| 0 <= j < f.len() implies 0 <= #[trigger] f[j]
                        < l.method_count && t.owned[f[j]] by {
                        assert(st.owned[f[j]]);
                    }
                }
            } else {
                rids_between(s, l, found, n);
                let low = low_rid(s, l, found, n);
                let high = high_rid(s, l, found, n);
                assert forall|k: int| 0 <= k < n implies token_of(st.out, l, #[trigger] found[k])
                    == token_of(s, l, found[k]) by {
                    assert(!st.owned[found[k]]);
                }
                assert(ready(st.out, s, l, found, 0));
                tokens_restored_facts(
                    st.out,
                    s,
                    l,
                    found,
                    low,
                    high,
                    seed,
                    0,
                    st.changed,
                );
                changed_count(st.out, s, l, found, low, high, seed, 0, st.changed);
                alike_is_transitive(l, s, st.out, t.out);
                assert forall|k: int| 0 <= k < n implies token_of(t.out, l, #[trigger] found[k])
                    == canonical_token(found[k], base) && expected(found[k], base) <= 0x00FF_FFFF by {
                    plain_rid_bounds(rid_of(s, l, found[k]), low, high, seed);
                }
                assert(settled(t.out, l, found));
                assert forall|k: int| 0 <= k < i implies #[trigger] image_settled(s, l, k, t) by {
                    assert(image_settled(s, l, k, st));
                    let f = block_of(s, l, k)->Ok_0;
                    assert forall|j: int| 0 <= j < f.len() implies 0 <= #[trigger] f[j]
                        < l.method_count && t.owned[f[j]] && token_of(t.out, l, f[j]) == token_of(
                        st.out,
                        l,
                        f[j],
                    ) by {
                        assert(st.owned[f[j]]);
                        assert(!found.contains(f[j])) by {
                            if found.contains(f[j]) {
                                let x = choose|x: int| 0 <= x < found.len() && found[x] == f[j];
                                assert(!st.owned[found[x]]);
                            }
                        }
                    }
                }
                assert forall|m: int| 0 <= m < l.method_count && !t.owned[m] implies #[trigger]
                token_of(t.out, l, m) == token_of(s, l, m) by {
                    assert(!found.contains(m)) by {
                        if found.contains(m) {
                            let x = choose|x: int| 0 <= x < found.len() && found[x] == m;
                            assert(owned[found[x]]);
                        }
                    }
                    assert(!st.owned[m]);
                }
            }
            assert(image_settled(s, l, i, t)) by {
                assert forall|j: int| 0 <= j < found.len() implies 0 <= #[trigger] found[j]
                    < l.method_count && t.owned[found[j]] by {
                    assert(owned[found[j]]);
                }
            }
        },
        Err(_) => {},
    }
}

proof fn plain_rid_bounds(rid: u32, low: u32, high: u32, seed: u32)
    requires
        low <= rid <= high <= 0x00FF_FFFF,
    ensures
        plain_rid(rid, low, high, seed) matches Ok(v) ==> low <= v <= high,
{
    let count = (high + 1 - low) as u32;
    if count >= 2 {
        let key = (seed % (count / 2) + count / 4) as u32;
        assert(seed % (count / 2) < count / 2);
        crate::metadata::rid::unrounds_bounds((rid - low) as u32, count, key, 5);
    }
}

proof fn images_done_facts(s: Seq<u8>, l: Layout, i: int, seed: u32, st: State)
    requires
        holds(s, l, i, st),
        0 <= i <= l.image_count,
    ensures
        images_done(s, l, i, seed, st) matches Ok(t) ==> holds(s, l, l.image_count as int, t),
    decreases l.image_count - i,
{
    if i < l.image_count {
        image_facts(s, l, i, st.owned);
        match image_methods(s, l, i, st.owned) {
            Ok((owned, found)) => {
                if found.len() == 0 {
                    assert(settled(st.out, l, found));
                    assert(image_settled(s, l, i, st));
                    images_done_facts(s, l, i + 1, seed, st);
                } else {
                    methods_done_facts(s, l, i, seed, st, owned, found);
                    match methods_done(s, l, i, seed, st, owned, found) {
                        Ok(t) => {
                            images_done_facts(s, l, i + 1, seed, t);
                        },
                        Err(_) => {},
                    }
                }
            },
            Err(_) => {},
        }
    }
}

proof fn restored_holds(s: Seq<u8>, seed: u32)
    requires
        s.len() <= usize::MAX,
    ensures
        restored(s, seed) matches Ok((l, st)) ==> holds(s, l, l.image_count as int, st),
{
    match restored(s, seed) {
        Ok((l, st)) => {
            layout_is_inside(s);
            images_done_facts(s, l, 0, seed, first_state(s, l));
        },
        Err(_) => {},
    }
}

/// Restoring keeps a file's length and every byte that is not part of a token.
pub proof fn only_tokens_change(s: Seq<u8>, seed: u32)
    requires
        s.len() <= usize::MAX,
    ensures
        restored(s, seed) matches Ok((l, st)) ==> alike_but_tokens(l, s, st.out),
{
    restored_holds(s, seed);
}

/// Where no token changes, the file comes back as it is.
pub proof fn clean_file_comes_back(s: Seq<u8>, seed: u32)
    requires
        s.len() <= usize::MAX,
    ensures
        restored(s, seed) matches Ok((l, st)) ==> (st.changed == 0 ==> st.out == s),
{
    restored_holds(s, seed);
}

/// After restoring, every method of every image has the token of its place in the
/// image.
pub proof fn tokens_become_canonical(s: Seq<u8>, seed: u32, i: int)
    requires
        s.len() <= usize::MAX,
    ensures
        restored(s, seed) matches Ok((l, st)) ==> (0 <= i < l.image_count ==> (block_of(
            s,
            l,
            i,
        ) matches Ok(f) && settled(st.out, l, f))),
{
    restored_holds(s, seed);
    match restored(s, seed) {
        Ok((l, st)) => {
            if 0 <= i < l.image_count {
                assert(image_settled(s, l, i, st));
            }
        },
        Err(_) => {},
    }
}

/// A file can be restored only if the numbers of each image's methods are a
/// permutation of those from one to their count.
pub proof fn numbers_were_permuted(s: Seq<u8>, seed: u32, i: int)
    requires
        s.len() <= usize::MAX,
    ensures
        restored(s, seed) matches Ok((l, st)) ==> (0 <= i < l.image_count ==> (block_of(
            s,
            l,
            i,
        ) matches Ok(f) && permuted(s, l, f))),
{
    restored_holds(s, seed);
    match restored(s, seed) {
        Ok((l, st)) => {
            if 0 <= i < l.image_count {
                assert(image_settled(s, l, i, st));
            }
        },
        Err(_) => {},
    }
}

proof fn counts_add_up(s: Seq<u8>, seed: u32)
    requires
        s.len() <= usize::MAX,
    ensures
        restored(s, seed) matches Ok((l, st)) ==> {
            &&& st.visited == l.method_count
            &&& st.after == l.method_count
            &&& st.before + st.changed == l.method_count
            &&& st.changed == 0 <==> st.transformed == 0
        },
{
    restored_holds(s, seed);
}

proof fn statuses_differ()
    ensures
        "clean"@ != "encrypted"@,
{
    reveal_strlit("clean");
    reveal_strlit("encrypted");
    assert("clean"@.len() == 5);
    assert("encrypted"@.len() == 9);
}

/// A report adds up: every method is visited and has its token afterwards, having
/// had it before or having changed. A file is clean if no token changes, which is
/// the case if no image is transformed.
pub proof fn report_adds_up(s: Seq<u8>, seed: u32, r: Report)
    requires
        s.len() <= usize::MAX,
        restored(s, seed) matches Ok((l, st)) && reports(r, l, seed, st),
    ensures
        r.methods == r.visited_methods,
        r.methods == r.correct_after,
        r.methods == r.already_correct_before + r.changed_tokens,
        r.encryption_status@ == "clean"@ <==> r.changed_tokens == 0,
        r.transformed_images == 0 <==> r.changed_tokens == 0,
{
    counts_add_up(s, seed);
    statuses_differ();
}

/// Whether no token lies in the bytes `a..b`.
pub open spec fn free_of_tokens(l: Layout, a: int, b: int) -> bool {
    forall|i: int| a <= i < b ==> !#[trigger] in_token(l, i)
}

/// Whether the tokens lie apart from the header, the types and the images.
pub open spec fn tokens_apart(l: Layout) -> bool {
    &&& free_of_tokens(l, 0, 260)
    &&& free_of_tokens(l, l.type_offset as int, l.type_offset + l.type_count * l.type_stride)
    &&& free_of_tokens(l, l.image_offset as int, l.image_offset + l.image_count * l.image_stride)
}

proof fn same_layout(s: Seq<u8>, t: Seq<u8>, l: Layout)
    requires
        alike_but_tokens(l, s, t),
        free_of_tokens(l, 0, 260),
    ensures
        layout_of(t) == layout_of(s),
{
    assert forall|h: int| 0 <= h <= 256 implies #[trigger] word(t, h) == word(s, h) by {
        if fits(s, h, 4) {
            assert(!in_token(l, h) && !in_token(l, h + 1) && !in_token(l, h + 2) && !in_token(
                l,
                h + 3,
            ));
            assert(t[h] == s[h] && t[h + 1] == s[h + 1] && t[h + 2] == s[h + 2] && t[h + 3]
                == s[h + 3]);
        }
    }
    assert(word(t, 0) == word(s, 0));
    assert(table_at(t, 0x30) == table_at(s, 0x30));
    assert(table_at(t, 0xA0) == table_at(s, 0xA0));
    assert(table_at(t, 0xA8) == table_at(s, 0xA8));
    assert(section_at(t, 5) == section_at(s, 5));
    assert(section_at(t, 10) == section_at(s, 10));
    assert(section_at(t, 14) == section_at(s, 14));
    assert(section_at(t, 18) == section_at(s, 18));
    assert(section_at(t, 19) == section_at(s, 19));
    assert(section_at(t, 20) == section_at(s, 20));
    assert(sections_of(t) == sections_of(s));
}

proof fn same_types(s: Seq<u8>, t: Seq<u8>, l: Layout, i: int)
    requires
        alike_but_tokens(l, s, t),
        l.inside(s.len() as int),
        tokens_apart(l),
        0 <= i < l.image_count,
    ensures
        types_of(t, l, i) == types_of(s, l, i),
{
    record_inside(
        l.image_offset as int,
        l.image_count as int,
        l.image_stride as int,
        s.len() as int,
        i,
    );
    let p = l.image_at(i);
    assert forall|k: int| p <= k < p + l.image_stride implies #[trigger] t[k] == s[k] by {
        assert(!in_token(l, k));
    }
    assert(first_type(t, l, i) == first_type(s, l, i));
}

proof fn same_methods(s: Seq<u8>, t: Seq<u8>, l: Layout, k: int, loud: bool)
    requires
        alike_but_tokens(l, s, t),
        l.inside(s.len() as int),
        tokens_apart(l),
        0 <= k < l.type_count,
    ensures
        methods_of(t, l, k, loud) == methods_of(s, l, k, loud),
{
    record_inside(
        l.type_offset as int,
        l.type_count as int,
        l.type_stride as int,
        s.len() as int,
        k,
    );
    let p = l.type_at(k);
    assert forall|x: int| p <= x < p + l.type_stride implies #[trigger] t[x] == s[x] by {
        assert(!in_token(l, x));
    }
}

proof fn same_claims(
    s: Seq<u8>,
    t: Seq<u8>,
    l: Layout,
    k: int,
    end: int,
    owned: Seq<bool>,
    found: Seq<int>,
)
    requires
        alike_but_tokens(l, s, t),
        l.inside(s.len() as int),
        tokens_apart(l),
        0 <= k,
        end <= l.type_count,
    ensures
        types_claimed(t, l, k, end, owned, found) == types_claimed(s, l, k, end, owned, found),
    decreases end - k,
{
    if k < end {
        same_methods(s, t, l, k, true);
        match methods_of(s, l, k, true) {
            Ok((a, b)) => match claimed(owned, found, a, b) {
                Ok((o, f)) => {
                    same_claims(s, t, l, k + 1, end, o, f);
                },
                Err(_) => {},
            },
            Err(_) => {},
        }
    }
}

proof fn same_lists(s: Seq<u8>, t: Seq<u8>, l: Layout, k: int, end: int, found: Seq<int>)
    requires
        alike_but_tokens(l, s, t),
        l.inside(s.len() as int),
        tokens_apart(l),
        0 <= k,
        end <= l.type_count,
    ensures
        types_listed(t, l, k, end, found) == types_listed(s, l, k, end, found),
    decreases end - k,
{
    if k < end {
        same_methods(s, t, l, k, false);
        match methods_of(s, l, k, false) {
            Ok((a, b)) => {
                same_lists(s, t, l, k + 1, end, counted(found, a, b));
            },
            Err(_) => {},
        }
    }
}

proof fn same_image(s: Seq<u8>, t: Seq<u8>, l: Layout, i: int, owned: Seq<bool>)
    requires
        alike_but_tokens(l, s, t),
        l.inside(s.len() as int),
        tokens_apart(l),
        0 <= i < l.image_count,
    ensures
        image_methods(t, l, i, owned) == image_methods(s, l, i, owned),
{
    same_types(s, t, l, i);
    match types_of(s, l, i) {
        Ok((a, b)) => {
            assert(0 <= a);
            same_claims(s, t, l, a, b, owned, Seq::empty());
            same_lists(s, t, l, a, b, Seq::empty());
        },
        Err(_) => {},
    }
}

/// A second run over a settled file ends as the first, without a change.
proof fn second_run(
    s: Seq<u8>,
    t: Seq<u8>,
    l: Layout,
    i: int,
    seed: u32,
    again: u32,
    st: State,
    st2: State,
)
    requires
        alike_but_tokens(l, s, t),
        l.inside(s.len() as int),
        tokens_apart(l),
        0 <= i <= l.image_count,
        st.owned.len() == l.method_count,
        st2.owned == st.owned,
        st2.visited == st.visited,
        st2.after == st.after,
        st2.out == t,
        st2.changed == 0,
        images_done(s, l, i, seed, st) is Ok,
        forall|k: int|
            i <= k < l.image_count ==> (#[trigger] block_of(s, l, k) matches Ok(f) && settled(
                t,
                l,
                f,
            )),
    ensures
        images_done(t, l, i, again, st2) matches Ok(e) && e.out == t && e.changed == 0 && e.owned
            == images_done(s, l, i, seed, st)->Ok_0.owned && e.visited == images_done(
            s,
            l,
            i,
            seed,
            st,
        )->Ok_0.visited && e.after == images_done(s, l, i, seed, st)->Ok_0.after,
    decreases l.image_count - i,
{
    if i < l.image_count {
        same_image(s, t, l, i, st.owned);
        image_facts(s, l, i, st.owned);
        match image_methods(s, l, i, st.owned) {
            Ok((owned, found)) => {
                assert(block_of(s, l, i) == Ok::<Seq<int>, Problem>(found));
                if found.len() == 0 {
                    second_run(s, t, l, i + 1, seed, again, st, st2);
                } else {
                    settled_passes(t, l, i, again, st2, owned, found);
                    let u = methods_done(s, l, i, seed, st, owned, found)->Ok_0;
                    let u2 = methods_done(t, l, i, again, st2, owned, found)->Ok_0;
                    assert(u.owned == owned);
                    second_run(s, t, l, i + 1, seed, again, u, u2);
                }
            },
            Err(_) => {},
        }
    }
}

/// Restoring a restored file, under any seed, changes nothing and transforms no
/// image, if its tokens lie apart from its other tables.
pub proof fn restoring_again_changes_nothing(s: Seq<u8>, seed: u32, again: u32)
    requires
        s.len() <= usize::MAX,
        restored(s, seed) is Ok,
        tokens_apart(restored(s, seed)->Ok_0.0),
    ensures
        ({
            let (l, st) = restored(s, seed)->Ok_0;
            restored(st.out, again) matches Ok((k, e)) && k == l && e.out == st.out && e.changed
                == 0 && e.transformed == 0
        }),
{
    let (l, st) = restored(s, seed)->Ok_0;
    let t = st.out;
    layout_is_inside(s);
    restored_holds(s, seed);
    same_layout(s, t, l);
    assert forall|k: int| 0 <= k < l.image_count implies (#[trigger] block_of(s, l, k) matches Ok(
        f,
    ) && settled(t, l, f)) by {
        assert(image_settled(s, l, k, st));
    }
    second_run(s, t, l, 0, seed, again, first_state(s, l), first_state(t, l));
    restored_holds(t, again);
}

proof fn fitting_residue_is_listed(
    s: Seq<u8>,
    l: Layout,
    found: Seq<int>,
    low: u32,
    high: u32,
    n: nat,
    d: u32,
)
    requires
        d < n <= u32::MAX,
        key_fits(s, l, found, low, high, (found.len() / 4 + d) as u32),
    ensures
        residues_below(s, l, found, low, high, n).contains(d),
    decreases n,
{
    let r = residues_below(s, l, found, low, high, (n - 1) as nat);
    let all = residues_below(s, l, found, low, high, n);
    if d == n - 1 {
        assert(all[r.len() as int] == d);
    } else {
        fitting_residue_is_listed(s, l, found, low, high, (n - 1) as nat, d);
        let i = choose|i: int| 0 <= i < r.len() && r[i] == d;
        assert(all[i] == d);
    }
}

proof fn restored_image_agrees(
    s: Seq<u8>,
    l: Layout,
    i: int,
    seed: u32,
    st: State,
    owned: Seq<bool>,
    found: Seq<int>,
)
    requires
        holds(s, l, i, st),
        found.len() > 0,
        gapless(found),
        met(st.owned, owned, found, 0),
        methods_done(s, l, i, seed, st, owned, found) is Ok,
    ensures
        block_finding(s, l, i, found) matches Ok(f) && agrees(f, seed) && (f.clean <==> methods_done(
            s,
            l,
            i,
            seed,
            st,
            owned,
            found,
        )->Ok_0.transformed == st.transformed),
{
    let n = found.len();
    let base = lowest(found, n);
    if canonical_count(s, l, found, base, n) != n {
        rids_between(s, l, found, n);
        let low = low_rid(s, l, found, n);
        let high = high_rid(s, l, found, n);
        assert forall|k: int| 0 <= k < n implies token_of(st.out, l, #[trigger] found[k])
            == token_of(s, l, found[k]) && 0 <= found[k] < l.method_count by {
            assert(!st.owned[found[k]]);
        }
        assert(ready(st.out, s, l, found, 0));
        tokens_restored_facts(st.out, s, l, found, low, high, seed, 0, st.changed);
        assert(plain_rid(rid_of(s, l, found[0]), low, high, seed) is Ok);
        assert(n >= 2);
        let half = (n / 2) as u32;
        let d = (seed % half) as u32;
        assert(d < half);
        let key = (n / 4 + d) as u32;
        assert forall|j: int| 0 <= j < n implies keyed_rid(
            rid_of(s, l, #[trigger] found[j]),
            low,
            high,
            key,
        ) == expected(found[j], base) by {
            assert(plain_rid(rid_of(s, l, found[j]), low, high, seed) == Ok::<u32, Problem>(
                expected(found[j], base),
            ));
        }
        assert(key_fits(s, l, found, low, high, key));
        fitting_residue_is_listed(s, l, found, low, high, n / 2, d);
    }
}

/// Whether an image is enciphered.
pub open spec fn any_enciphered(fs: Seq<Finding>) -> bool {
    exists|k: int| 0 <= k < fs.len() && !(#[trigger] fs[k]).clean
}

proof fn one_more_finding(done: Seq<Finding>, f: Finding, seed: u32)
    requires
        compatible(done, seed),
        agrees(f, seed),
    ensures
        compatible(done.push(f), seed),
        any_enciphered(done.push(f)) <==> any_enciphered(done) || !f.clean,
{
    let next = done.push(f);
    if any_enciphered(done) {
        let k = choose|k: int| 0 <= k < done.len() && !(#[trigger] done[k]).clean;
        assert(next[k] == done[k]);
    }
    assert(next[done.len() as int] == f);
    if any_enciphered(next) && f.clean {
        let k = choose|k: int| 0 <= k < next.len() && !(#[trigger] next[k]).clean;
        assert(done[k] == next[k]);
    }
}

#[verifier::spinoff_prover]
#[verifier::rlimit(30)]
proof fn restored_images_agree(
    s: Seq<u8>,
    l: Layout,
    i: int,
    seed: u32,
    st: State,
    done: Seq<Finding>,
)
    requires
        holds(s, l, i, st),
        0 <= i <= l.image_count,
        images_done(s, l, i, seed, st) is Ok,
        compatible(done, seed),
        any_enciphered(done) <==> st.transformed > 0,
    ensures
        findings_from(s, l, i, done) matches Ok(fs) && compatible(fs, seed) && (any_enciphered(fs)
            <==> images_done(s, l, i, seed, st)->Ok_0.transformed > 0),
    decreases l.image_count - i,
{
    if i < l.image_count {
        image_facts(s, l, i, st.owned);
        let (owned, found) = image_methods(s, l, i, st.owned)->Ok_0;
        assert(block_of(s, l, i) == Ok::<Seq<int>, Problem>(found));
        if found.len() > 0 {
            restored_image_agrees(s, l, i, seed, st, owned, found);
        }
        let f = image_finding(s, l, i)->Ok_0;
        let next = done.push(f);
        one_more_finding(done, f, seed);
        if found.len() == 0 {
            assert(settled(st.out, l, found));
            assert(image_settled(s, l, i, st));
            restored_images_agree(s, l, i + 1, seed, st, next);
        } else {
            methods_done_facts(s, l, i, seed, st, owned, found);
            let t = methods_done(s, l, i, seed, st, owned, found)->Ok_0;
            restored_images_agree(s, l, i + 1, seed, t, next);
        }
    }
}

proof fn enciphered_has_a_modulus(fs: Seq<Finding>, seed: u32, k: int, n: nat)
    requires
        0 <= k < n <= fs.len(),
        !fs[k].clean,
        agrees(fs[k], seed),
    ensures
        top_modulus(fs, n) > 0,
    decreases n,
{
    if k < n - 1 {
        enciphered_has_a_modulus(fs, seed, k, (n - 1) as nat);
    }
}

/// A seed that restores a file is discovered in it: discovery succeeds, and the
/// seed agrees with all that it finds. Where the seed changes tokens it is among
/// the seeds listed, in a file of version 29 or 31 always, in one of version 39
/// if an image is large enough to list seeds at all.
pub proof fn restoring_seed_is_discovered(s: Seq<u8>, seed: u32)
    requires
        s.len() <= usize::MAX,
        restored(s, seed) is Ok,
    ensures
        ({
            let (l, st) = restored(s, seed)->Ok_0;
            findings_from(s, l, 0, Seq::empty()) matches Ok(fs) && compatible(fs, seed) && (
            st.changed > 0 && (l.version == 29 || l.version == 31 || top_modulus(fs, fs.len())
                >= 1024) ==> forall|v: Seq<u32>| #[trigger]
                lists_seeds(fs, l.compact, v) ==> v.contains(seed))
        }),
{
    let (l, st) = restored(s, seed)->Ok_0;
    layout_is_inside(s);
    restored_images_agree(s, l, 0, seed, first_state(s, l), Seq::empty());
    counts_add_up(s, seed);
    let fs = findings_from(s, l, 0, Seq::empty())->Ok_0;
    if st.changed > 0 {
        let k = choose|k: int| 0 <= k < fs.len() && !(#[trigger] fs[k]).clean;
        enciphered_has_a_modulus(fs, seed, k, fs.len());
    }
}

} // verus!
