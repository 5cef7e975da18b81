//! That moved imports say what they said.

use vstd::prelude::*;

use crate::bytes::{le16, le32, overlay, put16, put32, write_then_read_16, write_then_read_32, zeroed};
use crate::pe::output32::{
    desc_built, descs_built, descs_moved, func_names_end, funcs_built, lookup_end, move_described,
    moved_rva, names_end, room_made, section_title, Desc, Func, SECTION_SIZE,
};
use crate::pe::steps::pasted;

verus! {

/// Whether a string and its zero byte stand at `o`.
pub open spec fn string_stands(s: Seq<u8>, o: int, v: Seq<u8>) -> bool {
    &&& 0 <= o
    &&& o + v.len() < s.len()
    &&& forall|k: int| 0 <= k < v.len() ==> #[trigger] s[o + k] == v[k]
    &&& s[o + v.len()] == 0
}

/// Whether a thunk names a function: its ordinal behind the top bit, or where its hint and
/// its name stand.
pub open spec fn thunk_names(s: Seq<u8>, v: u32, f: Func) -> bool {
    match f {
        Func::Ordinal(o) => v == 0x8000_0000u32 | o,
        Func::Name(h, n) => le16(s, v as int) == h && string_stands(s, v + 2, n),
    }
}

/// Whether the thunks from `oft` on name the functions from `j` on, with a zero behind them.
pub open spec fn table_names(s: Seq<u8>, oft: int, fs: Seq<Func>, j: int) -> bool {
    &&& le32(s, oft + 4 * (fs.len() - j)) == 0
    &&& forall|k: int|
        j <= k < fs.len() ==> thunk_names(s, le32(s, #[trigger] place_of(oft, k - j)), fs[k])
}

/// Where thunk `k` of a table stands.
pub open spec fn place_of(oft: int, k: int) -> int {
    oft + 4 * k
}

/// How many bytes the name of a function takes, with its hint and zero byte.
pub open spec fn func_room(f: Func) -> int {
    match f {
        Func::Ordinal(_) => 0,
        Func::Name(_, n) => n.len() as int + 3,
    }
}

/// How many bytes the names of the functions from `j` on take.
pub open spec fn funcs_room(fs: Seq<Func>, j: int) -> int
    decreases fs.len() - j,
{
    if j >= fs.len() {
        0
    } else {
        func_room(fs[j]) + funcs_room(fs, j + 1)
    }
}

proof fn funcs_room_is_room(fs: Seq<Func>, j: int)
    ensures
        funcs_room(fs, j) >= 0,
    decreases fs.len() - j,
{
    if j < fs.len() {
        funcs_room_is_room(fs, j + 1);
    }
}

proof fn thunk_stays(s: Seq<u8>, t: Seq<u8>, v: u32, f: Func)
    requires
        thunk_names(s, v, f),
        s.len() == t.len(),
        forall|a: int| v <= a < v + func_room(f) ==> #[trigger] t[a] == s[a],
    ensures
        thunk_names(t, v, f),
{
    match f {
        Func::Ordinal(o) => {},
        Func::Name(h, n) => {
            assert(t[v as int] == s[v as int] && t[v + 1] == s[v + 1]);
            assert forall|k: int| 0 <= k < n.len() implies #[trigger] t[v + 2 + k] == n[k] by {
                assert(t[v + 2 + k] == s[v + 2 + k]);
            }
            assert(t[v + 2 + n.len()] == s[v + 2 + n.len()]);
        },
    }
}

/// Whether `t` is `s` outside of two ranges.
pub open spec fn same_but(t: Seq<u8>, s: Seq<u8>, a0: int, a1: int, b0: int, b1: int) -> bool {
    &&& t.len() == s.len()
    &&& forall|a: int|
        0 <= a < s.len() && !(a0 <= a < a1) && !(b0 <= a < b1) ==> #[trigger] t[a] == s[a]
}

proof fn one_func_is_built(s: Seq<u8>, f: Func, oft: u32, name: u32) -> (t: Seq<u8>)
    requires
        oft + 4 <= name,
        name + func_room(f) <= s.len() <= u32::MAX,
        oft + 4 <= s.len(),
        f is Name ==> name + 3 <= s.len(),
    ensures
        same_but(t, s, oft as int, oft + 4, name as int, name + func_room(f)),
        thunk_names(t, le32(t, oft as int), f),
        f is Name ==> le32(t, oft as int) == name,
        f matches Func::Ordinal(o) ==> t == put32(s, oft as int, 0x8000_0000u32 | o),
        f matches Func::Name(h, n) ==> pasted(
            put16(put32(s, oft as int, name), name as int, h),
            name + 2,
            n.push(0),
            0,
            n.len() as int + 1,
        ) == Ok::<Seq<u8>, crate::error::UnpackError>(t),
{
    match f {
        Func::Ordinal(o) => {
            write_then_read_32(s, oft as int, 0x8000_0000u32 | o);
            put32(s, oft as int, 0x8000_0000u32 | o)
        },
        Func::Name(h, n) => {
            write_then_read_32(s, oft as int, name);
            let a = put32(s, oft as int, name);
            write_then_read_16(a, name as int, h);
            let b = put16(a, name as int, h);
            let text = n.push(0).subrange(0, n.len() as int + 1);
            let t = overlay(b, name + 2, text);
            assert(le32(t, oft as int) == le32(a, oft as int));
            assert(le16(t, name as int) == le16(b, name as int));
            assert forall|k: int| 0 <= k < n.len() implies #[trigger] t[name + 2 + k] == n[k] by {
                assert(text[k] == n[k]);
            }
            assert(t[name + 2 + n.len()] == text[n.len() as int]);
            t
        },
    }
}

proof fn funcs_are_built(s: Seq<u8>, fs: Seq<Func>, j: int, oft: u32, name: u32)
    requires
        0 <= j <= fs.len(),
        oft + 4 * (fs.len() - j + 1) <= name,
        name + funcs_room(fs, j) <= s.len() <= u32::MAX,
    ensures
        funcs_built(s, fs, j, oft, name) matches Ok((t, o, n)) && o == oft + 4 * (fs.len() - j + 1)
            && n == name + funcs_room(fs, j) && same_but(
            t,
            s,
            oft as int,
            o as int,
            name as int,
            n as int,
        ) && table_names(t, oft as int, fs, j) && thunks_kept(t, oft as int, fs, j, name as int, n as int),
    decreases fs.len() - j,
{
    funcs_room_is_room(fs, j);
    funcs_room_is_room(fs, j + 1);
    assert(oft.wrapping_add(4) == oft + 4);
    if j >= fs.len() {
        write_then_read_32(s, oft as int, 0);
    } else {
        let f = fs[j];
        let t = one_func_is_built(s, f, oft, name);
        let next = (name + func_room(f)) as u32;
        match f {
            Func::Ordinal(o) => {},
            Func::Name(h, n) => {
                assert(name.wrapping_add((n.len() + 3) as u32) == next);
                write_then_read_32(s, oft as int, name);
            },
        }
        funcs_are_built(t, fs, j + 1, (oft + 4) as u32, next);
        assert(funcs_built(s, fs, j, oft, name) == funcs_built(t, fs, j + 1, (oft + 4) as u32, next));
        match funcs_built(t, fs, j + 1, (oft + 4) as u32, next) {
            Ok((u, o, n)) => {
                assert(le32(u, oft as int) == le32(t, oft as int));
                thunk_stays(t, u, le32(t, oft as int), f);
                assert forall|k: int| j <= k < fs.len() implies thunk_names(
                    u,
                    le32(u, #[trigger] place_of(oft as int, k - j)),
                    fs[k],
                ) by {
                    if k > j {
                        assert(place_of(oft as int, k - j) == place_of(oft + 4, k - (j + 1)));
                    }
                }
                assert forall|k: int| j <= k < fs.len() implies thunk_kept(
                    le32(u, #[trigger] place_of(oft as int, k - j)),
                    fs[k],
                    name as int,
                    n as int,
                ) by {
                    if k > j {
                        assert(place_of(oft as int, k - j) == place_of(oft + 4, k - (j + 1)));
                    }
                }
            },
            Err(e) => {},
        }
    }
}

/// Whether the descriptor at `e` says what `d` does: its three numbers, its library's name,
/// and its functions in order.
pub open spec fn descriptor_says(s: Seq<u8>, e: int, d: Desc) -> bool {
    &&& le32(s, e + 4) == d.time_date
    &&& le32(s, e + 8) == d.fwd_chain
    &&& le32(s, e + 16) == d.iat_rva
    &&& string_stands(s, le32(s, e + 12) as int, d.dll_name)
    &&& table_names(s, le32(s, e) as int, d.functions, 0)
}

/// How many bytes the names of a descriptor take.
pub open spec fn desc_room(d: Desc) -> int {
    d.dll_name.len() + 1 + funcs_room(d.functions, 0)
}

/// How many bytes the lookup tables of the descriptors from `i` on take.
pub open spec fn tables_room(ds: Seq<Desc>, i: int) -> int
    decreases ds.len() - i,
{
    if i >= ds.len() {
        0
    } else {
        4 * (ds[i].functions.len() + 1) + tables_room(ds, i + 1)
    }
}

/// How many bytes the names of the descriptors from `i` on take.
pub open spec fn names_room(ds: Seq<Desc>, i: int) -> int
    decreases ds.len() - i,
{
    if i >= ds.len() {
        0
    } else {
        desc_room(ds[i]) + names_room(ds, i + 1)
    }
}

proof fn rooms_are_rooms(ds: Seq<Desc>, i: int)
    ensures
        tables_room(ds, i) >= 0,
        names_room(ds, i) >= 0,
        i < ds.len() ==> desc_room(ds[i]) >= 1,
    decreases ds.len() - i,
{
    if i < ds.len() {
        funcs_room_is_room(ds[i].functions, 0);
        rooms_are_rooms(ds, i + 1);
    }
}

proof fn one_head_is_built(s: Seq<u8>, d: Desc, e: u32, oft: u32, name: u32)
    requires
        e + 20 <= name,
        name + d.dll_name.len() + 1 <= s.len() <= u32::MAX,
    ensures
        desc_built(s, d, e, oft, name) matches Ok(t) && same_but(
            t,
            s,
            e as int,
            e + 20,
            name as int,
            name + d.dll_name.len() + 1,
        ) && le32(t, e as int) == oft && le32(t, e + 4) == d.time_date && le32(t, e + 8) == d.fwd_chain
            && le32(t, e + 12) == name && le32(t, e + 16) == d.iat_rva && string_stands(
            t,
            name as int,
            d.dll_name,
        ),
{
    assert(e.wrapping_add(4) == e + 4 && e.wrapping_add(8) == e + 8 && e.wrapping_add(12) == e + 12
        && e.wrapping_add(16) == e + 16);
    write_then_read_32(s, e as int, oft);
    let a = put32(s, e as int, oft);
    write_then_read_32(a, e + 4, d.time_date);
    let b = put32(a, e + 4, d.time_date);
    write_then_read_32(b, e + 8, d.fwd_chain);
    let c = put32(b, e + 8, d.fwd_chain);
    write_then_read_32(c, e + 12, name);
    let g = put32(c, e + 12, name);
    write_then_read_32(g, e + 16, d.iat_rva);
    let h = put32(g, e + 16, d.iat_rva);
    let n = d.dll_name;
    let text = n.push(0).subrange(0, n.len() as int + 1);
    let t = overlay(h, name as int, text);
    assert(le32(b, e as int) == oft);
    assert(le32(c, e as int) == oft && le32(c, e + 4) == d.time_date);
    assert(le32(g, e as int) == oft && le32(g, e + 4) == d.time_date && le32(g, e + 8)
        == d.fwd_chain);
    assert(le32(h, e as int) == oft && le32(h, e + 4) == d.time_date && le32(h, e + 8) == d.fwd_chain
        && le32(h, e + 12) == name);
    assert(le32(t, e as int) == le32(h, e as int) && le32(t, e + 4) == le32(h, e + 4) && le32(
        t,
        e + 8,
    ) == le32(h, e + 8) && le32(t, e + 12) == le32(h, e + 12) && le32(t, e + 16) == le32(h, e + 16));
    assert forall|k: int| 0 <= k < n.len() implies #[trigger] t[name + k] == n[k] by {
        assert(text[k] == n[k]);
    }
    assert(t[name + n.len()] == text[n.len() as int]);
}

/// Whether the name that a thunk points at lies between `lo` and `hi`.
pub open spec fn thunk_kept(v: u32, f: Func, lo: int, hi: int) -> bool {
    f is Name ==> lo <= v && v + func_room(f) <= hi
}

/// Whether the names that the thunks of a table point at lie between `lo` and `hi`.
pub open spec fn thunks_kept(s: Seq<u8>, oft: int, fs: Seq<Func>, j: int, lo: int, hi: int) -> bool {
    forall|k: int|
        j <= k < fs.len() ==> thunk_kept(le32(s, #[trigger] place_of(oft, k - j)), fs[k], lo, hi)
}

proof fn descriptor_stays(s: Seq<u8>, t: Seq<u8>, e: int, d: Desc, oft: u32, name: u32, lo: int, hi: int)
    requires
        descriptor_says(s, e, d),
        le32(s, e) == oft,
        le32(s, e + 12) == name,
        thunks_kept(s, oft as int, d.functions, 0, lo, hi),
        s.len() == t.len(),
        forall|a: int| e <= a < e + 20 ==> #[trigger] t[a] == s[a],
        forall|a: int|
            oft <= a < oft + 4 * (d.functions.len() + 1) ==> #[trigger] t[a] == s[a],
        forall|a: int| name <= a < name + d.dll_name.len() + 1 ==> #[trigger] t[a] == s[a],
        forall|a: int| lo <= a < hi ==> #[trigger] t[a] == s[a],
    ensures
        descriptor_says(t, e, d),
        le32(t, e) == oft,
        le32(t, e + 12) == name,
        thunks_kept(t, oft as int, d.functions, 0, lo, hi),
{
    let fs = d.functions;
    assert(le32(t, e) == le32(s, e) && le32(t, e + 4) == le32(s, e + 4) && le32(t, e + 8) == le32(
        s,
        e + 8,
    ) && le32(t, e + 12) == le32(s, e + 12) && le32(t, e + 16) == le32(s, e + 16));
    assert forall|k: int| 0 <= k < d.dll_name.len() implies #[trigger] t[name + k] == d.dll_name[k] by {
        assert(t[name + k] == s[name + k]);
    }
    assert(t[name + d.dll_name.len()] == s[name + d.dll_name.len()]);
    assert forall|k: int| 0 <= k <= fs.len() implies le32(t, #[trigger] place_of(oft as int, k)) == le32(
        s,
        place_of(oft as int, k),
    ) by {}
    assert(place_of(oft as int, fs.len() as int) == oft + 4 * (fs.len() - 0));
    assert forall|k: int| 0 <= k < fs.len() implies thunk_names(
        t,
        le32(t, #[trigger] place_of(oft as int, k - 0)),
        fs[k],
    ) by {
        let v = le32(s, place_of(oft as int, k - 0));
        assert(thunk_names(s, v, fs[k]));
        assert(thunk_kept(v, fs[k], lo, hi));
        thunk_stays(s, t, v, fs[k]);
    }
    assert forall|k: int| 0 <= k < fs.len() implies thunk_kept(
        le32(t, #[trigger] place_of(oft as int, k - 0)),
        fs[k],
        lo,
        hi,
    ) by {
        assert(thunk_kept(le32(s, place_of(oft as int, k - 0)), fs[k], lo, hi));
    }
}

proof fn one_desc_is_built(s: Seq<u8>, d: Desc, e: u32, oft: u32, name: u32)
    requires
        oft + 4 * (d.functions.len() + 1) <= e,
        e + 20 <= name,
        name + desc_room(d) <= s.len() <= u32::MAX,
    ensures
        desc_built(s, d, e, oft, name) matches Ok(a) && (funcs_built(
            a,
            d.functions,
            0,
            oft,
            name.wrapping_add((d.dll_name.len() + 1) as u32),
        ) matches Ok((t, o, n)) && o == oft + 4 * (d.functions.len() + 1) && n == name + desc_room(d)
            && descriptor_says(t, e as int, d) && le32(t, e as int) == oft && le32(t, e + 12) == name
            && thunks_kept(t, oft as int, d.functions, 0, name as int, n as int) && t.len() == s.len()
            && (forall|x: int|
            0 <= x < s.len() && !(oft <= x < o) && !(e <= x < e + 20) && !(name <= x < n)
                ==> #[trigger] t[x] == s[x])),
{
    funcs_room_is_room(d.functions, 0);
    one_head_is_built(s, d, e, oft, name);
    let next = name.wrapping_add((d.dll_name.len() + 1) as u32);
    assert(next == name + d.dll_name.len() + 1);
    match desc_built(s, d, e, oft, name) {
        Ok(a) => {
            funcs_are_built(a, d.functions, 0, oft, next);
            match funcs_built(a, d.functions, 0, oft, next) {
                Ok((t, o, n)) => {
                    assert(le32(t, e as int) == le32(a, e as int) && le32(t, e + 4) == le32(a, e + 4)
                        && le32(t, e + 8) == le32(a, e + 8) && le32(t, e + 12) == le32(a, e + 12)
                        && le32(t, e + 16) == le32(a, e + 16));
                    assert forall|k: int| 0 <= k < d.dll_name.len() implies #[trigger] t[name + k]
                        == d.dll_name[k] by {
                        assert(t[name + k] == a[name + k]);
                    }
                    assert(t[name + d.dll_name.len()] == a[name + d.dll_name.len()]);
                    assert forall|k: int| 0 <= k < d.functions.len() implies thunk_kept(
                        le32(t, #[trigger] place_of(oft as int, k - 0)),
                        d.functions[k],
                        name as int,
                        n as int,
                    ) by {
                        assert(thunk_kept(
                            le32(t, place_of(oft as int, k - 0)),
                            d.functions[k],
                            next as int,
                            n as int,
                        ));
                    }
                },
                Err(e) => {},
            }
        },
        Err(e) => {},
    }
}

/// Whether a descriptor says what `d` does, and everything that it points at lies in front of
/// `a1` or between `b0` and `b1`.
pub open spec fn descriptor_says_within(
    s: Seq<u8>,
    e: int,
    d: Desc,
    a0: int,
    a1: int,
    b0: int,
    b1: int,
) -> bool {
    &&& descriptor_says(s, e, d)
    &&& a0 <= le32(s, e) && le32(s, e) + 4 * (d.functions.len() + 1) <= a1
    &&& b0 <= le32(s, e + 12) && le32(s, e + 12) + d.dll_name.len() + 1 <= b1
    &&& thunks_kept(s, le32(s, e) as int, d.functions, 0, b0, b1)
}

/// Where descriptor `i` of a directory stands.
pub open spec fn descriptor_at(idt: u32, i: int) -> int {
    idt + 20 * i
}

proof fn thunks_are_kept_in_more(
    s: Seq<u8>,
    oft: int,
    fs: Seq<Func>,
    lo: int,
    hi: int,
    lower: int,
    higher: int,
)
    requires
        thunks_kept(s, oft, fs, 0, lo, hi),
        lower <= lo,
        hi <= higher,
    ensures
        thunks_kept(s, oft, fs, 0, lower, higher),
{
    assert forall|k: int| 0 <= k < fs.len() implies thunk_kept(
        le32(s, #[trigger] place_of(oft, k - 0)),
        fs[k],
        lower,
        higher,
    ) by {
        assert(thunk_kept(le32(s, place_of(oft, k - 0)), fs[k], lo, hi));
    }
}

/// The descriptors that are written into a directory, with their lookup tables in front of it
/// and their names behind it, say what they are to say, and nothing else changes.
pub proof fn written_descriptors_say_the_same(
    s: Seq<u8>,
    ds: Seq<Desc>,
    i: int,
    idt: u32,
    oft: u32,
    name: u32,
)
    requires
        0 <= i <= ds.len(),
        oft + tables_room(ds, i) <= idt,
        idt + 20 * ds.len() <= name,
        name + names_room(ds, i) <= s.len() <= u32::MAX,
    ensures
        descs_built(s, ds, i, idt, oft, name) matches Ok(t) && t.len() == s.len() && (forall|k: int|
            i <= k < ds.len() ==> descriptor_says_within(
                t,
                #[trigger] descriptor_at(idt, k),
                ds[k],
                oft as int,
                oft + tables_room(ds, i),
                name as int,
                name + names_room(ds, i),
            )) && (forall|x: int|
            0 <= x < s.len() && !(oft <= x < oft + tables_room(ds, i)) && !(idt + 20 * i <= x < idt + 20
                * ds.len()) && !(name <= x < name + names_room(ds, i)) ==> #[trigger] t[x] == s[x]),
    decreases ds.len() - i,
{
    rooms_are_rooms(ds, i);
    rooms_are_rooms(ds, i + 1);
    if i < ds.len() {
        let d = ds[i];
        let e = idt.wrapping_add((i * 20) as u32);
        assert(e == idt + 20 * i);
        one_desc_is_built(s, d, e, oft, name);
        match desc_built(s, d, e, oft, name) {
            Ok(a) => match funcs_built(
                a,
                d.functions,
                0,
                oft,
                name.wrapping_add((d.dll_name.len() + 1) as u32),
            ) {
                Ok((b, o, n)) => {
                    written_descriptors_say_the_same(b, ds, i + 1, idt, o, n);
                    assert(descs_built(s, ds, i, idt, oft, name) == descs_built(
                        b,
                        ds,
                        i + 1,
                        idt,
                        o,
                        n,
                    ));
                    match descs_built(b, ds, i + 1, idt, o, n) {
                        Ok(t) => {
                            funcs_room_is_room(d.functions, 0);
                            descriptor_stays(
                                b,
                                t,
                                e as int,
                                d,
                                oft,
                                name,
                                name as int,
                                n as int,
                            );
                            assert forall|k: int| i <= k < ds.len() implies descriptor_says_within(
                                t,
                                #[trigger] descriptor_at(idt, k),
                                ds[k],
                                oft as int,
                                oft + tables_room(ds, i),
                                name as int,
                                name + names_room(ds, i),
                            ) by {
                                if k == i {
                                    assert(descriptor_at(idt, k) == e);
                                    thunks_are_kept_in_more(
                                        t,
                                        oft as int,
                                        d.functions,
                                        name as int,
                                        n as int,
                                        name as int,
                                        name + names_room(ds, i),
                                    );
                                } else {
                                    thunks_are_kept_in_more(
                                        t,
                                        le32(t, descriptor_at(idt, k)) as int,
                                        ds[k].functions,
                                        n as int,
                                        n + names_room(ds, i + 1),
                                        name as int,
                                        name + names_room(ds, i),
                                    );
                                }
                            }
                        },
                        Err(x) => {},
                    }
                },
                Err(x) => {},
            },
            Err(x) => {},
        }
    }
}

proof fn tables_end_behind_their_room(ds: Seq<Desc>, i: int, p: u32)
    requires
        p + tables_room(ds, i) <= u32::MAX,
    ensures
        lookup_end(ds, i, p) == p + tables_room(ds, i),
    decreases ds.len() - i,
{
    if i < ds.len() {
        rooms_are_rooms(ds, i + 1);
        let q = p.wrapping_add(((ds[i].functions.len() + 1) * 4) as u32);
        assert(q == p + 4 * (ds[i].functions.len() + 1));
        tables_end_behind_their_room(ds, i + 1, q);
    }
}

proof fn funcs_end_behind_their_room(fs: Seq<Func>, j: int, p: u32)
    requires
        p + funcs_room(fs, j) <= u32::MAX,
    ensures
        func_names_end(fs, j, p) == p + funcs_room(fs, j),
    decreases fs.len() - j,
{
    if j < fs.len() {
        funcs_room_is_room(fs, j + 1);
        let q = (p + func_room(fs[j])) as u32;
        match fs[j] {
            Func::Ordinal(_) => {},
            Func::Name(_, n) => {
                assert(p.wrapping_add((n.len() + 3) as u32) == q);
            },
        }
        funcs_end_behind_their_room(fs, j + 1, q);
    }
}

proof fn names_end_behind_their_room(ds: Seq<Desc>, i: int, p: u32)
    requires
        p + names_room(ds, i) <= u32::MAX,
    ensures
        names_end(ds, i, p) == p + names_room(ds, i),
    decreases ds.len() - i,
{
    if i < ds.len() {
        let d = ds[i];
        rooms_are_rooms(ds, i + 1);
        funcs_room_is_room(d.functions, 0);
        let q = p.wrapping_add((d.dll_name.len() + 1) as u32);
        assert(q == p + d.dll_name.len() + 1);
        funcs_end_behind_their_room(d.functions, 0, q);
        names_end_behind_their_room(ds, i + 1, (p + desc_room(d)) as u32);
    }
}

proof fn move_is_described(
    s: Seq<u8>,
    pe: u32,
    last: u32,
    rva: u32,
    idt: u32,
    size: u32,
)
    requires
        pe + 0x88 <= last,
        last + 40 <= rva,
        rva + SECTION_SIZE <= u32::MAX,
        rva <= s.len() <= u32::MAX,
    ensures
        move_described(s, pe, last, rva, idt, size) matches Ok(v) && v.len() == s.len() && le32(
            v,
            pe + 0x80,
        ) == idt && le32(v, pe + 0x84) == size && le32(v, pe + 80) == rva + SECTION_SIZE && le32(
            v,
            last + 8,
        ) == SECTION_SIZE && le32(v, last + 16) == SECTION_SIZE && (forall|a: int|
            rva <= a < s.len() ==> #[trigger] v[a] == s[a]),
{
    let p1 = last.wrapping_add(8);
    let p2 = last.wrapping_add(16);
    let p3 = last.wrapping_add(36);
    let q1 = pe.wrapping_add(0x80);
    let q2 = pe.wrapping_add(0x84);
    let q3 = pe.wrapping_add(80);
    assert(p1 == last + 8 && p2 == last + 16 && p3 == last + 36 && q1 == pe + 0x80 && q2 == pe + 0x84
        && q3 == pe + 80);
    let a = overlay(s, last as int, section_title().subrange(0, 8));
    write_then_read_32(a, p1 as int, SECTION_SIZE);
    let b0 = put32(a, p1 as int, SECTION_SIZE);
    write_then_read_32(b0, p2 as int, SECTION_SIZE);
    let b = put32(b0, p2 as int, SECTION_SIZE);
    write_then_read_32(b, p3 as int, 0xE000_0060);
    let c0 = put32(b, p3 as int, 0xE000_0060);
    write_then_read_32(c0, q1 as int, idt);
    let c = put32(c0, q1 as int, idt);
    write_then_read_32(c, q2 as int, size);
    let d = put32(c, q2 as int, size);
    write_then_read_32(d, q3 as int, rva.wrapping_add(SECTION_SIZE));
    let v = put32(d, q3 as int, rva.wrapping_add(SECTION_SIZE));
    assert(pasted(s, last as int, section_title(), 0, 8) == Ok::<Seq<u8>, crate::error::UnpackError>(
        a,
    ));
    assert(le32(b, p1 as int) == SECTION_SIZE);
    assert(le32(c0, p1 as int) == SECTION_SIZE && le32(c0, p2 as int) == SECTION_SIZE);
    assert(le32(c, p1 as int) == SECTION_SIZE && le32(c, p2 as int) == SECTION_SIZE);
    assert(le32(d, p1 as int) == SECTION_SIZE && le32(d, p2 as int) == SECTION_SIZE && le32(
        d,
        q1 as int,
    ) == idt);
    assert(le32(v, p1 as int) == SECTION_SIZE && le32(v, p2 as int) == SECTION_SIZE && le32(
        v,
        q1 as int,
    ) == idt && le32(v, q2 as int) == size);
}

proof fn moved_descriptors_stay(
    b: Seq<u8>,
    v: Seq<u8>,
    ds: Seq<Desc>,
    idt: u32,
    rva: u32,
    first: u32,
    term: int,
)
    requires
        b.len() == v.len(),
        rva + tables_room(ds, 0) <= idt,
        term == idt + 20 * ds.len(),
        term + 20 <= first,
        forall|x: int| rva <= x < b.len() && !(term <= x < term + 20) ==> #[trigger] v[x] == b[x],
        forall|k: int|
            0 <= k < ds.len() ==> descriptor_says_within(
                b,
                #[trigger] descriptor_at(idt, k),
                ds[k],
                rva as int,
                rva + tables_room(ds, 0),
                first as int,
                first + names_room(ds, 0),
            ),
        first + names_room(ds, 0) <= b.len(),
    ensures
        forall|k: int|
            0 <= k < ds.len() ==> descriptor_says(v, #[trigger] descriptor_at(idt, k), ds[k]),
{
    rooms_are_rooms(ds, 0);
    assert forall|k: int| 0 <= k < ds.len() implies descriptor_says(
        v,
        #[trigger] descriptor_at(idt, k),
        ds[k],
    ) by {
        let e = descriptor_at(idt, k);
        descriptor_stays(
            b,
            v,
            e,
            ds[k],
            le32(b, e),
            le32(b, e + 12),
            first as int,
            first + names_room(ds, 0),
        );
    }
}

/// Moved imports say what they said: the header names a directory of the descriptors, in the
/// section that was made for them, with an empty one behind them.
pub proof fn moved_imports_say_the_same(s: Seq<u8>, pe: u32, last: u32, rva: u32, ds: Seq<Desc>)
    requires
        pe + 0x88 <= last,
        last + 40 <= rva <= s.len() <= u32::MAX,
        rva + SECTION_SIZE <= 0x4000_0000,
        tables_room(ds, 0) + 0x30 + 20 * (ds.len() + 1) + names_room(ds, 0) <= SECTION_SIZE,
    ensures
        descs_moved(s, pe, last, rva, ds) matches Ok(v) && {
            let idt = le32(v, pe + 0x80);
            &&& rva <= idt
            &&& idt + 20 * (ds.len() + 1) <= rva + SECTION_SIZE <= v.len()
            &&& le32(v, pe + 0x84) == 20 * (ds.len() + 1)
            &&& le32(v, pe + 80) == rva + SECTION_SIZE
            &&& le32(v, last + 8) == SECTION_SIZE
            &&& le32(v, last + 16) == SECTION_SIZE
            &&& forall|k: int|
                0 <= k < ds.len() ==> descriptor_says(v, #[trigger] descriptor_at(idt, k), ds[k])
            &&& forall|a: int|
                idt + 20 * ds.len() <= a < idt + 20 * (ds.len() + 1) ==> #[trigger] v[a] == 0
        },
{
    rooms_are_rooms(ds, 0);
    let end = rva + SECTION_SIZE;
    let a = room_made(s, rva, end);
    tables_end_behind_their_room(ds, 0, rva);
    let idt = moved_rva(ds, rva);
    let top = rva + tables_room(ds, 0);
    assert(idt == (top + 0x2F) / 4 * 4);
    let size = ((ds.len() + 1) * 20) as u32;
    let first = idt.wrapping_add(size);
    assert(first == idt + 20 * (ds.len() + 1));
    names_end_behind_their_room(ds, 0, first);
    assert(a.len() >= end);
    written_descriptors_say_the_same(a, ds, 0, idt, rva, first);
    match descs_built(a, ds, 0, idt, rva, first) {
        Ok(b) => {
            let term = idt.wrapping_add((ds.len() * 20) as u32);
            assert(term == idt + 20 * ds.len());
            let c = zeroed(b, term as int, 20);
            move_is_described(c, pe, last, rva, idt, size);
            match move_described(c, pe, last, rva, idt, size) {
                Ok(v) => {
                    moved_descriptors_stay(b, v, ds, idt, rva, first, term as int);
                },
                Err(e) => {},
            }
        },
        Err(e) => {},
    }
}

} // verus!
