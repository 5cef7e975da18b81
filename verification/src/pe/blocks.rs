//! The section blocks: a chain of descriptors, each naming bytes of the file
//! that are deciphered, transformed and expanded into the image.

use vstd::prelude::*;

use crate::aes::{
    aes_decrypt_ks_checked, aes_ks_decrypted, aes_ks_in_range, aes_schedule_snapshot,
    deciphering_keeps_the_length, schedule_of,
};
use crate::bytecode::{mapped, Op, OpsLut};
use crate::bytes::{copy_bytes, overlay, sub_vec};
use crate::error::{SectionPipeline, UnpackError};
use crate::huffman::{
    expand_checked, expanded, expanding_fills_its_place, huffman_table_snapshot, table_of,
    Expansion, Outcome,
};
use crate::pe::discovery::data5;
use crate::pe::stage::{read_record, Record};
use crate::pe::steps::{corrupt, dec5, paste, pasted, sized, w32, Out};

verus! {

/// The descriptor at `p` of an image in which it is plain.
pub open spec fn plain_record(s: Seq<u8>, p: u32) -> Record {
    Record {
        src: w32(s, p),
        slen: w32(s, (p + 4) as u32),
        dest: w32(s, (p + 8) as u32),
        dlen: w32(s, (p + 12) as u32),
    }
}

/// The image with the chain of descriptors from `p` on deciphered, up to one of
/// length zero; `found` and those in front of it; and the position behind it.
pub open spec fn records(s: Seq<u8>, p: u32, found: Seq<Record>) -> Out<
    (Seq<u8>, Seq<Record>, u32),
>
    decreases s.len() - p,
{
    if p + 16 > s.len() || p + 16 > u32::MAX {
        corrupt()
    } else {
        let t = data5(s, p as int, 16);
        let r = plain_record(t, p);
        if r.slen == 0 {
            Ok((t, found, (p + 16) as u32))
        } else {
            records(t, (p + 16) as u32, found.push(r))
        }
    }
}

/// Decipher a chain of descriptors.
pub fn open_records(s: &mut [u8], start: u32) -> (r: Out<(Vec<Record>, u32)>)
    requires
        sized(old(s)@),
    ensures
        match records(old(s)@, start, Seq::empty()) {
            Ok((v, rs, p)) => r is Ok && r->Ok_0.0@ == rs && r->Ok_0.1 == p && final(s)@ == v,
            Err(e) => r is Err && r->Err_0 == e,
        },
        final(s)@.len() == old(s)@.len(),
{
    let len: usize = s.len();
    let mut list: Vec<Record> = Vec::new();
    let mut p: u32 = start;
    assert(list@ =~= Seq::empty());
    while len >= 16 && p as usize <= len - 16
        invariant
            len == s@.len() == old(s)@.len(),
            sized(s@),
            records(old(s)@, start, Seq::empty()) == records(s@, p, list@),
        decreases len - p,
    {
        let ghost before = s@;
        dec5(s, p, 16)?;
        let r: Record = read_record(s, p)?;
        assert(r == plain_record(s@, p));
        if r.slen == 0 {
            return Ok((list, p + 16));
        }
        list.push(r);
        p = p + 16;
    }
    Err(UnpackError::CorruptInput)
}

/// How many bytes of the image a block touches.
pub open spec fn touched(r: Record) -> int {
    if r.slen >= r.dlen {
        r.slen as int
    } else {
        r.dlen as int
    }
}

/// Whether two blocks touch no byte in common.
pub open spec fn clear_of(a: Record, b: Record) -> bool {
    a.dest + touched(a) <= b.dest || b.dest + touched(b) <= a.dest
}

/// Whether every block lies inside an image of `len` bytes and no two touch a
/// byte in common.
pub open spec fn apart(rs: Seq<Record>, len: int) -> bool {
    &&& forall|i: int| 0 <= i < rs.len() ==> rs[i].dest + #[trigger] touched(rs[i]) <= len
    &&& forall|i: int, j: int| 0 <= i < j < rs.len() ==> #[trigger] clear_of(rs[i], rs[j])
}

fn touches(r: &Record) -> (n: u32)
    ensures
        n == touched(*r),
{
    if r.slen >= r.dlen {
        r.slen
    } else {
        r.dlen
    }
}

/// Whether the blocks can be done each on its own bytes.
pub fn are_apart(rs: &Vec<Record>, len: usize) -> (r: bool)
    ensures
        r == apart(rs@, len as int),
{
    let n: usize = rs.len();
    let mut i: usize = 0;
    while i < n
        invariant
            i <= n == rs@.len(),
            forall|k: int|
                0 <= k < i ==> rs@[k].dest + #[trigger] touched(rs@[k]) <= len,
        decreases n - i,
    {
        if rs[i].dest as u64 + touches(&rs[i]) as u64 > len as u64 {
            assert(rs@[i as int].dest + touched(rs@[i as int]) > len);
            return false;
        }
        i = i + 1;
    }
    let mut a: usize = 0;
    while a < n
        invariant
            a <= n == rs@.len(),
            forall|k: int|
                0 <= k < n ==> rs@[k].dest + #[trigger] touched(rs@[k]) <= len,
            forall|k: int, m: int| 0 <= k < a && k < m < n ==> #[trigger] clear_of(rs@[k], rs@[m]),
        decreases n - a,
    {
        let end: u64 = rs[a].dest as u64 + touches(&rs[a]) as u64;
        let mut b: usize = a + 1;
        while b < n
            invariant
                a < b <= n == rs@.len(),
                end == rs@[a as int].dest + touched(rs@[a as int]),
                forall|m: int| a < m < b ==> #[trigger] clear_of(rs@[a as int], rs@[m]),
            decreases n - b,
        {
            if !(end <= rs[b].dest as u64 || rs[b].dest as u64 + touches(&rs[b]) as u64
                <= rs[a].dest as u64) {
                assert(!clear_of(rs@[a as int], rs@[b as int]));
                return false;
            }
            b = b + 1;
        }
        a = a + 1;
    }
    true
}

/// What the work on every block shares.
pub struct Shared {
    /// What is added to a source for its place in the file.
    pub rebase: u32,
    pub schedule: Seq<u8>,
    pub table: Seq<u8>,
    pub ops: Seq<Op>,
    pub pipeline: SectionPipeline,
}

/// A buffer with block `i` done at `rel`: the bytes copied from the file,
/// deciphered and transformed, and expanded where the two lengths differ.
#[verifier::opaque]
pub open spec fn block_done(
    d: Seq<u8>,
    rel: int,
    f: Seq<u8>,
    r: Record,
    i: int,
    g: Shared,
) -> Out<Seq<u8>> {
    match pasted(d, rel, f, r.src.wrapping_add(g.rebase) as int, r.slen as int) {
        Err(e) => Err(e),
        Ok(a) => if !aes_ks_in_range(g.schedule, a, rel as u32, r.slen) {
            corrupt()
        } else {
            let b = mapped(
                aes_ks_decrypted(g.schedule, a, rel as u32, r.slen),
                rel,
                r.slen as int,
                g.ops,
            );
            if r.slen == r.dlen {
                Ok(b)
            } else {
                match expanded(Some(g.table), b, rel as u32, rel as u32, 0, r.slen, r.dlen) {
                    Outcome::Outside => corrupt(),
                    Outcome::Ended { data, result } => if result is Ok {
                        Ok(data)
                    } else {
                        Err(
                            UnpackError::SectionDecompressionFailed {
                                pipeline: g.pipeline,
                                block: i as usize,
                            },
                        )
                    },
                }
            }
        },
    }
}

/// The image with block `i` done, on the block's own bytes or on the whole image.
pub open spec fn block_placed(s: Seq<u8>, f: Seq<u8>, r: Record, i: int, g: Shared, own: bool) -> Out<
    Seq<u8>,
> {
    if own {
        match block_done(s.subrange(r.dest as int, r.dest + touched(r)), 0, f, r, i, g) {
            Err(e) => Err(e),
            Ok(v) => Ok(overlay(s, r.dest as int, v)),
        }
    } else {
        block_done(s, r.dest as int, f, r, i, g)
    }
}

/// The image with the blocks from `i` on done.
pub open spec fn blocks_placed(
    s: Seq<u8>,
    f: Seq<u8>,
    rs: Seq<Record>,
    i: int,
    g: Shared,
    own: bool,
) -> Out<Seq<u8>>
    decreases rs.len() - i,
{
    if i >= rs.len() {
        Ok(s)
    } else {
        match block_placed(s, f, rs[i], i, g, own) {
            Err(e) => Err(e),
            Ok(t) => blocks_placed(t, f, rs, i + 1, g, own),
        }
    }
}

/// The image with every block done, with the tables that `k0` and `k2` name.
/// Blocks that are apart work each on its own bytes.
pub open spec fn with_blocks(
    s: Seq<u8>,
    f: Seq<u8>,
    rs: Seq<Record>,
    rebase: u32,
    k0: u32,
    k2: u32,
    ops: Seq<Op>,
    pipeline: SectionPipeline,
) -> Out<Seq<u8>> {
    match schedule_of(s, k2) {
        None => Err(UnpackError::InvalidAesKeySchedule { offset: k2 }),
        Some(schedule) => match table_of(s, k0) {
            None => Err(UnpackError::InvalidHuffmanTable { offset: k0 }),
            Some(table) => blocks_placed(
                s,
                f,
                rs,
                0,
                Shared { rebase, schedule, table, ops, pipeline },
                apart(rs, s.len() as int),
            ),
        },
    }
}

struct Tools {
    rebase: u32,
    schedule: Vec<u8>,
    table: Vec<u8>,
    lut: OpsLut,
    pipeline: SectionPipeline,
}

impl Tools {
    spec fn shared(self) -> Shared {
        Shared {
            rebase: self.rebase,
            schedule: self.schedule@,
            table: self.table@,
            ops: self.lut.transform(),
            pipeline: self.pipeline,
        }
    }
}

fn do_block(d: &mut [u8], rel: u32, f: &[u8], r: &Record, i: usize, g: &Tools) -> (o: Out<()>)
    ensures
        match block_done(old(d)@, rel as int, f@, *r, i as int, g.shared()) {
            Ok(v) => o is Ok && final(d)@ == v,
            Err(e) => o == Err::<(), UnpackError>(e),
        },
        final(d)@.len() == old(d)@.len(),
{
    proof {
        reveal(block_done);
    }
    let from: u32 = r.src.wrapping_add(g.rebase);
    paste(d, rel as usize, f, from as usize, r.slen as usize)?;
    if !aes_decrypt_ks_checked(&g.schedule, d, rel, r.slen) {
        return Err(UnpackError::CorruptInput);
    }
    g.lut.map_region(d, rel as usize, r.slen as usize);
    if r.slen == r.dlen {
        return Ok(());
    }
    match expand_checked(Some(&g.table), d, rel, rel, 0, r.slen, r.dlen) {
        Expansion::Outside => Err(UnpackError::CorruptInput),
        Expansion::Ended(Ok(_)) => Ok(()),
        Expansion::Ended(Err(_)) => Err(
            UnpackError::SectionDecompressionFailed { pipeline: g.pipeline, block: i },
        ),
    }
}

fn place_block(s: &mut [u8], f: &[u8], r: &Record, i: usize, g: &Tools, own: bool) -> (o: Out<()>)
    requires
        own ==> r.dest + touched(*r) <= old(s)@.len(),
    ensures
        match block_placed(old(s)@, f@, *r, i as int, g.shared(), own) {
            Ok(v) => o is Ok && final(s)@ == v,
            Err(e) => o == Err::<(), UnpackError>(e),
        },
        final(s)@.len() == old(s)@.len(),
{
    if !own {
        return do_block(s, r.dest, f, r, i, g);
    }
    let len: usize = s.len();
    let from: usize = r.dest as usize;
    let n: usize = touches(r) as usize;
    let mut piece: Vec<u8> = sub_vec(s, from, from + n);
    do_block(&mut piece, 0, f, r, i, g)?;
    copy_bytes(s, from, &piece, 0, n);
    assert(piece@.subrange(0, n as int) =~= piece@);
    Ok(())
}

/// Do every block.
pub fn place_blocks(
    s: &mut [u8],
    f: &[u8],
    rs: &Vec<Record>,
    rebase: u32,
    k0: u32,
    k2: u32,
    ops: &[Op],
    pipeline: SectionPipeline,
) -> (o: Out<()>)
    ensures
        match with_blocks(old(s)@, f@, rs@, rebase, k0, k2, ops@, pipeline) {
            Ok(v) => o is Ok && final(s)@ == v,
            Err(e) => o == Err::<(), UnpackError>(e),
        },
        final(s)@.len() == old(s)@.len(),
{
    let schedule: Vec<u8> = match aes_schedule_snapshot(s, k2) {
        Some(v) => v,
        None => return Err(UnpackError::InvalidAesKeySchedule { offset: k2 }),
    };
    let table: Vec<u8> = match huffman_table_snapshot(s, k0) {
        Some(v) => v,
        None => return Err(UnpackError::InvalidHuffmanTable { offset: k0 }),
    };
    let g: Tools = Tools { rebase, schedule, table, lut: OpsLut::new(ops), pipeline };
    let len: usize = s.len();
    let own: bool = are_apart(rs, len);
    let n: usize = rs.len();
    let mut i: usize = 0;
    while i < n
        invariant
            i <= n == rs@.len(),
            s@.len() == len == old(s)@.len(),
            own == apart(rs@, len as int),
            with_blocks(old(s)@, f@, rs@, rebase, k0, k2, ops@, pipeline) == blocks_placed(
                s@,
                f@,
                rs@,
                i as int,
                g.shared(),
                own,
            ),
        decreases n - i,
    {
        place_block(s, f, &rs[i], i, &g, own)?;
        i = i + 1;
    }
    Ok(())
}

/// What a block makes of the bytes of an image that it touches.
pub open spec fn own_work(s: Seq<u8>, f: Seq<u8>, rs: Seq<Record>, i: int, g: Shared) -> Out<Seq<u8>> {
    block_done(
        s.subrange(rs[i].dest as int, rs[i].dest + touched(rs[i])),
        0,
        f,
        rs[i],
        i,
        g,
    )
}

/// Whether a block touches a byte.
pub open spec fn touches_byte(r: Record, b: int) -> bool {
    r.dest <= b < r.dest + touched(r)
}

proof fn work_keeps_the_length(d: Seq<u8>, rel: int, f: Seq<u8>, r: Record, i: int, g: Shared)
    ensures
        block_done(d, rel, f, r, i, g) matches Ok(v) ==> v.len() == d.len(),
{
    reveal(block_done);
    match pasted(d, rel, f, r.src.wrapping_add(g.rebase) as int, r.slen as int) {
        Ok(a) => if aes_ks_in_range(g.schedule, a, rel as u32, r.slen) {
            deciphering_keeps_the_length(g.schedule, a, rel as u32, r.slen);
            let b = mapped(
                aes_ks_decrypted(g.schedule, a, rel as u32, r.slen),
                rel,
                r.slen as int,
                g.ops,
            );
            expanding_fills_its_place(Some(g.table), b, rel as u32, rel as u32, 0, r.slen, r.dlen);
        },
        Err(_) => {},
    }
}

/// Blocks that are apart do not see one another: whether all of them are done, and
/// what each leaves, is what each makes of the bytes that it finds, whatever the
/// others do and in whatever order they are done. The first that fails gives the
/// error. No other byte changes.
pub proof fn blocks_do_not_see_one_another(
    s: Seq<u8>,
    f: Seq<u8>,
    rs: Seq<Record>,
    from: int,
    g: Shared,
)
    requires
        apart(rs, s.len() as int),
        0 <= from <= rs.len(),
    ensures
        match blocks_placed(s, f, rs, from, g, true) {
            Ok(t) => {
                &&& t.len() == s.len()
                &&& forall|k: int|
                    from <= k < rs.len() ==> #[trigger] own_work(s, f, rs, k, g) == Ok::<
                        Seq<u8>,
                        UnpackError,
                    >(t.subrange(rs[k].dest as int, rs[k].dest + touched(rs[k])))
                &&& forall|b: int|
                    0 <= b < s.len() && (forall|k: int|
                        from <= k < rs.len() ==> !touches_byte(#[trigger] rs[k], b))
                        ==> #[trigger] t[b] == s[b]
            },
            Err(e) => exists|k: int|
                from <= k < rs.len() && #[trigger] own_work(s, f, rs, k, g) == Err::<
                    Seq<u8>,
                    UnpackError,
                >(e) && forall|j: int| from <= j < k ==> #[trigger] own_work(s, f, rs, j, g) is Ok,
        },
    decreases rs.len() - from,
{
    if from < rs.len() {
        let r = rs[from];
        let own = s.subrange(r.dest as int, r.dest + touched(r));
        assert(r.dest + touched(r) <= s.len());
        work_keeps_the_length(own, 0, f, r, from, g);
        match own_work(s, f, rs, from, g) {
            Err(e) => {},
            Ok(v) => {
                let t = overlay(s, r.dest as int, v);
                assert forall|k: int| from < k < rs.len() implies #[trigger] own_work(
                    t,
                    f,
                    rs,
                    k,
                    g,
                ) == own_work(s, f, rs, k, g) by {
                    assert(clear_of(rs[from], rs[k]));
                    assert(rs[k].dest + touched(rs[k]) <= s.len());
                    assert(t.subrange(rs[k].dest as int, rs[k].dest + touched(rs[k])) =~= s.subrange(
                        rs[k].dest as int,
                        rs[k].dest + touched(rs[k]),
                    ));
                }
                blocks_do_not_see_one_another(t, f, rs, from + 1, g);
                match blocks_placed(t, f, rs, from + 1, g, true) {
                    Err(e) => {
                        let k = choose|k: int|
                            from + 1 <= k < rs.len() && #[trigger] own_work(t, f, rs, k, g) == Err::<
                                Seq<u8>,
                                UnpackError,
                            >(e) && forall|j: int|
                                from + 1 <= j < k ==> #[trigger] own_work(t, f, rs, j, g) is Ok;
                        assert(own_work(s, f, rs, k, g) == own_work(t, f, rs, k, g));
                        assert forall|j: int| from <= j < k implies #[trigger] own_work(
                            s,
                            f,
                            rs,
                            j,
                            g,
                        ) is Ok by {
                            if j > from {
                                assert(own_work(t, f, rs, j, g) is Ok);
                            }
                        }
                    },
                    Ok(u) => {
                        assert forall|k: int| from <= k < rs.len() implies #[trigger] own_work(
                            s,
                            f,
                            rs,
                            k,
                            g,
                        ) == Ok::<Seq<u8>, UnpackError>(
                            u.subrange(rs[k].dest as int, rs[k].dest + touched(rs[k])),
                        ) by {
                            if k > from {
                                assert(own_work(t, f, rs, k, g) == own_work(s, f, rs, k, g));
                            } else {
                                let w = u.subrange(r.dest as int, r.dest + touched(r));
                                assert forall|b: int| 0 <= b < w.len() implies w[b] == v[b] by {
                                    let at = r.dest + b;
                                    assert forall|m: int|
                                        from + 1 <= m < rs.len() implies !touches_byte(
                                        #[trigger] rs[m],
                                        at,
                                    ) by {
                                        assert(clear_of(rs[from], rs[m]));
                                    }
                                    assert(u[at] == t[at]);
                                }
                                assert(w =~= v);
                            }
                        }
                        assert forall|b: int|
                            0 <= b < s.len() && (forall|k: int|
                                from <= k < rs.len() ==> !touches_byte(#[trigger] rs[k], b)) implies
                            #[trigger] u[b] == s[b] by {
                            assert(!touches_byte(rs[from], b));
                            assert(u[b] == t[b]);
                        }
                    },
                }
            },
        }
    }
}

} // verus!
