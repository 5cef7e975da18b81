//! What an extraction reports of the records of a stream.

use vstd::prelude::*;

use crate::android::extract::{
    child_id, with_directs, with_record, with_records, Child,
    Level, Outcome,
};
use crate::android::report::{Artifact, RecordInfo};
use crate::android::stream::Record;
use crate::digest::identity_of;

verus! {

/// Whether a report is one of a record.
pub open spec fn reports(r: RecordInfo, x: Record) -> bool {
    &&& r.index == x.index
    &&& r.command_id == x.command_id
    &&& r.flags == x.flags
    &&& r.image_offset == x.image_offset
    &&& r.image_size == x.image_size
    &&& r.metadata_offset == x.metadata_offset
    &&& r.metadata_size == x.metadata_size
    &&& r.entry_offset == x.entry_offset
    &&& r.init_offset == x.init_offset
}

/// Whether a file holds some bytes of a record of a stream.
pub open spec fn holds_bytes(a: Artifact, x: Record, depth: usize, id: u32, data: Seq<u8>) -> bool {
    &&& a.size == data.len()
    &&& a.sha256 == identity_of(data)
    &&& a.depth == depth
    &&& a.stream_id == id
    &&& a.record_index == Some(x.index)
    &&& a.command_id == Some(x.command_id)
}

/// Whether a part of a record is reported as it should be: where the record has it, as a file
/// with what the decoder made of it; else not at all.
pub open spec fn part_reported(
    a: Option<Artifact>,
    x: Record,
    depth: usize,
    id: u32,
    wanted: bool,
    got: Result<Seq<u8>, Seq<char>>,
    files: Seq<Artifact>,
) -> bool {
    match a {
        Some(f) => wanted && got is Ok && holds_bytes(f, x, depth, id, got->Ok_0) && files.contains(f),
        None => !wanted,
    }
}

/// Whether a record is reported as it should be.
pub open spec fn record_reported(
    r: RecordInfo,
    x: Record,
    depth: usize,
    id: u32,
    d: Outcome,
    files: Seq<Artifact>,
) -> bool {
    &&& reports(r, x)
    &&& part_reported(
        r.image,
        x,
        depth,
        id,
        !x.is_direct() && x.image_size != 0,
        d.image,
        files,
    )
    &&& part_reported(r.metadata, x, depth, id, x.metadata_size != 0, d.metadata, files)
}

proof fn one_record_is_reported(l: Level, len: int, depth: usize, id: u32, x: Record, d: Outcome)
    ensures
        with_record(l, len, depth, id, x, d) matches Ok(m) ==> {
            &&& m.records.len() == l.records.len() + 1
            &&& m.records.drop_last() == l.records
            &&& record_reported(m.records.last(), x, depth, id, d, m.artifacts)
            &&& l.artifacts.len() <= m.artifacts.len()
            &&& m.artifacts.subrange(0, l.artifacts.len() as int) == l.artifacts
            &&& m.artifacts.len() - l.artifacts.len() == (if m.records.last().image is Some {
                1int
            } else {
                0
            }) + (if m.records.last().metadata is Some {
                1int
            } else {
                0
            })
            &&& m.modules == (if m.records.last().image is Some {
                l.modules.push(x.command_id)
            } else {
                l.modules
            })
        },
{
    match with_record(l, len, depth, id, x, d) {
        Ok(m) => {
            let r = m.records.last();
            assert(m.records.drop_last() =~= l.records);
            match (r.image, r.metadata) {
                (Some(a), Some(b)) => {
                    assert(m.artifacts =~= l.artifacts.push(a).push(b));
                    assert(m.artifacts[l.artifacts.len() as int] == a);
                    assert(m.artifacts[l.artifacts.len() as int + 1] == b);
                },
                (Some(a), None) => {
                    assert(m.artifacts =~= l.artifacts.push(a));
                    assert(m.artifacts[l.artifacts.len() as int] == a);
                },
                (None, Some(b)) => {
                    assert(m.artifacts =~= l.artifacts.push(b));
                    assert(m.artifacts[l.artifacts.len() as int] == b);
                },
                (None, None) => {},
            }
            assert(m.artifacts.subrange(0, l.artifacts.len() as int) =~= l.artifacts);
        },
        Err(e) => {},
    }
}

/// Whether the records from `n` on are reported behind those of a level.
pub open spec fn records_reported(
    l: Level,
    m: Level,
    depth: usize,
    id: u32,
    list: Seq<Record>,
    got: Seq<Outcome>,
    n: int,
) -> bool {
    &&& m.records.len() == l.records.len() + list.len() - n
    &&& m.records.subrange(0, l.records.len() as int) == l.records
    &&& l.artifacts.len() <= m.artifacts.len()
    &&& m.artifacts.subrange(0, l.artifacts.len() as int) == l.artifacts
    &&& forall|k: int|
        n <= k < list.len() ==> record_reported(
            m.records[l.records.len() + k - n],
            #[trigger] list[k],
            depth,
            id,
            got[k],
            m.artifacts,
        )
}

proof fn reported_record_stays(
    r: RecordInfo,
    x: Record,
    depth: usize,
    id: u32,
    d: Outcome,
    files: Seq<Artifact>,
    more: Seq<Artifact>,
)
    requires
        record_reported(r, x, depth, id, d, files),
        files.len() <= more.len(),
        more.subrange(0, files.len() as int) == files,
    ensures
        record_reported(r, x, depth, id, d, more),
{
    if let Some(a) = r.image {
        let i = choose|i: int| 0 <= i < files.len() && files[i] == a;
        assert(more.subrange(0, files.len() as int)[i] == more[i]);
        assert(more.contains(a));
    }
    if let Some(a) = r.metadata {
        let i = choose|i: int| 0 <= i < files.len() && files[i] == a;
        assert(more.subrange(0, files.len() as int)[i] == more[i]);
        assert(more.contains(a));
    }
}

/// Every record of a stream is reported once, in order, with a file for each part that it
/// has and none for a part that it has not.
pub proof fn every_record_is_reported(
    l: Level,
    len: int,
    depth: usize,
    id: u32,
    list: Seq<Record>,
    got: Seq<Outcome>,
    n: int,
)
    requires
        0 <= n <= list.len(),
    ensures
        with_records(l, len, depth, id, list, got, n) matches Ok(m) ==> records_reported(
            l,
            m,
            depth,
            id,
            list,
            got,
            n,
        ),
    decreases list.len() - n,
{
    if n >= list.len() {
        assert(l.records.subrange(0, l.records.len() as int) =~= l.records);
        assert(l.artifacts.subrange(0, l.artifacts.len() as int) =~= l.artifacts);
    } else {
        one_record_is_reported(l, len, depth, id, list[n], got[n]);
        match with_record(l, len, depth, id, list[n], got[n]) {
            Ok(t) => {
                every_record_is_reported(t, len, depth, id, list, got, n + 1);
                match with_records(t, len, depth, id, list, got, n + 1) {
                    Ok(m) => {
                        let a = l.records.len() as int;
                        assert(m.records.subrange(0, a) =~= l.records) by {
                            assert(m.records.subrange(0, a + 1).subrange(0, a) =~= m.records.subrange(
                                0,
                                a,
                            ));
                            assert(t.records.subrange(0, a) =~= t.records.drop_last());
                        }
                        let b = l.artifacts.len() as int;
                        assert(m.artifacts.subrange(0, b) =~= l.artifacts) by {
                            assert(m.artifacts.subrange(0, t.artifacts.len() as int).subrange(0, b)
                                =~= m.artifacts.subrange(0, b));
                        }
                        assert forall|k: int| n <= k < list.len() implies record_reported(
                            m.records[l.records.len() + k - n],
                            #[trigger] list[k],
                            depth,
                            id,
                            got[k],
                            m.artifacts,
                        ) by {
                            if k == n {
                                assert(m.records.subrange(0, a + 1)[a] == m.records[a]);
                                assert(t.records.last() == t.records[a]);
                                reported_record_stays(
                                    t.records.last(),
                                    list[n],
                                    depth,
                                    id,
                                    got[n],
                                    t.artifacts,
                                    m.artifacts,
                                );
                            }
                        }
                    },
                    Err(e) => {},
                }
            },
            Err(e) => {},
        }
    }
}

/// Whether one of the stored images of a level is a stream: the level has its module.
pub open spec fn is_stream(l: Level, x: Record) -> bool {
    exists|i: int|
        0 <= i < l.modules.len() && #[trigger] l.modules[i] == x.command_id.wrapping_sub(0x10)
}

/// The streams among the stored images from `n` on are exactly those whose module the level
/// has, in order, each under the number of its module.
pub proof fn stored_streams_are_found(
    l: Level,
    s: Seq<u8>,
    depth: usize,
    id: u32,
    n: int,
    acc: Seq<Child>,
)
    requires
        0 <= n <= l.direct.len(),
    ensures
        with_directs(l, s, depth, id, n, acc) matches Ok((m, found)) ==> {
            &&& acc.len() <= found.len()
            &&& found.subrange(0, acc.len() as int) == acc
            &&& forall|k: int|
                acc.len() <= k < found.len() ==> (#[trigger] found[k]).stream_id
                    == found[k].record.command_id.wrapping_sub(0x10) && is_stream(l, found[k].record)
            &&& forall|k: int|
                n <= k < l.direct.len() && is_stream(l, (#[trigger] l.direct[k]).0)
                    ==> has_child(found, l.direct[k].0)
            &&& m.modules == l.modules
            &&& m.registry == l.registry
        },
    decreases l.direct.len() - n,
{
    if n >= l.direct.len() {
        assert(acc.subrange(0, acc.len() as int) =~= acc);
    } else {
        let (x, at) = l.direct[n];
        let info = l.records[at];
        if l.modules.contains(child_id(x)) {
            let next = Level {
                records: l.records.update(
                    at,
                    RecordInfo { nested_stream_id: Some(child_id(x)), ..info },
                ),
                ..l
            };
            let child = Child { record: x, stream_id: child_id(x) };
            stored_streams_are_found(next, s, depth, id, n + 1, acc.push(child));
            match with_directs(next, s, depth, id, n + 1, acc.push(child)) {
                Ok((m, found)) => {
                    let a = acc.len() as int;
                    assert(found.subrange(0, a + 1)[a] == found[a]);
                    assert(found[a] == child);
                    assert(found.subrange(0, a) =~= acc) by {
                        assert(found.subrange(0, a + 1).subrange(0, a) =~= found.subrange(0, a));
                        assert(acc.push(child).subrange(0, a) =~= acc);
                    }
                    let i = choose|i: int| 0 <= i < l.modules.len() && l.modules[i] == child_id(x);
                    assert(l.modules[i] == x.command_id.wrapping_sub(0x10));
                    assert(is_stream(l, x));
                    assert(has_child(found, x));
                    assert forall|k: int|
                        acc.len() <= k < found.len() implies (#[trigger] found[k]).stream_id
                        == found[k].record.command_id.wrapping_sub(0x10) && is_stream(
                        l,
                        found[k].record,
                    ) by {
                        if k > a {
                            assert(is_stream(next, found[k].record));
                        }
                    }
                    assert forall|k: int|
                        n <= k < l.direct.len() && is_stream(
                            l,
                            (#[trigger] l.direct[k]).0,
                        ) implies has_child(found, l.direct[k].0) by {
                        if k > n {
                            assert(is_stream(next, next.direct[k].0));
                        }
                    }
                },
                Err(e) => {},
            }
        } else if x.image_offset + x.image_size <= s.len() {
            let data = s.subrange(x.image_offset as int, x.image_offset + x.image_size);
            let a = crate::android::extract::artifact_for(
                x,
                depth,
                id,
                crate::android::extract::ArtifactKind::Direct,
                data,
            );
            let next = Level {
                artifacts: l.artifacts.push(a),
                records: l.records.update(at, RecordInfo { image: Some(a), ..info }),
                ..l
            };
            stored_streams_are_found(next, s, depth, id, n + 1, acc);
            assert(!is_stream(l, x)) by {
                if is_stream(l, x) {
                    let i = choose|i: int|
                        0 <= i < l.modules.len() && #[trigger] l.modules[i]
                            == x.command_id.wrapping_sub(0x10);
                    assert(l.modules.contains(child_id(x)));
                }
            }
            match with_directs(next, s, depth, id, n + 1, acc) {
                Ok((m, found)) => {
                    assert forall|k: int|
                        acc.len() <= k < found.len() implies (#[trigger] found[k]).stream_id
                        == found[k].record.command_id.wrapping_sub(0x10) && is_stream(
                        l,
                        found[k].record,
                    ) by {
                        assert(is_stream(next, found[k].record));
                    }
                    assert forall|k: int|
                        n <= k < l.direct.len() && is_stream(
                            l,
                            (#[trigger] l.direct[k]).0,
                        ) implies has_child(found, l.direct[k].0) by {
                        if k > n {
                            assert(is_stream(next, next.direct[k].0));
                        }
                    }
                },
                Err(e) => {},
            }
        }
    }
}

/// Whether a record is among the streams that were found.
pub open spec fn has_child(found: Seq<Child>, x: Record) -> bool {
    exists|i: int| 0 <= i < found.len() && (#[trigger] found[i]).record == x
}

} // verus!
