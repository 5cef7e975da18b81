//! What is left to do outside for a stream: the containers to open and the stored
//! images to write, one at a time.

use vstd::prelude::*;

use crate::android::extract::{
    bytes_view, child_id, extracted, has_number, module_of, opened, outcome_views, registered, slot_from, with_record,
    with_records, ArtifactKind, Decoded, DecoderConfig, Extractor, Level, Module, Outcome, Source,
    State,
};
use crate::android::error::Part;
use crate::android::stream::{
    parse_record_stream, payloads_follow_the_table, stream_of, FixedProduct, Record, StreamHeader,
};
use crate::digest::{content_identity, identity_of};

verus! {

/// The next thing to do for a stream.
#[derive(Debug, Clone, Copy, PartialEq, Eq, Structural)]
pub enum Task {
    /// Open the container that starts at `start` of the stream, which holds `size`
    /// bytes, and write them.
    Open { record: Record, kind: ArtifactKind, start: usize, size: u32 },
    /// Write the bytes `start..end` of the stream.
    Store { record: Record, start: usize, end: usize },
}

/// What came of the containers that were opened.
pub open spec fn results_view(v: Seq<Result<Vec<u8>, String>>) -> Seq<
    Result<Seq<u8>, Seq<char>>,
> {
    Seq::new(v.len(), |i: int| bytes_view(v[i]))
}

/// Whether a record's image is in a container.
pub open spec fn wants_image(x: Record) -> bool {
    !x.is_direct() && x.image_size != 0
}

/// Whether a record has metadata, which is in a container.
pub open spec fn wants_metadata(x: Record) -> bool {
    x.metadata_size != 0
}

/// How many containers a record has.
pub open spec fn parts_of(x: Record) -> int {
    (if wants_image(x) {
        1int
    } else {
        0
    }) + if wants_metadata(x) {
        1int
    } else {
        0
    }
}

/// How many containers the first `n` records have.
pub open spec fn parts_before(list: Seq<Record>, n: int) -> int
    decreases n,
{
    if n <= 0 {
        0
    } else {
        parts_before(list, n - 1) + parts_of(list[n - 1])
    }
}

/// What came of container `k`, if it was opened.
pub open spec fn result_at(got: Seq<Result<Seq<u8>, Seq<char>>>, wanted: bool, k: int) -> Result<
    Seq<u8>,
    Seq<char>,
> {
    if wanted && k < got.len() {
        got[k]
    } else {
        Err("not opened"@)
    }
}

/// What came of a record whose first container is number `k`.
pub open spec fn outcome_of(x: Record, got: Seq<Result<Seq<u8>, Seq<char>>>, k: int) -> Outcome {
    Outcome {
        image: result_at(got, wants_image(x), k),
        metadata: result_at(
            got,
            wants_metadata(x),
            k + if wants_image(x) {
                1int
            } else {
                0
            },
        ),
    }
}

/// What came of each record, where `got` is what came of the containers in order.
pub open spec fn gathered(list: Seq<Record>, got: Seq<Result<Seq<u8>, Seq<char>>>) -> Seq<Outcome> {
    Seq::new(list.len(), |n: int| outcome_of(list[n], got, parts_before(list, n)))
}

/// The container of a record that is to be opened next, where the first is number
/// `k`: one inside the stream, behind an image that was opened.
pub open spec fn unopened(
    len: int,
    x: Record,
    got: Seq<Result<Seq<u8>, Seq<char>>>,
    k: int,
) -> Option<Task> {
    if wants_image(x) && x.image_offset <= len && k >= got.len() {
        Some(
            Task::Open {
                record: x,
                kind: ArtifactKind::Image { with_metadata: wants_metadata(x) },
                start: x.image_offset as usize,
                size: x.image_size,
            },
        )
    } else if (wants_image(x) ==> x.image_offset <= len && got[k] is Ok) && wants_metadata(x)
        && x.metadata_offset <= len && k + (if wants_image(x) {
        1int
    } else {
        0
    }) >= got.len() {
        Some(
            Task::Open {
                record: x,
                kind: ArtifactKind::Metadata,
                start: x.metadata_offset as usize,
                size: x.metadata_size,
            },
        )
    } else {
        None
    }
}

/// The stored image from number `n` on that is to be written next, where `stored` of
/// them have been written: those that are no streams, up to the first that leaves
/// the stream.
pub open spec fn unstored(l: Level, len: int, stored: int, n: int) -> Option<Task>
    decreases l.direct.len() - n,
{
    if n >= l.direct.len() {
        None
    } else {
        let x = l.direct[n].0;
        if l.modules.contains(child_id(x)) {
            unstored(l, len, stored, n + 1)
        } else if x.image_offset + x.image_size > len {
            None
        } else if stored > 0 {
            unstored(l, len, stored - 1, n + 1)
        } else {
            Some(
                Task::Store {
                    record: x,
                    start: x.image_offset as usize,
                    end: (x.image_offset + x.image_size) as usize,
                },
            )
        }
    }
}

/// What is to be done next for the records from `n` on. Nothing is left where one
/// fails.
pub open spec fn task_from(
    l: Level,
    len: int,
    depth: usize,
    id: u32,
    list: Seq<Record>,
    got: Seq<Result<Seq<u8>, Seq<char>>>,
    stored: int,
    n: int,
) -> Option<Task>
    decreases list.len() - n,
{
    if n >= list.len() {
        unstored(l, len, stored, 0)
    } else {
        let k = parts_before(list, n);
        match unopened(len, list[n], got, k) {
            Some(task) => Some(task),
            None => match with_record(l, len, depth, id, list[n], outcome_of(list[n], got, k)) {
                Err(_) => None,
                Ok(l) => task_from(l, len, depth, id, list, got, stored, n + 1),
            },
        }
    }
}

/// The level of a stream in front of its first record.
pub open spec fn first_level(st: State) -> Level {
    Level {
        artifacts: st.artifacts,
        registry: st.registry,
        records: Seq::empty(),
        direct: Seq::empty(),
        modules: Seq::empty(),
    }
}

/// What is to be done next for a stream. A stream that was met before, or whose
/// records cannot be read, has nothing to do.
pub open spec fn task_of(
    st: State,
    m: FixedProduct,
    s: Seq<u8>,
    id: u32,
    depth: usize,
    got: Seq<Result<Seq<u8>, Seq<char>>>,
    stored: int,
) -> Option<Task> {
    if got.len() == 0 && stored == 0 && st.seen.contains((id, identity_of(s))) {
        None
    } else {
        match stream_of(m, s, id) {
            Err(_) => None,
            Ok((_, list, _)) => task_from(
                first_level(st),
                s.len() as int,
                depth,
                id,
                list,
                got,
                stored,
                0,
            ),
        }
    }
}

/// A module of a level: one that was there, or one of this stream.
struct Slot {
    id: u32,
    /// Whether it was there before.
    known: bool,
    /// Its place in the registry, or its container.
    at: usize,
}

/// Whether a slot stands for a module.
spec fn stands_for(e: Extractor, got: Seq<Result<Vec<u8>, String>>, x: Slot, y: Module) -> bool {
    &&& x.id == y.command_id
    &&& if x.known {
        x.at < e.registry@.len() && e.registry@[x.at as int].sha256@ == y.sha256
    } else {
        x.at < got.len() && got[x.at as int] is Ok && identity_of(got[x.at as int]->Ok_0@)
            == y.sha256
    }
}

/// Whether slots stand for the modules of a registry.
spec fn stand_for(
    e: Extractor,
    got: Seq<Result<Vec<u8>, String>>,
    slots: Seq<Slot>,
    reg: Seq<Module>,
) -> bool {
    &&& slots.len() == reg.len()
    &&& forall|i: int| 0 <= i < reg.len() ==> stands_for(e, got, #[trigger] slots[i], reg[i])
}

/// The records of some stored images.
spec fn direct_records(v: Seq<(Record, int)>) -> Seq<Record> {
    Seq::new(v.len(), |i: int| v[i].0)
}

/// The module that a record enters.
spec fn entered(len: int, depth: usize, id: u32, x: Record, d: Outcome) -> Module {
    let image = opened(
        len,
        x,
        depth,
        id,
        Part::Image,
        true,
        x.image_offset,
        ArtifactKind::Image { with_metadata: wants_metadata(x) },
        d.image,
    );
    let metadata = opened(
        len,
        x,
        depth,
        id,
        Part::Metadata,
        wants_metadata(x),
        x.metadata_offset,
        ArtifactKind::Metadata,
        d.metadata,
    );
    module_of(x, depth, image->Ok_0->Some_0, metadata->Ok_0, d.image->Ok_0)
}

fn image_wanted(x: &Record) -> (r: bool)
    ensures
        r == wants_image(*x),
{
    !x.direct() && x.image_size != 0
}

impl Extractor {
    /// The digest of the module that a slot stands for.
    fn slot_digest(&self, got: &[Result<Vec<u8>, String>], x: &Slot, Ghost(y): Ghost<Module>) -> (r:
        String)
        requires
            stands_for(*self, got@, *x, y),
        ensures
            r@ == y.sha256,
    {
        if x.known {
            self.registry[x.at].sha256.clone()
        } else {
            match &got[x.at] {
                Ok(data) => content_identity(data),
                Err(_) => String::new(),
            }
        }
    }

    /// Enter the module of container `k`, if it does not conflict.
    fn enter(
        &self,
        got: &[Result<Vec<u8>, String>],
        slots: &mut Vec<Slot>,
        k: usize,
        Ghost(reg): Ghost<Seq<Module>>,
        Ghost(y): Ghost<Module>,
        id: u32,
    ) -> (r: bool)
        requires
            stand_for(*self, got@, old(slots)@, reg),
            k < got@.len(),
            got@[k as int] is Ok,
            y.command_id == id,
            y.sha256 == identity_of(got@[k as int]->Ok_0@),
        ensures
            match registered(reg, y) {
                Ok(after) => r && stand_for(*self, got@, final(slots)@, after),
                Err(_) => !r,
            },
    {
        let mut i: usize = 0;
        while i < slots.len() && slots[i].id < id
            invariant
                i <= slots@.len(),
                slots@ == old(slots)@,
                stand_for(*self, got@, slots@, reg),
                slot_from(reg, id, 0) == slot_from(reg, id, i as int),
            decreases slots@.len() - i,
        {
            assert(stands_for(*self, got@, slots@[i as int], reg[i as int]));
            i = i + 1;
        }
        if i < slots.len() {
            assert(stands_for(*self, got@, slots@[i as int], reg[i as int]));
        }
        if i < slots.len() && slots[i].id == id {
            let before: String = self.slot_digest(got, &slots[i], Ghost(reg[i as int]));
            let now: String = match &got[k] {
                Ok(data) => content_identity(data),
                Err(_) => String::new(),
            };
            return before == now;
        }
        let x = Slot { id, known: false, at: k };
        let ghost old_slots = slots@;
        slots.insert(i, x);
        proof {
            let after = reg.insert(i as int, y);
            assert forall|j: int| 0 <= j < after.len() implies stands_for(
                *self,
                got@,
                #[trigger] slots@[j],
                after[j],
            ) by {
                if j < i {
                    assert(slots@[j] == old_slots[j]);
                    assert(after[j] == reg[j]);
                } else if j > i {
                    assert(slots@[j] == old_slots[j - 1]);
                    assert(after[j] == reg[j - 1]);
                }
            }
        }
        true
    }

    fn first_slots(&self, got: &[Result<Vec<u8>, String>]) -> (r: Vec<Slot>)
        ensures
            stand_for(*self, got@, r@, self@.registry),
    {
        let mut slots: Vec<Slot> = Vec::new();
        let mut i: usize = 0;
        while i < self.registry.len()
            invariant
                i <= self.registry@.len(),
                slots@.len() == i,
                forall|j: int|
                    0 <= j < i ==> stands_for(
                        *self,
                        got@,
                        #[trigger] slots@[j],
                        self@.registry[j],
                    ),
            decreases self.registry@.len() - i,
        {
            slots.push(Slot { id: self.registry[i].command_id, known: true, at: i });
            i = i + 1;
        }
        slots
    }

    /// What is to be done next for a stream, where `got` is what came of the containers
    /// opened so far and `stored` is how many stored images were written. In the end
    /// [`gather`] gives what [`Extractor::extract_stream`] is told.
    pub fn next_task(
        &self,
        m: &FixedProduct,
        stream: &[u8],
        id: u32,
        depth: usize,
        got: &[Result<Vec<u8>, String>],
        stored: usize,
    ) -> (r: Option<Task>)
        ensures
            r == task_of(self@, *m, stream@, id, depth, results_view(got@), stored as int),
            match r {
                Some(Task::Open { start, .. }) => start <= stream@.len(),
                Some(Task::Store { start, end, .. }) => start <= end <= stream@.len(),
                None => true,
            },
    {
        let len: usize = stream.len();
        if got.len() == 0 && stored == 0 {
            let digest: String = content_identity(stream);
            if self.has_seen(id, &digest) {
                return None;
            }
        }
        let (_, records, _): (StreamHeader, Vec<Record>, usize) = match parse_record_stream(
            m,
            stream,
            id,
        ) {
            Ok(v) => v,
            Err(_) => return None,
        };
        let ghost list = records@;
        let ghost results = results_view(got@);
        let ghost mut l = first_level(self@);
        let ghost whole = task_from(
            l,
            len as int,
            depth,
            id,
            list,
            results,
            stored as int,
            0,
        );
        let mut slots: Vec<Slot> = self.first_slots(got);
        let mut direct: Vec<Record> = Vec::new();
        let mut modules: Vec<u32> = Vec::new();
        assert(direct@ =~= direct_records(l.direct));
        assert(modules@ =~= l.modules);
        let mut k: usize = 0;
        let mut n: usize = 0;
        while n < records.len()
            invariant
                n <= records@.len(),
                records@ == list,
                len == stream@.len(),
                results == results_view(got@),
                k == parts_before(list, n as int),
                k <= got@.len(),
                stand_for(*self, got@, slots@, l.registry),
                direct@ == direct_records(l.direct),
                modules@ == l.modules,
                whole == task_from(
                    l,
                    len as int,
                    depth,
                    id,
                    list,
                    results,
                    stored as int,
                    n as int,
                ),
                whole == task_of(self@, *m, stream@, id, depth, results, stored as int),
            decreases records@.len() - n,
        {
            let x: Record = records[n];
            let with_metadata: bool = x.metadata_size != 0;
            let image: bool = image_wanted(&x);
            let ghost d = outcome_of(x, results, k as int);
            let ghost first = k as int;
            if image {
                if x.image_offset as usize > len {
                    return None;
                }
                if k >= got.len() {
                    return Some(
                        Task::Open {
                            record: x,
                            kind: ArtifactKind::Image { with_metadata },
                            start: x.image_offset as usize,
                            size: x.image_size,
                        },
                    );
                }
                assert(results[k as int] == bytes_view(got@[k as int]));
                if got[k].is_err() {
                    return None;
                }
                k = k + 1;
            }
            if with_metadata {
                if x.metadata_offset as usize > len {
                    return None;
                }
                if k >= got.len() {
                    return Some(
                        Task::Open {
                            record: x,
                            kind: ArtifactKind::Metadata,
                            start: x.metadata_offset as usize,
                            size: x.metadata_size,
                        },
                    );
                }
                assert(results[k as int] == bytes_view(got@[k as int]));
                if got[k].is_err() {
                    return None;
                }
                k = k + 1;
            }
            assert(unopened(len as int, x, results, first) is None);
            if image {
                let at: usize = if with_metadata {
                    k - 2
                } else {
                    k - 1
                };
                let ghost y = entered(len as int, depth, id, x, d);
                if !self.enter(got, &mut slots, at, Ghost(l.registry), Ghost(y), x.command_id) {
                    return None;
                }
                modules.push(x.command_id);
            }
            proof {
                l = with_record(l, len as int, depth, id, x, d)->Ok_0;
            }
            if x.direct() && x.image_size != 0 {
                direct.push(x);
            }
            assert(direct@ =~= direct_records(l.direct));
            assert(modules@ =~= l.modules);
            n = n + 1;
        }
        self.next_stored(len, &direct, &modules, stored, Ghost(l))
    }

    fn next_stored(
        &self,
        len: usize,
        direct: &Vec<Record>,
        modules: &Vec<u32>,
        stored: usize,
        Ghost(l): Ghost<Level>,
    ) -> (r: Option<Task>)
        requires
            direct@ == direct_records(l.direct),
            modules@ == l.modules,
        ensures
            r == unstored(l, len as int, stored as int, 0),
            match r {
                Some(Task::Open { .. }) => false,
                Some(Task::Store { start, end, .. }) => start <= end <= len,
                None => true,
            },
    {
        let mut left: usize = stored;
        let mut n: usize = 0;
        while n < direct.len()
            invariant
                n <= direct@.len(),
                direct@ == direct_records(l.direct),
                modules@ == l.modules,
                unstored(l, len as int, stored as int, 0) == unstored(
                    l,
                    len as int,
                    left as int,
                    n as int,
                ),
            decreases direct@.len() - n,
        {
            let x: Record = direct[n];
            assert(l.direct[n as int].0 == x);
            if !has_number(modules, x.command_id.wrapping_sub(0x10)) {
                let end: u64 = x.image_offset as u64 + x.image_size as u64;
                if end > len as u64 {
                    return None;
                }
                if left == 0 {
                    return Some(
                        Task::Store {
                            record: x,
                            start: x.image_offset as usize,
                            end: end as usize,
                        },
                    );
                }
                left = left - 1;
            }
            n = n + 1;
        }
        None
    }
}

proof fn parts_grow(list: Seq<Record>, a: int, b: int)
    requires
        0 <= a <= b,
    ensures
        0 <= parts_before(list, a) <= parts_before(list, b) <= 2 * b,
    decreases b,
{
    if a < b {
        parts_grow(list, a, b - 1);
    } else if b > 0 {
        parts_grow(list, b - 1, b - 1);
    }
}

fn not_opened() -> (r: Result<Vec<u8>, String>)
    ensures
        bytes_view(r) == Err::<Seq<u8>, Seq<char>>("not opened"@),
{
    Err("not opened".to_owned())
}

fn gather_records(records: &Vec<Record>, got: Vec<Result<Vec<u8>, String>>) -> (r: Vec<Decoded>)
    requires
        records@.len() <= 0xFFFF,
    ensures
        outcome_views(r@) == gathered(records@, results_view(got@)),
{
    let ghost list = records@;
    let ghost all = results_view(got@);
    let mut rest: Vec<Result<Vec<u8>, String>> = got;
    let mut k: usize = 0;
    let mut n: usize = 0;
    while n < records.len()
        invariant
            n <= records@.len() <= 0xFFFF,
            records@ == list,
            k == parts_before(list, n as int),
            k <= 2 * n,
        decreases records@.len() - n,
    {
        if image_wanted(&records[n]) {
            k = k + 1;
        }
        if records[n].metadata_size != 0 {
            k = k + 1;
        }
        n = n + 1;
    }
    while rest.len() > k
        invariant
            k <= rest@.len() || rest@.len() == all.len(),
            rest@.len() <= all.len(),
            forall|i: int| 0 <= i < rest@.len() ==> bytes_view(#[trigger] rest@[i]) == all[i],
        decreases rest@.len(),
    {
        let _ = rest.pop();
    }
    let mut out: Vec<Decoded> = Vec::new();
    while n > 0
        invariant
            n <= records@.len() <= 0xFFFF,
            records@ == list,
            k == parts_before(list, n as int),
            rest@.len() <= k,
            rest@.len() == k || rest@.len() == all.len(),
            rest@.len() <= all.len(),
            forall|i: int| 0 <= i < rest@.len() ==> bytes_view(#[trigger] rest@[i]) == all[i],
            out@.len() == list.len() - n,
            forall|j: int|
                0 <= j < out@.len() ==> (#[trigger] out@[j])@ == outcome_of(
                    list[n + j],
                    all,
                    parts_before(list, n + j),
                ),
        decreases n,
    {
        n = n - 1;
        let x: Record = records[n];
        proof {
            parts_grow(list, n as int, n + 1);
        }
        let ghost first = parts_before(list, n as int);
        let mut metadata: Result<Vec<u8>, String> = not_opened();
        let mut image: Result<Vec<u8>, String> = not_opened();
        if x.metadata_size != 0 {
            k = k - 1;
            if rest.len() > k {
                metadata = match rest.pop() {
                    Some(v) => v,
                    None => not_opened(),
                };
            }
        }
        if image_wanted(&x) {
            k = k - 1;
            if rest.len() > k {
                image = match rest.pop() {
                    Some(v) => v,
                    None => not_opened(),
                };
            }
        }
        let d = Decoded { image, metadata };
        assert(d@ == outcome_of(x, all, first));
        let ghost before = out@;
        out.insert(0, d);
        assert forall|j: int| 0 <= j < out@.len() implies (#[trigger] out@[j])@ == outcome_of(
            list[n + j],
            all,
            parts_before(list, n + j),
        ) by {
            if j > 0 {
                assert(out@[j] == before[j - 1]);
            }
        }
    }
    assert(outcome_views(out@) =~= gathered(list, all));
    out
}

/// What came of each record of a stream, where `got` is what came of its containers in
/// order. Nothing where the records cannot be read.
pub fn gather(
    m: &FixedProduct,
    stream: &[u8],
    id: u32,
    got: Vec<Result<Vec<u8>, String>>,
) -> (r: Vec<Decoded>)
    ensures
        match stream_of(*m, stream@, id) {
            Ok((_, list, _)) => outcome_views(r@) == gathered(list, results_view(got@)) && r@.len()
                == list.len(),
            Err(_) => r@.len() == 0,
        },
{
    match parse_record_stream(m, stream, id) {
        Ok((_, records, _)) => {
            proof {
                payloads_follow_the_table(*m, stream@, id);
            }
            let r: Vec<Decoded> = gather_records(&records, got);
            assert(outcome_views(r@).len() == r@.len());
            r
        },
        Err(_) => Vec::new(),
    }
}

proof fn nothing_to_open(
    l: Level,
    len: int,
    depth: usize,
    id: u32,
    list: Seq<Record>,
    got: Seq<Result<Seq<u8>, Seq<char>>>,
    stored: int,
    n: int,
)
    requires
        0 <= n,
        with_records(l, len, depth, id, list, gathered(list, got), n) is Ok,
    ensures
        !(task_from(l, len, depth, id, list, got, stored, n) matches Some(Task::Open { .. })),
    decreases list.len() - n,
{
    if n < list.len() {
        let k = parts_before(list, n);
        let d = outcome_of(list[n], got, k);
        assert(gathered(list, got)[n] == d);
        nothing_to_open(
            with_record(l, len, depth, id, list[n], d)->Ok_0,
            len,
            depth,
            id,
            list,
            got,
            stored,
            n + 1,
        );
    } else {
        nothing_but_stored(l, len, stored, 0);
    }
}

proof fn nothing_but_stored(l: Level, len: int, stored: int, n: int)
    ensures
        !(unstored(l, len, stored, n) matches Some(Task::Open { .. })),
    decreases l.direct.len() - n,
{
    if n < l.direct.len() {
        nothing_but_stored(l, len, stored, n + 1);
        nothing_but_stored(l, len, stored - 1, n + 1);
    }
}

/// An extraction that succeeds has opened every container: none is asked for any more.
pub proof fn extraction_opens_everything(
    st: State,
    m: FixedProduct,
    c: DecoderConfig,
    src: Source,
    got: Seq<Result<Seq<u8>, Seq<char>>>,
    stored: int,
)
    requires
        stream_of(m, src.stream, src.id) matches Ok((_, list, _)) && extracted(
            st,
            m,
            c,
            src,
            gathered(list, got),
        ) is Ok,
        !st.seen.contains((src.id, identity_of(src.stream))),
    ensures
        !(task_of(st, m, src.stream, src.id, src.depth, got, stored) matches Some(
            Task::Open { .. },
        )),
{
    let (_, list, _) = stream_of(m, src.stream, src.id)->Ok_0;
    nothing_to_open(
        first_level(st),
        src.stream.len() as int,
        src.depth,
        src.id,
        list,
        got,
        stored,
        0,
    );
}

} // verus!
