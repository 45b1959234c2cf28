//! The chunk reassembly engine: tracks in-flight uploads keyed by
//! filename, accepts out-of-order chunk arrivals, determines completion,
//! and assembles the final byte sequence.
//!
//! An upload's declared total is fixed by the first chunk seen for its
//! filename; a later chunk that declares a different total does not change
//! it.  A chunk whose index is not below that total is rejected, so an
//! upload whose filled slots number its total holds exactly the indices
//! `0 .. total`.

use vstd::prelude::*;
use vstd::slice::slice_to_vec;

use crate::names::{valid_name, validate_name};
use crate::wire::bytes_eq;

verus! {

#[derive(Clone, Copy, Debug, PartialEq, Eq, Structural)]
pub enum EngineError {
    /// The destination name fails validation; no pending entry is created.
    InvalidFilename,
    /// The chunk's index is not below the upload's declared total.
    InvalidChunkIndex,
    /// Completion was requested for a filename with no pending upload.
    NoPendingUpload,
    /// Completion was requested before every chunk arrived.
    IncompleteUpload,
}

/// The mathematical content of one pending upload: the declared total and
/// one slot per chunk index, filled as chunks arrive.
#[verifier::ext_equal]
pub ghost struct UploadModel {
    pub total: nat,
    pub slots: Seq<Option<Seq<u8>>>,
}

impl UploadModel {
    pub open spec fn wf(self) -> bool {
        self.slots.len() == self.total
    }
}

/// How many slots hold a chunk.
pub open spec fn filled_count(s: Seq<Option<Seq<u8>>>) -> int
    decreases s.len(),
{
    if s.len() == 0 {
        0
    } else {
        filled_count(s.drop_last()) + if s.last() is Some {
            1int
        } else {
            0int
        }
    }
}

/// The assembled bytes: the concatenation of the slots in index order, an
/// empty slot contributing nothing.
pub open spec fn assembled(s: Seq<Option<Seq<u8>>>) -> Seq<u8>
    decreases s.len(),
{
    if s.len() == 0 {
        Seq::empty()
    } else {
        assembled(s.drop_last()) + match s.last() {
            Some(d) => d,
            None => Seq::empty(),
        }
    }
}

pub proof fn lemma_filled_count_bounds(s: Seq<Option<Seq<u8>>>)
    ensures
        0 <= filled_count(s) <= s.len(),
    decreases s.len(),
{
    if s.len() > 0 {
        lemma_filled_count_bounds(s.drop_last());
    }
}

pub proof fn lemma_filled_count_empty(s: Seq<Option<Seq<u8>>>)
    requires
        forall|i: int| 0 <= i < s.len() ==> #[trigger] s[i] is None,
    ensures
        filled_count(s) == 0,
    decreases s.len(),
{
    if s.len() > 0 {
        lemma_filled_count_empty(s.drop_last());
    }
}

/// Filling one slot raises the count exactly when the slot was empty.
pub proof fn lemma_filled_count_update(s: Seq<Option<Seq<u8>>>, i: int, d: Seq<u8>)
    requires
        0 <= i < s.len(),
    ensures
        filled_count(s.update(i, Some(d))) == filled_count(s) + if s[i] is Some {
            0int
        } else {
            1int
        },
    decreases s.len(),
{
    let t = s.update(i, Some(d));
    if i == s.len() - 1 {
        assert(t.drop_last() =~= s.drop_last());
    } else {
        assert(t.drop_last() =~= s.drop_last().update(i, Some(d)));
        lemma_filled_count_update(s.drop_last(), i, d);
    }
}

/// A slot table whose filled slots number its length has every slot filled.
pub proof fn lemma_filled_count_full(s: Seq<Option<Seq<u8>>>)
    requires
        filled_count(s) == s.len(),
    ensures
        forall|i: int| 0 <= i < s.len() ==> #[trigger] s[i] is Some,
    decreases s.len(),
{
    if s.len() > 0 {
        lemma_filled_count_bounds(s.drop_last());
        lemma_filled_count_full(s.drop_last());
        assert forall|i: int| 0 <= i < s.len() implies #[trigger] s[i] is Some by {
            if i < s.len() - 1 {
                assert(s.drop_last()[i] is Some);
            }
        }
    }
}

// ---------------------------------------------------------------------------
// Concrete representation
// ---------------------------------------------------------------------------

struct Entry {
    name: Vec<u8>,
    total: u32,
    filled: usize,
    slots: Vec<Option<Vec<u8>>>,
}

/// The slot contents as sequences.
pub open spec fn slots_model(s: Seq<Option<Vec<u8>>>) -> Seq<Option<Seq<u8>>> {
    s.map_values(
        |o: Option<Vec<u8>>|
            match o {
                Some(v) => Some(v@),
                None => None,
            },
    )
}

impl Entry {
    spec fn model(self) -> UploadModel {
        UploadModel { total: self.total as nat, slots: slots_model(self.slots@) }
    }

    spec fn wf(self) -> bool {
        &&& self.slots@.len() == self.total as int
        &&& self.filled as int == filled_count(slots_model(self.slots@))
        &&& valid_name(self.name@)
    }
}

spec fn entries_wf(s: Seq<Entry>) -> bool {
    &&& forall|i: int, j: int|
        0 <= i < j < s.len() ==> #[trigger] s[i].name@ != #[trigger] s[j].name@
    &&& forall|i: int| 0 <= i < s.len() ==> #[trigger] s[i].wf()
}

spec fn entries_view(s: Seq<Entry>) -> Map<Seq<u8>, UploadModel> {
    Map::new(
        |k: Seq<u8>| exists|i: int| 0 <= i < s.len() && #[trigger] s[i].name@ == k,
        |k: Seq<u8>| s[choose|i: int| 0 <= i < s.len() && #[trigger] s[i].name@ == k].model(),
    )
}

/// What the view holds of each concrete entry: its name is a key, and the
/// key maps to its model.
proof fn lemma_entries_view(s: Seq<Entry>)
    requires
        entries_wf(s),
    ensures
        forall|k: Seq<u8>|
            #[trigger] entries_view(s).contains_key(k) <==> exists|i: int|
                0 <= i < s.len() && #[trigger] s[i].name@ == k,
        forall|i: int|
            0 <= i < s.len() ==> entries_view(s).contains_key(#[trigger] s[i].name@)
                && entries_view(s)[s[i].name@] == s[i].model(),
{
    assert forall|i: int|
        0 <= i < s.len() implies entries_view(s).contains_key(#[trigger] s[i].name@)
        && entries_view(s)[s[i].name@] == s[i].model() by {
        let k = s[i].name@;
        assert(entries_view(s).contains_key(k));
        let j = choose|j: int| 0 <= j < s.len() && #[trigger] s[j].name@ == k;
        if i < j {
            assert(s[i].name@ != s[j].name@);
        } else if j < i {
            assert(s[j].name@ != s[i].name@);
        }
    }
}

/// Appending an entry under a fresh name adds one key to the view.
proof fn lemma_view_after_push(pre: Seq<Entry>, e: Entry)
    requires
        entries_wf(pre),
        e.wf(),
        forall|i: int| 0 <= i < pre.len() ==> #[trigger] pre[i].name@ != e.name@,
    ensures
        entries_wf(pre.push(e)),
        entries_view(pre.push(e)) == entries_view(pre).insert(e.name@, e.model()),
{
    let post = pre.push(e);
    assert(forall|i: int| 0 <= i < pre.len() ==> post[i] == pre[i]);
    assert(post[pre.len() as int] == e);
    assert(entries_wf(post));
    lemma_entries_view(pre);
    lemma_entries_view(post);
    assert forall|k: Seq<u8>|
        #[trigger] entries_view(post).contains_key(k) <==> entries_view(pre).insert(
        e.name@,
        e.model(),
    ).contains_key(k) by {
        if entries_view(post).contains_key(k) {
            let i = choose|i: int| 0 <= i < post.len() && #[trigger] post[i].name@ == k;
            if i < pre.len() {
                assert(pre[i].name@ == k);
            }
        }
        if entries_view(pre).contains_key(k) {
            let i = choose|i: int| 0 <= i < pre.len() && #[trigger] pre[i].name@ == k;
            assert(post[i].name@ == k);
        }
        if k == e.name@ {
            assert(post[pre.len() as int].name@ == k);
        }
    }
    assert forall|k: Seq<u8>| #[trigger] entries_view(post).contains_key(k) implies entries_view(
        post,
    )[k] == entries_view(pre).insert(e.name@, e.model())[k] by {
        let i = choose|i: int| 0 <= i < post.len() && #[trigger] post[i].name@ == k;
        assert(entries_view(post)[k] == post[i].model());
        if i < pre.len() {
            assert(pre[i].name@ == k);
            assert(k != e.name@);
            assert(entries_view(pre)[k] == pre[i].model());
        } else {
            assert(post[i] == e);
        }
    }
    assert(entries_view(post) =~= entries_view(pre).insert(e.name@, e.model()));
}

/// The sequence a `swap_remove` at `i` leaves behind.
spec fn without(pre: Seq<Entry>, i: int) -> Seq<Entry> {
    pre.update(i, pre.last()).drop_last()
}

/// Each surviving index of a `swap_remove` holds a known entry of the
/// original sequence, at a position other than the removed one.
proof fn lemma_without_entries(pre: Seq<Entry>, i: int)
    requires
        0 <= i < pre.len(),
    ensures
        without(pre, i).len() == pre.len() - 1,
        forall|j: int|
            0 <= j < pre.len() - 1 ==> #[trigger] without(pre, i)[j] == (if j == i {
                pre[pre.len() - 1]
            } else {
                pre[j]
            }),
{
}

/// Removing an entry removes exactly its key from the view.
proof fn lemma_view_after_remove(pre: Seq<Entry>, i: int)
    requires
        entries_wf(pre),
        0 <= i < pre.len(),
    ensures
        entries_wf(without(pre, i)),
        entries_view(without(pre, i)) == entries_view(pre).remove(pre[i].name@),
{
    let mid = without(pre, i);
    lemma_without_entries(pre, i);
    assert forall|a: int, b: int|
        0 <= a < b < mid.len() implies #[trigger] mid[a].name@ != #[trigger] mid[b].name@ by {
        let a0 = if a == i {
            pre.len() - 1
        } else {
            a
        };
        let b0 = if b == i {
            pre.len() - 1
        } else {
            b
        };
        assert(mid[a] == pre[a0] && mid[b] == pre[b0]);
        assert(a0 != b0);
    }
    assert(entries_wf(mid));
    lemma_entries_view(pre);
    lemma_entries_view(mid);
    let name = pre[i].name@;
    assert forall|k: Seq<u8>|
        #[trigger] entries_view(mid).contains_key(k) <==> entries_view(pre).remove(
        name,
    ).contains_key(k) by {
        if entries_view(mid).contains_key(k) {
            let j = choose|j: int| 0 <= j < mid.len() && #[trigger] mid[j].name@ == k;
            let j0 = if j == i {
                pre.len() - 1
            } else {
                j
            };
            assert(pre[j0].name@ == k);
            assert(j0 != i);
            if k == name {
                assert(pre[j0].name@ == pre[i].name@);
                assert(false);
            }
        }
        if entries_view(pre).contains_key(k) && k != name {
            let j = choose|j: int| 0 <= j < pre.len() && #[trigger] pre[j].name@ == k;
            assert(j != i);
            if j == pre.len() - 1 {
                if i < pre.len() - 1 {
                    assert(mid[i].name@ == k);
                } else {
                    assert(false);
                }
            } else {
                assert(mid[j].name@ == k);
            }
        }
    }
    assert forall|k: Seq<u8>| #[trigger] entries_view(mid).contains_key(k) implies entries_view(
        mid,
    )[k] == entries_view(pre).remove(name)[k] by {
        let j = choose|j: int| 0 <= j < mid.len() && #[trigger] mid[j].name@ == k;
        let j0 = if j == i {
            pre.len() - 1
        } else {
            j
        };
        assert(mid[j] == pre[j0]);
        assert(entries_view(mid)[k] == mid[j].model());
        assert(entries_view(pre)[k] == pre[j0].model());
        assert(k != name);
    }
    assert(entries_view(mid) =~= entries_view(pre).remove(name));
}

/// The engine owning the pending-upload table.
pub struct Engine {
    entries: Vec<Entry>,
}

impl View for Engine {
    type V = Map<Seq<u8>, UploadModel>;

    closed spec fn view(&self) -> Map<Seq<u8>, UploadModel> {
        entries_view(self.entries@)
    }
}

// ---------------------------------------------------------------------------
// The accept transition, as a mathematical function
// ---------------------------------------------------------------------------

/// The upload an arriving chunk lands in: the pending one, or a fresh
/// all-empty slot table whose total the first chunk declares.
pub open spec fn target_upload(
    m: Map<Seq<u8>, UploadModel>,
    name: Seq<u8>,
    declared: u32,
) -> UploadModel {
    if m.contains_key(name) {
        m[name]
    } else {
        UploadModel { total: declared as nat, slots: Seq::new(declared as nat, |i: int| None) }
    }
}

/// Whether a chunk is accepted: a valid destination name and an index
/// below the upload's first-seen total.
pub open spec fn chunk_accepted(
    m: Map<Seq<u8>, UploadModel>,
    name: Seq<u8>,
    num: u32,
    declared: u32,
) -> bool {
    valid_name(name) && (num as int) < target_upload(m, name, declared).total
}

/// The pending-upload table after a chunk is accepted: the chunk's data
/// lands in its slot, replacing whatever was there.
pub open spec fn after_accept(
    m: Map<Seq<u8>, UploadModel>,
    name: Seq<u8>,
    num: u32,
    declared: u32,
    data: Seq<u8>,
) -> Map<Seq<u8>, UploadModel> {
    let u = target_upload(m, name, declared);
    m.insert(name, UploadModel { total: u.total, slots: u.slots.update(num as int, Some(data)) })
}

// ---------------------------------------------------------------------------
// Operations
// ---------------------------------------------------------------------------

impl Engine {
    pub closed spec fn wf(self) -> bool {
        entries_wf(self.entries@)
    }

    pub fn new() -> (r: Engine)
        ensures
            r.wf(),
            r@ == Map::<Seq<u8>, UploadModel>::empty(),
    {
        let e = Engine { entries: Vec::new() };
        proof {
            assert(e@ =~= Map::<Seq<u8>, UploadModel>::empty());
        }
        e
    }

    /// Every pending upload the engine holds is internally consistent.
    pub proof fn lemma_uploads_wf(&self)
        requires
            self.wf(),
        ensures
            forall|k: Seq<u8>| #[trigger] self@.contains_key(k) ==> self@[k].wf(),
    {
        lemma_entries_view(self.entries@);
        assert forall|k: Seq<u8>| #[trigger] self@.contains_key(k) implies self@[k].wf() by {
            let i = choose|i: int|
                0 <= i < self.entries@.len() && #[trigger] self.entries@[i].name@ == k;
            assert(self.entries@[i].wf());
            assert(self@[k] == self.entries@[i].model());
        }
    }

    fn find_entry(&self, name: &[u8]) -> (r: Option<usize>)
        ensures
            match r {
                Some(i) => i < self.entries@.len() && self.entries@[i as int].name@ == name@,
                None => forall|i: int|
                    0 <= i < self.entries@.len() ==> #[trigger] self.entries@[i].name@ != name@,
            },
    {
        let mut i: usize = 0;
        while i < self.entries.len()
            invariant
                i <= self.entries@.len(),
                forall|j: int| 0 <= j < i ==> #[trigger] self.entries@[j].name@ != name@,
            decreases self.entries@.len() - i,
        {
            if bytes_eq(self.entries[i].name.as_slice(), name) {
                return Some(i);
            }
            i += 1;
        }
        None
    }

    /// Accept one chunk: look up or create the pending upload for the
    /// filename, store the data at the chunk's index (a repeated index
    /// keeps the most recent data), and report whether the upload now
    /// holds all of its chunks.
    pub fn accept_chunk(
        &mut self,
        filename: &[u8],
        chunk_number: u32,
        total_chunks: u32,
        data: Vec<u8>,
    ) -> (r: Result<bool, EngineError>)
        requires
            old(self).wf(),
        ensures
            final(self).wf(),
            match r {
                Ok(complete) => {
                    &&& chunk_accepted(old(self)@, filename@, chunk_number, total_chunks)
                    &&& final(self)@ == after_accept(
                        old(self)@,
                        filename@,
                        chunk_number,
                        total_chunks,
                        data@,
                    )
                    &&& complete == (filled_count(final(self)@[filename@].slots) == final(
                        self)@[filename@].total)
                },
                Err(EngineError::InvalidFilename) => !valid_name(filename@) && final(self)@ == old(
                    self)@,
                Err(EngineError::InvalidChunkIndex) => valid_name(filename@) && chunk_number as int
                    >= target_upload(old(self)@, filename@, total_chunks).total && final(
                    self)@ == old(self)@,
                Err(_) => false,
            },
    {
        proof {
            lemma_entries_view(self.entries@);
        }
        if !validate_name(filename) {
            return Err(EngineError::InvalidFilename);
        }

        match self.find_entry(filename) {
            Some(i) => {
                proof {
                    assert(self@.contains_key(filename@));
                    assert(self@[filename@] == self.entries@[i as int].model());
                    assert(self.entries@[i as int].wf());
                }
                if chunk_number >= self.entries[i].total {
                    return Err(EngineError::InvalidChunkIndex);
                }
                let ghost pre = self.entries@;
                let ghost target = self@[filename@];
                let mut e = self.entries.swap_remove(i);
                let ci = chunk_number as usize;
                let ghost old_slots = slots_model(e.slots@);
                proof {
                    lemma_filled_count_update(old_slots, ci as int, data@);
                    lemma_filled_count_bounds(old_slots);
                    lemma_filled_count_bounds(old_slots.update(ci as int, Some(data@)));
                }
                let was_filled = e.slots[ci].is_some();
                e.slots[ci] = Some(data);
                proof {
                    assert(slots_model(e.slots@) =~= old_slots.update(ci as int, Some(data@)));
                }
                if !was_filled {
                    e.filled += 1;
                }
                let complete = e.filled == e.total as usize;
                proof {
                    assert(e.wf());
                    lemma_without_entries(pre, i as int);
                    lemma_view_after_remove(pre, i as int);
                    lemma_view_after_push(without(pre, i as int), e);
                }
                self.entries.push(e);
                proof {
                    assert(self@ == entries_view(pre).remove(filename@).insert(
                        filename@,
                        e.model(),
                    ));
                    assert(self@ =~= entries_view(pre).insert(filename@, e.model()));
                    assert(e.model() =~= (UploadModel {
                        total: target.total,
                        slots: target.slots.update(ci as int, Some(data@)),
                    }));
                    assert(self@ =~= after_accept(
                        entries_view(pre),
                        filename@,
                        chunk_number,
                        total_chunks,
                        data@,
                    ));
                    assert(self@[filename@] == e.model());
                }
                Ok(complete)
            },
            None => {
                proof {
                    assert(!self@.contains_key(filename@));
                }
                if chunk_number >= total_chunks {
                    return Err(EngineError::InvalidChunkIndex);
                }
                let ghost pre = self.entries@;
                let total = total_chunks as usize;
                let mut slots: Vec<Option<Vec<u8>>> = Vec::new();
                let mut k: usize = 0;
                while k < total
                    invariant
                        k <= total,
                        slots@.len() == k,
                        forall|j: int| 0 <= j < k ==> #[trigger] slots@[j] is None,
                    decreases total - k,
                {
                    slots.push(None);
                    k += 1;
                }
                let mut e = Entry {
                    name: slice_to_vec(filename),
                    total: total_chunks,
                    filled: 1,
                    slots,
                };
                let ci = chunk_number as usize;
                let ghost empty_slots = slots_model(e.slots@);
                proof {
                    assert(empty_slots =~= Seq::new(
                        total_chunks as nat,
                        |j: int| None::<Seq<u8>>,
                    ));
                    lemma_filled_count_empty(empty_slots);
                    lemma_filled_count_update(empty_slots, ci as int, data@);
                }
                e.slots[ci] = Some(data);
                proof {
                    assert(slots_model(e.slots@) =~= empty_slots.update(ci as int, Some(data@)));
                    assert(e.wf());
                    lemma_view_after_push(pre, e);
                }
                let complete = e.filled == e.total as usize;
                self.entries.push(e);
                proof {
                    assert(self@ == entries_view(pre).insert(filename@, e.model()));
                    assert(e.model() =~= (UploadModel {
                        total: total_chunks as nat,
                        slots: Seq::new(total_chunks as nat, |j: int| None::<Seq<u8>>).update(
                            ci as int,
                            Some(data@),
                        ),
                    }));
                    assert(self@ =~= after_accept(
                        entries_view(pre),
                        filename@,
                        chunk_number,
                        total_chunks,
                        data@,
                    ));
                    assert(self@[filename@] == e.model());
                }
                Ok(complete)
            },
        }
    }

    /// Complete an upload: if every chunk of the pending upload for the
    /// filename has arrived, concatenate the chunks in index order, drop
    /// the pending entry, and return the assembled bytes.  On failure the
    /// pending entry, if any, is preserved so remaining chunks can still
    /// arrive.
    pub fn complete(&mut self, filename: &[u8]) -> (r: Result<Vec<u8>, EngineError>)
        requires
            old(self).wf(),
        ensures
            final(self).wf(),
            match r {
                Ok(bytes) => {
                    &&& old(self)@.contains_key(filename@)
                    &&& filled_count(old(self)@[filename@].slots) == old(self)@[filename@].total
                    &&& bytes@ == assembled(old(self)@[filename@].slots)
                    &&& final(self)@ == old(self)@.remove(filename@)
                },
                Err(EngineError::NoPendingUpload) => !old(self)@.contains_key(filename@) && final(
                    self)@ == old(self)@,
                Err(EngineError::IncompleteUpload) => {
                    &&& old(self)@.contains_key(filename@)
                    &&& filled_count(old(self)@[filename@].slots) < old(self)@[filename@].total
                    &&& final(self)@ == old(self)@
                },
                Err(_) => false,
            },
    {
        proof {
            lemma_entries_view(self.entries@);
        }
        let i = match self.find_entry(filename) {
            Some(i) => i,
            None => {
                return Err(EngineError::NoPendingUpload);
            },
        };
        proof {
            assert(self@.contains_key(filename@));
            assert(self@[filename@] == self.entries@[i as int].model());
            assert(self.entries@[i as int].wf());
        }
        if self.entries[i].filled < self.entries[i].total as usize {
            return Err(EngineError::IncompleteUpload);
        }
        proof {
            lemma_filled_count_bounds(slots_model(self.entries@[i as int].slots@));
        }
        let ghost pre = self.entries@;
        let e = self.entries.swap_remove(i);
        proof {
            lemma_view_after_remove(pre, i as int);
            lemma_filled_count_full(slots_model(e.slots@));
        }

        let ghost sm = slots_model(e.slots@);
        let mut out: Vec<u8> = Vec::new();
        let mut k: usize = 0;
        while k < e.slots.len()
            invariant
                k <= e.slots@.len(),
                sm == slots_model(e.slots@),
                sm.len() == e.slots@.len(),
                forall|j: int| 0 <= j < sm.len() ==> #[trigger] sm[j] is Some,
                out@ == assembled(sm.take(k as int)),
            decreases e.slots@.len() - k,
        {
            proof {
                assert(sm.take(k + 1).drop_last() =~= sm.take(k as int));
                assert(sm.take(k + 1).last() == sm[k as int]);
            }
            match &e.slots[k] {
                Some(d) => {
                    out.extend_from_slice(d.as_slice());
                    proof {
                        assert(out@ =~= assembled(sm.take(k + 1)));
                    }
                },
                None => {
                    proof {
                        assert(false);
                    }
                },
            }
            k += 1;
        }
        proof {
            assert(sm.take(sm.len() as int) =~= sm);
        }
        Ok(out)
    }
}

// ---------------------------------------------------------------------------
// Laws of reassembly
// ---------------------------------------------------------------------------

/// Chunks of one upload may arrive in either order: accepting two chunks
/// with distinct indices yields the same pending-upload table both ways,
/// and hence the same assembled file.
pub proof fn lemma_chunk_order_irrelevant(
    m: Map<Seq<u8>, UploadModel>,
    name: Seq<u8>,
    declared: u32,
    i: u32,
    di: Seq<u8>,
    j: u32,
    dj: Seq<u8>,
)
    requires
        i != j,
        m.contains_key(name) ==> m[name].wf(),
        chunk_accepted(m, name, i, declared),
        chunk_accepted(m, name, j, declared),
    ensures
        after_accept(after_accept(m, name, i, declared, di), name, j, declared, dj)
            == after_accept(after_accept(m, name, j, declared, dj), name, i, declared, di),
{
    let u = target_upload(m, name, declared);
    assert(u.slots.len() == u.total);
    assert(u.slots.update(i as int, Some(di)).update(j as int, Some(dj)) =~= u.slots.update(
        j as int,
        Some(dj),
    ).update(i as int, Some(di)));
    assert(after_accept(after_accept(m, name, i, declared, di), name, j, declared, dj)
        =~= after_accept(after_accept(m, name, j, declared, dj), name, i, declared, di));
}

/// Sending the same chunk index twice keeps only the most recent data:
/// the table after both arrivals is the table the second alone produces.
pub proof fn lemma_chunk_resend_overwrites(
    m: Map<Seq<u8>, UploadModel>,
    name: Seq<u8>,
    declared: u32,
    num: u32,
    d1: Seq<u8>,
    d2: Seq<u8>,
)
    requires
        m.contains_key(name) ==> m[name].wf(),
        chunk_accepted(m, name, num, declared),
    ensures
        after_accept(after_accept(m, name, num, declared, d1), name, num, declared, d2)
            == after_accept(m, name, num, declared, d2),
{
    let u = target_upload(m, name, declared);
    assert(u.slots.len() == u.total);
    assert(u.slots.update(num as int, Some(d1)).update(num as int, Some(d2)) =~= u.slots.update(
        num as int,
        Some(d2),
    ));
    assert(after_accept(after_accept(m, name, num, declared, d1), name, num, declared, d2)
        =~= after_accept(m, name, num, declared, d2));
}

} // verus!
