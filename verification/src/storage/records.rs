//! The record store behind a collection: serialized records kept in one
//! byte region, each found again through an index from id to its place.
//!
//! A record is appended after the furthest end of any live record; deleting a
//! record only drops it from the index, and its bytes may later be
//! overwritten.
use vstd::prelude::*;

verus! {

/// Where a record's bytes sit in the data region.
#[derive(Debug, Clone, Copy, PartialEq, Eq)]
pub struct EntryPointer {
    pub offset: u64,
    pub length: u32,
}

impl EntryPointer {
    /// A pointer to `length` bytes starting at `offset`.
    pub fn new(offset: u64, length: u32) -> (p: EntryPointer)
        ensures
            p.offset == offset,
            p.length == length,
    {
        EntryPointer { offset, length }
    }

    /// One past the last byte of the record.
    pub open spec fn end(self) -> int {
        self.offset + self.length
    }
}

/// The ids that an index lists, in order.
pub open spec fn ids_of(s: Seq<(u128, EntryPointer)>) -> Seq<u128> {
    s.map_values(|e: (u128, EntryPointer)| e.0)
}

/// The pointer that the last index entry for `id` holds, if any.
pub open spec fn pointer_in(s: Seq<(u128, EntryPointer)>, id: u128) -> Option<EntryPointer>
    decreases s.len(),
{
    if s.len() == 0 {
        None
    } else if s.last().0 == id {
        Some(s.last().1)
    } else {
        pointer_in(s.drop_last(), id)
    }
}

proof fn lemma_pointer_in_contains(s: Seq<(u128, EntryPointer)>, id: u128)
    ensures
        pointer_in(s, id) is Some <==> ids_of(s).contains(id),
        pointer_in(s, id) matches Some(p) ==> exists|i: int| 0 <= i < s.len() && s[i] == (id, p),
    decreases s.len(),
{
    if s.len() > 0 {
        lemma_pointer_in_contains(s.drop_last(), id);
        assert(ids_of(s.drop_last()) =~= ids_of(s).drop_last());
        if s.last().0 == id {
            assert(ids_of(s)[s.len() - 1] == id);
            assert(s[s.len() - 1] == (id, s.last().1));
        } else {
            if ids_of(s).contains(id) {
                let k = choose|k: int| 0 <= k < ids_of(s).len() && ids_of(s)[k] == id;
                assert(k != s.len() - 1);
                assert(ids_of(s.drop_last())[k] == id);
            }
            if pointer_in(s, id) is Some {
                let p = pointer_in(s, id)->0;
                let i = choose|i: int| 0 <= i < s.drop_last().len() && s.drop_last()[i] == (id, p);
                assert(s[i] == (id, p));
            }
        }
    }
}

proof fn lemma_pointer_in_push(s: Seq<(u128, EntryPointer)>, e: (u128, EntryPointer), id: u128)
    ensures
        pointer_in(s.push(e), id) == (if e.0 == id { Some(e.1) } else { pointer_in(s, id) }),
{
    assert(s.push(e).drop_last() =~= s);
}

proof fn lemma_pointer_in_unique(s: Seq<(u128, EntryPointer)>, i: int)
    requires
        ids_of(s).no_duplicates(),
        0 <= i < s.len(),
    ensures
        pointer_in(s, s[i].0) == Some(s[i].1),
    decreases s.len(),
{
    if i != s.len() - 1 {
        assert(ids_of(s)[i] != ids_of(s)[s.len() - 1]);
        assert(ids_of(s.drop_last()) =~= ids_of(s).drop_last());
        lemma_pointer_in_unique(s.drop_last(), i);
    }
}

proof fn lemma_pointer_in_update(s: Seq<(u128, EntryPointer)>, j: int, p: EntryPointer, id: u128)
    requires
        ids_of(s).no_duplicates(),
        0 <= j < s.len(),
    ensures
        pointer_in(s.update(j, (s[j].0, p)), id) == (if id == s[j].0 { Some(p) } else { pointer_in(s, id) }),
    decreases s.len(),
{
    let t = s.update(j, (s[j].0, p));
    if j == s.len() - 1 {
        assert(t.drop_last() =~= s.drop_last());
    } else {
        assert(ids_of(s)[j] != ids_of(s)[s.len() - 1]);
        assert(ids_of(s.drop_last()) =~= ids_of(s).drop_last());
        assert(t.drop_last() =~= s.drop_last().update(j, (s[j].0, p)));
        lemma_pointer_in_update(s.drop_last(), j, p, id);
    }
}

proof fn lemma_pointer_in_remove(s: Seq<(u128, EntryPointer)>, j: int, id: u128)
    requires
        ids_of(s).no_duplicates(),
        0 <= j < s.len(),
    ensures
        pointer_in(s.remove(j), id) == (if id == s[j].0 { None } else { pointer_in(s, id) }),
        ids_of(s.remove(j)) == ids_of(s).remove(j),
    decreases s.len(),
{
    assert(ids_of(s.remove(j)) =~= ids_of(s).remove(j));
    if j == s.len() - 1 {
        assert(s.remove(j) =~= s.drop_last());
        if id == s[j].0 {
            lemma_pointer_in_contains(s.drop_last(), id);
            assert(ids_of(s.drop_last()) =~= ids_of(s).drop_last());
            if ids_of(s.drop_last()).contains(id) {
                let k = choose|k: int| 0 <= k < ids_of(s.drop_last()).len() && ids_of(s.drop_last())[k] == id;
                assert(ids_of(s)[k] == ids_of(s)[j]);
            }
        }
    } else {
        assert(ids_of(s)[j] != ids_of(s)[s.len() - 1]);
        assert(ids_of(s.drop_last()) =~= ids_of(s).drop_last());
        assert(s.remove(j).drop_last() =~= s.drop_last().remove(j));
        assert(s.remove(j).last() == s.last());
        lemma_pointer_in_remove(s.drop_last(), j, id);
    }
}

/// The total number of bytes in a list of records.
pub open spec fn total_len(records: Seq<(u128, Vec<u8>)>) -> int
    decreases records.len(),
{
    if records.len() == 0 {
        0
    } else {
        total_len(records.drop_last()) + records.last().1@.len()
    }
}

proof fn lemma_total_len_nonneg(records: Seq<(u128, Vec<u8>)>)
    ensures
        total_len(records) >= 0,
    decreases records.len(),
{
    if records.len() > 0 {
        lemma_total_len_nonneg(records.drop_last());
    }
}

proof fn lemma_total_len_prefix(records: Seq<(u128, Vec<u8>)>, i: int)
    requires
        0 <= i < records.len(),
    ensures
        total_len(records.subrange(0, i + 1)) == total_len(records.subrange(0, i)) + records[i].1@.len(),
        total_len(records.subrange(0, i + 1)) <= total_len(records),
    decreases records.len(),
{
    assert(records.subrange(0, i + 1).drop_last() =~= records.subrange(0, i));
    if i + 1 < records.len() {
        lemma_total_len_prefix(records.drop_last(), i);
        assert(records.drop_last().subrange(0, i + 1) =~= records.subrange(0, i + 1));
        assert(records.drop_last().subrange(0, i) =~= records.subrange(0, i));
    } else {
        assert(records.subrange(0, i + 1) =~= records);
    }
}

/// The records `m` holds once each of `records` is stored in order.
pub open spec fn apply_inserts(m: Map<u128, Seq<u8>>, records: Seq<(u128, Vec<u8>)>) -> Map<u128, Seq<u8>>
    decreases records.len(),
{
    if records.len() == 0 {
        m
    } else {
        apply_inserts(m, records.drop_last()).insert(records.last().0, records.last().1@)
    }
}

/// What is stored is read back: after storing `bytes` under `id`, `id`
/// holds `bytes` and every other id keeps what it held.
pub proof fn law_read_after_write(m: Map<u128, Seq<u8>>, id: u128, bytes: Seq<u8>, other: u128)
    ensures
        m.insert(id, bytes).contains_key(id),
        m.insert(id, bytes)[id] == bytes,
        other != id ==> m.insert(id, bytes).contains_key(other) == m.contains_key(other),
        other != id && m.contains_key(other) ==> m.insert(id, bytes)[other] == m[other],
{
}

/// Storing under a free id adds one record; storing under a taken id
/// replaces its record and the count stays.
pub proof fn law_count_after_insert(m: Map<u128, Seq<u8>>, id: u128, bytes: Seq<u8>)
    requires
        m.dom().finite(),
    ensures
        m.insert(id, bytes).dom().len() == m.dom().len() + (if m.contains_key(id) { 0int } else { 1int }),
{
    if m.contains_key(id) {
        assert(m.insert(id, bytes).dom() =~= m.dom());
    } else {
        assert(m.insert(id, bytes).dom() =~= m.dom().insert(id));
    }
}

/// Deleting what was just stored under a free id gives back the records
/// held before; deleting a missing id changes nothing.
pub proof fn law_delete_undoes_insert(m: Map<u128, Seq<u8>>, id: u128, bytes: Seq<u8>)
    ensures
        !m.contains_key(id) ==> m.insert(id, bytes).remove(id) == m,
        !m.contains_key(id) ==> m.remove(id) == m,
{
    if !m.contains_key(id) {
        assert(m.insert(id, bytes).remove(id) =~= m);
        assert(m.remove(id) =~= m);
    }
}

/// The records that an index and a data region describe: each listed id
/// with the bytes its pointer covers.
pub open spec fn records_from(index: Seq<(u128, EntryPointer)>, data: Seq<u8>) -> Map<u128, Seq<u8>> {
    Map::new(
        |id: u128| pointer_in(index, id) is Some,
        |id: u128| {
            let p = pointer_in(index, id)->0;
            data.subrange(p.offset as int, p.end())
        },
    )
}

/// The entries of an index whose records end within `len` bytes, in order.
pub open spec fn fitting(index: Seq<(u128, EntryPointer)>, len: int) -> Seq<(u128, EntryPointer)>
    decreases index.len(),
{
    if index.len() == 0 {
        Seq::empty()
    } else {
        let prev = fitting(index.drop_last(), len);
        if index.last().1.end() <= len {
            prev.push(index.last())
        } else {
            prev
        }
    }
}

proof fn lemma_fitting(index: Seq<(u128, EntryPointer)>, len: int)
    ensures
        forall|k: int| 0 <= k < fitting(index, len).len() ==> (#[trigger] fitting(index, len)[k]).1.end() <= len,
        forall|k: int| 0 <= k < fitting(index, len).len() ==> exists|i: int| 0 <= i < index.len() && index[i] == #[trigger] fitting(index, len)[k],
        ids_of(index).no_duplicates() ==> ids_of(fitting(index, len)).no_duplicates(),
    decreases index.len(),
{
    if index.len() > 0 {
        let init = index.drop_last();
        lemma_fitting(init, len);
        let prev = fitting(init, len);
        let now = fitting(index, len);
        assert forall|k: int| 0 <= k < now.len() implies exists|i: int| 0 <= i < index.len() && index[i] == #[trigger] now[k] by {
            if k < prev.len() {
                assert(now[k] == prev[k]);
                let i = choose|i: int| 0 <= i < init.len() && init[i] == prev[k];
                assert(index[i] == init[i]);
            } else {
                assert(now[k] == index[index.len() - 1]);
            }
        }
        assert forall|k: int| 0 <= k < now.len() implies (#[trigger] now[k]).1.end() <= len by {
            if k < prev.len() {
                assert(now[k] == prev[k]);
            }
        }
        if ids_of(index).no_duplicates() {
            assert(ids_of(init) =~= ids_of(index).drop_last());
            assert(ids_of(init).no_duplicates());
            if index.last().1.end() <= len {
                assert forall|a: int, b: int| 0 <= a < ids_of(now).len() && 0 <= b < ids_of(now).len() && a != b
                    implies ids_of(now)[a] != ids_of(now)[b] by {
                    if a < prev.len() && b < prev.len() {
                        assert(ids_of(now)[a] == ids_of(prev)[a]);
                        assert(ids_of(now)[b] == ids_of(prev)[b]);
                    } else {
                        let k = if a < prev.len() { a } else { b };
                        let last = if a < prev.len() { b } else { a };
                        assert(k < prev.len() && last == prev.len());
                        let i = choose|i: int| 0 <= i < init.len() && init[i] == prev[k];
                        assert(ids_of(index)[i] == prev[k].0);
                        assert(ids_of(index)[index.len() - 1] == index.last().0);
                        assert(ids_of(now)[k] == prev[k].0);
                        assert(ids_of(now)[last] == index.last().0);
                    }
                }
            }
        }
    }
}

/// Serialized records in one byte region, indexed by id.
#[derive(Debug)]
pub struct RecordStore {
    index: Vec<(u128, EntryPointer)>,
    data: Vec<u8>,
}

impl RecordStore {
    /// The store's invariant: each id is indexed once, and every indexed
    /// record lies inside the data region.
    pub closed spec fn wf(&self) -> bool {
        &&& ids_of(self.index@).no_duplicates()
        &&& forall|i: int| 0 <= i < self.index@.len() ==> (#[trigger] self.index@[i]).1.end() <= self.data@.len()
    }

    /// Where the record `id` sits, if it is stored.
    pub closed spec fn pointer(&self, id: u128) -> Option<EntryPointer> {
        pointer_in(self.index@, id)
    }

    /// The data region's bytes.
    pub closed spec fn bytes(&self) -> Seq<u8> {
        self.data@
    }

    /// The length of the data region.
    pub closed spec fn data_len(&self) -> nat {
        self.data@.len()
    }

    /// The stored records: each id with the bytes it was stored with.
    pub closed spec fn view(&self) -> Map<u128, Seq<u8>> {
        Map::new(
            |id: u128| self.pointer(id) is Some,
            |id: u128|
                {
                    let p = self.pointer(id)->0;
                    self.data@.subrange(p.offset as int, p.end())
                },
        )
    }

    /// The furthest end of any stored record (0 when none is stored).
    pub closed spec fn live_end_bound(&self, e: int) -> bool {
        &&& forall|i: int| 0 <= i < self.index@.len() ==> (#[trigger] self.index@[i]).1.end() <= e
        &&& (e == 0 || exists|i: int| 0 <= i < self.index@.len() && (#[trigger] self.index@[i]).1.end() == e)
    }

    proof fn lemma_pointer_bounds(&self, id: u128)
        requires
            self.wf(),
            self.pointer(id) is Some,
        ensures
            self.pointer(id)->0.end() <= self.data@.len(),
            exists|i: int| 0 <= i < self.index@.len() && self.index@[i] == (id, self.pointer(id)->0),
    {
        lemma_pointer_in_contains(self.index@, id);
    }

    /// An empty store.
    pub fn new() -> (s: RecordStore)
        ensures
            s.wf(),
            s.view() == Map::<u128, Seq<u8>>::empty(),
            s.data_len() == 0,
    {
        let s = RecordStore { index: Vec::new(), data: Vec::new() };
        assert(s.view() =~= Map::<u128, Seq<u8>>::empty());
        s
    }


    /// The index: each stored id once, with where its record sits.
    pub fn pointers(&self) -> (v: &Vec<(u128, EntryPointer)>)
        requires
            self.wf(),
        ensures
            ids_of(v@).no_duplicates(),
            forall|i: int| 0 <= i < v@.len() ==> (#[trigger] v@[i]).1.end() <= self.data_len(),
            forall|id: u128| #[trigger] self.pointer(id) == pointer_in(v@, id),
            self.view() == records_from(v@, self.bytes()),
    {
        proof {
            assert(self.view() =~= records_from(self.index@, self.data@));
        }
        &self.index
    }

    /// The data region.
    pub fn data(&self) -> (d: &Vec<u8>)
        ensures
            d@ == self.bytes(),
            d@.len() == self.data_len(),
    {
        &self.data
    }

    /// A store over an index and a data region read back from disk; `None`
    /// when the index lists an id twice. An entry whose record reaches past
    /// the data is left out: its record cannot be read.
    pub fn restore(index: Vec<(u128, EntryPointer)>, data: Vec<u8>) -> (r: Option<RecordStore>)
        ensures
            r is Some <==> ids_of(index@).no_duplicates(),
            r matches Some(s) ==> {
                &&& s.wf()
                &&& s.data_len() == data@.len()
                &&& s.bytes() == data@
                &&& s.view() == records_from(fitting(index@, data@.len() as int), data@)
                &&& forall|id: u128| #[trigger] s.pointer(id) == pointer_in(fitting(index@, data@.len() as int), id)
            },
    {
        let n = index.len();
        let dl = data.len();
        let mut i: usize = 0;
        while i < n
            invariant
                i <= n,
                n == index@.len(),
                forall|a: int, b: int| 0 <= a < b < i ==> (#[trigger] index@[a]).0 != (#[trigger] index@[b]).0,
            decreases n - i,
        {
            let id = index[i].0;
            let mut j: usize = 0;
            while j < i
                invariant
                    j <= i < n,
                    n == index@.len(),
                    id == index@[i as int].0,
                    forall|a: int| 0 <= a < j ==> (#[trigger] index@[a]).0 != id,
                decreases i - j,
            {
                if index[j].0 == id {
                    proof {
                        assert(ids_of(index@)[j as int] == ids_of(index@)[i as int]);
                    }
                    return None;
                }
                j = j + 1;
            }
            i = i + 1;
        }
        proof {
            assert forall|a: int, b: int| 0 <= a < ids_of(index@).len() && 0 <= b < ids_of(index@).len() && a != b
                implies ids_of(index@)[a] != ids_of(index@)[b] by {
                if a < b {
                    assert(index@[a].0 != index@[b].0);
                } else {
                    assert(index@[b].0 != index@[a].0);
                }
            }
        }
        let mut kept: Vec<(u128, EntryPointer)> = Vec::new();
        let mut i: usize = 0;
        while i < n
            invariant
                i <= n,
                n == index@.len(),
                dl == data@.len(),
                kept@ == fitting(index@.take(i as int), dl as int),
            decreases n - i,
        {
            proof {
                assert(index@.take(i + 1).drop_last() =~= index@.take(i as int));
                assert(index@.take(i + 1).last() == index@[i as int]);
            }
            let e = index[i];
            if e.1.offset <= dl as u64 && (e.1.length as u64) <= (dl as u64) - e.1.offset {
                kept.push(e);
            }
            i = i + 1;
        }
        proof {
            assert(index@.take(n as int) =~= index@);
            lemma_fitting(index@, dl as int);
        }
        let s = RecordStore { index: kept, data };
        proof {
            assert(s.view() =~= records_from(s.index@, s.data@));
        }
        Some(s)
    }

    /// What is saved is loaded back: an index that places every id where
    /// the store does, over the store's own bytes, describes exactly the
    /// store's records.
    pub proof fn law_saved_index_restores(&self, index: Seq<(u128, EntryPointer)>, data: Seq<u8>)
        requires
            self.wf(),
            forall|id: u128| #[trigger] self.pointer(id) == pointer_in(index, id),
            data == self.bytes(),
        ensures
            records_from(index, data) == self.view(),
    {
        assert(records_from(index, data) =~= self.view());
    }

    /// Number of stored records.
    pub fn count(&self) -> (n: usize)
        requires
            self.wf(),
        ensures
            n == self.view().dom().len(),
    {
        proof {
            assert forall|id: u128| #[trigger] self.view().dom().contains(id) <==> ids_of(self.index@).to_set().contains(id) by {
                lemma_pointer_in_contains(self.index@, id);
            }
            assert(self.view().dom() =~= ids_of(self.index@).to_set());
            ids_of(self.index@).unique_seq_to_set();
        }
        self.index.len()
    }

    /// Position of the index entry for `id`, if any.
    fn position(&self, id: u128) -> (r: Option<usize>)
        requires
            self.wf(),
        ensures
            r is None ==> self.pointer(id) is None,
            r matches Some(j) ==> j < self.index@.len() && self.index@[j as int].0 == id,
    {
        let mut i: usize = 0;
        while i < self.index.len()
            invariant
                i <= self.index@.len(),
                forall|k: int| 0 <= k < i ==> (#[trigger] self.index@[k]).0 != id,
            decreases self.index@.len() - i,
        {
            if self.index[i].0 == id {
                return Some(i);
            }
            i = i + 1;
        }
        proof {
            lemma_pointer_in_contains(self.index@, id);
            if ids_of(self.index@).contains(id) {
                let k = choose|k: int| 0 <= k < ids_of(self.index@).len() && ids_of(self.index@)[k] == id;
                assert(self.index@[k].0 == id);
            }
        }
        None
    }

    /// Whether a record is stored under `id`.
    pub fn contains(&self, id: u128) -> (r: bool)
        requires
            self.wf(),
        ensures
            r == self.view().contains_key(id),
    {
        proof {
            if self.pointer(id) is Some {
                lemma_pointer_in_contains(self.index@, id);
            }
        }
        match self.position(id) {
            Some(j) => {
                proof {
                    lemma_pointer_in_unique(self.index@, j as int);
                }
                true
            },
            None => false,
        }
    }

    /// A copy of the bytes stored under `id`.
    pub fn get(&self, id: u128) -> (r: Option<Vec<u8>>)
        requires
            self.wf(),
        ensures
            r is Some <==> self.view().contains_key(id),
            r matches Some(b) ==> b@ == self.view()[id],
    {
        match self.position(id) {
            None => None,
            Some(j) => {
                proof {
                    lemma_pointer_in_unique(self.index@, j as int);
                }
                let p = self.index[j].1;
                let dl = self.data.len();
                assert(self.index@[j as int].1.end() <= self.data@.len());
                let start = p.offset as usize;
                let len = p.length as usize;
                let mut out: Vec<u8> = Vec::with_capacity(len);
                let mut k: usize = 0;
                while k < len
                    invariant
                        k <= len,
                        dl == self.data@.len(),
                        start + len <= self.data@.len(),
                        out@ == self.data@.subrange(start as int, start + k),
                    decreases len - k,
                {
                    out.push(self.data[start + k]);
                    k = k + 1;
                    assert(out@ =~= self.data@.subrange(start as int, start + k));
                }
                Some(out)
            },
        }
    }

    /// The offset at which the next record is written: the furthest end of
    /// any stored record, or 0.
    pub fn end_offset(&self) -> (e: u64)
        requires
            self.wf(),
        ensures
            self.live_end_bound(e as int),
            e <= self.data_len(),
    {
        let mut best: u64 = 0;
        let mut i: usize = 0;
        let dl = self.data.len();
        while i < self.index.len()
            invariant
                i <= self.index@.len(),
                dl == self.data@.len(),
                self.wf(),
                best <= self.data@.len(),
                forall|k: int| 0 <= k < i ==> (#[trigger] self.index@[k]).1.end() <= best,
                best == 0 || exists|k: int| 0 <= k < i && (#[trigger] self.index@[k]).1.end() == best,
            decreases self.index@.len() - i,
        {
            let p = self.index[i].1;
            assert(self.index@[i as int].1.end() <= self.data@.len());
            let end = p.offset + p.length as u64;
            if end > best {
                best = end;
            }
            i = i + 1;
        }
        best
    }

    /// A well-formed store holds finitely many records.
    pub proof fn lemma_finite(&self)
        requires
            self.wf(),
        ensures
            self.view().dom().finite(),
    {
        self.lemma_dom();
    }

    proof fn lemma_dom(&self)
        requires
            self.wf(),
        ensures
            self.view().dom() == ids_of(self.index@).to_set(),
            self.view().dom().finite(),
            self.view().dom().len() == self.index@.len(),
    {
        assert forall|id: u128| #[trigger] self.view().dom().contains(id) <==> ids_of(self.index@).to_set().contains(id) by {
            lemma_pointer_in_contains(self.index@, id);
        }
        assert(self.view().dom() =~= ids_of(self.index@).to_set());
        ids_of(self.index@).unique_seq_to_set();
    }

    /// Stores `bytes` under `id`, replacing any record stored under it. The
    /// bytes are written at `end_offset()`, growing the data region as
    /// needed.
    pub fn insert(&mut self, id: u128, bytes: &Vec<u8>)
        requires
            old(self).wf(),
            bytes@.len() <= u32::MAX,
            old(self).data_len() + bytes@.len() <= usize::MAX,
        ensures
            final(self).wf(),
            final(self).view() == old(self).view().insert(id, bytes@),
            final(self).pointer(id) matches Some(p) && p.length == bytes@.len()
                && old(self).live_end_bound(p.offset as int),
            old(self).data_len() <= final(self).data_len() <= old(self).data_len() + bytes@.len(),
    {
        let offset = self.end_offset();
        let len = bytes.len();
        let start = offset as usize;
        let required = start + len;
        let ghost old_data = self.data@;
        let ghost old_index = self.index@;
        if self.data.len() < required {
            self.data.resize(required, 0u8);
        }
        let ghost grown = self.data@;
        let dl = self.data.len();
        assert(grown.subrange(0, old_data.len() as int) == old_data);
        let mut k: usize = 0;
        while k < len
            invariant
                k <= len,
                dl == self.data@.len(),
                self.index@ == old_index,
                old_data.len() <= grown.len(),
                len == bytes@.len(),
                start + len <= self.data@.len(),
                self.data@.len() == grown.len(),
                forall|x: int| 0 <= x < start ==> #[trigger] self.data@[x] == grown[x],
                forall|x: int| start <= x < start + k ==> #[trigger] self.data@[x] == bytes@[x - start],
            decreases len - k,
        {
            self.data.set(start + k, bytes[k]);
            k = k + 1;
        }
        let p = EntryPointer::new(offset, len as u32);
        assert(self.wf()) by {
            assert forall|i: int| 0 <= i < self.index@.len() implies (#[trigger] self.index@[i]).1.end() <= self.data@.len() by {
                assert(old_index[i].1.end() <= old_data.len());
            }
        }
        match self.position(id) {
            Some(j) => {
                self.index.set(j, (id, p));
                proof {
                    assert forall|x: u128| #[trigger] pointer_in(self.index@, x) == (if x == id {
                        Some(p)
                    } else {
                        pointer_in(old_index, x)
                    }) by {
                        lemma_pointer_in_update(old_index, j as int, p, x);
                    }
                    assert(ids_of(self.index@) =~= ids_of(old_index));
                }
            },
            None => {
                self.index.push((id, p));
                proof {
                    assert forall|x: u128| #[trigger] pointer_in(self.index@, x) == (if x == id {
                        Some(p)
                    } else {
                        pointer_in(old_index, x)
                    }) by {
                        lemma_pointer_in_push(old_index, (id, p), x);
                    }
                    lemma_pointer_in_contains(old_index, id);
                    assert(ids_of(self.index@) =~= ids_of(old_index).push(id));
                }
            },
        }
        proof {
            assert forall|i: int| 0 <= i < self.index@.len() implies (#[trigger] self.index@[i]).1.end() <= self.data@.len() by {
                if self.index@[i].0 != id {
                    assert(self.index@[i] == old_index[i] || i == old_index.len());
                }
            }
            assert forall|x: u128| old(self).view().contains_key(x) && x != id implies
                #[trigger] self.view()[x] == old(self).view()[x] by {
                old(self).lemma_pointer_bounds(x);
                let q = pointer_in(old_index, x)->0;
                let i = choose|i: int| 0 <= i < old_index.len() && old_index[i] == (x, q);
                assert(q.end() <= offset);
                assert(self.data@.subrange(q.offset as int, q.end()) =~= old_data.subrange(q.offset as int, q.end()));
            }
            assert(self.data@.subrange(start as int, start + len) =~= bytes@);
            assert(self.view() =~= old(self).view().insert(id, bytes@));
        }
    }

    /// Drops the record stored under `id` from the index; answers whether
    /// there was one.
    pub fn delete(&mut self, id: u128) -> (existed: bool)
        requires
            old(self).wf(),
        ensures
            final(self).wf(),
            existed == old(self).view().contains_key(id),
            final(self).view() == old(self).view().remove(id),
            final(self).data_len() == old(self).data_len(),
    {
        let ghost old_index = self.index@;
        match self.position(id) {
            Some(j) => {
                self.index.remove(j);
                proof {
                    assert forall|x: u128| #[trigger] pointer_in(self.index@, x) == (if x == id {
                        None
                    } else {
                        pointer_in(old_index, x)
                    }) by {
                        lemma_pointer_in_remove(old_index, j as int, x);
                    }
                    lemma_pointer_in_remove(old_index, j as int, id);
                    lemma_pointer_in_unique(old_index, j as int);
                    assert forall|i: int| 0 <= i < self.index@.len() implies (#[trigger] self.index@[i]).1.end() <= self.data@.len() by {
                        if i < j {
                            assert(self.index@[i] == old_index[i]);
                        } else {
                            assert(self.index@[i] == old_index[i + 1]);
                        }
                    }
                    assert(self.view() =~= old(self).view().remove(id));
                }
                true
            },
            None => {
                proof {
                    assert(self.view() =~= old(self).view().remove(id));
                }
                false
            },
        }
    }

    /// Stores each record in order, as `insert` does; a later record under an
    /// id already in the batch replaces the earlier one. Returns the ids in
    /// order.
    pub fn insert_batch(&mut self, records: &Vec<(u128, Vec<u8>)>) -> (ids: Vec<u128>)
        requires
            old(self).wf(),
            forall|i: int| 0 <= i < records@.len() ==> (#[trigger] records@[i]).1@.len() <= u32::MAX,
            old(self).data_len() + total_len(records@) <= usize::MAX,
        ensures
            final(self).wf(),
            final(self).view() == apply_inserts(old(self).view(), records@),
            ids@ == records@.map_values(|r: (u128, Vec<u8>)| r.0),
    {
        let mut ids: Vec<u128> = Vec::with_capacity(records.len());
        let mut i: usize = 0;
        proof {
            assert(records@.subrange(0, 0) =~= Seq::<(u128, Vec<u8>)>::empty());
            assert(ids@ =~= records@.subrange(0, 0).map_values(|r: (u128, Vec<u8>)| r.0));
        }
        while i < records.len()
            invariant
                i <= records@.len(),
                self.wf(),
                self.view() == apply_inserts(old(self).view(), records@.subrange(0, i as int)),
                self.data_len() <= old(self).data_len() + total_len(records@.subrange(0, i as int)),
                forall|k: int| 0 <= k < records@.len() ==> (#[trigger] records@[k]).1@.len() <= u32::MAX,
                old(self).data_len() + total_len(records@) <= usize::MAX,
                ids@ == records@.subrange(0, i as int).map_values(|r: (u128, Vec<u8>)| r.0),
            decreases records@.len() - i,
        {
            proof {
                lemma_total_len_prefix(records@, i as int);
            }
            let id = records[i].0;
            self.insert(id, &records[i].1);
            ids.push(id);
            proof {
                let pre = records@.subrange(0, i as int);
                let next = records@.subrange(0, i + 1);
                assert(next.drop_last() =~= pre);
                assert(next.last() == records@[i as int]);
                assert(ids@ =~= next.map_values(|r: (u128, Vec<u8>)| r.0));
            }
            i = i + 1;
        }
        proof {
            assert(records@.subrange(0, records@.len() as int) =~= records@);
        }
        ids
    }

    /// Drops every listed id from the index; answers how many records were
    /// dropped (an id listed twice counts once).
    pub fn delete_batch(&mut self, ids: &Vec<u128>) -> (deleted: usize)
        requires
            old(self).wf(),
        ensures
            final(self).wf(),
            final(self).view() == old(self).view().remove_keys(ids@.to_set()),
            deleted == old(self).view().dom().len() - final(self).view().dom().len(),
            final(self).data_len() == old(self).data_len(),
    {
        let mut deleted: usize = 0;
        let mut i: usize = 0;
        let start_len = self.index.len();
        proof {
            old(self).lemma_dom();
            assert(ids@.subrange(0, 0).to_set() =~= Set::<u128>::empty());
            assert(old(self).view().remove_keys(Set::<u128>::empty()) =~= old(self).view());
        }
        while i < ids.len()
            invariant
                i <= ids@.len(),
                self.wf(),
                self.view() == old(self).view().remove_keys(ids@.subrange(0, i as int).to_set()),
                deleted == old(self).view().dom().len() - self.view().dom().len(),
                old(self).view().dom().len() == old(self).index@.len(),
                self.view().dom().len() == self.index@.len(),
                self.index@.len() <= old(self).index@.len(),
                start_len == old(self).index@.len(),
                self.data_len() == old(self).data_len(),
            decreases ids@.len() - i,
        {
            let ghost before = self.view();
            proof {
                self.lemma_dom();
            }
            let existed = self.delete(ids[i]);
            proof {
                self.lemma_dom();
                let next = ids@.subrange(0, i + 1);
                let pre = ids@.subrange(0, i as int);
                assert(next =~= pre.push(ids@[i as int]));
                pre.lemma_push_to_set_commute(ids@[i as int]);
                assert(self.view() =~= old(self).view().remove_keys(next.to_set()));
                assert(self.view().dom() =~= before.dom().remove(ids@[i as int]));
                if existed {
                    assert(self.view().dom().len() == before.dom().len() - 1);
                } else {
                    assert(self.view().dom() =~= before.dom());
                }
            }
            if existed {
                deleted = deleted + 1;
            }
            i = i + 1;
        }
        proof {
            assert(ids@.subrange(0, ids@.len() as int) =~= ids@);
        }
        deleted
    }
}

} // verus!
