//! The index store: one entry per media file, keyed by path, and a position
//! table that lists the entries by ascending capture time.

use crate::text::same_text;
use vstd::prelude::*;
use vstd::slice::slice_to_vec;

verus! {

/// What an indexing pass hands to the store for one file.
pub struct InsertionEntry<'a> {
    pub path: &'a str,
    pub finfo: &'a str,
    pub timestamp: i64,
    pub metadata: u64,
    pub thumbnail: &'a [u8],
}

/// One stored entry.
pub struct Entry {
    /// Row identity, assigned on first insertion and never changed.
    pub id: u64,
    pub path: String,
    /// Size and modification time of the file when it was last indexed.
    pub finfo: String,
    pub timestamp: i64,
    /// Orientation code of an image, or duration of a video in milliseconds.
    pub metadata: u64,
    pub is_valid: bool,
    pub thumbnail: Vec<u8>,
}

/// Why the store refused an operation.
#[derive(Clone, Copy, Debug, PartialEq, Eq, Structural)]
pub enum DbError {
    /// The entry table has not been created.
    NoMediaTable,
    /// The position table has not been built.
    NoOrderTable,
    /// No entry stands at the requested position.
    NoSuchRow,
    /// No further row identity can be assigned.
    Full,
    /// The metadata number does not fit a signed 64-bit integer, which is
    /// what the store keeps.
    MetadataOutOfRange,
}

/// The mathematical value of an [`InsertionEntry`].
pub struct InsertionView {
    pub path: Seq<char>,
    pub finfo: Seq<char>,
    pub timestamp: i64,
    pub metadata: u64,
    pub thumbnail: Seq<u8>,
}

/// The mathematical value of an [`Entry`].
pub struct EntryView {
    pub id: u64,
    pub path: Seq<char>,
    pub finfo: Seq<char>,
    pub timestamp: i64,
    pub metadata: u64,
    pub is_valid: bool,
    pub thumbnail: Seq<u8>,
}

/// The mathematical value of the whole store.
pub struct IndexState {
    /// Whether the entry table exists.
    pub has_media: bool,
    /// The entries, in insertion order.
    pub rows: Seq<EntryView>,
    /// The position table: row identities, or `None` while it does not exist.
    pub order: Option<Seq<u64>>,
}

impl<'a> View for InsertionEntry<'a> {
    type V = InsertionView;

    open spec fn view(&self) -> InsertionView {
        InsertionView {
            path: self.path@,
            finfo: self.finfo@,
            timestamp: self.timestamp,
            metadata: self.metadata,
            thumbnail: self.thumbnail@,
        }
    }
}

impl View for Entry {
    type V = EntryView;

    open spec fn view(&self) -> EntryView {
        EntryView {
            id: self.id,
            path: self.path@,
            finfo: self.finfo@,
            timestamp: self.timestamp,
            metadata: self.metadata,
            is_valid: self.is_valid,
            thumbnail: self.thumbnail@,
        }
    }
}

/// The values of a sequence of entries.
pub open spec fn rows_view(rows: Seq<Entry>) -> Seq<EntryView> {
    Seq::new(rows.len(), |i: int| rows[i]@)
}

/// Whether some row carries the identity `id`.
pub open spec fn has_id(rows: Seq<EntryView>, id: u64) -> bool {
    exists|i: int| 0 <= i < rows.len() && (#[trigger] rows[i]).id == id
}

/// The index of a row that carries the identity `id`.
pub open spec fn row_with_id(rows: Seq<EntryView>, id: u64) -> int {
    choose|i: int| 0 <= i < rows.len() && (#[trigger] rows[i]).id == id
}

/// Whether `a` comes before `b` in the position table: earlier capture time
/// first, and among equal times the entry that was inserted first.
pub open spec fn before(a: EntryView, b: EntryView) -> bool {
    a.timestamp < b.timestamp || (a.timestamp == b.timestamp && a.id < b.id)
}

/// Whether `order` lists every row of `rows` once, by ascending capture
/// time, ties broken by insertion order.
pub open spec fn is_time_order(rows: Seq<EntryView>, order: Seq<u64>) -> bool {
    &&& order.len() == rows.len()
    &&& forall|p: int| 0 <= p < order.len() ==> has_id(rows, #[trigger] order[p])
    &&& forall|p: int, q: int|
        0 <= p < q < order.len() ==> before(
            rows[row_with_id(rows, #[trigger] order[p])],
            rows[row_with_id(rows, #[trigger] order[q])],
        )
}

/// Whether row `a` sorts before row `b`: by capture time, then by place.
pub open spec fn key_before(rows: Seq<Entry>, a: int, b: int) -> bool {
    rows[a].timestamp < rows[b].timestamp || (rows[a].timestamp == rows[b].timestamp && a < b)
}

/// The entry `r` with its validity flag cleared.
pub open spec fn invalid(r: EntryView) -> EntryView {
    EntryView { is_valid: false, ..r }
}

/// The entry `r` with its validity flag set.
pub open spec fn valid(r: EntryView) -> EntryView {
    EntryView { is_valid: true, ..r }
}

/// The entry `r` after it took the contents of `e`.
pub open spec fn overwritten(r: EntryView, e: InsertionView) -> EntryView {
    EntryView {
        id: r.id,
        path: r.path,
        finfo: e.finfo,
        timestamp: e.timestamp,
        metadata: e.metadata,
        is_valid: true,
        thumbnail: e.thumbnail,
    }
}

/// A new entry with the contents of `e` and the identity `id`.
pub open spec fn fresh(e: InsertionView, id: u64) -> EntryView {
    EntryView {
        id,
        path: e.path,
        finfo: e.finfo,
        timestamp: e.timestamp,
        metadata: e.metadata,
        is_valid: true,
        thumbnail: e.thumbnail,
    }
}

impl IndexState {
    /// Identities grow with insertion order, no path occurs twice, and
    /// without an entry table there are no entries.
    pub open spec fn wf(self) -> bool {
        &&& forall|i: int, j: int|
            0 <= i < j < self.rows.len() ==> (#[trigger] self.rows[i]).id < (
            #[trigger] self.rows[j]).id
        &&& forall|i: int, j: int|
            0 <= i < j < self.rows.len() ==> (#[trigger] self.rows[i]).path != (
            #[trigger] self.rows[j]).path
        &&& !self.has_media ==> self.rows.len() == 0
    }

    /// Whether an entry for `path` is stored.
    pub open spec fn contains_path(self, path: Seq<char>) -> bool {
        exists|i: int| 0 <= i < self.rows.len() && (#[trigger] self.rows[i]).path == path
    }

    /// Whether an entry for `path` with the fingerprint `finfo` is stored.
    pub open spec fn matches(self, path: Seq<char>, finfo: Seq<char>) -> bool {
        exists|i: int|
            0 <= i < self.rows.len() && (#[trigger] self.rows[i]).path == path && self.rows[i].finfo
                == finfo
    }

    /// Whether a valid entry for `path` with the fingerprint `finfo` is
    /// stored.
    pub open spec fn confirms(self, path: Seq<char>, finfo: Seq<char>) -> bool {
        exists|i: int|
            0 <= i < self.rows.len() && (#[trigger] self.rows[i]).path == path && self.rows[i].finfo
                == finfo && self.rows[i].is_valid
    }

    /// The number of entries whose validity flag is set.
    pub open spec fn valid_count(self) -> nat {
        self.rows.filter(|r: EntryView| r.is_valid).len()
    }

    /// The identity that the next new entry gets.
    pub open spec fn next_id(self) -> int {
        if self.rows.len() == 0 {
            1
        } else {
            self.rows.last().id + 1
        }
    }

    /// The state after the entry table was created, if it was missing.
    pub open spec fn created(self) -> IndexState {
        IndexState { has_media: true, ..self }
    }

    /// The state after every validity flag was cleared.
    pub open spec fn invalidated(self) -> IndexState {
        IndexState { rows: self.rows.map_values(|r: EntryView| invalid(r)), ..self }
    }

    /// The state after the entry for `path` was confirmed, provided that its
    /// fingerprint is `finfo`.
    pub open spec fn marked(self, path: Seq<char>, finfo: Seq<char>) -> IndexState {
        IndexState {
            rows: self.rows.map_values(
                |r: EntryView|
                    if r.path == path && r.finfo == finfo {
                        valid(r)
                    } else {
                        r
                    },
            ),
            ..self
        }
    }

    /// The state after `e` was inserted, or took the place of the entry with
    /// the same path.
    pub open spec fn upserted(self, e: InsertionView) -> IndexState {
        if self.contains_path(e.path) {
            IndexState {
                rows: self.rows.map_values(
                    |r: EntryView|
                        if r.path == e.path {
                            overwritten(r, e)
                        } else {
                            r
                        },
                ),
                ..self
            }
        } else {
            IndexState { rows: self.rows.push(fresh(e, self.next_id() as u64)), ..self }
        }
    }

    /// The state after the entries without a validity flag were deleted.
    pub open spec fn cleaned(self) -> IndexState {
        IndexState { rows: self.rows.filter(|r: EntryView| r.is_valid), ..self }
    }

    /// The entry that stands at position `pos`, if the position table
    /// exists, reaches that far and refers to a stored entry there.
    pub open spec fn entry_at(self, pos: int) -> Option<EntryView> {
        if self.has_media && self.order is Some && 0 <= pos < self.order->0.len() && has_id(
            self.rows,
            self.order->0[pos],
        ) {
            Some(self.rows[row_with_id(self.rows, self.order->0[pos])])
        } else {
            None
        }
    }

    /// Whether the entry `e` stands at some position.
    pub open spec fn has_position(self, e: EntryView) -> bool {
        exists|p: int| 0 <= p < self.order->0.len() && #[trigger] self.entry_at(p) == Some(e)
    }

    /// The error that a lookup at position `pos` meets, where `entry_at`
    /// gives no entry.
    pub open spec fn lookup_error(self, pos: int) -> DbError {
        if !self.has_media {
            DbError::NoMediaTable
        } else if self.order is None {
            DbError::NoOrderTable
        } else {
            DbError::NoSuchRow
        }
    }
}

/// The index store.
pub struct IndexDb {
    has_media: bool,
    rows: Vec<Entry>,
    order: Option<Vec<u64>>,
}

impl View for IndexDb {
    type V = IndexState;

    closed spec fn view(&self) -> IndexState {
        IndexState {
            has_media: self.has_media,
            rows: rows_view(self.rows@),
            order: match self.order {
                Some(v) => Some(v@),
                None => None,
            },
        }
    }
}

impl IndexDb {
    /// Whether the store's value is well formed. Every store made by `new`
    /// and changed only through the methods below is.
    pub open spec fn wf(&self) -> bool {
        self@.wf()
    }

    /// A store without tables.
    pub fn new() -> (db: IndexDb)
        ensures
            db.wf(),
            db@ == (IndexState { has_media: false, rows: Seq::empty(), order: None }),
    {
        let db = IndexDb { has_media: false, rows: Vec::new(), order: None };
        assert(rows_view(db.rows@) =~= Seq::empty());
        db
    }

    /// Creates the entry table unless it exists. Never fails.
    pub fn create_index_if_not_exists(&mut self) -> (r: Result<(), DbError>)
        requires
            old(self).wf(),
        ensures
            final(self).wf(),
            r is Ok,
            final(self)@ == old(self)@.created(),
    {
        self.has_media = true;
        Ok(())
    }

    /// Clears the validity flag of every entry. Fails exactly when the entry
    /// table is missing.
    pub fn invalidate_index(&mut self) -> (r: Result<(), DbError>)
        requires
            old(self).wf(),
        ensures
            final(self).wf(),
            old(self)@.has_media ==> r is Ok && final(self)@ == old(self)@.invalidated(),
            !old(self)@.has_media ==> r == Err::<(), DbError>(DbError::NoMediaTable)
                && final(self)@ == old(self)@,
    {
        if !self.has_media {
            return Err(DbError::NoMediaTable);
        }
        let n = self.rows.len();
        let mut i: usize = 0;
        while i < n
            invariant
                i <= n,
                n == self.rows@.len(),
                n == old(self).rows@.len(),
                self.has_media == old(self).has_media,
                self.order == old(self).order,
                forall|j: int| 0 <= j < i ==> (#[trigger] self.rows@[j])@ == invalid(old(self).rows@[j]@),
                forall|j: int| i <= j < n ==> (#[trigger] self.rows@[j])@ == old(self).rows@[j]@,
            decreases n - i,
        {
            self.rows[i].is_valid = false;
            i += 1;
        }
        assert(rows_view(self.rows@) =~= rows_view(old(self).rows@).map_values(
            |r: EntryView| invalid(r),
        ));
        Ok(())
    }

    /// The position table: the identity of the entry at each position, or
    /// `None` while the table does not exist.
    pub fn positions(&self) -> (r: Option<&Vec<u64>>)
        ensures
            match r {
                Some(order) => self@.order == Some(order@),
                None => self@.order is None,
            },
    {
        match &self.order {
            Some(order) => Some(order),
            None => None,
        }
    }

    /// The stored entries, in insertion order.
    pub fn entries(&self) -> (rows: &Vec<Entry>)
        ensures
            rows_view(rows@) == self@.rows,
    {
        &self.rows
    }

    /// The index of the entry for `path`, if one is stored.
    fn find_row(&self, path: &str) -> (found: Option<usize>)
        ensures
            match found {
                Some(i) => i < self.rows@.len() && self.rows@[i as int].path@ == path@,
                None => forall|j: int| 0 <= j < self.rows@.len() ==> (#[trigger] self.rows@[j]).path@ != path@,
            },
    {
        let n = self.rows.len();
        let mut i: usize = 0;
        while i < n
            invariant
                i <= n,
                n == self.rows@.len(),
                forall|j: int| 0 <= j < i ==> (#[trigger] self.rows@[j]).path@ != path@,
            decreases n - i,
        {
            if same_text(self.rows[i].path.as_str(), path) {
                return Some(i);
            }
            i += 1;
        }
        None
    }

    /// Confirms the entry for `path` if its fingerprint is still `finfo`,
    /// and tells whether it did. Fails exactly when the entry table is
    /// missing.
    pub fn set_valid_if_unchanged(&mut self, path: &str, finfo: &str) -> (r: Result<bool, DbError>)
        requires
            old(self).wf(),
        ensures
            final(self).wf(),
            old(self)@.has_media ==> r == Ok::<bool, DbError>(old(self)@.matches(path@, finfo@))
                && final(self)@ == old(self)@.marked(path@, finfo@),
            !old(self)@.has_media ==> r == Err::<bool, DbError>(DbError::NoMediaTable)
                && final(self)@ == old(self)@,
    {
        if !self.has_media {
            return Err(DbError::NoMediaTable);
        }
        let ghost before_rows = rows_view(self.rows@);
        let ghost mark = |r: EntryView|
            if r.path == path@ && r.finfo == finfo@ {
                valid(r)
            } else {
                r
            };
        match self.find_row(path) {
            Some(i) => {
                if same_text(self.rows[i].finfo.as_str(), finfo) {
                    self.rows[i].is_valid = true;
                    assert(before_rows[i as int].path == path@ && before_rows[i as int].finfo
                        == finfo@);
                    assert(rows_view(self.rows@) =~= before_rows.map_values(mark)) by {
                        assert forall|j: int| 0 <= j < before_rows.len() implies rows_view(
                            self.rows@,
                        )[j] == mark(before_rows[j]) by {
                            if j != i {
                                assert(before_rows[j].path != before_rows[i as int].path);
                            }
                        }
                    }
                    Ok(true)
                } else {
                    assert(before_rows.map_values(mark) =~= before_rows) by {
                        assert forall|j: int| 0 <= j < before_rows.len() implies mark(
                            before_rows[j],
                        ) == before_rows[j] by {
                            if j != i {
                                assert(before_rows[j].path != before_rows[i as int].path);
                            }
                        }
                    }
                    assert(!old(self)@.matches(path@, finfo@)) by {
                        assert forall|j: int| 0 <= j < before_rows.len() implies !((
                        #[trigger] before_rows[j]).path == path@ && before_rows[j].finfo
                            == finfo@) by {
                            if j != i {
                                assert(before_rows[j].path != before_rows[i as int].path);
                            }
                        }
                    }
                    Ok(false)
                }
            },
            None => {
                assert(before_rows.map_values(mark) =~= before_rows) by {
                    assert forall|j: int| 0 <= j < before_rows.len() implies mark(
                        before_rows[j],
                    ) == before_rows[j] by {
                        assert(self.rows@[j].path@ != path@);
                    }
                }
                assert(!old(self)@.matches(path@, finfo@)) by {
                    assert forall|j: int| 0 <= j < before_rows.len() implies !((
                    #[trigger] before_rows[j]).path == path@ && before_rows[j].finfo == finfo@) by {
                        assert(self.rows@[j].path@ != path@);
                    }
                }
                Ok(false)
            },
        }
    }

    /// Stores `e`: in place of the entry with the same path, which keeps its
    /// identity, or else as a new last entry. The stored entry is valid.
    /// Fails when the entry table is missing, when the metadata number is
    /// above the largest signed 64-bit integer, and for a new path when the
    /// identities are used up.
    pub fn upsert_entry(&mut self, e: &InsertionEntry) -> (r: Result<(), DbError>)
        requires
            old(self).wf(),
        ensures
            final(self).wf(),
            match r {
                Ok(_) => old(self)@.has_media && e.metadata <= i64::MAX && (old(self)@.contains_path(e@.path) || old(self)@.next_id() <= u64::MAX) && final(self)@
                    == old(self)@.upserted(e@),
                Err(DbError::NoMediaTable) => !old(self)@.has_media && final(self)@ == old(self)@,
                Err(DbError::MetadataOutOfRange) => old(self)@.has_media && e.metadata > i64::MAX
                    && final(self)@ == old(self)@,
                Err(DbError::Full) => old(self)@.has_media && e.metadata <= i64::MAX && !old(self)@.contains_path(e@.path) && old(self)@.next_id() > u64::MAX && final(self)@
                    == old(self)@,
                Err(_) => false,
            },
    {
        if !self.has_media {
            return Err(DbError::NoMediaTable);
        }
        if e.metadata > 0x7fff_ffff_ffff_ffff {
            return Err(DbError::MetadataOutOfRange);
        }
        let ghost before_rows = rows_view(self.rows@);
        match self.find_row(e.path) {
            Some(i) => {
                let ghost put = |r: EntryView|
                    if r.path == e@.path {
                        overwritten(r, e@)
                    } else {
                        r
                    };
                self.rows[i].finfo = e.finfo.to_owned();
                self.rows[i].timestamp = e.timestamp;
                self.rows[i].metadata = e.metadata;
                self.rows[i].is_valid = true;
                self.rows[i].thumbnail = slice_to_vec(e.thumbnail);
                assert(before_rows[i as int].path == e@.path);
                assert(old(self)@.contains_path(e@.path));
                assert(rows_view(self.rows@) =~= before_rows.map_values(put)) by {
                    assert forall|j: int| 0 <= j < before_rows.len() implies rows_view(
                        self.rows@,
                    )[j] == put(before_rows[j]) by {
                        if j != i {
                            assert(before_rows[j].path != before_rows[i as int].path);
                        }
                    }
                }
                assert(self.wf()) by {
                    let after = rows_view(self.rows@);
                    assert forall|a: int, b: int| 0 <= a < b < after.len() implies (
                    #[trigger] after[a]).id < (#[trigger] after[b]).id && after[a].path
                        != after[b].path by {
                        assert(after[a].id == before_rows[a].id && after[a].path
                            == before_rows[a].path);
                        assert(after[b].id == before_rows[b].id && after[b].path
                            == before_rows[b].path);
                    }
                }
                Ok(())
            },
            None => {
                assert(!old(self)@.contains_path(e@.path)) by {
                    assert forall|j: int| 0 <= j < before_rows.len() implies (
                    #[trigger] before_rows[j]).path != e@.path by {
                        assert(self.rows@[j].path@ != e.path@);
                    }
                }
                let n = self.rows.len();
                let id: u64 = if n == 0 {
                    1
                } else {
                    let last = self.rows[n - 1].id;
                    assert(before_rows.last().id == last);
                    if last == u64::MAX {
                        return Err(DbError::Full);
                    }
                    last + 1
                };
                let row = Entry {
                    id,
                    path: e.path.to_owned(),
                    finfo: e.finfo.to_owned(),
                    timestamp: e.timestamp,
                    metadata: e.metadata,
                    is_valid: true,
                    thumbnail: slice_to_vec(e.thumbnail),
                };
                assert(row@ == fresh(e@, id));
                self.rows.push(row);
                assert(rows_view(self.rows@) =~= before_rows.push(fresh(e@, id)));
                assert(self.wf()) by {
                    let after = rows_view(self.rows@);
                    assert forall|a: int, b: int| 0 <= a < b < after.len() implies (
                    #[trigger] after[a]).id < (#[trigger] after[b]).id && after[a].path
                        != after[b].path by {
                        assert(after[a] == before_rows[a]);
                        if b < n {
                            assert(after[b] == before_rows[b]);
                        } else {
                            if a < n - 1 {
                                assert(before_rows[a].id < before_rows[n - 1].id);
                            }
                        }
                    }
                }
                Ok(())
            },
        }
    }

    /// Deletes the entries whose validity flag is clear. Fails exactly when
    /// the entry table is missing.
    pub fn cleanup_index(&mut self) -> (r: Result<(), DbError>)
        requires
            old(self).wf(),
        ensures
            final(self).wf(),
            old(self)@.has_media ==> r is Ok && final(self)@ == old(self)@.cleaned(),
            !old(self)@.has_media ==> r == Err::<(), DbError>(DbError::NoMediaTable)
                && final(self)@ == old(self)@,
    {
        if !self.has_media {
            return Err(DbError::NoMediaTable);
        }
        let ghost before_rows = rows_view(self.rows@);
        let ghost keep = |r: EntryView| r.is_valid;
        let mut i: usize = 0;
        let ghost mut k: int = 0;
        proof {
            assert(before_rows.take(0) =~= Seq::empty());
            assert(rows_view(self.rows@).take(0) =~= Seq::empty());
            assert(rows_view(self.rows@).skip(0) =~= before_rows.skip(0));
        }
        while i < self.rows.len()
            invariant
                self.wf(),
                self.has_media,
                self.order == old(self).order,
                before_rows == rows_view(old(self).rows@),
                keep == (|r: EntryView| r.is_valid),
                0 <= i <= self.rows@.len(),
                i <= k <= before_rows.len(),
                before_rows.len() - k == self.rows@.len() - i,
                rows_view(self.rows@).take(i as int) == before_rows.take(k).filter(keep),
                rows_view(self.rows@).skip(i as int) == before_rows.skip(k),
            decreases self.rows@.len() - i,
        {
            let ghost cur = rows_view(self.rows@);
            let ghost st = self@;
            proof {
                assert(st.wf() && st.rows == cur);
                assert(cur[i as int] == cur.skip(i as int)[0]);
                assert(before_rows[k] == before_rows.skip(k)[0]);
                assert(before_rows.take(k + 1) =~= before_rows.take(k).push(before_rows[k]));
                before_rows.take(k).lemma_filter_push(before_rows[k], keep);
            }
            if self.rows[i].is_valid {
                proof {
                    assert(cur.take(i + 1) =~= cur.take(i as int).push(cur[i as int]));
                    assert(cur.skip(i + 1) =~= cur.skip(i as int).skip(1));
                    assert(before_rows.skip(k + 1) =~= before_rows.skip(k).skip(1));
                    k = k + 1;
                }
                i += 1;
            } else {
                self.rows.remove(i);
                proof {
                    let next = rows_view(self.rows@);
                    assert(next =~= cur.remove(i as int));
                    assert(next.take(i as int) =~= cur.take(i as int));
                    assert(next.skip(i as int) =~= cur.skip(i as int).skip(1));
                    assert(before_rows.skip(k + 1) =~= before_rows.skip(k).skip(1));
                    assert(self.wf()) by {
                        assert forall|a: int, b: int| 0 <= a < b < next.len() implies (
                        #[trigger] next[a]).id < (#[trigger] next[b]).id && next[a].path
                            != next[b].path by {
                            let a0 = if a < i { a } else { a + 1 };
                            let b0 = if b < i { b } else { b + 1 };
                            assert(next[a] == st.rows[a0]);
                            assert(next[b] == st.rows[b0]);
                            assert(st.rows[a0].id < st.rows[b0].id);
                            assert(st.rows[a0].path != st.rows[b0].path);
                        }
                    }
                    k = k + 1;
                }
            }
        }
        proof {
            let cur = rows_view(self.rows@);
            assert(cur.take(i as int) =~= cur);
            assert(before_rows.take(k) =~= before_rows);
        }
        Ok(())
    }

    /// The first place in `idx` whose row has a capture time above `t`.
    fn upper_bound(&self, idx: &Vec<usize>, t: i64) -> (p: usize)
        requires
            forall|q: int| 0 <= q < idx@.len() ==> (#[trigger] idx@[q]) < self.rows@.len(),
            forall|a: int, b: int|
                0 <= a < b < idx@.len() ==> self.rows@[(#[trigger] idx@[a]) as int].timestamp
                    <= self.rows@[(#[trigger] idx@[b]) as int].timestamp,
        ensures
            p <= idx@.len(),
            forall|q: int| 0 <= q < p ==> self.rows@[(#[trigger] idx@[q]) as int].timestamp <= t,
            forall|q: int|
                p <= q < idx@.len() ==> self.rows@[(#[trigger] idx@[q]) as int].timestamp > t,
    {
        let mut lo: usize = 0;
        let mut hi: usize = idx.len();
        while lo < hi
            invariant
                lo <= hi <= idx@.len(),
                forall|q: int| 0 <= q < idx@.len() ==> (#[trigger] idx@[q]) < self.rows@.len(),
                forall|a: int, b: int|
                    0 <= a < b < idx@.len() ==> self.rows@[(#[trigger] idx@[a]) as int].timestamp
                        <= self.rows@[(#[trigger] idx@[b]) as int].timestamp,
                forall|q: int|
                    0 <= q < lo ==> self.rows@[(#[trigger] idx@[q]) as int].timestamp <= t,
                forall|q: int|
                    hi <= q < idx@.len() ==> self.rows@[(#[trigger] idx@[q]) as int].timestamp > t,
            decreases hi - lo,
        {
            let mid = lo + (hi - lo) / 2;
            if self.rows[idx[mid]].timestamp <= t {
                lo = mid + 1;
            } else {
                hi = mid;
            }
        }
        lo
    }

    /// Drops the position table and builds it anew from the stored entries:
    /// every entry once, by ascending capture time, ties broken by insertion
    /// order. Without an entry table it fails and leaves an empty position
    /// table.
    pub fn rebuild_order_table(&mut self) -> (r: Result<(), DbError>)
        requires
            old(self).wf(),
        ensures
            final(self).wf(),
            final(self)@.has_media == old(self)@.has_media,
            final(self)@.rows == old(self)@.rows,
            final(self)@.order is Some,
            old(self)@.has_media ==> r is Ok && is_time_order(
                final(self)@.rows,
                final(self)@.order->0,
            ),
            !old(self)@.has_media ==> r == Err::<(), DbError>(DbError::NoMediaTable)
                && final(self)@.order->0.len() == 0,
    {
        if !self.has_media {
            self.order = Some(Vec::new());
            return Err(DbError::NoMediaTable);
        }
        let ghost rows = rows_view(self.rows@);
        let n = self.rows.len();
        let mut idx: Vec<usize> = Vec::new();
        let mut i: usize = 0;
        while i < n
            invariant
                i <= n,
                n == self.rows@.len(),
                idx@.len() == i,
                forall|q: int| 0 <= q < idx@.len() ==> (#[trigger] idx@[q]) < i,
                forall|a: int, b: int|
                    0 <= a < b < idx@.len() ==> key_before(
                        self.rows@,
                        (#[trigger] idx@[a]) as int,
                        (#[trigger] idx@[b]) as int,
                    ),
            decreases n - i,
        {
            let t = self.rows[i].timestamp;
            let p = self.upper_bound(&idx, t);
            let ghost prev = idx@;
            idx.insert(p, i);
            proof {
                assert forall|a: int, b: int| 0 <= a < b < idx@.len() implies key_before(
                    self.rows@,
                    (#[trigger] idx@[a]) as int,
                    (#[trigger] idx@[b]) as int,
                ) by {
                    let a0 = if a < p { a } else { a - 1 };
                    let b0 = if b < p { b } else { b - 1 };
                    if a != p {
                        assert(idx@[a] == prev[a0]);
                    }
                    if b != p {
                        assert(idx@[b] == prev[b0]);
                    }
                }
            }
            i += 1;
        }
        let mut order: Vec<u64> = Vec::new();
        let mut k: usize = 0;
        while k < n
            invariant
                k <= n,
                n == self.rows@.len(),
                idx@.len() == n,
                order@.len() == k,
                forall|q: int| 0 <= q < idx@.len() ==> (#[trigger] idx@[q]) < n,
                forall|q: int| 0 <= q < k ==> (#[trigger] order@[q]) == self.rows@[idx@[q] as int].id,
            decreases n - k,
        {
            order.push(self.rows[idx[k]].id);
            k += 1;
        }
        proof {
            let st = self@;
            assert(st.wf() && st.rows == rows);
            assert forall|q: int| 0 <= q < order@.len() implies has_id(rows, #[trigger] order@[q])
                && row_with_id(rows, order@[q]) == idx@[q] by {
                let j = idx@[q] as int;
                assert(rows[j].id == order@[q]);
                let c = row_with_id(rows, order@[q]);
                assert(0 <= c < rows.len() && rows[c].id == order@[q]);
                if c < j {
                    assert(st.rows[c].id < st.rows[j].id);
                }
                if j < c {
                    assert(st.rows[j].id < st.rows[c].id);
                }
            }
            assert forall|a: int, b: int| 0 <= a < b < order@.len() implies before(
                rows[row_with_id(rows, #[trigger] order@[a])],
                rows[row_with_id(rows, #[trigger] order@[b])],
            ) by {
                let x = idx@[a] as int;
                let y = idx@[b] as int;
                assert(has_id(rows, order@[a]) && row_with_id(rows, order@[a]) == x);
                assert(has_id(rows, order@[b]) && row_with_id(rows, order@[b]) == y);
                assert(key_before(self.rows@, x, y));
                if x < y {
                    assert(st.rows[x].id < st.rows[y].id);
                }
            }
        }
        self.order = Some(order);
        Ok(())
    }

    /// The number of positions in the position table. Fails exactly when
    /// the position table is missing.
    pub fn get_item_count(&self) -> (r: Result<usize, DbError>)
        ensures
            match self@.order {
                Some(order) => r is Ok && r->Ok_0 == order.len(),
                None => r == Err::<usize, DbError>(DbError::NoOrderTable),
            },
    {
        match &self.order {
            Some(order) => Ok(order.len()),
            None => Err(DbError::NoOrderTable),
        }
    }

    /// The index of the row with the identity `id`, if one is stored.
    fn find_id(&self, id: u64) -> (found: Option<usize>)
        requires
            self.wf(),
        ensures
            match found {
                Some(i) => i < self.rows@.len() && self.rows@[i as int].id == id,
                None => forall|j: int| 0 <= j < self.rows@.len() ==> (#[trigger] self.rows@[j]).id != id,
            },
    {
        let ghost st = self@;
        let mut lo: usize = 0;
        let mut hi: usize = self.rows.len();
        while lo < hi
            invariant
                lo <= hi <= self.rows@.len(),
                st == self@,
                st.wf(),
                forall|j: int| 0 <= j < lo ==> (#[trigger] self.rows@[j]).id < id,
                forall|j: int| hi <= j < self.rows@.len() ==> (#[trigger] self.rows@[j]).id > id,
            decreases hi - lo,
        {
            let mid = lo + (hi - lo) / 2;
            let here = self.rows[mid].id;
            proof {
                assert(st.rows[mid as int].id == here);
                assert forall|j: int| 0 <= j < mid implies (#[trigger] self.rows@[j]).id < here by {
                    assert(st.rows[j].id < st.rows[mid as int].id);
                }
                assert forall|j: int| mid < j < self.rows@.len() implies (
                #[trigger] self.rows@[j]).id > here by {
                    assert(st.rows[mid as int].id < st.rows[j].id);
                }
            }
            if here == id {
                return Some(mid);
            } else if here < id {
                lo = mid + 1;
            } else {
                hi = mid;
            }
        }
        None
    }

    /// The row that stands at position `index`.
    fn row_at(&self, index: usize) -> (r: Result<usize, DbError>)
        requires
            self.wf(),
        ensures
            match self@.entry_at(index as int) {
                Some(e) => r is Ok && r->Ok_0 < self.rows@.len() && self.rows@[r->Ok_0 as int]@ == e,
                None => r == Err::<usize, DbError>(self@.lookup_error(index as int)),
            },
    {
        if !self.has_media {
            return Err(DbError::NoMediaTable);
        }
        match &self.order {
            None => Err(DbError::NoOrderTable),
            Some(order) => {
                if index >= order.len() {
                    return Err(DbError::NoSuchRow);
                }
                let id = order[index];
                let ghost st = self@;
                match self.find_id(id) {
                    Some(i) => {
                        proof {
                            assert(st.rows[i as int].id == id);
                            let c = row_with_id(st.rows, id);
                            assert(0 <= c < st.rows.len() && st.rows[c].id == id);
                            if c < i {
                                assert(st.rows[c].id < st.rows[i as int].id);
                            }
                            if i < c {
                                assert(st.rows[i as int].id < st.rows[c].id);
                            }
                        }
                        Ok(i)
                    },
                    None => {
                        proof {
                            assert forall|j: int| 0 <= j < st.rows.len() implies (
                            #[trigger] st.rows[j]).id != id by {
                                assert(self.rows@[j].id != id);
                            }
                        }
                        Err(DbError::NoSuchRow)
                    },
                }
            },
        }
    }

    /// Path, metadata and thumbnail of the entry at position `index`.
    pub fn get_path_metadata_and_thumbnail(&self, index: usize) -> (r: Result<
        (String, u64, Vec<u8>),
        DbError,
    >)
        requires
            self.wf(),
        ensures
            match self@.entry_at(index as int) {
                Some(e) => r is Ok && (r->Ok_0).0@ == e.path && (r->Ok_0).1 == e.metadata && (
                r->Ok_0).2@ == e.thumbnail,
                None => r is Err && r->Err_0 == self@.lookup_error(index as int),
            },
    {
        match self.row_at(index) {
            Ok(i) => {
                let row = &self.rows[i];
                Ok((row.path.clone(), row.metadata, slice_to_vec(row.thumbnail.as_slice())))
            },
            Err(e) => Err(e),
        }
    }

    /// Path and metadata of the entry at position `index`.
    pub fn get_path_and_metadata(&self, index: usize) -> (r: Result<(String, u64), DbError>)
        requires
            self.wf(),
        ensures
            match self@.entry_at(index as int) {
                Some(e) => r is Ok && (r->Ok_0).0@ == e.path && (r->Ok_0).1 == e.metadata,
                None => r is Err && r->Err_0 == self@.lookup_error(index as int),
            },
    {
        match self.row_at(index) {
            Ok(i) => {
                let row = &self.rows[i];
                Ok((row.path.clone(), row.metadata))
            },
            Err(e) => Err(e),
        }
    }
}

} // verus!
