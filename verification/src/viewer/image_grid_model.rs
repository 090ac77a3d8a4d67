//! The windowed thumbnail cache.
//!
//! The cache holds the decoded thumbnails of one window of positions of the
//! index. A request for another window is met with the least work: only the
//! positions that enter the window are read and decoded, only those that
//! leave it are dropped, and the row events that are returned tell an
//! observer of the visible rows what was added and removed, and where.
//!
//! Decoding the stored thumbnails is the caller's part: `entering` names
//! the positions whose thumbnails are wanted, and `set_range` takes the
//! pictures that were decoded for them. A position for which no picture is
//! handed in counts as one whose thumbnail could not be decoded.

use crate::db::{DbError, EntryView, IndexDb, IndexState};
use crate::frame::Frame;
use crate::media::media_type::{media_type_of, MediaType};
use crate::util::{hh_mm_ss, hh_mm_ss_spec};
use std::collections::HashMap;
use vstd::prelude::*;
use vstd::utf8::encode_utf8;

verus! {

broadcast use vstd::std_specs::hash::group_hash_axioms;

/// A window of positions: `length` positions from `offset` on.
#[derive(Clone, Copy, Debug, PartialEq, Eq, Structural)]
pub struct Range {
    pub offset: usize,
    pub length: usize,
}

/// What an observer of the visible rows is told.
#[derive(Clone, Copy, Debug, PartialEq, Eq, Structural)]
pub enum RowEvent {
    /// `count` rows were added, the first of them at row `index`.
    Added { index: usize, count: usize },
    /// `count` rows were removed, the first of them at row `index`.
    Removed { index: usize, count: usize },
}

/// A decoded thumbnail and, for a video, the label of its duration.
pub struct ModelEntry {
    pub image: Frame,
    pub video_duration: Option<String>,
}

/// Why a position could not be loaded.
#[derive(Clone, Copy, Debug, PartialEq, Eq, Structural)]
pub enum LoadError {
    /// The index gave no entry for the position.
    Store(DbError),
    /// The stored thumbnail could not be decoded.
    Decode,
}

impl Default for Range {
    fn default() -> (r: Range)
        ensures
            r == Range::none(),
    {
        Range { offset: 0, length: 0 }
    }
}

impl Range {
    /// Whether `pos` lies in the window.
    pub open spec fn covers(self, pos: int) -> bool {
        self.offset <= pos < self.offset + self.length
    }

    /// The window without positions at offset 0.
    pub open spec fn none() -> Range {
        Range { offset: 0, length: 0 }
    }

    pub fn is_empty(&self) -> (r: bool)
        ensures
            r == (self.length == 0),
    {
        self.length == 0
    }

    /// The first position of the window.
    pub fn min(&self) -> (r: usize)
        ensures
            r == self.offset,
    {
        self.offset
    }

    /// The last position of a window that is not empty.
    pub fn max(&self) -> (r: usize)
        requires
            self.length > 0,
            self.offset + self.length - 1 <= usize::MAX,
        ensures
            r == self.offset + self.length - 1,
    {
        self.offset + (self.length - 1)
    }
}

/// The duration label of an entry: that of its metadata if its path names a
/// video, none otherwise.
pub open spec fn label_of(path: Seq<char>, metadata: u64) -> Option<Seq<char>> {
    match media_type_of(encode_utf8(path)) {
        Some(MediaType::Video(_)) => Some(hh_mm_ss_spec(metadata as nat)),
        _ => None,
    }
}

/// Whether position `pos` can be loaded: an entry stands there in the
/// index, and a decoded picture was handed in for it.
pub open spec fn loadable(db: IndexState, frames: Map<usize, Frame>, pos: int) -> bool {
    db.entry_at(pos) is Some && 0 <= pos <= usize::MAX && frames.contains_key(pos as usize)
}

/// The error that loading `pos` ends in, where it cannot be loaded.
pub open spec fn load_error(db: IndexState, pos: int) -> LoadError {
    if db.entry_at(pos) is Some {
        LoadError::Decode
    } else {
        LoadError::Store(db.lookup_error(pos))
    }
}

impl ModelEntry {
    /// Whether the entry shows `e` by the picture `image`: it holds that
    /// picture, and the duration label that `e` calls for.
    pub open spec fn shows(&self, e: EntryView, image: Frame) -> bool {
        &&& self.image == image
        &&& match self.video_duration {
            Some(label) => label_of(e.path, e.metadata) == Some(label@),
            None => label_of(e.path, e.metadata) is None,
        }
    }

    /// The cache entry for a decoded thumbnail: the picture, and for a video
    /// path the label of the duration that `metadata` gives in
    /// milliseconds.
    pub fn new(path: &str, metadata: u64, image: Frame) -> (entry: ModelEntry)
        ensures
            entry.image == image,
            match entry.video_duration {
                Some(label) => label_of(path@, metadata) == Some(label@),
                None => label_of(path@, metadata) is None,
            },
    {
        let video_duration = match MediaType::from_path(path) {
            Some(MediaType::Video(_)) => Some(hh_mm_ss(metadata)),
            _ => None,
        };
        ModelEntry { image, video_duration }
    }
}

/// The rows that an observer sees change, in order, when the window `old`
/// gives way to the window `new`.
pub open spec fn reconcile_events(old: Range, new: Range) -> Seq<RowEvent> {
    if old == new {
        seq![]
    } else if new.length == 0 {
        seq![RowEvent::Removed { index: 0, count: old.length }]
    } else if old.length == 0 {
        seq![RowEvent::Added { index: 0, count: new.length }]
    } else if old.offset + old.length <= new.offset || new.offset + new.length <= old.offset {
        seq![
            RowEvent::Removed { index: 0, count: old.length },
            RowEvent::Added { index: 0, count: new.length },
        ]
    } else {
        trailing_events(old, new) + leading_events(old, new)
    }
}

/// The event at the far edge of two windows that overlap.
pub open spec fn trailing_events(old: Range, new: Range) -> Seq<RowEvent> {
    let old_end = old.offset + old.length;
    let new_end = new.offset + new.length;
    if old_end < new_end {
        seq![RowEvent::Added { index: old.length, count: (new_end - old_end) as usize }]
    } else if old_end > new_end {
        seq![
            RowEvent::Removed {
                index: (new_end - old.offset) as usize,
                count: (old_end - new_end) as usize,
            },
        ]
    } else {
        seq![]
    }
}

/// The event at the near edge of two windows that overlap.
pub open spec fn leading_events(old: Range, new: Range) -> Seq<RowEvent> {
    if old.offset < new.offset {
        seq![RowEvent::Removed { index: 0, count: (new.offset - old.offset) as usize }]
    } else if old.offset > new.offset {
        seq![RowEvent::Added { index: 0, count: (old.offset - new.offset) as usize }]
    } else {
        seq![]
    }
}

/// Whether `after` holds for position `p` what `before` holds for it.
pub open spec fn same_at(
    after: Map<usize, ModelEntry>,
    before: Map<usize, ModelEntry>,
    p: usize,
) -> bool {
    &&& after.contains_key(p) <==> before.contains_key(p)
    &&& before.contains_key(p) ==> after[p] == before[p]
}

/// Whether `after` holds for position `p` what loading it gives: the
/// entry that its index entry and the picture decoded for it call for, or
/// nothing where the position cannot be loaded.
pub open spec fn loaded_at(
    after: Map<usize, ModelEntry>,
    db: IndexState,
    frames: Map<usize, Frame>,
    p: usize,
) -> bool {
    &&& after.contains_key(p) <==> loadable(db, frames, p as int)
    &&& after.contains_key(p) ==> after[p].shows(db.entry_at(p as int)->0, frames[p])
}

/// Whether the pictures `after` still hold for position `p` what `before`
/// held for it.
pub open spec fn kept_at(after: Map<usize, Frame>, before: Map<usize, Frame>, p: usize) -> bool {
    &&& after.contains_key(p) <==> before.contains_key(p)
    &&& before.contains_key(p) ==> after[p] == before[p]
}

/// Whether position `p` enters the window when `old` gives way to `new`.
pub open spec fn enters(old: Range, new: Range, p: int) -> bool {
    new.covers(p) && !old.covers(p)
}

/// The mathematical value of the cache.
pub struct CacheState {
    pub range: Range,
    pub entries: Map<usize, ModelEntry>,
}

impl CacheState {
    /// The window fits the position space, and no entry is held for a
    /// position outside the window.
    pub open spec fn wf(self) -> bool {
        &&& self.range.offset + self.range.length <= usize::MAX
        &&& forall|p: usize| #[trigger]
            self.entries.contains_key(p) ==> self.range.covers(p as int)
    }

    /// Whether the cache holds an entry for every position of its window.
    pub open spec fn complete(self) -> bool {
        forall|p: usize|
            self.range.covers(p as int) ==> #[trigger] self.entries.contains_key(p)
    }

    /// Whether `self` is what a request for the window `new` makes of the
    /// cache `old` over the index `db`, with the decoded pictures `frames`:
    /// the entries of the positions that stay are kept as they are, and
    /// each position that enters is held exactly if it can be loaded, with
    /// the entry that its index entry and its picture call for.
    pub open spec fn follows(
        self,
        old: CacheState,
        db: IndexState,
        frames: Map<usize, Frame>,
        new: Range,
    ) -> bool {
        &&& self.range == new
        &&& forall|p: usize|
            new.covers(p as int) && old.range.covers(p as int) ==> #[trigger] same_at(
                self.entries,
                old.entries,
                p,
            )
        &&& forall|p: usize|
            new.covers(p as int) && !old.range.covers(p as int) ==> #[trigger] loaded_at(
                self.entries,
                db,
                frames,
                p,
            )
    }
}

/// The windowed cache of decoded thumbnails.
pub struct ViewModelInner {
    range: Range,
    entries: HashMap<usize, ModelEntry>,
}

impl View for ViewModelInner {
    type V = CacheState;

    closed spec fn view(&self) -> CacheState {
        CacheState { range: self.range, entries: self.entries@ }
    }
}

impl ViewModelInner {
    /// Whether the cache is well formed. Every cache made by `new` and
    /// changed only through `set_range` is.
    pub open spec fn wf(&self) -> bool {
        self@.wf()
    }

    /// An empty cache over the empty window at position 0.
    pub fn new() -> (cache: ViewModelInner)
        ensures
            cache.wf(),
            cache@.range == Range::none(),
            cache@.entries == Map::<usize, ModelEntry>::empty(),
    {
        ViewModelInner { range: Range::default(), entries: HashMap::new() }
    }

    /// The window that the cache holds.
    pub fn range(&self) -> (r: Range)
        ensures
            r == self@.range,
    {
        self.range
    }

    /// The number of visible rows.
    pub fn row_count(&self) -> (n: usize)
        ensures
            n == self@.range.length,
    {
        self.range.length
    }

    /// The position that row `row` shows and the entry held for it, or
    /// `None` for a row outside the window. A row whose position could not
    /// be loaded has no entry.
    pub fn row_data(&self, row: usize) -> (r: Option<(usize, Option<&ModelEntry>)>)
        requires
            self.wf(),
        ensures
            match r {
                None => row >= self@.range.length,
                Some((pos, entry)) => row < self@.range.length && pos == self@.range.offset + row
                    && match entry {
                    Some(e) => self@.entries.contains_key(pos) && *e == self@.entries[pos],
                    None => !self@.entries.contains_key(pos),
                },
            },
    {
        if row >= self.range.length {
            return None;
        }
        let db_index = self.range.offset + row;
        Some((db_index, self.entries.get(&db_index)))
    }

    /// The positions that a request for `length` positions from `offset` on
    /// lets enter the window, in ascending order: those whose thumbnails
    /// are to be decoded, and no others.
    pub fn entering(&self, offset: usize, length: usize) -> (wanted: Vec<usize>)
        requires
            self.wf(),
            offset + length <= usize::MAX,
        ensures
            forall|p: usize|
                wanted@.contains(p) <==> enters(self@.range, Range { offset, length }, p as int),
            forall|i: int, j: int| 0 <= i < j < wanted@.len() ==> wanted@[i] < wanted@[j],
            wanted@.len() == length - shared(self@.range, Range { offset, length }),
    {
        let new = Range { offset, length };
        let old = self.range;
        let mut wanted: Vec<usize> = Vec::new();
        let mut i: usize = 0;
        while i < length
            invariant
                i <= length,
                offset + length <= usize::MAX,
                old.offset + old.length <= usize::MAX,
                old == self@.range,
                new == (Range { offset, length }),
                forall|k: int|
                    0 <= k < wanted@.len() ==> offset <= (#[trigger] wanted@[k]) < offset + i
                        && !old.covers(wanted@[k] as int),
                forall|p: usize|
                    offset <= p < offset + i && !old.covers(p as int) ==> wanted@.contains(p),
                forall|a: int, b: int| 0 <= a < b < wanted@.len() ==> wanted@[a] < wanted@[b],
                wanted@.len() == i - shared(old, Range { offset, length: i }),
            decreases length - i,
        {
            let p = offset + i;
            if !(old.offset <= p && p - old.offset < old.length) {
                let ghost before = wanted@;
                wanted.push(p);
                proof {
                    assert(wanted@[before.len() as int] == p);
                    assert forall|q: usize|
                        offset <= q < offset + i + 1 && !old.covers(
                            q as int,
                        ) implies wanted@.contains(q) by {
                        if q != p {
                            assert(before.contains(q));
                            let k = choose|k: int| 0 <= k < before.len() && before[k] == q;
                            assert(wanted@[k] == q);
                        }
                    }
                }
            }
            i += 1;
        }
        proof {
            assert forall|p: usize| wanted@.contains(p) implies enters(old, new, p as int) by {
                let k = choose|k: int| 0 <= k < wanted@.len() && wanted@[k] == p;
                assert(offset <= wanted@[k] < offset + length);
            }
        }
        wanted
    }

    /// Moves the window to `length` positions from `offset` on, over the
    /// index `db`, and returns the row events of the change. `decoded` holds
    /// the pictures that were decoded for positions that enter the window.
    /// A request for the window that the cache already holds changes
    /// nothing.
    pub fn set_range(
        &mut self,
        db: &IndexDb,
        offset: usize,
        length: usize,
        decoded: HashMap<usize, Frame>,
    ) -> (events: Vec<RowEvent>)
        requires
            old(self).wf(),
            db.wf(),
            offset + length <= usize::MAX,
        ensures
            final(self).wf(),
            final(self)@.follows(old(self)@, db@, decoded@, Range { offset, length }),
            events@ == reconcile_events(old(self)@.range, Range { offset, length }),
    {
        let new_range = Range { offset, length };
        let mut events: Vec<RowEvent> = Vec::new();
        let mut decoded = decoded;
        if self.range != new_range {
            self.rebuild(db, &new_range, &mut decoded, &mut events);
        } else {
            proof {
                assert forall|p: usize|
                    new_range.covers(p as int) && self@.range.covers(
                        p as int,
                    ) implies #[trigger] same_at(self@.entries, self@.entries, p) by {}
            }
        }
        events
    }

    fn rebuild(
        &mut self,
        db: &IndexDb,
        new_range: &Range,
        decoded: &mut HashMap<usize, Frame>,
        events: &mut Vec<RowEvent>,
    )
        requires
            old(self).wf(),
            db.wf(),
            new_range.offset + new_range.length <= usize::MAX,
            old(self)@.range != *new_range,
            old(events)@.len() == 0,
        ensures
            final(self).wf(),
            final(self)@.follows(old(self)@, db@, old(decoded)@, *new_range),
            final(events)@ == reconcile_events(old(self)@.range, *new_range),
    {
        let ghost before = self@;
        let ghost frames = decoded@;
        if new_range.is_empty() {
            self.clear(events);
            self.range.offset = new_range.offset;
            assert(final(events)@ =~= reconcile_events(before.range, *new_range));
            return;
        }
        if self.range.is_empty() {
            self.range.offset = new_range.offset;
            proof {
                assert forall|p: usize| #[trigger] self@.entries.contains_key(p) implies false by {
                    assert(before.entries.contains_key(p));
                    assert(before.wf());
                }
            }
            self.add_front(db, new_range.length, decoded, events);
            proof {
                assert(final(events)@ =~= reconcile_events(before.range, *new_range));
                assert forall|p: usize|
                    new_range.covers(p as int) && !before.range.covers(
                        p as int,
                    ) implies #[trigger] loaded_at(self@.entries, db@, frames, p) by {}
            }
            return;
        }
        let (old_min, old_max) = (self.range.min(), self.range.max());
        let (new_min, new_max) = (new_range.min(), new_range.max());

        if old_max < new_min || old_min > new_max {
            self.clear(events);
            self.range.offset = new_min;
            self.add_front(db, new_range.length, decoded, events);
            proof {
                assert(final(events)@ =~= reconcile_events(before.range, *new_range));
                assert forall|p: usize|
                    new_range.covers(p as int) && !before.range.covers(
                        p as int,
                    ) implies #[trigger] loaded_at(self@.entries, db@, frames, p) by {}
            }
            return;
        }
        if old_max < new_max {
            self.add_front(db, new_max - old_max, decoded, events);
        } else if old_max > new_max {
            self.remove_front(old_max - new_max, events);
        }
        let ghost mid = self@;
        let ghost mid_frames = decoded@;
        proof {
            assert(events@ =~= trailing_events(before.range, *new_range));
            assert(mid.range.offset == before.range.offset);
            assert(mid.range.offset + mid.range.length == new_range.offset + new_range.length);
            assert forall|p: usize| mid.range.covers(p as int) implies if before.range.covers(
                p as int,
            ) {
                same_at(mid.entries, before.entries, p)
            } else {
                loaded_at(mid.entries, db@, frames, p)
            } by {
                if old_max < new_max {
                    if before.range.covers(p as int) {
                        assert(same_at(mid.entries, before.entries, p));
                    } else {
                        assert(loaded_at(mid.entries, db@, frames, p));
                    }
                } else if old_max > new_max {
                    assert(mid.entries.contains_key(p) <==> before.entries.contains_key(p));
                } else {
                    assert(mid == before);
                }
            }
            assert forall|p: usize| !mid.range.covers(p as int) implies #[trigger] kept_at(
                mid_frames,
                frames,
                p,
            ) by {}
        }
        if old_min < new_min {
            self.remove_back(new_min - old_min, events);
        } else if old_min > new_min {
            self.add_back(db, old_min - new_min, decoded, events);
        }
        proof {
            assert(events@ =~= trailing_events(before.range, *new_range) + leading_events(
                before.range,
                *new_range,
            ));
            let last = self@;
            assert forall|p: usize|
                new_range.covers(p as int) && before.range.covers(
                    p as int,
                ) implies #[trigger] same_at(last.entries, before.entries, p) by {
                assert(mid.range.covers(p as int));
                assert(same_at(mid.entries, before.entries, p));
                if old_min < new_min {
                    assert(last.entries.contains_key(p) <==> mid.entries.contains_key(p));
                } else if old_min > new_min {
                    assert(same_at(last.entries, mid.entries, p));
                }
            }
            assert forall|p: usize|
                new_range.covers(p as int) && !before.range.covers(
                    p as int,
                ) implies #[trigger] loaded_at(last.entries, db@, frames, p) by {
                if mid.range.covers(p as int) {
                    assert(loaded_at(mid.entries, db@, frames, p));
                    if old_min < new_min {
                        assert(last.entries.contains_key(p) <==> mid.entries.contains_key(p));
                    } else if old_min > new_min {
                        assert(same_at(last.entries, mid.entries, p));
                    }
                } else {
                    assert(loaded_at(last.entries, db@, mid_frames, p));
                    assert(kept_at(mid_frames, frames, p));
                }
            }
        }
    }

    /// Drops every entry and leaves the empty window at 0.
    fn clear(&mut self, events: &mut Vec<RowEvent>)
        requires
            old(self).wf(),
        ensures
            final(self).wf(),
            final(self)@.range == Range::none(),
            final(self)@.entries == Map::<usize, ModelEntry>::empty(),
            final(events)@ == old(events)@.push(
                RowEvent::Removed { index: 0, count: old(self)@.range.length },
            ),
    {
        let remove_count = self.range.length;
        self.range = Range::default();
        self.entries.clear();
        events.push(RowEvent::Removed { index: 0, count: remove_count });
    }

    /// Extends the window by `count` positions at its far end.
    fn add_front(
        &mut self,
        db: &IndexDb,
        count: usize,
        decoded: &mut HashMap<usize, Frame>,
        events: &mut Vec<RowEvent>,
    )
        requires
            old(self).wf(),
            db.wf(),
            old(self)@.range.offset + old(self)@.range.length + count <= usize::MAX,
        ensures
            final(self).wf(),
            final(self)@.follows(
                old(self)@,
                db@,
                old(decoded)@,
                Range {
                    offset: old(self)@.range.offset,
                    length: (old(self)@.range.length + count) as usize,
                },
            ),
            forall|p: usize|
                !final(self)@.range.covers(p as int) ==> #[trigger] kept_at(
                    final(decoded)@,
                    old(decoded)@,
                    p,
                ),
            final(events)@ == old(events)@.push(
                RowEvent::Added { index: old(self)@.range.length, count },
            ),
    {
        let start_db_idx = self.range.offset + self.range.length;
        let ghost before = self@;
        let ghost frames = decoded@;
        proof {
            assert forall|p: usize| start_db_idx <= p < start_db_idx + count implies !(
            #[trigger] self.entries@.contains_key(p)) by {
                if before.entries.contains_key(p) {
                    assert(before.range.covers(p as int));
                }
            }
        }
        self.load_span(db, start_db_idx, count, decoded);
        self.range.length += count;
        events.push(RowEvent::Added { index: self.range.length - count, count });
        proof {
            let after = self@;
            assert forall|p: usize| #[trigger]
                after.entries.contains_key(p) implies after.range.covers(p as int) by {
                if !(start_db_idx <= p < start_db_idx + count) {
                    assert(same_at(after.entries, before.entries, p));
                    assert(before.entries.contains_key(p));
                }
            }
            assert forall|p: usize|
                after.range.covers(p as int) && before.range.covers(
                    p as int,
                ) implies #[trigger] same_at(after.entries, before.entries, p) by {}
            assert forall|p: usize|
                after.range.covers(p as int) && !before.range.covers(
                    p as int,
                ) implies #[trigger] loaded_at(after.entries, db@, frames, p) by {}
            assert forall|p: usize| !after.range.covers(p as int) implies #[trigger] kept_at(
                decoded@,
                frames,
                p,
            ) by {}
        }
    }

    /// Shortens the window by `count` positions at its far end.
    fn remove_front(&mut self, count: usize, events: &mut Vec<RowEvent>)
        requires
            old(self).wf(),
            count <= old(self)@.range.length,
        ensures
            final(self).wf(),
            final(self)@.range == (Range {
                offset: old(self)@.range.offset,
                length: (old(self)@.range.length - count) as usize,
            }),
            final(self)@.entries == old(self)@.entries.restrict(
                Set::new(|p: usize| final(self)@.range.covers(p as int)),
            ),
            final(events)@ == old(events)@.push(
                RowEvent::Removed { index: (old(self)@.range.length - count) as usize, count },
            ),
    {
        let start_db_idx = self.range.offset + self.range.length - count;
        let ghost before = self@;
        self.evict_span(start_db_idx, count);
        self.range.length -= count;
        events.push(RowEvent::Removed { index: self.range.length, count });
        proof {
            let after = self@;
            let kept = before.entries.restrict(Set::new(|p: usize| after.range.covers(p as int)));
            assert forall|p: usize| after.entries.contains_key(p) <==> kept.contains_key(p) by {
                if before.entries.contains_key(p) {
                    assert(before.range.covers(p as int));
                }
            }
            assert(after.entries =~= kept);
        }
    }

    /// Extends the window by `count` positions at its near end.
    fn add_back(
        &mut self,
        db: &IndexDb,
        count: usize,
        decoded: &mut HashMap<usize, Frame>,
        events: &mut Vec<RowEvent>,
    )
        requires
            old(self).wf(),
            db.wf(),
            count <= old(self)@.range.offset,
        ensures
            final(self).wf(),
            final(self)@.follows(
                old(self)@,
                db@,
                old(decoded)@,
                Range {
                    offset: (old(self)@.range.offset - count) as usize,
                    length: (old(self)@.range.length + count) as usize,
                },
            ),
            final(events)@ == old(events)@.push(RowEvent::Added { index: 0, count }),
    {
        let start_db_idx = self.range.offset - count;
        let ghost before = self@;
        let ghost frames = decoded@;
        proof {
            assert forall|p: usize| start_db_idx <= p < start_db_idx + count implies !(
            #[trigger] self.entries@.contains_key(p)) by {
                if before.entries.contains_key(p) {
                    assert(before.range.covers(p as int));
                }
            }
        }
        self.load_span(db, start_db_idx, count, decoded);
        self.range.offset -= count;
        self.range.length += count;
        events.push(RowEvent::Added { index: 0, count });
        proof {
            let after = self@;
            assert forall|p: usize| #[trigger]
                after.entries.contains_key(p) implies after.range.covers(p as int) by {
                if !(start_db_idx <= p < start_db_idx + count) {
                    assert(same_at(after.entries, before.entries, p));
                    assert(before.entries.contains_key(p));
                }
            }
            assert forall|p: usize|
                after.range.covers(p as int) && before.range.covers(
                    p as int,
                ) implies #[trigger] same_at(after.entries, before.entries, p) by {}
            assert forall|p: usize|
                after.range.covers(p as int) && !before.range.covers(
                    p as int,
                ) implies #[trigger] loaded_at(after.entries, db@, frames, p) by {}
        }
    }

    /// Shortens the window by `count` positions at its near end.
    fn remove_back(&mut self, count: usize, events: &mut Vec<RowEvent>)
        requires
            old(self).wf(),
            count <= old(self)@.range.length,
        ensures
            final(self).wf(),
            final(self)@.range == (Range {
                offset: (old(self)@.range.offset + count) as usize,
                length: (old(self)@.range.length - count) as usize,
            }),
            final(self)@.entries == old(self)@.entries.restrict(
                Set::new(|p: usize| final(self)@.range.covers(p as int)),
            ),
            final(events)@ == old(events)@.push(RowEvent::Removed { index: 0, count }),
    {
        let start_db_idx = self.range.offset;
        let ghost before = self@;
        self.evict_span(start_db_idx, count);
        self.range.offset += count;
        self.range.length -= count;
        events.push(RowEvent::Removed { index: 0, count });
        proof {
            let after = self@;
            let kept = before.entries.restrict(Set::new(|p: usize| after.range.covers(p as int)));
            assert forall|p: usize| after.entries.contains_key(p) <==> kept.contains_key(p) by {
                if before.entries.contains_key(p) {
                    assert(before.range.covers(p as int));
                }
            }
            assert(after.entries =~= kept);
        }
    }

    /// Loads the `count` positions from `start` on, none of which is held.
    fn load_span(
        &mut self,
        db: &IndexDb,
        start: usize,
        count: usize,
        decoded: &mut HashMap<usize, Frame>,
    )
        requires
            db.wf(),
            start + count <= usize::MAX,
            forall|p: usize|
                start <= p < start + count ==> !(#[trigger] old(self).entries@.contains_key(p)),
        ensures
            final(self).range == old(self).range,
            forall|p: usize|
                start <= p < start + count ==> #[trigger] loaded_at(
                    final(self).entries@,
                    db@,
                    old(decoded)@,
                    p,
                ),
            forall|p: usize|
                !(start <= p < start + count) ==> #[trigger] same_at(
                    final(self).entries@,
                    old(self).entries@,
                    p,
                ),
            forall|p: usize|
                !(start <= p < start + count) ==> #[trigger] kept_at(
                    final(decoded)@,
                    old(decoded)@,
                    p,
                ),
    {
        let ghost frames = decoded@;
        let mut i: usize = 0;
        while i < count
            invariant
                i <= count,
                db.wf(),
                start + count <= usize::MAX,
                self.range == old(self).range,
                frames == old(decoded)@,
                forall|p: usize|
                    start <= p < start + count ==> !(#[trigger] old(self).entries@.contains_key(p)),
                forall|p: usize|
                    start <= p < start + i ==> #[trigger] loaded_at(self.entries@, db@, frames, p),
                forall|p: usize|
                    !(start <= p < start + i) ==> #[trigger] same_at(
                        self.entries@,
                        old(self).entries@,
                        p,
                    ),
                forall|p: usize|
                    !(start <= p < start + i) ==> #[trigger] kept_at(decoded@, frames, p),
            decreases count - i,
        {
            let ghost prev = self.entries@;
            let ghost prev_frames = decoded@;
            let key = start + i;
            proof {
                assert(same_at(prev, old(self).entries@, key));
                assert(!old(self).entries@.contains_key(key));
            }
            self.load_entry(db, key, decoded);
            proof {
                let next = self.entries@;
                assert forall|p: usize| start <= p < start + i + 1 implies #[trigger] loaded_at(
                    next,
                    db@,
                    frames,
                    p,
                ) by {
                    if p == key {
                        assert(same_at(prev, old(self).entries@, p));
                        assert(!old(self).entries@.contains_key(p));
                        assert(kept_at(prev_frames, frames, p));
                        assert(loaded_at(next, db@, prev_frames, p));
                    } else {
                        assert(loaded_at(prev, db@, frames, p));
                        assert(same_at(next, prev, p));
                    }
                }
                assert forall|p: usize| !(start <= p < start + i + 1) implies #[trigger] same_at(
                    next,
                    old(self).entries@,
                    p,
                ) by {
                    assert(same_at(prev, old(self).entries@, p));
                    assert(same_at(next, prev, p));
                }
                assert forall|p: usize| !(start <= p < start + i + 1) implies #[trigger] kept_at(
                    decoded@,
                    frames,
                    p,
                ) by {
                    assert(kept_at(prev_frames, frames, p));
                    assert(kept_at(decoded@, prev_frames, p));
                }
            }
            i += 1;
        }
    }

    /// Drops what is held for the `count` positions from `start` on.
    fn evict_span(&mut self, start: usize, count: usize)
        requires
            start + count <= usize::MAX,
        ensures
            final(self).range == old(self).range,
            final(self).entries@ == old(self).entries@.remove_keys(
                Set::new(|p: usize| start <= p < start + count),
            ),
    {
        let mut i: usize = 0;
        assert(self.entries@ =~= old(self).entries@.remove_keys(
            Set::new(|p: usize| start <= p < start + 0),
        ));
        while i < count
            invariant
                i <= count,
                start + count <= usize::MAX,
                self.range == old(self).range,
                self.entries@ == old(self).entries@.remove_keys(
                    Set::new(|p: usize| start <= p < start + i),
                ),
            decreases count - i,
        {
            let key = start + i;
            let ghost prev = self.entries@;
            self.entries.remove(&key);
            assert(self.entries@ == prev.remove(key));
            assert(self.entries@ =~= old(self).entries@.remove_keys(
                Set::new(|p: usize| start <= p < start + i + 1),
            ));
            i += 1;
        }
    }

    /// Loads position `db_idx`, which is not held, with the picture that
    /// was decoded for it; where that fails the position stays absent.
    fn load_entry(&mut self, db: &IndexDb, db_idx: usize, decoded: &mut HashMap<usize, Frame>)
        requires
            db.wf(),
            !old(self).entries@.contains_key(db_idx),
        ensures
            final(self).range == old(self).range,
            loaded_at(final(self).entries@, db@, old(decoded)@, db_idx),
            forall|p: usize|
                p != db_idx ==> #[trigger] same_at(final(self).entries@, old(self).entries@, p),
            forall|p: usize| p != db_idx ==> #[trigger] kept_at(final(decoded)@, old(decoded)@, p),
    {
        let ghost frames = decoded@;
        let picture = decoded.remove(&db_idx);
        assert(decoded@ == frames.remove(db_idx));
        match Self::get_entry(db, db_idx, picture) {
            Ok(t) => {
                self.entries.insert(db_idx, t);
            },
            Err(_) => {},
        }
    }

    /// The cache entry of position `db_idx`: what the index holds there,
    /// shown by the picture `decoded` that was decoded from its thumbnail.
    /// Fails where the index has no entry at the position, and where no
    /// picture could be decoded.
    pub fn get_entry(db: &IndexDb, db_idx: usize, decoded: Option<Frame>) -> (r: Result<
        ModelEntry,
        LoadError,
    >)
        requires
            db.wf(),
        ensures
            match r {
                Ok(entry) => db@.entry_at(db_idx as int) is Some && decoded is Some && entry.shows(
                    db@.entry_at(db_idx as int)->0,
                    decoded->0,
                ),
                Err(e) => (db@.entry_at(db_idx as int) is None || decoded is None) && e
                    == load_error(db@, db_idx as int),
            },
    {
        let (path, metadata) = match db.get_path_and_metadata(db_idx) {
            Ok(found) => found,
            Err(e) => {
                return Err(LoadError::Store(e));
            },
        };
        let image = match decoded {
            Some(image) => image,
            None => {
                return Err(LoadError::Decode);
            },
        };
        Ok(ModelEntry::new(path.as_str(), metadata, image))
    }
}

/// A request for the window that the cache holds changes nothing.
pub proof fn lemma_same_window_changes_nothing(
    old: CacheState,
    db: IndexState,
    frames: Map<usize, Frame>,
    after: CacheState,
)
    requires
        old.wf(),
        after.wf(),
        after.follows(old, db, frames, old.range),
    ensures
        after.range == old.range,
        after.entries =~= old.entries,
        reconcile_events(old.range, old.range).len() == 0,
{
    assert forall|p: usize| after.entries.contains_key(p) <==> old.entries.contains_key(p) by {
        if after.entries.contains_key(p) || old.entries.contains_key(p) {
            assert(old.range.covers(p as int));
            assert(same_at(after.entries, old.entries, p));
        }
    }
    assert forall|p: usize| after.entries.contains_key(p) implies after.entries[p]
        == old.entries[p] by {
        assert(old.range.covers(p as int));
        assert(same_at(after.entries, old.entries, p));
    }
}

/// The window holds exactly its positions: when every position of the old
/// window was held, and every position of the new window can be loaded, the
/// cache holds an entry for each position of the new window and for no
/// other.
pub proof fn lemma_window_covered(
    old: CacheState,
    db: IndexState,
    frames: Map<usize, Frame>,
    new: Range,
    after: CacheState,
)
    requires
        old.wf(),
        old.complete(),
        after.wf(),
        after.follows(old, db, frames, new),
        forall|p: usize| new.covers(p as int) ==> loadable(db, frames, p as int),
    ensures
        after.complete(),
        after.entries.dom() =~= Set::new(|p: usize| new.covers(p as int)),
{
    assert forall|p: usize| new.covers(p as int) implies #[trigger] after.entries.contains_key(
        p,
    ) by {
        if old.range.covers(p as int) {
            assert(same_at(after.entries, old.entries, p));
            assert(old.entries.contains_key(p));
        } else {
            assert(loaded_at(after.entries, db, frames, p));
        }
    }
    assert forall|p: usize| after.entries.dom().contains(p) implies new.covers(p as int) by {
        assert(after.entries.contains_key(p));
    }
}

/// Whether `states` are the values that a cache takes, from its making on,
/// under requests for the windows `windows`, the `i`-th of them over the
/// index `dbs[i]` with the decoded pictures `frames[i]`.
pub open spec fn requested(
    states: Seq<CacheState>,
    dbs: Seq<IndexState>,
    frames: Seq<Map<usize, Frame>>,
    windows: Seq<Range>,
) -> bool {
    &&& states.len() == windows.len() + 1
    &&& dbs.len() == windows.len()
    &&& frames.len() == windows.len()
    &&& states[0].range == Range::none()
    &&& states[0].entries == Map::<usize, ModelEntry>::empty()
    &&& forall|i: int|
        0 <= i < windows.len() ==> (#[trigger] states[i + 1]).wf() && states[i + 1].follows(
            states[i],
            dbs[i],
            frames[i],
            windows[i],
        )
}

/// Whether every position of every window could be loaded at its request.
pub open spec fn all_loadable(
    dbs: Seq<IndexState>,
    frames: Seq<Map<usize, Frame>>,
    windows: Seq<Range>,
) -> bool {
    forall|i: int, p: usize|
        0 <= i < windows.len() && (#[trigger] windows[i]).covers(p as int) ==> #[trigger] loadable(
            dbs[i],
            frames[i],
            p as int,
        )
}

/// After every request of any sequence of requests the cache holds exactly
/// the positions of the window asked for, provided that every position
/// asked for could be loaded when it was requested.
pub proof fn lemma_windows_covered(
    states: Seq<CacheState>,
    dbs: Seq<IndexState>,
    frames: Seq<Map<usize, Frame>>,
    windows: Seq<Range>,
    n: int,
)
    requires
        requested(states, dbs, frames, windows),
        all_loadable(dbs, frames, windows),
        0 <= n < windows.len(),
    ensures
        states[n + 1].entries.dom() =~= Set::new(|p: usize| windows[n].covers(p as int)),
{
    lemma_prefix_complete(states, dbs, frames, windows, n);
    assert(states[n + 1].wf());
    lemma_window_covered(states[n], dbs[n], frames[n], windows[n], states[n + 1]);
}

/// Under the conditions of `lemma_windows_covered`, the cache is complete
/// before the request `n`.
proof fn lemma_prefix_complete(
    states: Seq<CacheState>,
    dbs: Seq<IndexState>,
    frames: Seq<Map<usize, Frame>>,
    windows: Seq<Range>,
    n: int,
)
    requires
        requested(states, dbs, frames, windows),
        all_loadable(dbs, frames, windows),
        0 <= n < windows.len(),
    ensures
        states[n].wf(),
        states[n].complete(),
    decreases n,
{
    if n > 0 {
        lemma_prefix_complete(states, dbs, frames, windows, n - 1);
        assert(states[(n - 1) + 1].wf());
        lemma_window_covered(
            states[n - 1],
            dbs[n - 1],
            frames[n - 1],
            windows[n - 1],
            states[n],
        );
    }
}

/// The visible rows after one event. A row holds the position that it
/// showed before the change, or `None` if it is new and has to be read.
pub open spec fn apply_event(rows: Seq<Option<int>>, event: RowEvent) -> Seq<Option<int>> {
    match event {
        RowEvent::Added { index, count } => rows.subrange(0, index as int) + Seq::new(
            count as nat,
            |i: int| None::<int>,
        ) + rows.subrange(index as int, rows.len() as int),
        RowEvent::Removed { index, count } => rows.subrange(0, index as int) + rows.subrange(
            index + count,
            rows.len() as int,
        ),
    }
}

/// The visible rows after the events `events`, applied in order.
pub open spec fn apply_events(rows: Seq<Option<int>>, events: Seq<RowEvent>) -> Seq<Option<int>>
    decreases events.len(),
{
    if events.len() == 0 {
        rows
    } else {
        apply_events(apply_event(rows, events.first()), events.drop_first())
    }
}

/// The rows of a window, each with its position.
pub open spec fn rows_of(window: Range) -> Seq<Option<int>> {
    Seq::new(window.length as nat, |i: int| Some(window.offset + i))
}

/// The rows of the window `new` as an observer of the window `old` has
/// them: a row whose position was visible before keeps it, any other row is
/// new.
pub open spec fn rows_after(old: Range, new: Range) -> Seq<Option<int>> {
    Seq::new(
        new.length as nat,
        |j: int|
            if old.covers(new.offset + j) {
                Some(new.offset + j)
            } else {
                None::<int>
            },
    )
}

/// The events of a change of window tell the observer exactly what
/// happened: applied in order to the rows of the old window, they give the
/// rows of the new window, with every row that stays at the row index where
/// its position now stands.
pub proof fn lemma_events_rebuild_rows(old: Range, new: Range)
    requires
        old.offset + old.length <= usize::MAX,
        new.offset + new.length <= usize::MAX,
    ensures
        apply_events(rows_of(old), reconcile_events(old, new)) == rows_after(old, new),
{
    reveal_with_fuel(apply_events, 3);
    let events = reconcile_events(old, new);
    let start = rows_of(old);
    if events.len() == 0 {
        assert(apply_events(start, events) =~= rows_after(old, new));
    } else if events.len() == 1 {
        let one = apply_event(start, events[0]);
        assert(events.drop_first().len() == 0);
        assert(apply_events(start, events) == one);
        assert(one =~= rows_after(old, new));
    } else {
        assert(events.len() == 2);
        let one = apply_event(start, events[0]);
        let rest = events.drop_first();
        assert(rest.len() == 1 && rest.first() == events[1]);
        let two = apply_event(one, events[1]);
        assert(rest.drop_first().len() == 0);
        assert(apply_events(one, rest) == apply_events(two, rest.drop_first()));
        assert(apply_events(start, events) == two);
        assert(two =~= rows_after(old, new));
    }
}

/// The number of rows that the events `events` add.
pub open spec fn added_rows(events: Seq<RowEvent>) -> int
    decreases events.len(),
{
    if events.len() == 0 {
        0
    } else {
        added_rows(events.drop_last()) + match events.last() {
            RowEvent::Added { count, .. } => count as int,
            RowEvent::Removed { .. } => 0,
        }
    }
}

/// The number of rows that the events `events` remove.
pub open spec fn removed_rows(events: Seq<RowEvent>) -> int
    decreases events.len(),
{
    if events.len() == 0 {
        0
    } else {
        removed_rows(events.drop_last()) + match events.last() {
            RowEvent::Added { .. } => 0,
            RowEvent::Removed { count, .. } => count as int,
        }
    }
}

/// The number of positions that the windows `a` and `b` share.
pub open spec fn shared(a: Range, b: Range) -> int {
    let low = if a.offset >= b.offset {
        a.offset as int
    } else {
        b.offset as int
    };
    let high = if a.offset + a.length <= b.offset + b.length {
        a.offset + a.length
    } else {
        b.offset + b.length
    };
    if high > low {
        high - low
    } else {
        0
    }
}

/// No more work than the change asks for: rows are added only for the
/// positions that enter the window and removed only for those that leave
/// it.
pub proof fn lemma_events_count_the_change(old: Range, new: Range)
    requires
        old.offset + old.length <= usize::MAX,
        new.offset + new.length <= usize::MAX,
    ensures
        added_rows(reconcile_events(old, new)) == new.length - shared(old, new),
        removed_rows(reconcile_events(old, new)) == old.length - shared(old, new),
{
    reveal_with_fuel(added_rows, 3);
    reveal_with_fuel(removed_rows, 3);
    let events = reconcile_events(old, new);
    if events.len() == 1 {
        assert(events.drop_last().len() == 0);
    } else if events.len() == 2 {
        let head = events.drop_last();
        assert(head.len() == 1 && head.last() == events[0]);
        assert(head.drop_last().len() == 0);
        assert(events.last() == events[1]);
    }
}

} // verus!
