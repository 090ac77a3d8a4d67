use photoflow::db::{IndexDb, InsertionEntry};
use photoflow::frame::Frame;
use photoflow::indexer::encode_jpeg;
use photoflow::viewer::image_grid_model::{LoadError, ModelEntry, Range, RowEvent, ViewModelInner};
use std::collections::HashMap;

fn thumbnail(shade: u8) -> Vec<u8> {
    let frame = Frame::new(4, 4, vec![shade; 48]).unwrap();
    encode_jpeg(&frame).unwrap()
}

fn decode(bytes: &[u8]) -> Option<Frame> {
    let rgb = image::load_from_memory(bytes).ok()?.into_rgb8();
    let (width, height) = rgb.dimensions();
    Frame::new(width, height, rgb.into_raw())
}

/// Decodes the thumbnails of the positions that enter, as a caller of the
/// cache does.
fn pictures(cache: &ViewModelInner, db: &IndexDb, offset: usize, len: usize) -> HashMap<usize, Frame> {
    let mut decoded = HashMap::new();
    for pos in cache.entering(offset, len) {
        if let Ok((_, _, bytes)) = db.get_path_metadata_and_thumbnail(pos) {
            if let Some(frame) = decode(&bytes) {
                decoded.insert(pos, frame);
            }
        }
    }
    decoded
}

fn request(cache: &mut ViewModelInner, db: &IndexDb, offset: usize, len: usize) -> Vec<RowEvent> {
    let decoded = pictures(cache, db, offset, len);
    cache.set_range(db, offset, len, decoded)
}

fn index_of(n: usize) -> IndexDb {
    let mut db = IndexDb::new();
    db.create_index_if_not_exists().unwrap();
    for i in 0..n {
        let path = format!("/photos/img{:03}.jpg", i);
        let bytes = thumbnail((i * 20) as u8);
        let entry = InsertionEntry {
            path: &path,
            finfo: "1:1",
            timestamp: i as i64,
            metadata: 1,
            thumbnail: &bytes,
        };
        db.upsert_entry(&entry).unwrap();
    }
    db.rebuild_order_table().unwrap();
    db
}

fn held(cache: &ViewModelInner) -> Vec<usize> {
    let mut keys = Vec::new();
    for row in 0..cache.row_count() {
        let (pos, entry) = cache.row_data(row).unwrap();
        if entry.is_some() {
            keys.push(pos);
        }
    }
    keys
}

#[test]
fn new_cache_is_empty() {
    let cache = ViewModelInner::new();
    assert_eq!(cache.row_count(), 0);
    assert_eq!(cache.range(), Range { offset: 0, length: 0 });
    assert!(cache.row_data(0).is_none());
}

#[test]
fn first_window_loads_every_position() {
    let db = index_of(10);
    let mut cache = ViewModelInner::new();
    let events = request(&mut cache, &db, 0, 5);
    assert_eq!(events, vec![RowEvent::Added { index: 0, count: 5 }]);
    assert_eq!(cache.row_count(), 5);
    assert_eq!(held(&cache), vec![0, 1, 2, 3, 4]);
}

#[test]
fn same_window_is_a_no_op() {
    let db = index_of(10);
    let mut cache = ViewModelInner::new();
    request(&mut cache, &db, 2, 4);
    let events = request(&mut cache, &db, 2, 4);
    assert!(events.is_empty());
    assert_eq!(held(&cache), vec![2, 3, 4, 5]);
}

#[test]
fn shifted_window_keeps_the_overlap() {
    let db = index_of(10);
    let mut cache = ViewModelInner::new();
    request(&mut cache, &db, 0, 5);
    let events = request(&mut cache, &db, 3, 5);
    assert_eq!(
        events,
        vec![
            RowEvent::Added { index: 5, count: 3 },
            RowEvent::Removed { index: 0, count: 3 },
        ]
    );
    assert_eq!(cache.range(), Range { offset: 3, length: 5 });
    assert_eq!(held(&cache), vec![3, 4, 5, 6, 7]);
}

#[test]
fn shift_by_one_does_one_decode_and_one_eviction() {
    let db = index_of(12);
    let mut cache = ViewModelInner::new();
    request(&mut cache, &db, 0, 10);
    let events = request(&mut cache, &db, 1, 10);
    assert_eq!(
        events,
        vec![
            RowEvent::Added { index: 10, count: 1 },
            RowEvent::Removed { index: 0, count: 1 },
        ]
    );
    assert_eq!(held(&cache), (1..=10).collect::<Vec<usize>>());
}

#[test]
fn window_moved_backwards() {
    let db = index_of(10);
    let mut cache = ViewModelInner::new();
    request(&mut cache, &db, 4, 4);
    let events = request(&mut cache, &db, 2, 4);
    assert_eq!(
        events,
        vec![
            RowEvent::Removed { index: 2, count: 2 },
            RowEvent::Added { index: 0, count: 2 },
        ]
    );
    assert_eq!(held(&cache), vec![2, 3, 4, 5]);
}

#[test]
fn window_grown_at_both_ends() {
    let db = index_of(10);
    let mut cache = ViewModelInner::new();
    request(&mut cache, &db, 3, 2);
    let events = request(&mut cache, &db, 1, 6);
    assert_eq!(
        events,
        vec![
            RowEvent::Added { index: 2, count: 2 },
            RowEvent::Added { index: 0, count: 2 },
        ]
    );
    assert_eq!(held(&cache), vec![1, 2, 3, 4, 5, 6]);
}

#[test]
fn window_shrunk_at_both_ends() {
    let db = index_of(10);
    let mut cache = ViewModelInner::new();
    request(&mut cache, &db, 1, 6);
    let events = request(&mut cache, &db, 3, 2);
    assert_eq!(
        events,
        vec![
            RowEvent::Removed { index: 4, count: 2 },
            RowEvent::Removed { index: 0, count: 2 },
        ]
    );
    assert_eq!(held(&cache), vec![3, 4]);
}

#[test]
fn disjoint_window_is_rebuilt() {
    let db = index_of(10);
    let mut cache = ViewModelInner::new();
    request(&mut cache, &db, 0, 3);
    let events = request(&mut cache, &db, 6, 2);
    assert_eq!(
        events,
        vec![
            RowEvent::Removed { index: 0, count: 3 },
            RowEvent::Added { index: 0, count: 2 },
        ]
    );
    assert_eq!(held(&cache), vec![6, 7]);
}

#[test]
fn adjacent_window_is_rebuilt() {
    let db = index_of(10);
    let mut cache = ViewModelInner::new();
    request(&mut cache, &db, 0, 3);
    let events = request(&mut cache, &db, 3, 3);
    assert_eq!(
        events,
        vec![
            RowEvent::Removed { index: 0, count: 3 },
            RowEvent::Added { index: 0, count: 3 },
        ]
    );
    assert_eq!(held(&cache), vec![3, 4, 5]);
}

#[test]
fn empty_window_evicts_everything() {
    let db = index_of(10);
    let mut cache = ViewModelInner::new();
    request(&mut cache, &db, 2, 5);
    let events = request(&mut cache, &db, 7, 0);
    assert_eq!(events, vec![RowEvent::Removed { index: 0, count: 5 }]);
    assert_eq!(cache.row_count(), 0);
    assert_eq!(cache.range(), Range { offset: 7, length: 0 });
    assert!(held(&cache).is_empty());
}

#[test]
fn positions_beyond_the_index_stay_absent() {
    let db = index_of(3);
    let mut cache = ViewModelInner::new();
    let events = request(&mut cache, &db, 1, 4);
    assert_eq!(events, vec![RowEvent::Added { index: 0, count: 4 }]);
    assert_eq!(cache.row_count(), 4);
    assert_eq!(held(&cache), vec![1, 2]);
    let (pos, entry) = cache.row_data(3).unwrap();
    assert_eq!(pos, 4);
    assert!(entry.is_none());
}

#[test]
fn undecodable_thumbnail_leaves_a_placeholder() {
    let mut db = IndexDb::new();
    db.create_index_if_not_exists().unwrap();
    let good = thumbnail(200);
    let bad = vec![1u8, 2, 3, 4];
    for (i, bytes) in [&good, &bad, &good].iter().enumerate() {
        let path = format!("/p/{}.jpg", i);
        let entry = InsertionEntry {
            path: &path,
            finfo: "a:b",
            timestamp: i as i64,
            metadata: 1,
            thumbnail: bytes,
        };
        db.upsert_entry(&entry).unwrap();
    }
    db.rebuild_order_table().unwrap();
    let mut cache = ViewModelInner::new();
    request(&mut cache, &db, 0, 3);
    assert_eq!(held(&cache), vec![0, 2]);
    let bytes = db.get_path_metadata_and_thumbnail(1).unwrap().2;
    assert!(decode(&bytes).is_none());
    assert!(matches!(ViewModelInner::get_entry(&db, 1, decode(&bytes)), Err(LoadError::Decode)));
}

#[test]
fn decoded_entry_has_the_thumbnail_dimensions() {
    let db = index_of(2);
    let bytes = db.get_path_metadata_and_thumbnail(1).unwrap().2;
    let entry = ViewModelInner::get_entry(&db, 1, decode(&bytes)).unwrap();
    assert_eq!(entry.image.width, 4);
    assert_eq!(entry.image.height, 4);
    assert_eq!(entry.image.pixels.len(), 48);
    assert!(entry.video_duration.is_none());
}

#[test]
fn video_entries_carry_a_duration_label() {
    let frame = Frame::new(1, 1, vec![0, 0, 0]).unwrap();
    let entry = ModelEntry::new("/v/clip.MOV", 3_723_000, frame);
    assert_eq!(entry.video_duration.as_deref(), Some("01:02:03"));
    let frame = Frame::new(1, 1, vec![0, 0, 0]).unwrap();
    let entry = ModelEntry::new("/v/clip.mp4", 65_999, frame);
    assert_eq!(entry.video_duration.as_deref(), Some("01:05"));
    let frame = Frame::new(1, 1, vec![0, 0, 0]).unwrap();
    let entry = ModelEntry::new("/v/pic.jpeg", 6, frame);
    assert!(entry.video_duration.is_none());
}

#[test]
fn range_bounds() {
    let r = Range { offset: 3, length: 5 };
    assert!(!r.is_empty());
    assert_eq!(r.min(), 3);
    assert_eq!(r.max(), 7);
    assert!(Range { offset: 9, length: 0 }.is_empty());
}

#[test]
fn missing_position_is_a_store_error() {
    let db = index_of(2);
    let picture = || Frame::new(1, 1, vec![0, 0, 0]);
    assert!(matches!(
        ViewModelInner::get_entry(&db, 2, picture()),
        Err(LoadError::Store(photoflow::db::DbError::NoSuchRow))
    ));
    assert!(matches!(
        ViewModelInner::get_entry(&db, 2, None),
        Err(LoadError::Store(photoflow::db::DbError::NoSuchRow))
    ));
    let empty = IndexDb::new();
    assert!(matches!(
        ViewModelInner::get_entry(&empty, 0, picture()),
        Err(LoadError::Store(photoflow::db::DbError::NoMediaTable))
    ));
}

/// What an observer of the rows keeps: for each row the position that it
/// showed when it was added, or `None` until it is read.
fn replay(rows: &mut Vec<Option<usize>>, events: &[RowEvent]) {
    for event in events {
        match *event {
            RowEvent::Added { index, count } => {
                for _ in 0..count {
                    rows.insert(index, None);
                }
            }
            RowEvent::Removed { index, count } => {
                rows.drain(index..index + count);
            }
        }
    }
}

#[test]
fn events_keep_the_rows_of_an_observer_in_step() {
    let db = index_of(30);
    let mut cache = ViewModelInner::new();
    let mut rows: Vec<Option<usize>> = Vec::new();
    let windows = [
        (0, 5),
        (3, 5),
        (3, 5),
        (1, 10),
        (4, 2),
        (20, 6),
        (18, 4),
        (18, 0),
        (2, 3),
        (5, 3),
        (0, 12),
        (11, 1),
    ];
    let mut old = (0usize, 0usize);
    for (offset, length) in windows {
        let events = request(&mut cache, &db, offset, length);
        replay(&mut rows, &events);
        assert_eq!(rows.len(), length);
        assert_eq!(cache.row_count(), length);
        for (j, row) in rows.iter_mut().enumerate() {
            let pos = offset + j;
            let stayed = old.0 <= pos && pos < old.0 + old.1;
            // a row that stayed still shows its position, at its new index
            assert_eq!(*row, if stayed { Some(pos) } else { None });
            *row = Some(pos);
        }
        assert_eq!(held(&cache), (offset..offset + length).collect::<Vec<usize>>());
        old = (offset, length);
    }
}

#[test]
fn as_many_rows_are_added_as_positions_enter() {
    let db = index_of(30);
    let mut cache = ViewModelInner::new();
    request(&mut cache, &db, 5, 10);
    for (offset, length, entering, leaving) in
        [(7usize, 10usize, 2usize, 2usize), (7, 4, 0, 6), (0, 20, 16, 0), (25, 5, 5, 20)]
    {
        let events = request(&mut cache, &db, offset, length);
        let mut added = 0;
        let mut removed = 0;
        for event in events {
            match event {
                RowEvent::Added { count, .. } => added += count,
                RowEvent::Removed { count, .. } => removed += count,
            }
        }
        assert_eq!((added, removed), (entering, leaving));
    }
}

#[test]
fn default_range_is_empty_at_zero() {
    assert_eq!(Range::default(), Range { offset: 0, length: 0 });
}

#[test]
fn only_the_entering_positions_are_wanted() {
    let db = index_of(30);
    let mut cache = ViewModelInner::new();
    assert_eq!(cache.entering(0, 10), (0..10).collect::<Vec<usize>>());
    request(&mut cache, &db, 0, 10);
    // one position enters when the window moves by one
    assert_eq!(cache.entering(1, 10), vec![10]);
    assert_eq!(cache.entering(0, 10), Vec::<usize>::new());
    assert_eq!(cache.entering(3, 4), Vec::<usize>::new());
    assert_eq!(cache.entering(8, 4), vec![10, 11]);
    assert_eq!(cache.entering(20, 3), vec![20, 21, 22]);
    assert_eq!(cache.entering(10, 2), vec![10, 11]);
    assert_eq!(cache.entering(5, 0), Vec::<usize>::new());
    request(&mut cache, &db, 5, 3);
    assert_eq!(cache.entering(2, 8), vec![2, 3, 4, 8, 9]);
}

#[test]
fn entry_holds_the_picture_that_was_handed_in() {
    let db = index_of(4);
    let mut cache = ViewModelInner::new();
    let mut decoded = HashMap::new();
    decoded.insert(1, Frame::new(2, 1, vec![1, 2, 3, 4, 5, 6]).unwrap());
    decoded.insert(2, Frame::new(1, 1, vec![9, 8, 7]).unwrap());
    // a picture for a position outside the window is not taken
    decoded.insert(7, Frame::new(1, 1, vec![0, 0, 0]).unwrap());
    // a picture for a position beyond the index is not taken either
    decoded.insert(4, Frame::new(1, 1, vec![0, 0, 0]).unwrap());
    let events = cache.set_range(&db, 1, 4, decoded);
    assert_eq!(events, vec![RowEvent::Added { index: 0, count: 4 }]);
    assert_eq!(held(&cache), vec![1, 2]);
    let (pos, entry) = cache.row_data(0).unwrap();
    assert_eq!(pos, 1);
    let entry = entry.unwrap();
    assert_eq!((entry.image.width, entry.image.height), (2, 1));
    assert_eq!(entry.image.pixels, vec![1, 2, 3, 4, 5, 6]);
    let (_, entry) = cache.row_data(1).unwrap();
    assert_eq!(entry.unwrap().image.pixels, vec![9, 8, 7]);
    // pictures for positions that stay are ignored: the entry is kept
    let mut again = HashMap::new();
    again.insert(1, Frame::new(1, 1, vec![0, 0, 0]).unwrap());
    again.insert(0, Frame::new(1, 1, vec![5, 5, 5]).unwrap());
    cache.set_range(&db, 0, 3, again);
    assert_eq!(held(&cache), vec![0, 1, 2]);
    assert_eq!(cache.row_data(1).unwrap().1.unwrap().image.pixels, vec![1, 2, 3, 4, 5, 6]);
    assert_eq!(cache.row_data(0).unwrap().1.unwrap().image.pixels, vec![5, 5, 5]);
}
