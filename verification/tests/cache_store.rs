use wallpaper_slideshow::cache::{cleanup_stale, insert, load_all, open, open_in_memory, CachedEntry};
use wallpaper_slideshow::scan::{merge_candidates, paths_to_parse};
use wallpaper_slideshow::discovery::ImageFile;
use wallpaper_slideshow::WallpaperError;

fn entry(path: &str, mtime: i64, hour: Option<u8>) -> CachedEntry {
    CachedEntry { path: path.to_string(), mtime, hour }
}

fn sorted(mut v: Vec<CachedEntry>) -> Vec<CachedEntry> {
    v.sort_by(|a, b| a.path.cmp(&b.path));
    v
}

#[test]
fn round_trip_keeps_every_entry() {
    let mut conn = open_in_memory().expect("in-memory store");
    let rows = vec![entry("/w/a.jpg", 11, Some(7)), entry("/w/b.jpg", 22, None), entry(
        "/w/c.jpg",
        33,
        Some(23),
    )];
    insert(&mut conn, &rows).expect("insert");
    let loaded = sorted(load_all(&conn).expect("load"));
    assert_eq!(loaded.len(), 3);
    assert_eq!(loaded[0].path, "/w/a.jpg");
    assert_eq!((loaded[0].mtime, loaded[0].hour), (11, Some(7)));
    assert_eq!((loaded[1].mtime, loaded[1].hour), (22, None));
    assert_eq!((loaded[2].mtime, loaded[2].hour), (33, Some(23)));
}

#[test]
fn reinsert_is_idempotent() {
    let mut conn = open_in_memory().expect("in-memory store");
    let rows = vec![entry("/w/a.jpg", 11, Some(7)), entry("/w/b.jpg", 22, Some(9))];
    insert(&mut conn, &rows).expect("insert");
    insert(&mut conn, &rows).expect("reinsert");
    let loaded = sorted(load_all(&conn).expect("load"));
    assert_eq!(loaded.len(), 2);
    assert_eq!((loaded[0].mtime, loaded[0].hour), (11, Some(7)));
    assert_eq!((loaded[1].mtime, loaded[1].hour), (22, Some(9)));
}

#[test]
fn upsert_replaces_a_changed_row() {
    let mut conn = open_in_memory().expect("in-memory store");
    insert(&mut conn, &vec![entry("/w/a.jpg", 11, Some(7))]).expect("insert");
    insert(&mut conn, &vec![entry("/w/a.jpg", 99, None)]).expect("upsert");
    let loaded = load_all(&conn).expect("load");
    assert_eq!(loaded.len(), 1);
    assert_eq!((loaded[0].mtime, loaded[0].hour), (99, None));
}

#[test]
fn prune_keeps_exactly_the_current_paths() {
    let mut conn = open_in_memory().expect("in-memory store");
    let rows = vec![entry("A", 1, Some(1)), entry("B", 2, Some(2)), entry("C", 3, Some(3))];
    insert(&mut conn, &rows).expect("insert");
    let cache = load_all(&conn).expect("load");
    let current = vec!["A".to_string(), "C".to_string()];
    cleanup_stale(&mut conn, &current, &cache).expect("prune");
    let left = sorted(load_all(&conn).expect("load"));
    let names: Vec<&str> = left.iter().map(|e| e.path.as_str()).collect();
    assert_eq!(names, vec!["A", "C"]);
}

#[test]
fn prune_without_stale_rows_changes_nothing() {
    let mut conn = open_in_memory().expect("in-memory store");
    let rows = vec![entry("A", 1, Some(1))];
    insert(&mut conn, &rows).expect("insert");
    let cache = load_all(&conn).expect("load");
    cleanup_stale(&mut conn, &vec!["A".to_string()], &cache).expect("prune");
    assert_eq!(load_all(&conn).expect("load").len(), 1);
}

#[test]
fn unopenable_store_reports_unavailable() {
    let r = open("/nonexistent_directory_for_store/cache.db");
    assert!(matches!(r, Err(WallpaperError::StoreUnavailable)));
}

#[test]
fn scan_flags_missing_and_changed_rows() {
    let all = vec![
        ImageFile { path: "A".to_string(), mtime: 1 },
        ImageFile { path: "B".to_string(), mtime: 5 },
        ImageFile { path: "D".to_string(), mtime: 9 },
    ];
    let cached = vec![entry("A", 1, Some(3)), entry("B", 2, Some(4))];
    let todo = paths_to_parse(&all, &cached);
    let names: Vec<&str> = todo.iter().map(|f| f.path.as_str()).collect();
    assert_eq!(names, vec!["B", "D"]);
}

#[test]
fn merge_prefers_fresh_hours_and_falls_back() {
    let pool = vec![
        ImageFile { path: "A".to_string(), mtime: 1 },
        ImageFile { path: "B".to_string(), mtime: 2 },
        ImageFile { path: "C".to_string(), mtime: 3 },
    ];
    let cached = vec![entry("A", 1, Some(3)), entry("B", 2, Some(4))];
    let fresh = vec![entry("B", 5, Some(20)), entry("C", 3, None)];
    let cs = merge_candidates(&pool, &cached, &fresh);
    assert_eq!(cs.len(), 3);
    assert_eq!(cs[0].hour, Some(3));
    assert_eq!(cs[1].hour, Some(20));
    assert_eq!(cs[2].hour, None);
}

#[test]
fn merge_fresh_absent_hour_stands() {
    // The photo changed and its re-extraction found no capture hour:
    // the fresh absence is what the store now holds, so the stale
    // cached hour must not resurface.
    let pool = vec![ImageFile { path: "A".to_string(), mtime: 1 }];
    let cached = vec![entry("A", 1, Some(8))];
    let fresh = vec![entry("A", 2, None)];
    let cs = merge_candidates(&pool, &cached, &fresh);
    assert_eq!(cs[0].hour, None);
}
