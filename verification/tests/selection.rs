use wallpaper_slideshow::discovery::{basename_of, is_jpeg, ImageFile};
use wallpaper_slideshow::select::{
    choose_wallpaper, eligible_pool, select_with_pick, time_diff, Candidate,
};
use wallpaper_slideshow::WallpaperError;

fn cand(path: &str, hour: Option<u8>) -> Candidate {
    Candidate { path: path.to_string(), hour }
}

fn file(path: &str, mtime: i64) -> ImageFile {
    ImageFile { path: path.to_string(), mtime }
}

#[test]
fn circular_distance_examples() {
    assert_eq!(time_diff(5, 23), 6);
    assert_eq!(time_diff(0, 23), 1);
    assert_eq!(time_diff(12, 0), 12);
    assert_eq!(time_diff(23, 0), 1);
    assert_eq!(time_diff(7, 7), 0);
}

#[test]
fn circular_distance_symmetric_and_bounded() {
    for a in 0u8..24 {
        for b in 0u8..24 {
            let d = time_diff(a, b);
            assert_eq!(d, time_diff(b, a));
            assert!(d <= 12);
        }
    }
}

#[test]
fn circular_distance_reduces_stored_hours() {
    assert_eq!(time_diff(0, 24), 0);
    assert_eq!(time_diff(1, 255), 10);
}

#[test]
fn window_match_is_deterministic_single_choice() {
    let cs = vec![cand("a", Some(10)), cand("b", Some(14)), cand("c", Some(23))];
    for pick in [0usize, 1, 7, 4096] {
        let (path, hour) = select_with_pick(&cs, 23, pick).expect("candidates present");
        assert_eq!(path, "c");
        assert_eq!(hour, Some(23));
    }
}

#[test]
fn best_match_prefers_smaller_circular_distance() {
    let cs = vec![cand("a", Some(10)), cand("b", Some(14))];
    let (path, hour) = select_with_pick(&cs, 23, 0).expect("candidates present");
    assert_eq!(path, "b");
    assert_eq!(hour, Some(14));
}

#[test]
fn best_match_tie_keeps_first() {
    let cs = vec![cand("a", Some(10)), cand("b", Some(12)), cand("c", Some(14))];
    let (path, _) = select_with_pick(&cs, 12, 5).expect("candidates present");
    assert_eq!(path, "b");
}

#[test]
fn no_known_hour_uses_pick() {
    let cs = vec![cand("a", None), cand("b", None), cand("c", None)];
    let (path, hour) = select_with_pick(&cs, 9, 4).expect("candidates present");
    assert_eq!(path, "b");
    assert_eq!(hour, None);
}

#[test]
fn empty_pool_selects_nothing() {
    let cs: Vec<Candidate> = Vec::new();
    assert!(select_with_pick(&cs, 12, 0).is_none());
    assert_eq!(choose_wallpaper(&cs, 12).unwrap_err(), WallpaperError::NoEligibleCandidate);
}

#[test]
fn choose_wallpaper_returns_some_candidate() {
    let cs = vec![cand("a", Some(3))];
    let (path, hour) = choose_wallpaper(&cs, 3).expect("one candidate");
    assert_eq!(path, "a");
    assert_eq!(hour, Some(3));
}

#[test]
fn window_pick_wraps_uniformly() {
    let cs = vec![cand("a", Some(11)), cand("b", Some(12)), cand("c", Some(5))];
    let (p0, _) = select_with_pick(&cs, 12, 0).unwrap();
    let (p1, _) = select_with_pick(&cs, 12, 1).unwrap();
    let (p2, _) = select_with_pick(&cs, 12, 2).unwrap();
    assert_eq!(p0, "a");
    assert_eq!(p1, "b");
    assert_eq!(p2, "a");
}

#[test]
fn history_filters_recent_basenames() {
    let pool = vec![file("/w/a.jpg", 1), file("/w/b.jpg", 2), file("/w/c.jpg", 3)];
    let hist = vec!["b.jpg".to_string()];
    let r = eligible_pool(&pool, &hist);
    let names: Vec<&str> = r.iter().map(|f| f.path.as_str()).collect();
    assert_eq!(names, vec!["/w/a.jpg", "/w/c.jpg"]);
}

#[test]
fn history_exhaustion_resets_to_full_pool() {
    let pool = vec![file("/w/a.jpg", 1), file("/w/b.jpg", 2)];
    let hist = vec!["a.jpg".to_string(), "b.jpg".to_string(), "z.jpg".to_string()];
    let r = eligible_pool(&pool, &hist);
    let names: Vec<&str> = r.iter().map(|f| f.path.as_str()).collect();
    assert_eq!(names, vec!["/w/a.jpg", "/w/b.jpg"]);
}

#[test]
fn basename_takes_what_follows_the_last_slash() {
    assert_eq!(basename_of("/x/y/z.JPG"), "z.JPG");
    assert_eq!(basename_of("plain.jpg"), "plain.jpg");
    assert_eq!(basename_of("/trailing/"), "");
    assert_eq!(basename_of(""), "");
}

#[test]
fn jpeg_detection_by_extension() {
    assert!(is_jpeg("/a/b/photo.jpg"));
    assert!(is_jpeg("/a/b/PHOTO.JPEG"));
    assert!(is_jpeg("shot.JpG"));
    assert!(!is_jpeg("/a/b/photo.png"));
    assert!(!is_jpeg("/a/b/noext"));
    assert!(!is_jpeg("/a/b/.jpg"));
    assert!(!is_jpeg("/a/b/photo.jpg.bak"));
}
