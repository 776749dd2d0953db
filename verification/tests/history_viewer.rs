use wallpaper_slideshow::history::{recent_window, WallpaperHistory};
use wallpaper_slideshow::viewer::{dispatch_key, KeyInput, KeyPress, ViewerCommand};

fn lines(names: &[&str]) -> Vec<String> {
    names.iter().map(|s| s.to_string()).collect()
}

#[test]
fn recent_window_takes_the_newest() {
    let log = lines(&["a", "b", "c", "d", "e"]);
    let w = recent_window(&log, 3);
    assert_eq!(w, lines(&["e", "d", "c"]));
}

#[test]
fn recent_window_smaller_log_is_whole() {
    let log = lines(&["a", "b"]);
    let w = recent_window(&log, 25);
    assert_eq!(w, lines(&["b", "a"]));
    assert_eq!(recent_window(&Vec::new(), 25), Vec::<String>::new());
}

#[test]
fn empty_log_gives_no_history() {
    assert!(WallpaperHistory::load(Vec::new()).is_none());
}

#[test]
fn history_starts_on_the_newest_entry() {
    let h = WallpaperHistory::load(lines(&["a", "b", "c"])).unwrap();
    assert_eq!(h.current_basename(), "c");
    assert_eq!(h.position_str(), "3/3");
}

#[test]
fn navigation_moves_and_stops_at_the_ends() {
    let mut h = WallpaperHistory::load(lines(&["a", "b", "c"])).unwrap();
    assert!(h.go_previous());
    assert_eq!(h.current_basename(), "b");
    assert!(h.go_previous());
    assert_eq!(h.current_basename(), "a");
    assert!(!h.go_previous());
    assert_eq!(h.current_basename(), "a");
    assert_eq!(h.position_str(), "1/3");
    assert!(h.go_next());
    assert!(h.go_next());
    assert!(!h.go_next());
    assert_eq!(h.current_basename(), "c");
}

fn key(k: KeyPress) -> KeyInput {
    KeyInput { key: k, ctrl: false }
}

#[test]
fn keys_dispatch_to_their_commands() {
    assert_eq!(dispatch_key(key(KeyPress::Char('q'))), ViewerCommand::Quit);
    assert_eq!(dispatch_key(key(KeyPress::Esc)), ViewerCommand::Quit);
    assert_eq!(
        dispatch_key(KeyInput { key: KeyPress::Char('c'), ctrl: true }),
        ViewerCommand::Quit
    );
    assert_eq!(dispatch_key(key(KeyPress::Char('m'))), ViewerCommand::OpenMaps);
    assert_eq!(dispatch_key(key(KeyPress::Char('c'))), ViewerCommand::CopyCoords);
    assert_eq!(dispatch_key(key(KeyPress::Left)), ViewerCommand::Previous);
    assert_eq!(dispatch_key(key(KeyPress::Up)), ViewerCommand::Previous);
    assert_eq!(dispatch_key(key(KeyPress::Char('h'))), ViewerCommand::Previous);
    assert_eq!(dispatch_key(key(KeyPress::Char('k'))), ViewerCommand::Previous);
    assert_eq!(dispatch_key(key(KeyPress::Right)), ViewerCommand::Next);
    assert_eq!(dispatch_key(key(KeyPress::Down)), ViewerCommand::Next);
    assert_eq!(dispatch_key(key(KeyPress::Char('l'))), ViewerCommand::Next);
    assert_eq!(dispatch_key(key(KeyPress::Char('j'))), ViewerCommand::Next);
    assert_eq!(dispatch_key(key(KeyPress::Char('z'))), ViewerCommand::Idle);
    assert_eq!(dispatch_key(key(KeyPress::Other)), ViewerCommand::Idle);
}
