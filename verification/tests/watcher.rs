use sentinel_reporter::watcher::fs_watcher::{
    is_relevant_event, FileTime, FileWatcher, WatchEvent, WatchInput, WatchState,
};
use std::path::PathBuf;

fn t(secs: u64, nanos: u32) -> FileTime {
    FileTime { secs, nanos }
}

#[test]
fn watcher_keeps_its_paths() {
    let w = FileWatcher::new(PathBuf::from("log.csv"), PathBuf::from("REPORT.md"));
    assert_eq!(w.csv_file(), &PathBuf::from("log.csv"));
    assert_eq!(w.output_file(), &PathBuf::from("REPORT.md"));
}

#[test]
fn fresh_state_owes_nothing() {
    let mut s = WatchState::new();
    assert_eq!(s.last_modified, t(0, 0));
    assert!(!s.pending_update);
    assert_eq!(s.step(WatchInput::Tick), None);
}

#[test]
fn change_then_tick_asks_for_one_report() {
    let mut s = WatchState::new();
    assert_eq!(s.step(WatchInput::Modified(t(100, 5))), None);
    assert!(s.pending_update);
    assert_eq!(s.step(WatchInput::Tick), Some(WatchEvent::FileChanged));
    assert_eq!(s.step(WatchInput::Tick), None);
}

#[test]
fn stale_modification_is_ignored() {
    let mut s = WatchState::new();
    s.step(WatchInput::Modified(t(100, 5)));
    s.step(WatchInput::Tick);
    assert_eq!(s.step(WatchInput::Modified(t(100, 5))), None);
    assert_eq!(s.step(WatchInput::Modified(t(99, 999))), None);
    assert_eq!(s.last_modified, t(100, 5));
    assert_eq!(s.step(WatchInput::Tick), None);
    s.step(WatchInput::Modified(t(100, 6)));
    assert_eq!(s.step(WatchInput::Tick), Some(WatchEvent::FileChanged));
}

#[test]
fn several_changes_one_report() {
    let mut s = WatchState::new();
    s.step(WatchInput::Modified(t(1, 0)));
    s.step(WatchInput::Modified(t(2, 0)));
    s.step(WatchInput::Modified(t(3, 0)));
    assert_eq!(s.step(WatchInput::Tick), Some(WatchEvent::FileChanged));
    assert_eq!(s.step(WatchInput::Tick), None);
    assert_eq!(s.last_modified, t(3, 0));
}

#[test]
fn interrupt_asks_to_stop() {
    let mut s = WatchState::new();
    s.step(WatchInput::Modified(t(5, 0)));
    let before = s;
    assert_eq!(s.step(WatchInput::Interrupt), Some(WatchEvent::Shutdown));
    assert_eq!(s, before);
}

#[test]
fn relevant_events() {
    let target = "log.csv".to_string();
    let names = vec![Some("other.csv".to_string()), None, Some("log.csv".to_string())];
    assert!(is_relevant_event(&names, &target, true, false));
    assert!(is_relevant_event(&names, &target, false, true));
    assert!(!is_relevant_event(&names, &target, false, false));
    let names = vec![Some("other.csv".to_string()), None];
    assert!(!is_relevant_event(&names, &target, true, true));
    assert!(!is_relevant_event(&Vec::new(), &target, true, true));
}
