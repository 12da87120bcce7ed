use roblox_studio_mcp::watcher::{
    ChangeKind, ChangeQueue, EventPath, FileChange, WatchEventKind, MAX_QUEUE_SIZE,
};

#[test]
fn test_file_change_clone() {
    let change = FileChange { path: "test.luau".to_string(), kind: ChangeKind::Created, timestamp: 9999 };

    let cloned = change.clone();
    assert_eq!(cloned.path, "test.luau");
    assert_eq!(cloned.timestamp, 9999);
}

#[test]
fn test_file_change_debug() {
    let change = FileChange { path: "script.luau".to_string(), kind: ChangeKind::Deleted, timestamp: 5555 };

    let debug = format!("{:?}", change);
    assert!(debug.contains("FileChange"));
    assert!(debug.contains("script.luau"));
    assert!(debug.contains("Deleted"));
}

#[test]
fn test_change_kind_clone() {
    let kind = ChangeKind::Modified;
    let cloned = kind.clone();
    assert!(matches!(cloned, ChangeKind::Modified));
}

#[test]
fn test_change_kind_debug() {
    let kind = ChangeKind::WatcherError;
    let debug = format!("{:?}", kind);
    assert!(debug.contains("WatcherError"));
}

#[test]
fn test_max_queue_size_constant() {
    assert!(MAX_QUEUE_SIZE > 0);
    assert!(MAX_QUEUE_SIZE <= 10000);
}

#[test]
fn test_poll_changes_empty() {
    let mut q = ChangeQueue::new();
    assert!(q.poll(10).is_empty());
    assert_eq!(q.pending_count(), 0);
}

fn path(ext: Option<&str>, rel: &str) -> EventPath {
    EventPath { extension: ext.map(|e| e.to_string()), relative: rel.to_string() }
}

#[test]
fn events_record_only_luau_paths_with_known_kinds() {
    let mut q = ChangeQueue::new();
    let paths = vec![path(Some("luau"), "src/a.luau"), path(Some("lua"), "src/b.lua"), path(None, "src"), path(Some("luau"), "c.luau")];
    q.record_event(WatchEventKind::Modify, &paths, 42);
    q.record_event(WatchEventKind::Other, &paths, 43);
    assert_eq!(q.pending_count(), 2);
    let got = q.poll(10);
    assert_eq!(got.len(), 2);
    assert_eq!(got[0].path, "src/a.luau");
    assert_eq!(got[0].kind, ChangeKind::Modified);
    assert_eq!(got[0].timestamp, 42);
    assert_eq!(got[1].path, "c.luau");
    assert_eq!(q.pending_count(), 0);
}

#[test]
fn queue_drops_oldest_when_full_and_polls_in_order() {
    let mut q = ChangeQueue::new();
    for i in 0..(MAX_QUEUE_SIZE as u64 + 5) {
        q.push(FileChange { path: format!("f{}.luau", i), kind: ChangeKind::Created, timestamp: i });
    }
    assert_eq!(q.pending_count(), MAX_QUEUE_SIZE);
    let first = q.poll(3);
    assert_eq!(first.iter().map(|c| c.timestamp).collect::<Vec<_>>(), vec![5, 6, 7]);
    assert_eq!(q.pending_count(), MAX_QUEUE_SIZE - 3);
    let rest = q.poll(usize::MAX);
    assert_eq!(rest.len(), MAX_QUEUE_SIZE - 3);
    assert_eq!(rest.last().unwrap().timestamp, MAX_QUEUE_SIZE as u64 + 4);
}

#[test]
fn watcher_errors_are_queued_with_marker() {
    let mut q = ChangeQueue::new();
    q.record_error("inotify limit reached", 7);
    let got = q.poll(1);
    assert_eq!(got[0].path, "[WATCHER_ERROR] inotify limit reached");
    assert_eq!(got[0].kind, ChangeKind::WatcherError);
    assert_eq!(got[0].timestamp, 7);
}

#[test]
fn created_and_removed_events_map_to_kinds() {
    let mut q = ChangeQueue::new();
    q.record_event(WatchEventKind::Create, &vec![path(Some("luau"), "x.luau")], 1);
    q.record_event(WatchEventKind::Remove, &vec![path(Some("luau"), "x.luau")], 2);
    let got = q.poll(0);
    assert!(got.is_empty());
    let got = q.poll(5);
    assert_eq!(got[0].kind, ChangeKind::Created);
    assert_eq!(got[1].kind, ChangeKind::Deleted);
}
