use gitent::models::{ChangeType, Session};
use gitent::storage::Storage;
use gitent::watcher::{EventKind, FileWatcher, ObservedPath, DEBOUNCE_WINDOW_MILLIS};

#[test]
fn test_file_watcher_creation() {
    let session = Session::new(String::from("/tmp/watched"));
    let mut storage = Storage::in_memory().unwrap();

    storage.create_session(&session).unwrap();

    let watcher = FileWatcher::new(&session);

    assert_eq!(watcher.session_id, session.id);
    assert_eq!(watcher.root_path, session.root_path);
    assert_eq!(watcher.ignore_patterns, session.ignore_patterns);
}

#[test]
fn test_should_ignore() {
    let root = String::from("/test");
    let ignore_patterns = vec!["target".to_string(), ".git".to_string()];

    assert!(FileWatcher::should_ignore(
        "/test/target/debug",
        &root,
        &ignore_patterns
    ));

    assert!(FileWatcher::should_ignore(
        "/test/.git/config",
        &root,
        &ignore_patterns
    ));

    assert!(!FileWatcher::should_ignore(
        "/test/src/main.rs",
        &root,
        &ignore_patterns
    ));
}

#[test]
fn ignore_filtering_scenario() {
    let patterns = vec!["target".to_string(), ".git".to_string()];
    assert!(FileWatcher::should_ignore("/R/target/debug/out", "/R", &patterns));
    assert!(FileWatcher::should_ignore("/R/.git/HEAD", "/R", &patterns));
    assert!(!FileWatcher::should_ignore("/R/src/main", "/R", &patterns));
}

#[test]
fn the_root_itself_is_not_matched() {
    let patterns = vec!["target".to_string()];
    assert!(!FileWatcher::should_ignore("/target/src/main.rs", "/target", &patterns));
    assert!(FileWatcher::should_ignore("/elsewhere/target/x", "/root", &patterns));
}

#[test]
fn patterns_match_as_substrings() {
    let patterns = vec!["get".to_string(), "*.log".to_string()];
    assert!(FileWatcher::ignores("src/target.rs", &patterns));
    assert!(FileWatcher::ignores("widget", &patterns));
    assert!(!FileWatcher::ignores("debug.log", &patterns));
    assert!(FileWatcher::ignores("a*.log", &patterns));
    assert!(!FileWatcher::ignores("ge", &patterns));
    assert!(!FileWatcher::ignores("anything", &vec![]));
    assert!(FileWatcher::ignores("anything", &vec![String::new()]));
    assert!(FileWatcher::ignores("", &vec![String::new()]));
    assert!(!FileWatcher::ignores("", &patterns));
}

#[test]
fn notifications_are_classified() {
    assert_eq!(FileWatcher::classify(EventKind::Create), Some(ChangeType::Create));
    assert_eq!(FileWatcher::classify(EventKind::Modify), Some(ChangeType::Modify));
    assert_eq!(FileWatcher::classify(EventKind::Remove), Some(ChangeType::Delete));
    assert_eq!(FileWatcher::classify(EventKind::Other), None);
    assert!(FileWatcher::captures_content(EventKind::Create));
    assert!(FileWatcher::captures_content(EventKind::Modify));
    assert!(!FileWatcher::captures_content(EventKind::Remove));
    assert!(!FileWatcher::captures_content(EventKind::Other));
}

#[test]
fn change_for_a_notification() {
    let created = FileWatcher::change_for(
        EventKind::Create,
        String::from("/r/a.txt"),
        Some(b"x".to_vec()),
        3,
        4,
        5,
    )
    .unwrap();
    assert_eq!(created.id, 4);
    assert_eq!(created.timestamp, 5);
    assert_eq!(created.session_id, 3);
    assert_eq!(created.change_type, ChangeType::Create);
    assert_eq!(created.path, "/r/a.txt");
    assert_eq!(created.content_after, Some(b"x".to_vec()));
    assert_eq!(
        created.content_hash_after,
        Some(String::from("2d711642b726b04401627ca9fbac32f5c8530fb1903cc4db02258717921a4881"))
    );
    assert_eq!(created.content_before, None);
    assert_eq!(created.content_hash_before, None);

    let unread = FileWatcher::change_for(EventKind::Modify, String::from("m"), None, 3, 4, 5).unwrap();
    assert_eq!(unread.change_type, ChangeType::Modify);
    assert_eq!(unread.content_after, None);
    assert_eq!(unread.content_hash_after, None);

    let removed =
        FileWatcher::change_for(EventKind::Remove, String::from("d"), Some(b"stale".to_vec()), 3, 4, 5)
            .unwrap();
    assert_eq!(removed.change_type, ChangeType::Delete);
    assert_eq!(removed.content_after, None);
    assert_eq!(removed.content_before, None);

    assert_eq!(
        FileWatcher::change_for(EventKind::Other, String::from("o"), None, 3, 4, 5),
        None
    );
}

fn observed(path: &str, content: Option<&[u8]>) -> ObservedPath {
    ObservedPath { path: path.to_string(), content: content.map(|c| c.to_vec()) }
}

#[test]
fn handled_events_become_changes() {
    let session = Session::new(String::from("/R"));
    let mut storage = Storage::in_memory().unwrap();
    storage.create_session(&session).unwrap();
    let watcher = FileWatcher::new(&session);

    let handled = watcher.handle_event(
        EventKind::Create,
        vec![
            observed("/R/src/main.rs", Some(b"fn main() {}")),
            observed("/R/target/debug/out", Some(b"bin")),
            observed("/R/.git/HEAD", Some(b"ref")),
            observed("/R/notes.txt", None),
        ],
        &mut storage,
    );
    assert!(handled.failures.is_empty());
    assert_eq!(handled.recorded.len(), 2);
    assert_eq!(handled.recorded[0].path, "/R/src/main.rs");
    assert_eq!(handled.recorded[0].content_after, Some(b"fn main() {}".to_vec()));
    assert_eq!(handled.recorded[1].path, "/R/notes.txt");
    assert_eq!(handled.recorded[1].content_after, None);
    assert_eq!(storage.get_change(&handled.recorded[0].id).unwrap(), handled.recorded[0]);
    let changes = storage.get_uncommitted_changes(&session.id).unwrap();
    assert_eq!(changes.len(), 2);
    let mut paths: Vec<&str> = changes.iter().map(|c| c.path.as_str()).collect();
    paths.sort();
    assert_eq!(paths, vec!["/R/notes.txt", "/R/src/main.rs"]);
    for change in &changes {
        assert_eq!(change.change_type, ChangeType::Create);
        assert_eq!(change.content_before, None);
        assert_eq!(change.session_id, session.id);
    }

    let handled = watcher.handle_event(
        EventKind::Remove,
        vec![observed("/R/src/main.rs", None)],
        &mut storage,
    );
    assert!(handled.failures.is_empty());
    assert_eq!(handled.recorded.len(), 1);
    let handled = watcher.handle_event(
        EventKind::Other,
        vec![observed("/R/src/main.rs", None)],
        &mut storage,
    );
    assert!(handled.failures.is_empty());
    assert!(handled.recorded.is_empty());
    let changes = storage.get_uncommitted_changes(&session.id).unwrap();
    assert_eq!(changes.len(), 3);
    assert_eq!(
        changes.iter().filter(|c| c.change_type == ChangeType::Delete).count(),
        1
    );
}

#[test]
fn a_refused_change_does_not_stop_the_batch() {
    let session = Session::new(String::from("/R"));
    let mut storage = Storage::in_memory().unwrap();
    let watcher = FileWatcher::new(&session);
    let handled = watcher.handle_event(
        EventKind::Modify,
        vec![observed("/R/a", None), observed("/R/b", None)],
        &mut storage,
    );
    assert!(handled.recorded.is_empty());
    assert_eq!(handled.failures.len(), 2);
    assert!(handled
        .failures
        .iter()
        .all(|f| matches!(f, gitent::error::Error::SessionNotFound(_))));
}

#[test]
fn debounce_window() {
    assert_eq!(DEBOUNCE_WINDOW_MILLIS, 500);
}

#[test]
fn relative_path_is_held_against_the_patterns() {
    let patterns = vec!["target".to_string()];
    assert!(FileWatcher::ignores_under_root(
        "/target/src/main.rs",
        &None,
        &patterns
    ));
    assert!(!FileWatcher::ignores_under_root(
        "/target/src/main.rs",
        &Some("src/main.rs".to_string()),
        &patterns
    ));
    assert!(FileWatcher::ignores_under_root(
        "/r/x",
        &Some("target/x".to_string()),
        &patterns
    ));
    assert!(!FileWatcher::ignores_under_root("/r/x", &None, &vec![]));
}

#[test]
fn nothing_is_ignored_without_patterns() {
    assert!(!FileWatcher::should_ignore("/r/target/x", "/r", &vec![]));
    assert!(!FileWatcher::should_ignore("/elsewhere", "/r", &vec![]));
    assert!(FileWatcher::should_ignore("/r/a", "/r", &vec![String::new()]));
    assert!(FileWatcher::should_ignore("/elsewhere", "/r", &vec!["x".to_string(), String::new()]));
}

#[test]
fn recording_one_change() {
    let session = Session::from_parts(1, 0, String::from("/R"));
    let mut storage = Storage::in_memory().unwrap();
    storage.create_session(&session).unwrap();
    let watcher = FileWatcher::new(&session);

    let recorded = watcher
        .record_change(EventKind::Modify, observed("/R/a", Some(b"x")), 7, 70, &mut storage)
        .unwrap()
        .unwrap();
    assert_eq!(recorded.id, 7);
    assert_eq!(recorded.timestamp, 70);
    assert_eq!(recorded.change_type, ChangeType::Modify);
    assert_eq!(recorded.content_after, Some(b"x".to_vec()));
    assert_eq!(storage.get_change(&7), Ok(recorded));

    assert_eq!(
        watcher.record_change(EventKind::Remove, observed("/R/b", None), 7, 80, &mut storage),
        Some(Err(gitent::error::Error::InvalidOperation(String::from(
            "change already exists: 00000000-0000-0000-0000-000000000007"
        ))))
    );
    assert_eq!(
        watcher.record_change(EventKind::Other, observed("/R/b", None), 8, 80, &mut storage),
        None
    );
    assert_eq!(storage.get_uncommitted_changes(&1).unwrap().len(), 1);
}

#[test]
fn every_path_is_handled_without_patterns() {
    let session = Session::new(String::from("/R")).with_ignore_patterns(vec![]);
    let mut storage = Storage::in_memory().unwrap();
    storage.create_session(&session).unwrap();
    let watcher = FileWatcher::new(&session);
    let handled = watcher.handle_event(
        EventKind::Remove,
        vec![observed("/R/target/a", None), observed("/R/.git/b", None), observed("/c", None)],
        &mut storage,
    );
    assert_eq!(handled.recorded.len() + handled.failures.len(), 3);
    assert_eq!(handled.recorded.len(), 3);
    let paths: Vec<&str> = handled.recorded.iter().map(|c| c.path.as_str()).collect();
    assert_eq!(paths, vec!["/R/target/a", "/R/.git/b", "/c"]);
}

#[test]
fn a_path_without_a_pattern_in_it_is_never_ignored() {
    let patterns = vec!["target".to_string(), ".git".to_string()];
    for root in ["/", "/R", "/R/", "", "/R/src", "/elsewhere", "R"] {
        assert!(!FileWatcher::should_ignore("/R/src/main.rs", root, &patterns));
    }
}

#[test]
fn ignored_paths_leave_the_store_as_it_is() {
    let session = Session::new(String::from("/R"))
        .with_ignore_patterns(vec!["target".to_string(), ".git".to_string()]);
    let mut storage = Storage::in_memory().unwrap();
    storage.create_session(&session).unwrap();
    let watcher = FileWatcher::new(&session);
    let handled = watcher.handle_event(
        EventKind::Create,
        vec![observed("/R/target/debug/out", Some(b"bin")), observed("/R/.git/HEAD", None)],
        &mut storage,
    );
    assert!(handled.recorded.is_empty());
    assert!(handled.failures.is_empty());
    assert!(storage.get_uncommitted_changes(&session.id).unwrap().is_empty());
    let handled = watcher.handle_event(
        EventKind::Create,
        vec![observed("/R/target/debug/out", None), observed("/R/src/main", None)],
        &mut storage,
    );
    assert_eq!(handled.recorded.len(), 1);
    assert_eq!(handled.recorded[0].path, "/R/src/main");
}
