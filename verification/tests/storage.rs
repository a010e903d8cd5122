use gitent::error::Error;
use gitent::models::{Change, ChangeType, Commit, Session};
use gitent::storage::Storage;

#[test]
fn test_storage_initialization() {
    let storage = Storage::in_memory().unwrap();
    assert_eq!(storage.get_active_session(), Err(Error::NoActiveSession));
}

#[test]
fn test_session_crud() {
    let mut storage = Storage::in_memory().unwrap();
    let session = Session::new(String::from("/test"));

    storage.create_session(&session).unwrap();
    let retrieved = storage.get_session(&session.id).unwrap();

    assert_eq!(session.id, retrieved.id);
    assert_eq!(session.root_path, retrieved.root_path);
    assert!(retrieved.active);
}

#[test]
fn storage_test_change_creation() {
    let mut storage = Storage::in_memory().unwrap();
    let session = Session::new(String::from("/test"));
    storage.create_session(&session).unwrap();

    let change = Change::new(ChangeType::Create, String::from("test.txt"), session.id)
        .with_content_after(b"Hello".to_vec());

    storage.create_change(&change).unwrap();
    let retrieved = storage.get_change(&change.id).unwrap();

    assert_eq!(change.id, retrieved.id);
    assert_eq!(change.path, retrieved.path);
    assert_eq!(change.change_type, retrieved.change_type);
}

#[test]
fn test_commit_with_changes() {
    let mut storage = Storage::in_memory().unwrap();
    let session = Session::new(String::from("/test"));
    storage.create_session(&session).unwrap();

    let change1 = Change::new(ChangeType::Create, String::from("file1.txt"), session.id);
    let change2 = Change::new(ChangeType::Create, String::from("file2.txt"), session.id);

    storage.create_change(&change1).unwrap();
    storage.create_change(&change2).unwrap();

    let commit = Commit::new(
        "Test commit".to_string(),
        "test-agent".to_string(),
        vec![change1.id, change2.id],
        session.id,
    );

    storage.create_commit(&commit).unwrap();
    let retrieved = storage.get_commit(&commit.id).unwrap();

    assert_eq!(commit.id, retrieved.id);
    assert_eq!(commit.message, retrieved.message);
    assert_eq!(2, retrieved.changes.len());
}

fn store_with_session(id: u128) -> (Storage, Session) {
    let mut storage = Storage::in_memory().unwrap();
    let session = Session::from_parts(id, 1_000, String::from("/root"));
    storage.create_session(&session).unwrap();
    (storage, session)
}

#[test]
fn recorded_change_comes_back_equal_in_every_field() {
    let (mut storage, session) = store_with_session(1);
    let change = Change::new(ChangeType::Rename, String::from("b.txt"), session.id)
        .with_old_path(String::from("a.txt"))
        .with_content_before(b"before".to_vec())
        .with_content_after(vec![0, 159, 146, 150])
        .with_agent_id(String::from("agent"))
        .with_metadata(String::from("k"), String::from("v"));
    storage.create_change(&change).unwrap();
    let found = storage.get_change(&change.id).unwrap();
    assert_eq!(found, change);
    assert_eq!(
        found.content_hash_before,
        Some(gitent::digest::hash_content(b"before"))
    );
    assert_eq!(
        found.content_hash_after,
        Some(gitent::digest::hash_content(&[0, 159, 146, 150]))
    );
}

#[test]
fn lookups_that_miss_name_the_identifier() {
    let (storage, _) = store_with_session(1);
    assert_eq!(
        storage.get_change(&42),
        Err(Error::ChangeNotFound(String::from("00000000-0000-0000-0000-00000000002a")))
    );
    assert_eq!(
        storage.get_commit(&0xa1a2a3a4b1b2c1c2d1d2d3d4d5d6d7d8),
        Err(Error::CommitNotFound(String::from("a1a2a3a4-b1b2-c1c2-d1d2-d3d4d5d6d7d8")))
    );
    assert_eq!(
        storage.get_session(&u128::MAX),
        Err(Error::SessionNotFound(String::from("ffffffff-ffff-ffff-ffff-ffffffffffff")))
    );
    assert_eq!(
        storage.get_session(&u128::MAX).unwrap_err().message(),
        "Session not found: ffffffff-ffff-ffff-ffff-ffffffffffff"
    );
}

#[test]
fn duplicate_identifiers_are_refused() {
    let (mut storage, session) = store_with_session(1);
    assert_eq!(
        storage.create_session(&Session::from_parts(1, 5, String::from("/other"))),
        Err(Error::InvalidOperation(String::from(
            "session already exists: 00000000-0000-0000-0000-000000000001"
        )))
    );
    let change = Change::from_parts(2, 10, ChangeType::Create, String::from("a"), session.id);
    storage.create_change(&change).unwrap();
    assert_eq!(
        storage.create_change(&change),
        Err(Error::InvalidOperation(String::from(
            "change already exists: 00000000-0000-0000-0000-000000000002"
        )))
    );
    let commit = Commit::from_parts(3, 20, String::from("m"), String::from("a"), vec![2], session.id);
    storage.create_commit(&commit).unwrap();
    assert_eq!(
        storage.create_commit(&commit),
        Err(Error::InvalidOperation(String::from(
            "commit already exists: 00000000-0000-0000-0000-000000000003"
        )))
    );
}

#[test]
fn references_must_resolve() {
    let (mut storage, session) = store_with_session(1);
    let stray = Change::from_parts(2, 10, ChangeType::Create, String::from("a"), 99);
    assert_eq!(
        storage.create_change(&stray),
        Err(Error::SessionNotFound(String::from("00000000-0000-0000-0000-000000000063")))
    );
    let change = Change::from_parts(2, 10, ChangeType::Create, String::from("a"), session.id);
    storage.create_change(&change).unwrap();

    let unknown_session = Commit::from_parts(3, 20, String::new(), String::new(), vec![2], 99);
    assert_eq!(
        storage.create_commit(&unknown_session),
        Err(Error::SessionNotFound(String::from("00000000-0000-0000-0000-000000000063")))
    );
    let unknown_parent =
        Commit::from_parts(3, 20, String::new(), String::new(), vec![2], session.id).with_parent(8);
    assert_eq!(
        storage.create_commit(&unknown_parent),
        Err(Error::CommitNotFound(String::from("00000000-0000-0000-0000-000000000008")))
    );
    let unknown_change =
        Commit::from_parts(3, 20, String::new(), String::new(), vec![2, 7, 6], session.id);
    assert_eq!(
        storage.create_commit(&unknown_change),
        Err(Error::ChangeNotFound(String::from("00000000-0000-0000-0000-000000000007")))
    );
    let twice = Commit::from_parts(3, 20, String::new(), String::new(), vec![2, 2], session.id);
    assert_eq!(
        storage.create_commit(&twice),
        Err(Error::InvalidOperation(String::from(
            "change listed twice: 00000000-0000-0000-0000-000000000002"
        )))
    );
    assert!(storage.get_commit(&3).is_err());
    assert_eq!(storage.get_uncommitted_changes(&session.id).unwrap().len(), 1);

    let good = Commit::from_parts(3, 20, String::new(), String::new(), vec![2], session.id);
    storage.create_commit(&good).unwrap();
    let child =
        Commit::from_parts(4, 30, String::new(), String::new(), vec![], session.id).with_parent(3);
    storage.create_commit(&child).unwrap();
    assert_eq!(storage.get_commit(&4).unwrap().parent, Some(3));
}

#[test]
fn change_of_another_session_does_not_resolve() {
    let (mut storage, first) = store_with_session(1);
    let mut second = Session::from_parts(2, 2_000, String::from("/second"));
    second.end_at(3_000);
    storage.create_session(&second).unwrap();
    let change = Change::from_parts(5, 10, ChangeType::Create, String::from("a"), second.id);
    storage.create_change(&change).unwrap();
    let commit = Commit::from_parts(6, 20, String::new(), String::new(), vec![5], first.id);
    assert_eq!(
        storage.create_commit(&commit),
        Err(Error::ChangeNotFound(String::from("00000000-0000-0000-0000-000000000005")))
    );
}

#[test]
fn uncommitted_changes_are_listed_newest_first() {
    let (mut storage, session) = store_with_session(1);
    for (id, timestamp) in [(10u128, 300i64), (11, 100), (12, 200), (13, 200)] {
        let change = Change::from_parts(id, timestamp, ChangeType::Modify, format!("f{}", id), session.id);
        storage.create_change(&change).unwrap();
    }
    let listed: Vec<u128> = storage
        .get_uncommitted_changes(&session.id)
        .unwrap()
        .iter()
        .map(|c| c.id)
        .collect();
    assert_eq!(listed, vec![10, 13, 12, 11]);
    assert!(storage.get_uncommitted_changes(&77).unwrap().is_empty());
}

#[test]
fn committed_changes_leave_the_listing() {
    let (mut storage, session) = store_with_session(1);
    let mut ids = Vec::new();
    for n in 0..4u128 {
        let change = Change::new(ChangeType::Create, format!("f{}", n), session.id);
        storage.create_change(&change).unwrap();
        ids.push(change.id);
    }
    let commit = Commit::new(String::from("two"), String::from("a"), vec![ids[2], ids[0]], session.id);
    storage.create_commit(&commit).unwrap();
    let listed: Vec<u128> = storage
        .get_uncommitted_changes(&session.id)
        .unwrap()
        .iter()
        .map(|c| c.id)
        .collect();
    assert_eq!(listed.len(), 2);
    assert!(listed.contains(&ids[1]));
    assert!(listed.contains(&ids[3]));
    assert!(!listed.contains(&ids[0]));
    assert!(!listed.contains(&ids[2]));
}

#[test]
fn commit_round_trip_keeps_the_set_of_changes() {
    let (mut storage, session) = store_with_session(1);
    let c1 = Change::new(ChangeType::Create, String::from("one"), session.id);
    let c2 = Change::new(ChangeType::Create, String::from("two"), session.id);
    storage.create_change(&c1).unwrap();
    storage.create_change(&c2).unwrap();
    let commit = Commit::new(String::from("m"), String::from("a"), vec![c2.id, c1.id], session.id)
        .with_metadata(String::from("k"), String::from("v"));
    storage.create_commit(&commit).unwrap();
    let found = storage.get_commit(&commit.id).unwrap();
    assert_eq!(found, commit);
    let mut expected = vec![c1.id, c2.id];
    let mut actual = found.changes.clone();
    expected.sort();
    actual.sort();
    assert_eq!(actual, expected);
}

#[test]
fn end_to_end_scenario() {
    let mut storage = Storage::in_memory().unwrap();
    let session = Session::new(String::from("/R"));
    storage.create_session(&session).unwrap();

    let create = Change::new(ChangeType::Create, String::from("a.txt"), session.id)
        .with_content_after(b"x".to_vec());
    storage.create_change(&create).unwrap();
    let modify = Change::new(ChangeType::Modify, String::from("a.txt"), session.id)
        .with_content_before(b"x".to_vec())
        .with_content_after(b"xy".to_vec());
    storage.create_change(&modify).unwrap();

    let uncommitted = storage.get_uncommitted_changes(&session.id).unwrap();
    assert_eq!(uncommitted.len(), 2);

    let ids: Vec<u128> = uncommitted.iter().map(|c| c.id).collect();
    let commit = Commit::new(String::from("init"), String::from("agent"), ids, session.id);
    storage.create_commit(&commit).unwrap();

    let commits = storage.get_commits_for_session(&session.id).unwrap();
    assert_eq!(commits.len(), 1);
    assert_eq!(commits[0].change_count, 2);
    assert_eq!(commits[0].files_affected, vec![String::from("a.txt")]);
    assert_eq!(commits[0].commit.message, "init");
    assert!(storage.get_uncommitted_changes(&session.id).unwrap().is_empty());
}

#[test]
fn commits_are_listed_newest_first_with_their_paths() {
    let (mut storage, session) = store_with_session(1);
    for (id, path) in [(10u128, "a"), (11, "b"), (12, "a"), (13, "c")] {
        let change = Change::from_parts(id, 5, ChangeType::Modify, path.to_string(), session.id);
        storage.create_change(&change).unwrap();
    }
    let early = Commit::from_parts(20, 100, String::from("early"), String::new(), vec![10, 11, 12], session.id);
    let late = Commit::from_parts(21, 200, String::from("late"), String::new(), vec![13], session.id);
    let empty = Commit::from_parts(22, 150, String::from("empty"), String::new(), vec![], session.id);
    storage.create_commit(&late).unwrap();
    storage.create_commit(&early).unwrap();
    storage.create_commit(&empty).unwrap();
    let infos = storage.get_commits_for_session(&session.id).unwrap();
    let messages: Vec<&str> = infos.iter().map(|i| i.commit.message.as_str()).collect();
    assert_eq!(messages, vec!["late", "empty", "early"]);
    assert_eq!(infos[2].change_count, 3);
    assert_eq!(infos[2].files_affected, vec!["a".to_string(), "b".to_string()]);
    assert_eq!(infos[1].change_count, 0);
    assert!(infos[1].files_affected.is_empty());
    assert_eq!(infos[0].files_affected, vec!["c".to_string()]);
    assert!(storage.get_commits_for_session(&9).unwrap().is_empty());
}

#[test]
fn commit_info_passes_over_changes_that_do_not_exist() {
    let (mut storage, session) = store_with_session(1);
    let change = Change::from_parts(10, 5, ChangeType::Create, String::from("kept"), session.id);
    storage.create_change(&change).unwrap();
    let loose = Commit::from_parts(20, 100, String::new(), String::new(), vec![99, 10, 98], session.id);
    let info = storage.get_commit_info(&loose).unwrap();
    assert_eq!(info.change_count, 1);
    assert_eq!(info.files_affected, vec!["kept".to_string()]);
    assert_eq!(info.commit, loose);
}

#[test]
fn only_one_session_is_active() {
    let (mut storage, first) = store_with_session(1);
    let second = Session::from_parts(2, 2_000, String::from("/second"));
    assert_eq!(
        storage.create_session(&second),
        Err(Error::SessionAlreadyActive(String::from("/root")))
    );
    assert_eq!(
        storage.create_session(&second).unwrap_err().message(),
        "Session already active at: /root"
    );
    assert_eq!(storage.get_active_session().unwrap().id, first.id);
    assert!(storage.get_session(&2).is_err());

    let mut ended = first.clone();
    ended.end_at(1_500);
    storage.update_session(&ended).unwrap();
    assert_eq!(storage.get_active_session(), Err(Error::NoActiveSession));
    assert_eq!(storage.get_session(&1).unwrap().ended, Some(1_500));

    storage.create_session(&second).unwrap();
    assert_eq!(storage.get_active_session().unwrap().id, 2);
    assert_eq!(
        storage.update_session(&first),
        Err(Error::SessionAlreadyActive(String::from("/second")))
    );
    assert!(!storage.get_session(&1).unwrap().active);
}

#[test]
fn update_takes_over_three_fields_and_ignores_unknown_sessions() {
    let (mut storage, first) = store_with_session(1);
    let changed = Session {
        id: 1,
        root_path: String::from("/elsewhere"),
        started: 7,
        ended: Some(9),
        active: false,
        ignore_patterns: vec!["tmp".to_string()],
    };
    storage.update_session(&changed).unwrap();
    let stored = storage.get_session(&1).unwrap();
    assert_eq!(stored.root_path, first.root_path);
    assert_eq!(stored.started, first.started);
    assert_eq!(stored.ended, Some(9));
    assert!(!stored.active);
    assert_eq!(stored.ignore_patterns, vec!["tmp".to_string()]);

    let unknown = Session::from_parts(5, 1, String::from("/x"));
    assert_eq!(storage.update_session(&unknown), Ok(()));
    assert!(storage.get_session(&5).is_err());
}

#[test]
fn error_messages() {
    let detail = || String::from("d");
    assert_eq!(Error::Database(detail()).message(), "Database error: d");
    assert_eq!(Error::Io(detail()).message(), "IO error: d");
    assert_eq!(Error::Serialization(detail()).message(), "Serialization error: d");
    assert_eq!(Error::ChangeNotFound(detail()).message(), "Change not found: d");
    assert_eq!(Error::CommitNotFound(detail()).message(), "Commit not found: d");
    assert_eq!(Error::SessionNotFound(detail()).message(), "Session not found: d");
    assert_eq!(Error::InvalidPath(detail()).message(), "Invalid path: d");
    assert_eq!(Error::RollbackFailed(detail()).message(), "Rollback failed: d");
    assert_eq!(Error::DiffFailed(detail()).message(), "Diff generation failed: d");
    assert_eq!(Error::NoActiveSession.message(), "No active session");
    assert_eq!(Error::SessionAlreadyActive(detail()).message(), "Session already active at: d");
    assert_eq!(Error::InvalidOperation(detail()).message(), "Invalid operation: d");
    assert_eq!(Error::Io(detail()).clone(), Error::Io(detail()));
}
