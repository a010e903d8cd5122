use gitent::error::Error;
use gitent::models::{Change, ChangeType, Commit, Session};
use gitent::rows::{
    assemble_change, assemble_commit, assemble_ids, assemble_session, change_from_row, change_to_row,
    commit_from_row, commit_to_row, get_changes_for_commit, membership_rows, restore,
    restore_changes, session_from_row, session_to_row, ChangeRow, CommitRow, SessionRow,
    StoredCommit, SCHEMA, SCHEMA_VERSION,
};
use gitent::storage::Storage;

#[test]
fn schema_version_marker() {
    assert_eq!(SCHEMA_VERSION, 1);
    for table in ["schema_version", "sessions", "changes", "commits", "commit_changes"] {
        assert!(SCHEMA.contains(&format!("CREATE TABLE IF NOT EXISTS {} (", table)));
    }
    assert!(SCHEMA.contains("PRIMARY KEY (commit_id, change_id)"));
}

#[test]
fn session_row_holds_text() {
    let mut session = Session::from_parts(42, 0, String::from("/work"))
        .with_ignore_patterns(vec![".git".to_string(), "tar\"get".to_string()]);
    let row = session_to_row(&session).unwrap();
    assert_eq!(row.id, "00000000-0000-0000-0000-00000000002a");
    assert_eq!(row.root_path, "/work");
    assert_eq!(row.started, "1970-01-01T00:00:00+00:00");
    assert_eq!(row.ended, None);
    assert_eq!(row.active, 1);
    assert_eq!(row.ignore_patterns, "[\".git\",\"tar\\\"get\"]");

    session.end_at(1_500_000_000);
    let row = session_to_row(&session).unwrap();
    assert_eq!(row.ended, Some(String::from("1970-01-01T00:00:01.500+00:00")));
    assert_eq!(row.active, 0);
}

#[test]
fn session_comes_back_from_its_row() {
    let mut session = Session::new(String::from("/work"));
    session.end();
    let row = session_to_row(&session).unwrap();
    assert_eq!(session_from_row(&row), Ok(session));
}

fn session_row() -> SessionRow {
    SessionRow {
        id: String::from("550e8400-e29b-41d4-a716-446655440000"),
        root_path: String::from("/r"),
        started: String::from("2024-01-02T03:04:05.000000006+00:00"),
        ended: Some(String::from("2024-01-02T04:04:05+01:00")),
        active: 7,
        ignore_patterns: String::from("[\"a\",\"b\"]"),
    }
}

#[test]
fn session_row_is_read() {
    let session = session_from_row(&session_row()).unwrap();
    assert_eq!(session.id, 113059749145936325402354257176981405696);
    assert_eq!(session.started, 1_704_164_645_000_000_006);
    assert_eq!(session.ended, Some(1_704_164_645_000_000_000));
    assert!(session.active);
    assert_eq!(session.ignore_patterns, vec!["a".to_string(), "b".to_string()]);
    assert_eq!(session.root_path, "/r");
}

#[test]
fn unreadable_session_rows() {
    let mut row = session_row();
    row.id = String::from("not-an-id");
    assert_eq!(
        session_from_row(&row),
        Err(Error::Database(String::from("invalid identifier: not-an-id")))
    );
    let mut row = session_row();
    row.started = String::from("yesterday");
    assert_eq!(
        session_from_row(&row),
        Err(Error::Database(String::from("invalid timestamp: yesterday")))
    );
    let mut row = session_row();
    row.ended = Some(String::from("never"));
    row.ignore_patterns = String::from("{broken");
    row.active = 0;
    let session = session_from_row(&row).unwrap();
    assert_eq!(session.ended, None);
    assert!(session.ignore_patterns.is_empty());
    assert!(!session.active);
}

#[test]
fn assembled_session_takes_what_was_read() {
    let row = session_row();
    assert_eq!(
        assemble_session(&row, Some(1), Some(2), Some(3), Some(vec!["p".to_string()])),
        Ok(Session {
            id: 1,
            root_path: String::from("/r"),
            started: 2,
            ended: Some(3),
            active: true,
            ignore_patterns: vec!["p".to_string()],
        })
    );
    assert_eq!(
        assemble_session(&row, None, None, None, None),
        Err(Error::Database(String::from(
            "invalid identifier: 550e8400-e29b-41d4-a716-446655440000"
        )))
    );
    assert_eq!(
        assemble_session(&row, Some(1), None, None, None),
        Err(Error::Database(String::from(
            "invalid timestamp: 2024-01-02T03:04:05.000000006+00:00"
        )))
    );
    assert_eq!(
        assemble_session(&row, Some(1), Some(2), None, None).unwrap().ignore_patterns,
        Vec::<String>::new()
    );
}

#[test]
fn change_comes_back_from_its_row() {
    let change = Change::new(ChangeType::Rename, String::from("b.txt"), 77)
        .with_old_path(String::from("a.txt"))
        .with_content_before(b"before".to_vec())
        .with_content_after(vec![0, 255, 7])
        .with_agent_id(String::from("agent"))
        .with_metadata(String::from("alpha"), String::from("1"))
        .with_metadata(String::from("beta"), String::from("2"));
    let row = change_to_row(&change).unwrap();
    assert_eq!(row.change_type, "rename");
    assert_eq!(row.session_id, "00000000-0000-0000-0000-00000000004d");
    assert_eq!(row.metadata, "{\"alpha\":\"1\",\"beta\":\"2\"}");
    assert_eq!(row.content_after, Some(vec![0, 255, 7]));
    assert_eq!(change_from_row(&row), Ok(change));
}

#[test]
fn metadata_is_stored_in_the_order_of_its_keys() {
    let change = Change::from_parts(1, 0, ChangeType::Create, String::from("f"), 2)
        .with_metadata(String::from("zeta"), String::from("z"))
        .with_metadata(String::from("alpha"), String::from("a"));
    let row = change_to_row(&change).unwrap();
    assert_eq!(row.metadata, "{\"alpha\":\"a\",\"zeta\":\"z\"}");
    let read = change_from_row(&row).unwrap();
    assert_eq!(
        read.metadata,
        vec![
            (String::from("alpha"), String::from("a")),
            (String::from("zeta"), String::from("z")),
        ]
    );
    let bare = Change::from_parts(1, 0, ChangeType::Create, String::from("f"), 2);
    assert_eq!(change_to_row(&bare).unwrap().metadata, "{}");
}

fn change_row() -> ChangeRow {
    ChangeRow {
        id: String::from("00000000-0000-0000-0000-000000000001"),
        session_id: String::from("00000000-0000-0000-0000-000000000002"),
        timestamp: String::from("1970-01-01T00:00:01+00:00"),
        change_type: String::from("modify"),
        path: String::from("p"),
        old_path: None,
        content_before: None,
        content_after: Some(b"x".to_vec()),
        content_hash_before: None,
        content_hash_after: Some(String::from("h")),
        agent_id: None,
        metadata: String::from("not json"),
    }
}

#[test]
fn unreadable_change_rows() {
    let change = change_from_row(&change_row()).unwrap();
    assert_eq!(change.id, 1);
    assert_eq!(change.session_id, 2);
    assert_eq!(change.timestamp, 1_000_000_000);
    assert_eq!(change.change_type, ChangeType::Modify);
    assert!(change.metadata.is_empty());
    assert_eq!(change.content_hash_after, Some(String::from("h")));

    let mut row = change_row();
    row.change_type = String::from("chmod");
    assert_eq!(
        change_from_row(&row),
        Err(Error::Database(String::from("invalid change type: chmod")))
    );
    let mut row = change_row();
    row.session_id = String::from("?");
    assert_eq!(
        change_from_row(&row),
        Err(Error::Database(String::from("invalid identifier: ?")))
    );
    let mut row = change_row();
    row.timestamp = String::from("1970-01-01");
    row.id = String::from("x");
    assert_eq!(
        change_from_row(&row),
        Err(Error::Database(String::from("invalid identifier: x")))
    );
    row.id = String::from("00000000-0000-0000-0000-000000000001");
    assert_eq!(
        change_from_row(&row),
        Err(Error::Database(String::from("invalid timestamp: 1970-01-01")))
    );
    assert_eq!(
        assemble_change(&change_row(), Some(9), Some(8), Some(7), None).unwrap().id,
        9
    );
}

#[test]
fn commit_comes_back_from_its_rows() {
    let commit = Commit::new(String::from("message"), String::from("agent"), vec![5, 6], 77)
        .with_parent(4)
        .with_metadata(String::from("k"), String::from("v"));
    let row = commit_to_row(&commit).unwrap();
    assert_eq!(row.parent, Some(String::from("00000000-0000-0000-0000-000000000004")));
    assert_eq!(row.message, "message");
    let members = membership_rows(&commit);
    assert_eq!(
        members,
        vec![
            String::from("00000000-0000-0000-0000-000000000005"),
            String::from("00000000-0000-0000-0000-000000000006"),
        ]
    );
    assert_eq!(commit_from_row(&row, &members), Ok(commit));
}

#[test]
fn unreadable_commit_rows() {
    let row = CommitRow {
        id: String::from("00000000-0000-0000-0000-000000000001"),
        session_id: String::from("00000000-0000-0000-0000-000000000002"),
        parent: Some(String::from("nobody")),
        timestamp: String::from("1970-01-01T00:00:00Z"),
        message: String::from("m"),
        agent_id: String::from("a"),
        metadata: String::from("[]"),
    };
    let commit = commit_from_row(&row, &vec![]).unwrap();
    assert_eq!(commit.parent, None);
    assert_eq!(commit.timestamp, 0);
    assert!(commit.metadata.is_empty());
    assert!(commit.changes.is_empty());
    assert_eq!(
        commit_from_row(&row, &vec![String::from("00000000-0000-0000-0000-000000000005"), String::from("bad")]),
        Err(Error::Database(String::from("invalid identifier: bad")))
    );
    assert_eq!(
        assemble_commit(&row, Some(1), None, None, Some(0), None, vec![]),
        Err(Error::Database(String::from(
            "invalid identifier: 00000000-0000-0000-0000-000000000002"
        )))
    );
    assert_eq!(
        assemble_commit(&row, Some(1), Some(2), Some(3), None, None, vec![]),
        Err(Error::Database(String::from("invalid timestamp: 1970-01-01T00:00:00Z")))
    );
}

#[test]
fn identifiers_of_a_commit_are_read_in_order() {
    let texts = vec![
        String::from("00000000-0000-0000-0000-00000000000b"),
        String::from("0000000000000000000000000000000A"),
    ];
    assert_eq!(get_changes_for_commit(&texts), Ok(vec![11, 10]));
    assert_eq!(get_changes_for_commit(&vec![]), Ok(vec![]));
    let texts = vec![String::from("first"), String::from("second")];
    assert_eq!(
        assemble_ids(&texts, &vec![Some(1), None]),
        Err(Error::Database(String::from("invalid identifier: second")))
    );
    assert_eq!(
        assemble_ids(&texts, &vec![None, None]),
        Err(Error::Database(String::from("invalid identifier: first")))
    );
    assert_eq!(assemble_ids(&texts, &vec![Some(1), Some(2)]), Ok(vec![1, 2]));
}

fn stored() -> (Vec<SessionRow>, Vec<ChangeRow>, Vec<StoredCommit>, Storage) {
    let mut storage = Storage::in_memory().unwrap();
    let mut first = Session::from_parts(1, 100, String::from("/one"));
    first.end_at(150);
    let second = Session::from_parts(2, 200, String::from("/two"));
    storage.create_session(&first).unwrap();
    storage.create_session(&second).unwrap();
    let changes = vec![
        Change::from_parts(10, 300, ChangeType::Create, String::from("a"), 2)
            .with_content_after(b"x".to_vec()),
        Change::from_parts(11, 250, ChangeType::Modify, String::from("a"), 2),
        Change::from_parts(12, 120, ChangeType::Delete, String::from("b"), 1),
    ];
    for change in &changes {
        storage.create_change(change).unwrap();
    }
    let commits = vec![
        Commit::from_parts(20, 400, String::from("first"), String::from("me"), vec![11, 10], 2),
        Commit::from_parts(21, 500, String::from("second"), String::from("me"), vec![], 2)
            .with_parent(20),
    ];
    for commit in &commits {
        storage.create_commit(commit).unwrap();
    }
    (
        vec![session_to_row(&first).unwrap(), session_to_row(&second).unwrap()],
        changes.iter().map(|c| change_to_row(c).unwrap()).collect(),
        commits
            .iter()
            .map(|c| StoredCommit { row: commit_to_row(c).unwrap(), change_ids: membership_rows(c) })
            .collect(),
        storage,
    )
}

#[test]
fn store_is_restored_from_its_rows() {
    let (sessions, changes, commits, storage) = stored();
    let restored = restore(&sessions, &changes, &commits).unwrap();
    assert_eq!(restored.get_active_session(), storage.get_active_session());
    assert_eq!(restored.get_session(&1), storage.get_session(&1));
    for id in [10u128, 11, 12] {
        assert_eq!(restored.get_change(&id), storage.get_change(&id));
    }
    for id in [20u128, 21] {
        assert_eq!(restored.get_commit(&id), storage.get_commit(&id));
    }
    assert_eq!(restored.get_uncommitted_changes(&1), storage.get_uncommitted_changes(&1));
    assert_eq!(restored.get_uncommitted_changes(&2), Ok(vec![]));
    assert_eq!(restored.get_commits_for_session(&2), storage.get_commits_for_session(&2));
    assert_eq!(restored.get_commits_for_session(&2).unwrap().len(), 2);

    let empty = restore(&vec![], &vec![], &vec![]).unwrap();
    assert_eq!(empty.get_active_session(), Err(Error::NoActiveSession));
}

#[test]
fn rows_that_break_the_rules_are_not_restored() {
    let (sessions, changes, commits, _) = stored();
    assert_eq!(
        restore(&vec![], &changes, &vec![]).err(),
        Some(Error::SessionNotFound(String::from("00000000-0000-0000-0000-000000000002")))
    );
    assert_eq!(
        restore(&sessions, &vec![], &commits).err(),
        Some(Error::ChangeNotFound(String::from("00000000-0000-0000-0000-00000000000b")))
    );
    let mut twice = Vec::new();
    twice.push(session_to_row(&Session::from_parts(1, 100, String::from("/one"))).unwrap());
    twice.push(session_to_row(&Session::from_parts(2, 200, String::from("/two"))).unwrap());
    assert_eq!(
        restore(&twice, &vec![], &vec![]).err(),
        Some(Error::SessionAlreadyActive(String::from("/one")))
    );
    let mut unreadable = change_row();
    unreadable.timestamp = String::from("soon");
    let mut storage = Storage::in_memory().unwrap();
    assert_eq!(
        restore_changes(&mut storage, &vec![unreadable]),
        Err(Error::Database(String::from("invalid timestamp: soon")))
    );
}

#[test]
fn of_entries_with_one_key_the_first_is_stored() {
    let mut change = Change::from_parts(1, 0, ChangeType::Create, String::from("f"), 2);
    change.metadata = vec![
        (String::from("k"), String::from("first")),
        (String::from("a"), String::from("only")),
        (String::from("k"), String::from("second")),
    ];
    let row = change_to_row(&change).unwrap();
    assert_eq!(row.metadata, "{\"a\":\"only\",\"k\":\"first\"}");
    let mut commit = Commit::from_parts(3, 0, String::new(), String::new(), vec![], 2);
    commit.metadata = vec![
        (String::from("k"), String::from("first")),
        (String::from("k"), String::from("second")),
    ];
    assert_eq!(commit_to_row(&commit).unwrap().metadata, "{\"k\":\"first\"}");
}
