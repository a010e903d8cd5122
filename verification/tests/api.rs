use gitent::api::{
    commit_uncommitted, commit_uncommitted_as, create_change, create_change_as, create_commit,
    create_commit_as, fetch_commit, get_active_session, get_commit, get_commits,
    get_uncommitted_changes, health_check, keep_readable, parse_change_ids, start_session,
    start_session_as, Failure,
};
use gitent::error::Error;
use gitent::models::{ChangeType, Session};
use gitent::storage::Storage;

fn store() -> (Storage, Session) {
    let mut storage = Storage::in_memory().unwrap();
    let session = Session::new(String::from("/R"));
    storage.create_session(&session).unwrap();
    (storage, session)
}

#[test]
fn health() {
    assert_eq!(health_check(), "ok");
}

#[test]
fn requests_need_an_active_session() {
    let mut storage = Storage::in_memory().unwrap();
    let not_found = || Failure::NotFound(Error::NoActiveSession);
    assert_eq!(get_active_session(&storage), Err(not_found()));
    assert_eq!(get_uncommitted_changes(&storage), Err(not_found()));
    assert_eq!(get_commits(&storage), Err(not_found()));
    assert_eq!(
        create_change(&mut storage, "create", String::from("a"), None, None, None),
        Err(not_found())
    );
    assert_eq!(
        create_change(&mut storage, "bogus", String::from("a"), None, None, None),
        Err(not_found())
    );
    assert_eq!(
        create_commit(&mut storage, String::from("m"), String::from("a"), &vec![]),
        Err(not_found())
    );
}

#[test]
fn submitted_change_is_recorded_with_hashes() {
    let (mut storage, session) = store();
    let change = create_change(
        &mut storage,
        "modify",
        String::from("a.txt"),
        Some(String::from("x")),
        Some(String::from("xy")),
        Some(String::from("agent")),
    )
    .unwrap();
    assert_eq!(change.change_type, ChangeType::Modify);
    assert_eq!(change.session_id, session.id);
    assert_eq!(change.content_before, Some(b"x".to_vec()));
    assert_eq!(change.content_after, Some(b"xy".to_vec()));
    assert_eq!(
        change.content_hash_before,
        Some(String::from("2d711642b726b04401627ca9fbac32f5c8530fb1903cc4db02258717921a4881"))
    );
    assert_eq!(change.content_hash_after, Some(gitent::digest::hash_content(b"xy")));
    assert_eq!(change.agent_id, Some(String::from("agent")));
    assert_eq!(storage.get_change(&change.id), Ok(change.clone()));
    assert_eq!(get_uncommitted_changes(&storage), Ok(vec![change]));
    assert_eq!(get_active_session(&storage), Ok(session));
}

#[test]
fn malformed_requests() {
    let (mut storage, _) = store();
    assert_eq!(
        create_change(&mut storage, "touch", String::from("a"), None, None, None),
        Err(Failure::BadRequest(String::from("Invalid change type")))
    );
    assert_eq!(get_uncommitted_changes(&storage), Ok(vec![]));
    assert_eq!(
        get_commit(&storage, "not-a-uuid"),
        Err(Failure::BadRequest(String::from("Invalid UUID")))
    );
    assert_eq!(
        fetch_commit(&storage, None),
        Err(Failure::BadRequest(String::from("Invalid UUID")))
    );
    assert_eq!(
        get_commit(&storage, "00000000-0000-0000-0000-00000000002a"),
        Err(Failure::NotFound(Error::CommitNotFound(String::from(
            "00000000-0000-0000-0000-00000000002a"
        ))))
    );
}

#[test]
fn store_refusals_are_handed_on() {
    let (mut storage, _) = store();
    create_change_as(&mut storage, 5, 10, "create", String::from("a"), None, None, None).unwrap();
    assert_eq!(
        create_change_as(&mut storage, 5, 11, "create", String::from("b"), None, None, None),
        Err(Failure::Storage(Error::InvalidOperation(String::from(
            "change already exists: 00000000-0000-0000-0000-000000000005"
        ))))
    );
    assert_eq!(
        create_commit_as(&mut storage, 6, 12, String::new(), String::new(), vec![5, 9]),
        Err(Failure::Storage(Error::ChangeNotFound(String::from(
            "00000000-0000-0000-0000-000000000009"
        ))))
    );
    let commit = create_commit_as(&mut storage, 6, 12, String::from("m"), String::from("a"), vec![5]).unwrap();
    assert_eq!(commit.id, 6);
    assert_eq!(commit.timestamp, 12);
    assert_eq!(commit.changes, vec![5]);
    assert_eq!(fetch_commit(&storage, Some(6)), Ok(commit));
}

#[test]
fn commit_through_the_interface() {
    let (mut storage, session) = store();
    let first = create_change(&mut storage, "create", String::from("a.txt"), None, Some(String::from("x")), None)
        .unwrap();
    let second = create_change(
        &mut storage,
        "modify",
        String::from("a.txt"),
        Some(String::from("x")),
        Some(String::from("xy")),
        None,
    )
    .unwrap();
    assert_eq!(get_uncommitted_changes(&storage).unwrap().len(), 2);

    let texts = vec![uuid_text(first.id), String::from("garbage"), uuid_text(second.id)];
    let commit = create_commit(&mut storage, String::from("init"), String::from("agent"), &texts).unwrap();
    assert_eq!(commit.changes, vec![first.id, second.id]);
    assert_eq!(commit.session_id, session.id);
    assert_eq!(commit.message, "init");
    assert_eq!(commit.parent, None);
    assert_eq!(get_commit(&storage, &uuid_text(commit.id)), Ok(commit.clone()));

    let infos = get_commits(&storage).unwrap();
    assert_eq!(infos.len(), 1);
    assert_eq!(infos[0].change_count, 2);
    assert_eq!(infos[0].files_affected, vec![String::from("a.txt")]);
    assert_eq!(infos[0].commit, commit);
    assert_eq!(get_uncommitted_changes(&storage), Ok(vec![]));
}

fn uuid_text(id: u128) -> String {
    uuid::Uuid::from_u128(id).to_string()
}

#[test]
fn unreadable_identifiers_are_passed_over() {
    assert_eq!(keep_readable(&vec![Some(3), None, Some(1), None]), vec![3, 1]);
    assert_eq!(keep_readable(&vec![]), Vec::<u128>::new());
    assert_eq!(
        parse_change_ids(&vec![
            String::from("x"),
            String::from("00000000-0000-0000-0000-000000000007"),
            String::from("{00000000-0000-0000-0000-000000000008}"),
            String::new(),
        ]),
        vec![7, 8]
    );
}

#[test]
fn starting_a_session_ends_the_active_one() {
    let mut storage = Storage::in_memory().unwrap();
    let first = start_session_as(&mut storage, 1, 100, String::from("/one")).unwrap();
    assert!(first.active);
    assert_eq!(first.ended, None);
    assert_eq!(first.started, 100);
    assert_eq!(
        first.ignore_patterns,
        vec![".git".to_string(), "target".to_string(), "node_modules".to_string(), ".gitent".to_string()]
    );
    assert_eq!(get_active_session(&storage), Ok(first));

    let second = start_session_as(&mut storage, 2, 200, String::from("/two")).unwrap();
    assert_eq!(get_active_session(&storage), Ok(second));
    let ended = storage.get_session(&1).unwrap();
    assert!(!ended.active);
    assert_eq!(ended.ended, Some(200));
    assert_eq!(ended.root_path, "/one");

    assert_eq!(
        start_session_as(&mut storage, 1, 300, String::from("/three")),
        Err(Failure::Storage(Error::InvalidOperation(String::from(
            "session already exists: 00000000-0000-0000-0000-000000000001"
        ))))
    );
    assert_eq!(storage.get_active_session().unwrap().id, 2);
    assert_eq!(storage.get_session(&2).unwrap().ended, None);

    let third = start_session(&mut storage, String::from("/three")).unwrap();
    assert_eq!(storage.get_active_session().unwrap(), third);
    assert!(!storage.get_session(&2).unwrap().active);
}

#[test]
fn committing_everything_uncommitted() {
    let mut storage = Storage::in_memory().unwrap();
    assert_eq!(
        commit_uncommitted(&mut storage, String::from("m"), String::from("a")),
        Err(Failure::NotFound(Error::NoActiveSession))
    );
    start_session_as(&mut storage, 1, 100, String::from("/one")).unwrap();
    assert_eq!(
        commit_uncommitted(&mut storage, String::from("m"), String::from("a")),
        Ok(None)
    );
    create_change_as(&mut storage, 5, 10, "create", String::from("a"), None, None, None).unwrap();
    create_change_as(&mut storage, 6, 30, "modify", String::from("a"), None, None, None).unwrap();
    create_change_as(&mut storage, 7, 20, "delete", String::from("b"), None, None, None).unwrap();
    let commit = commit_uncommitted_as(&mut storage, 9, 40, String::from("all"), String::from("cli"))
        .unwrap()
        .unwrap();
    assert_eq!(commit.id, 9);
    assert_eq!(commit.changes, vec![6, 7, 5]);
    assert_eq!(commit.message, "all");
    assert_eq!(commit.agent_id, "cli");
    assert_eq!(commit.session_id, 1);
    assert_eq!(get_uncommitted_changes(&storage), Ok(vec![]));
    assert_eq!(
        commit_uncommitted_as(&mut storage, 10, 50, String::from("none"), String::from("cli")),
        Ok(None)
    );
    create_change_as(&mut storage, 8, 60, "create", String::from("c"), None, None, None).unwrap();
    assert_eq!(
        commit_uncommitted_as(&mut storage, 9, 70, String::from("again"), String::from("cli")),
        Err(Failure::Storage(Error::InvalidOperation(String::from(
            "commit already exists: 00000000-0000-0000-0000-000000000009"
        ))))
    );
    let commit = commit_uncommitted(&mut storage, String::from("next"), String::from("cli"))
        .unwrap()
        .unwrap();
    assert_eq!(commit.changes, vec![8]);
}
