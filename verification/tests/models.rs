use gitent::models::{Change, ChangeType, Commit, Session};
use uuid::Uuid;

#[test]
fn models_test_change_creation() {
    let session_id = Uuid::new_v4().as_u128();
    let change = Change::new(ChangeType::Create, String::from("test.txt"), session_id);

    assert_eq!(change.change_type, ChangeType::Create);
    assert_eq!(change.path, String::from("test.txt"));
    assert_eq!(change.session_id, session_id);
}

#[test]
fn test_change_with_content() {
    let session_id = Uuid::new_v4().as_u128();
    let content = b"Hello, World!".to_vec();
    let change = Change::new(ChangeType::Create, String::from("test.txt"), session_id)
        .with_content_after(content.clone());

    assert!(change.content_after.is_some());
    assert!(change.content_hash_after.is_some());
    assert_eq!(change.content_after.unwrap(), content);
}

#[test]
fn test_commit_creation() {
    let session_id = Uuid::new_v4().as_u128();
    let change_ids = vec![Uuid::new_v4().as_u128(), Uuid::new_v4().as_u128()];
    let commit = Commit::new(
        "Initial commit".to_string(),
        "test-agent".to_string(),
        change_ids.clone(),
        session_id,
    );

    assert_eq!(commit.message, "Initial commit");
    assert_eq!(commit.agent_id, "test-agent");
    assert_eq!(commit.changes, change_ids);
}

#[test]
fn test_session_creation() {
    let session = Session::new(String::from("/test/path"));

    assert_eq!(session.root_path, String::from("/test/path"));
    assert!(session.active);
    assert!(session.ended.is_none());
    assert!(!session.ignore_patterns.is_empty());
}

#[test]
fn change_type_names_round_trip() {
    let kinds = [
        (ChangeType::Create, "create"),
        (ChangeType::Modify, "modify"),
        (ChangeType::Delete, "delete"),
        (ChangeType::Rename, "rename"),
    ];
    for (kind, name) in kinds {
        assert_eq!(kind.as_str(), name);
        assert_eq!(ChangeType::parse(name), Some(kind));
    }
    assert_eq!(ChangeType::parse("Create"), None);
    assert_eq!(ChangeType::parse(""), None);
    assert_eq!(ChangeType::parse("created"), None);
}

#[test]
fn new_change_is_bare() {
    let change = Change::from_parts(5, 17, ChangeType::Delete, String::from("gone.txt"), 9);
    assert_eq!(change.id, 5);
    assert_eq!(change.timestamp, 17);
    assert_eq!(change.change_type, ChangeType::Delete);
    assert_eq!(change.session_id, 9);
    assert_eq!(change.old_path, None);
    assert_eq!(change.content_before, None);
    assert_eq!(change.content_after, None);
    assert_eq!(change.content_hash_before, None);
    assert_eq!(change.content_hash_after, None);
    assert_eq!(change.agent_id, None);
    assert!(change.metadata.is_empty());
}

#[test]
fn fresh_identifiers_differ() {
    let first = Change::new(ChangeType::Create, String::from("a"), 1);
    let second = Change::new(ChangeType::Create, String::from("a"), 1);
    assert_ne!(first.id, second.id);
    assert!(first.timestamp > 0);
    assert!(second.timestamp >= first.timestamp);
}

#[test]
fn content_hash_is_sha256_in_hex() {
    let change = Change::from_parts(1, 0, ChangeType::Modify, String::from("f"), 2)
        .with_content_before(b"x".to_vec())
        .with_content_after(b"Hello, World!".to_vec());
    assert_eq!(
        change.content_hash_before,
        Some(String::from("2d711642b726b04401627ca9fbac32f5c8530fb1903cc4db02258717921a4881"))
    );
    assert_eq!(
        change.content_hash_after,
        Some(String::from("dffd6021bb2bd5b0af676290809ec3a53191dd81c7f70a4b28688a362182986f"))
    );
    assert_eq!(change.content_before, Some(b"x".to_vec()));
}

#[test]
fn hash_of_empty_content() {
    assert_eq!(
        gitent::digest::hash_content(&[]),
        "e3b0c44298fc1c149afbf4c8996fb92427ae41e4649b934ca495991b7852b855"
    );
}

#[test]
fn metadata_keeps_one_value_per_key() {
    let change = Change::from_parts(1, 0, ChangeType::Create, String::from("f"), 2)
        .with_metadata(String::from("tool"), String::from("editor"))
        .with_metadata(String::from("step"), String::from("1"))
        .with_metadata(String::from("tool"), String::from("formatter"));
    assert_eq!(
        change.metadata,
        vec![
            (String::from("tool"), String::from("formatter")),
            (String::from("step"), String::from("1")),
        ]
    );
    let commit = Commit::from_parts(3, 0, String::new(), String::new(), vec![], 2)
        .with_metadata(String::from("k"), String::from("v"))
        .with_parent(77);
    assert_eq!(commit.metadata, vec![(String::from("k"), String::from("v"))]);
    assert_eq!(commit.parent, Some(77));
}

#[test]
fn builders_set_one_field_each() {
    let change = Change::from_parts(1, 0, ChangeType::Rename, String::from("new.txt"), 2)
        .with_old_path(String::from("old.txt"))
        .with_agent_id(String::from("agent-7"));
    assert_eq!(change.old_path, Some(String::from("old.txt")));
    assert_eq!(change.agent_id, Some(String::from("agent-7")));
    assert_eq!(change.path, "new.txt");
    assert_eq!(change.clone(), change);
}

#[test]
fn session_defaults_and_end() {
    let mut session = Session::from_parts(11, 100, String::from("/work"));
    assert_eq!(session.id, 11);
    assert_eq!(session.started, 100);
    assert_eq!(
        session.ignore_patterns,
        vec![".git".to_string(), "target".to_string(), "node_modules".to_string(), ".gitent".to_string()]
    );
    session.end_at(250);
    assert!(!session.active);
    assert_eq!(session.ended, Some(250));
    assert_eq!(session.root_path, "/work");

    let mut other = Session::new(String::from("/w")).with_ignore_patterns(vec!["build".to_string()]);
    assert_eq!(other.ignore_patterns, vec!["build".to_string()]);
    other.end();
    assert!(!other.active);
    assert!(other.ended.is_some());
    assert!(other.ended.unwrap() >= other.started);
}

#[test]
fn repeated_keys_are_dropped_after_the_first() {
    let entries = vec![
        (String::from("b"), String::from("1")),
        (String::from("a"), String::from("2")),
        (String::from("b"), String::from("3")),
        (String::from("a"), String::from("4")),
        (String::from("c"), String::from("5")),
    ];
    assert_eq!(
        gitent::models::without_repeated_keys(&entries),
        vec![
            (String::from("b"), String::from("1")),
            (String::from("a"), String::from("2")),
            (String::from("c"), String::from("5")),
        ]
    );
    assert!(gitent::models::without_repeated_keys(&vec![]).is_empty());
}

#[test]
fn content_hash_has_64_digits() {
    for content in [&b""[..], &b"x"[..], &[0u8, 255, 7][..]] {
        let hash = gitent::digest::hash_content(content);
        assert_eq!(hash.len(), 64);
        assert!(hash.chars().all(|c| c.is_ascii_digit() || ('a'..='f').contains(&c)));
    }
}
