//! The stored form of the entities: rows of text and bytes, as a relational
//! store keeps them, and the conversions in both directions.
//!
//! Identifiers are stored as canonical text, timestamps as RFC 3339 text,
//! ignore patterns and metadata as JSON text, content as raw bytes.

use crate::clock::{format_rfc3339, parse_rfc3339, parsed_rfc3339, rfc3339_text};
use crate::error::{Error, ErrorView};
use crate::ident::{canonical_text, format_id, parse_id, parsed_id};
use crate::json::{
    decode_entries, decode_texts, encode_entries, encode_texts, entries_of_json, json_of_entries,
    json_of_texts, texts_of_json,
};
use crate::models::{
    clone_optional_bytes, clone_optional_text, first_per_key, unique_entries_stay, unique_keys,
    without_repeated_keys, Change, ChangeType, ChangeView, Commit, CommitView, Session,
    SessionView,
};
use crate::storage::{Storage, StorageView};
use vstd::prelude::*;
use vstd::string::*;

verus! {

/// The version of the layout, kept in the store as a marker.
pub const SCHEMA_VERSION: i32 = 1;

/// The layout: a table for each kind of entity, a table that lists the
/// changes of each commit, and the marker of the version.
pub const SCHEMA: &'static str = "
CREATE TABLE IF NOT EXISTS schema_version (
    version INTEGER PRIMARY KEY
);

CREATE TABLE IF NOT EXISTS sessions (
    id TEXT PRIMARY KEY,
    root_path TEXT NOT NULL,
    started TEXT NOT NULL,
    ended TEXT,
    active INTEGER NOT NULL,
    ignore_patterns TEXT NOT NULL
);

CREATE TABLE IF NOT EXISTS changes (
    id TEXT PRIMARY KEY,
    session_id TEXT NOT NULL,
    timestamp TEXT NOT NULL,
    change_type TEXT NOT NULL,
    path TEXT NOT NULL,
    old_path TEXT,
    content_before BLOB,
    content_after BLOB,
    content_hash_before TEXT,
    content_hash_after TEXT,
    agent_id TEXT,
    metadata TEXT NOT NULL,
    FOREIGN KEY (session_id) REFERENCES sessions(id)
);

CREATE TABLE IF NOT EXISTS commits (
    id TEXT PRIMARY KEY,
    session_id TEXT NOT NULL,
    parent TEXT,
    timestamp TEXT NOT NULL,
    message TEXT NOT NULL,
    agent_id TEXT NOT NULL,
    metadata TEXT NOT NULL,
    FOREIGN KEY (session_id) REFERENCES sessions(id),
    FOREIGN KEY (parent) REFERENCES commits(id)
);

CREATE TABLE IF NOT EXISTS commit_changes (
    commit_id TEXT NOT NULL,
    change_id TEXT NOT NULL,
    PRIMARY KEY (commit_id, change_id),
    FOREIGN KEY (commit_id) REFERENCES commits(id),
    FOREIGN KEY (change_id) REFERENCES changes(id)
);

CREATE INDEX IF NOT EXISTS idx_changes_session ON changes(session_id);
CREATE INDEX IF NOT EXISTS idx_changes_timestamp ON changes(timestamp);
CREATE INDEX IF NOT EXISTS idx_commits_session ON commits(session_id);
CREATE INDEX IF NOT EXISTS idx_commits_timestamp ON commits(timestamp);
CREATE INDEX IF NOT EXISTS idx_commits_parent ON commits(parent);
";

/// A row of the table of sessions.
#[derive(Debug, PartialEq, Eq)]
pub struct SessionRow {
    pub id: String,
    pub root_path: String,
    pub started: String,
    pub ended: Option<String>,
    pub active: i32,
    pub ignore_patterns: String,
}

/// A row of the table of changes.
#[derive(Debug, PartialEq, Eq)]
pub struct ChangeRow {
    pub id: String,
    pub session_id: String,
    pub timestamp: String,
    pub change_type: String,
    pub path: String,
    pub old_path: Option<String>,
    pub content_before: Option<Vec<u8>>,
    pub content_after: Option<Vec<u8>>,
    pub content_hash_before: Option<String>,
    pub content_hash_after: Option<String>,
    pub agent_id: Option<String>,
    pub metadata: String,
}

/// A row of the table of commits. The changes of a commit stand in a
/// table of their own, a row for each pair of commit and change.
#[derive(Debug, PartialEq, Eq)]
pub struct CommitRow {
    pub id: String,
    pub session_id: String,
    pub parent: Option<String>,
    pub timestamp: String,
    pub message: String,
    pub agent_id: String,
    pub metadata: String,
}

/// The failure that a stored identifier gives when it cannot be read.
pub open spec fn invalid_identifier(text: Seq<char>) -> ErrorView {
    ErrorView::Database("invalid identifier: "@ + text)
}

/// The failure that a stored timestamp gives when it cannot be read.
pub open spec fn invalid_timestamp(text: Seq<char>) -> ErrorView {
    ErrorView::Database("invalid timestamp: "@ + text)
}

/// The failure that a stored kind of change gives when it cannot be read.
pub open spec fn invalid_change_type(text: Seq<char>) -> ErrorView {
    ErrorView::Database("invalid change type: "@ + text)
}

/// The timestamp that an optional text denotes; a text that cannot be read
/// counts as missing.
pub open spec fn optional_time(text: Option<String>) -> Option<i64> {
    match text {
        Some(text) => parsed_rfc3339(text@),
        None => None,
    }
}

/// The identifier that an optional text denotes; a text that cannot be read
/// counts as missing.
pub open spec fn optional_id(text: Option<String>) -> Option<u128> {
    match text {
        Some(text) => parsed_id(text@),
        None => None,
    }
}

/// The session that a row stands for, given what its identifier, its
/// times and its patterns were read as. An unreadable identifier or start
/// time is a failure; unreadable patterns count as none.
pub open spec fn session_of(
    row: SessionRow,
    id: Option<u128>,
    started: Option<i64>,
    ended: Option<i64>,
    ignore_patterns: Option<Seq<Seq<char>>>,
) -> Result<SessionView, ErrorView> {
    if id is None {
        Err(invalid_identifier(row.id@))
    } else if started is None {
        Err(invalid_timestamp(row.started@))
    } else {
        Ok(
            SessionView {
                id: id->0,
                root_path: row.root_path@,
                started: started->0,
                ended,
                active: row.active != 0,
                ignore_patterns: match ignore_patterns {
                    Some(patterns) => patterns,
                    None => Seq::empty(),
                },
            },
        )
    }
}

/// The change that a row stands for, given what its identifiers, its time
/// and its metadata were read as. An unreadable identifier, time or kind
/// is a failure; unreadable metadata counts as none.
pub open spec fn change_of_row(
    row: ChangeRow,
    id: Option<u128>,
    session_id: Option<u128>,
    timestamp: Option<i64>,
    metadata: Option<Seq<(Seq<char>, Seq<char>)>>,
) -> Result<ChangeView, ErrorView> {
    if id is None {
        Err(invalid_identifier(row.id@))
    } else if timestamp is None {
        Err(invalid_timestamp(row.timestamp@))
    } else if ChangeType::named(row.change_type@) is None {
        Err(invalid_change_type(row.change_type@))
    } else if session_id is None {
        Err(invalid_identifier(row.session_id@))
    } else {
        Ok(
            ChangeView {
                id: id->0,
                timestamp: timestamp->0,
                change_type: ChangeType::named(row.change_type@)->0,
                path: row.path@,
                old_path: row.old_path.deep_view(),
                content_before: row.content_before.deep_view(),
                content_after: row.content_after.deep_view(),
                content_hash_before: row.content_hash_before.deep_view(),
                content_hash_after: row.content_hash_after.deep_view(),
                agent_id: row.agent_id.deep_view(),
                metadata: match metadata {
                    Some(entries) => entries,
                    None => Seq::empty(),
                },
                session_id: session_id->0,
            },
        )
    }
}

/// The commit that a row and its list of changes stand for, given what its
/// identifiers, its time and its metadata were read as. An unreadable
/// identifier or time is a failure; an unreadable parent counts as none,
/// and so does unreadable metadata.
pub open spec fn commit_of_row(
    row: CommitRow,
    id: Option<u128>,
    session_id: Option<u128>,
    parent: Option<u128>,
    timestamp: Option<i64>,
    metadata: Option<Seq<(Seq<char>, Seq<char>)>>,
    changes: Seq<u128>,
) -> Result<CommitView, ErrorView> {
    if id is None {
        Err(invalid_identifier(row.id@))
    } else if timestamp is None {
        Err(invalid_timestamp(row.timestamp@))
    } else if session_id is None {
        Err(invalid_identifier(row.session_id@))
    } else {
        Ok(
            CommitView {
                id: id->0,
                parent,
                timestamp: timestamp->0,
                message: row.message@,
                agent_id: row.agent_id@,
                changes,
                session_id: session_id->0,
                metadata: match metadata {
                    Some(entries) => entries,
                    None => Seq::empty(),
                },
            },
        )
    }
}

/// The identifiers that a list of texts denotes, given what each text was
/// read as: all of them, or the failure of the first that cannot be read.
pub open spec fn ids_of(texts: Seq<Seq<char>>, read: Seq<Option<u128>>) -> Result<
    Seq<u128>,
    ErrorView,
>
    decreases texts.len(),
{
    if texts.len() == 0 {
        Ok(Seq::empty())
    } else {
        match ids_of(texts.drop_last(), read.drop_last()) {
            Err(error) => Err(error),
            Ok(ids) => match read.last() {
                Some(id) => Ok(ids.push(id)),
                None => Err(invalid_identifier(texts.last())),
            },
        }
    }
}

/// Each text of a list as `parsed_id` reads it.
pub open spec fn read_ids(texts: Seq<Seq<char>>) -> Seq<Option<u128>> {
    Seq::new(texts.len(), |i: int| parsed_id(texts[i]))
}

/// The view of a session that was read, or of the failure.
pub open spec fn session_result(result: Result<Session, Error>) -> Result<SessionView, ErrorView> {
    match result {
        Ok(session) => Ok(session@),
        Err(error) => Err(error@),
    }
}

/// The view of a change that was read, or of the failure.
pub open spec fn change_result(result: Result<Change, Error>) -> Result<ChangeView, ErrorView> {
    match result {
        Ok(change) => Ok(change@),
        Err(error) => Err(error@),
    }
}

/// The view of a commit that was read, or of the failure.
pub open spec fn commit_result(result: Result<Commit, Error>) -> Result<CommitView, ErrorView> {
    match result {
        Ok(commit) => Ok(commit@),
        Err(error) => Err(error@),
    }
}

/// The view of the identifiers that were read, or of the failure.
pub open spec fn ids_result(result: Result<Vec<u128>, Error>) -> Result<Seq<u128>, ErrorView> {
    match result {
        Ok(ids) => Ok(ids@),
        Err(error) => Err(error@),
    }
}

/// Whether a row is the stored form of a session, with the given JSON text
/// for its patterns.
pub open spec fn is_session_row(row: SessionRow, session: SessionView, patterns: Seq<char>) -> bool {
    &&& row.id@ == canonical_text(session.id)
    &&& row.root_path@ == session.root_path
    &&& row.started@ == rfc3339_text(session.started)
    &&& row.ended.deep_view() == match session.ended {
        Some(ended) => Some(rfc3339_text(ended)),
        None => None,
    }
    &&& row.active == if session.active {
        1i32
    } else {
        0i32
    }
    &&& row.ignore_patterns@ == patterns
}

/// Whether a row is the stored form of a change, with the given JSON text
/// for its metadata.
pub open spec fn is_change_row(row: ChangeRow, change: ChangeView, metadata: Seq<char>) -> bool {
    &&& row.id@ == canonical_text(change.id)
    &&& row.session_id@ == canonical_text(change.session_id)
    &&& row.timestamp@ == rfc3339_text(change.timestamp)
    &&& row.change_type@ == change.change_type.name()
    &&& row.path@ == change.path
    &&& row.old_path.deep_view() == change.old_path
    &&& row.content_before.deep_view() == change.content_before
    &&& row.content_after.deep_view() == change.content_after
    &&& row.content_hash_before.deep_view() == change.content_hash_before
    &&& row.content_hash_after.deep_view() == change.content_hash_after
    &&& row.agent_id.deep_view() == change.agent_id
    &&& row.metadata@ == metadata
}

/// Whether a row is the stored form of a commit, with the given JSON text
/// for its metadata.
pub open spec fn is_commit_row(row: CommitRow, commit: CommitView, metadata: Seq<char>) -> bool {
    &&& row.id@ == canonical_text(commit.id)
    &&& row.session_id@ == canonical_text(commit.session_id)
    &&& row.parent.deep_view() == match commit.parent {
        Some(parent) => Some(canonical_text(parent)),
        None => None,
    }
    &&& row.timestamp@ == rfc3339_text(commit.timestamp)
    &&& row.message@ == commit.message
    &&& row.agent_id@ == commit.agent_id
    &&& row.metadata@ == metadata
}

fn failure(label: &str, text: &String) -> (error: Error)
    ensures
        error@ == ErrorView::Database(label@ + text@),
{
    Error::Database(String::from_str(label).concat(text.as_str()))
}

fn parse_optional_time(text: &Option<String>) -> (time: Option<i64>)
    ensures
        time == optional_time(*text),
{
    match text {
        Some(text) => parse_rfc3339(text.as_str()),
        None => None,
    }
}

fn parse_optional_id(text: &Option<String>) -> (id: Option<u128>)
    ensures
        id == optional_id(*text),
{
    match text {
        Some(text) => parse_id(text.as_str()),
        None => None,
    }
}

/// The session that a row stands for, given what its identifier, its times
/// and its patterns were read as.
pub fn assemble_session(
    row: &SessionRow,
    id: Option<u128>,
    started: Option<i64>,
    ended: Option<i64>,
    ignore_patterns: Option<Vec<String>>,
) -> (session: Result<Session, Error>)
    ensures
        session_result(session) == session_of(
            *row,
            id,
            started,
            ended,
            ignore_patterns.deep_view(),
        ),
{
    let id = match id {
        Some(id) => id,
        None => {
            return Err(failure("invalid identifier: ", &row.id));
        },
    };
    let started = match started {
        Some(started) => started,
        None => {
            return Err(failure("invalid timestamp: ", &row.started));
        },
    };
    let ignore_patterns = match ignore_patterns {
        Some(patterns) => patterns,
        None => {
            let none: Vec<String> = Vec::new();
            assert(none.deep_view() =~= Seq::empty());
            none
        },
    };
    Ok(
        Session {
            id,
            root_path: row.root_path.clone(),
            started,
            ended,
            active: row.active != 0,
            ignore_patterns,
        },
    )
}

/// The session that a row stands for.
pub fn session_from_row(row: &SessionRow) -> (session: Result<Session, Error>)
    ensures
        session_result(session) == session_of(
            *row,
            parsed_id(row.id@),
            parsed_rfc3339(row.started@),
            optional_time(row.ended),
            texts_of_json(row.ignore_patterns@),
        ),
{
    assemble_session(
        row,
        parse_id(row.id.as_str()),
        parse_rfc3339(row.started.as_str()),
        parse_optional_time(&row.ended),
        decode_texts(row.ignore_patterns.as_str()),
    )
}

/// The change that a row stands for, given what its identifiers, its time
/// and its metadata were read as.
pub fn assemble_change(
    row: &ChangeRow,
    id: Option<u128>,
    session_id: Option<u128>,
    timestamp: Option<i64>,
    metadata: Option<Vec<(String, String)>>,
) -> (change: Result<Change, Error>)
    ensures
        change_result(change) == change_of_row(
            *row,
            id,
            session_id,
            timestamp,
            metadata.deep_view(),
        ),
{
    let id = match id {
        Some(id) => id,
        None => {
            return Err(failure("invalid identifier: ", &row.id));
        },
    };
    let timestamp = match timestamp {
        Some(timestamp) => timestamp,
        None => {
            return Err(failure("invalid timestamp: ", &row.timestamp));
        },
    };
    let change_type = match ChangeType::parse(row.change_type.as_str()) {
        Some(change_type) => change_type,
        None => {
            return Err(failure("invalid change type: ", &row.change_type));
        },
    };
    let session_id = match session_id {
        Some(session_id) => session_id,
        None => {
            return Err(failure("invalid identifier: ", &row.session_id));
        },
    };
    let metadata = match metadata {
        Some(entries) => entries,
        None => {
            let none: Vec<(String, String)> = Vec::new();
            assert(none.deep_view() =~= Seq::empty());
            none
        },
    };
    Ok(
        Change {
            id,
            timestamp,
            change_type,
            path: row.path.clone(),
            old_path: clone_optional_text(&row.old_path),
            content_before: clone_optional_bytes(&row.content_before),
            content_after: clone_optional_bytes(&row.content_after),
            content_hash_before: clone_optional_text(&row.content_hash_before),
            content_hash_after: clone_optional_text(&row.content_hash_after),
            agent_id: clone_optional_text(&row.agent_id),
            metadata,
            session_id,
        },
    )
}

/// The change that a row stands for.
pub fn change_from_row(row: &ChangeRow) -> (change: Result<Change, Error>)
    ensures
        change_result(change) == change_of_row(
            *row,
            parsed_id(row.id@),
            parsed_id(row.session_id@),
            parsed_rfc3339(row.timestamp@),
            entries_of_json(row.metadata@),
        ),
{
    assemble_change(
        row,
        parse_id(row.id.as_str()),
        parse_id(row.session_id.as_str()),
        parse_rfc3339(row.timestamp.as_str()),
        decode_entries(row.metadata.as_str()),
    )
}

/// The identifiers that a list of texts denotes, given what each text was
/// read as.
pub fn assemble_ids(texts: &Vec<String>, read: &Vec<Option<u128>>) -> (ids: Result<
    Vec<u128>,
    Error,
>)
    requires
        read.len() == texts.len(),
    ensures
        ids_result(ids) == ids_of(texts.deep_view(), read@),
{
    let ghost all = texts.deep_view();
    let mut ids: Vec<u128> = Vec::new();
    let mut i: usize = 0;
    assert(all.take(0) =~= Seq::empty());
    assert(read@.take(0) =~= Seq::empty());
    while i < texts.len()
        invariant
            i <= texts.len(),
            read.len() == texts.len(),
            all == texts.deep_view(),
            ids_of(all.take(i as int), read@.take(i as int)) == Ok::<Seq<u128>, ErrorView>(ids@),
        decreases texts.len() - i,
    {
        proof {
            assert(all.take(i + 1).drop_last() =~= all.take(i as int));
            assert(read@.take(i + 1).drop_last() =~= read@.take(i as int));
            assert(all.take(i + 1).last() == texts@[i as int]@);
            assert(read@.take(i + 1).last() == read@[i as int]);
        }
        match read[i] {
            Some(id) => {
                ids.push(id);
            },
            None => {
                proof {
                    failure_stays(all, read@, i + 1);
                }
                return Err(failure("invalid identifier: ", &texts[i]));
            },
        }
        i += 1;
    }
    assert(all.take(i as int) =~= all);
    assert(read@.take(i as int) =~= read@);
    Ok(ids)
}

proof fn failure_stays(texts: Seq<Seq<char>>, read: Seq<Option<u128>>, n: int)
    requires
        texts.len() == read.len(),
        0 <= n <= texts.len(),
        ids_of(texts.take(n), read.take(n)) is Err,
    ensures
        ids_of(texts, read) == ids_of(texts.take(n), read.take(n)),
    decreases texts.len() - n,
{
    if n < texts.len() {
        assert(texts.take(n + 1).drop_last() =~= texts.take(n));
        assert(read.take(n + 1).drop_last() =~= read.take(n));
        failure_stays(texts, read, n + 1);
    } else {
        assert(texts.take(n) =~= texts);
        assert(read.take(n) =~= read);
    }
}

/// The identifiers of the changes of a commit, from the rows that list
/// them.
pub fn get_changes_for_commit(change_ids: &Vec<String>) -> (ids: Result<Vec<u128>, Error>)
    ensures
        ids_result(ids) == ids_of(change_ids.deep_view(), read_ids(change_ids.deep_view())),
{
    let mut read: Vec<Option<u128>> = Vec::new();
    let mut i: usize = 0;
    while i < change_ids.len()
        invariant
            i <= change_ids.len(),
            read.len() == i,
            forall|k: int| 0 <= k < i ==> #[trigger] read@[k] == parsed_id(change_ids@[k]@),
        decreases change_ids.len() - i,
    {
        read.push(parse_id(change_ids[i].as_str()));
        i += 1;
    }
    assert(read@ =~= read_ids(change_ids.deep_view()));
    assemble_ids(change_ids, &read)
}

/// The commit that a row and its changes stand for, given what its
/// identifiers, its time and its metadata were read as.
pub fn assemble_commit(
    row: &CommitRow,
    id: Option<u128>,
    session_id: Option<u128>,
    parent: Option<u128>,
    timestamp: Option<i64>,
    metadata: Option<Vec<(String, String)>>,
    changes: Vec<u128>,
) -> (commit: Result<Commit, Error>)
    ensures
        commit_result(commit) == commit_of_row(
            *row,
            id,
            session_id,
            parent,
            timestamp,
            metadata.deep_view(),
            changes@,
        ),
{
    let id = match id {
        Some(id) => id,
        None => {
            return Err(failure("invalid identifier: ", &row.id));
        },
    };
    let timestamp = match timestamp {
        Some(timestamp) => timestamp,
        None => {
            return Err(failure("invalid timestamp: ", &row.timestamp));
        },
    };
    let session_id = match session_id {
        Some(session_id) => session_id,
        None => {
            return Err(failure("invalid identifier: ", &row.session_id));
        },
    };
    let metadata = match metadata {
        Some(entries) => entries,
        None => {
            let none: Vec<(String, String)> = Vec::new();
            assert(none.deep_view() =~= Seq::empty());
            none
        },
    };
    Ok(
        Commit {
            id,
            parent,
            timestamp,
            message: row.message.clone(),
            agent_id: row.agent_id.clone(),
            changes,
            session_id,
            metadata,
        },
    )
}

/// The commit that a row and the rows of its changes stand for. The
/// changes are read first: an unreadable one is the failure.
pub fn commit_from_row(row: &CommitRow, change_ids: &Vec<String>) -> (commit: Result<
    Commit,
    Error,
>)
    ensures
        commit_result(commit) == match ids_of(
            change_ids.deep_view(),
            read_ids(change_ids.deep_view()),
        ) {
            Err(error) => Err(error),
            Ok(changes) => commit_of_row(
                *row,
                parsed_id(row.id@),
                parsed_id(row.session_id@),
                optional_id(row.parent),
                parsed_rfc3339(row.timestamp@),
                entries_of_json(row.metadata@),
                changes,
            ),
        },
{
    let changes = match get_changes_for_commit(change_ids) {
        Ok(changes) => changes,
        Err(error) => {
            return Err(error);
        },
    };
    assemble_commit(
        row,
        parse_id(row.id.as_str()),
        parse_id(row.session_id.as_str()),
        parse_optional_id(&row.parent),
        parse_rfc3339(row.timestamp.as_str()),
        decode_entries(row.metadata.as_str()),
        changes,
    )
}

/// The row of a session, with the given JSON text for its patterns.
pub fn session_row(session: &Session, ignore_patterns: String) -> (row: SessionRow)
    ensures
        is_session_row(row, session@, ignore_patterns@),
{
    SessionRow {
        id: format_id(session.id),
        root_path: session.root_path.clone(),
        started: format_rfc3339(session.started),
        ended: match session.ended {
            Some(ended) => Some(format_rfc3339(ended)),
            None => None,
        },
        active: if session.active {
            1
        } else {
            0
        },
        ignore_patterns,
    }
}

/// The row of a session. This never fails.
pub fn session_to_row(session: &Session) -> (row: Result<SessionRow, Error>)
    ensures
        row matches Ok(row) && is_session_row(
            row,
            session@,
            json_of_texts(session@.ignore_patterns),
        ),
{
    match encode_texts(&session.ignore_patterns) {
        Ok(patterns) => Ok(session_row(session, patterns)),
        Err(detail) => Err(Error::Serialization(detail)),
    }
}

/// The row of a change, with the given JSON text for its metadata.
pub fn change_row(change: &Change, metadata: String) -> (row: ChangeRow)
    ensures
        is_change_row(row, change@, metadata@),
{
    ChangeRow {
        id: format_id(change.id),
        session_id: format_id(change.session_id),
        timestamp: format_rfc3339(change.timestamp),
        change_type: String::from_str(change.change_type.as_str()),
        path: change.path.clone(),
        old_path: clone_optional_text(&change.old_path),
        content_before: clone_optional_bytes(&change.content_before),
        content_after: clone_optional_bytes(&change.content_after),
        content_hash_before: clone_optional_text(&change.content_hash_before),
        content_hash_after: clone_optional_text(&change.content_hash_after),
        agent_id: clone_optional_text(&change.agent_id),
        metadata,
    }
}

/// The row of a change. Of the entries of its metadata that carry one key
/// the first is stored. This never fails.
pub fn change_to_row(change: &Change) -> (row: Result<ChangeRow, Error>)
    ensures
        row matches Ok(row) && is_change_row(
            row,
            change@,
            json_of_entries(first_per_key(change@.metadata)),
        ),
        unique_keys(change@.metadata) ==> (row matches Ok(row) && is_change_row(
            row,
            change@,
            json_of_entries(change@.metadata),
        )),
{
    proof {
        if unique_keys(change@.metadata) {
            unique_entries_stay(change@.metadata);
        }
    }
    match encode_entries(&without_repeated_keys(&change.metadata)) {
        Ok(metadata) => Ok(change_row(change, metadata)),
        Err(detail) => Err(Error::Serialization(detail)),
    }
}

/// The row of a commit, with the given JSON text for its metadata.
pub fn commit_row(commit: &Commit, metadata: String) -> (row: CommitRow)
    ensures
        is_commit_row(row, commit@, metadata@),
{
    CommitRow {
        id: format_id(commit.id),
        session_id: format_id(commit.session_id),
        parent: match commit.parent {
            Some(parent) => Some(format_id(parent)),
            None => None,
        },
        timestamp: format_rfc3339(commit.timestamp),
        message: commit.message.clone(),
        agent_id: commit.agent_id.clone(),
        metadata,
    }
}

/// The row of a commit. Of the entries of its metadata that carry one key
/// the first is stored. This never fails.
pub fn commit_to_row(commit: &Commit) -> (row: Result<CommitRow, Error>)
    ensures
        row matches Ok(row) && is_commit_row(
            row,
            commit@,
            json_of_entries(first_per_key(commit@.metadata)),
        ),
        unique_keys(commit@.metadata) ==> (row matches Ok(row) && is_commit_row(
            row,
            commit@,
            json_of_entries(commit@.metadata),
        )),
{
    proof {
        if unique_keys(commit@.metadata) {
            unique_entries_stay(commit@.metadata);
        }
    }
    match encode_entries(&without_repeated_keys(&commit.metadata)) {
        Ok(metadata) => Ok(commit_row(commit, metadata)),
        Err(detail) => Err(Error::Serialization(detail)),
    }
}

/// The rows that list the changes of a commit: the text of each change's
/// identifier, in the commit's order.
pub fn membership_rows(commit: &Commit) -> (rows: Vec<String>)
    ensures
        rows.len() == commit.changes.len(),
        forall|i: int| 0 <= i < rows.len() ==> (#[trigger] rows[i])@ == canonical_text(
            commit@.changes[i],
        ),
{
    let mut rows: Vec<String> = Vec::new();
    let mut i: usize = 0;
    while i < commit.changes.len()
        invariant
            i <= commit.changes.len(),
            rows.len() == i,
            forall|k: int| 0 <= k < i ==> (#[trigger] rows[k])@ == canonical_text(
                commit@.changes[k],
            ),
        decreases commit.changes.len() - i,
    {
        rows.push(format_id(commit.changes[i]));
        i += 1;
    }
    rows
}

/// A commit as it is stored: its row, and the rows that list its changes.
#[derive(Debug, PartialEq, Eq)]
pub struct StoredCommit {
    pub row: CommitRow,
    pub change_ids: Vec<String>,
}

/// The session that a row stands for, or the failure of reading it.
pub open spec fn session_in(row: SessionRow) -> Result<SessionView, ErrorView> {
    session_of(
        row,
        parsed_id(row.id@),
        parsed_rfc3339(row.started@),
        optional_time(row.ended),
        texts_of_json(row.ignore_patterns@),
    )
}

/// The change that a row stands for, or the failure of reading it.
pub open spec fn change_in(row: ChangeRow) -> Result<ChangeView, ErrorView> {
    change_of_row(
        row,
        parsed_id(row.id@),
        parsed_id(row.session_id@),
        parsed_rfc3339(row.timestamp@),
        entries_of_json(row.metadata@),
    )
}

/// The commit that stored rows stand for, or the failure of reading them.
pub open spec fn commit_in(stored: StoredCommit) -> Result<CommitView, ErrorView> {
    match ids_of(stored.change_ids.deep_view(), read_ids(stored.change_ids.deep_view())) {
        Err(error) => Err(error),
        Ok(changes) => commit_of_row(
            stored.row,
            parsed_id(stored.row.id@),
            parsed_id(stored.row.session_id@),
            optional_id(stored.row.parent),
            parsed_rfc3339(stored.row.timestamp@),
            entries_of_json(stored.row.metadata@),
            changes,
        ),
    }
}

/// A store after the sessions of some rows were created in it, one after
/// the other; the first row that cannot be read, or whose session the
/// store refuses, is the failure.
pub open spec fn with_session_rows(store: StorageView, rows: Seq<SessionRow>) -> Result<
    StorageView,
    ErrorView,
>
    decreases rows.len(),
{
    if rows.len() == 0 {
        Ok(store)
    } else {
        match with_session_rows(store, rows.drop_last()) {
            Err(error) => Err(error),
            Ok(before) => match session_in(rows.last()) {
                Err(error) => Err(error),
                Ok(session) => match before.session_refusal(session) {
                    Some(error) => Err(error),
                    None => Ok(before.with_session(session)),
                },
            },
        }
    }
}

/// A store after the changes of some rows were recorded in it, one after
/// the other; the first row that cannot be read, or whose change the store
/// refuses, is the failure.
pub open spec fn with_change_rows(store: StorageView, rows: Seq<ChangeRow>) -> Result<
    StorageView,
    ErrorView,
>
    decreases rows.len(),
{
    if rows.len() == 0 {
        Ok(store)
    } else {
        match with_change_rows(store, rows.drop_last()) {
            Err(error) => Err(error),
            Ok(before) => match change_in(rows.last()) {
                Err(error) => Err(error),
                Ok(change) => match before.change_refusal(change) {
                    Some(error) => Err(error),
                    None => Ok(before.with_change(change)),
                },
            },
        }
    }
}

/// A store after the commits of some stored rows were made in it, one
/// after the other; the first that cannot be read, or that the store
/// refuses, is the failure.
pub open spec fn with_commit_rows(store: StorageView, rows: Seq<StoredCommit>) -> Result<
    StorageView,
    ErrorView,
>
    decreases rows.len(),
{
    if rows.len() == 0 {
        Ok(store)
    } else {
        match with_commit_rows(store, rows.drop_last()) {
            Err(error) => Err(error),
            Ok(before) => match commit_in(rows.last()) {
                Err(error) => Err(error),
                Ok(commit) => match before.commit_refusal(commit) {
                    Some(error) => Err(error),
                    None => Ok(before.with_commit(commit)),
                },
            },
        }
    }
}

/// The store that stored rows stand for: the sessions first, then the
/// changes, then the commits, each kind in the order of its rows.
pub open spec fn restored(
    sessions: Seq<SessionRow>,
    changes: Seq<ChangeRow>,
    commits: Seq<StoredCommit>,
) -> Result<StorageView, ErrorView> {
    match with_session_rows(StorageView::empty(), sessions) {
        Err(error) => Err(error),
        Ok(store) => match with_change_rows(store, changes) {
            Err(error) => Err(error),
            Ok(store) => with_commit_rows(store, commits),
        },
    }
}

/// The view of a store that was restored, or of the failure.
pub open spec fn storage_result(result: Result<Storage, Error>) -> Result<StorageView, ErrorView> {
    match result {
        Ok(storage) => Ok(storage@),
        Err(error) => Err(error@),
    }
}

proof fn session_failure_stays(store: StorageView, rows: Seq<SessionRow>, n: int)
    requires
        0 <= n <= rows.len(),
        with_session_rows(store, rows.take(n)) is Err,
    ensures
        with_session_rows(store, rows) == with_session_rows(store, rows.take(n)),
    decreases rows.len() - n,
{
    if n < rows.len() {
        assert(rows.take(n + 1).drop_last() =~= rows.take(n));
        session_failure_stays(store, rows, n + 1);
    } else {
        assert(rows.take(n) =~= rows);
    }
}

proof fn change_failure_stays(store: StorageView, rows: Seq<ChangeRow>, n: int)
    requires
        0 <= n <= rows.len(),
        with_change_rows(store, rows.take(n)) is Err,
    ensures
        with_change_rows(store, rows) == with_change_rows(store, rows.take(n)),
    decreases rows.len() - n,
{
    if n < rows.len() {
        assert(rows.take(n + 1).drop_last() =~= rows.take(n));
        change_failure_stays(store, rows, n + 1);
    } else {
        assert(rows.take(n) =~= rows);
    }
}

proof fn commit_failure_stays(store: StorageView, rows: Seq<StoredCommit>, n: int)
    requires
        0 <= n <= rows.len(),
        with_commit_rows(store, rows.take(n)) is Err,
    ensures
        with_commit_rows(store, rows) == with_commit_rows(store, rows.take(n)),
    decreases rows.len() - n,
{
    if n < rows.len() {
        assert(rows.take(n + 1).drop_last() =~= rows.take(n));
        commit_failure_stays(store, rows, n + 1);
    } else {
        assert(rows.take(n) =~= rows);
    }
}

/// Creates in a store the sessions of some rows, one after the other,
/// until the first failure.
pub fn restore_sessions(storage: &mut Storage, rows: &Vec<SessionRow>) -> (done: Result<(), Error>)
    requires
        old(storage)@.wf(),
    ensures
        final(storage)@.wf(),
        match done {
            Ok(()) => with_session_rows(old(storage)@, rows@) == Ok::<StorageView, ErrorView>(
                final(storage)@,
            ),
            Err(error) => with_session_rows(old(storage)@, rows@) == Err::<
                StorageView,
                ErrorView,
            >(error@),
        },
{
    let ghost start = storage@;
    let mut i: usize = 0;
    assert(rows@.take(0) =~= Seq::empty());
    while i < rows.len()
        invariant
            i <= rows.len(),
            start == old(storage)@,
            storage@.wf(),
            with_session_rows(start, rows@.take(i as int)) == Ok::<StorageView, ErrorView>(
                storage@,
            ),
        decreases rows.len() - i,
    {
        proof {
            assert(rows@.take(i + 1).drop_last() =~= rows@.take(i as int));
            assert(rows@.take(i + 1).last() == rows@[i as int]);
        }
        let outcome = match session_from_row(&rows[i]) {
            Ok(session) => storage.create_session(&session),
            Err(error) => Err(error),
        };
        if let Err(error) = outcome {
            proof {
                session_failure_stays(start, rows@, i + 1);
            }
            return Err(error);
        }
        i += 1;
    }
    assert(rows@.take(i as int) =~= rows@);
    Ok(())
}

/// Records in a store the changes of some rows, one after the other, until
/// the first failure.
pub fn restore_changes(storage: &mut Storage, rows: &Vec<ChangeRow>) -> (done: Result<(), Error>)
    requires
        old(storage)@.wf(),
    ensures
        final(storage)@.wf(),
        match done {
            Ok(()) => with_change_rows(old(storage)@, rows@) == Ok::<StorageView, ErrorView>(
                final(storage)@,
            ),
            Err(error) => with_change_rows(old(storage)@, rows@) == Err::<StorageView, ErrorView>(
                error@,
            ),
        },
{
    let ghost start = storage@;
    let mut i: usize = 0;
    assert(rows@.take(0) =~= Seq::empty());
    while i < rows.len()
        invariant
            i <= rows.len(),
            start == old(storage)@,
            storage@.wf(),
            with_change_rows(start, rows@.take(i as int)) == Ok::<StorageView, ErrorView>(
                storage@,
            ),
        decreases rows.len() - i,
    {
        proof {
            assert(rows@.take(i + 1).drop_last() =~= rows@.take(i as int));
            assert(rows@.take(i + 1).last() == rows@[i as int]);
        }
        let outcome = match change_from_row(&rows[i]) {
            Ok(change) => storage.create_change(&change),
            Err(error) => Err(error),
        };
        if let Err(error) = outcome {
            proof {
                change_failure_stays(start, rows@, i + 1);
            }
            return Err(error);
        }
        i += 1;
    }
    assert(rows@.take(i as int) =~= rows@);
    Ok(())
}

/// Makes in a store the commits of some stored rows, one after the other,
/// until the first failure.
pub fn restore_commits(storage: &mut Storage, rows: &Vec<StoredCommit>) -> (done: Result<
    (),
    Error,
>)
    requires
        old(storage)@.wf(),
    ensures
        final(storage)@.wf(),
        match done {
            Ok(()) => with_commit_rows(old(storage)@, rows@) == Ok::<StorageView, ErrorView>(
                final(storage)@,
            ),
            Err(error) => with_commit_rows(old(storage)@, rows@) == Err::<StorageView, ErrorView>(
                error@,
            ),
        },
{
    let ghost start = storage@;
    let mut i: usize = 0;
    assert(rows@.take(0) =~= Seq::empty());
    while i < rows.len()
        invariant
            i <= rows.len(),
            start == old(storage)@,
            storage@.wf(),
            with_commit_rows(start, rows@.take(i as int)) == Ok::<StorageView, ErrorView>(
                storage@,
            ),
        decreases rows.len() - i,
    {
        proof {
            assert(rows@.take(i + 1).drop_last() =~= rows@.take(i as int));
            assert(rows@.take(i + 1).last() == rows@[i as int]);
        }
        let outcome = match commit_from_row(&rows[i].row, &rows[i].change_ids) {
            Ok(commit) => storage.create_commit(&commit),
            Err(error) => Err(error),
        };
        if let Err(error) = outcome {
            proof {
                commit_failure_stays(start, rows@, i + 1);
            }
            return Err(error);
        }
        i += 1;
    }
    assert(rows@.take(i as int) =~= rows@);
    Ok(())
}

/// The store that stored rows stand for. Rows that cannot be read, or that
/// break the rules of the store, are a failure: what comes back is always
/// well formed.
pub fn restore(
    sessions: &Vec<SessionRow>,
    changes: &Vec<ChangeRow>,
    commits: &Vec<StoredCommit>,
) -> (storage: Result<Storage, Error>)
    ensures
        storage_result(storage) == restored(sessions@, changes@, commits@),
        storage matches Ok(storage) ==> storage@.wf(),
{
    let mut storage = match Storage::in_memory() {
        Ok(storage) => storage,
        Err(error) => {
            return Err(error);
        },
    };
    match restore_sessions(&mut storage, sessions) {
        Ok(()) => {},
        Err(error) => {
            return Err(error);
        },
    }
    match restore_changes(&mut storage, changes) {
        Ok(()) => {},
        Err(error) => {
            return Err(error);
        },
    }
    match restore_commits(&mut storage, commits) {
        Ok(()) => {},
        Err(error) => {
            return Err(error);
        },
    }
    Ok(storage)
}

} // verus!
