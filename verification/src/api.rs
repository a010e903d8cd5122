//! The operations that the engine offers to its callers: each works on the
//! active session of a store.

use crate::clock::now;
use crate::digest::content_hash;
use crate::error::{Error, ErrorView};
use crate::ident::{canonical_text, format_id, parse_id, parsed_id, random_id};
use crate::models::{
    Change, ChangeType, ChangeView, Commit, CommitInfo, CommitView, Session, SessionView,
};
use crate::rows::read_ids;
use crate::storage::{active_session_is_unique, change_views, info_views, Storage, StorageView};
use vstd::prelude::*;
use vstd::string::*;
use vstd::utf8::encode_utf8;

verus! {

/// Why a request was not served.
#[derive(Debug, PartialEq, Eq)]
pub enum Failure {
    /// What the request is about is not there: no session is active, or no
    /// commit has the identifier asked for.
    NotFound(Error),
    /// The request itself is malformed.
    BadRequest(String),
    /// The store refused the request.
    Storage(Error),
}

/// What a [`Failure`] is in contracts.
pub enum FailureView {
    NotFound(ErrorView),
    BadRequest(Seq<char>),
    Storage(ErrorView),
}

impl View for Failure {
    type V = FailureView;

    open spec fn view(&self) -> FailureView {
        match self {
            Failure::NotFound(error) => FailureView::NotFound(error@),
            Failure::BadRequest(detail) => FailureView::BadRequest(detail@),
            Failure::Storage(error) => FailureView::Storage(error@),
        }
    }
}

/// The bytes of an optional text.
pub open spec fn optional_bytes(text: Option<Seq<char>>) -> Option<Seq<u8>> {
    match text {
        Some(text) => Some(encode_utf8(text)),
        None => None,
    }
}

/// The hash of an optional content.
pub open spec fn optional_hash(content: Option<Seq<u8>>) -> Option<Seq<char>> {
    match content {
        Some(content) => Some(content_hash(content)),
        None => None,
    }
}

/// The change that a submission asks for: the kind and the path, each
/// content that was given as bytes with its hash, and the agent.
pub open spec fn submitted_change(
    change_type: ChangeType,
    path: Seq<char>,
    content_before: Option<Seq<char>>,
    content_after: Option<Seq<char>>,
    agent_id: Option<Seq<char>>,
    session_id: u128,
    id: u128,
    timestamp: i64,
) -> ChangeView {
    ChangeView {
        content_before: optional_bytes(content_before),
        content_hash_before: optional_hash(optional_bytes(content_before)),
        content_after: optional_bytes(content_after),
        content_hash_after: optional_hash(optional_bytes(content_after)),
        agent_id,
        ..ChangeView::bare(id, timestamp, change_type, path, session_id)
    }
}

/// How a submission ends: without an active session nothing is found; a
/// kind that is no kind is a malformed request; else the store decides.
pub open spec fn submission(
    store: StorageView,
    change_type: Seq<char>,
    path: Seq<char>,
    content_before: Option<Seq<char>>,
    content_after: Option<Seq<char>>,
    agent_id: Option<Seq<char>>,
    id: u128,
    timestamp: i64,
) -> Result<ChangeView, FailureView> {
    if !store.has_active_session() {
        Err(FailureView::NotFound(ErrorView::NoActiveSession))
    } else if ChangeType::named(change_type) is None {
        Err(FailureView::BadRequest("Invalid change type"@))
    } else {
        let change = submitted_change(
            ChangeType::named(change_type)->0,
            path,
            content_before,
            content_after,
            agent_id,
            store.active_session().id,
            id,
            timestamp,
        );
        match store.change_refusal(change) {
            Some(error) => Err(FailureView::Storage(error)),
            None => Ok(change),
        }
    }
}

/// The identifiers among what a list of texts was read as, in order; what
/// could not be read is passed over.
pub open spec fn readable(read: Seq<Option<u128>>) -> Seq<u128>
    decreases read.len(),
{
    if read.len() == 0 {
        Seq::empty()
    } else {
        match read.last() {
            Some(id) => readable(read.drop_last()).push(id),
            None => readable(read.drop_last()),
        }
    }
}

/// How the making of a commit ends: without an active session nothing is
/// found; else the store decides.
pub open spec fn commitment(
    store: StorageView,
    message: Seq<char>,
    agent_id: Seq<char>,
    changes: Seq<u128>,
    id: u128,
    timestamp: i64,
) -> Result<CommitView, FailureView> {
    if !store.has_active_session() {
        Err(FailureView::NotFound(ErrorView::NoActiveSession))
    } else {
        let commit = CommitView::bare(
            id,
            timestamp,
            message,
            agent_id,
            changes,
            store.active_session().id,
        );
        match store.commit_refusal(commit) {
            Some(error) => Err(FailureView::Storage(error)),
            None => Ok(commit),
        }
    }
}

/// How the fetching of a commit ends, given what the identifier was read
/// as: an unreadable identifier is a malformed request.
pub open spec fn fetched(store: StorageView, id: Option<u128>) -> Result<CommitView, FailureView> {
    match id {
        None => Err(FailureView::BadRequest("Invalid UUID"@)),
        Some(id) => if store.has_commit(id) {
            Ok(store.commit(id))
        } else {
            Err(FailureView::NotFound(ErrorView::CommitNotFound(canonical_text(id))))
        },
    }
}

/// The view of the outcome of a request for a change.
pub open spec fn change_outcome(result: Result<Change, Failure>) -> Result<
    ChangeView,
    FailureView,
> {
    match result {
        Ok(change) => Ok(change@),
        Err(failure) => Err(failure@),
    }
}

/// The view of the outcome of a request for a commit.
pub open spec fn commit_outcome(result: Result<Commit, Failure>) -> Result<
    CommitView,
    FailureView,
> {
    match result {
        Ok(commit) => Ok(commit@),
        Err(failure) => Err(failure@),
    }
}

fn bytes_of(text: Option<String>) -> (bytes: Option<Vec<u8>>)
    ensures
        bytes.deep_view() == optional_bytes(text.deep_view()),
{
    match text {
        Some(text) => {
            let bytes = text.as_str().as_bytes_vec();
            assert(bytes.deep_view() =~= bytes@);
            Some(bytes)
        },
        None => None,
    }
}

/// The liveness signal.
pub fn health_check() -> (status: &'static str)
    ensures
        status@ == "ok"@,
{
    "ok"
}

/// The active session.
pub fn get_active_session(storage: &Storage) -> (session: Result<Session, Failure>)
    requires
        storage@.wf(),
    ensures
        match session {
            Ok(session) => storage@.has_active_session() && session@
                == storage@.active_session(),
            Err(failure) => !storage@.has_active_session() && failure@ == FailureView::NotFound(
                ErrorView::NoActiveSession,
            ),
        },
{
    match storage.get_active_session() {
        Ok(session) => Ok(session),
        Err(error) => Err(Failure::NotFound(error)),
    }
}

/// The uncommitted changes of the active session, newest first.
pub fn get_uncommitted_changes(storage: &Storage) -> (listing: Result<Vec<Change>, Failure>)
    requires
        storage@.wf(),
    ensures
        match listing {
            Ok(changes) => storage@.has_active_session() && change_views(changes@)
                == storage@.uncommitted_changes(storage@.active_session().id),
            Err(failure) => !storage@.has_active_session() && failure@ == FailureView::NotFound(
                ErrorView::NoActiveSession,
            ),
        },
{
    let session = match storage.get_active_session() {
        Ok(session) => session,
        Err(error) => {
            return Err(Failure::NotFound(error));
        },
    };
    match storage.get_uncommitted_changes(&session.id) {
        Ok(changes) => Ok(changes),
        Err(error) => Err(Failure::Storage(error)),
    }
}

/// The commits of the active session, newest first.
pub fn get_commits(storage: &Storage) -> (listing: Result<Vec<CommitInfo>, Failure>)
    requires
        storage@.wf(),
    ensures
        match listing {
            Ok(infos) => storage@.has_active_session() && info_views(infos@)
                == storage@.commits_of(storage@.active_session().id),
            Err(failure) => !storage@.has_active_session() && failure@ == FailureView::NotFound(
                ErrorView::NoActiveSession,
            ),
        },
{
    let session = match storage.get_active_session() {
        Ok(session) => session,
        Err(error) => {
            return Err(Failure::NotFound(error));
        },
    };
    match storage.get_commits_for_session(&session.id) {
        Ok(infos) => Ok(infos),
        Err(error) => Err(Failure::Storage(error)),
    }
}

/// Records a submitted change under a given identifier and timestamp.
pub fn create_change_as(
    storage: &mut Storage,
    id: u128,
    timestamp: i64,
    change_type: &str,
    path: String,
    content_before: Option<String>,
    content_after: Option<String>,
    agent_id: Option<String>,
) -> (change: Result<Change, Failure>)
    requires
        old(storage)@.wf(),
    ensures
        final(storage)@.wf(),
        change_outcome(change) == submission(
            old(storage)@,
            change_type@,
            path@,
            content_before.deep_view(),
            content_after.deep_view(),
            agent_id.deep_view(),
            id,
            timestamp,
        ),
        final(storage)@ == match change {
            Ok(change) => old(storage)@.with_change(change@),
            Err(_) => old(storage)@,
        },
{
    let session = match storage.get_active_session() {
        Ok(session) => session,
        Err(error) => {
            return Err(Failure::NotFound(error));
        },
    };
    let kind = match ChangeType::parse(change_type) {
        Some(kind) => kind,
        None => {
            return Err(Failure::BadRequest(String::from_str("Invalid change type")));
        },
    };
    let mut change = Change::from_parts(id, timestamp, kind, path, session.id);
    let ghost before = content_before.deep_view();
    let ghost after = content_after.deep_view();
    match bytes_of(content_before) {
        Some(bytes) => {
            assert(bytes.deep_view() =~= bytes@);
            change = change.with_content_before(bytes);
        },
        None => {},
    }
    match bytes_of(content_after) {
        Some(bytes) => {
            assert(bytes.deep_view() =~= bytes@);
            change = change.with_content_after(bytes);
        },
        None => {},
    }
    match agent_id {
        Some(agent_id) => {
            change = change.with_agent_id(agent_id);
        },
        None => {},
    }
    assert(change@ == submitted_change(
        kind,
        path@,
        before,
        after,
        agent_id.deep_view(),
        session.id,
        id,
        timestamp,
    ));
    match storage.create_change(&change) {
        Ok(()) => Ok(change),
        Err(error) => Err(Failure::Storage(error)),
    }
}

/// Records a submitted change in the active session, under a fresh
/// identifier and the current time. The change that comes back is the one
/// that was recorded.
pub fn create_change(
    storage: &mut Storage,
    change_type: &str,
    path: String,
    content_before: Option<String>,
    content_after: Option<String>,
    agent_id: Option<String>,
) -> (change: Result<Change, Failure>)
    requires
        old(storage)@.wf(),
    ensures
        final(storage)@.wf(),
        match change {
            Ok(change) => change_outcome(Ok(change)) == submission(
                old(storage)@,
                change_type@,
                path@,
                content_before.deep_view(),
                content_after.deep_view(),
                agent_id.deep_view(),
                change.id,
                change.timestamp,
            ) && final(storage)@ == old(storage)@.with_change(change@),
            Err(failure) => {
                &&& final(storage)@ == old(storage)@
                &&& failure@ is NotFound <==> !old(storage)@.has_active_session()
                &&& failure@ is BadRequest <==> old(storage)@.has_active_session()
                    && ChangeType::named(change_type@) is None
            },
        },
{
    create_change_as(
        storage,
        random_id(),
        now(),
        change_type,
        path,
        content_before,
        content_after,
        agent_id,
    )
}

/// The identifiers among what a list of texts was read as.
pub fn keep_readable(read: &Vec<Option<u128>>) -> (ids: Vec<u128>)
    ensures
        ids@ == readable(read@),
{
    let mut ids: Vec<u128> = Vec::new();
    let mut i: usize = 0;
    assert(read@.take(0) =~= Seq::empty());
    while i < read.len()
        invariant
            i <= read.len(),
            ids@ == readable(read@.take(i as int)),
        decreases read.len() - i,
    {
        proof {
            assert(read@.take(i + 1).drop_last() =~= read@.take(i as int));
            assert(read@.take(i + 1).last() == read@[i as int]);
        }
        match read[i] {
            Some(id) => {
                ids.push(id);
            },
            None => {},
        }
        i += 1;
    }
    assert(read@.take(i as int) =~= read@);
    ids
}

/// The identifiers that a list of texts denotes; a text that denotes none
/// is passed over.
pub fn parse_change_ids(change_ids: &Vec<String>) -> (ids: Vec<u128>)
    ensures
        ids@ == readable(read_ids(change_ids.deep_view())),
{
    let mut read: Vec<Option<u128>> = Vec::new();
    let mut i: usize = 0;
    while i < change_ids.len()
        invariant
            i <= change_ids.len(),
            read.len() == i,
            forall|k: int| 0 <= k < i ==> #[trigger] read@[k] == parsed_id(change_ids@[k]@),
        decreases change_ids.len() - i,
    {
        read.push(parse_id(change_ids[i].as_str()));
        i += 1;
    }
    assert(read@ =~= read_ids(change_ids.deep_view()));
    keep_readable(&read)
}

/// Makes a commit of the given changes in the active session, under a
/// given identifier and timestamp.
pub fn create_commit_as(
    storage: &mut Storage,
    id: u128,
    timestamp: i64,
    message: String,
    agent_id: String,
    changes: Vec<u128>,
) -> (commit: Result<Commit, Failure>)
    requires
        old(storage)@.wf(),
    ensures
        final(storage)@.wf(),
        commit_outcome(commit) == commitment(
            old(storage)@,
            message@,
            agent_id@,
            changes@,
            id,
            timestamp,
        ),
        final(storage)@ == match commit {
            Ok(commit) => old(storage)@.with_commit(commit@),
            Err(_) => old(storage)@,
        },
{
    let session = match storage.get_active_session() {
        Ok(session) => session,
        Err(error) => {
            return Err(Failure::NotFound(error));
        },
    };
    let commit = Commit::from_parts(id, timestamp, message, agent_id, changes, session.id);
    match storage.create_commit(&commit) {
        Ok(()) => Ok(commit),
        Err(error) => Err(Failure::Storage(error)),
    }
}

/// Makes a commit in the active session of the changes whose identifiers
/// are given as text, under a fresh identifier and the current time.
/// A text that denotes no identifier is passed over.
pub fn create_commit(
    storage: &mut Storage,
    message: String,
    agent_id: String,
    change_ids: &Vec<String>,
) -> (commit: Result<Commit, Failure>)
    requires
        old(storage)@.wf(),
    ensures
        final(storage)@.wf(),
        match commit {
            Ok(commit) => commit_outcome(Ok(commit)) == commitment(
                old(storage)@,
                message@,
                agent_id@,
                readable(read_ids(change_ids.deep_view())),
                commit.id,
                commit.timestamp,
            ) && final(storage)@ == old(storage)@.with_commit(commit@),
            Err(failure) => {
                &&& final(storage)@ == old(storage)@
                &&& failure@ is NotFound <==> !old(storage)@.has_active_session()
                &&& !(failure@ is BadRequest)
            },
        },
{
    let changes = parse_change_ids(change_ids);
    create_commit_as(storage, random_id(), now(), message, agent_id, changes)
}

/// The commit with an identifier, given what the identifier was read as.
pub fn fetch_commit(storage: &Storage, id: Option<u128>) -> (commit: Result<Commit, Failure>)
    requires
        storage@.wf(),
    ensures
        commit_outcome(commit) == fetched(storage@, id),
{
    match id {
        None => Err(Failure::BadRequest(String::from_str("Invalid UUID"))),
        Some(id) => match storage.get_commit(&id) {
            Ok(commit) => Ok(commit),
            Err(error) => Err(Failure::NotFound(error)),
        },
    }
}

/// The commit whose identifier is given as text.
pub fn get_commit(storage: &Storage, id: &str) -> (commit: Result<Commit, Failure>)
    requires
        storage@.wf(),
    ensures
        commit_outcome(commit) == fetched(storage@, parsed_id(id@)),
{
    fetch_commit(storage, parse_id(id))
}

/// The store after its active session, if it has one, was ended at a time.
pub open spec fn with_active_ended(store: StorageView, when: i64) -> StorageView {
    if store.has_active_session() {
        store.with_updated_session(
            SessionView { active: false, ended: Some(when), ..store.active_session() },
        )
    } else {
        store
    }
}

/// Starts a session at a root under a given identifier and start time. The
/// session that was active, if any, is ended at that time, so that the new
/// one is the only active session. An identifier that is taken is refused,
/// and the store stays as it is.
pub fn start_session_as(storage: &mut Storage, id: u128, started: i64, root_path: String) -> (session:
    Result<Session, Failure>)
    requires
        old(storage)@.wf(),
    ensures
        final(storage)@.wf(),
        match session {
            Ok(session) => {
                &&& !old(storage)@.has_session(id)
                &&& session@ == SessionView::started_at(id, started, root_path@)
                &&& final(storage)@ == with_active_ended(old(storage)@, started).with_session(
                    session@,
                )
                &&& final(storage)@.has_active_session()
                &&& final(storage)@.active_session() == session@
            },
            Err(failure) => {
                &&& old(storage)@.has_session(id)
                &&& failure@ == FailureView::Storage(
                    ErrorView::InvalidOperation(
                        "session already exists: "@ + canonical_text(id),
                    ),
                )
                &&& final(storage)@ == old(storage)@
            },
        },
{
    if storage.get_session(&id).is_ok() {
        return Err(
            Failure::Storage(
                Error::InvalidOperation(
                    String::from_str("session already exists: ").concat(format_id(id).as_str()),
                ),
            ),
        );
    }
    let session = Session::from_parts(id, started, root_path);
    let ghost before = storage@;
    match storage.get_active_session() {
        Ok(mut previous) => {
            previous.end_at(started);
            let ended = storage.update_session(&previous);
            proof {
                assert(before.has_session(previous.id)) by {
                    let i = choose|i: int|
                        0 <= i < before.sessions.len() && (#[trigger] before.sessions[i]).active;
                    assert(before.sessions[i].id == previous.id);
                }
                assert(!before.has_other_active_session(previous.id)) by {
                    if before.has_other_active_session(previous.id) {
                        let i = choose|i: int|
                            0 <= i < before.sessions.len() && (#[trigger] before.sessions[i]).active;
                        let j = choose|j: int|
                            0 <= j < before.sessions.len() && (#[trigger] before.sessions[j]).active
                                && before.sessions[j].id != previous.id;
                        active_session_is_unique(before, i);
                    }
                }
                assert(ended is Ok);
                assert(storage@ == with_active_ended(before, started));
            }
        },
        Err(_) => {},
    }
    let ghost ended = storage@;
    proof {
        assert(ended == with_active_ended(before, started));
        assert(!ended.has_active_session()) by {
            if ended.has_active_session() {
                let k = choose|k: int|
                    0 <= k < ended.sessions.len() && (#[trigger] ended.sessions[k]).active;
                if before.has_active_session() {
                    let i = choose|i: int|
                        0 <= i < before.sessions.len() && (#[trigger] before.sessions[i]).active;
                    active_session_is_unique(before, i);
                    assert(ended.sessions[k] == if before.sessions[k].id
                        == before.active_session().id {
                        StorageView::updated(
                            before.sessions[k],
                            SessionView {
                                active: false,
                                ended: Some(started),
                                ..before.active_session()
                            },
                        )
                    } else {
                        before.sessions[k]
                    });
                    assert(before.sessions[k].active ==> k == i);
                } else {
                    assert(before.sessions[k].active);
                }
            }
        }
        assert(!ended.has_session(id)) by {
            if ended.has_session(id) {
                let k = choose|k: int|
                    0 <= k < ended.sessions.len() && (#[trigger] ended.sessions[k]).id == id;
                assert(before.sessions[k].id == id);
            }
        }
    }
    match storage.create_session(&session) {
        Ok(()) => {
            proof {
                let last = storage@.sessions.len() - 1;
                assert(storage@.sessions[last] == session@);
                active_session_is_unique(storage@, last);
            }
            Ok(session)
        },
        Err(error) => Err(Failure::Storage(error)),
    }
}

/// Starts a session at a root, under a fresh identifier and the current
/// time. The session that was active, if any, is ended.
pub fn start_session(storage: &mut Storage, root_path: String) -> (session: Result<
    Session,
    Failure,
>)
    requires
        old(storage)@.wf(),
    ensures
        final(storage)@.wf(),
        match session {
            Ok(session) => {
                &&& session@ == SessionView::started_at(session.id, session.started, root_path@)
                &&& final(storage)@ == with_active_ended(
                    old(storage)@,
                    session.started,
                ).with_session(session@)
                &&& final(storage)@.active_session() == session@
            },
            Err(failure) => failure@ is Storage && final(storage)@ == old(storage)@,
        },
{
    start_session_as(storage, random_id(), now(), root_path)
}

/// The identifiers of a run of changes, in order.
pub open spec fn ids_of_changes(changes: Seq<ChangeView>) -> Seq<u128> {
    Seq::new(changes.len(), |i: int| changes[i].id)
}

/// How the committing of everything uncommitted ends: without an active
/// session nothing is found; without uncommitted changes nothing is made;
/// else a commit of all of them, newest first, is made as the store
/// decides.
pub open spec fn full_commitment(
    store: StorageView,
    message: Seq<char>,
    agent_id: Seq<char>,
    id: u128,
    timestamp: i64,
) -> Result<Option<CommitView>, FailureView> {
    if !store.has_active_session() {
        Err(FailureView::NotFound(ErrorView::NoActiveSession))
    } else {
        let changes = store.uncommitted_changes(store.active_session().id);
        if changes.len() == 0 {
            Ok(None)
        } else {
            match commitment(store, message, agent_id, ids_of_changes(changes), id, timestamp) {
                Ok(commit) => Ok(Some(commit)),
                Err(failure) => Err(failure),
            }
        }
    }
}

/// The view of the outcome of a request that may make a commit.
pub open spec fn optional_commit_outcome(result: Result<Option<Commit>, Failure>) -> Result<
    Option<CommitView>,
    FailureView,
> {
    match result {
        Ok(Some(commit)) => Ok(Some(commit@)),
        Ok(None) => Ok(None),
        Err(failure) => Err(failure@),
    }
}

/// Commits every uncommitted change of the active session, under a given
/// identifier and timestamp. Where nothing is uncommitted, no commit is
/// made.
pub fn commit_uncommitted_as(
    storage: &mut Storage,
    id: u128,
    timestamp: i64,
    message: String,
    agent_id: String,
) -> (commit: Result<Option<Commit>, Failure>)
    requires
        old(storage)@.wf(),
    ensures
        final(storage)@.wf(),
        optional_commit_outcome(commit) == full_commitment(
            old(storage)@,
            message@,
            agent_id@,
            id,
            timestamp,
        ),
        final(storage)@ == match commit {
            Ok(Some(commit)) => old(storage)@.with_commit(commit@),
            _ => old(storage)@,
        },
{
    let changes = match get_uncommitted_changes(storage) {
        Ok(changes) => changes,
        Err(failure) => {
            return Err(failure);
        },
    };
    if changes.len() == 0 {
        return Ok(None);
    }
    let mut ids: Vec<u128> = Vec::new();
    let mut i: usize = 0;
    while i < changes.len()
        invariant
            i <= changes.len(),
            ids.len() == i,
            forall|k: int| 0 <= k < i ==> #[trigger] ids@[k] == changes@[k].id,
        decreases changes.len() - i,
    {
        ids.push(changes[i].id);
        i += 1;
    }
    assert(ids@ =~= ids_of_changes(change_views(changes@)));
    match create_commit_as(storage, id, timestamp, message, agent_id, ids) {
        Ok(commit) => Ok(Some(commit)),
        Err(failure) => Err(failure),
    }
}

/// Commits every uncommitted change of the active session, under a fresh
/// identifier and the current time.
pub fn commit_uncommitted(storage: &mut Storage, message: String, agent_id: String) -> (commit:
    Result<Option<Commit>, Failure>)
    requires
        old(storage)@.wf(),
    ensures
        final(storage)@.wf(),
        match commit {
            Ok(Some(commit)) => optional_commit_outcome(Ok(Some(commit))) == full_commitment(
                old(storage)@,
                message@,
                agent_id@,
                commit.id,
                commit.timestamp,
            ) && final(storage)@ == old(storage)@.with_commit(commit@),
            Ok(None) => old(storage)@.has_active_session() && old(storage)@.uncommitted_changes(
                old(storage)@.active_session().id,
            ).len() == 0 && final(storage)@ == old(storage)@,
            Err(failure) => {
                &&& final(storage)@ == old(storage)@
                &&& failure@ is NotFound <==> !old(storage)@.has_active_session()
                &&& !(failure@ is BadRequest)
            },
        },
{
    commit_uncommitted_as(storage, random_id(), now(), message, agent_id)
}

} // verus!
