//! The store of sessions, changes and commits, and the rules that keep the
//! three consistent with one another.

use crate::error::{Error, ErrorView};
use crate::ident::{canonical_text, format_id};
use crate::models::{
    clone_texts, Change, ChangeView, Commit, CommitInfo, CommitInfoView, CommitView, Session,
    SessionView,
};
use crate::text::same_text;
use vstd::prelude::*;
use vstd::string::*;

verus! {

/// What a [`Storage`] holds: the sessions in the order in which they were
/// created, and the changes and the commits from the oldest to the newest.
pub struct StorageView {
    pub sessions: Seq<SessionView>,
    pub changes: Seq<ChangeView>,
    pub commits: Seq<CommitView>,
}

impl StorageView {
    /// The store that holds nothing.
    pub open spec fn empty() -> StorageView {
        StorageView { sessions: Seq::empty(), changes: Seq::empty(), commits: Seq::empty() }
    }

    /// Whether a session has the identifier.
    pub open spec fn has_session(self, id: u128) -> bool {
        exists|i: int| 0 <= i < self.sessions.len() && (#[trigger] self.sessions[i]).id == id
    }

    /// The session with an identifier, where there is one.
    pub open spec fn session(self, id: u128) -> SessionView {
        self.sessions[choose|i: int|
            0 <= i < self.sessions.len() && (#[trigger] self.sessions[i]).id == id]
    }

    /// Whether a session is active.
    pub open spec fn has_active_session(self) -> bool {
        exists|i: int| 0 <= i < self.sessions.len() && (#[trigger] self.sessions[i]).active
    }

    /// The active session, where there is one.
    pub open spec fn active_session(self) -> SessionView {
        self.sessions[choose|i: int|
            0 <= i < self.sessions.len() && (#[trigger] self.sessions[i]).active]
    }

    /// Whether a session other than `id` is active.
    pub open spec fn has_other_active_session(self, id: u128) -> bool {
        exists|i: int|
            0 <= i < self.sessions.len() && (#[trigger] self.sessions[i]).active
                && self.sessions[i].id != id
    }

    /// Whether a change has the identifier.
    pub open spec fn has_change(self, id: u128) -> bool {
        exists|i: int| 0 <= i < self.changes.len() && (#[trigger] self.changes[i]).id == id
    }

    /// The change with an identifier, where there is one.
    pub open spec fn change(self, id: u128) -> ChangeView {
        self.changes[choose|i: int|
            0 <= i < self.changes.len() && (#[trigger] self.changes[i]).id == id]
    }

    /// Whether a commit has the identifier.
    pub open spec fn has_commit(self, id: u128) -> bool {
        exists|i: int| 0 <= i < self.commits.len() && (#[trigger] self.commits[i]).id == id
    }

    /// The commit with an identifier, where there is one.
    pub open spec fn commit(self, id: u128) -> CommitView {
        self.commits[choose|i: int|
            0 <= i < self.commits.len() && (#[trigger] self.commits[i]).id == id]
    }

    /// Whether some commit refers to the change.
    pub open spec fn is_committed(self, change_id: u128) -> bool {
        exists|k: int|
            0 <= k < self.commits.len() && (#[trigger] self.commits[k]).changes.contains(change_id)
    }

    /// Whether the change exists and belongs to the session.
    pub open spec fn resolves(self, change_id: u128, session_id: u128) -> bool {
        exists|i: int|
            0 <= i < self.changes.len() && (#[trigger] self.changes[i]).id == change_id
                && self.changes[i].session_id == session_id
    }

    /// Whether what a commit refers to is there: its session, its parent if
    /// it has one, and each of its changes, in its own session and once.
    pub open spec fn supports(self, commit: CommitView) -> bool {
        &&& self.has_session(commit.session_id)
        &&& commit.parent matches Some(parent) ==> self.has_commit(parent)
        &&& forall|m: int|
            0 <= m < commit.changes.len() ==> self.resolves(
                #[trigger] commit.changes[m],
                commit.session_id,
            )
        &&& commit.changes.no_duplicates()
    }

    /// The invariant of a store: identifiers are unique within each kind, at
    /// most one session is active, every change belongs to a session, every
    /// commit is supported, and changes and commits stand from the oldest to
    /// the newest.
    pub open spec fn wf(self) -> bool {
        &&& forall|i: int, j: int|
            0 <= i < j < self.sessions.len() ==> (#[trigger] self.sessions[i]).id != (
            #[trigger] self.sessions[j]).id
        &&& forall|i: int, j: int|
            0 <= i < j < self.sessions.len() ==> !((#[trigger] self.sessions[i]).active && (
            #[trigger] self.sessions[j]).active)
        &&& forall|i: int, j: int|
            0 <= i < j < self.changes.len() ==> (#[trigger] self.changes[i]).id != (
            #[trigger] self.changes[j]).id
        &&& forall|i: int, j: int|
            0 <= i < j < self.changes.len() ==> (#[trigger] self.changes[i]).timestamp <= (
            #[trigger] self.changes[j]).timestamp
        &&& forall|i: int|
            0 <= i < self.changes.len() ==> self.has_session(
                (#[trigger] self.changes[i]).session_id,
            )
        &&& forall|i: int, j: int|
            0 <= i < j < self.commits.len() ==> (#[trigger] self.commits[i]).id != (
            #[trigger] self.commits[j]).id
        &&& forall|i: int, j: int|
            0 <= i < j < self.commits.len() ==> (#[trigger] self.commits[i]).timestamp <= (
            #[trigger] self.commits[j]).timestamp
        &&& forall|k: int| 0 <= k < self.commits.len() ==> self.supports(#[trigger] self.commits[k])
    }

    /// Why a session cannot be created, if it cannot.
    pub open spec fn session_refusal(self, session: SessionView) -> Option<ErrorView> {
        if self.has_session(session.id) {
            Some(
                ErrorView::InvalidOperation(
                    "session already exists: "@ + canonical_text(session.id),
                ),
            )
        } else if session.active && self.has_active_session() {
            Some(ErrorView::SessionAlreadyActive(self.active_session().root_path))
        } else {
            None
        }
    }

    /// The store after a session was created.
    pub open spec fn with_session(self, session: SessionView) -> StorageView {
        StorageView { sessions: self.sessions.push(session), ..self }
    }

    /// Where a record with a timestamp goes among records with the given
    /// timestamps, oldest first: behind the last one that is not later.
    pub open spec fn slot(times: Seq<i64>, timestamp: i64) -> int
        decreases times.len(),
    {
        if times.len() == 0 {
            0
        } else if times.last() <= timestamp {
            times.len() as int
        } else {
            Self::slot(times.drop_last(), timestamp)
        }
    }

    /// The timestamps of the changes, in their order.
    pub open spec fn change_times(self) -> Seq<i64> {
        Seq::new(self.changes.len(), |i: int| self.changes[i].timestamp)
    }

    /// The timestamps of the commits, in their order.
    pub open spec fn commit_times(self) -> Seq<i64> {
        Seq::new(self.commits.len(), |i: int| self.commits[i].timestamp)
    }

    /// Why a change cannot be recorded, if it cannot.
    pub open spec fn change_refusal(self, change: ChangeView) -> Option<ErrorView> {
        if self.has_change(change.id) {
            Some(ErrorView::InvalidOperation("change already exists: "@ + canonical_text(change.id)))
        } else if !self.has_session(change.session_id) {
            Some(ErrorView::SessionNotFound(canonical_text(change.session_id)))
        } else {
            None
        }
    }

    /// The store after a change was recorded.
    pub open spec fn with_change(self, change: ChangeView) -> StorageView {
        StorageView {
            changes: self.changes.insert(
                Self::slot(self.change_times(), change.timestamp),
                change,
            ),
            ..self
        }
    }

    /// Whether the `m`-th change that a commit lists is the first one that
    /// does not resolve in the commit's session.
    pub open spec fn first_unresolved_at(self, commit: CommitView, m: int) -> bool {
        &&& 0 <= m < commit.changes.len()
        &&& !self.resolves(commit.changes[m], commit.session_id)
        &&& forall|j: int|
            0 <= j < m ==> self.resolves(#[trigger] commit.changes[j], commit.session_id)
    }

    /// Whether every change that a commit lists resolves in its session.
    pub open spec fn all_resolve(self, commit: CommitView) -> bool {
        forall|m: int|
            0 <= m < commit.changes.len() ==> self.resolves(
                #[trigger] commit.changes[m],
                commit.session_id,
            )
    }

    /// Whether the `m`-th identifier of a list already stands before it.
    pub open spec fn repeated_at(ids: Seq<u128>, m: int) -> bool {
        0 <= m < ids.len() && exists|j: int| 0 <= j < m && #[trigger] ids[j] == ids[m]
    }

    /// Whether the `m`-th identifier of a list is the first repeated one.
    pub open spec fn first_repeated_at(ids: Seq<u128>, m: int) -> bool {
        Self::repeated_at(ids, m) && forall|k: int| 0 <= k < m ==> !Self::repeated_at(ids, k)
    }

    /// Why a commit cannot be made, if it cannot. The checks are made in
    /// this order: the identifier is free, the session exists, the parent
    /// exists, each change resolves, no change is listed twice.
    pub open spec fn commit_refusal(self, commit: CommitView) -> Option<ErrorView> {
        if self.has_commit(commit.id) {
            Some(ErrorView::InvalidOperation("commit already exists: "@ + canonical_text(commit.id)))
        } else if !self.has_session(commit.session_id) {
            Some(ErrorView::SessionNotFound(canonical_text(commit.session_id)))
        } else if commit.parent is Some && !self.has_commit(commit.parent->0) {
            Some(ErrorView::CommitNotFound(canonical_text(commit.parent->0)))
        } else if !self.all_resolve(commit) {
            Some(
                ErrorView::ChangeNotFound(
                    canonical_text(
                        commit.changes[choose|m: int| self.first_unresolved_at(commit, m)],
                    ),
                ),
            )
        } else if !commit.changes.no_duplicates() {
            Some(
                ErrorView::InvalidOperation(
                    "change listed twice: "@ + canonical_text(
                        commit.changes[choose|m: int|
                            Self::first_repeated_at(commit.changes, m)],
                    ),
                ),
            )
        } else {
            None
        }
    }

    /// The store after a commit was made.
    pub open spec fn with_commit(self, commit: CommitView) -> StorageView {
        StorageView {
            commits: self.commits.insert(
                Self::slot(self.commit_times(), commit.timestamp),
                commit,
            ),
            ..self
        }
    }

    /// Whether a change belongs to a session and no commit refers to it.
    pub open spec fn is_uncommitted(self, change: ChangeView, session_id: u128) -> bool {
        change.session_id == session_id && !self.is_committed(change.id)
    }

    /// The uncommitted changes of a session among the changes from position
    /// `from` on, newest first.
    pub open spec fn uncommitted_from(self, session_id: u128, from: int) -> Seq<ChangeView>
        decreases self.changes.len() - from,
    {
        if from < 0 || from >= self.changes.len() {
            Seq::empty()
        } else {
            let newer = self.uncommitted_from(session_id, from + 1);
            if self.is_uncommitted(self.changes[from], session_id) {
                newer.push(self.changes[from])
            } else {
                newer
            }
        }
    }

    /// The uncommitted changes of a session, newest first.
    pub open spec fn uncommitted_changes(self, session_id: u128) -> Seq<ChangeView> {
        self.uncommitted_from(session_id, 0)
    }

    /// How many of the listed changes exist.
    pub open spec fn resolved_count(self, ids: Seq<u128>) -> nat
        decreases ids.len(),
    {
        if ids.len() == 0 {
            0
        } else {
            self.resolved_count(ids.drop_last()) + if self.has_change(ids.last()) {
                1nat
            } else {
                0nat
            }
        }
    }

    /// The paths of the listed changes that exist, each path once, in the
    /// order in which the list first reaches it.
    pub open spec fn affected_paths(self, ids: Seq<u128>) -> Seq<Seq<char>>
        decreases ids.len(),
    {
        if ids.len() == 0 {
            Seq::empty()
        } else {
            let before = self.affected_paths(ids.drop_last());
            if self.has_change(ids.last()) && !before.contains(self.change(ids.last()).path) {
                before.push(self.change(ids.last()).path)
            } else {
                before
            }
        }
    }

    /// A commit with what is derived from its changes. A change that the
    /// commit lists and that does not exist counts for nothing.
    pub open spec fn info(self, commit: CommitView) -> CommitInfoView {
        CommitInfoView {
            commit,
            change_count: self.resolved_count(commit.changes),
            files_affected: self.affected_paths(commit.changes),
        }
    }

    /// The commits of a session among the commits from position `from` on,
    /// newest first, each with what is derived from its changes.
    pub open spec fn commits_from(self, session_id: u128, from: int) -> Seq<CommitInfoView>
        decreases self.commits.len() - from,
    {
        if from < 0 || from >= self.commits.len() {
            Seq::empty()
        } else {
            let newer = self.commits_from(session_id, from + 1);
            if self.commits[from].session_id == session_id {
                newer.push(self.info(self.commits[from]))
            } else {
                newer
            }
        }
    }

    /// The commits of a session, newest first.
    pub open spec fn commits_of(self, session_id: u128) -> Seq<CommitInfoView> {
        self.commits_from(session_id, 0)
    }

    /// Why a session cannot be updated, if it cannot.
    pub open spec fn update_refusal(self, session: SessionView) -> Option<ErrorView> {
        if self.has_session(session.id) && session.active && self.has_other_active_session(
            session.id,
        ) {
            Some(ErrorView::SessionAlreadyActive(self.active_session().root_path))
        } else {
            None
        }
    }

    /// A stored session after an update: the end time, the active flag and
    /// the ignore patterns are taken over, the rest stays.
    pub open spec fn updated(stored: SessionView, session: SessionView) -> SessionView {
        SessionView {
            ended: session.ended,
            active: session.active,
            ignore_patterns: session.ignore_patterns,
            ..stored
        }
    }

    /// The store after the session with the identifier of `session` was
    /// updated; a store without such a session stays as it is.
    pub open spec fn with_updated_session(self, session: SessionView) -> StorageView {
        StorageView {
            sessions: Seq::new(
                self.sessions.len(),
                |i: int|
                    if self.sessions[i].id == session.id {
                        Self::updated(self.sessions[i], session)
                    } else {
                        self.sessions[i]
                    },
            ),
            ..self
        }
    }
}

/// The views of a run of sessions.
pub open spec fn session_views(sessions: Seq<Session>) -> Seq<SessionView> {
    Seq::new(sessions.len(), |i: int| sessions[i]@)
}

/// The views of a run of changes.
pub open spec fn change_views(changes: Seq<Change>) -> Seq<ChangeView> {
    Seq::new(changes.len(), |i: int| changes[i]@)
}

/// The views of a run of commits.
pub open spec fn commit_views(commits: Seq<Commit>) -> Seq<CommitView> {
    Seq::new(commits.len(), |i: int| commits[i]@)
}

/// The views of a run of commit infos.
pub open spec fn info_views(infos: Seq<CommitInfo>) -> Seq<CommitInfoView> {
    Seq::new(infos.len(), |i: int| infos[i]@)
}

/// The store. Its operations keep [`StorageView::wf`].
pub struct Storage {
    sessions: Vec<Session>,
    changes: Vec<Change>,
    commits: Vec<Commit>,
}

impl View for Storage {
    type V = StorageView;

    closed spec fn view(&self) -> StorageView {
        StorageView {
            sessions: session_views(self.sessions@),
            changes: change_views(self.changes@),
            commits: commit_views(self.commits@),
        }
    }
}

fn prefixed(label: &str, id: u128) -> (text: String)
    ensures
        text@ == label@ + canonical_text(id),
{
    String::from_str(label).concat(format_id(id).as_str())
}

impl Storage {
    /// An empty store.
    pub fn in_memory() -> (storage: Result<Storage, Error>)
        ensures
            storage matches Ok(storage) && storage@ == StorageView::empty() && storage@.wf(),
    {
        let storage = Storage { sessions: Vec::new(), changes: Vec::new(), commits: Vec::new() };
        assert(storage@.sessions =~= Seq::empty());
        assert(storage@.changes =~= Seq::empty());
        assert(storage@.commits =~= Seq::empty());
        Ok(storage)
    }

    fn session_index(&self, id: u128) -> (found: Option<usize>)
        ensures
            found matches Some(i) ==> i < self@.sessions.len() && self@.sessions[i as int].id
                == id,
            found is None ==> !self@.has_session(id),
    {
        let mut i: usize = 0;
        while i < self.sessions.len()
            invariant
                i <= self.sessions.len(),
                forall|k: int| 0 <= k < i ==> (#[trigger] self@.sessions[k]).id != id,
            decreases self.sessions.len() - i,
        {
            if self.sessions[i].id == id {
                return Some(i);
            }
            i += 1;
        }
        None
    }

    fn active_index(&self, except: Option<u128>) -> (found: Option<usize>)
        ensures
            found matches Some(i) ==> i < self@.sessions.len() && self@.sessions[i as int].active
                && except != Some(self@.sessions[i as int].id),
            found is None ==> forall|k: int|
                0 <= k < self@.sessions.len() ==> !(#[trigger] self@.sessions[k]).active || except
                    == Some(self@.sessions[k].id),
    {
        let mut i: usize = 0;
        while i < self.sessions.len()
            invariant
                i <= self.sessions.len(),
                forall|k: int|
                    0 <= k < i ==> !(#[trigger] self@.sessions[k]).active || except == Some(
                        self@.sessions[k].id,
                    ),
            decreases self.sessions.len() - i,
        {
            let skip = match except {
                Some(id) => self.sessions[i].id == id,
                None => false,
            };
            if self.sessions[i].active && !skip {
                return Some(i);
            }
            i += 1;
        }
        None
    }

    /// Records a new session. A session whose identifier is taken is
    /// refused, and so is an active session while another one is active.
    pub fn create_session(&mut self, session: &Session) -> (done: Result<(), Error>)
        requires
            old(self)@.wf(),
        ensures
            final(self)@.wf(),
            match done {
                Ok(()) => old(self)@.session_refusal(session@) is None && final(self)@ == old(
                    self,
                )@.with_session(session@),
                Err(error) => old(self)@.session_refusal(session@) == Some(error@) && final(self)@
                    == old(self)@,
            },
    {
        if self.session_index(session.id).is_some() {
            return Err(Error::InvalidOperation(prefixed("session already exists: ", session.id)));
        }
        if session.active {
            if let Some(i) = self.active_index(None) {
                proof {
                    let chosen = choose|k: int|
                        0 <= k < self@.sessions.len() && (#[trigger] self@.sessions[k]).active;
                    assert(chosen == i);
                }
                return Err(Error::SessionAlreadyActive(self.sessions[i].root_path.clone()));
            }
        }
        let ghost before = self@;
        self.sessions.push(session.clone());
        proof {
            assert(self@.sessions =~= before.sessions.push(session@));
            assert(self@.changes == before.changes);
            assert(self@.commits == before.commits);
            assert(self@ == before.with_session(session@));
            Self::grown_sessions_keep_wf(before, session@);
        }
        Ok(())
    }

    /// The session with an identifier.
    pub fn get_session(&self, id: &u128) -> (found: Result<Session, Error>)
        requires
            self@.wf(),
        ensures
            match found {
                Ok(session) => self@.has_session(*id) && session@ == self@.session(*id),
                Err(error) => !self@.has_session(*id) && error@ == ErrorView::SessionNotFound(
                    canonical_text(*id),
                ),
            },
    {
        match self.session_index(*id) {
            Some(i) => {
                proof {
                    let chosen = choose|k: int|
                        0 <= k < self@.sessions.len() && (#[trigger] self@.sessions[k]).id == *id;
                    assert(chosen == i);
                }
                Ok(self.sessions[i].clone())
            },
            None => Err(Error::SessionNotFound(format_id(*id))),
        }
    }

    /// The active session.
    pub fn get_active_session(&self) -> (found: Result<Session, Error>)
        requires
            self@.wf(),
        ensures
            match found {
                Ok(session) => self@.has_active_session() && session@ == self@.active_session()
                    && session@.active,
                Err(error) => !self@.has_active_session() && error@ == ErrorView::NoActiveSession,
            },
    {
        match self.active_index(None) {
            Some(i) => {
                proof {
                    let chosen = choose|k: int|
                        0 <= k < self@.sessions.len() && (#[trigger] self@.sessions[k]).active;
                    assert(chosen == i);
                }
                Ok(self.sessions[i].clone())
            },
            None => Err(Error::NoActiveSession),
        }
    }

    /// Takes over the end time, the active flag and the ignore patterns of
    /// a session. A store without that session stays as it is. Making a
    /// session active while another one is active is refused.
    pub fn update_session(&mut self, session: &Session) -> (done: Result<(), Error>)
        requires
            old(self)@.wf(),
        ensures
            final(self)@.wf(),
            match done {
                Ok(()) => old(self)@.update_refusal(session@) is None && final(self)@ == old(
                    self,
                )@.with_updated_session(session@),
                Err(error) => old(self)@.update_refusal(session@) == Some(error@) && final(self)@
                    == old(self)@,
            },
    {
        let ghost before = self@;
        match self.session_index(session.id) {
            None => {
                proof {
                    assert(before.with_updated_session(session@).sessions =~= before.sessions);
                }
                Ok(())
            },
            Some(i) => {
                if session.active {
                    if let Some(other) = self.active_index(Some(session.id)) {
                        proof {
                            let chosen = choose|k: int|
                                0 <= k < self@.sessions.len() && (
                                #[trigger] self@.sessions[k]).active;
                            assert(chosen == other);
                        }
                        return Err(
                            Error::SessionAlreadyActive(self.sessions[other].root_path.clone()),
                        );
                    }
                }
                let stored = &self.sessions[i];
                let updated = Session {
                    id: stored.id,
                    root_path: stored.root_path.clone(),
                    started: stored.started,
                    ended: session.ended,
                    active: session.active,
                    ignore_patterns: clone_texts(&session.ignore_patterns),
                };
                self.sessions.set(i, updated);
                proof {
                    let after = before.with_updated_session(session@);
                    assert(self@.sessions =~= after.sessions);
                    assert(self@.changes == before.changes);
                    assert(self@.commits == before.commits);
                    assert(self@ == after);
                    Self::updated_sessions_keep_wf(before, session@);
                }
                Ok(())
            },
        }
    }

    proof fn updated_sessions_keep_wf(before: StorageView, session: SessionView)
        requires
            before.wf(),
            before.update_refusal(session) is None,
        ensures
            before.with_updated_session(session).wf(),
    {
        let after = before.with_updated_session(session);
        assert forall|i: int| 0 <= i < after.sessions.len() implies (#[trigger] after.sessions[i]).id
            == before.sessions[i].id by {}
        assert forall|id: u128| before.has_session(id) implies after.has_session(id) by {
            let i = choose|i: int|
                0 <= i < before.sessions.len() && (#[trigger] before.sessions[i]).id == id;
            assert(after.sessions[i].id == id);
        }
        assert forall|k: int| 0 <= k < after.commits.len() implies after.supports(
            #[trigger] after.commits[k],
        ) by {
            assert(before.supports(before.commits[k]));
        }
        assert forall|i: int, j: int| 0 <= i < j < after.sessions.len() implies !((
        #[trigger] after.sessions[i]).active && (#[trigger] after.sessions[j]).active) by {
            assert(before.sessions[i].id != before.sessions[j].id);
            if after.sessions[i].active && after.sessions[j].active {
                if before.sessions[i].id == session.id {
                    assert(before.sessions[j].active);
                    assert(before.has_other_active_session(session.id));
                    assert(before.has_session(session.id));
                } else if before.sessions[j].id == session.id {
                    assert(before.sessions[i].active);
                    assert(before.has_other_active_session(session.id));
                    assert(before.has_session(session.id));
                } else {
                    assert(before.sessions[i].active && before.sessions[j].active);
                }
            }
        }
    }

    fn change_index(&self, id: u128) -> (found: Option<usize>)
        ensures
            found matches Some(i) ==> i < self@.changes.len() && self@.changes[i as int].id == id,
            found is None ==> !self@.has_change(id),
    {
        let mut i: usize = 0;
        while i < self.changes.len()
            invariant
                i <= self.changes.len(),
                forall|k: int| 0 <= k < i ==> (#[trigger] self@.changes[k]).id != id,
            decreases self.changes.len() - i,
        {
            if self.changes[i].id == id {
                return Some(i);
            }
            i += 1;
        }
        None
    }

    /// Records a change. A change whose identifier is taken is refused, and
    /// so is one whose session is unknown.
    pub fn create_change(&mut self, change: &Change) -> (done: Result<(), Error>)
        requires
            old(self)@.wf(),
        ensures
            final(self)@.wf(),
            match done {
                Ok(()) => old(self)@.change_refusal(change@) is None && final(self)@ == old(
                    self,
                )@.with_change(change@),
                Err(error) => old(self)@.change_refusal(change@) == Some(error@) && final(self)@
                    == old(self)@,
            },
    {
        if self.change_index(change.id).is_some() {
            return Err(Error::InvalidOperation(prefixed("change already exists: ", change.id)));
        }
        if self.session_index(change.session_id).is_none() {
            return Err(Error::SessionNotFound(format_id(change.session_id)));
        }
        let ghost before = self@;
        let ghost times = before.change_times();
        let mut at: usize = self.changes.len();
        assert(times.take(at as int) =~= times);
        while at > 0 && self.changes[at - 1].timestamp > change.timestamp
            invariant
                at <= self.changes.len(),
                self@ == before,
                times == before.change_times(),
                StorageView::slot(times, change.timestamp) == StorageView::slot(
                    times.take(at as int),
                    change.timestamp,
                ),
                forall|k: int|
                    at <= k < self@.changes.len() ==> (#[trigger] self@.changes[k]).timestamp
                        > change.timestamp,
            decreases at,
        {
            assert(times.take(at as int).drop_last() =~= times.take(at - 1));
            assert(times.take(at as int).last() == self@.changes[at - 1].timestamp);
            at -= 1;
        }
        proof {
            if at > 0 {
                assert(times.take(at as int).last() == self@.changes[at - 1].timestamp);
            }
            assert(at == StorageView::slot(times, change.timestamp));
        }
        self.changes.insert(at, change.clone());
        proof {
            assert(self@.changes =~= before.changes.insert(at as int, change@));
            assert(self@.sessions == before.sessions);
            assert(self@.commits == before.commits);
            assert(self@ == before.with_change(change@));
            Self::grown_changes_keep_wf(before, change@, at as int);
        }
        Ok(())
    }

    pub(crate) proof fn grown_changes_keep_wf(before: StorageView, change: ChangeView, at: int)
        requires
            before.wf(),
            before.change_refusal(change) is None,
            0 <= at <= before.changes.len(),
            at == StorageView::slot(before.change_times(), change.timestamp),
            forall|k: int|
                at <= k < before.changes.len() ==> (#[trigger] before.changes[k]).timestamp
                    > change.timestamp,
            at > 0 ==> before.changes[at - 1].timestamp <= change.timestamp,
        ensures
            before.with_change(change).wf(),
    {
        let after = before.with_change(change);
        assert(after.changes =~= before.changes.insert(at, change));
        assert forall|i: int| 0 <= i < after.changes.len() implies #[trigger] after.changes[i] == (
        if i < at {
            before.changes[i]
        } else if i == at {
            change
        } else {
            before.changes[i - 1]
        }) by {}
        assert forall|i: int, j: int| 0 <= i < j < after.changes.len() implies (
        #[trigger] after.changes[i]).id != (#[trigger] after.changes[j]).id by {
            if i != at && j != at {
                let a = if i < at {
                    i
                } else {
                    i - 1
                };
                let b = if j < at {
                    j
                } else {
                    j - 1
                };
                assert(before.changes[a].id != before.changes[b].id);
            } else if i == at {
                assert(before.changes[j - 1].id != change.id);
            } else {
                assert(before.changes[i].id != change.id);
            }
        }
        assert forall|i: int, j: int| 0 <= i < j < after.changes.len() implies (
        #[trigger] after.changes[i]).timestamp <= (#[trigger] after.changes[j]).timestamp by {
            if i != at && j != at {
                let a = if i < at {
                    i
                } else {
                    i - 1
                };
                let b = if j < at {
                    j
                } else {
                    j - 1
                };
                if a < b {
                    assert(before.changes[a].timestamp <= before.changes[b].timestamp);
                }
            } else if i == at {
                assert(before.changes[j - 1].timestamp > change.timestamp);
            } else {
                if i < at - 1 {
                    assert(before.changes[i].timestamp <= before.changes[at - 1].timestamp);
                }
            }
        }
        assert forall|i: int| 0 <= i < after.changes.len() implies after.has_session(
            (#[trigger] after.changes[i]).session_id,
        ) by {
            if i < at {
                assert(before.has_session(before.changes[i].session_id));
            } else if i > at {
                assert(before.has_session(before.changes[i - 1].session_id));
            }
        }
        assert forall|k: int| 0 <= k < after.commits.len() implies after.supports(
            #[trigger] after.commits[k],
        ) by {
            let commit = before.commits[k];
            assert(before.supports(commit));
            assert forall|m: int| 0 <= m < commit.changes.len() implies after.resolves(
                #[trigger] commit.changes[m],
                commit.session_id,
            ) by {
                assert(before.resolves(commit.changes[m], commit.session_id));
                let i = choose|i: int|
                    0 <= i < before.changes.len() && (#[trigger] before.changes[i]).id
                        == commit.changes[m] && before.changes[i].session_id == commit.session_id;
                let moved = if i < at {
                    i
                } else {
                    i + 1
                };
                assert(after.changes[moved] == before.changes[i]);
            }
        }
    }

    /// The change with an identifier.
    pub fn get_change(&self, id: &u128) -> (found: Result<Change, Error>)
        requires
            self@.wf(),
        ensures
            match found {
                Ok(change) => self@.has_change(*id) && change@ == self@.change(*id),
                Err(error) => !self@.has_change(*id) && error@ == ErrorView::ChangeNotFound(
                    canonical_text(*id),
                ),
            },
    {
        match self.change_index(*id) {
            Some(i) => {
                proof {
                    let chosen = choose|k: int|
                        0 <= k < self@.changes.len() && (#[trigger] self@.changes[k]).id == *id;
                    assert(chosen == i);
                }
                Ok(self.changes[i].clone())
            },
            None => Err(Error::ChangeNotFound(format_id(*id))),
        }
    }

    fn commit_index(&self, id: u128) -> (found: Option<usize>)
        ensures
            found matches Some(i) ==> i < self@.commits.len() && self@.commits[i as int].id == id,
            found is None ==> !self@.has_commit(id),
    {
        let mut i: usize = 0;
        while i < self.commits.len()
            invariant
                i <= self.commits.len(),
                forall|k: int| 0 <= k < i ==> (#[trigger] self@.commits[k]).id != id,
            decreases self.commits.len() - i,
        {
            if self.commits[i].id == id {
                return Some(i);
            }
            i += 1;
        }
        None
    }

    fn change_resolves(&self, change_id: u128, session_id: u128) -> (yes: bool)
        requires
            self@.wf(),
        ensures
            yes == self@.resolves(change_id, session_id),
    {
        match self.change_index(change_id) {
            Some(i) => self.changes[i].session_id == session_id,
            None => false,
        }
    }

    fn first_unresolved(&self, commit: &Commit) -> (found: Option<usize>)
        requires
            self@.wf(),
        ensures
            found matches Some(m) ==> self@.first_unresolved_at(commit@, m as int),
            found is None ==> self@.all_resolve(commit@),
    {
        let mut m: usize = 0;
        while m < commit.changes.len()
            invariant
                m <= commit.changes.len(),
                self@.wf(),
                forall|j: int|
                    0 <= j < m ==> self@.resolves(#[trigger] commit@.changes[j], commit@.session_id),
            decreases commit.changes.len() - m,
        {
            if !self.change_resolves(commit.changes[m], commit.session_id) {
                return Some(m);
            }
            m += 1;
        }
        None
    }

    fn first_repeated(ids: &Vec<u128>) -> (found: Option<usize>)
        ensures
            found matches Some(m) ==> StorageView::first_repeated_at(ids@, m as int),
            found is None ==> ids@.no_duplicates(),
    {
        let mut m: usize = 0;
        while m < ids.len()
            invariant
                m <= ids.len(),
                forall|k: int| 0 <= k < m ==> !StorageView::repeated_at(ids@, k),
            decreases ids.len() - m,
        {
            let mut j: usize = 0;
            while j < m
                invariant
                    j <= m < ids.len(),
                    forall|k: int| 0 <= k < m ==> !StorageView::repeated_at(ids@, k),
                    forall|k: int| 0 <= k < j ==> #[trigger] ids@[k] != ids@[m as int],
                decreases m - j,
            {
                if ids[j] == ids[m] {
                    assert(ids@[j as int] == ids@[m as int]);
                    assert(StorageView::repeated_at(ids@, m as int));
                    return Some(m);
                }
                j += 1;
            }
            assert(!StorageView::repeated_at(ids@, m as int));
            m += 1;
        }
        proof {
            assert forall|i: int, j: int| 0 <= i < ids@.len() && 0 <= j < ids@.len() && i
                != j implies ids@[i] != ids@[j] by {
                if i < j {
                    assert(!StorageView::repeated_at(ids@, j));
                } else {
                    assert(!StorageView::repeated_at(ids@, i));
                }
            }
        }
        None
    }

    /// Makes a commit, with all the changes it lists or not at all. A commit
    /// is refused where its identifier is taken, its session or its parent is
    /// unknown, a change it lists is unknown or of another session, or a
    /// change is listed twice.
    pub fn create_commit(&mut self, commit: &Commit) -> (done: Result<(), Error>)
        requires
            old(self)@.wf(),
        ensures
            final(self)@.wf(),
            match done {
                Ok(()) => old(self)@.commit_refusal(commit@) is None && final(self)@ == old(
                    self,
                )@.with_commit(commit@),
                Err(error) => old(self)@.commit_refusal(commit@) == Some(error@) && final(self)@
                    == old(self)@,
            },
    {
        if self.commit_index(commit.id).is_some() {
            return Err(Error::InvalidOperation(prefixed("commit already exists: ", commit.id)));
        }
        if self.session_index(commit.session_id).is_none() {
            return Err(Error::SessionNotFound(format_id(commit.session_id)));
        }
        if let Some(parent) = commit.parent {
            if self.commit_index(parent).is_none() {
                return Err(Error::CommitNotFound(format_id(parent)));
            }
        }
        if let Some(m) = self.first_unresolved(commit) {
            proof {
                let chosen = choose|k: int| self@.first_unresolved_at(commit@, k);
                assert(self@.first_unresolved_at(commit@, m as int));
                assert(chosen == m);
            }
            return Err(Error::ChangeNotFound(format_id(commit.changes[m])));
        }
        if let Some(m) = Self::first_repeated(&commit.changes) {
            proof {
                let chosen = choose|k: int| StorageView::first_repeated_at(commit@.changes, k);
                assert(StorageView::first_repeated_at(commit@.changes, m as int));
                assert(chosen == m);
                let j = choose|j: int| 0 <= j < m && #[trigger] commit@.changes[j]
                    == commit@.changes[m as int];
                assert(!commit@.changes.no_duplicates());
            }
            return Err(
                Error::InvalidOperation(prefixed("change listed twice: ", commit.changes[m])),
            );
        }
        let ghost before = self@;
        let ghost times = before.commit_times();
        let mut at: usize = self.commits.len();
        assert(times.take(at as int) =~= times);
        while at > 0 && self.commits[at - 1].timestamp > commit.timestamp
            invariant
                at <= self.commits.len(),
                self@ == before,
                times == before.commit_times(),
                StorageView::slot(times, commit.timestamp) == StorageView::slot(
                    times.take(at as int),
                    commit.timestamp,
                ),
                forall|k: int|
                    at <= k < self@.commits.len() ==> (#[trigger] self@.commits[k]).timestamp
                        > commit.timestamp,
            decreases at,
        {
            assert(times.take(at as int).drop_last() =~= times.take(at - 1));
            assert(times.take(at as int).last() == self@.commits[at - 1].timestamp);
            at -= 1;
        }
        proof {
            if at > 0 {
                assert(times.take(at as int).last() == self@.commits[at - 1].timestamp);
            }
            assert(at == StorageView::slot(times, commit.timestamp));
        }
        self.commits.insert(at, commit.clone());
        proof {
            assert(self@.commits =~= before.commits.insert(at as int, commit@));
            assert(self@.sessions == before.sessions);
            assert(self@.changes == before.changes);
            assert(self@ == before.with_commit(commit@));
            Self::grown_commits_keep_wf(before, commit@, at as int);
        }
        Ok(())
    }

    pub(crate) proof fn grown_commits_keep_wf(before: StorageView, commit: CommitView, at: int)
        requires
            before.wf(),
            before.commit_refusal(commit) is None,
            0 <= at <= before.commits.len(),
            at == StorageView::slot(before.commit_times(), commit.timestamp),
            forall|k: int|
                at <= k < before.commits.len() ==> (#[trigger] before.commits[k]).timestamp
                    > commit.timestamp,
            at > 0 ==> before.commits[at - 1].timestamp <= commit.timestamp,
        ensures
            before.with_commit(commit).wf(),
    {
        let after = before.with_commit(commit);
        assert(after.commits =~= before.commits.insert(at, commit));
        assert forall|i: int| 0 <= i < after.commits.len() implies #[trigger] after.commits[i] == (
        if i < at {
            before.commits[i]
        } else if i == at {
            commit
        } else {
            before.commits[i - 1]
        }) by {}
        assert forall|i: int, j: int| 0 <= i < j < after.commits.len() implies (
        #[trigger] after.commits[i]).id != (#[trigger] after.commits[j]).id by {
            if i != at && j != at {
                let a = if i < at {
                    i
                } else {
                    i - 1
                };
                let b = if j < at {
                    j
                } else {
                    j - 1
                };
                assert(before.commits[a].id != before.commits[b].id);
            } else if i == at {
                assert(before.commits[j - 1].id != commit.id);
            } else {
                assert(before.commits[i].id != commit.id);
            }
        }
        assert forall|i: int, j: int| 0 <= i < j < after.commits.len() implies (
        #[trigger] after.commits[i]).timestamp <= (#[trigger] after.commits[j]).timestamp by {
            if i != at && j != at {
                let a = if i < at {
                    i
                } else {
                    i - 1
                };
                let b = if j < at {
                    j
                } else {
                    j - 1
                };
                if a < b {
                    assert(before.commits[a].timestamp <= before.commits[b].timestamp);
                }
            } else if i == at {
                assert(before.commits[j - 1].timestamp > commit.timestamp);
            } else {
                if i < at - 1 {
                    assert(before.commits[i].timestamp <= before.commits[at - 1].timestamp);
                }
            }
        }
        assert forall|id: u128| before.has_commit(id) implies after.has_commit(id) by {
            let i = choose|i: int|
                0 <= i < before.commits.len() && (#[trigger] before.commits[i]).id == id;
            let moved = if i < at {
                i
            } else {
                i + 1
            };
            assert(after.commits[moved].id == id);
        }
        assert(before.all_resolve(commit));
        assert(after.supports(commit));
        assert forall|k: int| 0 <= k < after.commits.len() implies after.supports(
            #[trigger] after.commits[k],
        ) by {
            if k < at {
                assert(before.supports(before.commits[k]));
            } else if k > at {
                assert(before.supports(before.commits[k - 1]));
            }
        }
    }

    /// The commit with an identifier, with the changes it lists.
    pub fn get_commit(&self, id: &u128) -> (found: Result<Commit, Error>)
        requires
            self@.wf(),
        ensures
            match found {
                Ok(commit) => self@.has_commit(*id) && commit@ == self@.commit(*id),
                Err(error) => !self@.has_commit(*id) && error@ == ErrorView::CommitNotFound(
                    canonical_text(*id),
                ),
            },
    {
        match self.commit_index(*id) {
            Some(i) => {
                proof {
                    let chosen = choose|k: int|
                        0 <= k < self@.commits.len() && (#[trigger] self@.commits[k]).id == *id;
                    assert(chosen == i);
                }
                Ok(self.commits[i].clone())
            },
            None => Err(Error::CommitNotFound(format_id(*id))),
        }
    }

    fn change_is_committed(&self, change_id: u128) -> (yes: bool)
        ensures
            yes == self@.is_committed(change_id),
    {
        let mut k: usize = 0;
        while k < self.commits.len()
            invariant
                k <= self.commits.len(),
                forall|c: int|
                    0 <= c < k ==> !(#[trigger] self@.commits[c]).changes.contains(change_id),
            decreases self.commits.len() - k,
        {
            let listed = &self.commits[k].changes;
            assert(listed@ == self@.commits[k as int].changes);
            let mut j: usize = 0;
            while j < listed.len()
                invariant
                    j <= listed.len(),
                    k < self.commits.len(),
                    listed@ == self@.commits[k as int].changes,
                    forall|m: int| 0 <= m < j ==> #[trigger] listed@[m] != change_id,
                decreases listed.len() - j,
            {
                if listed[j] == change_id {
                    assert(listed@[j as int] == change_id);
                    assert(self@.commits[k as int].changes.contains(change_id));
                    return true;
                }
                j += 1;
            }
            assert(!self@.commits[k as int].changes.contains(change_id));
            k += 1;
        }
        false
    }

    /// The changes of a session to which no commit refers, newest first.
    /// This never fails.
    pub fn get_uncommitted_changes(&self, session_id: &u128) -> (listing: Result<
        Vec<Change>,
        Error,
    >)
        requires
            self@.wf(),
        ensures
            listing matches Ok(changes) && change_views(changes@) == self@.uncommitted_changes(
                *session_id,
            ),
            listing matches Ok(changes) ==> {
                &&& forall|i: int|
                    0 <= i < changes.len() ==> (#[trigger] changes[i]).session_id == *session_id
                        && self@.has_change(changes[i].id) && !self@.is_committed(changes[i].id)
                &&& forall|i: int, j: int|
                    0 <= i < j < changes.len() ==> (#[trigger] changes[i]).timestamp >= (
                    #[trigger] changes[j]).timestamp
            },
    {
        proof {
            listed_changes_are_uncommitted(self@, *session_id, 0);
            listing_is_newest_first(self@, *session_id, 0);
        }
        let mut changes: Vec<Change> = Vec::new();
        let mut i: usize = self.changes.len();
        assert(change_views(changes@) =~= self@.uncommitted_from(*session_id, i as int));
        while i > 0
            invariant
                i <= self.changes.len(),
                change_views(changes@) == self@.uncommitted_from(*session_id, i as int),
            decreases i,
        {
            i -= 1;
            let change = &self.changes[i];
            assert(change@ == self@.changes[i as int]);
            if change.session_id == *session_id && !self.change_is_committed(change.id) {
                let ghost before = change_views(changes@);
                changes.push(change.clone());
                assert(change_views(changes@) =~= before.push(change@));
            }
        }
        proof {
            assert forall|i: int| 0 <= i < changes.len() implies (#[trigger] changes[i])@
                == change_views(changes@)[i] by {}
        }
        Ok(changes)
    }

    fn holds_path(paths: &Vec<String>, path: &String) -> (yes: bool)
        ensures
            yes == paths.deep_view().contains(path@),
    {
        let mut i: usize = 0;
        while i < paths.len()
            invariant
                i <= paths.len(),
                forall|k: int| 0 <= k < i ==> #[trigger] paths.deep_view()[k] != path@,
            decreases paths.len() - i,
        {
            assert(paths.deep_view()[i as int] == paths@[i as int]@);
            if same_text(paths[i].as_str(), path.as_str()) {
                return true;
            }
            i += 1;
        }
        false
    }

    /// A commit with what is derived from its changes: how many of them
    /// exist, and their paths, each once. This never fails.
    pub fn get_commit_info(&self, commit: &Commit) -> (info: Result<CommitInfo, Error>)
        requires
            self@.wf(),
        ensures
            info matches Ok(info) && info@ == self@.info(commit@),
    {
        let ghost ids = commit@.changes;
        let mut change_count: usize = 0;
        let mut files_affected: Vec<String> = Vec::new();
        let mut m: usize = 0;
        assert(ids.take(0) =~= Seq::empty());
        assert(files_affected.deep_view() =~= Seq::empty());
        while m < commit.changes.len()
            invariant
                m <= commit.changes.len(),
                ids == commit@.changes,
                self@.wf(),
                change_count <= m,
                change_count == self@.resolved_count(ids.take(m as int)),
                files_affected.deep_view() == self@.affected_paths(ids.take(m as int)),
            decreases commit.changes.len() - m,
        {
            proof {
                assert(ids.take(m + 1).drop_last() =~= ids.take(m as int));
                assert(ids.take(m + 1).last() == ids[m as int]);
            }
            let id = commit.changes[m];
            match self.change_index(id) {
                Some(i) => {
                    proof {
                        let chosen = choose|k: int|
                            0 <= k < self@.changes.len() && (#[trigger] self@.changes[k]).id == id;
                        assert(chosen == i);
                    }
                    change_count += 1;
                    let path = &self.changes[i].path;
                    if !Self::holds_path(&files_affected, path) {
                        let ghost before = files_affected.deep_view();
                        files_affected.push(path.clone());
                        assert(files_affected.deep_view() =~= before.push(path@));
                    }
                },
                None => {},
            }
            m += 1;
        }
        assert(ids.take(m as int) =~= ids);
        Ok(CommitInfo { commit: commit.clone(), change_count, files_affected })
    }

    /// The commits of a session, newest first, each with what is derived
    /// from its changes. This never fails.
    pub fn get_commits_for_session(&self, session_id: &u128) -> (listing: Result<
        Vec<CommitInfo>,
        Error,
    >)
        requires
            self@.wf(),
        ensures
            listing matches Ok(infos) && info_views(infos@) == self@.commits_of(*session_id),
            listing matches Ok(infos) ==> {
                &&& forall|i: int|
                    0 <= i < infos.len() ==> (#[trigger] infos[i]).commit.session_id == *session_id
                        && self@.has_commit(infos[i].commit.id) && infos[i]@ == self@.info(
                        self@.commit(infos[i].commit.id),
                    )
                &&& forall|i: int, j: int|
                    0 <= i < j < infos.len() ==> (#[trigger] infos[i]).commit.timestamp >= (
                    #[trigger] infos[j]).commit.timestamp
            },
    {
        proof {
            listed_commits_belong_to_session(self@, *session_id, 0);
            commit_listing_is_newest_first(self@, *session_id, 0);
        }
        let mut infos: Vec<CommitInfo> = Vec::new();
        let mut i: usize = self.commits.len();
        assert(info_views(infos@) =~= self@.commits_from(*session_id, i as int));
        while i > 0
            invariant
                i <= self.commits.len(),
                self@.wf(),
                info_views(infos@) == self@.commits_from(*session_id, i as int),
            decreases i,
        {
            i -= 1;
            let commit = &self.commits[i];
            assert(commit@ == self@.commits[i as int]);
            if commit.session_id == *session_id {
                let ghost before = info_views(infos@);
                match self.get_commit_info(commit) {
                    Ok(info) => {
                        infos.push(info);
                        assert(info_views(infos@) =~= before.push(self@.info(commit@)));
                    },
                    Err(error) => {
                        return Err(error);
                    },
                }
            }
        }
        proof {
            assert forall|i: int| 0 <= i < infos.len() implies (#[trigger] infos[i])@ == info_views(
                infos@,
            )[i] by {}
        }
        Ok(infos)
    }

    pub(crate) proof fn grown_sessions_keep_wf(before: StorageView, session: SessionView)
        requires
            before.wf(),
            before.session_refusal(session) is None,
        ensures
            before.with_session(session).wf(),
    {
        let after = before.with_session(session);
        assert forall|id: u128| before.has_session(id) implies after.has_session(id) by {
            let i = choose|i: int|
                0 <= i < before.sessions.len() && (#[trigger] before.sessions[i]).id == id;
            assert(after.sessions[i].id == id);
        }
        assert forall|k: int| 0 <= k < after.commits.len() implies after.supports(
            #[trigger] after.commits[k],
        ) by {
            assert(before.supports(before.commits[k]));
        }
    }
}

/// A store is well formed after a session was created in it.
pub proof fn session_creation_keeps_store_well_formed(store: StorageView, session: SessionView)
    requires
        store.wf(),
        store.session_refusal(session) is None,
    ensures
        store.with_session(session).wf(),
{
    Storage::grown_sessions_keep_wf(store, session);
}

/// At most one session of a well-formed store is active, and it is the one
/// that the store reports as active.
pub proof fn active_session_is_unique(store: StorageView, i: int)
    requires
        store.wf(),
        0 <= i < store.sessions.len(),
        store.sessions[i].active,
    ensures
        store.has_active_session(),
        store.active_session() == store.sessions[i],
        forall|j: int|
            0 <= j < store.sessions.len() && (#[trigger] store.sessions[j]).active ==> j == i,
{
    assert forall|j: int| 0 <= j < store.sessions.len() && (
    #[trigger] store.sessions[j]).active implies j == i by {
        if j < i {
            assert(!(store.sessions[j].active && store.sessions[i].active));
        } else if i < j {
            assert(!(store.sessions[i].active && store.sessions[j].active));
        }
    }
}

/// While a session is active, no second active session can be created, and
/// the active session stays the same whatever else is created.
pub proof fn second_active_session_is_refused(store: StorageView, session: SessionView)
    requires
        store.wf(),
        store.has_active_session(),
    ensures
        session.active ==> store.session_refusal(session) is Some,
        store.session_refusal(session) is None ==> store.with_session(session).active_session()
            == store.active_session(),
{
    if store.session_refusal(session) is None {
        let after = store.with_session(session);
        let i = choose|i: int| 0 <= i < store.sessions.len() && (#[trigger] store.sessions[i]).active;
        Storage::grown_sessions_keep_wf(store, session);
        assert(after.sessions[i] == store.sessions[i]);
        active_session_is_unique(after, i);
    }
}

/// A change that was recorded is found under its identifier, equal in every
/// field to what was recorded, its hashes with it; and every change that was
/// there before is found as before.
pub proof fn recorded_change_is_found(store: StorageView, change: ChangeView, other: u128)
    requires
        store.wf(),
        store.change_refusal(change) is None,
    ensures
        store.with_change(change).wf(),
        store.with_change(change).has_change(change.id),
        store.with_change(change).change(change.id) == change,
        change.hashes_consistent() ==> store.with_change(change).change(
            change.id,
        ).hashes_consistent(),
        store.has_change(other) ==> store.with_change(change).has_change(other)
            && store.with_change(change).change(other) == store.change(other),
{
    let after = store.with_change(change);
    let at = StorageView::slot(store.change_times(), change.timestamp);
    slot_is_in_order(store.change_times(), change.timestamp);
    assert forall|k: int| at <= k < store.changes.len() implies (
    #[trigger] store.changes[k]).timestamp > change.timestamp by {
        assert(store.change_times()[k] == store.changes[k].timestamp);
    }
    if at > 0 {
        assert(store.change_times()[at - 1] == store.changes[at - 1].timestamp);
    }
    Storage::grown_changes_keep_wf(store, change, at);
    assert(after.changes[at] == change);
    let found = choose|i: int| 0 <= i < after.changes.len() && (#[trigger] after.changes[i]).id
        == change.id;
    unique_change_position(after, at, found);
    if store.has_change(other) {
        let i = choose|i: int| 0 <= i < store.changes.len() && (#[trigger] store.changes[i]).id
            == other;
        let moved = if i < at {
            i
        } else {
            i + 1
        };
        assert(after.changes[moved] == store.changes[i]);
        let again = choose|i: int| 0 <= i < after.changes.len() && (#[trigger] after.changes[i]).id
            == other;
        unique_change_position(after, moved, again);
    }
}

/// The slot of a timestamp lies behind every record that is not later and
/// before every record that is later, where the records are in order.
pub proof fn slot_is_in_order(times: Seq<i64>, timestamp: i64)
    ensures
        0 <= StorageView::slot(times, timestamp) <= times.len(),
        StorageView::slot(times, timestamp) > 0 ==> times[StorageView::slot(times, timestamp) - 1]
            <= timestamp,
        forall|k: int|
            StorageView::slot(times, timestamp) <= k < times.len() ==> #[trigger] times[k]
                > timestamp,
    decreases times.len(),
{
    if times.len() > 0 && times.last() > timestamp {
        slot_is_in_order(times.drop_last(), timestamp);
        let at = StorageView::slot(times.drop_last(), timestamp);
        assert forall|k: int| at <= k < times.len() implies #[trigger] times[k] > timestamp by {
            if k < times.len() - 1 {
                assert(times.drop_last()[k] == times[k]);
            }
        }
        if at > 0 {
            assert(times.drop_last()[at - 1] == times[at - 1]);
        }
    }
}

proof fn unique_change_position(store: StorageView, i: int, j: int)
    requires
        store.wf(),
        0 <= i < store.changes.len(),
        0 <= j < store.changes.len(),
        store.changes[i].id == store.changes[j].id,
    ensures
        i == j,
{
    if i < j {
        assert(store.changes[i].id != store.changes[j].id);
    } else if j < i {
        assert(store.changes[j].id != store.changes[i].id);
    }
}

proof fn unique_commit_position(store: StorageView, i: int, j: int)
    requires
        store.wf(),
        0 <= i < store.commits.len(),
        0 <= j < store.commits.len(),
        store.commits[i].id == store.commits[j].id,
    ensures
        i == j,
{
    if i < j {
        assert(store.commits[i].id != store.commits[j].id);
    } else if j < i {
        assert(store.commits[j].id != store.commits[i].id);
    }
}

/// A commit that was made is found under its identifier with the changes it
/// was made with, in the same order and hence the same set.
pub proof fn made_commit_is_found(store: StorageView, commit: CommitView)
    requires
        store.wf(),
        store.commit_refusal(commit) is None,
    ensures
        store.with_commit(commit).wf(),
        store.with_commit(commit).has_commit(commit.id),
        store.with_commit(commit).commit(commit.id) == commit,
        store.with_commit(commit).commit(commit.id).changes.to_set() == commit.changes.to_set(),
{
    let after = store.with_commit(commit);
    let at = StorageView::slot(store.commit_times(), commit.timestamp);
    slot_is_in_order(store.commit_times(), commit.timestamp);
    assert forall|k: int| at <= k < store.commits.len() implies (
    #[trigger] store.commits[k]).timestamp > commit.timestamp by {
        assert(store.commit_times()[k] == store.commits[k].timestamp);
    }
    if at > 0 {
        assert(store.commit_times()[at - 1] == store.commits[at - 1].timestamp);
    }
    Storage::grown_commits_keep_wf(store, commit, at);
    assert(after.commits[at] == commit);
    let found = choose|i: int| 0 <= i < after.commits.len() && (#[trigger] after.commits[i]).id
        == commit.id;
    unique_commit_position(after, at, found);
}

/// Every change in the listing of uncommitted changes exists, belongs to
/// the session asked for, and is referred to by no commit.
pub proof fn listed_changes_are_uncommitted(store: StorageView, session_id: u128, from: int)
    ensures
        forall|i: int|
            0 <= i < store.uncommitted_from(session_id, from).len() ==> {
                let listed = #[trigger] store.uncommitted_from(session_id, from)[i];
                &&& store.has_change(listed.id)
                &&& listed.session_id == session_id
                &&& !store.is_committed(listed.id)
            },
    decreases store.changes.len() - from,
{
    if 0 <= from < store.changes.len() {
        listed_changes_are_uncommitted(store, session_id, from + 1);
        let newer = store.uncommitted_from(session_id, from + 1);
        let all = store.uncommitted_from(session_id, from);
        assert forall|i: int| 0 <= i < all.len() implies {
            let listed = #[trigger] all[i];
            &&& store.has_change(listed.id)
            &&& listed.session_id == session_id
            &&& !store.is_committed(listed.id)
        } by {
            if i < newer.len() {
                assert(all[i] == newer[i]);
            } else {
                assert(all[i] == store.changes[from]);
            }
        }
    }
}

/// Every uncommitted change of a session stands in the listing.
pub proof fn uncommitted_changes_are_listed(
    store: StorageView,
    session_id: u128,
    from: int,
    at: int,
)
    requires
        0 <= from <= at < store.changes.len(),
        store.is_uncommitted(store.changes[at], session_id),
    ensures
        store.uncommitted_from(session_id, from).contains(store.changes[at]),
    decreases at - from,
{
    let all = store.uncommitted_from(session_id, from);
    let newer = store.uncommitted_from(session_id, from + 1);
    if from == at {
        assert(all == newer.push(store.changes[at]));
        assert(all[newer.len() as int] == store.changes[at]);
    } else {
        uncommitted_changes_are_listed(store, session_id, from + 1, at);
        let i = choose|i: int| 0 <= i < newer.len() && newer[i] == store.changes[at];
        assert(all[i] == newer[i]);
    }
}

/// The listing of uncommitted changes runs from the newest to the oldest.
pub proof fn listing_is_newest_first(store: StorageView, session_id: u128, from: int)
    requires
        store.wf(),
        0 <= from,
    ensures
        forall|i: int, j: int|
            0 <= i < j < store.uncommitted_from(session_id, from).len() ==> (
            #[trigger] store.uncommitted_from(session_id, from)[i]).timestamp >= (
            #[trigger] store.uncommitted_from(session_id, from)[j]).timestamp,
        forall|i: int|
            0 <= i < store.uncommitted_from(session_id, from).len() && from < store.changes.len()
                ==> (#[trigger] store.uncommitted_from(session_id, from)[i]).timestamp
                >= store.changes[from].timestamp,
    decreases store.changes.len() - from,
{
    if from < store.changes.len() {
        listing_is_newest_first(store, session_id, from + 1);
        let newer = store.uncommitted_from(session_id, from + 1);
        let all = store.uncommitted_from(session_id, from);
        assert forall|i: int| 0 <= i < all.len() implies (#[trigger] all[i]).timestamp
            >= store.changes[from].timestamp by {
            if i < newer.len() {
                assert(all[i] == newer[i]);
                assert(newer[i].timestamp >= store.changes[from + 1].timestamp);
                assert(store.changes[from].timestamp <= store.changes[from + 1].timestamp);
            }
        }
        assert forall|i: int, j: int| 0 <= i < j < all.len() implies (#[trigger] all[i]).timestamp
            >= (#[trigger] all[j]).timestamp by {
            assert(all[i] == newer[i]);
            if j < newer.len() {
                assert(all[j] == newer[j]);
            } else {
                assert(all[j] == store.changes[from]);
            }
        }
    }
}

/// Once a commit is made, none of the changes it lists stands in the
/// listing of uncommitted changes of any session.
pub proof fn committed_changes_leave_listing(
    store: StorageView,
    commit: CommitView,
    session_id: u128,
)
    requires
        store.wf(),
        store.commit_refusal(commit) is None,
    ensures
        forall|i: int, m: int|
            0 <= i < store.with_commit(commit).uncommitted_changes(session_id).len() && 0 <= m
                < commit.changes.len() ==> (#[trigger] store.with_commit(
                commit,
            ).uncommitted_changes(session_id)[i]).id != #[trigger] commit.changes[m],
{
    let after = store.with_commit(commit);
    let at = StorageView::slot(store.commit_times(), commit.timestamp);
    slot_is_in_order(store.commit_times(), commit.timestamp);
    assert(after.commits[at] == commit);
    listed_changes_are_uncommitted(after, session_id, 0);
    assert forall|i: int, m: int|
        0 <= i < after.uncommitted_changes(session_id).len() && 0 <= m
            < commit.changes.len() implies (#[trigger] after.uncommitted_changes(session_id)[i]).id
        != #[trigger] commit.changes[m] by {
        assert(after.commits[at].changes.contains(commit.changes[m]));
        assert(after.is_committed(commit.changes[m]));
    }
}

/// Every commit in the listing of a session's commits exists, belongs to
/// the session asked for, and comes with what is derived from it.
pub proof fn listed_commits_belong_to_session(store: StorageView, session_id: u128, from: int)
    requires
        store.wf(),
    ensures
        forall|i: int|
            0 <= i < store.commits_from(session_id, from).len() ==> {
                let listed = #[trigger] store.commits_from(session_id, from)[i];
                &&& store.has_commit(listed.commit.id)
                &&& listed.commit.session_id == session_id
                &&& listed == store.info(store.commit(listed.commit.id))
            },
    decreases store.commits.len() - from,
{
    if 0 <= from < store.commits.len() {
        listed_commits_belong_to_session(store, session_id, from + 1);
        let newer = store.commits_from(session_id, from + 1);
        let all = store.commits_from(session_id, from);
        assert forall|i: int| 0 <= i < all.len() implies {
            let listed = #[trigger] all[i];
            &&& store.has_commit(listed.commit.id)
            &&& listed.commit.session_id == session_id
            &&& listed == store.info(store.commit(listed.commit.id))
        } by {
            if i < newer.len() {
                assert(all[i] == newer[i]);
            } else {
                assert(all[i] == store.info(store.commits[from]));
                let found = choose|k: int|
                    0 <= k < store.commits.len() && (#[trigger] store.commits[k]).id
                        == store.commits[from].id;
                unique_commit_position(store, from, found);
            }
        }
    }
}

/// The listing of a session's commits runs from the newest to the oldest.
pub proof fn commit_listing_is_newest_first(store: StorageView, session_id: u128, from: int)
    requires
        store.wf(),
        0 <= from,
    ensures
        forall|i: int, j: int|
            0 <= i < j < store.commits_from(session_id, from).len() ==> (
            #[trigger] store.commits_from(session_id, from)[i]).commit.timestamp >= (
            #[trigger] store.commits_from(session_id, from)[j]).commit.timestamp,
        forall|i: int|
            0 <= i < store.commits_from(session_id, from).len() && from < store.commits.len()
                ==> (#[trigger] store.commits_from(session_id, from)[i]).commit.timestamp
                >= store.commits[from].timestamp,
    decreases store.commits.len() - from,
{
    if from < store.commits.len() {
        commit_listing_is_newest_first(store, session_id, from + 1);
        let newer = store.commits_from(session_id, from + 1);
        let all = store.commits_from(session_id, from);
        assert forall|i: int| 0 <= i < all.len() implies (#[trigger] all[i]).commit.timestamp
            >= store.commits[from].timestamp by {
            if i < newer.len() {
                assert(all[i] == newer[i]);
                assert(newer[i].commit.timestamp >= store.commits[from + 1].timestamp);
                assert(store.commits[from].timestamp <= store.commits[from + 1].timestamp);
            }
        }
        assert forall|i: int, j: int| 0 <= i < j < all.len() implies (
        #[trigger] all[i]).commit.timestamp >= (#[trigger] all[j]).commit.timestamp by {
            assert(all[i] == newer[i]);
            if j < newer.len() {
                assert(all[j] == newer[j]);
            } else {
                assert(all[j] == store.info(store.commits[from]));
            }
        }
    }
}

/// No change stands twice in the listing of uncommitted changes, and each
/// stands among the changes of the store from `from` on.
pub proof fn listed_changes_are_distinct(store: StorageView, session_id: u128, from: int)
    requires
        store.wf(),
        0 <= from,
    ensures
        forall|i: int, j: int|
            0 <= i < j < store.uncommitted_from(session_id, from).len() ==> (
            #[trigger] store.uncommitted_from(session_id, from)[i]).id != (
            #[trigger] store.uncommitted_from(session_id, from)[j]).id,
        forall|i: int|
            0 <= i < store.uncommitted_from(session_id, from).len() ==> exists|k: int|
                from <= k < store.changes.len() && #[trigger] store.changes[k]
                    == #[trigger] store.uncommitted_from(session_id, from)[i],
    decreases store.changes.len() - from,
{
    if from < store.changes.len() {
        listed_changes_are_distinct(store, session_id, from + 1);
        let newer = store.uncommitted_from(session_id, from + 1);
        let all = store.uncommitted_from(session_id, from);
        assert forall|i: int| 0 <= i < all.len() implies exists|k: int|
            from <= k < store.changes.len() && #[trigger] store.changes[k] == #[trigger] all[i] by {
            if i < newer.len() {
                assert(all[i] == newer[i]);
                let k = choose|k: int|
                    from + 1 <= k < store.changes.len() && #[trigger] store.changes[k] == newer[i];
                assert(store.changes[k] == all[i]);
            } else {
                assert(store.changes[from] == all[i]);
            }
        }
        assert forall|i: int, j: int| 0 <= i < j < all.len() implies (#[trigger] all[i]).id != (
        #[trigger] all[j]).id by {
            assert(all[i] == newer[i]);
            if j < newer.len() {
                assert(all[j] == newer[j]);
            } else {
                let k = choose|k: int|
                    from + 1 <= k < store.changes.len() && #[trigger] store.changes[k] == newer[i];
                assert(store.changes[from].id != store.changes[k].id);
            }
        }
    }
}

/// Every commit of a session stands in the listing of its commits, with
/// what is derived from it.
pub proof fn session_commits_are_listed(store: StorageView, session_id: u128, from: int, at: int)
    requires
        0 <= from <= at < store.commits.len(),
        store.commits[at].session_id == session_id,
    ensures
        store.commits_from(session_id, from).contains(store.info(store.commits[at])),
    decreases at - from,
{
    let all = store.commits_from(session_id, from);
    let newer = store.commits_from(session_id, from + 1);
    if from == at {
        assert(all == newer.push(store.info(store.commits[at])));
        assert(all[newer.len() as int] == store.info(store.commits[at]));
    } else {
        session_commits_are_listed(store, session_id, from + 1, at);
        let i = choose|i: int| 0 <= i < newer.len() && newer[i] == store.info(store.commits[at]);
        assert(all[i] == newer[i]);
    }
}

/// No commit stands twice in the listing of a session's commits, and each
/// stands among the commits of the store from `from` on.
pub proof fn listed_commits_are_distinct(store: StorageView, session_id: u128, from: int)
    requires
        store.wf(),
        0 <= from,
    ensures
        forall|i: int, j: int|
            0 <= i < j < store.commits_from(session_id, from).len() ==> (
            #[trigger] store.commits_from(session_id, from)[i]).commit.id != (
            #[trigger] store.commits_from(session_id, from)[j]).commit.id,
        forall|i: int|
            0 <= i < store.commits_from(session_id, from).len() ==> exists|k: int|
                from <= k < store.commits.len() && #[trigger] store.commits[k] == (
                #[trigger] store.commits_from(session_id, from)[i]).commit,
    decreases store.commits.len() - from,
{
    if from < store.commits.len() {
        listed_commits_are_distinct(store, session_id, from + 1);
        let newer = store.commits_from(session_id, from + 1);
        let all = store.commits_from(session_id, from);
        assert forall|i: int| 0 <= i < all.len() implies exists|k: int|
            from <= k < store.commits.len() && #[trigger] store.commits[k] == (
            #[trigger] all[i]).commit by {
            if i < newer.len() {
                assert(all[i] == newer[i]);
                let k = choose|k: int|
                    from + 1 <= k < store.commits.len() && #[trigger] store.commits[k]
                        == newer[i].commit;
                assert(store.commits[k] == all[i].commit);
            } else {
                assert(all[i] == store.info(store.commits[from]));
                assert(store.commits[from] == all[i].commit);
            }
        }
        assert forall|i: int, j: int| 0 <= i < j < all.len() implies (
        #[trigger] all[i]).commit.id != (#[trigger] all[j]).commit.id by {
            assert(all[i] == newer[i]);
            if j < newer.len() {
                assert(all[j] == newer[j]);
            } else {
                assert(all[j] == store.info(store.commits[from]));
                let k = choose|k: int|
                    from + 1 <= k < store.commits.len() && #[trigger] store.commits[k]
                        == newer[i].commit;
                assert(store.commits[from].id != store.commits[k].id);
            }
        }
    }
}

/// No path stands twice among the affected paths.
pub proof fn affected_paths_are_distinct(store: StorageView, ids: Seq<u128>)
    ensures
        forall|i: int, j: int|
            0 <= i < j < store.affected_paths(ids).len() ==> #[trigger] store.affected_paths(
                ids,
            )[i] != #[trigger] store.affected_paths(ids)[j],
    decreases ids.len(),
{
    if ids.len() > 0 {
        affected_paths_are_distinct(store, ids.drop_last());
        let before = store.affected_paths(ids.drop_last());
        let all = store.affected_paths(ids);
        assert forall|i: int, j: int| 0 <= i < j < all.len() implies #[trigger] all[i]
            != #[trigger] all[j] by {
            if all.len() == before.len() {
                assert(all == before);
            } else {
                assert(all == before.push(store.change(ids.last()).path));
                if j < before.len() {
                    assert(before[i] != before[j]);
                } else {
                    assert(before[i] == all[i]);
                    if before[i] == all[j] {
                        assert(before.contains(store.change(ids.last()).path));
                    }
                }
            }
        }
    }
}

/// The affected paths are exactly the paths of the listed changes that
/// exist.
pub proof fn affected_paths_are_those_of_existing_changes(
    store: StorageView,
    ids: Seq<u128>,
    path: Seq<char>,
)
    ensures
        store.affected_paths(ids).contains(path) <==> exists|m: int|
            0 <= m < ids.len() && store.has_change(#[trigger] ids[m]) && store.change(ids[m]).path
                == path,
    decreases ids.len(),
{
    if ids.len() > 0 {
        let rest = ids.drop_last();
        affected_paths_are_those_of_existing_changes(store, rest, path);
        let before = store.affected_paths(rest);
        let all = store.affected_paths(ids);
        let last = ids.last();
        if all.contains(path) {
            let i = choose|i: int| 0 <= i < all.len() && all[i] == path;
            if i < before.len() {
                assert(before[i] == all[i]);
                assert(before.contains(path));
                let m = choose|m: int|
                    0 <= m < rest.len() && store.has_change(#[trigger] rest[m]) && store.change(
                        rest[m],
                    ).path == path;
                assert(ids[m] == rest[m]);
            } else {
                assert(all == before.push(store.change(last).path));
                assert(ids[ids.len() - 1] == last);
            }
        }
        if exists|m: int|
            0 <= m < ids.len() && store.has_change(#[trigger] ids[m]) && store.change(ids[m]).path
                == path {
            let m = choose|m: int|
                0 <= m < ids.len() && store.has_change(#[trigger] ids[m]) && store.change(
                    ids[m],
                ).path == path;
            if m < rest.len() {
                assert(rest[m] == ids[m]);
                assert(before.contains(path));
                let i = choose|i: int| 0 <= i < before.len() && before[i] == path;
                assert(all[i] == before[i]);
            } else {
                assert(ids[m] == last);
                if before.contains(path) {
                    let i = choose|i: int| 0 <= i < before.len() && before[i] == path;
                    assert(all[i] == before[i]);
                } else {
                    assert(all == before.push(path));
                    assert(all[before.len() as int] == path);
                }
            }
        }
    } else {
        assert(store.affected_paths(ids) =~= Seq::empty());
    }
}

/// The count of resolved changes is never more than the changes listed,
/// and is their number where all of them exist.
pub proof fn resolved_count_counts_existing_changes(store: StorageView, ids: Seq<u128>)
    ensures
        store.resolved_count(ids) <= ids.len(),
        (forall|m: int| 0 <= m < ids.len() ==> store.has_change(#[trigger] ids[m]))
            ==> store.resolved_count(ids) == ids.len(),
    decreases ids.len(),
{
    if ids.len() > 0 {
        let rest = ids.drop_last();
        resolved_count_counts_existing_changes(store, rest);
        if forall|m: int| 0 <= m < ids.len() ==> store.has_change(#[trigger] ids[m]) {
            assert forall|m: int| 0 <= m < rest.len() implies store.has_change(
                #[trigger] rest[m],
            ) by {
                assert(rest[m] == ids[m]);
            }
            assert(store.has_change(ids[ids.len() - 1]));
        }
    }
}

/// Of a commit that the store holds every change exists, so the count
/// that is derived from it is the number of changes it lists.
pub proof fn stored_commit_counts_all_its_changes(store: StorageView, at: int)
    requires
        store.wf(),
        0 <= at < store.commits.len(),
    ensures
        store.info(store.commits[at]).change_count == store.commits[at].changes.len(),
{
    let commit = store.commits[at];
    assert(store.supports(commit));
    assert forall|m: int| 0 <= m < commit.changes.len() implies store.has_change(
        #[trigger] commit.changes[m],
    ) by {
        assert(store.resolves(commit.changes[m], commit.session_id));
        let i = choose|i: int|
            0 <= i < store.changes.len() && (#[trigger] store.changes[i]).id == commit.changes[m]
                && store.changes[i].session_id == commit.session_id;
        assert(store.changes[i].id == commit.changes[m]);
    }
    resolved_count_counts_existing_changes(store, commit.changes);
}

} // verus!
