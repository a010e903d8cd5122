//! The event pipeline: which filesystem notifications become changes, and
//! how they are recorded.

use crate::clock::now;
use crate::error::{Error, ErrorView};
use crate::ident::random_id;
use crate::models::{clone_texts, Change, ChangeType, ChangeView, Session};
use crate::storage::{
    change_views, recorded_change_is_found, slot_is_in_order, Storage, StorageView,
};
use crate::digest::content_hash;
use crate::text::{contains_text, is_substring, substring_of_substring};
use vstd::prelude::*;

verus! {

/// The quiet period, in milliseconds, after which the notifications that
/// were held back are handed over in one batch.
pub const DEBOUNCE_WINDOW_MILLIS: u64 = 500;

/// The kind of a filesystem notification.
#[derive(Debug, Clone, Copy, PartialEq, Eq, Structural)]
pub enum EventKind {
    Create,
    Modify,
    Remove,
    /// Any other notification: an access, a change of metadata alone.
    Other,
}

/// One path of a notification, with the bytes of the file where they were
/// read.
#[derive(Debug, PartialEq, Eq)]
pub struct ObservedPath {
    pub path: String,
    pub content: Option<Vec<u8>>,
}

/// The kind of change that a notification gives rise to, if any.
pub open spec fn change_type_of(kind: EventKind) -> Option<ChangeType> {
    match kind {
        EventKind::Create => Some(ChangeType::Create),
        EventKind::Modify => Some(ChangeType::Modify),
        EventKind::Remove => Some(ChangeType::Delete),
        EventKind::Other => None,
    }
}

/// Whether the file's bytes are captured for a notification of a kind: for
/// a creation and a modification, never for a removal.
pub open spec fn content_captured(kind: EventKind) -> bool {
    kind == EventKind::Create || kind == EventKind::Modify
}

/// Whether one of the patterns occurs in the path as a substring.
pub open spec fn matches_any(relative_path: Seq<char>, patterns: Seq<Seq<char>>) -> bool {
    exists|i: int| 0 <= i < patterns.len() && is_substring(#[trigger] patterns[i], relative_path)
}

/// The change that a notification for a path gives rise to. The content
/// that was read becomes the content after the change, with its hash; the
/// content before the change is never captured here.
pub open spec fn change_of(
    kind: EventKind,
    path: Seq<char>,
    content: Option<Seq<u8>>,
    session_id: u128,
    id: u128,
    timestamp: i64,
) -> Option<ChangeView> {
    match change_type_of(kind) {
        Some(change_type) => {
            let bare = ChangeView::bare(id, timestamp, change_type, path, session_id);
            if content_captured(kind) && content is Some {
                Some(
                    ChangeView {
                        content_after: content,
                        content_hash_after: Some(content_hash(content->0)),
                        ..bare
                    },
                )
            } else {
                Some(bare)
            }
        },
        None => None,
    }
}

/// The view of a change that may be missing.
pub open spec fn optional_view(change: Option<Change>) -> Option<ChangeView> {
    match change {
        Some(change) => Some(change@),
        None => None,
    }
}

/// The path without the root in front, as `Path::strip_prefix` gives it
/// under the rules on paths of the platform that the crate is built for, or
/// nothing where the path does not lie under the root.
pub uninterp spec fn stripped_of_root(path: Seq<char>, root_path: Seq<char>) -> Option<Seq<char>>;

/// The relative path where it is a part of the path, else nothing.
pub open spec fn part_of_path(path: Seq<char>, relative_path: Option<Seq<char>>) -> Option<
    Seq<char>,
> {
    match relative_path {
        Some(relative_path) => if is_substring(relative_path, path) {
            Some(relative_path)
        } else {
            None
        },
        None => None,
    }
}

/// The text that is held against the patterns, given the relative path: the
/// relative path where there is one, else the path as it is.
pub open spec fn seen_text(path: Seq<char>, relative_path: Option<Seq<char>>) -> Seq<char> {
    match relative_path {
        Some(relative_path) => relative_path,
        None => path,
    }
}

/// The text of a path that is held against the patterns: the path relative
/// to the root where it lies under the root, else the path as it is.
pub open spec fn relative_text(path: Seq<char>, root_path: Seq<char>) -> Seq<char> {
    seen_text(path, part_of_path(path, stripped_of_root(path, root_path)))
}

/// Whether a path under a root is ignored: whether one of the patterns
/// occurs in its relative text.
#[verifier::opaque]
pub open spec fn is_ignored(path: Seq<char>, root_path: Seq<char>, patterns: Seq<Seq<char>>) -> bool {
    matches_any(relative_text(path, root_path), patterns)
}

/// What came from outside for one path of a notification: the fresh
/// identifier and the time.
pub struct Given {
    pub id: u128,
    pub timestamp: i64,
}

/// How far the handling of a notification has come: the store, the changes
/// recorded so far and the failures so far.
pub struct Progress {
    pub store: StorageView,
    pub recorded: Seq<ChangeView>,
    pub failures: Seq<ErrorView>,
}

/// The handling of a notification before its first path.
pub open spec fn begun(store: StorageView) -> Progress {
    Progress { store, recorded: Seq::empty(), failures: Seq::empty() }
}

/// How recording a change ends: the store takes it, or refuses it and stays
/// as it is.
pub open spec fn after_change(before: Progress, change: ChangeView) -> Progress {
    match before.store.change_refusal(change) {
        None => Progress {
            store: before.store.with_change(change),
            recorded: before.recorded.push(change),
            failures: before.failures,
        },
        Some(error) => Progress {
            store: before.store,
            recorded: before.recorded,
            failures: before.failures.push(error),
        },
    }
}

/// The handling after one more path. A path that is ignored is passed over,
/// and so is every path of a notification that gives rise to no change; of
/// any other path the change is recorded.
pub open spec fn after_path(
    before: Progress,
    kind: EventKind,
    observed: ObservedPath,
    root_path: Seq<char>,
    patterns: Seq<Seq<char>>,
    session_id: u128,
    given: Given,
) -> Progress {
    if is_ignored(observed.path@, root_path, patterns) {
        before
    } else {
        match change_of(
            kind,
            observed.path@,
            observed.content.deep_view(),
            session_id,
            given.id,
            given.timestamp,
        ) {
            Some(change) => after_change(before, change),
            None => before,
        }
    }
}

/// The handling after all the paths, taken in their order, each with what
/// came from outside for it.
pub open spec fn after_paths(
    before: Progress,
    kind: EventKind,
    paths: Seq<ObservedPath>,
    root_path: Seq<char>,
    patterns: Seq<Seq<char>>,
    session_id: u128,
    given: Seq<Given>,
) -> Progress
    decreases paths.len(),
{
    if paths.len() == 0 {
        before
    } else {
        after_path(
            after_paths(
                before,
                kind,
                paths.drop_last(),
                root_path,
                patterns,
                session_id,
                given.drop_last(),
            ),
            kind,
            paths.last(),
            root_path,
            patterns,
            session_id,
            given.last(),
        )
    }
}

/// A path in which no pattern occurs is never ignored; nothing is ignored
/// without patterns; everything is ignored where a pattern is empty.
pub proof fn ignoring_needs_a_pattern_in_the_path(
    path: Seq<char>,
    root_path: Seq<char>,
    patterns: Seq<Seq<char>>,
)
    ensures
        is_substring(relative_text(path, root_path), path),
        !matches_any(path, patterns) ==> !is_ignored(path, root_path, patterns),
        patterns.len() == 0 ==> !is_ignored(path, root_path, patterns),
        (exists|i: int| 0 <= i < patterns.len() && (#[trigger] patterns[i]).len() == 0)
            ==> is_ignored(path, root_path, patterns),
{
    reveal(is_ignored);
    let seen = relative_text(path, root_path);
    substring_of_substring(seen, seen, path);
    if is_ignored(path, root_path, patterns) {
        let i = choose|i: int| 0 <= i < patterns.len() && is_substring(#[trigger] patterns[i], seen);
        substring_of_substring(patterns[i], seen, path);
    }
    if exists|i: int| 0 <= i < patterns.len() && (#[trigger] patterns[i]).len() == 0 {
        let i = choose|i: int| 0 <= i < patterns.len() && (#[trigger] patterns[i]).len() == 0;
        assert(seen.subrange(0, 0 + patterns[i].len() as int) =~= patterns[i]);
        assert(is_substring(patterns[i], seen));
    }
}

/// The views of a run of failures.
pub open spec fn failure_views(failures: Seq<Error>) -> Seq<ErrorView> {
    Seq::new(failures.len(), |i: int| failures[i]@)
}

/// What recording a change gave: the change where the store took it, the
/// failure where it refused it.
pub open spec fn recording_view(outcome: Option<Result<Change, Error>>) -> Option<
    Result<ChangeView, ErrorView>,
> {
    match outcome {
        Some(Ok(change)) => Some(Ok(change@)),
        Some(Err(error)) => Some(Err(error@)),
        None => None,
    }
}

/// `Path::strip_prefix`: the path without the root in front, or nothing
/// where the path does not lie under the root. The call reads the two
/// texts alone; the contract only names the result.
#[verifier::external_body]
fn strip_root(path: &str, root_path: &str) -> (relative_path: Option<String>)
    ensures
        relative_path.deep_view() == stripped_of_root(path@, root_path@),
{
    std::path::Path::new(path).strip_prefix(root_path).ok().map(
        |rest| rest.to_string_lossy().into_owned(),
    )
}

/// What became of one notification: the changes that were recorded, and
/// the failures of those that the store refused.
#[derive(Debug, PartialEq, Eq)]
pub struct Handled {
    pub recorded: Vec<Change>,
    pub failures: Vec<Error>,
}

/// The rules of the pipeline of one session.
#[derive(Debug, PartialEq, Eq)]
pub struct FileWatcher {
    pub session_id: u128,
    pub root_path: String,
    pub ignore_patterns: Vec<String>,
}

impl FileWatcher {
    /// The pipeline of a session: its identifier, root and ignore patterns.
    pub fn new(session: &Session) -> (watcher: FileWatcher)
        ensures
            watcher.session_id == session.id,
            watcher.root_path@ == session@.root_path,
            watcher.ignore_patterns.deep_view() == session@.ignore_patterns,
    {
        FileWatcher {
            session_id: session.id,
            root_path: session.root_path.clone(),
            ignore_patterns: clone_texts(&session.ignore_patterns),
        }
    }

    /// Whether a path, given relative to the root, is ignored: whether one
    /// of the patterns occurs in it as a substring.
    pub fn ignores(relative_path: &str, ignore_patterns: &Vec<String>) -> (ignored: bool)
        ensures
            ignored == matches_any(relative_path@, ignore_patterns.deep_view()),
    {
        let mut i: usize = 0;
        while i < ignore_patterns.len()
            invariant
                i <= ignore_patterns.len(),
                forall|k: int|
                    0 <= k < i ==> !is_substring(
                        #[trigger] ignore_patterns.deep_view()[k],
                        relative_path@,
                    ),
            decreases ignore_patterns.len() - i,
        {
            assert(ignore_patterns.deep_view()[i as int] == ignore_patterns@[i as int]@);
            if contains_text(relative_path, ignore_patterns[i].as_str()) {
                return true;
            }
            i += 1;
        }
        false
    }

    /// Whether a path is ignored, given its path relative to the root where
    /// it lies under the root: whether one of the patterns occurs in the
    /// relative path, or else in the path as it is.
    pub fn ignores_under_root(
        path: &str,
        relative_path: &Option<String>,
        ignore_patterns: &Vec<String>,
    ) -> (ignored: bool)
        ensures
            ignored == matches_any(
                seen_text(path@, relative_path.deep_view()),
                ignore_patterns.deep_view(),
            ),
    {
        match relative_path {
            Some(relative_path) => FileWatcher::ignores(relative_path.as_str(), ignore_patterns),
            None => FileWatcher::ignores(path, ignore_patterns),
        }
    }

    /// Whether a path is ignored: the path is taken relative to the root
    /// where it lies under it, and is then held against the patterns. The
    /// relative path is taken only where it is a part of the path, so a
    /// path in which no pattern occurs is never ignored. Nothing is ignored
    /// without patterns, and everything is ignored where a pattern is
    /// empty.
    pub fn should_ignore(path: &str, root_path: &str, ignore_patterns: &Vec<String>) -> (ignored:
        bool)
        ensures
            ignored == is_ignored(path@, root_path@, ignore_patterns.deep_view()),
            !matches_any(path@, ignore_patterns.deep_view()) ==> !ignored,
            ignore_patterns.len() == 0 ==> !ignored,
            (exists|i: int|
                0 <= i < ignore_patterns.len() && (#[trigger] ignore_patterns[i])@.len() == 0)
                ==> ignored,
    {
        let relative_path = match strip_root(path, root_path) {
            Some(relative_path) => if contains_text(path, relative_path.as_str()) {
                Some(relative_path)
            } else {
                None
            },
            None => None,
        };
        let ignored = FileWatcher::ignores_under_root(path, &relative_path, ignore_patterns);
        proof {
            reveal(is_ignored);
            let patterns = ignore_patterns.deep_view();
            assert(relative_path.deep_view() == part_of_path(
                path@,
                stripped_of_root(path@, root_path@),
            ));
            ignoring_needs_a_pattern_in_the_path(path@, root_path@, patterns);
            if exists|i: int|
                0 <= i < ignore_patterns.len() && (#[trigger] ignore_patterns[i])@.len() == 0 {
                let i = choose|i: int|
                    0 <= i < ignore_patterns.len() && (#[trigger] ignore_patterns[i])@.len() == 0;
                assert(patterns[i] == ignore_patterns[i]@);
            }
        }
        ignored
    }

    /// The kind of change that a notification gives rise to, if any.
    pub fn classify(kind: EventKind) -> (change_type: Option<ChangeType>)
        ensures
            change_type == change_type_of(kind),
    {
        match kind {
            EventKind::Create => Some(ChangeType::Create),
            EventKind::Modify => Some(ChangeType::Modify),
            EventKind::Remove => Some(ChangeType::Delete),
            EventKind::Other => None,
        }
    }

    /// Whether the file's bytes are to be read for a notification of a kind.
    pub fn captures_content(kind: EventKind) -> (captured: bool)
        ensures
            captured == content_captured(kind),
    {
        match kind {
            EventKind::Create => true,
            EventKind::Modify => true,
            _ => false,
        }
    }

    /// The change that a notification for a path gives rise to, under a
    /// given identifier and timestamp.
    pub fn change_for(
        kind: EventKind,
        path: String,
        content: Option<Vec<u8>>,
        session_id: u128,
        id: u128,
        timestamp: i64,
    ) -> (change: Option<Change>)
        ensures
            optional_view(change) == change_of(
                kind,
                path@,
                content.deep_view(),
                session_id,
                id,
                timestamp,
            ),
    {
        match FileWatcher::classify(kind) {
            Some(change_type) => {
                let change = Change::from_parts(id, timestamp, change_type, path, session_id);
                if FileWatcher::captures_content(kind) {
                    match content {
                        Some(bytes) => {
                            assert(bytes.deep_view() =~= bytes@);
                            Some(change.with_content_after(bytes))
                        },
                        None => Some(change),
                    }
                } else {
                    Some(change)
                }
            },
            None => None,
        }
    }

    /// Records the change that a notification for a path gives rise to,
    /// under a given identifier and timestamp. The change that the store
    /// took comes back, or the failure with which it refused it; nothing
    /// comes back where the notification gives rise to no change.
    pub fn record_change(
        &self,
        kind: EventKind,
        observed: ObservedPath,
        id: u128,
        timestamp: i64,
        storage: &mut Storage,
    ) -> (outcome: Option<Result<Change, Error>>)
        requires
            old(storage)@.wf(),
        ensures
            final(storage)@.wf(),
            recording_view(outcome) == match change_of(
                kind,
                observed.path@,
                observed.content.deep_view(),
                self.session_id,
                id,
                timestamp,
            ) {
                Some(change) => match old(storage)@.change_refusal(change) {
                    None => Some(Ok::<ChangeView, ErrorView>(change)),
                    Some(error) => Some(Err::<ChangeView, ErrorView>(error)),
                },
                None => None,
            },
            final(storage)@ == match outcome {
                Some(Ok(change)) => old(storage)@.with_change(change@),
                _ => old(storage)@,
            },
            final(storage)@.sessions == old(storage)@.sessions,
            final(storage)@.commits == old(storage)@.commits,
            forall|other: u128|
                old(storage)@.has_change(other) ==> final(storage)@.has_change(other)
                    && final(storage)@.change(other) == old(storage)@.change(other),
            outcome matches Some(Ok(change)) ==> {
                &&& !old(storage)@.has_change(change.id)
                &&& old(storage)@.has_session(self.session_id)
                &&& final(storage)@.has_change(change.id)
                &&& final(storage)@.change(change.id) == change@
                &&& final(storage)@.changes.len() == old(storage)@.changes.len() + 1
            },
    {
        let change = FileWatcher::change_for(
            kind,
            observed.path,
            observed.content,
            self.session_id,
            id,
            timestamp,
        );
        let ghost before = storage@;
        match change {
            Some(change) => match storage.create_change(&change) {
                Ok(()) => {
                    proof {
                        assert forall|other: u128| before.has_change(other) implies storage@.has_change(
                            other,
                        ) && storage@.change(other) == before.change(other) by {
                            recorded_change_is_found(before, change@, other);
                        }
                        recorded_change_is_found(before, change@, 0);
                        slot_is_in_order(before.change_times(), change@.timestamp);
                    }
                    Some(Ok(change))
                },
                Err(error) => Some(Err(error)),
            },
            None => None,
        }
    }

    /// Records the changes that one notification gives rise to, a change
    /// for each of its paths that is not ignored, each under a fresh
    /// identifier and the current time. A change that the store refuses
    /// does not stop the others: its failure is handed back. The paths are
    /// taken in their order: what is recorded, what fails and what the
    /// store becomes is what that handling gives, for the identifiers and
    /// the times that came from outside. Every change handed back as
    /// recorded is in the store
    /// as it is handed back. Sessions and commits stay as they are, and so
    /// does every change recorded before. A path in which no pattern occurs
    /// is never passed over.
    pub fn handle_event(
        &self,
        kind: EventKind,
        paths: Vec<ObservedPath>,
        storage: &mut Storage,
    ) -> (handled: Handled)
        requires
            old(storage)@.wf(),
        ensures
            final(storage)@.wf(),
            exists|given: Seq<Given>|
                given.len() == paths.len() && (#[trigger] after_paths(
                    begun(old(storage)@),
                    kind,
                    paths@,
                    self.root_path@,
                    self.ignore_patterns.deep_view(),
                    self.session_id,
                    given,
                )) == (Progress {
                    store: final(storage)@,
                    recorded: change_views(handled.recorded@),
                    failures: failure_views(handled.failures@),
                }),
            change_type_of(kind) is Some && (forall|j: int|
                0 <= j < paths.len() ==> !matches_any(
                    (#[trigger] paths[j]).path@,
                    self.ignore_patterns.deep_view(),
                )) ==> handled.recorded.len() + handled.failures.len() == paths.len(),
            (forall|j: int|
                0 <= j < paths.len() ==> is_ignored(
                    (#[trigger] paths[j]).path@,
                    self.root_path@,
                    self.ignore_patterns.deep_view(),
                )) ==> final(storage)@ == old(storage)@ && handled.recorded.len() == 0
                && handled.failures.len() == 0,
            final(storage)@.sessions == old(storage)@.sessions,
            final(storage)@.commits == old(storage)@.commits,
            forall|id: u128|
                old(storage)@.has_change(id) ==> final(storage)@.has_change(id)
                    && final(storage)@.change(id) == old(storage)@.change(id),
            forall|i: int|
                0 <= i < handled.recorded.len() ==> {
                    let change = (#[trigger] handled.recorded[i])@;
                    &&& final(storage)@.has_change(change.id)
                    &&& final(storage)@.change(change.id) == change
                    &&& !old(storage)@.has_change(change.id)
                    &&& !is_ignored(change.path, self.root_path@, self.ignore_patterns.deep_view())
                    &&& exists|j: int|
                        0 <= j < paths.len() && Some(change) == change_of(
                            kind,
                            (#[trigger] paths[j]).path@,
                            paths[j].content.deep_view(),
                            self.session_id,
                            change.id,
                            change.timestamp,
                        )
                },
            final(storage)@.changes.len() == old(storage)@.changes.len() + handled.recorded.len(),
            handled.recorded.len() + handled.failures.len() <= paths.len(),
            self.ignore_patterns.len() == 0 && change_type_of(kind) is Some
                ==> handled.recorded.len() + handled.failures.len() == paths.len(),
            !old(storage)@.has_session(self.session_id) ==> handled.recorded.len() == 0,
            change_type_of(kind) is None ==> final(storage)@ == old(storage)@
                && handled.recorded.len() == 0 && handled.failures.len() == 0,
    {
        let mut recorded: Vec<Change> = Vec::new();
        let mut failures: Vec<Error> = Vec::new();
        let ghost all = paths@;
        let ghost patterns = self.ignore_patterns.deep_view();
        let ghost root = self.root_path@;
        let ghost mut given: Seq<Given> = Seq::empty();
        let mut paths = paths;
        let ghost total = paths.len();
        let ghost start = storage@;
        let mut done: usize = 0;
        proof {
            assert(paths@ =~= all.skip(0));
            assert(all.take(0) =~= Seq::empty());
            assert(change_views(recorded@) =~= Seq::empty());
            assert(failure_views(failures@) =~= Seq::empty());
        }
        while paths.len() > 0
            invariant
                storage@.wf(),
                start.wf(),
                start == old(storage)@,
                patterns == self.ignore_patterns.deep_view(),
                given.len() == done,
                root == self.root_path@,
                (forall|j: int|
                    0 <= j < all.len() ==> is_ignored((#[trigger] all[j]).path@, root, patterns))
                    ==> storage@ == start && recorded.len() == 0 && failures.len() == 0,
                change_type_of(kind) is Some && (forall|j: int|
                    0 <= j < all.len() ==> !matches_any((#[trigger] all[j]).path@, patterns))
                    ==> recorded.len() + failures.len() == done,
                after_paths(
                    begun(start),
                    kind,
                    all.take(done as int),
                    root,
                    patterns,
                    self.session_id,
                    given,
                ) == (Progress {
                    store: storage@,
                    recorded: change_views(recorded@),
                    failures: failure_views(failures@),
                }),
                storage@.sessions == start.sessions,
                storage@.commits == start.commits,
                forall|id: u128|
                    start.has_change(id) ==> storage@.has_change(id) && storage@.change(id)
                        == start.change(id),
                forall|i: int|
                    0 <= i < recorded.len() ==> {
                        let change = (#[trigger] recorded[i])@;
                        &&& storage@.has_change(change.id)
                        &&& storage@.change(change.id) == change
                        &&& !start.has_change(change.id)
                        &&& !is_ignored(change.path, root, patterns)
                        &&& exists|j: int|
                            0 <= j < all.len() && Some(change) == change_of(
                                kind,
                                (#[trigger] all[j]).path@,
                                all[j].content.deep_view(),
                                self.session_id,
                                change.id,
                                change.timestamp,
                            )
                    },
                paths@ == all.skip(done as int),
                done + paths.len() == total,
                total == all.len(),
                recorded.len() + failures.len() <= done,
                self.ignore_patterns.len() == 0 && change_type_of(kind) is Some ==> recorded.len()
                    + failures.len() == done,
                !start.has_session(self.session_id) ==> recorded.len() == 0,
                storage@.changes.len() == start.changes.len() + recorded.len(),
                change_type_of(kind) is None ==> storage@ == start && recorded.len() == 0
                    && failures.len() == 0,
            decreases paths.len(),
        {
            let observed = paths.remove(0);
            proof {
                assert(observed == all[done as int]);
                assert(paths@ =~= all.skip(done + 1));
                assert(all.take(done + 1).drop_last() =~= all.take(done as int));
                assert(all.take(done + 1).last() == all[done as int]);
            }
            done += 1;
            let ignored = FileWatcher::should_ignore(
                observed.path.as_str(),
                self.root_path.as_str(),
                &self.ignore_patterns,
            );
            if ignored {
                proof {
                    let one = Given { id: 0, timestamp: 0 };
                    assert(given.push(one).drop_last() =~= given);
                    given = given.push(one);
                }
                continue ;
            }
            let id = random_id();
            let timestamp = now();
            proof {
                let one = Given { id, timestamp };
                assert(given.push(one).drop_last() =~= given);
                given = given.push(one);
            }
            let ghost before = storage@;
            let ghost recorded_before = change_views(recorded@);
            let ghost failures_before = failure_views(failures@);
            match self.record_change(kind, observed, id, timestamp, storage) {
                Some(Ok(change)) => {
                    proof {
                        assert(Some(change@) == change_of(
                            kind,
                            all[done - 1].path@,
                            all[done - 1].content.deep_view(),
                            self.session_id,
                            change@.id,
                            change@.timestamp,
                        ));
                        assert(change@.path == all[done - 1].path@);
                    }
                    recorded.push(change);
                    assert(change_views(recorded@) =~= recorded_before.push(change@));
                },
                Some(Err(error)) => {
                    failures.push(error);
                    assert(failure_views(failures@) =~= failures_before.push(error@));
                },
                None => {},
            }
        }
        proof {
            assert(all.take(done as int) =~= all);
        }
        Handled { recorded, failures }
    }
}

} // verus!
