//! The entities of the engine: sessions, changes and commits.

use crate::clock::now;
use crate::digest::{content_hash, hash_content};
use crate::ident::random_id;
use crate::text::same_text;
use vstd::prelude::*;
use vstd::string::*;

verus! {

/// The kind of filesystem mutation that a change records.
#[derive(Debug, Clone, Copy, PartialEq, Eq, Structural)]
pub enum ChangeType {
    Create,
    Modify,
    Delete,
    Rename,
}

impl ChangeType {
    /// The lower-case name under which a kind is stored and exchanged.
    pub open spec fn name(self) -> Seq<char> {
        match self {
            ChangeType::Create => "create"@,
            ChangeType::Modify => "modify"@,
            ChangeType::Delete => "delete"@,
            ChangeType::Rename => "rename"@,
        }
    }

    /// The kind that a name denotes, if any.
    pub open spec fn named(name: Seq<char>) -> Option<ChangeType> {
        if name == "create"@ {
            Some(ChangeType::Create)
        } else if name == "modify"@ {
            Some(ChangeType::Modify)
        } else if name == "delete"@ {
            Some(ChangeType::Delete)
        } else if name == "rename"@ {
            Some(ChangeType::Rename)
        } else {
            None
        }
    }

    /// The name of a kind.
    pub fn as_str(&self) -> (name: &str)
        ensures
            name@ == self.name(),
    {
        match self {
            ChangeType::Create => "create",
            ChangeType::Modify => "modify",
            ChangeType::Delete => "delete",
            ChangeType::Rename => "rename",
        }
    }

    /// The kind that a name denotes, if any.
    pub fn parse(s: &str) -> (kind: Option<ChangeType>)
        ensures
            kind == ChangeType::named(s@),
    {
        if same_text(s, "create") {
            Some(ChangeType::Create)
        } else if same_text(s, "modify") {
            Some(ChangeType::Modify)
        } else if same_text(s, "delete") {
            Some(ChangeType::Delete)
        } else if same_text(s, "rename") {
            Some(ChangeType::Rename)
        } else {
            None
        }
    }

    /// Every kind is found again from its name, and only from its name.
    pub proof fn name_round_trip(kind: ChangeType, name: Seq<char>)
        ensures
            ChangeType::named(kind.name()) == Some(kind),
            ChangeType::named(name) == Some(kind) <==> name == kind.name(),
    {
        reveal_strlit("create");
        reveal_strlit("modify");
        reveal_strlit("delete");
        reveal_strlit("rename");
        assert("create"@[0] == 'c');
        assert("modify"@[0] == 'm');
        assert("delete"@[0] == 'd');
        assert("rename"@[0] == 'r');
    }
}

/// Free-form key/value pairs, one value per key, in the order in which the
/// keys were first set.
pub type Metadata = Vec<(String, String)>;

/// Whether some entry carries the key.
pub open spec fn has_key(entries: Seq<(Seq<char>, Seq<char>)>, key: Seq<char>) -> bool {
    exists|i: int| 0 <= i < entries.len() && (#[trigger] entries[i]).0 == key
}

/// The position of the first entry that carries the key.
pub open spec fn key_position(entries: Seq<(Seq<char>, Seq<char>)>, key: Seq<char>) -> int {
    choose|i: int|
        0 <= i < entries.len() && (#[trigger] entries[i]).0 == key && forall|j: int|
            0 <= j < i ==> (#[trigger] entries[j]).0 != key
}

/// The entries after `key` was set to `value`: the first entry with that key
/// is replaced, and a new key goes to the end.
pub open spec fn put_entry(
    entries: Seq<(Seq<char>, Seq<char>)>,
    key: Seq<char>,
    value: Seq<char>,
) -> Seq<(Seq<char>, Seq<char>)> {
    if has_key(entries, key) {
        entries.update(key_position(entries, key), (key, value))
    } else {
        entries.push((key, value))
    }
}

/// Whether no two entries carry the same key.
pub open spec fn unique_keys(entries: Seq<(Seq<char>, Seq<char>)>) -> bool {
    forall|i: int, j: int|
        0 <= i < j < entries.len() ==> (#[trigger] entries[i]).0 != (#[trigger] entries[j]).0
}

/// The value that the entries give to a key: that of the first entry that
/// carries it.
pub open spec fn value_of(entries: Seq<(Seq<char>, Seq<char>)>, key: Seq<char>) -> Option<
    Seq<char>,
> {
    if has_key(entries, key) {
        Some(entries[key_position(entries, key)].1)
    } else {
        None
    }
}

proof fn first_position(entries: Seq<(Seq<char>, Seq<char>)>, key: Seq<char>, at: int)
    requires
        0 <= at < entries.len(),
        entries[at].0 == key,
        forall|j: int| 0 <= j < at ==> (#[trigger] entries[j]).0 != key,
    ensures
        has_key(entries, key),
        key_position(entries, key) == at,
{
    let found = key_position(entries, key);
    if found < at {
        assert(entries[found].0 != key);
    }
}

proof fn position_is_first(entries: Seq<(Seq<char>, Seq<char>)>, key: Seq<char>)
    requires
        has_key(entries, key),
    ensures
        0 <= key_position(entries, key) < entries.len(),
        entries[key_position(entries, key)].0 == key,
        forall|j: int| 0 <= j < key_position(entries, key) ==> (#[trigger] entries[j]).0 != key,
{
    let some = choose|i: int| 0 <= i < entries.len() && (#[trigger] entries[i]).0 == key;
    least_position(entries, key, some);
}

proof fn least_position(entries: Seq<(Seq<char>, Seq<char>)>, key: Seq<char>, upto: int)
    requires
        0 <= upto < entries.len(),
        entries[upto].0 == key,
    ensures
        exists|i: int|
            0 <= i <= upto && (#[trigger] entries[i]).0 == key && forall|j: int|
                0 <= j < i ==> (#[trigger] entries[j]).0 != key,
    decreases upto,
{
    if exists|j: int| 0 <= j < upto && (#[trigger] entries[j]).0 == key {
        let j = choose|j: int| 0 <= j < upto && (#[trigger] entries[j]).0 == key;
        least_position(entries, key, j);
    }
}

/// Setting a key gives it the value, leaves every other key as it was, and
/// keeps the keys unique.
pub proof fn put_entry_sets_one_key(
    entries: Seq<(Seq<char>, Seq<char>)>,
    key: Seq<char>,
    value: Seq<char>,
    other: Seq<char>,
)
    ensures
        value_of(put_entry(entries, key, value), key) == Some(value),
        other != key ==> value_of(put_entry(entries, key, value), other) == value_of(
            entries,
            other,
        ),
        unique_keys(entries) ==> unique_keys(put_entry(entries, key, value)),
{
    let after = put_entry(entries, key, value);
    if has_key(entries, key) {
        position_is_first(entries, key);
        let at = key_position(entries, key);
        assert(after == entries.update(at, (key, value)));
        assert forall|j: int| 0 <= j < at implies (#[trigger] after[j]).0 != key by {
            assert(entries[j].0 != key);
        }
        first_position(after, key, at);
        if other != key {
            if has_key(entries, other) {
                position_is_first(entries, other);
                let there = key_position(entries, other);
                assert forall|j: int| 0 <= j < there implies (#[trigger] after[j]).0 != other by {
                    assert(entries[j].0 != other);
                }
                first_position(after, other, there);
            } else if has_key(after, other) {
                let i = choose|i: int| 0 <= i < after.len() && (#[trigger] after[i]).0 == other;
                assert(entries[i].0 == other);
            }
        }
        if unique_keys(entries) {
            assert forall|i: int, j: int| 0 <= i < j < after.len() implies (
            #[trigger] after[i]).0 != (#[trigger] after[j]).0 by {
                assert(entries[i].0 != entries[j].0);
            }
        }
    } else {
        assert(after == entries.push((key, value)));
        assert forall|j: int| 0 <= j < entries.len() implies (#[trigger] after[j]).0 != key by {
            assert(entries[j].0 != key);
        }
        first_position(after, key, entries.len() as int);
        if other != key {
            if has_key(entries, other) {
                position_is_first(entries, other);
                let there = key_position(entries, other);
                assert forall|j: int| 0 <= j < there implies (#[trigger] after[j]).0 != other by {
                    assert(entries[j].0 != other);
                }
                first_position(after, other, there);
            } else if has_key(after, other) {
                let i = choose|i: int| 0 <= i < after.len() && (#[trigger] after[i]).0 == other;
                if i < entries.len() {
                    assert(entries[i].0 == other);
                }
            }
        }
        if unique_keys(entries) {
            assert forall|i: int, j: int| 0 <= i < j < after.len() implies (
            #[trigger] after[i]).0 != (#[trigger] after[j]).0 by {
                if j < entries.len() {
                    assert(entries[i].0 != entries[j].0);
                } else {
                    assert(entries[i].0 != key);
                }
            }
        }
    }
}

/// The entries without those whose key an earlier entry carries: of the
/// entries with one key the first stays, in its place.
pub open spec fn first_per_key(entries: Seq<(Seq<char>, Seq<char>)>) -> Seq<
    (Seq<char>, Seq<char>),
>
    decreases entries.len(),
{
    if entries.len() == 0 {
        Seq::empty()
    } else {
        let before = first_per_key(entries.drop_last());
        if has_key(before, entries.last().0) {
            before
        } else {
            before.push(entries.last())
        }
    }
}

/// Dropping the entries with repeated keys keeps every key with the value
/// that the entries give it, and leaves no key twice.
pub proof fn first_per_key_keeps_each_key_once(
    entries: Seq<(Seq<char>, Seq<char>)>,
    key: Seq<char>,
)
    ensures
        unique_keys(first_per_key(entries)),
        has_key(first_per_key(entries), key) == has_key(entries, key),
        value_of(first_per_key(entries), key) == value_of(entries, key),
        first_per_key(entries).len() <= entries.len(),
    decreases entries.len(),
{
    let kept = first_per_key(entries);
    if entries.len() > 0 {
        let rest = entries.drop_last();
        let before = first_per_key(rest);
        let last = entries.last();
        first_per_key_keeps_each_key_once(rest, key);
        first_per_key_keeps_each_key_once(rest, last.0);
        // the keys of `entries` are those of `rest` and that of `last`
        if has_key(rest, key) {
            let i = choose|i: int| 0 <= i < rest.len() && (#[trigger] rest[i]).0 == key;
            assert(entries[i].0 == key);
            position_is_first(rest, key);
            let at = key_position(rest, key);
            assert forall|j: int| 0 <= j < at implies (#[trigger] entries[j]).0 != key by {
                assert(rest[j].0 != key);
            }
            assert(entries[at] == rest[at]);
            first_position(entries, key, at);
        } else if has_key(entries, key) {
            let i = choose|i: int| 0 <= i < entries.len() && (#[trigger] entries[i]).0 == key;
            if i < rest.len() {
                assert(rest[i].0 == key);
            }
            assert forall|j: int| 0 <= j < rest.len() implies (#[trigger] entries[j]).0 != key by {
                assert(rest[j].0 == entries[j].0);
            }
            first_position(entries, key, rest.len() as int);
        } else if last.0 == key {
            assert(entries[entries.len() - 1].0 == key);
        }
        if has_key(before, last.0) {
            assert(kept == before);
            if !has_key(rest, key) && has_key(entries, key) {
                assert(last.0 == key);
            }
        } else {
            assert(kept == before.push(last));
            assert forall|i: int, j: int| 0 <= i < j < kept.len() implies (#[trigger] kept[i]).0
                != (#[trigger] kept[j]).0 by {
                if j < before.len() {
                    assert(before[i].0 != before[j].0);
                } else {
                    assert(before[i].0 != last.0);
                }
            }
            if has_key(before, key) {
                let i = choose|i: int| 0 <= i < before.len() && (#[trigger] before[i]).0 == key;
                assert(kept[i].0 == key);
                position_is_first(before, key);
                let at = key_position(before, key);
                assert forall|j: int| 0 <= j < at implies (#[trigger] kept[j]).0 != key by {
                    assert(before[j].0 != key);
                }
                assert(kept[at] == before[at]);
                first_position(kept, key, at);
            } else if key == last.0 {
                assert forall|j: int| 0 <= j < before.len() implies (#[trigger] kept[j]).0
                    != key by {
                    assert(before[j].0 != key);
                }
                first_position(kept, key, before.len() as int);
            } else if has_key(kept, key) {
                let i = choose|i: int| 0 <= i < kept.len() && (#[trigger] kept[i]).0 == key;
                if i < before.len() {
                    assert(before[i].0 == key);
                }
            }
        }
    }
}

/// Entries without a repeated key stay as they are.
pub proof fn unique_entries_stay(entries: Seq<(Seq<char>, Seq<char>)>)
    requires
        unique_keys(entries),
    ensures
        first_per_key(entries) == entries,
    decreases entries.len(),
{
    if entries.len() > 0 {
        let rest = entries.drop_last();
        assert forall|i: int, j: int| 0 <= i < j < rest.len() implies (#[trigger] rest[i]).0 != (
        #[trigger] rest[j]).0 by {
            assert(entries[i].0 != entries[j].0);
        }
        unique_entries_stay(rest);
        if has_key(rest, entries.last().0) {
            let i = choose|i: int| 0 <= i < rest.len() && (#[trigger] rest[i]).0
                == entries.last().0;
            assert(entries[i].0 != entries[entries.len() - 1].0);
        }
        assert(rest.push(entries.last()) =~= entries);
    } else {
        assert(entries =~= Seq::empty());
    }
}

fn holds_key(entries: &Metadata, key: &String) -> (held: bool)
    ensures
        held == has_key(entries.deep_view(), key@),
{
    let mut i: usize = 0;
    while i < entries.len()
        invariant
            i <= entries.len(),
            forall|j: int| 0 <= j < i ==> (#[trigger] entries.deep_view()[j]).0 != key@,
        decreases entries.len() - i,
    {
        assert(entries.deep_view()[i as int] == entries@[i as int].deep_view());
        if same_text(entries[i].0.as_str(), key.as_str()) {
            return true;
        }
        i += 1;
    }
    false
}

/// The entries without those whose key an earlier entry carries.
pub fn without_repeated_keys(entries: &Metadata) -> (kept: Metadata)
    ensures
        kept.deep_view() == first_per_key(entries.deep_view()),
        unique_keys(kept.deep_view()),
{
    let ghost all = entries.deep_view();
    let mut kept: Metadata = Vec::new();
    let mut i: usize = 0;
    proof {
        assert(all.take(0) =~= Seq::empty());
        assert(kept.deep_view() =~= Seq::empty());
    }
    while i < entries.len()
        invariant
            i <= entries.len(),
            all == entries.deep_view(),
            kept.deep_view() == first_per_key(all.take(i as int)),
        decreases entries.len() - i,
    {
        proof {
            assert(all.take(i + 1).drop_last() =~= all.take(i as int));
            assert(all.take(i + 1).last() == entries@[i as int].deep_view());
        }
        if !holds_key(&kept, &entries[i].0) {
            let ghost before = kept.deep_view();
            kept.push((entries[i].0.clone(), entries[i].1.clone()));
            assert(kept.deep_view() =~= before.push(entries@[i as int].deep_view()));
        }
        i += 1;
    }
    proof {
        assert(all.take(i as int) =~= all);
        first_per_key_keeps_each_key_once(all, Seq::empty());
    }
    kept
}

fn set_entry(entries: &mut Metadata, key: String, value: String)
    ensures
        final(entries).deep_view() == put_entry(old(entries).deep_view(), key@, value@),
{
    let ghost before = entries.deep_view();
    let mut i: usize = 0;
    while i < entries.len()
        invariant
            i <= entries.len(),
            before == old(entries).deep_view(),
            entries.deep_view() == before,
            forall|j: int| 0 <= j < i ==> (#[trigger] before[j]).0 != key@,
        decreases entries.len() - i,
    {
        assert(before[i as int] == entries@[i as int].deep_view());
        if same_text(entries[i].0.as_str(), key.as_str()) {
            entries.set(i, (key, value));
            proof {
                assert(has_key(before, key@));
                let p = key_position(before, key@);
                assert(p == i);
                assert(entries.deep_view() =~= before.update(i as int, (key@, value@)));
            }
            return ;
        }
        i += 1;
    }
    entries.push((key, value));
    proof {
        assert(!has_key(before, key@));
        assert(entries.deep_view() =~= before.push((key@, value@)));
    }
}

pub(crate) fn clone_bytes(bytes: &Vec<u8>) -> (copy: Vec<u8>)
    ensures
        copy@ == bytes@,
{
    let mut copy: Vec<u8> = Vec::new();
    let mut i: usize = 0;
    while i < bytes.len()
        invariant
            i <= bytes.len(),
            copy@ == bytes@.take(i as int),
        decreases bytes.len() - i,
    {
        copy.push(bytes[i]);
        assert(copy@ =~= bytes@.take(i + 1));
        i += 1;
    }
    assert(bytes@.take(bytes.len() as int) =~= bytes@);
    copy
}

pub(crate) fn clone_optional_bytes(bytes: &Option<Vec<u8>>) -> (copy: Option<Vec<u8>>)
    ensures
        copy.deep_view() == bytes.deep_view(),
{
    match bytes {
        Some(bytes) => {
            let copy = clone_bytes(bytes);
            assert(copy.deep_view() =~= bytes.deep_view());
            Some(copy)
        },
        None => None,
    }
}

pub(crate) fn clone_optional_text(text: &Option<String>) -> (copy: Option<String>)
    ensures
        copy.deep_view() == text.deep_view(),
{
    match text {
        Some(text) => Some(text.clone()),
        None => None,
    }
}

pub(crate) fn clone_texts(texts: &Vec<String>) -> (copy: Vec<String>)
    ensures
        copy@ == texts@,
        copy.deep_view() == texts.deep_view(),
{
    let mut copy: Vec<String> = Vec::new();
    let mut i: usize = 0;
    while i < texts.len()
        invariant
            i <= texts.len(),
            copy@ == texts@.take(i as int),
        decreases texts.len() - i,
    {
        copy.push(texts[i].clone());
        assert(copy@ =~= texts@.take(i + 1));
        i += 1;
    }
    assert(texts@.take(texts.len() as int) =~= texts@);
    copy
}

pub(crate) fn clone_entries(entries: &Metadata) -> (copy: Metadata)
    ensures
        copy.deep_view() == entries.deep_view(),
{
    let mut copy: Metadata = Vec::new();
    let mut i: usize = 0;
    while i < entries.len()
        invariant
            i <= entries.len(),
            copy@ == entries@.take(i as int),
        decreases entries.len() - i,
    {
        copy.push((entries[i].0.clone(), entries[i].1.clone()));
        assert(copy@ =~= entries@.take(i + 1));
        i += 1;
    }
    assert(entries@.take(entries.len() as int) =~= entries@);
    copy
}

pub(crate) fn clone_ids(ids: &Vec<u128>) -> (copy: Vec<u128>)
    ensures
        copy@ == ids@,
{
    let mut copy: Vec<u128> = Vec::new();
    let mut i: usize = 0;
    while i < ids.len()
        invariant
            i <= ids.len(),
            copy@ == ids@.take(i as int),
        decreases ids.len() - i,
    {
        copy.push(ids[i]);
        assert(copy@ =~= ids@.take(i + 1));
        i += 1;
    }
    assert(ids@.take(ids.len() as int) =~= ids@);
    copy
}

/// One observed filesystem mutation.
#[derive(Debug, PartialEq, Eq)]
pub struct Change {
    pub id: u128,
    /// Nanoseconds since the Unix epoch, UTC.
    pub timestamp: i64,
    pub change_type: ChangeType,
    pub path: String,
    /// The path before a rename.
    pub old_path: Option<String>,
    pub content_before: Option<Vec<u8>>,
    pub content_after: Option<Vec<u8>>,
    pub content_hash_before: Option<String>,
    pub content_hash_after: Option<String>,
    pub agent_id: Option<String>,
    pub metadata: Metadata,
    pub session_id: u128,
}

/// What a [`Change`] is in contracts.
pub struct ChangeView {
    pub id: u128,
    pub timestamp: i64,
    pub change_type: ChangeType,
    pub path: Seq<char>,
    pub old_path: Option<Seq<char>>,
    pub content_before: Option<Seq<u8>>,
    pub content_after: Option<Seq<u8>>,
    pub content_hash_before: Option<Seq<char>>,
    pub content_hash_after: Option<Seq<char>>,
    pub agent_id: Option<Seq<char>>,
    pub metadata: Seq<(Seq<char>, Seq<char>)>,
    pub session_id: u128,
}

impl ChangeView {
    /// A change as it is first recorded: a kind, a path and a session, and
    /// nothing else.
    pub open spec fn bare(
        id: u128,
        timestamp: i64,
        change_type: ChangeType,
        path: Seq<char>,
        session_id: u128,
    ) -> ChangeView {
        ChangeView {
            id,
            timestamp,
            change_type,
            path,
            old_path: None,
            content_before: None,
            content_after: None,
            content_hash_before: None,
            content_hash_after: None,
            agent_id: None,
            metadata: Seq::empty(),
            session_id,
        }
    }

    /// Each hash is present exactly when its content is, and is the hash of
    /// that content.
    pub open spec fn hashes_consistent(self) -> bool {
        &&& self.content_hash_before == match self.content_before {
            Some(content) => Some(content_hash(content)),
            None => None,
        }
        &&& self.content_hash_after == match self.content_after {
            Some(content) => Some(content_hash(content)),
            None => None,
        }
    }
}

impl View for Change {
    type V = ChangeView;

    open spec fn view(&self) -> ChangeView {
        ChangeView {
            id: self.id,
            timestamp: self.timestamp,
            change_type: self.change_type,
            path: self.path@,
            old_path: self.old_path.deep_view(),
            content_before: self.content_before.deep_view(),
            content_after: self.content_after.deep_view(),
            content_hash_before: self.content_hash_before.deep_view(),
            content_hash_after: self.content_hash_after.deep_view(),
            agent_id: self.agent_id.deep_view(),
            metadata: self.metadata.deep_view(),
            session_id: self.session_id,
        }
    }
}

impl Clone for Change {
    fn clone(&self) -> (copy: Change)
        ensures
            copy@ == self@,
    {
        Change {
            id: self.id,
            timestamp: self.timestamp,
            change_type: self.change_type,
            path: self.path.clone(),
            old_path: clone_optional_text(&self.old_path),
            content_before: clone_optional_bytes(&self.content_before),
            content_after: clone_optional_bytes(&self.content_after),
            content_hash_before: clone_optional_text(&self.content_hash_before),
            content_hash_after: clone_optional_text(&self.content_hash_after),
            agent_id: clone_optional_text(&self.agent_id),
            metadata: clone_entries(&self.metadata),
            session_id: self.session_id,
        }
    }
}

impl Change {
    /// A change with a given identifier and timestamp.
    pub fn from_parts(
        id: u128,
        timestamp: i64,
        change_type: ChangeType,
        path: String,
        session_id: u128,
    ) -> (change: Change)
        ensures
            change@ == ChangeView::bare(id, timestamp, change_type, path@, session_id),
            change@.hashes_consistent(),
    {
        let change = Change {
            id,
            timestamp,
            change_type,
            path,
            old_path: None,
            content_before: None,
            content_after: None,
            content_hash_before: None,
            content_hash_after: None,
            agent_id: None,
            metadata: Vec::new(),
            session_id,
        };
        assert(change.metadata.deep_view() =~= Seq::empty());
        change
    }

    /// A change with a fresh random identifier, recorded now.
    pub fn new(change_type: ChangeType, path: String, session_id: u128) -> (change: Change)
        ensures
            change@.hashes_consistent(),
            change@ == ChangeView::bare(
                change.id,
                change.timestamp,
                change_type,
                path@,
                session_id,
            ),
    {
        Change::from_parts(random_id(), now(), change_type, path, session_id)
    }

    /// The change with the content before it, and the hash of that content.
    pub fn with_content_before(self, content: Vec<u8>) -> (change: Change)
        ensures
            self@.hashes_consistent() ==> change@.hashes_consistent(),
            change@ == (ChangeView {
                content_before: Some(content@),
                content_hash_before: Some(content_hash(content@)),
                ..self@
            }),
    {
        let mut change = self;
        change.content_hash_before = Some(hash_content(content.as_slice()));
        assert(content.deep_view() =~= content@);
        change.content_before = Some(content);
        change
    }

    /// The change with the content after it, and the hash of that content.
    pub fn with_content_after(self, content: Vec<u8>) -> (change: Change)
        ensures
            self@.hashes_consistent() ==> change@.hashes_consistent(),
            change@ == (ChangeView {
                content_after: Some(content@),
                content_hash_after: Some(content_hash(content@)),
                ..self@
            }),
    {
        let mut change = self;
        change.content_hash_after = Some(hash_content(content.as_slice()));
        assert(content.deep_view() =~= content@);
        change.content_after = Some(content);
        change
    }

    /// The change with the agent that made it.
    pub fn with_agent_id(self, agent_id: String) -> (change: Change)
        ensures
            self@.hashes_consistent() ==> change@.hashes_consistent(),
            change@ == (ChangeView { agent_id: Some(agent_id@), ..self@ }),
    {
        let mut change = self;
        change.agent_id = Some(agent_id);
        change
    }

    /// The change with a key of its metadata set to a value.
    pub fn with_metadata(self, key: String, value: String) -> (change: Change)
        ensures
            self@.hashes_consistent() ==> change@.hashes_consistent(),
            change@ == (ChangeView { metadata: put_entry(self@.metadata, key@, value@), ..self@ }),
    {
        let mut change = self;
        set_entry(&mut change.metadata, key, value);
        change
    }

    /// The change with the path before a rename.
    pub fn with_old_path(self, old_path: String) -> (change: Change)
        ensures
            self@.hashes_consistent() ==> change@.hashes_consistent(),
            change@ == (ChangeView { old_path: Some(old_path@), ..self@ }),
    {
        let mut change = self;
        change.old_path = Some(old_path);
        change
    }
}

/// An immutable, named grouping of changes.
#[derive(Debug, PartialEq, Eq)]
pub struct Commit {
    pub id: u128,
    pub parent: Option<u128>,
    /// Nanoseconds since the Unix epoch, UTC.
    pub timestamp: i64,
    pub message: String,
    pub agent_id: String,
    /// The identifiers of the changes that the commit groups, in order.
    pub changes: Vec<u128>,
    pub session_id: u128,
    pub metadata: Metadata,
}

/// What a [`Commit`] is in contracts.
pub struct CommitView {
    pub id: u128,
    pub parent: Option<u128>,
    pub timestamp: i64,
    pub message: Seq<char>,
    pub agent_id: Seq<char>,
    pub changes: Seq<u128>,
    pub session_id: u128,
    pub metadata: Seq<(Seq<char>, Seq<char>)>,
}

impl CommitView {
    /// A commit as it is first made: without parent and without metadata.
    pub open spec fn bare(
        id: u128,
        timestamp: i64,
        message: Seq<char>,
        agent_id: Seq<char>,
        changes: Seq<u128>,
        session_id: u128,
    ) -> CommitView {
        CommitView {
            id,
            parent: None,
            timestamp,
            message,
            agent_id,
            changes,
            session_id,
            metadata: Seq::empty(),
        }
    }
}

impl View for Commit {
    type V = CommitView;

    open spec fn view(&self) -> CommitView {
        CommitView {
            id: self.id,
            parent: self.parent,
            timestamp: self.timestamp,
            message: self.message@,
            agent_id: self.agent_id@,
            changes: self.changes@,
            session_id: self.session_id,
            metadata: self.metadata.deep_view(),
        }
    }
}

impl Clone for Commit {
    fn clone(&self) -> (copy: Commit)
        ensures
            copy@ == self@,
    {
        Commit {
            id: self.id,
            parent: self.parent,
            timestamp: self.timestamp,
            message: self.message.clone(),
            agent_id: self.agent_id.clone(),
            changes: clone_ids(&self.changes),
            session_id: self.session_id,
            metadata: clone_entries(&self.metadata),
        }
    }
}

impl Commit {
    /// A commit with a given identifier and timestamp.
    pub fn from_parts(
        id: u128,
        timestamp: i64,
        message: String,
        agent_id: String,
        changes: Vec<u128>,
        session_id: u128,
    ) -> (commit: Commit)
        ensures
            commit@ == CommitView::bare(
                id,
                timestamp,
                message@,
                agent_id@,
                changes@,
                session_id,
            ),
    {
        let commit = Commit {
            id,
            parent: None,
            timestamp,
            message,
            agent_id,
            changes,
            session_id,
            metadata: Vec::new(),
        };
        assert(commit.metadata.deep_view() =~= Seq::empty());
        commit
    }

    /// A commit with a fresh random identifier, made now.
    pub fn new(message: String, agent_id: String, changes: Vec<u128>, session_id: u128) -> (commit:
        Commit)
        ensures
            commit@ == CommitView::bare(
                commit.id,
                commit.timestamp,
                message@,
                agent_id@,
                changes@,
                session_id,
            ),
    {
        Commit::from_parts(random_id(), now(), message, agent_id, changes, session_id)
    }

    /// The commit with a parent.
    pub fn with_parent(self, parent: u128) -> (commit: Commit)
        ensures
            commit@ == (CommitView { parent: Some(parent), ..self@ }),
    {
        let mut commit = self;
        commit.parent = Some(parent);
        commit
    }

    /// The commit with a key of its metadata set to a value.
    pub fn with_metadata(self, key: String, value: String) -> (commit: Commit)
        ensures
            commit@ == (CommitView { metadata: put_entry(self@.metadata, key@, value@), ..self@ }),
    {
        let mut commit = self;
        set_entry(&mut commit.metadata, key, value);
        commit
    }
}

/// One watched workspace.
#[derive(Debug, PartialEq, Eq)]
pub struct Session {
    pub id: u128,
    pub root_path: String,
    /// Nanoseconds since the Unix epoch, UTC.
    pub started: i64,
    pub ended: Option<i64>,
    pub active: bool,
    /// A path is ignored when its text holds one of these as a substring.
    pub ignore_patterns: Vec<String>,
}

/// What a [`Session`] is in contracts.
pub struct SessionView {
    pub id: u128,
    pub root_path: Seq<char>,
    pub started: i64,
    pub ended: Option<i64>,
    pub active: bool,
    pub ignore_patterns: Seq<Seq<char>>,
}

/// The patterns that a new session ignores: the engine's own metadata
/// directory and common build and dependency directories.
pub open spec fn default_ignore_patterns() -> Seq<Seq<char>> {
    seq![".git"@, "target"@, "node_modules"@, ".gitent"@]
}

impl SessionView {
    /// A session as it is started: active, not ended, with the default
    /// ignore patterns.
    pub open spec fn started_at(id: u128, started: i64, root_path: Seq<char>) -> SessionView {
        SessionView {
            id,
            root_path,
            started,
            ended: None,
            active: true,
            ignore_patterns: default_ignore_patterns(),
        }
    }
}

impl View for Session {
    type V = SessionView;

    open spec fn view(&self) -> SessionView {
        SessionView {
            id: self.id,
            root_path: self.root_path@,
            started: self.started,
            ended: self.ended,
            active: self.active,
            ignore_patterns: self.ignore_patterns.deep_view(),
        }
    }
}

impl Clone for Session {
    fn clone(&self) -> (copy: Session)
        ensures
            copy@ == self@,
    {
        Session {
            id: self.id,
            root_path: self.root_path.clone(),
            started: self.started,
            ended: self.ended,
            active: self.active,
            ignore_patterns: clone_texts(&self.ignore_patterns),
        }
    }
}

impl Session {
    /// A session with a given identifier and start time.
    pub fn from_parts(id: u128, started: i64, root_path: String) -> (session: Session)
        ensures
            session@ == SessionView::started_at(id, started, root_path@),
    {
        let mut ignore_patterns: Vec<String> = Vec::new();
        ignore_patterns.push(String::from_str(".git"));
        ignore_patterns.push(String::from_str("target"));
        ignore_patterns.push(String::from_str("node_modules"));
        ignore_patterns.push(String::from_str(".gitent"));
        assert(ignore_patterns.deep_view() =~= default_ignore_patterns());
        Session { id, root_path, started, ended: None, active: true, ignore_patterns }
    }

    /// A session with a fresh random identifier, started now.
    pub fn new(root_path: String) -> (session: Session)
        ensures
            session@ == SessionView::started_at(session.id, session.started, root_path@),
    {
        Session::from_parts(random_id(), now(), root_path)
    }

    /// The session with other ignore patterns.
    pub fn with_ignore_patterns(self, patterns: Vec<String>) -> (session: Session)
        ensures
            session@ == (SessionView { ignore_patterns: patterns.deep_view(), ..self@ }),
    {
        let mut session = self;
        session.ignore_patterns = patterns;
        session
    }

    /// Ends the session at a given time.
    pub fn end_at(&mut self, when: i64)
        ensures
            final(self)@ == (SessionView { active: false, ended: Some(when), ..old(self)@ }),
    {
        self.active = false;
        self.ended = Some(when);
    }

    /// Ends the session now.
    pub fn end(&mut self)
        ensures
            !final(self).active,
            final(self)@ == (SessionView {
                active: false,
                ended: final(self).ended,
                ..old(self)@
            }),
            final(self).ended is Some,
    {
        self.end_at(now());
    }
}

/// A commit together with what is derived from its changes.
#[derive(Debug, PartialEq, Eq)]
pub struct CommitInfo {
    pub commit: Commit,
    /// How many of the commit's changes could be resolved.
    pub change_count: usize,
    /// The paths of the resolved changes, each path once, in the order in
    /// which the commit's changes first reach it.
    pub files_affected: Vec<String>,
}

/// What a [`CommitInfo`] is in contracts.
pub struct CommitInfoView {
    pub commit: CommitView,
    pub change_count: nat,
    pub files_affected: Seq<Seq<char>>,
}

impl View for CommitInfo {
    type V = CommitInfoView;

    open spec fn view(&self) -> CommitInfoView {
        CommitInfoView {
            commit: self.commit@,
            change_count: self.change_count as nat,
            files_affected: self.files_affected.deep_view(),
        }
    }
}

impl Clone for CommitInfo {
    fn clone(&self) -> (copy: CommitInfo)
        ensures
            copy@ == self@,
    {
        CommitInfo {
            commit: self.commit.clone(),
            change_count: self.change_count,
            files_affected: clone_texts(&self.files_affected),
        }
    }
}

} // verus!
