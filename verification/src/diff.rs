//! Line-level differences between two content snapshots, and their
//! rendering as unified-diff text.

use crate::error::Error;
use crate::models::{clone_bytes, Change};
use crate::text::{decimal, decimal_text, text_from_utf8};
use vstd::prelude::*;
use vstd::string::*;
use vstd::utf8::*;

verus! {

/// The class of a line of an edit script.
#[derive(Debug, Clone, Copy, PartialEq, Eq, Structural)]
pub enum DiffLineType {
    /// Present in both snapshots.
    Context,
    /// Present only in the new snapshot.
    Addition,
    /// Present only in the old snapshot.
    Deletion,
}

/// One line of an edit script, with its 1-based number in each snapshot
/// that holds it.
#[derive(Debug, PartialEq, Eq)]
pub struct DiffLine {
    pub line_type: DiffLineType,
    pub content: String,
    pub old_line_number: Option<usize>,
    pub new_line_number: Option<usize>,
}

/// What a [`DiffLine`] is in contracts.
pub struct DiffLineView {
    pub line_type: DiffLineType,
    pub content: Seq<char>,
    pub old_line_number: Option<usize>,
    pub new_line_number: Option<usize>,
}

impl View for DiffLine {
    type V = DiffLineView;

    open spec fn view(&self) -> DiffLineView {
        DiffLineView {
            line_type: self.line_type,
            content: self.content@,
            old_line_number: self.old_line_number,
            new_line_number: self.new_line_number,
        }
    }
}

impl Clone for DiffLine {
    fn clone(&self) -> (copy: DiffLine)
        ensures
            copy@ == self@,
    {
        DiffLine {
            line_type: self.line_type,
            content: self.content.clone(),
            old_line_number: self.old_line_number,
            new_line_number: self.new_line_number,
        }
    }
}

/// The difference between the two snapshots of one change.
#[derive(Debug, PartialEq, Eq)]
pub struct FileDiff {
    pub path: String,
    /// The old snapshot, where it was captured and is text.
    pub old_content: Option<String>,
    /// The new snapshot, where it was captured and is text.
    pub new_content: Option<String>,
    /// The edit script; empty where either snapshot is missing.
    pub diff_lines: Vec<DiffLine>,
}

/// What a [`FileDiff`] is in contracts.
pub struct FileDiffView {
    pub path: Seq<char>,
    pub old_content: Option<Seq<char>>,
    pub new_content: Option<Seq<char>>,
    pub diff_lines: Seq<DiffLineView>,
}

/// The views of a run of lines.
pub open spec fn lines_view(lines: Seq<DiffLine>) -> Seq<DiffLineView> {
    Seq::new(lines.len(), |i: int| lines[i]@)
}

impl View for FileDiff {
    type V = FileDiffView;

    open spec fn view(&self) -> FileDiffView {
        FileDiffView {
            path: self.path@,
            old_content: self.old_content.deep_view(),
            new_content: self.new_content.deep_view(),
            diff_lines: lines_view(self.diff_lines@),
        }
    }
}

/// A line of a script before it is numbered: its class and its text.
pub type ScriptLine = (DiffLineType, Seq<char>);

/// The views of the lines of a script.
pub open spec fn script_view(script: Seq<(DiffLineType, String)>) -> Seq<ScriptLine> {
    Seq::new(script.len(), |i: int| (script[i].0, script[i].1@))
}

/// The edit script that the Myers line diff of the `similar` crate gives for
/// two texts, each line with its text as the crate prints it.
pub uninterp spec fn line_script(old: Seq<char>, new: Seq<char>) -> Seq<ScriptLine>;

/// `TextDiff::from_lines` followed by `iter_all_changes`: each change with
/// its tag and its printed text. The diff starts by taking the common prefix
/// of the two line sequences as equal, so equal texts give equal lines only.
#[verifier::external_body]
fn diff_lines(old: &str, new: &str) -> (script: Vec<(DiffLineType, String)>)
    ensures
        script_view(script@) == line_script(old@, new@),
        old@ == new@ ==> forall|i: int|
            0 <= i < script.len() ==> (#[trigger] script[i]).0 == DiffLineType::Context,
{
    similar::TextDiff::from_lines(old, new).iter_all_changes().map(
        |change|
            (
                match change.tag() {
                    similar::ChangeTag::Equal => DiffLineType::Context,
                    similar::ChangeTag::Insert => DiffLineType::Addition,
                    similar::ChangeTag::Delete => DiffLineType::Deletion,
                },
                change.to_string(),
            ),
    ).collect()
}

/// How many of the first `i` lines of a script belong to the old snapshot.
pub open spec fn old_lines_before(script: Seq<ScriptLine>, i: int) -> nat
    decreases i,
{
    if i <= 0 {
        0
    } else {
        old_lines_before(script, i - 1) + if script[i - 1].0 != DiffLineType::Addition {
            1nat
        } else {
            0nat
        }
    }
}

/// How many of the first `i` lines of a script belong to the new snapshot.
pub open spec fn new_lines_before(script: Seq<ScriptLine>, i: int) -> nat
    decreases i,
{
    if i <= 0 {
        0
    } else {
        new_lines_before(script, i - 1) + if script[i - 1].0 != DiffLineType::Deletion {
            1nat
        } else {
            0nat
        }
    }
}

/// The `i`-th line of a script with its line numbers: a line is numbered in
/// each snapshot that holds it, one more than the lines of that snapshot
/// before it.
pub open spec fn numbered_line(script: Seq<ScriptLine>, i: int) -> DiffLineView {
    DiffLineView {
        line_type: script[i].0,
        content: script[i].1,
        old_line_number: if script[i].0 != DiffLineType::Addition {
            Some((old_lines_before(script, i) + 1) as usize)
        } else {
            None
        },
        new_line_number: if script[i].0 != DiffLineType::Deletion {
            Some((new_lines_before(script, i) + 1) as usize)
        } else {
            None
        },
    }
}

/// A script with its line numbers.
pub open spec fn numbered(script: Seq<ScriptLine>) -> Seq<DiffLineView> {
    Seq::new(script.len(), |i: int| numbered_line(script, i))
}

/// The text of a snapshot, where it was captured and is valid UTF-8.
pub open spec fn snapshot_text(content: Option<Seq<u8>>) -> Option<Seq<char>> {
    match content {
        Some(bytes) => if valid_utf8(bytes) {
            Some(decode_utf8(bytes))
        } else {
            None
        },
        None => None,
    }
}

/// The edit script between two snapshots; empty where either is missing.
pub open spec fn script_between(old: Option<Seq<char>>, new: Option<Seq<char>>) -> Seq<
    DiffLineView,
> {
    match (old, new) {
        (Some(old), Some(new)) => numbered(line_script(old, new)),
        _ => Seq::empty(),
    }
}

/// Whether every line of a script is a context line.
pub open spec fn context_only(lines: Seq<DiffLineView>) -> bool {
    forall|i: int| 0 <= i < lines.len() ==> (#[trigger] lines[i]).line_type == DiffLineType::Context
}

/// The two lines that open a unified diff.
pub open spec fn file_header(path: Seq<char>) -> Seq<char> {
    "--- "@ + path + "\n"@ + "+++ "@ + path + "\n"@
}

/// The line that opens a hunk: where it starts in each snapshot, and how
/// many lines of each snapshot it holds.
pub open spec fn hunk_header(old_start: nat, old_count: nat, new_start: nat, new_count: nat) -> Seq<
    char,
> {
    "@@ -"@ + decimal_text(old_start) + ","@ + decimal_text(old_count) + " +"@ + decimal_text(
        new_start,
    ) + ","@ + decimal_text(new_count) + " @@\n"@
}

/// The mark that a line of a class carries in a unified diff.
pub open spec fn line_prefix(line_type: DiffLineType) -> Seq<char> {
    match line_type {
        DiffLineType::Addition => "+"@,
        DiffLineType::Deletion => "-"@,
        DiffLineType::Context => " "@,
    }
}

/// The lines `from..to` of a script, each behind its mark.
pub open spec fn hunk_body(lines: Seq<DiffLineView>, from: int, to: int) -> Seq<char>
    decreases to - from,
{
    if to <= from {
        Seq::empty()
    } else {
        hunk_body(lines, from, to - 1) + line_prefix(lines[to - 1].line_type) + lines[to
            - 1].content
    }
}

/// How many of the lines `from..to` belong to the old snapshot.
pub open spec fn old_count(lines: Seq<DiffLineView>, from: int, to: int) -> nat
    decreases to - from,
{
    if to <= from {
        0
    } else {
        old_count(lines, from, to - 1) + if lines[to - 1].line_type != DiffLineType::Addition {
            1nat
        } else {
            0nat
        }
    }
}

/// How many of the lines `from..to` belong to the new snapshot.
pub open spec fn new_count(lines: Seq<DiffLineView>, from: int, to: int) -> nat
    decreases to - from,
{
    if to <= from {
        0
    } else {
        new_count(lines, from, to - 1) + if lines[to - 1].line_type != DiffLineType::Deletion {
            1nat
        } else {
            0nat
        }
    }
}

/// Whether a line is an addition or a deletion.
pub open spec fn is_change(line: DiffLineView) -> bool {
    line.line_type != DiffLineType::Context
}

/// The first line from `from` on that is not context, or the length of
/// the script where there is none.
pub open spec fn next_change(lines: Seq<DiffLineView>, from: int) -> int
    decreases lines.len() - from,
{
    if from < 0 || from >= lines.len() {
        lines.len() as int
    } else if is_change(lines[from]) {
        from
    } else {
        next_change(lines, from + 1)
    }
}

/// The last line of a hunk whose latest change so far is line `last`, as
/// it is seen from line `at`. The hunk takes in every change that follows
/// its latest after no more than `context` lines of context, and ends with
/// the `context` lines of context that follow its last change, or with the
/// script.
pub open spec fn hunk_end(lines: Seq<DiffLineView>, context: nat, last: int, at: int) -> int
    decreases lines.len() - at,
{
    if at < 0 || at >= lines.len() {
        lines.len() - 1
    } else if is_change(lines[at]) {
        hunk_end(lines, context, at, at + 1)
    } else if at - last > context {
        at - 1
    } else {
        hunk_end(lines, context, last, at + 1)
    }
}

/// The first line of the hunk whose first change is line `change`, where
/// the lines before `from` are spoken for: `context` lines before the
/// change, as far as there are any left.
pub open spec fn hunk_start(context: nat, from: int, change: int) -> int {
    if change - from > context {
        change - context
    } else {
        from
    }
}

/// The number in the old snapshot of the first of the lines `from..to`
/// that has one.
pub open spec fn first_old_number(lines: Seq<DiffLineView>, from: int, to: int) -> Option<usize>
    decreases to - from,
{
    if to <= from {
        None
    } else {
        match first_old_number(lines, from, to - 1) {
            Some(number) => Some(number),
            None => lines[to - 1].old_line_number,
        }
    }
}

/// The number in the new snapshot of the first of the lines `from..to`
/// that has one.
pub open spec fn first_new_number(lines: Seq<DiffLineView>, from: int, to: int) -> Option<usize>
    decreases to - from,
{
    if to <= from {
        None
    } else {
        match first_new_number(lines, from, to - 1) {
            Some(number) => Some(number),
            None => lines[to - 1].new_line_number,
        }
    }
}

/// A line number as a hunk header shows it: 0 where there is none.
pub open spec fn shown_number(number: Option<usize>) -> nat {
    match number {
        Some(n) => n as nat,
        None => 0,
    }
}

/// The hunk of the lines `start..=end`: its header, then its lines. The
/// header gives, for each snapshot, the number of the hunk's first line in
/// it and the count of the hunk's lines in it.
pub open spec fn hunk_text(lines: Seq<DiffLineView>, start: int, end: int) -> Seq<char> {
    hunk_header(
        shown_number(first_old_number(lines, start, end + 1)),
        old_count(lines, start, end + 1),
        shown_number(first_new_number(lines, start, end + 1)),
        new_count(lines, start, end + 1),
    ) + hunk_body(lines, start, end + 1)
}

/// The hunks of the lines from `from` on, where the lines before `from`
/// are spoken for. Each run of changes gives a hunk, padded on each side by
/// up to `context` lines of context; runs that no more than `context`
/// lines of context keep apart share a hunk.
pub open spec fn hunks_from(lines: Seq<DiffLineView>, context: nat, from: int) -> Seq<char>
    decreases lines.len() - from,
{
    let change = next_change(lines, from);
    if from < 0 || change >= lines.len() {
        Seq::empty()
    } else {
        let end = hunk_end(lines, context, change, change + 1);
        proof {
            next_change_is_a_change(lines, from);
            hunk_end_is_in_range(lines, context, change, change + 1);
        }
        hunk_text(lines, hunk_start(context, from, change), end) + hunks_from(
            lines,
            context,
            end + 1,
        )
    }
}

/// The unified diff of a file: the header, then the hunks.
pub open spec fn unified_text(diff: FileDiffView, context: nat) -> Seq<char> {
    file_header(diff.path) + hunks_from(diff.diff_lines, context, 0)
}

/// The next change lies at or behind where the search starts, and no line
/// between the two is a change.
pub proof fn next_change_is_a_change(lines: Seq<DiffLineView>, from: int)
    requires
        0 <= from,
    ensures
        from <= next_change(lines, from) || next_change(lines, from) == lines.len(),
        next_change(lines, from) <= lines.len(),
        next_change(lines, from) < lines.len() ==> is_change(lines[next_change(lines, from)]),
        forall|i: int| from <= i < next_change(lines, from) ==> !is_change(#[trigger] lines[i]),
    decreases lines.len() - from,
{
    if from < lines.len() && !is_change(lines[from]) {
        next_change_is_a_change(lines, from + 1);
    }
}

/// A hunk ends within the script, and not before the line from which its
/// end is sought.
pub proof fn hunk_end_is_in_range(lines: Seq<DiffLineView>, context: nat, last: int, at: int)
    requires
        0 <= last < at <= lines.len(),
    ensures
        at - 1 <= hunk_end(lines, context, last, at) <= lines.len() - 1,
    decreases lines.len() - at,
{
    if at < lines.len() {
        if is_change(lines[at]) {
            hunk_end_is_in_range(lines, context, at, at + 1);
        } else if at - last <= context {
            hunk_end_is_in_range(lines, context, last, at + 1);
        }
    }
}

/// A script of context lines alone has no hunks.
pub proof fn context_only_has_no_hunks(lines: Seq<DiffLineView>, context: nat, from: int)
    requires
        context_only(lines),
        0 <= from,
    ensures
        hunks_from(lines, context, from) == Seq::<char>::empty(),
{
    next_change_is_a_change(lines, from);
    let change = next_change(lines, from);
    if change < lines.len() {
        assert(lines[change].line_type == DiffLineType::Context);
    }
}

/// The unified diff of a file without changes is its header alone.
pub proof fn unchanged_file_has_empty_body(diff: FileDiffView, context: nat)
    requires
        context_only(diff.diff_lines),
    ensures
        unified_text(diff, context) == file_header(diff.path),
{
    context_only_has_no_hunks(diff.diff_lines, context, 0);
    assert(file_header(diff.path) + Seq::<char>::empty() =~= file_header(diff.path));
}

fn decode_snapshot(content: &Option<Vec<u8>>) -> (text: Option<String>)
    ensures
        text.deep_view() == snapshot_text(content.deep_view()),
{
    match content {
        Some(bytes) => {
            assert(bytes.deep_view() =~= bytes@);
            text_from_utf8(clone_bytes(bytes))
        },
        None => None,
    }
}

impl FileDiff {
    /// Numbers the lines of a script.
    pub fn number_lines(script: &Vec<(DiffLineType, String)>) -> (lines: Vec<DiffLine>)
        ensures
            lines_view(lines@) == numbered(script_view(script@)),
    {
        let ghost plain = script_view(script@);
        let mut lines: Vec<DiffLine> = Vec::new();
        let mut old_seen: usize = 0;
        let mut new_seen: usize = 0;
        let mut i: usize = 0;
        while i < script.len()
            invariant
                i <= script.len(),
                plain == script_view(script@),
                lines.len() == i,
                old_seen == old_lines_before(plain, i as int),
                new_seen == new_lines_before(plain, i as int),
                old_seen <= i,
                new_seen <= i,
                forall|k: int| 0 <= k < i ==> (#[trigger] lines[k])@ == numbered_line(plain, k),
            decreases script.len() - i,
        {
            let line_type = script[i].0;
            let in_old = line_type != DiffLineType::Addition;
            let in_new = line_type != DiffLineType::Deletion;
            let line = DiffLine {
                line_type,
                content: script[i].1.clone(),
                old_line_number: if in_old {
                    Some(old_seen + 1)
                } else {
                    None
                },
                new_line_number: if in_new {
                    Some(new_seen + 1)
                } else {
                    None
                },
            };
            assert(plain[i as int] == (script[i as int].0, script[i as int].1@));
            assert(line@ == numbered_line(plain, i as int));
            lines.push(line);
            if in_old {
                old_seen += 1;
            }
            if in_new {
                new_seen += 1;
            }
            i += 1;
        }
        assert(lines_view(lines@) =~= numbered(plain));
        lines
    }

    /// The numbered edit script between two texts. Equal texts give context
    /// lines only.
    pub fn compute_diff(old_text: &str, new_text: &str) -> (lines: Vec<DiffLine>)
        ensures
            lines_view(lines@) == numbered(line_script(old_text@, new_text@)),
            old_text@ == new_text@ ==> context_only(lines_view(lines@)),
    {
        let script = diff_lines(old_text, new_text);
        let lines = FileDiff::number_lines(&script);
        proof {
            if old_text@ == new_text@ {
                assert forall|i: int| 0 <= i < lines_view(lines@).len() implies (
                #[trigger] lines_view(lines@)[i]).line_type == DiffLineType::Context by {
                    assert(script[i].0 == DiffLineType::Context);
                    assert(lines_view(lines@)[i] == numbered_line(script_view(script@), i));
                }
            }
        }
        lines
    }

    /// The difference that a change records. Where a snapshot is missing or
    /// is not valid UTF-8, the edit script is empty; this never fails.
    pub fn from_change(change: &Change) -> (diff: Result<FileDiff, Error>)
        ensures
            diff matches Ok(diff) && diff@ == (FileDiffView {
                path: change@.path,
                old_content: snapshot_text(change@.content_before),
                new_content: snapshot_text(change@.content_after),
                diff_lines: script_between(
                    snapshot_text(change@.content_before),
                    snapshot_text(change@.content_after),
                ),
            }) && (snapshot_text(change@.content_before) is Some && snapshot_text(
                change@.content_before,
            ) == snapshot_text(change@.content_after) ==> context_only(diff@.diff_lines)),
    {
        let old_content = decode_snapshot(&change.content_before);
        let new_content = decode_snapshot(&change.content_after);
        let diff_lines = match (&old_content, &new_content) {
            (Some(old), Some(new)) => FileDiff::compute_diff(old.as_str(), new.as_str()),
            _ => {
                let none: Vec<DiffLine> = Vec::new();
                assert(lines_view(none@) =~= Seq::empty());
                none
            },
        };
        Ok(FileDiff { path: change.path.clone(), old_content, new_content, diff_lines })
    }

    /// Renders the edit script as a unified diff: the header of the file,
    /// then a hunk for each run of changes, padded on each side by up to
    /// `context_lines` lines of context. A hunk's header gives, for each
    /// snapshot, the number of the hunk's first line in it, or 0, and the
    /// count of the hunk's lines in it.
    pub fn format_unified(&self, context_lines: usize) -> (text: String)
        ensures
            text@ == unified_text(self@, context_lines as nat),
            context_only(self@.diff_lines) ==> text@ == file_header(self@.path),
    {
        proof {
            if context_only(self@.diff_lines) {
                unchanged_file_has_empty_body(self@, context_lines as nat);
            }
        }
        let ghost lines = self@.diff_lines;
        let ghost context = context_lines as nat;
        let mut output = String::new();
        output.append("--- ");
        output.append(self.path.as_str());
        output.append("\n");
        output.append("+++ ");
        output.append(self.path.as_str());
        output.append("\n");
        assert(output@ =~= file_header(self@.path));
        let len = self.diff_lines.len();
        let mut from: usize = 0;
        while from < len
            invariant
                from <= len,
                len == self.diff_lines.len(),
                lines == self@.diff_lines,
                context == context_lines as nat,
                context_only(lines) ==> unified_text(self@, context) == file_header(self@.path),
                unified_text(self@, context) == output@ + hunks_from(lines, context, from as int),
            decreases len - from,
        {
            let change = first_change(&self.diff_lines, from);
            if change >= len {
                assert(output@ + Seq::<char>::empty() =~= output@);
                return output;
            }
            let start = if change - from > context_lines {
                change - context_lines
            } else {
                from
            };
            let end = last_of_hunk(&self.diff_lines, context_lines, change);
            let ghost before = output@;
            append_hunk(&mut output, &self.diff_lines, start, end);
            proof {
                assert(lines_view(self.diff_lines@) == lines);
                hunk_end_is_in_range(lines, context, change as int, change + 1);
                join_three(
                    before,
                    hunk_text(lines, start as int, end as int),
                    hunks_from(lines, context, end + 1),
                );
            }
            from = end + 1;
        }
        assert(output@ + Seq::<char>::empty() =~= output@);
        output
    }
}

proof fn join_three(a: Seq<char>, b: Seq<char>, c: Seq<char>)
    ensures
        a + b + c == a + (b + c),
{
    assert(a + b + c =~= a + (b + c));
}

fn changes(line: &DiffLine) -> (yes: bool)
    ensures
        yes == is_change(line@),
{
    match line.line_type {
        DiffLineType::Context => false,
        _ => true,
    }
}

fn first_change(lines: &Vec<DiffLine>, from: usize) -> (change: usize)
    requires
        from <= lines.len(),
    ensures
        change == next_change(lines_view(lines@), from as int),
        from <= change <= lines.len(),
{
    let ghost plain = lines_view(lines@);
    let mut change = from;
    while change < lines.len() && !changes(&lines[change])
        invariant
            from <= change <= lines.len(),
            plain == lines_view(lines@),
            next_change(plain, from as int) == next_change(plain, change as int),
        decreases lines.len() - change,
    {
        assert(plain[change as int] == lines[change as int]@);
        change += 1;
    }
    proof {
        if change < lines.len() {
            assert(plain[change as int] == lines[change as int]@);
        }
    }
    change
}

fn last_of_hunk(lines: &Vec<DiffLine>, context_lines: usize, change: usize) -> (end: usize)
    requires
        change < lines.len(),
    ensures
        end == hunk_end(lines_view(lines@), context_lines as nat, change as int, change + 1),
        change <= end < lines.len(),
{
    let ghost plain = lines_view(lines@);
    let ghost context = context_lines as nat;
    let mut last = change;
    let mut at = change + 1;
    while at < lines.len() && (changes(&lines[at]) || at - last <= context_lines)
        invariant
            change <= last < at <= lines.len(),
            plain == lines_view(lines@),
            context == context_lines as nat,
            hunk_end(plain, context, change as int, change + 1) == hunk_end(
                plain,
                context,
                last as int,
                at as int,
            ),
        decreases lines.len() - at,
    {
        assert(plain[at as int] == lines[at as int]@);
        if changes(&lines[at]) {
            last = at;
        }
        at += 1;
    }
    proof {
        if at < lines.len() {
            assert(plain[at as int] == lines[at as int]@);
        }
    }
    at - 1
}

fn shown(number: Option<usize>) -> (n: usize)
    ensures
        n == shown_number(number),
{
    match number {
        Some(n) => n,
        None => 0,
    }
}

fn append_hunk_header(
    output: &mut String,
    old_start: usize,
    old_lines: usize,
    new_start: usize,
    new_lines: usize,
)
    ensures
        final(output)@ == old(output)@ + hunk_header(
            old_start as nat,
            old_lines as nat,
            new_start as nat,
            new_lines as nat,
        ),
{
    let mut header = String::from_str("@@ -");
    header.append(decimal(old_start).as_str());
    header.append(",");
    header.append(decimal(old_lines).as_str());
    header.append(" +");
    header.append(decimal(new_start).as_str());
    header.append(",");
    header.append(decimal(new_lines).as_str());
    header.append(" @@\n");
    output.append(header.as_str());
}

fn append_line(output: &mut String, line: &DiffLine)
    ensures
        final(output)@ == old(output)@ + line_prefix(line@.line_type) + line@.content,
{
    match line.line_type {
        DiffLineType::Addition => output.append("+"),
        DiffLineType::Deletion => output.append("-"),
        DiffLineType::Context => output.append(" "),
    }
    output.append(line.content.as_str());
}

fn append_hunk(output: &mut String, lines: &Vec<DiffLine>, start: usize, end: usize)
    requires
        start <= end < lines.len(),
    ensures
        final(output)@ == old(output)@ + hunk_text(lines_view(lines@), start as int, end as int),
{
    let ghost plain = lines_view(lines@);
    let mut body = String::new();
    let mut old_start: Option<usize> = None;
    let mut new_start: Option<usize> = None;
    let mut old_lines: usize = 0;
    let mut new_lines: usize = 0;
    let mut k: usize = start;
    assert(body@ =~= hunk_body(plain, start as int, start as int));
    while k <= end
        invariant
            start <= k <= end + 1,
            end < lines.len(),
            plain == lines_view(lines@),
            body@ == hunk_body(plain, start as int, k as int),
            old_start == first_old_number(plain, start as int, k as int),
            new_start == first_new_number(plain, start as int, k as int),
            old_lines == old_count(plain, start as int, k as int),
            new_lines == new_count(plain, start as int, k as int),
            old_lines <= k - start,
            new_lines <= k - start,
        decreases end + 1 - k,
    {
        assert(plain[k as int] == lines[k as int]@);
        append_line(&mut body, &lines[k]);
        if old_start.is_none() {
            old_start = lines[k].old_line_number;
        }
        if new_start.is_none() {
            new_start = lines[k].new_line_number;
        }
        match lines[k].line_type {
            DiffLineType::Context => {
                old_lines += 1;
                new_lines += 1;
            },
            DiffLineType::Deletion => {
                old_lines += 1;
            },
            DiffLineType::Addition => {
                new_lines += 1;
            },
        }
        k += 1;
    }
    let mut hunk = String::new();
    append_hunk_header(&mut hunk, shown(old_start), old_lines, shown(new_start), new_lines);
    hunk.append(body.as_str());
    assert(hunk@ =~= hunk_text(plain, start as int, end as int));
    output.append(hunk.as_str());
}

} // verus!
