//! The checks an edit passes before it is written.
//!
//! The text to replace proves its own address: text that is not in the file
//! cannot match. It proves nothing else. These checks supply the two facts it
//! cannot carry, using what the reading tools recorded:
//!
//! * the file is still the one the session read;
//! * the session displayed the lines the edit is about to change.
//!
//! Every check is silent for a path with no record. Enforcing read-before-edit
//! is a separate policy and is not implemented here.
use vstd::prelude::*;
use crate::assoc::Assoc;
use crate::line_endings::{normal, to_lf};
use crate::text::{
    chars_of, count, decimal, kept_one_less, kept_one_more, matches_at, occurs_at, opt_view, same,
    split, split_on, string_of, trim_end, trim_right, views,
};

verus! {

/// How many unseen lines an error quotes back before it stops listing them.
pub const REVEAL_CAP: usize = 12;

/// How wide a quoted line may be before it is cut.
pub const REVEAL_COLUMNS: usize = 200;

/// How often the same text fails against a file before the advice changes.
pub const REPEATED_FAILURE_LIMIT: usize = 3;

/// How closely edits are held to what was read.
#[derive(Debug, PartialEq, Eq, Clone, Copy, Structural)]
pub enum EditGuard {
    /// Nothing is checked.
    Off,
    /// The file must still be the one the session read.
    Stale,
    /// The lines changed must have been displayed, too.
    Strict,
}

impl EditGuard {
    pub fn checks_staleness(self) -> (r: bool)
        ensures
            r == (self != EditGuard::Off),
    {
        match self {
            EditGuard::Off => false,
            _ => true,
        }
    }

    pub fn checks_seen_lines(self) -> (r: bool)
        ensures
            r == (self == EditGuard::Strict),
    {
        match self {
            EditGuard::Strict => true,
            _ => false,
        }
    }
}

// ---------------------------------------------------------------------------
// Lines
// ---------------------------------------------------------------------------

/// How many line feeds a text holds.
pub open spec fn newlines(s: Seq<char>) -> nat
    decreases s.len(),
{
    if s.len() == 0 {
        0
    } else {
        newlines(s.drop_last()) + (if s.last() == '\n' {
            1nat
        } else {
            0nat
        })
    }
}

pub proof fn newlines_bound(s: Seq<char>)
    ensures
        newlines(s) <= s.len(),
    decreases s.len(),
{
    if s.len() > 0 {
        newlines_bound(s.drop_last());
    }
}

/// How many line feeds a text holds.
pub fn count_newlines(s: &str) -> (n: usize)
    ensures
        n == newlines(s@),
{
    let x = chars_of(s);
    let mut n: usize = 0;
    let mut i: usize = 0;
    assert(x@.take(0) =~= seq![]);
    while i < x.len()
        invariant
            i <= x@.len(),
            n <= i,
            n == newlines(x@.take(i as int)),
        decreases x.len() - i,
    {
        assert(x@.take(i + 1).drop_last() =~= x@.take(i as int));
        assert(x@.take(i + 1).last() == x@[i as int]);
        if x[i] == '\n' {
            n += 1;
        }
        i += 1;
    }
    assert(x@.take(x@.len() as int) =~= s@);
    n
}

/// The lines a text occupies: the first, counted from one, and how many follow it.
#[derive(Debug, PartialEq, Eq, Clone, Copy, Structural)]
pub struct LineRange {
    pub start: usize,
    pub span: usize,
}

/// The lines that `sub`, standing at `at`, occupies in `s`.
pub open spec fn range_at(s: Seq<char>, sub: Seq<char>, at: int) -> LineRange {
    LineRange { start: (newlines(s.take(at)) + 1) as usize, span: newlines(sub) as usize }
}

/// The lines of every place from `from` on at which `sub` stands in `s`.
pub open spec fn ranges_from(s: Seq<char>, sub: Seq<char>, from: int) -> Seq<LineRange>
    decreases s.len() - from,
{
    if from < 0 || sub.len() == 0 || from + sub.len() > s.len() {
        seq![]
    } else if occurs_at(s, sub, from) {
        seq![range_at(s, sub, from)] + ranges_from(s, sub, from + 1)
    } else {
        ranges_from(s, sub, from + 1)
    }
}

/// The lines an edit touches: those of every place the text stands at, those
/// that overlap another among them, or of the first.
pub open spec fn ranges(s: Seq<char>, sub: Seq<char>, all: bool) -> Seq<LineRange> {
    let every = ranges_from(s, sub, 0);
    if all || every.len() == 0 {
        every
    } else {
        every.take(1)
    }
}

/// The line ranges `old_norm` occupies in `content_norm`.
///
/// Both arguments must already end their lines in a bare line feed, matching how
/// the editing tools match. Gives every occurrence when `replace_all`, otherwise
/// just the first. Overlapping occurrences are reported: reporting fewer lines
/// than an edit touches is the failure this guard exists to prevent.
pub fn match_line_ranges(content_norm: &str, old_norm: &str, replace_all: bool) -> (out: Vec<
    LineRange,
>)
    ensures
        out@ == ranges(content_norm@, old_norm@, replace_all),
{
    let x = chars_of(content_norm);
    let y = chars_of(old_norm);
    let mut out: Vec<LineRange> = Vec::new();
    if y.len() == 0 {
        assert(out@ =~= ranges_from(x@, y@, 0));
        return out;
    }
    let span: usize = count_newlines(old_norm);
    let total: usize = x.len();
    let mut before: usize = 0;
    let mut at: usize = 0;
    assert(x@.take(0) =~= seq![]);
    assert(out@ + ranges_from(x@, y@, 0) =~= ranges_from(x@, y@, 0));
    while total - at >= y.len()
        invariant
            at <= total,
            total == x@.len(),
            x@ == content_norm@,
            y@ == old_norm@,
            y@.len() > 0,
            span == newlines(y@),
            before <= at,
            before == newlines(x@.take(at as int)),
            out@ + ranges_from(x@, y@, at as int) == ranges_from(x@, y@, 0),
            !replace_all ==> out@.len() == 0,
        decreases total - at,
    {
        if matches_at(&x, at, &y) {
            let ghost earlier = out@;
            let range = LineRange { start: before + 1, span };
            out.push(range);
            assert(range == range_at(x@, y@, at as int));
            assert(out@ + ranges_from(x@, y@, at + 1) =~= earlier + ranges_from(x@, y@, at as int));
            if !replace_all {
                assert(ranges_from(x@, y@, 0) =~= seq![range] + ranges_from(x@, y@, at + 1));
                assert(out@ =~= ranges_from(x@, y@, 0).take(1));
                return out;
            }
        }
        assert(x@.take(at + 1).drop_last() =~= x@.take(at as int));
        assert(x@.take(at + 1).last() == x@[at as int]);
        if x[at] == '\n' {
            before += 1;
        }
        at += 1;
    }
    assert(ranges_from(x@, y@, at as int) =~= seq![]);
    assert(out@ =~= ranges_from(x@, y@, 0));
    out
}

/// Whether a line is one of those that the ranges cover.
pub open spec fn covered(all: Seq<LineRange>, line: int) -> bool {
    exists|i: int|
        0 <= i < all.len() && (#[trigger] all[i]).start <= line <= all[i].start + all[i].span
}

fn covers(all: &Vec<LineRange>, line: usize) -> (r: bool)
    ensures
        r == covered(all@, line as int),
{
    let mut i: usize = 0;
    while i < all.len()
        invariant
            i <= all@.len(),
            forall|k: int|
                0 <= k < i ==> !((#[trigger] all@[k]).start <= line <= all@[k].start
                    + all@[k].span),
        decreases all.len() - i,
    {
        if all[i].start <= line && line - all[i].start <= all[i].span {
            return true;
        }
        i += 1;
    }
    false
}

// ---------------------------------------------------------------------------
// What a session read
// ---------------------------------------------------------------------------

/// What a session knows of a file.
#[derive(Debug)]
pub struct Snapshot {
    /// The text, with bare line feeds.
    pub text: String,
    /// The lines that were displayed; none where nothing was withheld.
    pub seen_lines: Option<Vec<usize>>,
}

/// What a [`Snapshot`] says.
#[verifier::ext_equal]
pub struct SnapshotView {
    pub text: Seq<char>,
    pub seen_lines: Option<Set<usize>>,
}

impl View for Snapshot {
    type V = SnapshotView;

    open spec fn view(&self) -> SnapshotView {
        SnapshotView { text: self.text@, seen_lines: lines_view(self.seen_lines) }
    }
}

/// The lines that a list names.
pub open spec fn lines_view(lines: Option<Vec<usize>>) -> Option<Set<usize>> {
    match lines {
        Some(v) => Some(v@.to_set()),
        None => None,
    }
}

/// Whether a line was displayed.
pub open spec fn displayed(seen: Option<Set<usize>>, line: usize) -> bool {
    match seen {
        Some(lines) => lines.contains(line),
        None => true,
    }
}

fn lists(v: &Vec<usize>, line: usize) -> (r: bool)
    ensures
        r == v@.contains(line),
{
    let mut i: usize = 0;
    while i < v.len()
        invariant
            i <= v@.len(),
            forall|k: int| 0 <= k < i ==> v@[k] != line,
        decreases v.len() - i,
    {
        if v[i] == line {
            return true;
        }
        i += 1;
    }
    false
}

impl Snapshot {
    /// Whether a line was displayed.
    pub fn saw(&self, line: usize) -> (r: bool)
        ensures
            r == displayed(self@.seen_lines, line),
    {
        match &self.seen_lines {
            Some(v) => lists(v, line),
            None => true,
        }
    }
}

/// What the sessions read, and which edits failed.
#[derive(Debug)]
pub struct FileSnapshots {
    records: Assoc<Snapshot>,
    failures: Assoc<Assoc<usize>>,
}

impl FileSnapshots {
    /// What is known of a file.
    pub closed spec fn known(&self, path: Seq<char>) -> Option<SnapshotView> {
        match self.records.lookup(path) {
            Some(s) => Some(s@),
            None => None,
        }
    }

    /// How often a text failed to match in a file since its last edit.
    pub closed spec fn failed(&self, path: Seq<char>, text: Seq<char>) -> usize {
        match self.failures.lookup(path) {
            Some(of_file) => match of_file.lookup(text) {
                Some(n) => n,
                None => 0,
            },
            None => 0,
        }
    }

    /// Nothing read, nothing failed.
    pub fn new() -> (store: FileSnapshots)
        ensures
            forall|path: Seq<char>| #[trigger] store.known(path) is None,
            forall|path: Seq<char>, text: Seq<char>| #[trigger] store.failed(path, text) == 0,
    {
        FileSnapshots { records: Assoc::new(), failures: Assoc::new() }
    }

    /// What is known of a file.
    pub fn snapshot(&self, path: &str) -> (r: Option<&Snapshot>)
        ensures
            match r {
                Some(s) => self.known(path@) == Some(s@),
                None => self.known(path@) is None,
            },
    {
        self.records.get(path)
    }

    /// Record what a file said and which of its lines were displayed.
    pub fn record(&mut self, path: &str, content: &str, seen_lines: Option<Vec<usize>>)
        ensures
            final(self).known(path@) == Some(
                SnapshotView { text: normal(content@), seen_lines: lines_view(seen_lines) },
            ),
            forall|other: Seq<char>|
                other != path@ ==> #[trigger] final(self).known(other) == old(self).known(other),
            forall|other: Seq<char>, text: Seq<char>| #[trigger]
                final(self).failed(other, text) == old(self).failed(other, text),
    {
        let snapshot = Snapshot { text: to_lf(content), seen_lines };
        self.records.set(path, snapshot);
    }

    /// Forget what a file said.
    pub fn forget(&mut self, path: &str)
        ensures
            final(self).known(path@) is None,
            forall|other: Seq<char>|
                other != path@ ==> #[trigger] final(self).known(other) == old(self).known(other),
            forall|other: Seq<char>, text: Seq<char>| #[trigger]
                final(self).failed(other, text) == old(self).failed(other, text),
    {
        let _ = self.records.take(path);
    }

    /// Note that a text failed to match in a file, and say how often it has.
    pub fn note_failure(&mut self, path: &str, text: &str) -> (n: usize)
        ensures
            n == next_count(old(self).failed(path@, text@)),
            final(self).failed(path@, text@) == n,
            forall|other: Seq<char>, any: Seq<char>|
                (other != path@ || any != text@) ==> #[trigger] final(self).failed(other, any)
                    == old(self).failed(other, any),
            forall|other: Seq<char>| #[trigger] final(self).known(other) == old(self).known(other),
    {
        let mut of_file = match self.failures.take(path) {
            Some(of_file) => of_file,
            None => Assoc::new(),
        };
        let n: usize = match of_file.get(text) {
            Some(n) => *n,
            None => 0,
        };
        let next: usize = if n < usize::MAX {
            n + 1
        } else {
            n
        };
        of_file.set(text, next);
        self.failures.set(path, of_file);
        next
    }

    /// Forget which texts failed in a file.
    pub fn clear_failures(&mut self, path: &str)
        ensures
            forall|text: Seq<char>| #[trigger] final(self).failed(path@, text) == 0,
            forall|other: Seq<char>, text: Seq<char>|
                other != path@ ==> #[trigger] final(self).failed(other, text) == old(self).failed(
                    other,
                    text,
                ),
            forall|other: Seq<char>| #[trigger] final(self).known(other) == old(self).known(other),
    {
        let _ = self.failures.take(path);
    }
}

/// One more, as far as it can be counted.
pub open spec fn next_count(n: usize) -> usize {
    if n < usize::MAX {
        (n + 1) as usize
    } else {
        n
    }
}

// ---------------------------------------------------------------------------
// The check
// ---------------------------------------------------------------------------

/// The lines up to `n` that an edit touches and that were not displayed.
pub open spec fn unseen(all: Seq<LineRange>, seen: Option<Set<usize>>, n: int) -> Seq<usize>
    decreases n,
{
    if n <= 0 {
        seq![]
    } else if covered(all, n) && !displayed(seen, n as usize) {
        unseen(all, seen, n - 1).push(n as usize)
    } else {
        unseen(all, seen, n - 1)
    }
}

/// A line as it is quoted back.
pub open spec fn quoted_line(lines: Seq<Seq<char>>, line: usize) -> Seq<char> {
    let text = if 1 <= line <= lines.len() {
        lines[line - 1]
    } else {
        seq![]
    };
    decimal(line as nat) + ": "@ + (if text.len() > REVEAL_COLUMNS {
        text.take(REVEAL_COLUMNS as int) + "…"@
    } else {
        text
    }) + "\n"@
}

/// The first `n` of the unseen lines as they are quoted back.
pub open spec fn quoted(lines: Seq<Seq<char>>, hidden: Seq<usize>, n: int) -> Seq<char>
    decreases n,
{
    if n <= 0 || n > hidden.len() {
        seq![]
    } else {
        quoted(lines, hidden, n - 1) + quoted_line(lines, hidden[n - 1])
    }
}

/// The unseen lines as they are quoted back, and how many more there are.
pub open spec fn revealed(lines: Seq<Seq<char>>, hidden: Seq<usize>) -> Seq<char> {
    if hidden.len() > REVEAL_CAP {
        quoted(lines, hidden, REVEAL_CAP as int) + ("… and "@ + decimal(
            (hidden.len() - REVEAL_CAP) as nat,
        ) + " more\n"@)
    } else {
        quoted(lines, hidden, hidden.len() as int)
    }
}

/// What an edit to a changed file is refused with.
pub open spec fn stale_text(path: Seq<char>) -> Seq<char> {
    path
        + " changed after this session read it, so the edit was not applied. Read it again and redo the change against what it says now."@
}

/// What an edit to undisplayed lines is refused with.
pub open spec fn blind_text(path: Seq<char>, quoted_lines: Seq<char>) -> Seq<char> {
    "This edit changes lines of "@ + path
        + " that were never displayed in this session, so it was not applied. Read them, check the change is still right in that context, then edit again.\n\nThe lines you were about to change:\n"@
        + trim_end(quoted_lines)
}

/// The lines of `content` that an edit touches and that were not displayed.
pub open spec fn hidden_lines(
    content: Seq<char>,
    old_text: Seq<char>,
    all: bool,
    seen: Option<Set<usize>>,
) -> Seq<usize> {
    unseen(
        ranges(normal(content), normal(old_text), all),
        seen,
        split(normal(content), '\n').len() as int,
    )
}

/// Why an edit is refused, where it is.
pub open spec fn refusal(
    guard: EditGuard,
    known: Option<SnapshotView>,
    path: Seq<char>,
    content: Seq<char>,
    old_text: Seq<char>,
    all: bool,
) -> Option<Seq<char>> {
    match known {
        None => None,
        Some(snapshot) => if guard == EditGuard::Off {
            None
        } else if snapshot.text != normal(content) {
            Some(stale_text(path))
        } else if guard != EditGuard::Strict {
            None
        } else {
            let hidden = hidden_lines(content, old_text, all, snapshot.seen_lines);
            if hidden.len() == 0 {
                None
            } else {
                Some(blind_text(path, revealed(split(normal(content), '\n'), hidden)))
            }
        },
    }
}

/// Why an edit was refused.
#[derive(Debug)]
pub struct Refusal {
    pub message: String,
}

fn unseen_lines(all: &Vec<LineRange>, snapshot: &Snapshot, n: usize) -> (out: Vec<usize>)
    ensures
        out@ == unseen(all@, snapshot@.seen_lines, n as int),
{
    let mut out: Vec<usize> = Vec::new();
    let mut line: usize = 0;
    while line < n
        invariant
            line <= n,
            out@ == unseen(all@, snapshot@.seen_lines, line as int),
        decreases n - line,
    {
        line += 1;
        if covers(all, line) && !snapshot.saw(line) {
            out.push(line);
        }
    }
    out
}

fn quote(lines: &Vec<String>, line: usize) -> (out: String)
    ensures
        out@ == quoted_line(views(lines@), line),
{
    let mut out = count(line);
    out.push_str(": ");
    let text: String = if line >= 1 && line <= lines.len() {
        lines[line - 1].clone()
    } else {
        String::new()
    };
    let x = chars_of(&text);
    if x.len() > REVEAL_COLUMNS {
        let mut head = string_of(&x, 0, REVEAL_COLUMNS);
        assert(head@ =~= text@.take(REVEAL_COLUMNS as int));
        head.push_str("…");
        out.push_str(&head);
    } else {
        out.push_str(&text);
    }
    out.push_str("\n");
    out
}

fn reveal_lines(lines: &Vec<String>, hidden: &Vec<usize>) -> (out: String)
    ensures
        out@ == revealed(views(lines@), hidden@),
{
    let mut out = String::new();
    let mut i: usize = 0;
    while i < hidden.len() && i < REVEAL_CAP
        invariant
            i <= hidden@.len(),
            i <= REVEAL_CAP,
            out@ == quoted(views(lines@), hidden@, i as int),
        decreases hidden.len() - i,
    {
        let line = quote(lines, hidden[i]);
        out.push_str(&line);
        i += 1;
    }
    if hidden.len() > REVEAL_CAP {
        let mut more = "… and ".to_string();
        more.push_str(&count(hidden.len() - REVEAL_CAP));
        more.push_str(" more\n");
        out.push_str(&more);
    }
    out
}

/// Check one edit against what the session read.
///
/// `content` is the file as it is on disk right now. `old_string` and `content`
/// are compared with bare line feeds, matching the editing tools. Gives nothing
/// when the edit may proceed.
pub fn check(
    store: &FileSnapshots,
    guard: EditGuard,
    path: &str,
    content: &str,
    old_string: &str,
    replace_all: bool,
) -> (r: Option<Refusal>)
    ensures
        match r {
            Some(e) => refusal(
                guard,
                store.known(path@),
                path@,
                content@,
                old_string@,
                replace_all,
            ) == Some(e.message@),
            None => refusal(
                guard,
                store.known(path@),
                path@,
                content@,
                old_string@,
                replace_all,
            ) is None,
        },
{
    if !guard.checks_staleness() {
        return None;
    }
    let snapshot = match store.snapshot(path) {
        Some(s) => s,
        None => {
            return None;
        },
    };
    let content_norm = to_lf(content);
    if !same(&snapshot.text, &content_norm) {
        let mut message = path.to_string();
        message.push_str(
            " changed after this session read it, so the edit was not applied. Read it again and redo the change against what it says now.",
        );
        return Some(Refusal { message });
    }
    if !guard.checks_seen_lines() {
        return None;
    }
    let old_norm = to_lf(old_string);
    let touched = match_line_ranges(&content_norm, &old_norm, replace_all);
    let lines = split_on(&content_norm, '\n');
    let hidden = unseen_lines(&touched, snapshot, lines.len());
    if hidden.len() == 0 {
        return None;
    }
    let shown = reveal_lines(&lines, &hidden);
    let mut message = "This edit changes lines of ".to_string();
    message.push_str(path);
    message.push_str(
        " that were never displayed in this session, so it was not applied. Read them, check the change is still right in that context, then edit again.\n\nThe lines you were about to change:\n",
    );
    let shown = trim_right(&shown);
    message.push_str(&shown);
    Some(Refusal { message })
}

/// What a text that failed to match is reported with.
pub open spec fn failure_text(path: Seq<char>, plain: Seq<char>, n: usize) -> Seq<char> {
    if n < REPEATED_FAILURE_LIMIT {
        plain
    } else {
        plain + "\n\nThis is attempt "@ + decimal(n as nat)
            + " with the same text against this file. Rewording it again will not help. Read "@
            + path + " and copy the target out of what it actually says."@
    }
}

/// Turn a failed match into an error, escalating a repeat.
///
/// The plain message is returned the first two times. From the third identical
/// failure the message stops repeating the advice that has not worked and names
/// the one action that will.
pub fn describe_failed_match(
    store: &mut FileSnapshots,
    guard: EditGuard,
    path: &str,
    old_string: &str,
    plain: &str,
) -> (out: String)
    ensures
        guard == EditGuard::Off ==> out@ == plain@ && *final(store) == *old(store),
        guard != EditGuard::Off ==> {
            let n = next_count(old(store).failed(path@, old_string@));
            &&& out@ == failure_text(path@, plain@, n)
            &&& final(store).failed(path@, old_string@) == n
        },
        forall|other: Seq<char>, any: Seq<char>|
            (other != path@ || any != old_string@) ==> #[trigger] final(store).failed(other, any)
                == old(store).failed(other, any),
        forall|other: Seq<char>| #[trigger] final(store).known(other) == old(store).known(other),
{
    if !guard.checks_staleness() {
        return plain.to_string();
    }
    let n: usize = store.note_failure(path, old_string);
    if n < REPEATED_FAILURE_LIMIT {
        return plain.to_string();
    }
    let mut out = plain.to_string();
    out.push_str("\n\nThis is attempt ");
    out.push_str(&count(n));
    out.push_str(
        " with the same text against this file. Rewording it again will not help. Read ",
    );
    out.push_str(path);
    out.push_str(" and copy the target out of what it actually says.");
    out
}

// ---------------------------------------------------------------------------
// After an edit
// ---------------------------------------------------------------------------

/// The lines that were displayed, after `span + 1` lines from `start` on became
/// `grown + 1` new ones: those before stay, those after move, and what was
/// written has been seen.
pub open spec fn shifted(seen: Set<usize>, start: usize, span: usize, grown: nat) -> Set<usize> {
    Set::new(
        |line: usize|
            if line < start {
                seen.contains(line)
            } else if line <= start + grown {
                true
            } else {
                0 <= line - grown + span <= usize::MAX && seen.contains(
                    (line - grown + span) as usize,
                )
            },
    )
}

/// Whether every moved line still has a number.
pub open spec fn fits(seen: Set<usize>, start: usize, span: usize, grown: nat) -> bool {
    &&& start + grown <= usize::MAX
    &&& forall|line: usize| #[trigger]
        seen.contains(line) && line > start + span ==> line - span + grown <= usize::MAX
}

/// The displayed lines of a file after one replacement; none where they cannot
/// be followed.
pub open spec fn remapped(
    known: Option<SnapshotView>,
    before: Seq<char>,
    old_text: Seq<char>,
    new_text: Seq<char>,
) -> Option<Set<usize>> {
    match known {
        None => None,
        Some(snapshot) => match snapshot.seen_lines {
            None => None,
            Some(seen) => {
                let places = ranges(normal(before), normal(old_text), false);
                let grown = newlines(normal(new_text));
                if places.len() == 0 || !fits(seen, places[0].start, places[0].span, grown) {
                    None
                } else {
                    Some(shifted(seen, places[0].start, places[0].span, grown))
                }
            },
        },
    }
}

/// Shift displayed lines across one replacement.
fn shift_lines(seen: &Vec<usize>, start: usize, span: usize, grown: usize) -> (r: Option<Vec<usize>>)
    ensures
        match r {
            Some(v) => fits(seen@.to_set(), start, span, grown as nat) && v@.to_set() == shifted(
                seen@.to_set(),
                start,
                span,
                grown as nat,
            ),
            None => !fits(seen@.to_set(), start, span, grown as nat),
        },
{
    let ghost set = seen@.to_set();
    if start.checked_add(grown).is_none() {
        return None;
    }
    let mut out: Vec<usize> = Vec::new();
    let mut i: usize = 0;
    while i < seen.len()
        invariant
            i <= seen@.len(),
            set == seen@.to_set(),
            start + grown <= usize::MAX,
            forall|k: int|
                0 <= k < i && (#[trigger] seen@[k]) > start + span ==> seen@[k] - span + grown
                    <= usize::MAX,
            forall|line: usize| #[trigger]
                out@.contains(line) ==> shifted(set, start, span, grown as nat).contains(line),
            forall|k: int|
                #![trigger seen@[k]]
                0 <= k < i && seen@[k] < start ==> out@.contains(seen@[k]),
            forall|k: int|
                #![trigger seen@[k]]
                0 <= k < i && seen@[k] > start + span ==> out@.contains(
                    (seen@[k] - span + grown) as usize,
                ),
        decreases seen.len() - i,
    {
        let line: usize = seen[i];
        assert(seen@.contains(line));
        let ghost earlier = out@;
        if line < start {
            out.push(line);
            proof {
                assert(out@[out@.len() - 1] == line);
                pushed_keeps(earlier, line);
            }
        } else if line - start > span {
            match (line - span).checked_add(grown) {
                Some(moved) => {
                    out.push(moved);
                    proof {
                        assert(out@[out@.len() - 1] == moved);
                        pushed_keeps(earlier, moved);
                        assert(moved > start + grown);
                        assert((moved - grown + span) as usize == line);
                    }
                },
                None => {
                    assert(set.contains(line));
                    return None;
                },
            }
        }
        i += 1;
    }
    let ghost moved_only = out@;
    out.push(start);
    proof {
        pushed_keeps(moved_only, start);
    }
    let mut k: usize = 0;
    while k < grown
        invariant
            k <= grown,
            start + grown <= usize::MAX,
            set == seen@.to_set(),
            forall|line: usize| #[trigger]
                out@.contains(line) ==> shifted(set, start, span, grown as nat).contains(line),
            forall|line: usize| #[trigger] moved_only.contains(line) ==> out@.contains(line),
            forall|line: usize|
                start <= line && line <= start + k ==> #[trigger] out@.contains(line),
        decreases grown - k,
    {
        k += 1;
        let ghost earlier = out@;
        out.push(start + k);
        proof {
            pushed_keeps(earlier, (start + k) as usize);
            assert forall|line: usize| start <= line && line <= start
                + k implies #[trigger] out@.contains(line) by {
                if line < start + k {
                    assert(earlier.contains(line));
                }
            }
        }
    }
    proof {
        let target = shifted(set, start, span, grown as nat);
        assert forall|line: usize| #[trigger] target.contains(line) implies out@.contains(line) by {
            if line < start {
                assert(seen@.contains(line));
                let i = choose|i: int| 0 <= i < seen@.len() && seen@[i] == line;
                assert(moved_only.contains(seen@[i]));
            } else if line > start + grown {
                let from = (line - grown + span) as usize;
                assert(seen@.contains(from));
                let i = choose|i: int| 0 <= i < seen@.len() && seen@[i] == from;
                assert(seen@[i] > start + span);
                assert(moved_only.contains((seen@[i] - span + grown) as usize));
                assert((seen@[i] - span + grown) as usize == line);
            }
        }
        assert(out@.to_set() =~= target);
        assert forall|line: usize| #[trigger] set.contains(line) && line > start
            + span implies line - span + grown <= usize::MAX by {
            let i = choose|i: int| 0 <= i < seen@.len() && seen@[i] == line;
            assert(seen@[i] > start + span);
        }
    }
    Some(out)
}

proof fn pushed_keeps(v: Seq<usize>, x: usize)
    ensures
        forall|line: usize| #[trigger] v.contains(line) ==> v.push(x).contains(line),
        v.push(x).contains(x),
        forall|line: usize| #[trigger] v.push(x).contains(line) ==> line == x || v.contains(line),
{
    assert forall|line: usize| #[trigger] v.contains(line) implies v.push(x).contains(line) by {
        let i = choose|i: int| 0 <= i < v.len() && v[i] == line;
        assert(v.push(x)[i] == line);
    }
    assert(v.push(x)[v.len() as int] == x);
    assert forall|line: usize| #[trigger] v.push(x).contains(line) implies line == x || v.contains(
        line,
    ) by {
        let i = choose|i: int| 0 <= i < v.push(x).len() && v.push(x)[i] == line;
        if i < v.len() {
            assert(v[i] == line);
        }
    }
}

/// What is known of a file after an edit: `settled` is what the file says now,
/// `written` what the edit wrote, and `was` what was known before.
pub open spec fn known_after(
    was: Option<SnapshotView>,
    before: Seq<char>,
    written: Seq<char>,
    old_text: Seq<char>,
    new_text: Seq<char>,
    replacements: usize,
    settled: Option<Seq<char>>,
) -> Option<SnapshotView> {
    match settled {
        None => None,
        Some(now) => if replacements == 1 && now == written {
            match remapped(was, before, old_text, new_text) {
                Some(seen) => Some(SnapshotView { text: normal(now), seen_lines: Some(seen) }),
                None => None,
            }
        } else {
            None
        },
    }
}

/// Record the result of a successful edit.
///
/// `settled` is what the file says after any formatter has run: a formatter
/// rewrites the file, and a record of what was written before it would make the
/// next edit fail as changed.
///
/// The session has now seen whatever it wrote, but the lines around it moved. A
/// single replacement is remapped exactly. Anything else, and any case where the
/// file does not say what was written, drops the record, so the next edit is
/// unguarded rather than guarded against line numbers that no longer mean
/// anything.
pub fn record_applied_edit(
    store: &mut FileSnapshots,
    path: &str,
    before: &str,
    written: &str,
    old_string: &str,
    new_string: &str,
    replacements: usize,
    settled: &Option<String>,
)
    ensures
        final(store).known(path@) == known_after(
            old(store).known(path@),
            before@,
            written@,
            old_string@,
            new_string@,
            replacements,
            opt_view(*settled),
        ),
        forall|other: Seq<char>|
            other != path@ ==> #[trigger] final(store).known(other) == old(store).known(other),
        forall|text: Seq<char>| #[trigger] final(store).failed(path@, text) == 0,
        forall|other: Seq<char>, text: Seq<char>|
            other != path@ ==> #[trigger] final(store).failed(other, text) == old(store).failed(
                other,
                text,
            ),
{
    store.clear_failures(path);
    let now = match settled {
        Some(now) => now,
        None => {
            store.forget(path);
            return;
        },
    };
    let mapped: Option<Vec<usize>> = if replacements == 1 && same(now, written) {
        remap_seen_lines(store, path, before, old_string, new_string)
    } else {
        None
    };
    match mapped {
        Some(seen) => store.record(path, now, Some(seen)),
        None => store.forget(path),
    }
}

/// Shift the recorded displayed lines across one replacement.
///
/// Gives nothing when the record cannot be mapped: no record, no line set, a
/// text that is no longer findable, or lines that would outgrow their numbers.
/// The caller then forgets the path instead of guessing.
pub fn remap_seen_lines(
    store: &FileSnapshots,
    path: &str,
    before: &str,
    old_string: &str,
    new_string: &str,
) -> (r: Option<Vec<usize>>)
    ensures
        lines_view(r) == remapped(store.known(path@), before@, old_string@, new_string@),
{
    let snapshot = match store.snapshot(path) {
        Some(s) => s,
        None => {
            return None;
        },
    };
    let seen = match &snapshot.seen_lines {
        Some(seen) => seen,
        None => {
            return None;
        },
    };
    let places = match_line_ranges(&to_lf(before), &to_lf(old_string), false);
    if places.len() == 0 {
        return None;
    }
    let grown: usize = count_newlines(&to_lf(new_string));
    shift_lines(seen, places[0].start, places[0].span, grown)
}

/// Record a file the model wrote in full: `settled` is what it says after any
/// formatter has run. No line set is recorded: the content came from the model,
/// so there is nothing it has not seen.
pub fn record_written_file(store: &mut FileSnapshots, path: &str, settled: &Option<String>)
    ensures
        final(store).known(path@) == (match opt_view(*settled) {
            Some(now) => Some(SnapshotView { text: normal(now), seen_lines: None }),
            None => None,
        }),
        forall|other: Seq<char>|
            other != path@ ==> #[trigger] final(store).known(other) == old(store).known(other),
        forall|text: Seq<char>| #[trigger] final(store).failed(path@, text) == 0,
        forall|other: Seq<char>, text: Seq<char>|
            other != path@ ==> #[trigger] final(store).failed(other, text) == old(store).failed(
                other,
                text,
            ),
{
    store.clear_failures(path);
    match settled {
        Some(now) => store.record(path, now, None),
        None => store.forget(path),
    }
}

// ---------------------------------------------------------------------------
// Laws
// ---------------------------------------------------------------------------

/// A file this session never read is not guarded, at any level.
pub proof fn an_unread_file_is_not_guarded(
    guard: EditGuard,
    path: Seq<char>,
    content: Seq<char>,
    old_text: Seq<char>,
    all: bool,
)
    ensures
        refusal(guard, None, path, content, old_text, all) is None,
{
}

/// A file whose line endings alone were rewritten does not read as changed.
pub proof fn line_endings_are_no_change(
    snapshot: SnapshotView,
    path: Seq<char>,
    content: Seq<char>,
    old_text: Seq<char>,
    all: bool,
)
    requires
        normal(content) == snapshot.text,
    ensures
        refusal(EditGuard::Stale, Some(snapshot), path, content, old_text, all) is None,
{
}

/// What the lenient level refuses, the strict level refuses too.
pub proof fn the_strict_level_refuses_more(
    known: Option<SnapshotView>,
    path: Seq<char>,
    content: Seq<char>,
    old_text: Seq<char>,
    all: bool,
)
    requires
        refusal(EditGuard::Stale, known, path, content, old_text, all) is Some,
    ensures
        refusal(EditGuard::Strict, known, path, content, old_text, all) == refusal(
            EditGuard::Stale,
            known,
            path,
            content,
            old_text,
            all,
        ),
{
}

/// A file that was displayed whole, and has not changed, can be edited anywhere.
pub proof fn a_displayed_file_is_editable(
    guard: EditGuard,
    path: Seq<char>,
    content: Seq<char>,
    old_text: Seq<char>,
    all: bool,
)
    ensures
        refusal(
            guard,
            Some(SnapshotView { text: normal(content), seen_lines: None }),
            path,
            content,
            old_text,
            all,
        ) is None,
{
    nothing_unseen(
        ranges(normal(content), normal(old_text), all),
        split(normal(content), '\n').len() as int,
    );
}

proof fn nothing_unseen(all: Seq<LineRange>, n: int)
    ensures
        unseen(all, None, n).len() == 0,
    decreases n,
{
    if n > 0 {
        nothing_unseen(all, n - 1);
    }
}

/// A line is reported as unseen exactly where the edit touches it and it was not
/// displayed.
pub proof fn unseen_is_touched_and_undisplayed(
    all: Seq<LineRange>,
    seen: Option<Set<usize>>,
    n: int,
    line: usize,
)
    requires
        0 <= n <= usize::MAX,
    ensures
        unseen(all, seen, n).contains(line) == (1 <= line <= n && covered(all, line as int)
            && !displayed(seen, line)),
    decreases n,
{
    if n > 0 {
        unseen_is_touched_and_undisplayed(all, seen, n - 1, line);
        let front = unseen(all, seen, n - 1);
        let whole = unseen(all, seen, n);
        if covered(all, n) && !displayed(seen, n as usize) {
            pushed_keeps(front, n as usize);
        }
    }
}

/// After an edit of one place that the file kept, what was written counts as
/// displayed.
pub proof fn what_was_written_is_seen(
    seen: Set<usize>,
    start: usize,
    span: usize,
    grown: nat,
    line: usize,
)
    requires
        start <= line <= start + grown,
    ensures
        shifted(seen, start, span, grown).contains(line),
{
}

/// A line below the edited ones is displayed afterwards, under its new number,
/// exactly where it was displayed before.
pub proof fn a_lower_line_moves(
    seen: Set<usize>,
    start: usize,
    span: usize,
    grown: nat,
    line: usize,
)
    requires
        line > start + span,
        line - span + grown <= usize::MAX,
    ensures
        shifted(seen, start, span, grown).contains((line - span + grown) as usize) == seen.contains(
            line,
        ),
{
}

/// Once an edit is recorded, the next one is never refused because the file
/// changed, whatever a formatter made of the file in between.
pub proof fn an_edit_does_not_make_the_next_one_stale(
    known: Option<SnapshotView>,
    before: Seq<char>,
    written: Seq<char>,
    old_text: Seq<char>,
    new_text: Seq<char>,
    replacements: usize,
    settled: Seq<char>,
    path: Seq<char>,
    next: Seq<char>,
    all: bool,
)
    ensures
        refusal(
            EditGuard::Stale,
            known_after(known, before, written, old_text, new_text, replacements, Some(settled)),
            path,
            settled,
            next,
            all,
        ) is None,
{
}

/// The line feeds counted are the characters that are one.
pub proof fn line_feeds_are_counted(s: Seq<char>)
    ensures
        newlines(s) == s.filter(|c: char| c == '\n').len(),
    decreases s.len(),
{
    kept_one_more(s, |c: char| c == '\n');
    if s.len() > 0 {
        line_feeds_are_counted(s.drop_last());
    }
}

/// The places from `from` on at which a text stands.
pub open spec fn places_from(s: Seq<char>, sub: Seq<char>, from: int) -> Seq<int> {
    Seq::new(
        if s.len() >= from {
            (s.len() - from) as nat
        } else {
            0
        },
        |i: int| from + i,
    ).filter(|at: int| occurs_at(s, sub, at))
}

proof fn every_place_has_its_lines(s: Seq<char>, sub: Seq<char>, from: int)
    requires
        0 <= from,
        sub.len() > 0,
    ensures
        ranges_from(s, sub, from) == places_from(s, sub, from).map_values(
            |at: int| range_at(s, sub, at),
        ),
    decreases s.len() - from,
{
    let keep = |at: int| occurs_at(s, sub, at);
    if from < s.len() {
        let here = Seq::new((s.len() - from) as nat, |i: int| from + i);
        kept_one_less(here, keep);
        assert(here.skip(1) =~= Seq::new((s.len() - (from + 1)) as nat, |i: int| from + 1 + i));
        every_place_has_its_lines(s, sub, from + 1);
        if from + sub.len() > s.len() {
            assert(!occurs_at(s, sub, from));
            assert(ranges_from(s, sub, from + 1) =~= seq![]);
            assert(places_from(s, sub, from + 1).map_values(|at: int| range_at(s, sub, at)).len()
                == 0);
        }
        assert(ranges_from(s, sub, from) =~= places_from(s, sub, from).map_values(
            |at: int| range_at(s, sub, at),
        ));
    } else {
        kept_one_more(Seq::<int>::empty(), keep);
        assert(Seq::new(0, |i: int| from + i) =~= Seq::<int>::empty());
        assert(ranges_from(s, sub, from) =~= places_from(s, sub, from).map_values(
            |at: int| range_at(s, sub, at),
        ));
    }
}

/// An edit of every place touches the lines of each, those that overlap among them, in
/// order; an edit of one place touches those of the first. The lines of a place are
/// the one it starts on, counted from one by the line feeds before it, and as many
/// more as it holds line feeds.
pub proof fn an_edit_touches_the_lines_of_its_places(s: Seq<char>, sub: Seq<char>)
    requires
        sub.len() > 0,
        s.len() < usize::MAX,
    ensures
        ({
            let places = places_from(s, sub, 0);
            let touched = ranges(s, sub, true);
            &&& touched.len() == places.len()
            &&& forall|i: int|
                0 <= i < places.len() ==> (#[trigger] touched[i]).start == newlines(
                    s.take(places[i]),
                ) + 1 && touched[i].span == newlines(sub)
            &&& places.len() > 0 ==> ranges(s, sub, false) == seq![touched[0]]
            &&& places.len() == 0 ==> ranges(s, sub, false).len() == 0
        }),
{
    every_place_has_its_lines(s, sub, 0);
    let places = places_from(s, sub, 0);
    let touched = ranges(s, sub, true);
    assert forall|i: int| 0 <= i < places.len() implies (#[trigger] touched[i]).start == newlines(
        s.take(places[i]),
    ) + 1 && touched[i].span == newlines(sub) by {
        Seq::new(s.len(), |i: int| 0 + i).lemma_filter_pred(|at: int| occurs_at(s, sub, at), i);
        assert(occurs_at(s, sub, places[i]));
        newlines_bound(s.take(places[i]));
        newlines_bound(sub);
    }
    if places.len() > 0 {
        assert(touched.take(1) =~= seq![touched[0]]);
    }
}

/// The unseen lines are told in ascending order, each once.
pub proof fn unseen_lines_ascend(
    all: Seq<LineRange>,
    seen: Option<Set<usize>>,
    n: int,
    i: int,
    j: int,
)
    requires
        0 <= n <= usize::MAX,
        0 <= i < j < unseen(all, seen, n).len(),
    ensures
        unseen(all, seen, n)[i] < unseen(all, seen, n)[j],
    decreases n,
{
    if n > 0 {
        let front = unseen(all, seen, n - 1);
        if j < front.len() {
            unseen_lines_ascend(all, seen, n - 1, i, j);
        } else {
            assert(front.contains(front[i]));
            unseen_is_touched_and_undisplayed(all, seen, n - 1, front[i]);
        }
    }
}

proof fn quoted_one_by_one(lines: Seq<Seq<char>>, hidden: Seq<usize>, n: int)
    requires
        0 <= n <= hidden.len(),
    ensures
        quoted(lines, hidden, n) == Seq::new(
            n as nat,
            |i: int| quoted_line(lines, hidden[i]),
        ).flatten(),
    decreases n,
{
    let parts = Seq::new(n as nat, |i: int| quoted_line(lines, hidden[i]));
    if n > 0 {
        quoted_one_by_one(lines, hidden, n - 1);
        let fewer = Seq::new((n - 1) as nat, |i: int| quoted_line(lines, hidden[i]));
        fewer.lemma_flatten_push(quoted_line(lines, hidden[n - 1]));
        assert(parts =~= fewer.push(quoted_line(lines, hidden[n - 1])));
    } else {
        assert(parts =~= seq![]);
        assert(parts.flatten() =~= seq![]);
    }
}

/// Each of the first twelve unseen lines is quoted back under its own number, in
/// order; how many more there are is told behind them.
pub proof fn each_unseen_line_is_quoted(
    lines: Seq<Seq<char>>,
    hidden: Seq<usize>,
    n: nat,
    texts: Seq<Seq<char>>,
    more: Seq<char>,
)
    requires
        n == (if hidden.len() > 12 {
            12
        } else {
            hidden.len()
        }),
        forall|i: int| 0 <= i < hidden.len() ==> 1 <= #[trigger] hidden[i] <= lines.len(),
        texts.len() == n,
        forall|i: int|
            0 <= i < n ==> #[trigger] texts[i] == (if lines[hidden[i] - 1].len() > 200 {
                lines[hidden[i] - 1].take(200) + "…"@
            } else {
                lines[hidden[i] - 1]
            }),
        more == (if hidden.len() > 12 {
            "… and "@ + decimal((hidden.len() - 12) as nat) + " more\n"@
        } else {
            seq![]
        }),
    ensures
        revealed(lines, hidden) == Seq::new(
            n,
            |i: int| decimal(hidden[i] as nat) + ": "@ + texts[i] + "\n"@,
        ).flatten() + more,
{
    quoted_one_by_one(lines, hidden, n as int);
    let parts = Seq::new(n, |i: int| decimal(hidden[i] as nat) + ": "@ + texts[i] + "\n"@);
    assert forall|i: int| 0 <= i < n implies quoted_line(lines, hidden[i]) == #[trigger] parts[i] by {
        assert(1 <= hidden[i] <= lines.len());
        assert(texts[i] == texts[i]);
    }
    assert(Seq::new(n, |i: int| quoted_line(lines, hidden[i])) =~= parts);
    assert(parts.flatten() + seq![] =~= parts.flatten());
}

/// A line above the edited ones is displayed afterwards exactly where it was before.
pub proof fn an_upper_line_stays(
    seen: Set<usize>,
    start: usize,
    span: usize,
    grown: nat,
    line: usize,
)
    requires
        line < start,
    ensures
        shifted(seen, start, span, grown).contains(line) == seen.contains(line),
{
}

/// After an edit the file is known as it now is, with the lines displayed carried over,
/// where, and only where, one place was edited, the file kept what was written, and the
/// lines can be followed.
pub proof fn an_edit_carries_the_lines_over(
    was: Option<SnapshotView>,
    before: Seq<char>,
    written: Seq<char>,
    old_text: Seq<char>,
    new_text: Seq<char>,
    replacements: usize,
    now: Seq<char>,
)
    ensures
        ({
            let after = known_after(
                was,
                before,
                written,
                old_text,
                new_text,
                replacements,
                Some(now),
            );
            &&& after is Some <==> replacements == 1 && now == written && remapped(
                was,
                before,
                old_text,
                new_text,
            ) is Some
            &&& after is Some ==> after->0.text == normal(now) && after->0.seen_lines == remapped(
                was,
                before,
                old_text,
                new_text,
            )
        }),
        known_after(was, before, written, old_text, new_text, replacements, None) is None,
{
}

} // verus!
