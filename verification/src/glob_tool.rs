//! Finding files by name patterns.
use vstd::prelude::*;
use crate::globbing::{glob_error, glob_matches_path, path_matched_here, portable, Glob};
use crate::order::{
    apart, comes_no_later, is_order, no_later, no_later_is_antisymmetric, no_later_is_total,
    no_later_is_transitive, place_by, sorted_by, sorting_by_orders, sorting_forgets_the_order,
};
use crate::paths::{join_path, joined};
use crate::text::{chars_of, count, decimal, mapped_one_more};
use crate::{said, PermissionLevel, ResultView, ToolResult};

verus! {

pub struct GlobTool;

impl GlobTool {
    pub fn name(&self) -> (out: &'static str)
        ensures
            out@ == "Glob"@,
    {
        "Glob"
    }

    pub fn permission_level(&self) -> (out: PermissionLevel)
        ensures
            out == PermissionLevel::ReadOnly,
    {
        PermissionLevel::ReadOnly
    }

    /// Asks for permission itself, for the path it is about to touch.
    pub fn self_gates(&self) -> (out: bool)
        ensures
            out,
    {
        true
    }
}

/// How many files one answer lists.
pub const MAX_RESULTS: usize = 250;

/// A text with each backslash turned into a slash.
pub open spec fn with_slashes(s: Seq<char>) -> Seq<char> {
    Seq::new(
        s.len(),
        |i: int|
            if s[i] == '\\' {
                '/'
            } else {
                s[i]
            },
    )
}

/// The pattern a search of a directory is made with.
pub open spec fn full_pattern(base_dir: Seq<char>, pattern: Seq<char>) -> Seq<char> {
    with_slashes(joined(base_dir, pattern))
}

/// The pattern a search of a directory is made with.
pub fn full_pattern_of(base_dir: &str, pattern: &str) -> (out: String)
    ensures
        out@ == full_pattern(base_dir@, pattern@),
        portable(out@),
{
    let whole = join_path(base_dir, pattern);
    let x = chars_of(&whole);
    let ghost expected = with_slashes(whole@);
    let mut out = String::new();
    let mut i: usize = 0;
    assert(expected.take(0) =~= seq![]);
    while i < x.len()
        invariant
            i <= x@.len(),
            x@ == whole@,
            expected == with_slashes(whole@),
            out@ == expected.take(i as int),
        decreases x.len() - i,
    {
        let c: char = if x[i] == '\\' {
            '/'
        } else {
            x[i]
        };
        out.push(c);
        assert(expected[i as int] == c);
        assert(expected.take(i + 1) =~= expected.take(i as int).push(c));
        i += 1;
    }
    assert(expected.take(expected.len() as int) =~= expected);
    out
}

/// What a pattern that does not compile is answered with.
pub open spec fn bad_pattern(cause: Seq<char>) -> ResultView {
    said("Invalid glob pattern: "@ + cause, true)
}

/// What a pattern that does not compile is answered with.
pub fn pattern_failure(cause: &str) -> (r: ToolResult)
    ensures
        r@ == bad_pattern(cause@),
{
    let mut out = "Invalid glob pattern: ".to_string();
    out.push_str(cause);
    ToolResult::error(out)
}

/// Compile the pattern of a search.
pub fn compile(base_dir: &str, pattern: &str) -> (r: Result<Glob, ToolResult>)
    ensures
        match r {
            Ok(g) => g@ == full_pattern(base_dir@, pattern@) && glob_error(g@, '/') is None,
            Err(e) => glob_error(full_pattern(base_dir@, pattern@), '/') matches Some(cause) && e@
                == bad_pattern(cause),
        },
        r matches Ok(g) ==> portable(g@),
{
    let full = full_pattern_of(base_dir, pattern);
    match Glob::compile(&full) {
        Ok(g) => Ok(g),
        Err(cause) => Err(pattern_failure(&cause)),
    }
}

/// Whether a file is one that the search is for. No wildcard but `**` reaches
/// across a directory. What a directory is in a path with a backslash is up to the
/// machine.
pub fn is_wanted(pattern: &Glob, path: &str) -> (r: bool)
    requires
        portable(pattern@),
    ensures
        path_matched_here(r, pattern@, path@),
        portable(path@) ==> r == glob_matches_path(pattern@, path@, '/'),
{
    pattern.matches_path(path)
}

/// What a directory that is not there is answered with.
pub fn no_directory(base_dir: &str) -> (r: ToolResult)
    ensures
        r@ == said("Directory not found: "@ + base_dir@, true),
{
    let mut out = "Directory not found: ".to_string();
    out.push_str(base_dir);
    ToolResult::error(out)
}

/// A file that was found, with the time of its last change in nanoseconds.
#[derive(Debug)]
pub struct Entry {
    pub path: String,
    pub modified: i128,
}

/// What an [`Entry`] says.
#[verifier::ext_equal]
pub struct EntryView {
    pub path: Seq<char>,
    pub modified: i128,
}

impl View for Entry {
    type V = EntryView;

    open spec fn view(&self) -> EntryView {
        EntryView { path: self.path@, modified: self.modified }
    }
}

/// What some entries say.
pub open spec fn entry_views(v: Seq<Entry>) -> Seq<EntryView> {
    Seq::new(v.len(), |i: int| v[i]@)
}

/// The order of files: the latest change first, and by name where two were changed
/// at the same time.
pub open spec fn newest_first() -> spec_fn(EntryView, EntryView) -> bool {
    |a: EntryView, b: EntryView|
        a.modified > b.modified || (a.modified == b.modified && no_later(a.path, b.path))
}

fn comes_first(a: &Entry, b: &Entry) -> (r: bool)
    ensures
        r == newest_first()(a@, b@),
{
    a.modified > b.modified || (a.modified == b.modified && comes_no_later(&a.path, &b.path))
}

/// The first `n` of the files, one to a line.
pub open spec fn listed(entries: Seq<EntryView>, n: int) -> Seq<char>
    decreases n,
{
    if n <= 0 || n > entries.len() {
        seq![]
    } else {
        listed(entries, n - 1) + entries[n - 1].path + "\n"@
    }
}

/// What a search answers with the files it found, `matched` of which there were
/// before those whose time could not be read were left out.
pub open spec fn glob_answer(
    pattern: Seq<char>,
    base_dir: Seq<char>,
    matched: nat,
    entries: Seq<EntryView>,
) -> ResultView {
    let sorted = sorted_by(entries, newest_first());
    if matched == 0 {
        said("No files matched pattern \""@ + pattern + "\" in "@ + base_dir, false)
    } else if sorted.len() > MAX_RESULTS {
        said(
            listed(sorted, MAX_RESULTS as int) + ("\n... and "@ + decimal(
                (sorted.len() - MAX_RESULTS) as nat,
            ) + " more files (showing first "@ + decimal(MAX_RESULTS as nat) + ")\n"@),
            false,
        )
    } else {
        said(listed(sorted, sorted.len() as int), false)
    }
}

fn sort_entries(entries: Vec<Entry>) -> (out: Vec<Entry>)
    ensures
        entry_views(out@) == sorted_by(entry_views(entries@), newest_first()),
{
    let ghost model = entry_views(entries@);
    let mut rest = entries;
    let mut out: Vec<Entry> = Vec::new();
    let ghost mut done: int = 0;
    assert(model.take(0) =~= seq![]);
    assert(entry_views(out@) =~= seq![]);
    assert(entry_views(rest@) =~= model.skip(0));
    while rest.len() > 0
        invariant
            0 <= done <= model.len(),
            entry_views(rest@) == model.skip(done),
            entry_views(out@) == sorted_by(model.take(done), newest_first()),
        decreases rest.len(),
    {
        let ghost before = entry_views(rest@);
        let ghost front = entry_views(out@);
        assert(entry_views(rest@).len() == rest@.len());
        let entry = rest.remove(0);
        let ghost x = entry@;
        assert(x == before[0]);
        assert(entry_views(rest@) =~= before.skip(1));
        assert(before.skip(1) =~= model.skip(done + 1));
        let ghost next = model.take(done + 1);
        assert(next.drop_last() =~= model.take(done));
        assert(next.last() == x);
        let mut at: usize = out.len();
        assert(front.take(front.len() as int) =~= front);
        while at > 0 && !comes_first(&out[at - 1], &entry)
            invariant
                at <= out@.len(),
                front == entry_views(out@),
                x == entry@,
                place_by(front, x, newest_first()) == place_by(
                    front.take(at as int),
                    x,
                    newest_first(),
                ),
            decreases at,
        {
            let ghost t = front.take(at as int);
            assert(t.drop_last() =~= front.take(at - 1));
            assert(t.last() == out@[at - 1]@);
            at -= 1;
        }
        let ghost t = front.take(at as int);
        assert(at > 0 ==> t.last() == out@[at - 1]@);
        assert(place_by(front, x, newest_first()) == at);
        out.insert(at, entry);
        assert(entry_views(out@) =~= front.insert(at as int, x));
        proof {
            done = done + 1;
        }
    }
    assert(model.skip(done).len() == 0);
    assert(model.take(done) =~= model);
    out
}

proof fn newest_first_is_an_order()
    ensures
        is_order(newest_first()),
{
    let le = newest_first();
    assert forall|a: EntryView, b: EntryView| #[trigger] le(a, b) || le(b, a) by {
        no_later_is_total(a.path, b.path);
    }
    assert forall|a: EntryView, b: EntryView, c: EntryView| #[trigger] le(a, b) && #[trigger] le(
        b,
        c,
    ) implies le(a, c) by {
        if a.modified == b.modified && b.modified == c.modified {
            no_later_is_transitive(a.path, b.path, c.path);
        }
    }
}

/// Answer a search with the files it found.
pub fn answer(pattern: &str, base_dir: &str, matched: usize, entries: Vec<Entry>) -> (r: ToolResult)
    ensures
        r@ == glob_answer(pattern@, base_dir@, matched as nat, entry_views(entries@)),
{
    if matched == 0 {
        let mut out = "No files matched pattern \"".to_string();
        out.push_str(pattern);
        out.push_str("\" in ");
        out.push_str(base_dir);
        return ToolResult::success(out);
    }
    let sorted = sort_entries(entries);
    let ghost model = entry_views(sorted@);
    let total: usize = sorted.len();
    assert(model.len() == total);
    let mut out = String::new();
    let mut i: usize = 0;
    while i < total && i < MAX_RESULTS
        invariant
            i <= total,
            i <= MAX_RESULTS,
            total == sorted@.len(),
            model == entry_views(sorted@),
            out@ == listed(model, i as int),
        decreases total - i,
    {
        assert(model[i as int] == sorted@[i as int]@);
        out.push_str(&sorted[i].path);
        out.push_str("\n");
        i += 1;
    }
    if total > MAX_RESULTS {
        let mut more = "\n... and ".to_string();
        more.push_str(&count(total - MAX_RESULTS));
        more.push_str(" more files (showing first ");
        more.push_str(&count(MAX_RESULTS));
        more.push_str(")\n");
        out.push_str(&more);
    }
    ToolResult::success(out)
}

/// What the user is asked to allow.
pub fn permission_text(pattern: &str, base_dir: &str) -> (out: String)
    ensures
        out@ == "Glob "@ + pattern@ + " in "@ + base_dir@,
{
    let mut out = "Glob ".to_string();
    out.push_str(pattern);
    out.push_str(" in ");
    out.push_str(base_dir);
    out
}

/// The files are listed from the latest change to the earliest, those of one time by
/// name, and none is lost.
pub proof fn files_are_listed_newest_first(entries: Seq<EntryView>, i: int, j: int)
    requires
        0 <= i < j < sorted_by(entries, newest_first()).len(),
    ensures
        ({
            let first = sorted_by(entries, newest_first())[i];
            let second = sorted_by(entries, newest_first())[j];
            first.modified > second.modified || (first.modified == second.modified && no_later(
                first.path,
                second.path,
            ))
        }),
        sorted_by(entries, newest_first()).to_multiset() == entries.to_multiset(),
{
    newest_first_is_an_order();
    sorting_by_orders(entries, newest_first());
    let le = newest_first();
    assert(le(sorted_by(entries, le)[i], sorted_by(entries, le)[j]));
}

/// The order in which the files were found does not show.
pub proof fn the_walk_does_not_show(
    pattern: Seq<char>,
    base_dir: Seq<char>,
    matched: nat,
    a: Seq<EntryView>,
    b: Seq<EntryView>,
)
    requires
        a.to_multiset() == b.to_multiset(),
    ensures
        glob_answer(pattern, base_dir, matched, a) == glob_answer(pattern, base_dir, matched, b),
{
    let le = newest_first();
    newest_first_is_an_order();
    assert(apart(a, le)) by {
        assert forall|x: EntryView, y: EntryView|
            a.contains(x) && a.contains(y) && #[trigger] le(x, y) && #[trigger] le(
                y,
                x,
            ) implies x == y by {
            no_later_is_antisymmetric(x.path, y.path);
        }
    }
    sorting_forgets_the_order(a, b, le);
}

proof fn listed_one_by_one(entries: Seq<EntryView>, n: int)
    requires
        0 <= n <= entries.len(),
    ensures
        listed(entries, n) == entries.take(n).map_values(
            |e: EntryView| e.path + seq!['\n'],
        ).flatten(),
    decreases n,
{
    reveal_strlit("\n");
    assert("\n"@ =~= seq!['\n']);
    let f = |e: EntryView| e.path + seq!['\n'];
    mapped_one_more(entries.take(n), f);
    if n > 0 {
        listed_one_by_one(entries, n - 1);
        assert(entries.take(n).drop_last() =~= entries.take(n - 1));
        assert(listed(entries, n) =~= entries.take(n - 1).map_values(f).flatten() + f(
            entries[n - 1],
        ));
    }
}

/// Every file found has a line of its own in the answer, up to the first two hundred
/// and fifty; how many more there are is told behind them.
pub proof fn every_file_found_is_listed(
    pattern: Seq<char>,
    base_dir: Seq<char>,
    matched: nat,
    entries: Seq<EntryView>,
)
    requires
        matched > 0,
    ensures
        ({
            let all = sorted_by(entries, newest_first());
            let answer = glob_answer(pattern, base_dir, matched, entries);
            &&& !answer.is_error
            &&& all.len() == entries.len()
            &&& all.len() <= 250 ==> answer.content == all.map_values(
                |e: EntryView| e.path + seq!['\n'],
            ).flatten()
            &&& all.len() > 250 ==> answer.content == all.take(250).map_values(
                |e: EntryView| e.path + seq!['\n'],
            ).flatten() + ("\n... and "@ + decimal((all.len() - 250) as nat)
                + " more files (showing first "@ + decimal(250) + ")\n"@)
        }),
{
    let all = sorted_by(entries, newest_first());
    newest_first_is_an_order();
    sorting_by_orders(entries, newest_first());
    if all.len() <= 250 {
        listed_one_by_one(all, all.len() as int);
        assert(all.take(all.len() as int) =~= all);
    } else {
        listed_one_by_one(all, 250);
    }
}

/// In the pattern searched with, each backslash is a slash and every other character
/// as it was.
pub proof fn only_backslashes_turn(s: Seq<char>, i: int)
    requires
        0 <= i < s.len(),
    ensures
        with_slashes(s).len() == s.len(),
        with_slashes(s)[i] != '\\',
        s[i] != '\\' ==> with_slashes(s)[i] == s[i],
        s[i] == '\\' ==> with_slashes(s)[i] == '/',
{
}

} // verus!
