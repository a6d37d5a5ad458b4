//! Diagnostics grouped by file and counted by code, as the type checkers'
//! filters report them.
use vstd::prelude::*;
use crate::output_filter::{truncate, truncated};
use crate::text::{
    count, decimal, join, join_with, kept_one_more, mapped_one_more, member, same, views,
    views_push,
};

verus! {

// ---------------------------------------------------------------------------
// Counting and ranking
// ---------------------------------------------------------------------------

/// The texts of `keys` without repetitions, in the order of first appearance.
pub open spec fn distinct(keys: Seq<Seq<char>>) -> Seq<Seq<char>>
    decreases keys.len(),
{
    if keys.len() == 0 {
        seq![]
    } else {
        let front = distinct(keys.drop_last());
        if front.contains(keys.last()) {
            front
        } else {
            front.push(keys.last())
        }
    }
}

/// How often `key` occurs in `keys`.
pub open spec fn tally(keys: Seq<Seq<char>>, key: Seq<char>) -> nat
    decreases keys.len(),
{
    if keys.len() == 0 {
        0
    } else {
        tally(keys.drop_last(), key) + (if keys.last() == key {
            1nat
        } else {
            0nat
        })
    }
}

/// The members of `groups` that occur exactly `n` times in `keys`.
pub open spec fn occurring(groups: Seq<Seq<char>>, keys: Seq<Seq<char>>, n: nat) -> Seq<Seq<char>>
    decreases groups.len(),
{
    if groups.len() == 0 {
        seq![]
    } else if tally(keys, groups.last()) == n {
        occurring(groups.drop_last(), keys, n).push(groups.last())
    } else {
        occurring(groups.drop_last(), keys, n)
    }
}

/// The members of `groups` that occur at most `n` times, the most frequent first.
pub open spec fn ranked(groups: Seq<Seq<char>>, keys: Seq<Seq<char>>, n: nat) -> Seq<Seq<char>>
    decreases n,
{
    if n == 0 {
        seq![]
    } else {
        occurring(groups, keys, n) + ranked(groups, keys, (n - 1) as nat)
    }
}

/// The texts of `keys` without repetitions, the most frequent first; those of
/// one frequency in the order of first appearance.
pub open spec fn by_frequency(keys: Seq<Seq<char>>) -> Seq<Seq<char>> {
    ranked(distinct(keys), keys, keys.len())
}

pub proof fn distinct_contains(keys: Seq<Seq<char>>, key: Seq<char>)
    ensures
        distinct(keys).contains(key) == keys.contains(key),
        distinct(keys).len() <= keys.len(),
    decreases keys.len(),
{
    if keys.len() > 0 {
        let front = keys.drop_last();
        distinct_contains(front, key);
        distinct_contains(front, keys.last());
        let seen = distinct(front);
        if keys.contains(key) {
            let i = choose|i: int| 0 <= i < keys.len() && keys[i] == key;
            if i < front.len() {
                assert(front[i] == key);
                let j = choose|j: int| 0 <= j < seen.len() && seen[j] == key;
                assert(distinct(keys)[j] == key);
            } else if !seen.contains(key) {
                assert(distinct(keys)[seen.len() as int] == key);
            }
        }
        if distinct(keys).contains(key) {
            let j = choose|j: int| 0 <= j < distinct(keys).len() && distinct(keys)[j] == key;
            if j < seen.len() {
                assert(seen[j] == key);
                let i = choose|i: int| 0 <= i < front.len() && front[i] == key;
                assert(keys[i] == key);
            } else {
                assert(keys[keys.len() - 1] == key);
            }
        }
    }
}

pub proof fn tally_bounds(keys: Seq<Seq<char>>, key: Seq<char>)
    ensures
        tally(keys, key) <= keys.len(),
        tally(keys, key) > 0 <==> keys.contains(key),
    decreases keys.len(),
{
    if keys.len() > 0 {
        tally_bounds(keys.drop_last(), key);
        if keys.contains(key) {
            let i = choose|i: int| 0 <= i < keys.len() && keys[i] == key;
            if i < keys.len() - 1 {
                assert(keys.drop_last()[i] == key);
            }
        }
        if keys.last() == key {
            assert(keys[keys.len() - 1] == key);
        } else if keys.drop_last().contains(key) {
            let i = choose|i: int| 0 <= i < keys.len() - 1 && keys.drop_last()[i] == key;
            assert(keys[i] == key);
        }
    }
}

proof fn occurring_contains(groups: Seq<Seq<char>>, keys: Seq<Seq<char>>, n: nat, key: Seq<char>)
    ensures
        occurring(groups, keys, n).contains(key) <==> groups.contains(key) && tally(keys, key) == n,
    decreases groups.len(),
{
    if groups.len() > 0 {
        let front = groups.drop_last();
        occurring_contains(front, keys, n, key);
        let before = occurring(front, keys, n);
        let after = occurring(groups, keys, n);
        if groups.contains(key) && tally(keys, key) == n {
            let i = choose|i: int| 0 <= i < groups.len() && groups[i] == key;
            if i < front.len() {
                assert(front[i] == key);
                let j = choose|j: int| 0 <= j < before.len() && before[j] == key;
                assert(after[j] == key);
            } else {
                assert(after[before.len() as int] == key);
            }
        }
        if after.contains(key) {
            let j = choose|j: int| 0 <= j < after.len() && after[j] == key;
            if j < before.len() {
                assert(before[j] == key);
                let i = choose|i: int| 0 <= i < front.len() && front[i] == key;
                assert(groups[i] == key);
            } else {
                assert(groups[groups.len() - 1] == key);
            }
        }
    }
}

proof fn ranked_contains(groups: Seq<Seq<char>>, keys: Seq<Seq<char>>, n: nat, key: Seq<char>)
    ensures
        ranked(groups, keys, n).contains(key) <==> groups.contains(key) && 0 < tally(keys, key)
            <= n,
    decreases n,
{
    if n > 0 {
        let rest = ranked(groups, keys, (n - 1) as nat);
        let here = occurring(groups, keys, n);
        ranked_contains(groups, keys, (n - 1) as nat, key);
        occurring_contains(groups, keys, n, key);
        let all = here + rest;
        if here.contains(key) {
            let j = choose|j: int| 0 <= j < here.len() && here[j] == key;
            assert(all[j] == key);
        } else if rest.contains(key) {
            let j = choose|j: int| 0 <= j < rest.len() && rest[j] == key;
            assert(all[here.len() + j] == key);
        }
        if all.contains(key) {
            let j = choose|j: int| 0 <= j < all.len() && all[j] == key;
            if j < here.len() {
                assert(here[j] == key);
            } else {
                assert(rest[j - here.len()] == key);
            }
        }
    }
}

/// Ranking neither loses nor invents a key.
pub proof fn ranking_keeps_every_key(keys: Seq<Seq<char>>, key: Seq<char>)
    ensures
        by_frequency(keys).contains(key) <==> keys.contains(key),
{
    ranked_contains(distinct(keys), keys, keys.len(), key);
    distinct_contains(keys, key);
    tally_bounds(keys, key);
}

/// In a ranking, what comes first occurs at least as often as what comes later.
pub proof fn ranking_is_by_frequency(keys: Seq<Seq<char>>, i: int, j: int)
    requires
        0 <= i <= j < by_frequency(keys).len(),
    ensures
        tally(keys, by_frequency(keys)[i]) >= tally(keys, by_frequency(keys)[j]),
{
    ranked_descends(distinct(keys), keys, keys.len(), i, j);
}

proof fn ranked_descends(groups: Seq<Seq<char>>, keys: Seq<Seq<char>>, n: nat, i: int, j: int)
    requires
        0 <= i <= j < ranked(groups, keys, n).len(),
    ensures
        tally(keys, ranked(groups, keys, n)[i]) >= tally(keys, ranked(groups, keys, n)[j]),
    decreases n,
{
    let here = occurring(groups, keys, n);
    let rest = ranked(groups, keys, (n - 1) as nat);
    let all = ranked(groups, keys, n);
    if i < here.len() {
        assert(all[i] == here[i]);
        occurring_contains(groups, keys, n, here[i]);
        if j < here.len() {
            assert(all[j] == here[j]);
            occurring_contains(groups, keys, n, here[j]);
        } else {
            assert(all[j] == rest[j - here.len()]);
            ranked_contains(groups, keys, (n - 1) as nat, rest[j - here.len()]);
        }
    } else {
        assert(all[i] == rest[i - here.len()]);
        assert(all[j] == rest[j - here.len()]);
        ranked_descends(groups, keys, (n - 1) as nat, i - here.len(), j - here.len());
    }
}

/// The texts of `keys` without repetitions.
pub fn distinct_of(keys: &Vec<String>) -> (out: Vec<String>)
    ensures
        views(out@) == distinct(views(keys@)),
{
    broadcast use views_push;

    let ghost model = views(keys@);
    let mut out: Vec<String> = Vec::new();
    let mut i: usize = 0;
    assert(model.take(0) =~= seq![]);
    assert(views(out@) =~= seq![]);
    while i < keys.len()
        invariant
            i <= keys@.len(),
            model == views(keys@),
            views(out@) == distinct(model.take(i as int)),
        decreases keys.len() - i,
    {
        let ghost next = model.take(i + 1);
        assert(next.drop_last() =~= model.take(i as int));
        assert(next.last() == keys@[i as int]@);
        if !member(&out, &keys[i]) {
            out.push(keys[i].clone());
        }
        i += 1;
    }
    assert(model.take(model.len() as int) =~= model);
    out
}

/// How often `key` occurs in `keys`.
pub fn tally_of(keys: &Vec<String>, key: &str) -> (n: usize)
    ensures
        n == tally(views(keys@), key@),
{
    let ghost model = views(keys@);
    let mut n: usize = 0;
    let mut i: usize = 0;
    assert(model.take(0) =~= seq![]);
    while i < keys.len()
        invariant
            i <= keys@.len(),
            model == views(keys@),
            n <= i,
            n == tally(model.take(i as int), key@),
        decreases keys.len() - i,
    {
        let ghost next = model.take(i + 1);
        assert(next.drop_last() =~= model.take(i as int));
        assert(next.last() == keys@[i as int]@);
        if same(&keys[i], key) {
            n += 1;
        }
        i += 1;
    }
    assert(model.take(model.len() as int) =~= model);
    n
}

/// The texts of `keys` without repetitions, the most frequent first.
pub fn rank(keys: &Vec<String>) -> (out: Vec<String>)
    ensures
        views(out@) == by_frequency(views(keys@)),
{
    broadcast use views_push;

    let ghost model = views(keys@);
    let groups = distinct_of(keys);
    let ghost firsts = views(groups@);
    let mut counts: Vec<usize> = Vec::new();
    let mut i: usize = 0;
    while i < groups.len()
        invariant
            i <= groups@.len(),
            model == views(keys@),
            counts@.len() == i,
            forall|j: int| 0 <= j < i ==> counts@[j] == tally(model, (#[trigger] groups@[j])@),
        decreases groups.len() - i,
    {
        counts.push(tally_of(keys, &groups[i]));
        i += 1;
    }
    let mut out: Vec<String> = Vec::new();
    let mut n: usize = keys.len();
    assert(views(out@) + ranked(firsts, model, n as nat) =~= by_frequency(model));
    while n > 0
        invariant
            n <= keys@.len(),
            model == views(keys@),
            firsts == views(groups@),
            counts@.len() == groups@.len(),
            forall|j: int|
                0 <= j < groups@.len() ==> counts@[j] == tally(model, (#[trigger] groups@[j])@),
            views(out@) + ranked(firsts, model, n as nat) == by_frequency(model),
        decreases n,
    {
        let ghost start = views(out@);
        let mut k: usize = 0;
        assert(firsts.take(0) =~= seq![]);
        assert(views(out@) =~= start + occurring(firsts.take(0), model, n as nat));
        while k < groups.len()
            invariant
                k <= groups@.len(),
                firsts == views(groups@),
                counts@.len() == groups@.len(),
                forall|j: int|
                    0 <= j < groups@.len() ==> counts@[j] == tally(model, (#[trigger] groups@[j])@),
                views(out@) == start + occurring(firsts.take(k as int), model, n as nat),
            decreases groups.len() - k,
        {
            let ghost next = firsts.take(k + 1);
            assert(next.drop_last() =~= firsts.take(k as int));
            assert(next.last() == groups@[k as int]@);
            if counts[k] == n {
                let ghost before = views(out@);
                out.push(groups[k].clone());
                assert(tally(model, next.last()) == n);
                assert(views(out@) == before.push(next.last()));
                assert(views(out@) =~= start + occurring(next, model, n as nat));
            }
            k += 1;
        }
        assert(firsts.take(firsts.len() as int) =~= firsts);
        n -= 1;
        assert(views(out@) + ranked(firsts, model, n as nat) =~= by_frequency(model));
    }
    assert(views(out@) =~= by_frequency(model));
    out
}

/// One entry of the line of codes.
pub open spec fn code_entry(codes: Seq<Seq<char>>, code: Seq<char>) -> Seq<char> {
    code + " ("@ + decimal(tally(codes, code)) + "x)"@
}

/// The number of codes that the line of codes lists.
pub const TOP_CODES: usize = 5;

/// The first entries of the line of codes.
pub open spec fn top_entries(codes: Seq<Seq<char>>) -> Seq<Seq<char>> {
    let all = by_frequency(codes);
    let n = if all.len() < TOP_CODES {
        all.len() as int
    } else {
        TOP_CODES as int
    };
    Seq::new(n as nat, |i: int| code_entry(codes, all[i]))
}

/// The line of the most frequent codes, where there are at least two different ones.
pub open spec fn top_codes(codes: Seq<Seq<char>>) -> Option<Seq<char>> {
    if distinct(codes).len() <= 1 {
        None
    } else {
        Some("Top codes: "@ + join(top_entries(codes), ", "@) + "\n\n"@)
    }
}

/// Render the top-error-codes line when 2+ distinct codes are present.
pub fn top_codes_line(codes: &Vec<String>) -> (r: Option<String>)
    ensures
        crate::text::opt_view(r) == top_codes(views(codes@)),
{
    let ghost model = views(codes@);
    if distinct_of(codes).len() <= 1 {
        return None;
    }
    let all = rank(codes);
    let mut entries: Vec<String> = Vec::new();
    let mut i: usize = 0;
    while i < all.len() && i < TOP_CODES
        invariant
            i <= all@.len(),
            i <= TOP_CODES,
            model == views(codes@),
            entries@.len() == i,
            forall|j: int|
                0 <= j < i ==> (#[trigger] entries@[j])@ == code_entry(model, all@[j]@),
        decreases all.len() - i,
    {
        let mut entry = all[i].clone();
        entry.push_str(" (");
        let n = count(tally_of(codes, &all[i]));
        entry.push_str(&n);
        entry.push_str("x)");
        entries.push(entry);
        i += 1;
    }
    assert(views(entries@) =~= top_entries(model)) by {
        assert forall|j: int| 0 <= j < entries@.len() implies views(entries@)[j] == top_entries(
            model,
        )[j] by {
            assert(views(all@)[j] == all@[j]@);
        }
    }
    let mut line = "Top codes: ".to_string();
    let joined = join_with(&entries, ", ");
    line.push_str(&joined);
    line.push_str("\n\n");
    Some(line)
}

// ---------------------------------------------------------------------------
// Issues
// ---------------------------------------------------------------------------

/// One line of a type checker's output, read as a diagnostic.
#[derive(Debug)]
pub struct Diagnostic {
    pub file: String,
    pub line: usize,
    pub kind: String,
    pub code: String,
    pub message: String,
}

/// What a [`Diagnostic`] says.
#[verifier::ext_equal]
pub struct Finding {
    pub file: Seq<char>,
    pub line: nat,
    pub kind: Seq<char>,
    pub code: Seq<char>,
    pub message: Seq<char>,
}

impl View for Diagnostic {
    type V = Finding;

    open spec fn view(&self) -> Finding {
        Finding {
            file: self.file@,
            line: self.line as nat,
            kind: self.kind@,
            code: self.code@,
            message: self.message@,
        }
    }
}

/// What the lines were read as.
pub open spec fn findings(v: Seq<Option<Diagnostic>>) -> Seq<Option<Finding>> {
    Seq::new(
        v.len(),
        |i: int|
            match v[i] {
                Some(d) => Some(d@),
                None => None,
            },
    )
}

/// The text of a group of a match; empty where the group took no part in it.
pub open spec fn group_text(caps: Seq<Option<Seq<char>>>, i: int) -> Seq<char> {
    if 0 <= i < caps.len() && caps[i] is Some {
        caps[i]->0
    } else {
        seq![]
    }
}

pub fn group(caps: &Vec<Option<String>>, i: usize) -> (out: String)
    ensures
        out@ == group_text(crate::pattern::groups(caps@), i as int),
{
    if i < caps.len() {
        match &caps[i] {
            Some(s) => s.clone(),
            None => String::new(),
        }
    } else {
        String::new()
    }
}

/// An error with the lines that explain it.
#[derive(Debug)]
pub struct Issue {
    pub file: String,
    pub line: usize,
    pub code: String,
    pub message: String,
    pub context_lines: Vec<String>,
}

/// What an [`Issue`] says.
#[verifier::ext_equal]
pub struct Report {
    pub file: Seq<char>,
    pub line: nat,
    pub code: Seq<char>,
    pub message: Seq<char>,
    pub context: Seq<Seq<char>>,
}

impl View for Issue {
    type V = Report;

    open spec fn view(&self) -> Report {
        Report {
            file: self.file@,
            line: self.line as nat,
            code: self.code@,
            message: self.message@,
            context: views(self.context_lines@),
        }
    }
}

/// What the issues say.
pub open spec fn reports(v: Seq<Issue>) -> Seq<Report> {
    Seq::new(v.len(), |i: int| v[i]@)
}

/// The files of the issues, one for each.
pub open spec fn files(all: Seq<Report>) -> Seq<Seq<char>> {
    Seq::new(all.len(), |i: int| all[i].file)
}

/// How a tool's errors are written out.
#[derive(Debug, PartialEq, Eq, Clone, Copy, Structural)]
pub enum Style {
    /// The code, then the message.
    Plain,
    /// The code in brackets, where there is one.
    Bracketed,
}

/// The line of an error.
pub open spec fn issue_line(style: Style, r: Report) -> Seq<char> {
    let start = "  L"@ + decimal(r.line) + ": "@;
    let message = truncated(r.message, 120);
    match style {
        Style::Plain => start + r.code + " "@ + message + "\n"@,
        Style::Bracketed => if r.code.len() == 0 {
            start + message + "\n"@
        } else {
            start + "["@ + r.code + "] "@ + message + "\n"@
        },
    }
}

/// The lines that explain an error, indented.
pub open spec fn context_text(context: Seq<Seq<char>>) -> Seq<char>
    decreases context.len(),
{
    if context.len() == 0 {
        seq![]
    } else {
        context_text(context.drop_last()) + "    "@ + truncated(context.last(), 120) + "\n"@
    }
}

/// The errors of `all` in one file, in order.
pub open spec fn file_issues(style: Style, all: Seq<Report>, file: Seq<char>) -> Seq<char>
    decreases all.len(),
{
    if all.len() == 0 {
        seq![]
    } else if all.last().file == file {
        file_issues(style, all.drop_last(), file) + issue_line(style, all.last()) + context_text(
            all.last().context,
        )
    } else {
        file_issues(style, all.drop_last(), file)
    }
}

/// The block of one file: its name, how many errors it has, and the errors.
pub open spec fn file_block(style: Style, all: Seq<Report>, file: Seq<char>) -> Seq<char> {
    file + " ("@ + decimal(tally(files(all), file)) + " errors)\n"@ + file_issues(style, all, file)
        + "\n"@
}

/// The blocks of the first `n` of the given files.
pub open spec fn blocks(style: Style, all: Seq<Report>, order: Seq<Seq<char>>, n: int) -> Seq<char>
    decreases n,
{
    if n <= 0 {
        seq![]
    } else {
        blocks(style, all, order, n - 1) + file_block(style, all, order[n - 1])
    }
}

/// Every file's block, the file with the most errors first.
pub open spec fn all_blocks(style: Style, all: Seq<Report>) -> Seq<char> {
    let order = by_frequency(files(all));
    blocks(style, all, order, order.len() as int)
}

pub fn render_context(context: &Vec<String>) -> (out: String)
    ensures
        out@ == context_text(views(context@)),
{
    let ghost model = views(context@);
    let mut out = String::new();
    let mut i: usize = 0;
    assert(model.take(0) =~= seq![]);
    while i < context.len()
        invariant
            i <= context@.len(),
            model == views(context@),
            out@ == context_text(model.take(i as int)),
        decreases context.len() - i,
    {
        let ghost next = model.take(i + 1);
        assert(next.drop_last() =~= model.take(i as int));
        assert(next.last() == context@[i as int]@);
        out.push_str("    ");
        let line = truncate(&context[i], 120);
        out.push_str(&line);
        out.push_str("\n");
        i += 1;
    }
    assert(model.take(model.len() as int) =~= model);
    out
}

pub fn render_line(style: Style, issue: &Issue) -> (out: String)
    ensures
        out@ == issue_line(style, issue@),
{
    let mut out = "  L".to_string();
    let n = count(issue.line);
    out.push_str(&n);
    out.push_str(": ");
    let message = truncate(&issue.message, 120);
    match style {
        Style::Plain => {
            out.push_str(&issue.code);
            out.push_str(" ");
        },
        Style::Bracketed => {
            if !issue.code.as_str().is_empty() {
                out.push_str("[");
                out.push_str(&issue.code);
                out.push_str("] ");
            }
        },
    }
    out.push_str(&message);
    out.push_str("\n");
    out
}

pub fn files_of(all: &Vec<Issue>) -> (out: Vec<String>)
    ensures
        views(out@) == files(reports(all@)),
{
    let mut out: Vec<String> = Vec::new();
    let mut i: usize = 0;
    while i < all.len()
        invariant
            i <= all@.len(),
            out@.len() == i,
            forall|j: int| 0 <= j < i ==> (#[trigger] out@[j])@ == all@[j].file@,
        decreases all.len() - i,
    {
        out.push(all[i].file.clone());
        i += 1;
    }
    assert(views(out@) =~= files(reports(all@)));
    out
}

fn render_file(style: Style, all: &Vec<Issue>, file: &str) -> (out: String)
    ensures
        out@ == file_issues(style, reports(all@), file@),
{
    let ghost model = reports(all@);
    let mut out = String::new();
    let mut i: usize = 0;
    assert(model.take(0) =~= seq![]);
    while i < all.len()
        invariant
            i <= all@.len(),
            model == reports(all@),
            out@ == file_issues(style, model.take(i as int), file@),
        decreases all.len() - i,
    {
        let ghost next = model.take(i + 1);
        assert(next.drop_last() =~= model.take(i as int));
        assert(next.last() == all@[i as int]@);
        if same(&all[i].file, file) {
            let line = render_line(style, &all[i]);
            out.push_str(&line);
            let context = render_context(&all[i].context_lines);
            out.push_str(&context);
        }
        i += 1;
    }
    assert(model.take(model.len() as int) =~= model);
    out
}

/// Every file's block, the file with the most errors first.
pub fn render_blocks(style: Style, all: &Vec<Issue>) -> (out: String)
    ensures
        out@ == all_blocks(style, reports(all@)),
{
    let ghost model = reports(all@);
    let names = files_of(all);
    let order = rank(&names);
    let ghost by = views(order@);
    let mut out = String::new();
    let mut i: usize = 0;
    while i < order.len()
        invariant
            i <= order@.len(),
            model == reports(all@),
            by == views(order@),
            views(names@) == files(model),
            out@ == blocks(style, model, by, i as int),
        decreases order.len() - i,
    {
        let mut block = order[i].clone();
        block.push_str(" (");
        let n = count(tally_of(&names, &order[i]));
        block.push_str(&n);
        block.push_str(" errors)\n");
        let body = render_file(style, all, &order[i]);
        block.push_str(&body);
        block.push_str("\n");
        assert(by[i as int] == order@[i as int]@);
        out.push_str(&block);
        i += 1;
    }
    out
}

/// Every error is kept: the file of each has a block, and that block's text
/// contains the error's line.
pub proof fn every_error_is_kept(style: Style, all: Seq<Report>, i: int)
    requires
        0 <= i < all.len(),
    ensures
        by_frequency(files(all)).contains(all[i].file),
        crate::text::contains(
            file_block(style, all, all[i].file),
            issue_line(style, all[i]),
        ),
{
    assert(files(all)[i] == all[i].file);
    ranking_keeps_every_key(files(all), all[i].file);
    let at = issue_position(style, all, i);
    let head = all[i].file + " ("@ + decimal(tally(files(all), all[i].file)) + " errors)\n"@;
    let body = file_issues(style, all, all[i].file);
    let line = issue_line(style, all[i]);
    let whole = file_block(style, all, all[i].file);
    assert(whole =~= head + body + "\n"@);
    assert(whole.subrange(head.len() + at, head.len() + at + line.len()) =~= body.subrange(
        at,
        at + line.len(),
    ));
    assert(crate::text::occurs_at(whole, line, head.len() + at));
}

proof fn issue_position(style: Style, all: Seq<Report>, i: int) -> (at: int)
    requires
        0 <= i < all.len(),
    ensures
        crate::text::occurs_at(
            file_issues(style, all, all[i].file),
            issue_line(style, all[i]),
            at,
        ),
    decreases all.len(),
{
    let front = all.drop_last();
    let file = all[i].file;
    let line = issue_line(style, all[i]);
    let body = file_issues(style, all, file);
    let before = file_issues(style, front, file);
    if i == all.len() - 1 {
        let at = before.len() as int;
        assert(body.subrange(at, at + line.len()) =~= line);
        at
    } else {
        let at = issue_position(style, front, i);
        assert(body.subrange(at, at + line.len()) =~= before.subrange(at, at + line.len()));
        at
    }
}

// ---------------------------------------------------------------------------
// What holds of the ranking and the blocks
// ---------------------------------------------------------------------------

/// Whether a text is the given one.
pub open spec fn being(key: Seq<char>) -> spec_fn(Seq<char>) -> bool {
    |k: Seq<char>| k == key
}

/// How many of the keys are the key.
pub open spec fn how_many(keys: Seq<Seq<char>>, key: Seq<char>) -> nat {
    keys.filter(being(key)).len()
}

/// A tally is how many of the keys are the key.
pub proof fn a_tally_counts(keys: Seq<Seq<char>>, key: Seq<char>)
    ensures
        tally(keys, key) == how_many(keys, key),
    decreases keys.len(),
{
    kept_one_more(keys, being(key));
    if keys.len() > 0 {
        a_tally_counts(keys.drop_last(), key);
    }
}

/// No key stands twice among the distinct ones, and they stand in the order in which
/// they first occur.
pub proof fn distinct_keys_stand_in_order(keys: Seq<Seq<char>>, i: int, j: int)
    requires
        0 <= i < j < distinct(keys).len(),
    ensures
        distinct(keys)[i] != distinct(keys)[j],
        exists|m: int|
            0 <= m < keys.len() && #[trigger] keys[m] == distinct(keys)[i] && forall|k: int|
                0 <= k <= m ==> #[trigger] keys[k] != distinct(keys)[j],
    decreases keys.len(),
{
    let front = keys.drop_last();
    let seen = distinct(front);
    let all = distinct(keys);
    if j < seen.len() {
        distinct_keys_stand_in_order(front, i, j);
        let m = choose|m: int|
            0 <= m < front.len() && #[trigger] front[m] == seen[i] && forall|k: int|
                0 <= k <= m ==> #[trigger] front[k] != seen[j];
        assert(keys[m] == all[i]);
        assert forall|k: int| 0 <= k <= m implies #[trigger] keys[k] != all[j] by {
            assert(keys[k] == front[k]);
        }
    } else {
        assert(all[j] == keys.last());
        assert(all[i] == seen[i]);
        assert(seen.contains(seen[i]));
        distinct_contains(front, seen[i]);
        distinct_contains(front, keys.last());
        let m = choose|m: int| 0 <= m < front.len() && front[m] == seen[i];
        assert(keys[m] == all[i]);
        assert forall|k: int| 0 <= k <= m implies #[trigger] keys[k] != all[j] by {
            assert(keys[k] == front[k]);
            if keys[k] == keys.last() {
                assert(front.contains(keys.last()));
            }
        }
    }
}

/// Of two keys that occur equally often, the one ranked first is the one that first
/// occurs before the other; no key is ranked twice.
pub proof fn ties_stand_in_order(keys: Seq<Seq<char>>, i: int, j: int)
    requires
        0 <= i < j < by_frequency(keys).len(),
    ensures
        by_frequency(keys)[i] != by_frequency(keys)[j],
        tally(keys, by_frequency(keys)[i]) == tally(keys, by_frequency(keys)[j]) ==> exists|m: int|
            0 <= m < keys.len() && #[trigger] keys[m] == by_frequency(keys)[i] && forall|k: int|
                0 <= k <= m ==> #[trigger] keys[k] != by_frequency(keys)[j],
{
    let groups = distinct(keys);
    let all = by_frequency(keys);
    let (a, b) = ranked_from(groups, keys, keys.len(), i, j);
    if a > b {
        if all[i] == all[j] {
            distinct_keys_stand_in_order(keys, b, a);
        }
    } else {
        distinct_keys_stand_in_order(keys, a, b);
    }
}

proof fn occurring_from(groups: Seq<Seq<char>>, keys: Seq<Seq<char>>, n: nat, i: int) -> (a: int)
    requires
        0 <= i < occurring(groups, keys, n).len(),
    ensures
        0 <= a < groups.len(),
        groups[a] == occurring(groups, keys, n)[i],
        tally(keys, groups[a]) == n,
        occurring(groups.take(a), keys, n).len() == i,
    decreases groups.len(),
{
    let front = groups.drop_last();
    let before = occurring(front, keys, n);
    if i < before.len() {
        let a = occurring_from(front, keys, n, i);
        assert(front.take(a) =~= groups.take(a));
        a
    } else {
        assert(groups.take(groups.len() - 1) =~= front);
        groups.len() - 1
    }
}

proof fn occurring_grows(groups: Seq<Seq<char>>, keys: Seq<Seq<char>>, n: nat, a: int, b: int)
    requires
        0 <= a <= b <= groups.len(),
    ensures
        occurring(groups.take(a), keys, n).len() <= occurring(groups.take(b), keys, n).len(),
    decreases b - a,
{
    if a < b {
        occurring_grows(groups, keys, n, a, b - 1);
        assert(groups.take(b).drop_last() =~= groups.take(b - 1));
    }
}

proof fn ranked_from(groups: Seq<Seq<char>>, keys: Seq<Seq<char>>, n: nat, i: int, j: int) -> (r: (
    int,
    int,
))
    requires
        0 <= i < j < ranked(groups, keys, n).len(),
    ensures
        0 <= r.0 < groups.len(),
        0 <= r.1 < groups.len(),
        groups[r.0] == ranked(groups, keys, n)[i],
        groups[r.1] == ranked(groups, keys, n)[j],
        r.0 != r.1,
        tally(keys, groups[r.0]) == tally(keys, groups[r.1]) ==> r.0 < r.1,
    decreases n,
{
    let here = occurring(groups, keys, n);
    let rest = ranked(groups, keys, (n - 1) as nat);
    let all = ranked(groups, keys, n);
    if j < here.len() {
        let a = occurring_from(groups, keys, n, i);
        let b = occurring_from(groups, keys, n, j);
        if a >= b {
            occurring_grows(groups, keys, n, b, a);
        }
        (a, b)
    } else if i < here.len() {
        let a = occurring_from(groups, keys, n, i);
        let key = rest[j - here.len()];
        assert(rest.contains(key));
        ranked_contains(groups, keys, (n - 1) as nat, key);
        let b = choose|b: int| 0 <= b < groups.len() && groups[b] == key;
        (a, b)
    } else {
        ranked_from(groups, keys, (n - 1) as nat, i - here.len(), j - here.len())
    }
}

/// The line of codes gives the five most frequent, each with how often it occurs.
pub proof fn the_top_codes_are_counted(codes: Seq<Seq<char>>, n: nat)
    requires
        distinct(codes).len() > 1,
        n == (if by_frequency(codes).len() < 5 {
            by_frequency(codes).len()
        } else {
            5
        }),
    ensures
        top_codes(codes) == Some(
            "Top codes: "@ + join(
                Seq::new(
                    n,
                    |i: int|
                        by_frequency(codes)[i] + " ("@ + decimal(
                            how_many(codes, by_frequency(codes)[i]),
                        ) + "x)"@,
                ),
                ", "@,
            ) + "\n\n"@,
        ),
{
    let expected = Seq::new(
        n,
        |i: int|
            by_frequency(codes)[i] + " ("@ + decimal(how_many(codes, by_frequency(codes)[i]))
                + "x)"@,
    );
    assert forall|i: int| 0 <= i < n implies top_entries(codes)[i] == #[trigger] expected[i] by {
        a_tally_counts(codes, by_frequency(codes)[i]);
    }
    assert(top_entries(codes) =~= expected);
}

/// The lines that explain an error are each on a line of their own, indented, in
/// order.
pub proof fn context_is_every_line(context: Seq<Seq<char>>)
    ensures
        context_text(context) == context.map_values(
            |line: Seq<char>| "    "@ + truncated(line, 120) + "\n"@,
        ).flatten(),
    decreases context.len(),
{
    let f = |line: Seq<char>| "    "@ + truncated(line, 120) + "\n"@;
    mapped_one_more(context, f);
    if context.len() > 0 {
        context_is_every_line(context.drop_last());
        assert(context_text(context) =~= context.drop_last().map_values(f).flatten() + f(
            context.last(),
        ));
    }
}

/// The errors of a file are those of all that are in it, in order, each with the lines
/// that explain it behind it.
pub proof fn a_file_has_its_errors(style: Style, all: Seq<Report>, file: Seq<char>)
    ensures
        file_issues(style, all, file) == all.filter(|r: Report| r.file == file).map_values(
            |r: Report| issue_line(style, r) + context_text(r.context),
        ).flatten(),
    decreases all.len(),
{
    let keep = |r: Report| r.file == file;
    let f = |r: Report| issue_line(style, r) + context_text(r.context);
    kept_one_more(all, keep);
    mapped_one_more(all.filter(keep), f);
    if all.len() > 0 {
        a_file_has_its_errors(style, all.drop_last(), file);
        if all.last().file == file {
            assert(all.filter(keep).drop_last() =~= all.drop_last().filter(keep));
            assert(file_issues(style, all, file) =~= all.drop_last().filter(keep).map_values(
                f,
            ).flatten() + f(all.last()));
        }
    }
}

/// What is told of an error begins with its line and holds its code and its message.
pub proof fn an_error_is_told(style: Style, r: Report)
    ensures
        style == Style::Plain ==> issue_line(style, r) == "  L"@ + decimal(r.line) + ": "@ + r.code
            + " "@ + truncated(r.message, 120) + "\n"@,
        style == Style::Bracketed && r.code.len() > 0 ==> issue_line(style, r) == "  L"@ + decimal(
            r.line,
        ) + ": "@ + "["@ + r.code + "] "@ + truncated(r.message, 120) + "\n"@,
        style == Style::Bracketed && r.code.len() == 0 ==> issue_line(style, r) == "  L"@ + decimal(
            r.line,
        ) + ": "@ + truncated(r.message, 120) + "\n"@,
{
}

proof fn blocks_one_by_one(style: Style, all: Seq<Report>, order: Seq<Seq<char>>, n: int)
    requires
        0 <= n <= order.len(),
    ensures
        blocks(style, all, order, n) == order.take(n).map_values(
            |file: Seq<char>| file_block(style, all, file),
        ).flatten(),
    decreases n,
{
    let f = |file: Seq<char>| file_block(style, all, file);
    mapped_one_more(order.take(n), f);
    if n > 0 {
        blocks_one_by_one(style, all, order, n - 1);
        assert(order.take(n).drop_last() =~= order.take(n - 1));
    }
}

/// Every file with an error has one block, the file with the most errors first: its
/// name, how many of the errors are in it, and those errors.
pub proof fn every_file_has_its_block(style: Style, all: Seq<Report>)
    ensures
        all_blocks(style, all) == by_frequency(all.map_values(|r: Report| r.file)).map_values(
            |file: Seq<char>|
                file + " ("@ + decimal(all.filter(|r: Report| r.file == file).len())
                    + " errors)\n"@ + file_issues(style, all, file) + "\n"@,
        ).flatten(),
{
    let order = by_frequency(files(all));
    assert(files(all) =~= all.map_values(|r: Report| r.file));
    blocks_one_by_one(style, all, order, order.len() as int);
    assert(order.take(order.len() as int) =~= order);
    let f = |file: Seq<char>| file_block(style, all, file);
    let g = |file: Seq<char>|
        file + " ("@ + decimal(all.filter(|r: Report| r.file == file).len()) + " errors)\n"@
            + file_issues(style, all, file) + "\n"@;
    assert forall|i: int| 0 <= i < order.len() implies f(#[trigger] order[i]) == g(order[i]) by {
        errors_are_tallied(all, order[i]);
    }
    assert(order.map_values(f) =~= order.map_values(g));
}

proof fn errors_are_tallied(all: Seq<Report>, file: Seq<char>)
    ensures
        tally(files(all), file) == all.filter(|r: Report| r.file == file).len(),
    decreases all.len(),
{
    kept_one_more(all, |r: Report| r.file == file);
    if all.len() > 0 {
        errors_are_tallied(all.drop_last(), file);
        assert(files(all).drop_last() =~= files(all.drop_last()));
    }
}

} // verus!
