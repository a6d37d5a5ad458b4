//! pytest output filter: show only failures and the summary line.
use vstd::prelude::*;
use crate::output_filter::{truncate, truncated};
use crate::text::{
    contains, count, decimal, decimal_reads_back, first_at, has, join, join_cons, join_with, lines,
    lines_of,
    lines_of_joined, lowercase, lowercased, opt_view, parse_count, parsed, proper_lines, split,
    split_by, split_on, split_text, split_text_falls_at_the_first, split_text_of_one,
    splitting_undoes_joining, starts_with,
    strip_back, strip_front, stripping_takes_the_runs, trim, trim_back, trim_front, trim_prefixes,
    trimmed, trimming_keeps_the_inside, unprefixed, views, views_push, white, words, words_of,
    words_of_joined,
};

verus! {

pub const PYTEST_NO_TESTS: &'static str = "Pytest: No tests collected";

/// Max failures / xfail entries listed before collapsing.
pub const MAX_LISTED: usize = 10;

/// The section of the output that a line stands in.
#[derive(Debug, PartialEq, Eq, Clone, Copy, Structural)]
pub enum ParseState {
    Header,
    TestProgress,
    Failures,
    Summary,
}

/// What has been gathered from the lines so far.
#[derive(Debug)]
pub struct Accum {
    pub test_files: Vec<String>,
    pub failures: Vec<String>,
    pub current_failure: Vec<String>,
    pub xfail_lines: Vec<String>,
    pub summary_line: String,
}

/// What an [`Accum`] holds.
#[verifier::ext_equal]
pub struct Gathered {
    pub test_files: Seq<Seq<char>>,
    pub failures: Seq<Seq<char>>,
    pub current: Seq<Seq<char>>,
    pub xfail: Seq<Seq<char>>,
    pub summary: Seq<char>,
}

impl View for Accum {
    type V = Gathered;

    open spec fn view(&self) -> Gathered {
        Gathered {
            test_files: views(self.test_files@),
            failures: views(self.failures@),
            current: views(self.current_failure@),
            xfail: views(self.xfail_lines@),
            summary: self.summary_line@,
        }
    }
}

/// Nothing gathered yet.
pub open spec fn nothing() -> Gathered {
    Gathered {
        test_files: seq![],
        failures: seq![],
        current: seq![],
        xfail: seq![],
        summary: seq![],
    }
}

/// The block being gathered, closed.
pub open spec fn flushed(g: Gathered) -> Gathered {
    if g.current.len() > 0 {
        Gathered { failures: g.failures.push(join(g.current, "\n"@)), current: seq![], ..g }
    } else {
        g
    }
}

impl Default for Accum {
    fn default() -> (acc: Self)
        ensures
            acc@ == nothing(),
    {
        let acc = Accum {
            test_files: Vec::new(),
            failures: Vec::new(),
            current_failure: Vec::new(),
            xfail_lines: Vec::new(),
            summary_line: String::new(),
        };
        assert(acc@ =~= nothing());
        acc
    }
}

impl Accum {
    /// Close the failure block being gathered.
    pub fn flush_current(&mut self)
        ensures
            final(self)@ == flushed(old(self)@),
    {
        broadcast use views_push;

        let ghost before = self@;
        if self.current_failure.len() > 0 {
            let block = join_with(&self.current_failure, "\n");
            self.failures.push(block);
            self.current_failure.clear();
            assert(self@ =~= flushed(before));
        }
    }
}

// --- parsing ---------------------------------------------------------------

/// Whether a line is a bare "-q" summary and none was seen yet.
pub open spec fn quiet_summary(line: Seq<char>, summary: Seq<char>) -> bool {
    &&& summary.len() == 0
    &&& !"==="@.is_prefix_of(line)
    &&& !"FAILED"@.is_prefix_of(line)
    &&& !"ERROR"@.is_prefix_of(line)
    &&& contains(line, " passed"@) || contains(line, " failed"@) || contains(line, " skipped"@)
    &&& contains(line, " in "@)
}

/// A bare "-q" summary such as "5 failed, 1698 passed in 108.89s".
pub fn is_quiet_summary(trimmed: &str, summary_line: &str) -> (r: bool)
    ensures
        r == quiet_summary(trimmed@, summary_line@),
{
    summary_line.is_empty() && !starts_with(trimmed, "===") && !starts_with(trimmed, "FAILED")
        && !starts_with(trimmed, "ERROR") && (has(trimmed, " passed") || has(trimmed, " failed")
        || has(trimmed, " skipped")) && has(trimmed, " in ")
}

/// What a section heading or a summary line does; none where the line is neither.
pub open spec fn transition(state: ParseState, g: Gathered, line: Seq<char>) -> Option<
    (ParseState, Gathered),
> {
    if "==="@.is_prefix_of(line) {
        if contains(line, "test session starts"@) {
            Some((ParseState::Header, g))
        } else if contains(line, "FAILURES"@) {
            Some((ParseState::Failures, g))
        } else if contains(line, "short test summary"@) {
            Some((ParseState::Summary, flushed(g)))
        } else if contains(line, "passed"@) || contains(line, "failed"@) || contains(
            line,
            "skipped"@,
        ) {
            Some((state, Gathered { summary: line, ..g }))
        } else {
            None
        }
    } else if quiet_summary(line, g.summary) {
        Some((state, Gathered { summary: line, ..g }))
    } else {
        None
    }
}

/// Handle a section/summary transition line. Returns true when the line was
/// consumed and the caller should move on.
pub fn try_transition(trimmed: &str, state: &mut ParseState, acc: &mut Accum) -> (r: bool)
    ensures
        match transition(*old(state), old(acc)@, trimmed@) {
            Some((s, g)) => r && *final(state) == s && final(acc)@ == g,
            None => !r && *final(state) == *old(state) && final(acc)@ == old(acc)@,
        },
{
    let ghost before = acc@;
    if starts_with(trimmed, "===") {
        if has(trimmed, "test session starts") {
            *state = ParseState::Header;
        } else if has(trimmed, "FAILURES") {
            *state = ParseState::Failures;
        } else if has(trimmed, "short test summary") {
            *state = ParseState::Summary;
            acc.flush_current();
        } else if has(trimmed, "passed") || has(trimmed, "failed") || has(trimmed, "skipped") {
            acc.summary_line = trimmed.to_string();
            assert(acc@ =~= (Gathered { summary: trimmed@, ..before }));
        } else {
            return false;
        }
        return true;
    }
    if is_quiet_summary(trimmed, &acc.summary_line) {
        acc.summary_line = trimmed.to_string();
        assert(acc@ =~= (Gathered { summary: trimmed@, ..before }));
        return true;
    }
    false
}

/// What a line of the failures section adds.
pub open spec fn with_failure_line(g: Gathered, line: Seq<char>) -> Gathered {
    if "___"@.is_prefix_of(line) {
        Gathered { current: seq![line], ..flushed(g) }
    } else if line.len() > 0 && !"==="@.is_prefix_of(line) {
        Gathered { current: g.current.push(line), ..g }
    } else {
        g
    }
}

pub fn handle_failures_line(trimmed: &str, acc: &mut Accum)
    ensures
        final(acc)@ == with_failure_line(old(acc)@, trimmed@),
{
    broadcast use views_push;

    let ghost before = acc@;
    if starts_with(trimmed, "___") {
        acc.flush_current();
        acc.current_failure.push(trimmed.to_string());
        assert(acc@ =~= with_failure_line(before, trimmed@));
    } else if !trimmed.is_empty() && !starts_with(trimmed, "===") {
        acc.current_failure.push(trimmed.to_string());
        assert(acc@ =~= with_failure_line(before, trimmed@));
    }
}

/// What a line of the short summary adds.
pub open spec fn with_summary_line(g: Gathered, line: Seq<char>) -> Gathered {
    if "FAILED"@.is_prefix_of(line) || "ERROR"@.is_prefix_of(line) {
        Gathered { failures: g.failures.push(line), ..g }
    } else if "XFAIL"@.is_prefix_of(line) || "XPASS"@.is_prefix_of(line) {
        Gathered { xfail: g.xfail.push(line), ..g }
    } else {
        g
    }
}

pub fn handle_summary_line(trimmed: &str, acc: &mut Accum)
    ensures
        final(acc)@ == with_summary_line(old(acc)@, trimmed@),
{
    broadcast use views_push;

    let ghost before = acc@;
    if starts_with(trimmed, "FAILED") || starts_with(trimmed, "ERROR") {
        acc.failures.push(trimmed.to_string());
        assert(acc@ =~= with_summary_line(before, trimmed@));
    } else if starts_with(trimmed, "XFAIL") || starts_with(trimmed, "XPASS") {
        acc.xfail_lines.push(trimmed.to_string());
        assert(acc@ =~= with_summary_line(before, trimmed@));
    }
}

/// What a line does that is neither a heading nor a summary.
pub open spec fn processed(state: ParseState, g: Gathered, line: Seq<char>) -> (
    ParseState,
    Gathered,
) {
    match state {
        ParseState::Header => if "collected"@.is_prefix_of(line) {
            (ParseState::TestProgress, g)
        } else {
            (state, g)
        },
        ParseState::TestProgress => if line.len() > 0 && !"==="@.is_prefix_of(line) && (contains(
            line,
            ".py"@,
        ) || contains(line, "%]"@)) {
            (state, Gathered { test_files: g.test_files.push(line), ..g })
        } else {
            (state, g)
        },
        ParseState::Failures => (state, with_failure_line(g, line)),
        ParseState::Summary => (state, with_summary_line(g, line)),
    }
}

pub fn process_by_state(trimmed: &str, state: &mut ParseState, acc: &mut Accum)
    ensures
        (*final(state), final(acc)@) == processed(*old(state), old(acc)@, trimmed@),
{
    broadcast use views_push;

    let ghost before = acc@;
    match *state {
        ParseState::Header => {
            if starts_with(trimmed, "collected") {
                *state = ParseState::TestProgress;
            }
        },
        ParseState::TestProgress => {
            if !trimmed.is_empty() && !starts_with(trimmed, "===") && (has(trimmed, ".py") || has(
                trimmed,
                "%]",
            )) {
                acc.test_files.push(trimmed.to_string());
                assert(acc@ =~= processed(ParseState::TestProgress, before, trimmed@).1);
            }
        },
        ParseState::Failures => {
            handle_failures_line(trimmed, acc);
        },
        ParseState::Summary => {
            handle_summary_line(trimmed, acc);
        },
    }
}

/// What one line of the output does.
pub open spec fn step(state: ParseState, g: Gathered, line: Seq<char>) -> (ParseState, Gathered) {
    match transition(state, g, line) {
        Some(next) => next,
        None => processed(state, g, line),
    }
}

/// What the lines have come to, each trimmed.
pub open spec fn run(all: Seq<Seq<char>>) -> (ParseState, Gathered)
    decreases all.len(),
{
    if all.len() == 0 {
        (ParseState::Header, nothing())
    } else {
        let (state, g) = run(all.drop_last());
        step(state, g, trimmed(all.last()))
    }
}

/// The counts of a summary line.
#[derive(Debug, PartialEq, Eq, Clone, Copy, Structural)]
pub struct PytestCounts {
    pub passed: usize,
    pub failed: usize,
    pub skipped: usize,
    pub xfailed: usize,
    pub xpassed: usize,
}

/// The counts after the word `word`, which has the number `n` before it.
///
/// Order matters: "xpassed" and "xfailed" contain "passed" and "failed".
pub open spec fn counted(c: PytestCounts, word: Seq<char>, n: usize) -> PytestCounts {
    if contains(word, "xpassed"@) {
        PytestCounts { xpassed: n, ..c }
    } else if contains(word, "xfailed"@) {
        PytestCounts { xfailed: n, ..c }
    } else if contains(word, "passed"@) {
        PytestCounts { passed: n, ..c }
    } else if contains(word, "failed"@) {
        PytestCounts { failed: n, ..c }
    } else if contains(word, "skipped"@) {
        PytestCounts { skipped: n, ..c }
    } else {
        c
    }
}

/// The counts after the first `n` words of a part.
pub open spec fn counts_of_words(c: PytestCounts, all: Seq<Seq<char>>, n: int) -> PytestCounts
    decreases n,
{
    if n <= 1 {
        c
    } else {
        let before = counts_of_words(c, all, n - 1);
        match parsed(all[n - 2], usize::MAX as nat) {
            Some(k) => counted(before, all[n - 1], k as usize),
            None => before,
        }
    }
}

/// The counts after the first `n` parts of a summary line.
pub open spec fn counts_of_parts(parts: Seq<Seq<char>>, n: int) -> PytestCounts
    decreases n,
{
    if n <= 0 {
        PytestCounts { passed: 0, failed: 0, skipped: 0, xfailed: 0, xpassed: 0 }
    } else {
        let all = words(parts[n - 1]);
        counts_of_words(counts_of_parts(parts, n - 1), all, all.len() as int)
    }
}

/// The counts that a summary line gives: in each part between commas, the
/// number before a word that names an outcome.
pub open spec fn counts(summary: Seq<char>) -> PytestCounts {
    let parts = split(summary, ',');
    counts_of_parts(parts, parts.len() as int)
}

fn count_word(c: PytestCounts, word: &str, n: usize) -> (r: PytestCounts)
    ensures
        r == counted(c, word@, n),
{
    if has(word, "xpassed") {
        PytestCounts { xpassed: n, ..c }
    } else if has(word, "xfailed") {
        PytestCounts { xfailed: n, ..c }
    } else if has(word, "passed") {
        PytestCounts { passed: n, ..c }
    } else if has(word, "failed") {
        PytestCounts { failed: n, ..c }
    } else if has(word, "skipped") {
        PytestCounts { skipped: n, ..c }
    } else {
        c
    }
}

pub fn parse_summary_line(summary: &str) -> (r: PytestCounts)
    ensures
        r == counts(summary@),
{
    let parts = split_on(summary, ',');
    let ghost model = views(parts@);
    let mut c = PytestCounts { passed: 0, failed: 0, skipped: 0, xfailed: 0, xpassed: 0 };
    let mut p: usize = 0;
    while p < parts.len()
        invariant
            p <= parts@.len(),
            model == views(parts@),
            c == counts_of_parts(model, p as int),
        decreases parts.len() - p,
    {
        let all = words_of(&parts[p]);
        let ghost text = views(all@);
        assert(model[p as int] == parts@[p as int]@);
        let ghost start = c;
        let mut i: usize = 0;
        while i < all.len()
            invariant
                i <= all@.len(),
                text == views(all@),
                c == counts_of_words(start, text, i as int),
            decreases all.len() - i,
        {
            if i > 0 {
                assert(text[i - 1] == all@[i - 1]@);
                assert(text[i as int] == all@[i as int]@);
                if let Some(n) = parse_count(&all[i - 1]) {
                    c = count_word(c, &all[i], n);
                }
            }
            i += 1;
        }
        p += 1;
    }
    c
}

// --- rendering -------------------------------------------------------------

/// One more count, where it is not zero.
pub open spec fn extra(n: usize, name: Seq<char>) -> Seq<char> {
    if n > 0 {
        ", "@ + decimal(n as nat) + " "@ + name
    } else {
        seq![]
    }
}

/// The line of counts; none where every count is zero.
pub open spec fn header(c: PytestCounts, xfail_lines_present: bool) -> Option<Seq<char>> {
    let extras = c.skipped > 0 || c.xfailed > 0 || c.xpassed > 0 || xfail_lines_present;
    if c.passed == 0 && c.failed == 0 && c.skipped == 0 && c.xfailed == 0 && c.xpassed == 0 {
        None
    } else if c.failed == 0 && c.passed > 0 && !extras {
        Some("Pytest: "@ + decimal(c.passed as nat) + " passed"@)
    } else {
        Some(
            "Pytest: "@ + decimal(c.passed as nat) + " passed, "@ + decimal(c.failed as nat)
                + " failed"@ + extra(c.skipped, "skipped"@) + extra(c.xfailed, "xfailed"@) + extra(
                c.xpassed,
                "xpassed"@,
            ),
        )
    }
}

fn render_extra(n: usize, name: &str) -> (out: String)
    ensures
        out@ == extra(n, name@),
{
    if n > 0 {
        let mut out = ", ".to_string();
        let digits = count(n);
        out.push_str(&digits);
        out.push_str(" ");
        out.push_str(name);
        out
    } else {
        String::new()
    }
}

pub fn counts_header(c: &PytestCounts, xfail_lines_present: bool) -> (r: Option<String>)
    ensures
        opt_view(r) == header(*c, xfail_lines_present),
{
    if c.passed == 0 && c.failed == 0 && c.skipped == 0 && c.xfailed == 0 && c.xpassed == 0 {
        return None;
    }
    let extras = c.skipped > 0 || c.xfailed > 0 || c.xpassed > 0 || xfail_lines_present;
    let mut line = "Pytest: ".to_string();
    let passed = count(c.passed);
    line.push_str(&passed);
    if c.failed == 0 && c.passed > 0 && !extras {
        line.push_str(" passed");
        return Some(line);
    }
    line.push_str(" passed, ");
    let failed = count(c.failed);
    line.push_str(&failed);
    line.push_str(" failed");
    let skipped = render_extra(c.skipped, "skipped");
    line.push_str(&skipped);
    let xfailed = render_extra(c.xfailed, "xfailed");
    line.push_str(&xfailed);
    let xpassed = render_extra(c.xpassed, "xpassed");
    line.push_str(&xpassed);
    Some(line)
}

/// How many entries of a list are written out.
pub open spec fn listed(n: nat) -> int {
    if n > MAX_LISTED {
        MAX_LISTED as int
    } else {
        n as int
    }
}

/// The first `n` lines, indented.
pub open spec fn indented(all: Seq<Seq<char>>, n: int) -> Seq<char>
    decreases n,
{
    if n <= 0 {
        seq![]
    } else {
        indented(all, n - 1) + "  "@ + truncated(all[n - 1], 120) + "\n"@
    }
}

/// The part about expected failures.
pub open spec fn xfail_text(all: Seq<Seq<char>>) -> Seq<char> {
    if all.len() == 0 {
        seq![]
    } else {
        "\nExpected-failure outcomes:\n"@ + indented(all, listed(all.len())) + (if all.len()
            > MAX_LISTED {
            "  … +"@ + decimal((all.len() - MAX_LISTED) as nat) + " more\n"@
        } else {
            seq![]
        })
    }
}

pub fn render_xfail(all: &Vec<String>) -> (out: String)
    ensures
        out@ == xfail_text(views(all@)),
{
    let ghost model = views(all@);
    if all.len() == 0 {
        return String::new();
    }
    let mut out = "\nExpected-failure outcomes:\n".to_string();
    let mut list = String::new();
    let mut i: usize = 0;
    while i < all.len() && i < MAX_LISTED
        invariant
            i <= all@.len(),
            i <= MAX_LISTED,
            model == views(all@),
            list@ == indented(model, i as int),
        decreases all.len() - i,
    {
        list.push_str("  ");
        let line = truncate(&all[i], 120);
        list.push_str(&line);
        list.push_str("\n");
        i += 1;
    }
    out.push_str(&list);
    let mut more = String::new();
    if all.len() > MAX_LISTED {
        more = "  … +".to_string();
        let n = count(all.len() - MAX_LISTED);
        more.push_str(&n);
        more.push_str(" more\n");
    }
    out.push_str(&more);
    out
}

/// Whether a line of a failure block says what went wrong.
pub open spec fn relevant(line: Seq<char>) -> bool {
    ||| ">"@.is_prefix_of(trimmed(line))
    ||| "E"@.is_prefix_of(trimmed(line))
    ||| contains(lowercased(line), "assert"@)
    ||| contains(lowercased(line), "error"@)
    ||| contains(line, ".py:"@)
}

fn is_relevant(line: &str) -> (r: bool)
    ensures
        r == relevant(line@),
{
    let t = trim(line);
    let lower = lowercase(line);
    starts_with(&t, ">") || starts_with(&t, "E") || has(&lower, "assert") || has(&lower, "error")
        || has(line, ".py:")
}

/// How many of the first `n` lines after the heading are relevant.
pub open spec fn relevant_count(all: Seq<Seq<char>>, n: int) -> int
    decreases n,
{
    if n <= 1 {
        0
    } else {
        relevant_count(all, n - 1) + (if relevant(all[n - 1]) {
            1int
        } else {
            0int
        })
    }
}

/// The first three relevant lines among the first `n`, after the heading.
pub open spec fn relevant_text(all: Seq<Seq<char>>, n: int) -> Seq<char>
    decreases n,
{
    if n <= 1 {
        seq![]
    } else if relevant(all[n - 1]) && relevant_count(all, n - 1) < 3 {
        relevant_text(all, n - 1) + "     "@ + truncated(all[n - 1], 100) + "\n"@
    } else {
        relevant_text(all, n - 1)
    }
}

pub fn render_relevant_lines(all: &Vec<String>) -> (out: String)
    ensures
        out@ == relevant_text(views(all@), all@.len() as int),
{
    let ghost model = views(all@);
    let mut out = String::new();
    let mut seen: usize = 0;
    let mut i: usize = 1;
    while i < all.len()
        invariant
            1 <= i,
            i <= all@.len() || i == 1,
            model == views(all@),
            seen == relevant_count(model, i as int),
            seen < i,
            out@ == relevant_text(model, i as int),
        decreases all.len() - i,
    {
        assert(model[i as int] == all@[i as int]@);
        if is_relevant(&all[i]) {
            if seen < 3 {
                out.push_str("     ");
                let line = truncate(&all[i], 100);
                out.push_str(&line);
                out.push_str("\n");
            }
            seen += 1;
        }
        i += 1;
    }
    out
}

/// The heading of a numbered failure.
pub open spec fn failure_heading(index: int, name: Seq<char>) -> Seq<char> {
    decimal((index + 1) as nat) + ". [FAIL] "@ + name + "\n"@
}

/// One failure entry: the test's name and a few relevant lines.
pub open spec fn failure_text(index: int, failure: Seq<char>) -> Seq<char> {
    let all = lines(failure);
    if all.len() == 0 {
        seq![]
    } else if "___"@.is_prefix_of(all[0]) {
        failure_heading(index, trimmed(strip_back(strip_front(all[0], '_'), '_')))
            + relevant_text(all, all.len() as int)
    } else if "FAILED"@.is_prefix_of(all[0]) {
        let parts = split_text(all[0], " - "@);
        failure_heading(index, unprefixed(parts[0], "FAILED "@)) + (if parts.len() > 1 {
            "     "@ + truncated(parts[1], 100) + "\n"@
        } else {
            seq![]
        })
    } else {
        relevant_text(all, all.len() as int)
    }
}

fn heading(index: usize, name: &str) -> (out: String)
    requires
        index < usize::MAX,
    ensures
        out@ == failure_heading(index as int, name@),
{
    let mut out = count(index + 1);
    out.push_str(". [FAIL] ");
    out.push_str(name);
    out.push_str("\n");
    out
}

/// Render one failure entry (test name plus a few relevant error lines).
pub fn render_one_failure(index: usize, failure: &str) -> (out: String)
    requires
        index < usize::MAX,
    ensures
        out@ == failure_text(index as int, failure@),
{
    let all = lines_of(failure);
    let ghost model = views(all@);
    if all.len() == 0 {
        return String::new();
    }
    assert(model[0] == all@[0]@);
    if starts_with(&all[0], "___") {
        let name = trim(&trim_back(&trim_front(&all[0], '_'), '_'));
        let mut out = heading(index, &name);
        let rest = render_relevant_lines(&all);
        out.push_str(&rest);
        out
    } else if starts_with(&all[0], "FAILED") {
        proof {
            reveal_strlit(" - ");
            reveal_strlit("FAILED ");
        }
        let parts = split_by(&all[0], " - ");
        proof {
            pieces_not_empty(all@[0]@, " - "@, 0, 0);
            assert(views(parts@)[0] == parts@[0]@);
        }
        let name = trim_prefixes(&parts[0], "FAILED ");
        let mut out = heading(index, &name);
        let mut rest = String::new();
        if parts.len() > 1 {
            assert(views(parts@)[1] == parts@[1]@);
            rest = "     ".to_string();
            let line = truncate(&parts[1], 100);
            rest.push_str(&line);
            rest.push_str("\n");
        }
        out.push_str(&rest);
        out
    } else {
        render_relevant_lines(&all)
    }
}

proof fn pieces_not_empty(s: Seq<char>, sep: Seq<char>, start: int, at: int)
    ensures
        crate::text::pieces(s, sep, start, at).len() > 0,
    decreases s.len() - at,
{
    if !(sep.len() == 0 || at < 0 || at + sep.len() > s.len()) && !crate::text::occurs_at(
        s,
        sep,
        at,
    ) {
        pieces_not_empty(s, sep, start, at + 1);
    }
}

/// The first `n` failures, with a blank line after each but the last of all.
pub open spec fn failure_list(all: Seq<Seq<char>>, n: int) -> Seq<char>
    decreases n,
{
    if n <= 0 {
        seq![]
    } else {
        failure_list(all, n - 1) + failure_text(n - 1, all[n - 1]) + (if n - 1 < all.len() - 1 {
            "\n"@
        } else {
            seq![]
        })
    }
}

/// The part about the failures.
pub open spec fn failures_text(all: Seq<Seq<char>>) -> Seq<char> {
    if all.len() == 0 {
        seq![]
    } else {
        "\nFailures:\n"@ + failure_list(all, listed(all.len())) + (if all.len() > MAX_LISTED {
            "\n… +"@ + decimal((all.len() - MAX_LISTED) as nat) + " more failures\n"@
        } else {
            seq![]
        })
    }
}

pub fn render_failures(all: &Vec<String>) -> (out: String)
    ensures
        out@ == failures_text(views(all@)),
{
    let ghost model = views(all@);
    if all.len() == 0 {
        return String::new();
    }
    let mut out = "\nFailures:\n".to_string();
    let mut list = String::new();
    let mut i: usize = 0;
    while i < all.len() && i < MAX_LISTED
        invariant
            i <= all@.len(),
            i <= MAX_LISTED,
            model == views(all@),
            list@ == failure_list(model, i as int),
        decreases all.len() - i,
    {
        assert(model[i as int] == all@[i as int]@);
        let entry = render_one_failure(i, &all[i]);
        list.push_str(&entry);
        let mut blank = String::new();
        if i < all.len() - 1 {
            blank = "\n".to_string();
        }
        list.push_str(&blank);
        i += 1;
    }
    out.push_str(&list);
    let mut more = String::new();
    if all.len() > MAX_LISTED {
        more = "\n… +".to_string();
        let n = count(all.len() - MAX_LISTED);
        more.push_str(&n);
        more.push_str(" more failures\n");
    }
    out.push_str(&more);
    out
}

/// The report on what was gathered.
pub open spec fn report(g: Gathered) -> Seq<char> {
    match header(counts(g.summary), g.xfail.len() > 0) {
        None => PYTEST_NO_TESTS@,
        Some(line) => trimmed(line + "\n"@ + xfail_text(g.xfail) + failures_text(g.failures)),
    }
}

pub fn build_summary(acc: &Accum) -> (out: String)
    ensures
        out@ == report(acc@),
{
    let c = parse_summary_line(&acc.summary_line);
    match counts_header(&c, acc.xfail_lines.len() > 0) {
        None => PYTEST_NO_TESTS.to_string(),
        Some(line) => {
            let mut out = line;
            out.push_str("\n");
            let xfail = render_xfail(&acc.xfail_lines);
            out.push_str(&xfail);
            let failures = render_failures(&acc.failures);
            out.push_str(&failures);
            trim(&out)
        },
    }
}

/// What is left of pytest's output.
pub open spec fn summary(output: Seq<char>) -> Seq<char> {
    report(flushed(run(lines(output)).1))
}

/// Compress pytest output to its failures and summary line.
pub fn filter(output: &str) -> (out: String)
    ensures
        out@ == summary(output@),
{
    let all = lines_of(output);
    let ghost model = views(all@);
    let mut state = ParseState::Header;
    let mut acc = Accum::default();
    let mut i: usize = 0;
    assert(model.take(0) =~= seq![]);
    while i < all.len()
        invariant
            i <= all@.len(),
            model == views(all@),
            (state, acc@) == run(model.take(i as int)),
        decreases all.len() - i,
    {
        let ghost next = model.take(i + 1);
        assert(next.drop_last() =~= model.take(i as int));
        assert(next.last() == all@[i as int]@);
        let line = trim(&all[i]);
        if !try_transition(&line, &mut state, &mut acc) {
            process_by_state(&line, &mut state, &mut acc);
        }
        i += 1;
    }
    assert(model.take(model.len() as int) =~= model);
    acc.flush_current();
    build_summary(&acc)
}

/// A failure, once gathered, is never dropped: each line only adds to the list.
pub proof fn failures_only_grow(all: Seq<Seq<char>>, n: int)
    requires
        0 <= n <= all.len(),
    ensures
        run(all.take(n)).1.failures.is_prefix_of(run(all).1.failures),
    decreases all.len() - n,
{
    if n < all.len() {
        let g = run(all.take(n)).1;
        let next = run(all.take(n + 1)).1;
        assert(all.take(n + 1).drop_last() =~= all.take(n));
        assert(g.failures.is_prefix_of(next.failures));
        failures_only_grow(all, n + 1);
        let end = run(all).1.failures;
        assert(next.failures =~= end.take(next.failures.len() as int));
        assert(g.failures =~= end.take(g.failures.len() as int));
    } else {
        assert(all.take(n) =~= all);
    }
}

/// A line of the short summary that names a failed test is one of the failures.
pub proof fn a_failed_line_is_a_failure(all: Seq<Seq<char>>)
    requires
        all.len() > 0,
        run(all.drop_last()).0 == ParseState::Summary,
        "FAILED"@.is_prefix_of(trimmed(all.last())),
    ensures
        run(all).1.failures == run(all.drop_last()).1.failures.push(trimmed(all.last())),
{
    let line = trimmed(all.last());
    reveal_strlit("FAILED");
    reveal_strlit("===");
    assert(line[0] == "FAILED"@[0]);
    if "==="@.is_prefix_of(line) {
        assert(line[0] == "==="@[0]);
    }
}

// --- what holds of the report -----------------------------------------------

proof fn the_list_is_every_failure(all: Seq<Seq<char>>, blank: Seq<Seq<char>>, n: int)
    requires
        0 <= n <= all.len(),
        blank.len() == all.len(),
        forall|i: int|
            0 <= i < all.len() ==> #[trigger] blank[i] == (if i < all.len() - 1 {
                seq!['\n']
            } else {
                seq![]
            }),
    ensures
        failure_list(all, n) == Seq::new(
            n as nat,
            |i: int| failure_text(i, all[i]) + blank[i],
        ).flatten(),
    decreases n,
{
    reveal_strlit("\n");
    assert("\n"@ =~= seq!['\n']);
    let parts = Seq::new(n as nat, |i: int| failure_text(i, all[i]) + blank[i]);
    if n > 0 {
        let fewer = Seq::new((n - 1) as nat, |i: int| failure_text(i, all[i]) + blank[i]);
        let part = failure_text(n - 1, all[n - 1]) + blank[n - 1];
        the_list_is_every_failure(all, blank, n - 1);
        fewer.lemma_flatten_push(part);
        assert(parts =~= fewer.push(part));
        assert(failure_list(all, n) =~= fewer.flatten() + part);
    } else {
        assert(parts =~= seq![]);
        assert(parts.flatten() =~= seq![]);
    }
}

/// Each of the first ten failures has an entry of its own, in the order gathered,
/// with a blank line between two; how many more there are is told behind them.
pub proof fn each_failure_has_its_entry(
    all: Seq<Seq<char>>,
    blank: Seq<Seq<char>>,
    n: nat,
    more: Seq<char>,
)
    requires
        all.len() > 0,
        n == (if all.len() > 10 {
            10
        } else {
            all.len()
        }),
        more == (if all.len() > 10 {
            "\n… +"@ + decimal((all.len() - 10) as nat) + " more failures\n"@
        } else {
            seq![]
        }),
        blank.len() == all.len(),
        forall|i: int|
            0 <= i < all.len() ==> #[trigger] blank[i] == (if i < all.len() - 1 {
                seq!['\n']
            } else {
                seq![]
            }),
    ensures
        failures_text(all) == "\nFailures:\n"@ + Seq::new(
            n,
            |i: int| failure_text(i, all[i]) + blank[i],
        ).flatten() + more,
{
    the_list_is_every_failure(all, blank, n as int);
}

/// The entry of a failed line is its number, its test and the cause it gives.
pub proof fn a_failed_line_is_told_by_its_test(index: int, name: Seq<char>, cause: Seq<char>)
    requires
        first_at("FAILED "@ + name + " - "@, " - "@, 7int + name.len()),
        !"FAILED "@.is_prefix_of(name),
        !name.contains('\n'),
        !cause.contains('\n'),
    ensures
        failure_text(index, "FAILED "@ + name + " - "@ + cause) == decimal((index + 1) as nat)
            + ". [FAIL] "@ + name + "\n"@ + ("     "@ + truncated(split_text(cause, " - "@)[0], 100)
            + "\n"@),
{
    reveal_strlit("FAILED ");
    reveal_strlit("FAILED");
    reveal_strlit(" - ");
    reveal_strlit("___");
    reveal_strlit("     ");
    reveal_strlit("\n");
    let line = "FAILED "@ + name + " - "@ + cause;
    assert forall|i: int| 0 <= i < line.len() implies line[i] != '\n' by {
        if 7 <= i < 7 + name.len() {
            assert(line[i] == name[i - 7]);
        } else if 10 + name.len() <= i {
            assert(line[i] == cause[i - 10 - name.len()]);
        }
    }
    one_line(line);
    split_text_falls_at_the_first("FAILED "@ + name, " - "@, cause);
    pieces_not_empty(cause, " - "@, 0, 0);
    a_name_behind_failed(name);
    assert(line.take(6) =~= "FAILED"@);
    assert(line[0] == 'F');
    if "___"@.is_prefix_of(line) {
        assert(line[0] == "___"@[0]);
    }
}

/// The entry of a failed line that gives no cause is its number and its test.
pub proof fn a_failed_line_without_a_cause(index: int, name: Seq<char>)
    requires
        !contains("FAILED "@ + name, " - "@),
        !"FAILED "@.is_prefix_of(name),
        !name.contains('\n'),
    ensures
        failure_text(index, "FAILED "@ + name) == decimal((index + 1) as nat) + ". [FAIL] "@ + name
            + "\n"@,
{
    reveal_strlit("FAILED ");
    reveal_strlit("FAILED");
    reveal_strlit("___");
    let line = "FAILED "@ + name;
    assert forall|i: int| 0 <= i < line.len() implies line[i] != '\n' by {
        if 7 <= i {
            assert(line[i] == name[i - 7]);
        }
    }
    one_line(line);
    split_text_of_one(line, " - "@);
    a_name_behind_failed(name);
    assert(line.take(6) =~= "FAILED"@);
    assert(line[0] == 'F');
    if "___"@.is_prefix_of(line) {
        assert(line[0] == "___"@[0]);
    }
    assert(failure_text(index, line) =~= decimal((index + 1) as nat) + ". [FAIL] "@ + name
        + "\n"@);
}

proof fn a_name_behind_failed(name: Seq<char>)
    requires
        !"FAILED "@.is_prefix_of(name),
    ensures
        unprefixed("FAILED "@ + name, "FAILED "@) == name,
{
    reveal_strlit("FAILED ");
    let line = "FAILED "@ + name;
    assert(line.take(7) =~= "FAILED "@);
    assert(line.skip(7) =~= name);
    assert(unprefixed(name, "FAILED "@) == name);
}

proof fn one_line(line: Seq<char>)
    requires
        line.len() > 0,
        forall|i: int| 0 <= i < line.len() ==> line[i] != '\n',
    ensures
        lines(line) == seq![line],
{
    let all = seq![line];
    assert forall|i: int| 0 <= i < all.len() implies !(#[trigger] all[i]).contains('\n') by {}
    lines_of_joined(all);
    assert(join(all, "\n"@) == line);
}

proof fn relevant_lines_from(all: Seq<Seq<char>>, n: int)
    requires
        1 <= n <= all.len(),
    ensures
        relevant_count(all, n) == all.subrange(1, n).filter(|l: Seq<char>| relevant(l)).len(),
        relevant_text(all, n) == first_three(
            all.subrange(1, n).filter(|l: Seq<char>| relevant(l)),
        ).flatten(),
    decreases n,
{
    reveal(Seq::filter);
    let keep = |l: Seq<char>| relevant(l);
    let kept = all.subrange(1, n).filter(keep);
    if n > 1 {
        relevant_lines_from(all, n - 1);
        let fewer = all.subrange(1, n - 1).filter(keep);
        assert(all.subrange(1, n).drop_last() =~= all.subrange(1, n - 1));
        assert(all.subrange(1, n).last() == all[n - 1]);
        if relevant(all[n - 1]) {
            assert(kept =~= fewer.push(all[n - 1]));
            if fewer.len() < 3 {
                let part = "     "@ + truncated(all[n - 1], 100) + "\n"@;
                assert(first_three(kept) =~= first_three(fewer).push(part));
                first_three(fewer).lemma_flatten_push(part);
                assert(relevant_text(all, n) =~= first_three(fewer).flatten() + part);
            } else {
                assert(first_three(kept) =~= first_three(fewer));
            }
        }
    } else {
        assert(all.subrange(1, 1) =~= seq![]);
        assert(kept =~= seq![]);
        assert(first_three(kept) =~= seq![]);
        assert(first_three(kept).flatten() =~= seq![]);
    }
}

/// The first three lines, each indented, cut and ended.
pub open spec fn first_three(kept: Seq<Seq<char>>) -> Seq<Seq<char>> {
    Seq::new(
        if kept.len() < 3 {
            kept.len()
        } else {
            3
        },
        |i: int| "     "@ + truncated(kept[i], 100) + "\n"@,
    )
}

/// The entry of a failure block is its number, the name between the underscores, and
/// the first three lines behind it that say what went wrong.
pub proof fn a_block_is_told_by_its_name(
    index: int,
    name: Seq<char>,
    a: nat,
    b: nat,
    body: Seq<Seq<char>>,
)
    requires
        a >= 3,
        name.len() > 0,
        !white(name[0]),
        !white(name.last()),
        !name.contains('\n'),
        b > 0,
        proper_lines(body),
    ensures
        failure_text(
            index,
            join(
                seq![
                    Seq::new(a, |i: int| '_') + seq![' '] + name + seq![' '] + Seq::new(
                        b,
                        |i: int| '_',
                    ),
                ] + body,
                "\n"@,
            ),
        ) == decimal((index + 1) as nat) + ". [FAIL] "@ + name + "\n"@ + first_three(
            body.filter(|l: Seq<char>| relevant(l)),
        ).flatten(),
{
    reveal_strlit("___");
    let rule_a = Seq::new(a, |i: int| '_');
    let rule_b = Seq::new(b, |i: int| '_');
    let inner = seq![' '] + name + seq![' '];
    let fence = rule_a + seq![' '] + name + seq![' '] + rule_b;
    assert(fence =~= rule_a + inner + rule_b);
    let all = seq![fence] + body;
    assert forall|i: int| 0 <= i < fence.len() implies fence[i] != '\n' by {
        if a + 1 <= i < a + 1 + name.len() {
            assert(fence[i] == name[i - a - 1]);
        }
    }
    assert(fence.last() == '_');
    assert forall|i: int| 0 <= i < all.len() implies !(#[trigger] all[i]).contains('\n') by {
        if i > 0 {
            assert(all[i] == body[i - 1]);
        }
    }
    assert forall|i: int| 0 <= i < all.len() - 1 implies crate::text::strip_cr(#[trigger] all[i])
        == all[i] by {
        if i > 0 {
            assert(all[i] == body[i - 1]);
        }
    }
    if body.len() > 0 {
        assert(all.last() == body.last());
    }
    lines_of_joined(all);
    stripping_takes_the_runs(inner, '_', a, b);
    inner_trims(name);
    assert(fence.take(3) =~= "___"@);
    relevant_lines_from(all, all.len() as int);
    assert(all.subrange(1, all.len() as int) =~= body);
}

proof fn inner_trims(name: Seq<char>)
    requires
        name.len() > 0,
        !white(name[0]),
        !white(name.last()),
    ensures
        trimmed(seq![' '] + name + seq![' ']) == name,
{
    reveal_with_fuel(crate::text::trim_start, 3);
    reveal_with_fuel(crate::text::trim_end, 3);
    let s = seq![' '] + name + seq![' '];
    assert(s.skip(1) =~= name + seq![' ']);
    assert((name + seq![' ']).drop_last() =~= name);
    assert((name + seq![' '])[0] == name[0]);
}

/// Each of the first ten expected failures has an indented line of its own, in the
/// order gathered; how many more there are is told behind them.
pub proof fn each_expected_failure_has_its_line(all: Seq<Seq<char>>, n: nat, more: Seq<char>)
    requires
        all.len() > 0,
        n == (if all.len() > 10 {
            10
        } else {
            all.len()
        }),
        more == (if all.len() > 10 {
            "  … +"@ + decimal((all.len() - 10) as nat) + " more\n"@
        } else {
            seq![]
        }),
    ensures
        xfail_text(all) == "\nExpected-failure outcomes:\n"@ + Seq::new(
            n,
            |i: int| "  "@ + truncated(all[i], 120) + "\n"@,
        ).flatten() + more,
{
    indented_is_every_line(all, n as int);
}

proof fn indented_is_every_line(all: Seq<Seq<char>>, n: int)
    requires
        0 <= n <= all.len(),
    ensures
        indented(all, n) == Seq::new(
            n as nat,
            |i: int| "  "@ + truncated(all[i], 120) + "\n"@,
        ).flatten(),
    decreases n,
{
    let parts = Seq::new(n as nat, |i: int| "  "@ + truncated(all[i], 120) + "\n"@);
    if n > 0 {
        let fewer = Seq::new((n - 1) as nat, |i: int| "  "@ + truncated(all[i], 120) + "\n"@);
        let part = "  "@ + truncated(all[n - 1], 120) + "\n"@;
        indented_is_every_line(all, n - 1);
        fewer.lemma_flatten_push(part);
        assert(parts =~= fewer.push(part));
        assert(indented(all, n) =~= fewer.flatten() + part);
    } else {
        assert(parts =~= seq![]);
        assert(parts.flatten() =~= seq![]);
    }
}

proof fn a_part_of_the_whole(parts: Seq<Seq<char>>, k: int)
    requires
        0 <= k < parts.len(),
    ensures
        parts.flatten() == parts.take(k).flatten() + parts[k] + parts.skip(k + 1).flatten(),
    decreases parts.len(),
{
    if k == 0 {
        assert(parts.take(0) =~= seq![]);
        assert(parts.take(0).flatten() =~= seq![]);
        assert(parts.drop_first() =~= parts.skip(1));
        assert(parts.flatten() =~= parts.take(0).flatten() + parts[0] + parts.skip(1).flatten());
    } else {
        let rest = parts.drop_first();
        a_part_of_the_whole(rest, k - 1);
        assert(parts.take(k).drop_first() =~= rest.take(k - 1));
        assert(parts.take(k)[0] == parts[0]);
        assert(rest.skip(k) =~= parts.skip(k + 1));
        assert(parts.flatten() =~= parts.take(k).flatten() + parts[k] + parts.skip(
            k + 1,
        ).flatten());
    }
}

proof fn set_apart(
    above: Seq<char>,
    title: Seq<char>,
    a: Seq<char>,
    inside: Seq<char>,
    t: Seq<Seq<char>>,
    b: Seq<char>,
    more: Seq<char>,
)
    requires
        t.len() == 3,
    ensures
        above + (title + (a + (inside + t[0] + t[1] + t[2]) + b) + more) == (above + title + a)
            + inside + (t[0] + t[1] + t[2] + b + more),
{
    assert(above + (title + (a + (inside + t[0] + t[1] + t[2]) + b) + more) =~= (above + title + a)
        + inside + (t[0] + t[1] + t[2] + b + more));
}

/// The report holds the numbered heading of each of the first ten failures, with the
/// name of that failure.
pub proof fn the_report_names_each_failure(g: Gathered, i: int, name: Seq<char>, rest: Seq<char>)
    requires
        header(counts(g.summary), g.xfail.len() > 0) is Some,
        0 <= i < g.failures.len(),
        i < 10,
        name.len() > 0,
        !white(name.last()),
        failure_text(i, g.failures[i]) == decimal((i + 1) as nat) + ". [FAIL] "@ + name + "\n"@
            + rest,
    ensures
        contains(report(g), decimal((i + 1) as nat) + ". [FAIL] "@ + name),
{
    let all = g.failures;
    let n: nat = if all.len() > 10 {
        10
    } else {
        all.len()
    };
    let more = if all.len() > 10 {
        "\n… +"@ + decimal((all.len() - 10) as nat) + " more failures\n"@
    } else {
        seq![]
    };
    let blank = Seq::new(
        all.len(),
        |k: int|
            if k < all.len() - 1 {
                seq!['\n']
            } else {
                seq![]
            },
    );
    each_failure_has_its_entry(all, blank, n, more);
    let parts = Seq::new(n, |k: int| failure_text(k, all[k]) + blank[k]);
    a_part_of_the_whole(parts, i);
    let inside = decimal((i + 1) as nat) + ". [FAIL] "@ + name;
    decimal_reads_back((i + 1) as nat);
    assert(crate::text::is_digit(decimal((i + 1) as nat)[0]));
    assert(!white(inside[0]));
    assert(inside.last() == name.last());
    let line = header(counts(g.summary), g.xfail.len() > 0)->0;
    let above = line + "\n"@ + xfail_text(g.xfail);
    let front = above + "\nFailures:\n"@ + parts.take(i).flatten();
    let back = "\n"@ + rest + blank[i] + parts.skip(i + 1).flatten() + more;
    assert(parts[i] == inside + "\n"@ + rest + blank[i]);
    set_apart(
        above,
        "\nFailures:\n"@,
        parts.take(i).flatten(),
        inside,
        seq!["\n"@, rest, blank[i]],
        parts.skip(i + 1).flatten(),
        more,
    );
    assert(above + failures_text(all) == front + inside + back);
    trimming_keeps_the_inside(front, inside, back);
}

/// Whether a line heads the short summary.
pub open spec fn heads_the_summary(line: Seq<char>) -> bool {
    &&& "==="@.is_prefix_of(line)
    &&& contains(line, "short test summary"@)
    &&& !contains(line, "test session starts"@)
    &&& !contains(line, "FAILURES"@)
}

/// The lines behind the heading of the short summary that name a failed test are
/// failures, in order, behind those gathered before; nothing stays open.
pub proof fn the_short_summary_is_gathered(
    before: Seq<Seq<char>>,
    heading: Seq<char>,
    failed: Seq<Seq<char>>,
)
    requires
        heads_the_summary(trimmed(heading)),
        forall|i: int|
            0 <= i < failed.len() ==> "FAILED"@.is_prefix_of(trimmed(#[trigger] failed[i]))
                || "ERROR"@.is_prefix_of(trimmed(failed[i])),
    ensures
        ({
            let (state, g) = run(before.push(heading) + failed);
            let start = flushed(run(before).1);
            &&& state == ParseState::Summary
            &&& g.failures == start.failures + Seq::new(
                failed.len(),
                |i: int| trimmed(failed[i]),
            )
            &&& g.current.len() == 0
            &&& g.summary == start.summary
        }),
    decreases failed.len(),
{
    let whole = before.push(heading) + failed;
    let start = flushed(run(before).1);
    if failed.len() == 0 {
        assert(whole =~= before.push(heading));
        assert(whole.drop_last() =~= before);
        assert(run(whole).1.failures =~= start.failures + Seq::new(
            failed.len(),
            |i: int| trimmed(failed[i]),
        ));
    } else {
        let fewer = failed.drop_last();
        assert forall|i: int| 0 <= i < fewer.len() implies "FAILED"@.is_prefix_of(
            trimmed(#[trigger] fewer[i]),
        ) || "ERROR"@.is_prefix_of(trimmed(fewer[i])) by {
            assert(fewer[i] == failed[i]);
        }
        the_short_summary_is_gathered(before, heading, fewer);
        assert(whole.drop_last() =~= before.push(heading) + fewer);
        let line = trimmed(failed[failed.len() - 1]);
        assert(whole.last() == failed[failed.len() - 1]);
        reveal_strlit("FAILED");
        reveal_strlit("ERROR");
        reveal_strlit("===");
        if "==="@.is_prefix_of(line) {
            assert(line[0] == "==="@[0]);
            if "FAILED"@.is_prefix_of(line) {
                assert(line[0] == "FAILED"@[0]);
            } else {
                assert(line[0] == "ERROR"@[0]);
            }
        }
        assert(run(whole).1.failures =~= start.failures + Seq::new(
            failed.len(),
            |i: int| trimmed(failed[i]),
        ));
    }
}

/// Whether a line is the last of a run: a ruled line of counts.
pub open spec fn ends_the_run(line: Seq<char>) -> bool {
    &&& "==="@.is_prefix_of(line)
    &&& contains(line, "passed"@) || contains(line, "failed"@) || contains(line, "skipped"@)
    &&& !contains(line, "test session starts"@)
    &&& !contains(line, "FAILURES"@)
    &&& !contains(line, "short test summary"@)
}

/// Each failed test that the short summary names, among the first ten failures, is
/// named in what is left of the output, under its number.
pub proof fn every_failed_test_is_named(
    output: Seq<char>,
    before: Seq<Seq<char>>,
    heading: Seq<char>,
    failed: Seq<Seq<char>>,
    last: Seq<char>,
    i: int,
    name: Seq<char>,
    cause: Option<Seq<char>>,
    at: int,
)
    requires
        lines(output) == (before.push(heading) + failed).push(last),
        heads_the_summary(trimmed(heading)),
        ends_the_run(trimmed(last)),
        header(counts(trimmed(last)), run(before.push(heading) + failed).1.xfail.len() > 0) is Some,
        forall|k: int|
            0 <= k < failed.len() ==> "FAILED"@.is_prefix_of(trimmed(#[trigger] failed[k]))
                || "ERROR"@.is_prefix_of(trimmed(failed[k])),
        0 <= i < failed.len(),
        match cause {
            Some(told) => {
                &&& trimmed(failed[i]) == "FAILED "@ + name + " - "@ + told
                &&& first_at("FAILED "@ + name + " - "@, " - "@, 7int + name.len())
                &&& !told.contains('\n')
            },
            None => {
                &&& trimmed(failed[i]) == "FAILED "@ + name
                &&& !contains("FAILED "@ + name, " - "@)
            },
        },
        !"FAILED "@.is_prefix_of(name),
        !name.contains('\n'),
        name.len() > 0,
        !white(name.last()),
        at == flushed(run(before).1).failures.len() + i,
        at < 10,
    ensures
        contains(summary(output), decimal((at + 1) as nat) + ". [FAIL] "@ + name),
{
    let body = before.push(heading) + failed;
    let whole = body.push(last);
    the_short_summary_is_gathered(before, heading, failed);
    assert(whole.drop_last() =~= body);
    assert(whole.last() == last);
    let g = flushed(run(whole).1);
    let start = flushed(run(before).1);
    assert(g.failures[at] == trimmed(failed[i]));
    assert(g.summary == trimmed(last));
    match cause {
        Some(told) => {
            a_failed_line_is_told_by_its_test(at, name, told);
            let rest = "     "@ + truncated(split_text(told, " - "@)[0], 100) + "\n"@;
            the_report_names_each_failure(g, at, name, rest);
        },
        None => {
            a_failed_line_without_a_cause(at, name);
            assert(failure_text(at, g.failures[at]) =~= decimal((at + 1) as nat) + ". [FAIL] "@
                + name + "\n"@ + seq![]);
            the_report_names_each_failure(g, at, name, seq![]);
        },
    }
}

proof fn too_long(s: Seq<char>, sub: Seq<char>)
    requires
        s.len() < sub.len(),
    ensures
        !contains(s, sub),
{
}

proof fn other_word(s: Seq<char>, sub: Seq<char>)
    requires
        s.len() == sub.len(),
        s != sub,
    ensures
        !contains(s, sub),
{
    if contains(s, sub) {
        let at = choose|at: int| #[trigger] crate::text::occurs_at(s, sub, at);
        assert(s.subrange(0, s.len() as int) =~= s);
    }
}

proof fn same_word(s: Seq<char>)
    ensures
        contains(s, s),
{
    assert(s.subrange(0, s.len() as int) =~= s);
    assert(crate::text::occurs_at(s, s, 0));
}

/// Each of the five words sets the count it names and no other.
pub proof fn a_word_sets_its_count(c: PytestCounts, n: usize)
    ensures
        counted(c, "passed"@, n) == (PytestCounts { passed: n, ..c }),
        counted(c, "failed"@, n) == (PytestCounts { failed: n, ..c }),
        counted(c, "skipped"@, n) == (PytestCounts { skipped: n, ..c }),
        counted(c, "xfailed"@, n) == (PytestCounts { xfailed: n, ..c }),
        counted(c, "xpassed"@, n) == (PytestCounts { xpassed: n, ..c }),
        counted(c, "==="@, n) == c,
{
    reveal_strlit("passed");
    reveal_strlit("failed");
    reveal_strlit("skipped");
    reveal_strlit("xfailed");
    reveal_strlit("xpassed");
    reveal_strlit("===");
    assert("passed"@[0] == 'p' && "failed"@[0] == 'f' && "skipped"@[0] == 's');
    assert("xpassed"@[0] == 'x' && "xfailed"@[0] == 'x' && "xpassed"@[1] == 'p' && "xfailed"@[1]
        == 'f');
    same_word("passed"@);
    same_word("failed"@);
    same_word("skipped"@);
    same_word("xfailed"@);
    same_word("xpassed"@);
    too_long("passed"@, "xpassed"@);
    too_long("passed"@, "xfailed"@);
    too_long("failed"@, "xpassed"@);
    too_long("failed"@, "xfailed"@);
    other_word("failed"@, "passed"@);
    other_word("skipped"@, "xpassed"@);
    other_word("skipped"@, "xfailed"@);
    other_word("xfailed"@, "xpassed"@);
    in_the_middle("skipped"@, "passed"@);
    in_the_middle("skipped"@, "failed"@);
    too_long("==="@, "xpassed"@);
    too_long("==="@, "xfailed"@);
    too_long("==="@, "passed"@);
    too_long("==="@, "failed"@);
    too_long("==="@, "skipped"@);
}

proof fn in_the_middle(s: Seq<char>, sub: Seq<char>)
    requires
        s.len() == sub.len() + 1,
        s.len() > 1,
        s[0] != sub[0],
        s[1] != sub[0],
    ensures
        !contains(s, sub),
{
    if contains(s, sub) {
        let at = choose|at: int| #[trigger] crate::text::occurs_at(s, sub, at);
        assert(s.subrange(at, at + sub.len())[0] == sub[0]);
    }
}

/// A number counts for the word behind it, and a word with no number before it counts
/// for nothing: where one number stands among the words, the word behind it is counted
/// with it.
pub proof fn a_number_counts_for_the_word_behind_it(
    c: PytestCounts,
    all: Seq<Seq<char>>,
    n: int,
    k: int,
    number: nat,
)
    requires
        0 < k < n <= all.len(),
        parsed(all[k - 1], usize::MAX as nat) == Some(number),
        forall|j: int|
            0 <= j < n - 1 && j != k - 1 ==> parsed(#[trigger] all[j], usize::MAX as nat) is None,
    ensures
        counts_of_words(c, all, n) == counted(c, all[k], number as usize),
    decreases n,
{
    if n - 1 == k {
        nothing_counts(c, all, n - 1);
        if n - 1 > 1 {
            assert(parsed(all[n - 2], usize::MAX as nat) == Some(number));
        }
    } else {
        assert(parsed(all[n - 2], usize::MAX as nat) is None);
        a_number_counts_for_the_word_behind_it(c, all, n - 1, k, number);
    }
}

proof fn nothing_counts(c: PytestCounts, all: Seq<Seq<char>>, n: int)
    requires
        n <= all.len(),
        forall|j: int| 0 <= j < n - 1 ==> parsed(#[trigger] all[j], usize::MAX as nat) is None,
    ensures
        counts_of_words(c, all, n) == c,
    decreases n,
{
    if n > 1 {
        assert(parsed(all[n - 2], usize::MAX as nat) is None);
        nothing_counts(c, all, n - 1);
    }
}

proof fn no_number(word: Seq<char>)
    requires
        word.len() > 0,
        word[0] != '+',
        !crate::text::is_digit(word[0]),
    ensures
        parsed(word, usize::MAX as nat) is None,
{
    assert(crate::text::unplus(word) == word);
    assert(!crate::text::all_digits(word)) by {
        assert(!crate::text::is_digit(word[0]));
    }
}

proof fn a_number(n: nat)
    requires
        n <= usize::MAX,
    ensures
        parsed(decimal(n), usize::MAX as nat) == Some(n),
        decimal(n).len() > 0,
        forall|i: int| 0 <= i < decimal(n).len() ==> !white(#[trigger] decimal(n)[i]),
        !decimal(n).contains(','),
{
    decimal_reads_back(n);
    assert(crate::text::is_digit(decimal(n)[0]));
    assert(crate::text::unplus(decimal(n)) == decimal(n));
    assert forall|i: int| 0 <= i < decimal(n).len() implies !white(#[trigger] decimal(n)[i]) by {
        assert(crate::text::is_digit(decimal(n)[i]));
    }
    assert forall|i: int| 0 <= i < decimal(n).len() implies decimal(n)[i] != ',' by {
        assert(crate::text::is_digit(decimal(n)[i]));
    }
}

proof fn joined_holds_no_comma(parts: Seq<Seq<char>>)
    requires
        forall|i: int| 0 <= i < parts.len() ==> !(#[trigger] parts[i]).contains(','),
    ensures
        !join(parts, seq![' ']).contains(','),
    decreases parts.len(),
{
    let s = join(parts, seq![' ']);
    if parts.len() == 1 {
        assert(!parts[0].contains(','));
    } else if parts.len() > 1 {
        let front = parts.drop_last();
        assert forall|i: int| 0 <= i < front.len() implies !(#[trigger] front[i]).contains(',') by {
            assert(front[i] == parts[i]);
        }
        joined_holds_no_comma(front);
        let a = join(front, seq![' ']);
        let b = parts[parts.len() - 1];
        assert(!b.contains(','));
        assert forall|i: int| 0 <= i < s.len() implies s[i] != ',' by {
            if i < a.len() {
                assert(s[i] == a[i]);
                assert(a.contains(a[i]));
            } else if i > a.len() {
                assert(s[i] == b[i - a.len() - 1]);
                assert(b.contains(b[i - a.len() - 1]));
            }
        }
    }
}

proof fn a_space_before_words(s: Seq<char>)
    ensures
        words(seq![' '] + s) == words(s),
{
    let t = seq![' '] + s;
    assert(t.skip(1) =~= s);
    assert(crate::text::trim_start(t) == crate::text::trim_start(s));
}

proof fn first_words(f: usize)
    ensures
        ({
            let first = seq!["==="@, decimal(f as nat), "failed"@];
            &&& words(join(first, seq![' '])) == first
            &&& !join(first, seq![' ']).contains(',')
        }),
{
    reveal_strlit("===");
    reveal_strlit("failed");
    a_number(f as nat);
    plain_words();
    let first = seq!["==="@, decimal(f as nat), "failed"@];
    assert forall|i: int| 0 <= i < first.len() implies !(#[trigger] first[i]).contains(',') by {}
    joined_holds_no_comma(first);
    assert forall|i: int| 0 <= i < first.len() implies (#[trigger] first[i]).len() > 0 by {}
    assert forall|i: int, j: int| 0 <= i < first.len() && 0 <= j < first[i].len() implies !white(
        #[trigger] first[i][j],
    ) by {}
    words_of_joined(first);
}

proof fn second_words(p: usize, took: Seq<char>)
    requires
        took.len() > 0,
        !took.contains(','),
        forall|i: int| 0 <= i < took.len() ==> !white(#[trigger] took[i]),
    ensures
        ({
            let second = seq![decimal(p as nat), "passed"@, "in"@, took, "==="@];
            &&& words(seq![' '] + join(second, seq![' '])) == second
            &&& !(seq![' '] + join(second, seq![' '])).contains(',')
        }),
{
    reveal_strlit("===");
    reveal_strlit("passed");
    reveal_strlit("in");
    a_number(p as nat);
    plain_words();
    let second = seq![decimal(p as nat), "passed"@, "in"@, took, "==="@];
    assert forall|i: int| 0 <= i < second.len() implies !(#[trigger] second[i]).contains(',') by {}
    joined_holds_no_comma(second);
    assert forall|i: int| 0 <= i < second.len() implies (#[trigger] second[i]).len() > 0 by {}
    assert forall|i: int, j: int| 0 <= i < second.len() && 0 <= j < second[i].len() implies !white(
        #[trigger] second[i][j],
    ) by {}
    words_of_joined(second);
    let text = join(second, seq![' ']);
    a_space_before_words(text);
    let b = seq![' '] + text;
    assert forall|i: int| 0 <= i < b.len() implies b[i] != ',' by {
        if i > 0 {
            assert(text.contains(b[i]));
        }
    }
}

proof fn two_parts(a: Seq<char>, b: Seq<char>)
    requires
        !a.contains(','),
        !b.contains(','),
    ensures
        split(a + seq![','] + b, ',') == seq![a, b],
{
    let parts = seq![a, b];
    assert(parts.skip(1) =~= seq![b]);
    join_cons(parts, seq![',']);
    assert(join(parts, seq![',']) =~= a + seq![','] + b);
    assert forall|i: int| 0 <= i < parts.len() implies !(#[trigger] parts[i]).contains(',') by {}
    splitting_undoes_joining(parts, ',');
}

proof fn first_counts(c: PytestCounts, f: usize)
    ensures
        counts_of_words(c, seq!["==="@, decimal(f as nat), "failed"@], 3) == (PytestCounts {
            failed: f,
            ..c
        }),
{
    reveal_strlit("===");
    a_number(f as nat);
    no_number("==="@);
    let first = seq!["==="@, decimal(f as nat), "failed"@];
    assert forall|j: int| 0 <= j < 2 && j != 1 implies parsed(
        #[trigger] first[j],
        usize::MAX as nat,
    ) is None by {}
    a_number_counts_for_the_word_behind_it(c, first, 3, 2, f as nat);
    a_word_sets_its_count(c, f);
}

proof fn second_counts(c: PytestCounts, p: usize, took: Seq<char>)
    requires
        parsed(took, usize::MAX as nat) is None,
    ensures
        counts_of_words(c, seq![decimal(p as nat), "passed"@, "in"@, took, "==="@], 5) == (
        PytestCounts { passed: p, ..c }),
{
    reveal_strlit("passed");
    reveal_strlit("in");
    a_number(p as nat);
    no_number("passed"@);
    no_number("in"@);
    let second = seq![decimal(p as nat), "passed"@, "in"@, took, "==="@];
    assert forall|j: int| 0 <= j < 4 && j != 0 implies parsed(
        #[trigger] second[j],
        usize::MAX as nat,
    ) is None by {}
    a_number_counts_for_the_word_behind_it(c, second, 5, 1, p as nat);
    a_word_sets_its_count(c, p);
}

/// A line of counts gives the counts it names, whatever the numbers are and however
/// long the run took.
pub proof fn a_line_of_counts_is_read(f: usize, p: usize, took: Seq<char>)
    requires
        took.len() > 0,
        parsed(took, usize::MAX as nat) is None,
        !took.contains(','),
        forall|i: int| 0 <= i < took.len() ==> !white(#[trigger] took[i]),
    ensures
        counts(
            join(seq!["==="@, decimal(f as nat), "failed"@], seq![' ']) + seq![','] + (seq![' ']
                + join(seq![decimal(p as nat), "passed"@, "in"@, took, "==="@], seq![' '])),
        ) == (PytestCounts { passed: p, failed: f, skipped: 0, xfailed: 0, xpassed: 0 }),
{
    let first = seq!["==="@, decimal(f as nat), "failed"@];
    let second = seq![decimal(p as nat), "passed"@, "in"@, took, "==="@];
    first_words(f);
    second_words(p, took);
    let a = join(first, seq![' ']);
    let b = seq![' '] + join(second, seq![' ']);
    two_parts(a, b);
    let none = PytestCounts { passed: 0, failed: 0, skipped: 0, xfailed: 0, xpassed: 0 };
    first_counts(none, f);
    second_counts(PytestCounts { failed: f, ..none }, p, took);
    let parts = seq![a, b];
    assert(parts[0] == a && parts[1] == b);
    assert(counts_of_parts(parts, 0) == none);
    assert(counts_of_parts(parts, 1) == counts_of_words(none, first, 3));
}

proof fn plain_words()
    ensures
        !"==="@.contains(','),
        !"failed"@.contains(','),
        !"passed"@.contains(','),
        !"in"@.contains(','),
{
    reveal_strlit("===");
    reveal_strlit("failed");
    reveal_strlit("passed");
    reveal_strlit("in");
}

/// The head of a report gives both counts where a test failed, and the others where
/// they are not zero; where all passed it gives their number alone.
pub proof fn the_head_gives_the_counts(p: usize, f: usize, s: usize)
    ensures
        p > 0 ==> header(
            PytestCounts { passed: p, failed: 0, skipped: 0, xfailed: 0, xpassed: 0 },
            false,
        ) == Some("Pytest: "@ + decimal(p as nat) + " passed"@),
        f > 0 ==> header(
            PytestCounts { passed: p, failed: f, skipped: 0, xfailed: 0, xpassed: 0 },
            false,
        ) == Some(
            "Pytest: "@ + decimal(p as nat) + " passed, "@ + decimal(f as nat) + " failed"@,
        ),
        s > 0 ==> header(
            PytestCounts { passed: p, failed: f, skipped: s, xfailed: 0, xpassed: 0 },
            false,
        ) == Some(
            "Pytest: "@ + decimal(p as nat) + " passed, "@ + decimal(f as nat) + " failed"@
                + ", "@ + decimal(s as nat) + " "@ + "skipped"@,
        ),
{
    let base = "Pytest: "@ + decimal(p as nat) + " passed, "@ + decimal(f as nat) + " failed"@;
    assert(base + seq![] + seq![] + seq![] =~= base);
    let more = ", "@ + decimal(s as nat) + " "@ + "skipped"@;
    assert(base + more + seq![] + seq![] =~= base + ", "@ + decimal(s as nat) + " "@ + "skipped"@);
}

} // verus!
