//! Content search.
//!
//! `grep-regex` compiles the pattern and `grep-searcher` does the reading. What
//! the search is made of, which files it looks into, and how what it found is
//! shown is decided here. Results are sorted by path before they are rendered,
//! so the same search answers the same way twice.
use vstd::prelude::*;
use crate::encoding::{lossy, utf8_lossy};
use crate::globbing::{glob_error, glob_matches, matched_here, portable, separates, Glob};
use crate::order::{
    apart, is_order, place_by, sorted_by, sorting_by_orders, sorting_forgets_the_order,
};
use crate::paths::{
    components, components_are_ordered, components_are_told_apart, components_chain, file_name,
    file_name_of, or_empty, path_comes_no_later, path_extension, path_extension_of, path_no_later,
};
use crate::text::{
    chars_of, count, decimal, join, join_with, lines, lines_of_joined, member, number, proper_lines,
    same, starts_with, string_of, views, views_push,
};
use crate::{said, PermissionLevel, ResultView, ToolResult};

verus! {

pub struct GrepTool;

impl GrepTool {
    pub fn name(&self) -> (out: &'static str)
        ensures
            out@ == "Grep"@,
    {
        "Grep"
    }

    pub fn permission_level(&self) -> (out: PermissionLevel)
        ensures
            out == PermissionLevel::ReadOnly,
    {
        PermissionLevel::ReadOnly
    }

    /// Asks for permission itself, for the path it is about to touch.
    pub fn self_gates(&self) -> (out: bool)
        ensures
            out,
    {
        true
    }
}

// ---------------------------------------------------------------------------
// What is asked
// ---------------------------------------------------------------------------

/// What the caller asked to see.
#[derive(Debug, Clone, Copy, PartialEq, Eq, Structural)]
pub enum Mode {
    FilesWithMatches,
    Count,
    Content,
}

/// The mode a name stands for. An unknown one reads as the default.
pub open spec fn mode_of(value: Seq<char>) -> Mode {
    if value == "content"@ {
        Mode::Content
    } else if value == "count"@ {
        Mode::Count
    } else {
        Mode::FilesWithMatches
    }
}

impl Mode {
    /// The mode a name stands for. An unknown one reads as the default.
    pub fn parse(value: &str) -> (m: Mode)
        ensures
            m == mode_of(value@),
    {
        if same(value, "content") {
            Mode::Content
        } else if same(value, "count") {
            Mode::Count
        } else {
            Mode::FilesWithMatches
        }
    }
}

/// The mode of a search that names none.
pub fn default_output_mode() -> (out: String)
    ensures
        out@ == "files_with_matches"@,
{
    "files_with_matches".to_string()
}

/// How a search is carried out and shown.
#[derive(Debug, Clone, Copy, PartialEq, Eq, Structural)]
pub struct Settings {
    pub mode: Mode,
    pub head_limit: usize,
    pub context_lines: usize,
    pub show_line_numbers: bool,
}

/// The settings of a search: what it names, or the defaults.
pub fn settings(
    output_mode: &str,
    head_limit: Option<usize>,
    context: Option<usize>,
    show_line_numbers: Option<bool>,
) -> (s: Settings)
    ensures
        s == (Settings {
            mode: mode_of(output_mode@),
            head_limit: match head_limit {
                Some(n) => n,
                None => 250,
            },
            context_lines: match context {
                Some(n) => n,
                None => 0,
            },
            show_line_numbers: match show_line_numbers {
                Some(b) => b,
                None => true,
            },
        }),
{
    Settings {
        mode: Mode::parse(output_mode),
        head_limit: match head_limit {
            Some(n) => n,
            None => 250,
        },
        context_lines: match context {
            Some(n) => n,
            None => 0,
        },
        show_line_numbers: match show_line_numbers {
            Some(b) => b,
            None => true,
        },
    }
}

/// A compiled expression of the `grep-regex` crate.
#[verifier::external_type_specification]
#[verifier::external_body]
pub struct ExRegexMatcher(grep_regex::RegexMatcher);

/// The error that `grep_regex::RegexMatcherBuilder::build` reports for an
/// expression, with case told apart or not, and with `.` and the line anchors
/// working across lines or not; none where it compiles.
pub uninterp spec fn matcher_error(
    pattern: Seq<char>,
    case_insensitive: bool,
    multiline: bool,
) -> Option<Seq<char>>;

/// An expression to search for that compiled.
///
/// The fields are private and `Matcher::build` is the one place that fills them,
/// so the compiled expression is always that of the text and the settings beside
/// it.
#[derive(Debug)]
pub struct Matcher {
    pattern: String,
    case_insensitive: bool,
    multiline: bool,
    compiled: grep_regex::RegexMatcher,
}

impl Matcher {
    /// The text of the expression.
    pub closed spec fn pattern(&self) -> Seq<char> {
        self.pattern@
    }

    /// Whether case is not told apart.
    pub closed spec fn ignores_case(&self) -> bool {
        self.case_insensitive
    }

    /// Whether `.` and the line anchors work across lines.
    pub closed spec fn spans_lines(&self) -> bool {
        self.multiline
    }

    /// The compiled expression.
    pub closed spec fn inner(&self) -> grep_regex::RegexMatcher {
        self.compiled
    }

    /// `grep_regex::RegexMatcherBuilder::build`, with `case_insensitive` as it is
    /// given and `dot_matches_new_line` and `multi_line` as `multiline` says:
    /// compiles an expression, or reports why it is none. The report is the error's
    /// display text.
    #[verifier::external_body]
    fn build(pattern: &str, case_insensitive: bool, multiline: bool) -> (r: Result<Matcher, String>)
        ensures
            match r {
                Ok(m) => matcher_error(pattern@, case_insensitive, multiline) is None
                    && m.pattern() == pattern@ && m.ignores_case() == case_insensitive
                    && m.spans_lines() == multiline,
                Err(e) => matcher_error(pattern@, case_insensitive, multiline) == Some(e@),
            },
    {
        let mut b = grep_regex::RegexMatcherBuilder::new();
        b.case_insensitive(case_insensitive).dot_matches_new_line(multiline).multi_line(multiline);
        match b.build(pattern) {
            Ok(compiled) => Ok(
                Matcher { pattern: pattern.to_string(), case_insensitive, multiline, compiled },
            ),
            Err(error) => Err(error.to_string()),
        }
    }

    /// The compiled expression, to search with.
    pub fn compiled(&self) -> (out: &grep_regex::RegexMatcher)
        ensures
            *out == self.inner(),
    {
        &self.compiled
    }
}

/// What an expression that does not compile is answered with.
pub open spec fn bad_regex(cause: Seq<char>) -> ResultView {
    said("Invalid regex: "@ + cause, true)
}

/// Compile a search's expression.
pub fn matcher(pattern: &str, case_insensitive: bool, multiline: bool) -> (r: Result<
    Matcher,
    ToolResult,
>)
    ensures
        match r {
            Ok(m) => matcher_error(pattern@, case_insensitive, multiline) is None && m.pattern()
                == pattern@ && m.ignores_case() == case_insensitive && m.spans_lines()
                == multiline,
            Err(e) => matcher_error(pattern@, case_insensitive, multiline) matches Some(cause)
                && e@ == bad_regex(cause),
        },
{
    match Matcher::build(pattern, case_insensitive, multiline) {
        Ok(m) => Ok(m),
        Err(cause) => Err(regex_failure(&cause)),
    }
}

/// What an expression that does not compile is answered with.
pub fn regex_failure(cause: &str) -> (r: ToolResult)
    ensures
        r@ == bad_regex(cause@),
{
    let mut out = "Invalid regex: ".to_string();
    out.push_str(cause);
    ToolResult::error(out)
}

/// What a glob that does not compile is answered with.
pub open spec fn bad_glob(cause: Seq<char>) -> ResultView {
    said("Invalid glob: "@ + cause, true)
}

/// What a glob that does not compile is answered with.
pub fn glob_failure(cause: &str) -> (r: ToolResult)
    ensures
        r@ == bad_glob(cause@),
{
    let mut out = "Invalid glob: ".to_string();
    out.push_str(cause);
    ToolResult::error(out)
}

/// Whether compiling the glob of a search came to this: the glob where there is no
/// error, else the answer that names it.
pub open spec fn glob_compiled(
    r: Result<Option<Glob>, ToolResult>,
    source: Seq<char>,
    error: Option<Seq<char>>,
) -> bool {
    match r {
        Ok(compiled) => error is None && (compiled matches Some(g) && g@ == source),
        Err(e) => error matches Some(cause) && e@ == bad_glob(cause),
    }
}

/// Compile the glob that narrows a search, once for all its files. What a backslash
/// in it means is up to the machine.
pub fn file_glob(glob: &Option<String>) -> (r: Result<Option<Glob>, ToolResult>)
    ensures
        match *glob {
            None => r == Ok::<Option<Glob>, ToolResult>(None),
            Some(source) => {
                &&& exists|separator: char|
                    separates(separator) && glob_compiled(
                        r,
                        source@,
                        #[trigger] glob_error(source@, separator),
                    )
                &&& portable(source@) ==> glob_compiled(r, source@, glob_error(source@, '/'))
            },
        },
{
    match glob {
        None => Ok(None),
        Some(source) => match Glob::compile(source) {
            Ok(g) => Ok(Some(g)),
            Err(cause) => Err(glob_failure(&cause)),
        },
    }
}

/// The extensions that a file type stands for, as ripgrep's own types do.
pub open spec fn extensions(t: Seq<char>) -> Seq<Seq<char>> {
    if t == "rust"@ || t == "rs"@ {
        seq!["rs"@]
    } else if t == "js"@ {
        seq!["js"@, "jsx"@, "mjs"@, "cjs"@]
    } else if t == "ts"@ {
        seq!["ts"@, "tsx"@, "mts"@, "cts"@]
    } else if t == "py"@ || t == "python"@ {
        seq!["py"@, "pyi"@]
    } else if t == "go"@ {
        seq!["go"@]
    } else if t == "java"@ {
        seq!["java"@]
    } else if t == "c"@ {
        seq!["c"@, "h"@]
    } else if t == "cpp"@ {
        seq!["cpp"@, "hpp"@, "cc"@, "hh"@, "cxx"@]
    } else if t == "rb"@ || t == "ruby"@ {
        seq!["rb"@]
    } else if t == "php"@ {
        seq!["php"@]
    } else if t == "swift"@ {
        seq!["swift"@]
    } else if t == "kt"@ || t == "kotlin"@ {
        seq!["kt"@, "kts"@]
    } else if t == "css"@ {
        seq!["css"@, "scss"@, "sass"@, "less"@]
    } else if t == "html"@ {
        seq!["html"@, "htm"@]
    } else if t == "json"@ {
        seq!["json"@]
    } else if t == "yaml"@ || t == "yml"@ {
        seq!["yaml"@, "yml"@]
    } else if t == "toml"@ {
        seq!["toml"@]
    } else if t == "xml"@ {
        seq!["xml"@]
    } else if t == "md"@ || t == "markdown"@ {
        seq!["md"@, "markdown"@]
    } else if t == "sh"@ || t == "shell"@ || t == "bash"@ {
        seq!["sh"@, "bash"@, "zsh"@]
    } else {
        seq![]
    }
}

fn list1(a: &str) -> (out: Vec<String>)
    ensures
        views(out@) == seq![a@],
{
    let mut out: Vec<String> = Vec::new();
    out.push(a.to_string());
    assert(views(out@) =~= seq![a@]);
    out
}

fn list2(a: &str, b: &str) -> (out: Vec<String>)
    ensures
        views(out@) == seq![a@, b@],
{
    let mut out: Vec<String> = Vec::new();
    out.push(a.to_string());
    out.push(b.to_string());
    assert(views(out@) =~= seq![a@, b@]);
    out
}

fn list4(a: &str, b: &str, c: &str, d: &str) -> (out: Vec<String>)
    ensures
        views(out@) == seq![a@, b@, c@, d@],
{
    let mut out: Vec<String> = Vec::new();
    out.push(a.to_string());
    out.push(b.to_string());
    out.push(c.to_string());
    out.push(d.to_string());
    assert(views(out@) =~= seq![a@, b@, c@, d@]);
    out
}

/// Map file type shorthand to extensions.
pub fn extensions_for_type(t: &str) -> (out: Vec<String>)
    ensures
        views(out@) == extensions(t@),
{
    if same(t, "rust") || same(t, "rs") {
        list1("rs")
    } else if same(t, "js") {
        list4("js", "jsx", "mjs", "cjs")
    } else if same(t, "ts") {
        list4("ts", "tsx", "mts", "cts")
    } else if same(t, "py") || same(t, "python") {
        list2("py", "pyi")
    } else if same(t, "go") {
        list1("go")
    } else if same(t, "java") {
        list1("java")
    } else if same(t, "c") {
        list2("c", "h")
    } else if same(t, "cpp") {
        let mut out = list4("cpp", "hpp", "cc", "hh");
        out.push("cxx".to_string());
        assert(views(out@) =~= seq!["cpp"@, "hpp"@, "cc"@, "hh"@, "cxx"@]) by {
            broadcast use views_push;

        }
        out
    } else if same(t, "rb") || same(t, "ruby") {
        list1("rb")
    } else if same(t, "php") {
        list1("php")
    } else if same(t, "swift") {
        list1("swift")
    } else if same(t, "kt") || same(t, "kotlin") {
        list2("kt", "kts")
    } else if same(t, "css") {
        list4("css", "scss", "sass", "less")
    } else if same(t, "html") {
        list2("html", "htm")
    } else if same(t, "json") {
        list1("json")
    } else if same(t, "yaml") || same(t, "yml") {
        list2("yaml", "yml")
    } else if same(t, "toml") {
        list1("toml")
    } else if same(t, "xml") {
        list1("xml")
    } else if same(t, "md") || same(t, "markdown") {
        list2("md", "markdown")
    } else if same(t, "sh") || same(t, "shell") || same(t, "bash") {
        let mut out = list2("sh", "bash");
        out.push("zsh".to_string());
        assert(views(out@) =~= seq!["sh"@, "bash"@, "zsh"@]) by {
            broadcast use views_push;

        }
        out
    } else {
        let out: Vec<String> = Vec::new();
        assert(views(out@) =~= seq![]);
        out
    }
}

/// Whether a file passes the filters, given what the glob says of its name.
pub open spec fn passes(path: Seq<char>, exts: Seq<Seq<char>>, glob: Option<bool>) -> bool {
    (exts.len() == 0 || exts.contains(or_empty(path_extension(path)))) && (glob matches Some(found)
        ==> found)
}

/// Whether a file passes the filters, given what the glob says of its name.
pub fn passes_given(path: &str, type_exts: &Vec<String>, glob: Option<bool>) -> (r: bool)
    ensures
        r == passes(path@, views(type_exts@), glob),
{
    if type_exts.len() > 0 {
        let ext = match path_extension_of(path) {
            Some(e) => e,
            None => String::new(),
        };
        if !member(type_exts, &ext) {
            return false;
        }
    }
    match glob {
        Some(found) => found,
        None => true,
    }
}

/// Whether this file passes the `type` and `glob` filters. What the glob says of a
/// name with a backslash is up to the machine.
pub fn passes_filters(path: &str, type_exts: &Vec<String>, glob: &Option<Glob>) -> (r: bool)
    ensures
        match *glob {
            None => r == passes(path@, views(type_exts@), None),
            Some(g) => {
                let name = or_empty(file_name(path@));
                &&& exists|separator: char|
                    separates(separator) && r == passes(
                        path@,
                        views(type_exts@),
                        Some(#[trigger] glob_matches(g@, name, separator)),
                    )
                &&& portable(g@) && portable(name) ==> r == passes(
                    path@,
                    views(type_exts@),
                    Some(glob_matches(g@, name, '/')),
                )
            },
        },
{
    let found: Option<bool> = match glob {
        Some(g) => {
            let name = match file_name_of(path) {
                Some(n) => n,
                None => String::new(),
            };
            assert(name@ =~= or_empty(file_name(path@)));
            let answer = g.matches(&name);
            assert(matched_here(answer, g@, or_empty(file_name(path@))));
            Some(answer)
        },
        None => None,
    };
    passes_given(path, type_exts, found)
}

// ---------------------------------------------------------------------------
// One file's matches
// ---------------------------------------------------------------------------

/// One file's answer. `lines` is empty unless the mode is `Content`.
#[derive(Debug)]
pub struct FileHits {
    pub path: String,
    pub count: usize,
    pub lines: Vec<String>,
}

/// What a [`FileHits`] says.
#[verifier::ext_equal]
pub struct HitView {
    pub path: Seq<char>,
    pub count: usize,
    pub lines: Seq<Seq<char>>,
}

impl View for FileHits {
    type V = HitView;

    open spec fn view(&self) -> HitView {
        HitView { path: self.path@, count: self.count, lines: views(self.lines@) }
    }
}

/// What some files' answers say.
pub open spec fn hit_views(v: Seq<FileHits>) -> Seq<HitView> {
    Seq::new(v.len(), |i: int| v[i]@)
}

/// Collects one file's matches as they are streamed.
///
/// The calls arrive in file order: context, match, context, then a break between
/// groups.
#[derive(Debug)]
pub struct Collect {
    pub path: String,
    pub mode: Mode,
    pub show_line_numbers: bool,
    pub count: usize,
    pub lines: Vec<String>,
}

/// What a [`Collect`] holds.
#[verifier::ext_equal]
pub struct CollectView {
    pub path: Seq<char>,
    pub mode: Mode,
    pub show_line_numbers: bool,
    pub count: usize,
    pub lines: Seq<Seq<char>>,
}

impl View for Collect {
    type V = CollectView;

    open spec fn view(&self) -> CollectView {
        CollectView {
            path: self.path@,
            mode: self.mode,
            show_line_numbers: self.show_line_numbers,
            count: self.count,
            lines: views(self.lines@),
        }
    }
}

/// A text without the line feeds and carriage returns at its end.
pub open spec fn without_eol(s: Seq<char>) -> Seq<char>
    decreases s.len(),
{
    if s.len() > 0 && (s.last() == '\n' || s.last() == '\r') {
        without_eol(s.drop_last())
    } else {
        s
    }
}

fn cut_eol(s: &str) -> (out: String)
    ensures
        out@ == without_eol(s@),
{
    let x = chars_of(s);
    let mut end: usize = x.len();
    assert(x@.take(x@.len() as int) =~= s@);
    while end > 0 && (x[end - 1] == '\n' || x[end - 1] == '\r')
        invariant
            end <= x@.len(),
            without_eol(s@) == without_eol(x@.take(end as int)),
        decreases end,
    {
        assert(x@.take(end as int).drop_last() =~= x@.take(end - 1));
        assert(x@.take(end as int).last() == x@[end - 1]);
        end -= 1;
    }
    assert(end > 0 ==> x@.take(end as int).last() == x@[end - 1]);
    let out = string_of(&x, 0, end);
    assert(out@ =~= x@.take(end as int));
    out
}

/// One line as it is shown: its file, its number where numbers are shown, its text.
pub open spec fn shown_line(
    path: Seq<char>,
    show_line_numbers: bool,
    number: Option<u64>,
    bytes: Seq<u8>,
) -> Seq<char> {
    let prefix = if show_line_numbers && number is Some {
        path + ":"@ + decimal(number->Some_0 as nat) + ":"@
    } else {
        path + ":"@
    };
    prefix + without_eol(utf8_lossy(bytes))
}

/// The state after one more line. Only the content mode keeps lines.
pub open spec fn pushed(c: CollectView, number: Option<u64>, bytes: Seq<u8>) -> CollectView {
    if c.mode == Mode::Content {
        CollectView {
            lines: c.lines.push(shown_line(c.path, c.show_line_numbers, number, bytes)),
            ..c
        }
    } else {
        c
    }
}

/// The number of the line after one.
pub open spec fn next_number(number: Option<u64>) -> Option<u64> {
    match number {
        Some(n) => Some(
            if n < u64::MAX {
                (n + 1) as u64
            } else {
                n
            },
        ),
        None => None,
    }
}

/// The number of the line `k` after one.
pub open spec fn number_after(number: Option<u64>, k: int) -> Option<u64>
    decreases k,
{
    if k <= 0 {
        number
    } else {
        next_number(number_after(number, k - 1))
    }
}

/// The state after the first `n` lines of a match, the first of which has the number.
pub open spec fn pushed_all(
    c: CollectView,
    number: Option<u64>,
    lines: Seq<Vec<u8>>,
    n: int,
) -> CollectView
    decreases n,
{
    if n <= 0 || n > lines.len() {
        c
    } else {
        pushed(
            pushed_all(c, number, lines, n - 1),
            number_after(number, n - 1),
            lines[n - 1]@,
        )
    }
}

/// The state after a match.
pub open spec fn after_match(c: CollectView, number: Option<u64>, lines: Seq<Vec<u8>>) -> CollectView {
    let counted = CollectView {
        count: if c.count < usize::MAX {
            (c.count + 1) as usize
        } else {
            c.count
        },
        ..c
    };
    pushed_all(counted, number, lines, lines.len() as int)
}

impl Collect {
    /// Nothing found yet.
    pub fn new(path: &str, mode: Mode, show_line_numbers: bool) -> (c: Collect)
        ensures
            c@ == (CollectView {
                path: path@,
                mode,
                show_line_numbers,
                count: 0,
                lines: Seq::empty(),
            }),
    {
        let c = Collect {
            path: path.to_string(),
            mode,
            show_line_numbers,
            count: 0,
            lines: Vec::new(),
        };
        assert(views(c.lines@) =~= Seq::empty());
        c
    }

    /// Take one line.
    fn push(&mut self, line_number: Option<u64>, bytes: &[u8])
        ensures
            final(self)@ == pushed(old(self)@, line_number, bytes@),
    {
        broadcast use views_push;

        if self.mode != Mode::Content {
            return;
        }
        let text = cut_eol(&lossy(bytes));
        let mut line = self.path.clone();
        line.push_str(":");
        if self.show_line_numbers {
            if let Some(n) = line_number {
                line.push_str(&number(n));
                line.push_str(":");
            }
        }
        line.push_str(&text);
        self.lines.push(line);
    }

    /// Take a match: the number of its first line, and its lines. Says whether to
    /// go on: one match settles the answer where only the files are asked for.
    pub fn matched(&mut self, line_number: Option<u64>, lines: &Vec<Vec<u8>>) -> (go_on: bool)
        ensures
            final(self)@ == after_match(old(self)@, line_number, lines@),
            go_on == (old(self)@.mode != Mode::FilesWithMatches),
    {
        let ghost start = self@;
        if self.count < usize::MAX {
            self.count = self.count + 1;
        }
        let ghost counted = self@;
        let mut n: Option<u64> = line_number;
        let mut i: usize = 0;
        while i < lines.len()
            invariant
                i <= lines@.len(),
                self@ == pushed_all(counted, line_number, lines@, i as int),
                n == number_after(line_number, i as int),
                self@.mode == start.mode,
            decreases lines.len() - i,
        {
            self.push(n, &lines[i]);
            n = match n {
                Some(v) => Some(
                    if v < u64::MAX {
                        v + 1
                    } else {
                        v
                    },
                ),
                None => None,
            };
            i += 1;
        }
        self.mode != Mode::FilesWithMatches
    }

    /// Take a line around a match.
    pub fn context(&mut self, line_number: Option<u64>, bytes: &[u8]) -> (go_on: bool)
        ensures
            final(self)@ == pushed(old(self)@, line_number, bytes@),
            go_on,
    {
        self.push(line_number, bytes);
        true
    }

    /// Take a break between groups.
    pub fn context_break(&mut self) -> (go_on: bool)
        ensures
            final(self)@ == (if old(self)@.mode == Mode::Content {
                CollectView { lines: old(self)@.lines.push("--"@), ..old(self)@ }
            } else {
                old(self)@
            }),
            go_on,
    {
        broadcast use views_push;

        if self.mode == Mode::Content {
            self.lines.push("--".to_string());
        }
        true
    }

    /// The file's answer, where anything matched.
    pub fn finish(self) -> (r: Option<FileHits>)
        ensures
            match r {
                Some(h) => file_answer(self@) == Some(h@),
                None => file_answer(self@) is None,
            },
    {
        if self.count == 0 {
            return None;
        }
        Some(FileHits { path: self.path, count: self.count, lines: self.lines })
    }
}

/// A file's answer, where anything matched.
pub open spec fn file_answer(c: CollectView) -> Option<HitView> {
    if c.count == 0 {
        None
    } else {
        Some(HitView { path: c.path, count: c.count, lines: c.lines })
    }
}

// ---------------------------------------------------------------------------
// Rendering
// ---------------------------------------------------------------------------

/// One file's line in the summary modes.
pub open spec fn summary(h: HitView, mode: Mode) -> Seq<char> {
    if mode == Mode::Count {
        h.path + ":"@ + decimal(h.count as nat)
    } else {
        h.path
    }
}

/// The lines of a result, after `entries` entries are out. An entry is a file in
/// the two summary modes and a match in the content mode. A file is added whole,
/// so the last one can carry the count past the limit rather than cut a match
/// away from its context.
pub open spec fn rendered(hits: Seq<HitView>, mode: Mode, head_limit: int, entries: int) -> Seq<
    Seq<char>,
>
    decreases hits.len(),
{
    if hits.len() == 0 || entries >= head_limit {
        seq![]
    } else if mode == Mode::Content {
        hits[0].lines + rendered(hits.skip(1), mode, head_limit, entries + hits[0].count)
    } else {
        seq![summary(hits[0], mode)] + rendered(hits.skip(1), mode, head_limit, entries + 1)
    }
}

fn summary_text(h: &FileHits, mode: Mode) -> (out: String)
    ensures
        out@ == summary(h@, mode),
{
    let mut out = h.path.clone();
    if mode == Mode::Count {
        out.push_str(":");
        out.push_str(&count(h.count));
    }
    out
}

proof fn past_the_limit(hits: Seq<HitView>, mode: Mode, head_limit: int, a: int, b: int)
    requires
        a >= head_limit,
        b >= head_limit,
    ensures
        rendered(hits, mode, head_limit, a) == rendered(hits, mode, head_limit, b),
{
}

/// Render the whole result set, stopping once `head_limit` entries are out.
pub fn render(hits: &Vec<FileHits>, mode: Mode, head_limit: usize) -> (out: String)
    ensures
        out@ == join(rendered(hit_views(hits@), mode, head_limit as int, 0), "\n"@),
{
    broadcast use views_push;

    let ghost model = hit_views(hits@);
    let ghost all = rendered(model, mode, head_limit as int, 0);
    let mut out: Vec<String> = Vec::new();
    let mut entries: usize = 0;
    let mut i: usize = 0;
    assert(model.skip(0) =~= model);
    assert(views(out@) + all =~= all);
    while i < hits.len() && entries < head_limit
        invariant
            i <= hits@.len(),
            model == hit_views(hits@),
            all == rendered(model, mode, head_limit as int, 0),
            views(out@) + rendered(
                model.skip(i as int),
                mode,
                head_limit as int,
                entries as int,
            ) == all,
        decreases hits.len() - i,
    {
        let ghost before = views(out@);
        let ghost rest = model.skip(i as int);
        let ghost later = model.skip(i + 1);
        let ghost was = entries as int;
        assert(rest[0] == hits@[i as int]@);
        assert(rest.skip(1) =~= later);
        if mode == Mode::Content {
            let lines = &hits[i].lines;
            let ghost added = views(lines@);
            let mut k: usize = 0;
            assert(before + added.take(0) =~= before);
            while k < lines.len()
                invariant
                    k <= lines@.len(),
                    added == views(lines@),
                    views(out@) == before + added.take(k as int),
                decreases lines.len() - k,
            {
                let ghost earlier = views(out@);
                out.push(lines[k].clone());
                assert(earlier.push(lines@[k as int]@) =~= before + added.take(k + 1));
                k += 1;
            }
            assert(added.take(added.len() as int) =~= added);
            let n: usize = hits[i].count;
            entries = entries.saturating_add(n);
            proof {
                if was + n > usize::MAX {
                    past_the_limit(later, mode, head_limit as int, entries as int, was + n);
                }
                assert(views(out@) + rendered(later, mode, head_limit as int, entries as int)
                    =~= before + rendered(rest, mode, head_limit as int, was));
            }
        } else {
            let line = summary_text(&hits[i], mode);
            out.push(line);
            entries = entries + 1;
            assert(views(out@) + rendered(later, mode, head_limit as int, entries as int)
                =~= before + rendered(rest, mode, head_limit as int, was));
        }
        i += 1;
    }
    assert(rendered(model.skip(i as int), mode, head_limit as int, entries as int) =~= seq![]);
    assert(views(out@) =~= all);
    join_with(&out, "\n")
}

/// A line with its file's name left out.
pub open spec fn without_path(line: Seq<char>, path: Seq<char>) -> Seq<char> {
    let prefix = path + ":"@;
    if prefix.is_prefix_of(line) {
        line.skip(prefix.len() as int)
    } else {
        line
    }
}

/// What a search of one named file shows: its path is already known, so it is
/// stripped back off each line.
pub open spec fn rendered_single(h: HitView, mode: Mode) -> Seq<char> {
    if mode == Mode::Content {
        join(Seq::new(h.lines.len(), |i: int| without_path(h.lines[i], h.path)), "\n"@)
    } else {
        summary(h, mode)
    }
}

/// Render a search the caller aimed at one named file.
pub fn render_single(hits: &FileHits, mode: Mode) -> (out: String)
    ensures
        out@ == rendered_single(hits@, mode),
{
    if mode != Mode::Content {
        return summary_text(hits, mode);
    }
    let mut prefix = hits.path.clone();
    prefix.push_str(":");
    let cut: usize = chars_of(&prefix).len();
    let ghost expected = Seq::new(
        hits@.lines.len(),
        |i: int| without_path(hits@.lines[i], hits@.path),
    );
    let mut lines: Vec<String> = Vec::new();
    let mut i: usize = 0;
    while i < hits.lines.len()
        invariant
            i <= hits.lines@.len(),
            prefix@ == hits@.path + ":"@,
            cut == prefix@.len(),
            expected == Seq::new(
                hits@.lines.len(),
                |i: int| without_path(hits@.lines[i], hits@.path),
            ),
            lines@.len() == i,
            forall|k: int| 0 <= k < i ==> (#[trigger] lines@[k])@ == expected[k],
        decreases hits.lines.len() - i,
    {
        let ghost line = hits@.lines[i as int];
        assert(line == hits.lines@[i as int]@);
        let shown: String = if starts_with(&hits.lines[i], &prefix) {
            let x = chars_of(&hits.lines[i]);
            let rest = string_of(&x, cut, x.len());
            assert(rest@ =~= line.skip(cut as int));
            rest
        } else {
            hits.lines[i].clone()
        };
        lines.push(shown);
        i += 1;
    }
    assert(views(lines@) =~= expected);
    join_with(&lines, "\n")
}

/// The order of files: by their paths.
pub open spec fn by_path() -> spec_fn(HitView, HitView) -> bool {
    |a: HitView, b: HitView| path_no_later(a.path, b.path)
}

proof fn by_path_is_an_order()
    ensures
        is_order(by_path()),
{
    let le = by_path();
    assert forall|a: HitView, b: HitView| #[trigger] le(a, b) || le(b, a) by {
        components_are_ordered(components(a.path), components(b.path));
    }
    assert forall|a: HitView, b: HitView, c: HitView| #[trigger] le(a, b) && #[trigger] le(
        b,
        c,
    ) implies le(a, c) by {
        components_chain(components(a.path), components(b.path), components(c.path));
    }
}

/// The files in the order of their paths.
pub fn sort_hits(hits: Vec<FileHits>) -> (out: Vec<FileHits>)
    ensures
        hit_views(out@) == sorted_by(hit_views(hits@), by_path()),
{
    let ghost model = hit_views(hits@);
    let mut rest = hits;
    let mut out: Vec<FileHits> = Vec::new();
    let ghost mut done: int = 0;
    assert(model.take(0) =~= seq![]);
    assert(hit_views(out@) =~= seq![]);
    assert(hit_views(rest@) =~= model.skip(0));
    while rest.len() > 0
        invariant
            0 <= done <= model.len(),
            hit_views(rest@) == model.skip(done),
            hit_views(out@) == sorted_by(model.take(done), by_path()),
        decreases rest.len(),
    {
        let ghost before = hit_views(rest@);
        let ghost front = hit_views(out@);
        assert(hit_views(rest@).len() == rest@.len());
        let hit = rest.remove(0);
        let ghost x = hit@;
        assert(x == before[0]);
        assert(hit_views(rest@) =~= before.skip(1));
        assert(before.skip(1) =~= model.skip(done + 1));
        let ghost next = model.take(done + 1);
        assert(next.drop_last() =~= model.take(done));
        assert(next.last() == x);
        let mut at: usize = out.len();
        assert(front.take(front.len() as int) =~= front);
        while at > 0 && !path_comes_no_later(&out[at - 1].path, &hit.path)
            invariant
                at <= out@.len(),
                front == hit_views(out@),
                x == hit@,
                place_by(front, x, by_path()) == place_by(front.take(at as int), x, by_path()),
            decreases at,
        {
            let ghost t = front.take(at as int);
            assert(t.drop_last() =~= front.take(at - 1));
            assert(t.last() == out@[at - 1]@);
            at -= 1;
        }
        let ghost t = front.take(at as int);
        assert(at > 0 ==> t.last() == out@[at - 1]@);
        assert(place_by(front, x, by_path()) == at);
        out.insert(at, hit);
        assert(hit_views(out@) =~= front.insert(at as int, x));
        proof {
            done = done + 1;
        }
    }
    assert(model.skip(done).len() == 0);
    assert(model.take(done) =~= model);
    out
}

/// What a walk does with an entry that it meets.
#[derive(Debug, PartialEq, Eq, Clone, Copy, Structural)]
pub enum Visit {
    /// Pass it by.
    Skip,
    /// Search it.
    Search,
    /// Keep it until the walk is over, to be asked about: it lies outside the
    /// workspace, and a question belongs to the call, not to a walker thread.
    Defer,
}

/// What a walk does with an entry: it passes by what is no file or does not pass
/// the filters.
pub open spec fn visited(is_file: bool, passes: bool, inside: bool) -> Visit {
    if !is_file || !passes {
        Visit::Skip
    } else if inside {
        Visit::Search
    } else {
        Visit::Defer
    }
}

/// Decide what a walk does with an entry.
pub fn visit(is_file: bool, passes: bool, inside: bool) -> (v: Visit)
    ensures
        v == visited(is_file, passes, inside),
{
    if !is_file || !passes {
        Visit::Skip
    } else if inside {
        Visit::Search
    } else {
        Visit::Defer
    }
}

/// The order of paths.
pub open spec fn path_order() -> spec_fn(Seq<char>, Seq<char>) -> bool {
    |a: Seq<char>, b: Seq<char>| path_no_later(a, b)
}

/// Put the files that were kept in the order in which they are asked about.
pub fn ask_order(paths: Vec<String>) -> (out: Vec<String>)
    ensures
        views(out@) == sorted_by(views(paths@), path_order()),
{
    let ghost model = views(paths@);
    let mut rest = paths;
    let mut out: Vec<String> = Vec::new();
    let ghost mut done: int = 0;
    assert(model.take(0) =~= seq![]);
    assert(views(out@) =~= seq![]);
    assert(views(rest@) =~= model.skip(0));
    while rest.len() > 0
        invariant
            0 <= done <= model.len(),
            views(rest@) == model.skip(done),
            views(out@) == sorted_by(model.take(done), path_order()),
        decreases rest.len(),
    {
        let ghost before = views(rest@);
        let ghost front = views(out@);
        assert(views(rest@).len() == rest@.len());
        let path = rest.remove(0);
        let ghost x = path@;
        assert(x == before[0]);
        assert(views(rest@) =~= before.skip(1));
        assert(before.skip(1) =~= model.skip(done + 1));
        let ghost next = model.take(done + 1);
        assert(next.drop_last() =~= model.take(done));
        assert(next.last() == x);
        let mut at: usize = out.len();
        assert(front.take(front.len() as int) =~= front);
        while at > 0 && !path_comes_no_later(&out[at - 1], &path)
            invariant
                at <= out@.len(),
                front == views(out@),
                x == path@,
                place_by(front, x, path_order()) == place_by(
                    front.take(at as int),
                    x,
                    path_order(),
                ),
            decreases at,
        {
            let ghost t = front.take(at as int);
            assert(t.drop_last() =~= front.take(at - 1));
            assert(t.last() == out@[at - 1]@);
            at -= 1;
        }
        let ghost t = front.take(at as int);
        assert(at > 0 ==> t.last() == out@[at - 1]@);
        assert(place_by(front, x, path_order()) == at);
        out.insert(at, path);
        assert(views(out@) =~= front.insert(at as int, x));
        proof {
            done = done + 1;
        }
    }
    assert(model.skip(done).len() == 0);
    assert(model.take(done) =~= model);
    out
}

/// What a search of a directory answers.
pub open spec fn search_answer(
    pattern: Seq<char>,
    search_path: Seq<char>,
    hits: Seq<HitView>,
    mode: Mode,
    head_limit: int,
) -> ResultView {
    if hits.len() == 0 {
        said("No matches found for pattern \""@ + pattern + "\" in "@ + search_path, false)
    } else {
        said(join(rendered(sorted_by(hits, by_path()), mode, head_limit, 0), "\n"@), false)
    }
}

/// Answer a search of a directory with what was found, in whatever order it came.
pub fn answer(
    pattern: &str,
    search_path: &str,
    hits: Vec<FileHits>,
    mode: Mode,
    head_limit: usize,
) -> (r: ToolResult)
    ensures
        r@ == search_answer(pattern@, search_path@, hit_views(hits@), mode, head_limit as int),
{
    if hits.len() == 0 {
        let mut out = "No matches found for pattern \"".to_string();
        out.push_str(pattern);
        out.push_str("\" in ");
        out.push_str(search_path);
        return ToolResult::success(out);
    }
    let sorted = sort_hits(hits);
    ToolResult::success(render(&sorted, mode, head_limit))
}

/// Answer a search of one named file.
pub fn answer_single(search_path: &str, hits: &Option<FileHits>, mode: Mode) -> (r: ToolResult)
    ensures
        r@ == (match *hits {
            Some(h) => said(rendered_single(h@, mode), false),
            None => said("No matches found in "@ + search_path@, false),
        }),
{
    match hits {
        Some(h) => ToolResult::success(render_single(h, mode)),
        None => {
            let mut out = "No matches found in ".to_string();
            out.push_str(search_path);
            ToolResult::success(out)
        },
    }
}

/// What the user is asked to allow.
pub fn permission_text(pattern: &str, search_path: &str) -> (out: String)
    ensures
        out@ == "Grep "@ + pattern@ + " in "@ + search_path@,
{
    let mut out = "Grep ".to_string();
    out.push_str(pattern);
    out.push_str(" in ");
    out.push_str(search_path);
    out
}

// ---------------------------------------------------------------------------
// Laws
// ---------------------------------------------------------------------------

/// The answer does not depend on the order in which the files were found, as
/// long as each was found once.
pub proof fn the_order_of_finding_does_not_show(
    pattern: Seq<char>,
    search_path: Seq<char>,
    a: Seq<HitView>,
    b: Seq<HitView>,
    mode: Mode,
    head_limit: int,
)
    requires
        a.to_multiset() == b.to_multiset(),
        forall|x: HitView, y: HitView|
            a.contains(x) && a.contains(y) && #[trigger] components(x.path)
                == #[trigger] components(y.path) ==> x == y,
    ensures
        search_answer(pattern, search_path, a, mode, head_limit) == search_answer(
            pattern,
            search_path,
            b,
            mode,
            head_limit,
        ),
{
    by_path_is_an_order();
    let le = by_path();
    assert forall|x: HitView, y: HitView|
        a.contains(x) && a.contains(y) && #[trigger] le(x, y) && #[trigger] le(
            y,
            x,
        ) implies x == y by {
        components_are_told_apart(components(x.path), components(y.path));
    }
    sorting_forgets_the_order(a, b, le);
    a.to_multiset_ensures();
    b.to_multiset_ensures();
}

/// In the summary modes no more files are shown than the limit allows.
pub proof fn summaries_keep_to_the_limit(hits: Seq<HitView>, mode: Mode, head_limit: int, entries: int)
    requires
        mode != Mode::Content,
        0 <= entries <= head_limit,
    ensures
        rendered(hits, mode, head_limit, entries).len() <= head_limit - entries,
    decreases hits.len(),
{
    if hits.len() > 0 && entries < head_limit {
        summaries_keep_to_the_limit(hits.skip(1), mode, head_limit, entries + 1);
    }
}

/// Whether each file was found once.
pub open spec fn found_once(hits: Seq<HitView>) -> bool {
    forall|i: int, j: int|
        0 <= i < j < hits.len() ==> components((#[trigger] hits[i]).path) != components(
            (#[trigger] hits[j]).path,
        )
}

/// The first files of a listing, one line each.
pub open spec fn first_summaries(hits: Seq<HitView>, mode: Mode, n: int) -> Seq<Seq<char>> {
    Seq::new(
        if n < hits.len() {
            n as nat
        } else {
            hits.len()
        },
        |i: int| summary(hits[i], mode),
    )
}

proof fn summaries_are_the_first(hits: Seq<HitView>, mode: Mode, head_limit: int, entries: int)
    requires
        mode != Mode::Content,
        0 <= entries <= head_limit,
    ensures
        rendered(hits, mode, head_limit, entries) == first_summaries(
            hits,
            mode,
            head_limit - entries,
        ),
    decreases hits.len(),
{
    if hits.len() > 0 && entries < head_limit {
        let rest = hits.skip(1);
        summaries_are_the_first(rest, mode, head_limit, entries + 1);
        assert(seq![summary(hits[0], mode)] + first_summaries(
            rest,
            mode,
            head_limit - entries - 1,
        ) =~= first_summaries(hits, mode, head_limit - entries));
    } else {
        assert(rendered(hits, mode, head_limit, entries) =~= first_summaries(
            hits,
            mode,
            head_limit - entries,
        ));
    }
}

/// A listing shows the files that matched, one line each, by ascending path and
/// none twice, as many as the limit allows and all of them where it allows all.
pub proof fn a_listing_is_the_first_files_by_path(
    pattern: Seq<char>,
    search_path: Seq<char>,
    hits: Seq<HitView>,
    mode: Mode,
    head_limit: int,
)
    requires
        mode != Mode::Content,
        hits.len() > 0,
        head_limit >= 0,
        found_once(hits),
    ensures
        search_answer(pattern, search_path, hits, mode, head_limit) == said(
            join(first_summaries(sorted_by(hits, by_path()), mode, head_limit), "\n"@),
            false,
        ),
        proper_lines(first_summaries(sorted_by(hits, by_path()), mode, head_limit)) ==> lines(
            search_answer(pattern, search_path, hits, mode, head_limit).content,
        ) == first_summaries(sorted_by(hits, by_path()), mode, head_limit),
        sorted_by(hits, by_path()).to_multiset() == hits.to_multiset(),
        sorted_by(hits, by_path()).len() == hits.len(),
        found_once(sorted_by(hits, by_path())),
        forall|i: int, j: int|
            0 <= i < j < hits.len() ==> path_no_later(
                (#[trigger] sorted_by(hits, by_path())[i]).path,
                (#[trigger] sorted_by(hits, by_path())[j]).path,
            ),
{
    let le = by_path();
    let all = sorted_by(hits, le);
    by_path_is_an_order();
    sorting_by_orders(hits, le);
    summaries_are_the_first(all, mode, head_limit, 0);
    let shown = first_summaries(all, mode, head_limit);
    if proper_lines(shown) {
        lines_of_joined(shown);
    }
    assert forall|i: int, j: int| 0 <= i < j < all.len() implies path_no_later(
        (#[trigger] all[i]).path,
        (#[trigger] all[j]).path,
    ) by {
        assert(le(all[i], all[j]));
    }
    assert(hits.no_duplicates()) by {
        assert forall|i: int, j: int|
            0 <= i < hits.len() && 0 <= j < hits.len() && i != j implies hits[i] != hits[j] by {
            if i < j {
                assert(components(hits[i].path) != components(hits[j].path));
            } else {
                assert(components(hits[j].path) != components(hits[i].path));
            }
        }
    }
    hits.lemma_multiset_has_no_duplicates();
    all.lemma_multiset_has_no_duplicates_conv();
    hits.to_multiset_ensures();
    all.to_multiset_ensures();
    assert forall|i: int, j: int| 0 <= i < j < all.len() implies components((#[trigger] all[i]).path)
        != components((#[trigger] all[j]).path) by {
        assert(all.contains(all[i]) && all.contains(all[j]));
        assert(hits.to_multiset().count(all[i]) > 0 && hits.to_multiset().count(all[j]) > 0);
        let k = choose|k: int| 0 <= k < hits.len() && hits[k] == all[i];
        let l = choose|l: int| 0 <= l < hits.len() && hits[l] == all[j];
        assert(all[i] != all[j]);
        if k < l {
            assert(components(hits[k].path) != components(hits[l].path));
        } else {
            assert(components(hits[l].path) != components(hits[k].path));
        }
    }
}

/// An entry that a walk met, with what reading it gave, where it was read.
#[verifier::ext_equal]
pub struct Met {
    pub is_file: bool,
    pub passes: bool,
    pub inside: bool,
    pub read: CollectView,
}

/// The answer of an entry that a walk met: none where it was passed by.
pub open spec fn met_answer(m: Met) -> Option<HitView> {
    if visited(m.is_file, m.passes, m.inside) == Visit::Skip {
        None
    } else {
        file_answer(m.read)
    }
}

/// The answers of the entries that a walk met.
pub open spec fn found(met: Seq<Met>) -> Seq<HitView>
    decreases met.len(),
{
    if met.len() == 0 {
        seq![]
    } else {
        match met_answer(met.last()) {
            Some(h) => found(met.drop_last()).push(h),
            None => found(met.drop_last()),
        }
    }
}

proof fn found_from(met: Seq<Met>, h: HitView)
    ensures
        found(met).contains(h) == (exists|k: int|
            0 <= k < met.len() && met_answer(#[trigger] met[k]) == Some(h)),
    decreases met.len(),
{
    if met.len() > 0 {
        let before = met.drop_last();
        found_from(before, h);
        let last = met.len() - 1;
        assert(forall|k: int| 0 <= k < last ==> #[trigger] met[k] == before[k]);
        if met_answer(met[last]) == Some(h) {
            assert(found(met)[found(met).len() - 1] == h);
        }
        if found(before).contains(h) {
            let at = choose|at: int| 0 <= at < found(before).len() && found(before)[at] == h;
            assert(found(met)[at] == h);
            let k = choose|k: int| 0 <= k < before.len() && met_answer(#[trigger] before[k]) == Some(h);
            assert(met_answer(met[k]) == Some(h));
        }
        if found(met).contains(h) && met_answer(met[last]) != Some(h) {
            let at = choose|at: int| 0 <= at < found(met).len() && found(met)[at] == h;
            assert(at < found(before).len());
            assert(found(before)[at] == h);
        }
    }
}

/// What a walk found are the files that pass the filters and have a match, each as
/// often as it was met, so once where no file was met twice.
pub proof fn a_walk_finds_what_matches(met: Seq<Met>, h: HitView)
    requires
        forall|i: int, j: int|
            0 <= i < j < met.len() ==> components((#[trigger] met[i]).read.path) != components(
                (#[trigger] met[j]).read.path,
            ),
    ensures
        found_once(found(met)),
        found(met).contains(h) == (exists|k: int|
            0 <= k < met.len() && (#[trigger] met[k]).is_file && met[k].passes && met[k].read.count
                > 0 && h == (HitView {
                path: met[k].read.path,
                count: met[k].read.count,
                lines: met[k].read.lines,
            })),
    decreases met.len(),
{
    found_from(met, h);
    if found(met).contains(h) {
        let k = choose|k: int| 0 <= k < met.len() && met_answer(#[trigger] met[k]) == Some(h);
        assert(met[k].is_file && met[k].passes && met[k].read.count > 0);
    }
    if met.len() > 0 {
        let before = met.drop_last();
        let last = met.len() - 1;
        assert(forall|k: int| 0 <= k < last ==> #[trigger] met[k] == before[k]);
        a_walk_finds_what_matches(before, h);
        if let Some(new) = met_answer(met[last]) {
            assert forall|i: int, j: int| 0 <= i < j < found(met).len() implies components(
                (#[trigger] found(met)[i]).path,
            ) != components((#[trigger] found(met)[j]).path) by {
                let early = found(met)[i];
                assert(found(before)[i] == early);
                if j < found(before).len() {
                    assert(found(before)[j] == found(met)[j]);
                } else {
                    assert(found(before).contains(early));
                    found_from(before, early);
                    let k = choose|k: int|
                        0 <= k < before.len() && met_answer(#[trigger] before[k]) == Some(early);
                    assert(met[k] == before[k]);
                    assert(components(met[k].read.path) != components(met[last].read.path));
                }
            }
        }
    }
}

/// A file without a match has no answer, and one with a match does.
pub proof fn every_match_counts(c: CollectView, line: Option<u64>, lines: Seq<Vec<u8>>)
    ensures
        after_match(c, line, lines).count > 0,
{
    pushing_keeps_the_count(
        CollectView {
            count: if c.count < usize::MAX {
                (c.count + 1) as usize
            } else {
                c.count
            },
            ..c
        },
        line,
        lines,
        lines.len() as int,
    );
}

proof fn pushing_keeps_the_count(c: CollectView, line: Option<u64>, lines: Seq<Vec<u8>>, n: int)
    ensures
        pushed_all(c, line, lines, n).count == c.count,
    decreases n,
{
    if n > 0 && n <= lines.len() {
        pushing_keeps_the_count(c, line, lines, n - 1);
    }
}

/// How many matches some files have between them.
pub open spec fn matches_in(hits: Seq<HitView>) -> int {
    hits.fold_left(0int, |n: int, h: HitView| n + h.count)
}

/// The lines of some files, file by file.
pub open spec fn lines_in(hits: Seq<HitView>) -> Seq<Seq<char>> {
    Seq::new(hits.len(), |i: int| hits[i].lines).flatten()
}

proof fn matches_in_cons(hits: Seq<HitView>)
    requires
        hits.len() > 0,
    ensures
        matches_in(hits) == hits[0].count + matches_in(hits.skip(1)),
    decreases hits.len(),
{
    let f = |n: int, h: HitView| n + h.count;
    let front = hits.drop_last();
    assert(matches_in(hits) == matches_in(front) + hits.last().count);
    if front.len() == 0 {
        assert(hits.skip(1) =~= seq![]);
        assert(matches_in(front) == 0);
        assert(matches_in(hits.skip(1)) == 0);
    } else {
        matches_in_cons(front);
        assert(hits.skip(1).drop_last() =~= front.skip(1));
        assert(hits.skip(1).last() == hits.last());
        assert(matches_in(hits.skip(1)) == matches_in(front.skip(1)) + hits.last().count);
    }
}

proof fn lines_in_cons(hits: Seq<HitView>)
    requires
        hits.len() > 0,
    ensures
        lines_in(hits) == hits[0].lines + lines_in(hits.skip(1)),
{
    let all = Seq::new(hits.len(), |i: int| hits[i].lines);
    let rest = hits.skip(1);
    assert(all.drop_first() =~= Seq::new(rest.len(), |i: int| rest[i].lines));
}

proof fn content_is_the_first_files(hits: Seq<HitView>, head_limit: int, entries: int, k: int)
    requires
        0 <= k <= hits.len(),
        forall|j: int| 0 <= j < k ==> entries + matches_in(#[trigger] hits.take(j)) < head_limit,
        k == hits.len() || entries + matches_in(hits.take(k)) >= head_limit,
    ensures
        rendered(hits, Mode::Content, head_limit, entries) == lines_in(hits.take(k)),
    decreases hits.len(),
{
    assert(hits.take(0) =~= seq![]);
    assert(matches_in(hits.take(0)) == 0);
    if k == 0 {
        assert(lines_in(hits.take(0)) =~= seq![]);
    } else {
        let rest = hits.skip(1);
        let first = hits.take(k);
        let now = entries + hits[0].count;
        assert(entries + matches_in(hits.take(0)) < head_limit);
        assert forall|j: int| 0 <= j < k - 1 implies now + matches_in(#[trigger] rest.take(j))
            < head_limit by {
            let longer = hits.take(j + 1);
            matches_in_cons(longer);
            assert(longer.skip(1) =~= rest.take(j));
            assert(longer[0] == hits[0]);
        }
        matches_in_cons(first);
        lines_in_cons(first);
        assert(first.skip(1) =~= rest.take(k - 1));
        content_is_the_first_files(rest, head_limit, now, k - 1);
    }
}

/// In the content mode whole files are shown, by ascending path, until the limit of
/// matches is reached: the first `k` files, the least number that have as many matches
/// as the limit between them, or all of them where all have fewer.
pub proof fn content_is_shown_up_to_the_limit(
    pattern: Seq<char>,
    search_path: Seq<char>,
    hits: Seq<HitView>,
    head_limit: int,
    k: int,
)
    requires
        hits.len() > 0,
        0 <= k <= hits.len(),
        forall|j: int|
            0 <= j < k ==> matches_in(#[trigger] sorted_by(hits, by_path()).take(j)) < head_limit,
        k == hits.len() || matches_in(sorted_by(hits, by_path()).take(k)) >= head_limit,
    ensures
        search_answer(pattern, search_path, hits, Mode::Content, head_limit).content == join(
            lines_in(sorted_by(hits, by_path()).take(k)),
            seq!['\n'],
        ),
        !search_answer(pattern, search_path, hits, Mode::Content, head_limit).is_error,
{
    reveal_strlit("\n");
    assert("\n"@ =~= seq!['\n']);
    by_path_is_an_order();
    sorting_by_orders(hits, by_path());
    content_is_the_first_files(sorted_by(hits, by_path()), head_limit, 0, k);
}

/// Where the files have no more matches between them than the limit, every line of
/// every file that matched is shown.
pub proof fn nothing_is_left_out_below_the_limit(
    pattern: Seq<char>,
    search_path: Seq<char>,
    hits: Seq<HitView>,
    head_limit: int,
)
    requires
        hits.len() > 0,
        forall|i: int| 0 <= i < hits.len() ==> (#[trigger] hits[i]).count > 0,
        matches_in(sorted_by(hits, by_path())) <= head_limit,
    ensures
        search_answer(pattern, search_path, hits, Mode::Content, head_limit).content == join(
            lines_in(sorted_by(hits, by_path())),
            seq!['\n'],
        ),
{
    let all = sorted_by(hits, by_path());
    by_path_is_an_order();
    sorting_by_orders(hits, by_path());
    hits.to_multiset_ensures();
    all.to_multiset_ensures();
    assert forall|i: int| 0 <= i < all.len() implies (#[trigger] all[i]).count > 0 by {
        assert(all.contains(all[i]));
        assert(hits.to_multiset().count(all[i]) > 0);
        let m = choose|m: int| 0 <= m < hits.len() && hits[m] == all[i];
        assert(hits[m].count > 0);
    }
    assert forall|j: int| 0 <= j < all.len() implies matches_in(#[trigger] all.take(j))
        < head_limit by {
        fewer_files_match_less(all, j);
    }
    assert(all.take(all.len() as int) =~= all);
    content_is_shown_up_to_the_limit(pattern, search_path, hits, head_limit, hits.len() as int);
}

proof fn fewer_files_match_less(hits: Seq<HitView>, j: int)
    requires
        0 <= j < hits.len(),
        forall|i: int| 0 <= i < hits.len() ==> (#[trigger] hits[i]).count > 0,
    ensures
        matches_in(hits.take(j)) < matches_in(hits),
    decreases hits.len(),
{
    let front = hits.drop_last();
    assert(matches_in(hits) == matches_in(front) + hits.last().count);
    assert(hits[hits.len() - 1].count > 0);
    if j < front.len() {
        assert forall|i: int| 0 <= i < front.len() implies (#[trigger] front[i]).count > 0 by {
            assert(hits[i].count > 0);
        }
        fewer_files_match_less(front, j);
        assert(front.take(j) =~= hits.take(j));
    } else {
        assert(front =~= hits.take(j));
    }
}

/// A listing names its files, and where they are counted, how many matches each has:
/// one line to a file, by ascending path, as many as the limit allows.
pub proof fn a_listing_names_its_files(
    pattern: Seq<char>,
    search_path: Seq<char>,
    hits: Seq<HitView>,
    head_limit: int,
    n: nat,
)
    requires
        hits.len() > 0,
        head_limit >= 0,
        n == (if head_limit < hits.len() {
            head_limit
        } else {
            hits.len() as int
        }),
    ensures
        search_answer(pattern, search_path, hits, Mode::FilesWithMatches, head_limit).content
            == join(Seq::new(n, |i: int| sorted_by(hits, by_path())[i].path), seq!['\n']),
        search_answer(pattern, search_path, hits, Mode::Count, head_limit).content == join(
            Seq::new(
                n,
                |i: int|
                    sorted_by(hits, by_path())[i].path + seq![':'] + decimal(
                        sorted_by(hits, by_path())[i].count as nat,
                    ),
            ),
            seq!['\n'],
        ),
{
    reveal_strlit("\n");
    reveal_strlit(":");
    assert("\n"@ =~= seq!['\n']);
    assert(":"@ =~= seq![':']);
    let all = sorted_by(hits, by_path());
    by_path_is_an_order();
    sorting_by_orders(hits, by_path());
    summaries_are_the_first(all, Mode::FilesWithMatches, head_limit, 0);
    summaries_are_the_first(all, Mode::Count, head_limit, 0);
    assert(first_summaries(all, Mode::FilesWithMatches, head_limit) =~= Seq::new(
        n,
        |i: int| all[i].path,
    ));
    assert(first_summaries(all, Mode::Count, head_limit) =~= Seq::new(
        n,
        |i: int| all[i].path + seq![':'] + decimal(all[i].count as nat),
    ));
}

proof fn numbers_follow(number: u64, k: int)
    requires
        k >= 0,
        number + k <= u64::MAX,
    ensures
        number_after(Some(number), k) == Some((number + k) as u64),
    decreases k,
{
    if k > 0 {
        numbers_follow(number, k - 1);
    }
}

proof fn unnumbered_stays(k: int)
    ensures
        number_after(None, k) is None,
    decreases k,
{
    if k > 0 {
        unnumbered_stays(k - 1);
    }
}

/// A text without the line ends behind it is the text up to where only line ends
/// follow.
pub proof fn only_line_ends_are_cut(s: Seq<char>)
    ensures
        without_eol(s).len() <= s.len(),
        without_eol(s) == s.take(without_eol(s).len() as int),
        forall|i: int|
            without_eol(s).len() <= i < s.len() ==> (#[trigger] s[i] == '\n' || s[i] == '\r'),
        without_eol(s).len() > 0 ==> without_eol(s).last() != '\n' && without_eol(s).last() != '\r',
    decreases s.len(),
{
    if s.len() > 0 && (s.last() == '\n' || s.last() == '\r') {
        let front = s.drop_last();
        only_line_ends_are_cut(front);
        assert(front.take(without_eol(s).len() as int) =~= s.take(without_eol(s).len() as int));
        assert forall|i: int| without_eol(s).len() <= i < s.len() implies (#[trigger] s[i] == '\n'
            || s[i] == '\r') by {
            if i < front.len() {
                assert(front[i] == s[i]);
            }
        }
    } else {
        assert(s.take(s.len() as int) =~= s);
    }
}

proof fn match_lines(c: CollectView, number: Option<u64>, lines: Seq<Vec<u8>>, n: int)
    requires
        0 <= n <= lines.len(),
        c.mode == Mode::Content,
    ensures
        pushed_all(c, number, lines, n) == (CollectView {
            lines: c.lines + Seq::new(
                n as nat,
                |i: int|
                    shown_line(
                        c.path,
                        c.show_line_numbers,
                        number_after(number, i),
                        lines[i]@,
                    ),
            ),
            ..c
        }),
    decreases n,
{
    if n > 0 {
        match_lines(c, number, lines, n - 1);
        let before = pushed_all(c, number, lines, n - 1);
        let after = pushed_all(c, number, lines, n);
        assert(after.lines =~= c.lines + Seq::new(
            n as nat,
            |i: int|
                shown_line(c.path, c.show_line_numbers, number_after(number, i), lines[i]@),
        ));
        assert(after =~= CollectView { lines: after.lines, ..c });
    } else {
        assert(c.lines + Seq::new(
            0,
            |i: int|
                shown_line(c.path, c.show_line_numbers, number_after(number, i), lines[i]@),
        ) =~= c.lines);
    }
}

/// A match counts once. In the content mode it adds its lines, in order, each with its
/// file and, where numbers are shown, its own number, one more than that of the line
/// before it; in the other modes it adds none.
pub proof fn a_match_adds_its_lines(
    c: CollectView,
    number: u64,
    lines: Seq<Vec<u8>>,
    after: CollectView,
)
    requires
        number + lines.len() <= u64::MAX,
        c.count < usize::MAX,
        after == after_match(c, Some(number), lines),
    ensures
        after.count == c.count + 1,
        after.path == c.path && after.mode == c.mode && after.show_line_numbers
            == c.show_line_numbers,
        c.mode != Mode::Content ==> after.lines == c.lines,
        c.mode == Mode::Content ==> after.lines.len() == c.lines.len() + lines.len(),
        c.mode == Mode::Content ==> after.lines.take(c.lines.len() as int) == c.lines,
        c.mode == Mode::Content ==> forall|i: int|
            0 <= i < lines.len() ==> #[trigger] after.lines[c.lines.len() + i] == c.path + seq![':']
                + (if c.show_line_numbers {
                decimal((number + i) as nat) + seq![':']
            } else {
                seq![]
            }) + without_eol(utf8_lossy(lines[i]@)),
{
    reveal_strlit(":");
    assert(":"@ =~= seq![':']);
    let counted = CollectView { count: (c.count + 1) as usize, ..c };
    if c.mode == Mode::Content {
        match_lines(counted, Some(number), lines, lines.len() as int);
        assert(after.lines.take(c.lines.len() as int) =~= c.lines);
        assert forall|i: int| 0 <= i < lines.len() implies #[trigger] after.lines[c.lines.len() + i]
            == c.path + seq![':'] + (if c.show_line_numbers {
            decimal((number + i) as nat) + seq![':']
        } else {
            seq![]
        }) + without_eol(utf8_lossy(lines[i]@)) by {
            numbers_follow(number, i);
            let shown = shown_line(
                c.path,
                c.show_line_numbers,
                Some((number + i) as u64),
                lines[i]@,
            );
            assert(after.lines[c.lines.len() + i] == shown);
            if c.show_line_numbers {
                assert(shown =~= c.path + seq![':'] + (decimal((number + i) as nat) + seq![':'])
                    + without_eol(utf8_lossy(lines[i]@)));
            } else {
                assert(shown =~= c.path + seq![':'] + seq![] + without_eol(
                    utf8_lossy(lines[i]@),
                ));
            }
        }
    } else {
        summaries_keep_no_lines(counted, Some(number), lines, lines.len() as int);
    }
}

proof fn summaries_keep_no_lines(
    c: CollectView,
    number: Option<u64>,
    lines: Seq<Vec<u8>>,
    n: int,
)
    requires
        c.mode != Mode::Content,
    ensures
        pushed_all(c, number, lines, n) == c,
    decreases n,
{
    if n > 0 && n <= lines.len() {
        summaries_keep_no_lines(c, number, lines, n - 1);
    }
}

/// The content of one named file is shown without its name, line by line.
pub proof fn a_single_file_is_shown_without_its_name(h: HitView, rest: Seq<Seq<char>>)
    requires
        rest.len() == h.lines.len(),
        forall|i: int|
            0 <= i < rest.len() ==> #[trigger] h.lines[i] == h.path + seq![':'] + rest[i],
    ensures
        rendered_single(h, Mode::Content) == join(rest, seq!['\n']),
{
    reveal_strlit("\n");
    reveal_strlit(":");
    assert("\n"@ =~= seq!['\n']);
    assert(":"@ =~= seq![':']);
    let prefix = h.path + ":"@;
    assert forall|i: int| 0 <= i < rest.len() implies without_path(#[trigger] h.lines[i], h.path)
        == rest[i] by {
        assert(h.lines[i].subrange(0, prefix.len() as int) =~= prefix);
        assert(h.lines[i].skip(prefix.len() as int) =~= rest[i]);
    }
    assert(Seq::new(h.lines.len(), |i: int| without_path(h.lines[i], h.path)) =~= rest);
}

/// A line around a match is shown like one of the match, but counts for nothing.
pub proof fn a_line_around_a_match_counts_for_nothing(
    c: CollectView,
    number: Option<u64>,
    bytes: Seq<u8>,
)
    ensures
        pushed(c, number, bytes).count == c.count,
        c.mode != Mode::Content ==> pushed(c, number, bytes) == c,
        c.mode == Mode::Content && c.show_line_numbers && number is Some ==> pushed(
            c,
            number,
            bytes,
        ).lines == c.lines.push(
            c.path + seq![':'] + decimal(number->0 as nat) + seq![':'] + without_eol(
                utf8_lossy(bytes),
            ),
        ),
        c.mode == Mode::Content && !c.show_line_numbers ==> pushed(c, number, bytes).lines
            == c.lines.push(c.path + seq![':'] + without_eol(utf8_lossy(bytes))),
{
    reveal_strlit(":");
    assert(":"@ =~= seq![':']);
}

/// The answers of a walk are those of the entries that answer, in the order met.
pub proof fn the_walk_keeps_its_order(met: Seq<Met>)
    ensures
        found(met) == met.filter(|m: Met| met_answer(m) is Some).map_values(
            |m: Met| met_answer(m)->0,
        ),
    decreases met.len(),
{
    let keep = |m: Met| met_answer(m) is Some;
    crate::text::kept_one_more(met, keep);
    if met.len() > 0 {
        the_walk_keeps_its_order(met.drop_last());
    }
    assert(found(met) =~= met.filter(keep).map_values(|m: Met| met_answer(m)->0));
}

/// A search lists files unless their lines or their counts are asked for.
pub proof fn a_mode_goes_by_its_name(value: Seq<char>)
    ensures
        mode_of(value) == Mode::Content <==> value == "content"@,
        mode_of(value) == Mode::Count <==> value == "count"@,
{
    reveal_strlit("content");
    reveal_strlit("count");
    assert("content"@.len() == 7 && "count"@.len() == 5);
}

/// An entry is passed over where it is no file or does not pass; one that does is
/// searched where it lies inside, and asked about where it does not.
pub proof fn what_becomes_of_an_entry(is_file: bool, passing: bool, inside: bool)
    ensures
        visited(is_file, passing, inside) == Visit::Skip <==> !(is_file && passing),
        visited(is_file, passing, inside) == Visit::Search <==> is_file && passing && inside,
        visited(is_file, passing, inside) == Visit::Defer <==> is_file && passing && !inside,
{
}

/// A file passes where its extension is one of those asked for, or none is, and the glob
/// has nothing against it.
pub proof fn what_passes_the_filters(path: Seq<char>, exts: Seq<Seq<char>>, ext: Seq<char>)
    ensures
        passes(path, seq![], None),
        passes(path, seq![], Some(true)),
        !passes(path, exts, Some(false)),
        path_extension(path) == Some(ext) && exts.contains(ext) ==> passes(path, exts, None),
        path_extension(path) == Some(ext) && exts.len() > 0 && !exts.contains(ext) ==> !passes(
            path,
            exts,
            None,
        ),
        path_extension(path) is None && exts.len() > 0 && !exts.contains(Seq::<char>::empty())
            ==> !passes(path, exts, None),
{
}

} // verus!
