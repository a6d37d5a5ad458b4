//! Supervising long-lived processes.
//!
//! A named process is started, watched, read, stopped, restarted, and written
//! to. The name is the handle. Output is kept in a bounded buffer, so a chatty
//! process cannot grow without limit.
use vstd::prelude::*;
use crate::text::{
    chars_of, contains, copy_strings, decimal, has, index_of, index_of_bounds, index_of_is, join,
    join_with, kept_one_more, number, opt_view, quote, quoted, same, string_of, trim_prefixes, unprefixed, views, views_push,
};
use crate::{said, PermissionLevel, ResultView, ToolResult};

verus! {

/// The most log lines one process keeps. Old lines fall off the front, so a
/// process that runs for days costs a bounded amount of memory.
pub const MAX_LOG_LINES: usize = 5000;

/// How many seconds a start waits for its marker before giving up on it.
pub const READY_TIMEOUT: u64 = 20;

pub struct HubTool;

impl HubTool {
    pub fn name(&self) -> (out: &'static str)
        ensures
            out@ == "hub"@,
    {
        "hub"
    }

    /// Starts and signals arbitrary processes; the same level as the shell.
    pub fn permission_level(&self) -> (out: PermissionLevel)
        ensures
            out == PermissionLevel::Execute,
    {
        PermissionLevel::Execute
    }
}

/// What the tool's caller gives.
#[derive(Debug)]
pub struct HubInput {
    /// One of start, ps, logs, stop, restart, send.
    pub op: String,
    /// The process name most ops act on.
    pub name: Option<String>,
    /// start: the program to run.
    pub application: Option<String>,
    /// start: its arguments.
    pub args: Option<Vec<String>>,
    /// start: environment variables to add, as `["KEY=value", ...]`.
    pub env: Option<Vec<String>>,
    /// start: the working directory.
    pub cwd: Option<String>,
    /// start: a substring to wait for in the output before returning.
    pub ready: Option<String>,
    /// logs: return only the last N lines.
    pub lines: Option<usize>,
    /// logs: return the first N lines instead of the last.
    pub head: Option<usize>,
    /// logs: return only lines containing this substring.
    pub grep: Option<String>,
    /// logs: skip this many lines from the start of the window.
    pub cursor: Option<usize>,
    /// send: a line to write to the process's stdin.
    pub input: Option<String>,
    /// send: a signal name (unix), for example `TERM` or `HUP`.
    pub signal: Option<String>,
}

/// What is asked of the tool.
#[derive(Debug, PartialEq, Eq, Clone, Copy, Structural)]
pub enum HubOp {
    Start,
    Ps,
    Logs,
    Stop,
    Restart,
    Send,
}

/// The op a name stands for.
pub open spec fn op_of(name: Seq<char>) -> Option<HubOp> {
    if name == "start"@ {
        Some(HubOp::Start)
    } else if name == "ps"@ {
        Some(HubOp::Ps)
    } else if name == "logs"@ {
        Some(HubOp::Logs)
    } else if name == "stop"@ {
        Some(HubOp::Stop)
    } else if name == "restart"@ {
        Some(HubOp::Restart)
    } else if name == "send"@ {
        Some(HubOp::Send)
    } else {
        None
    }
}

/// Read the op, or say that it is none.
pub fn read_op(name: &str) -> (r: Result<HubOp, ToolResult>)
    ensures
        match r {
            Ok(op) => op_of(name@) == Some(op),
            Err(e) => op_of(name@) is None && e@ == said(
                "unknown op "@ + quoted(name@)
                    + "; use start, ps, logs, stop, restart or send"@,
                true,
            ),
        },
{
    if same(name, "start") {
        Ok(HubOp::Start)
    } else if same(name, "ps") {
        Ok(HubOp::Ps)
    } else if same(name, "logs") {
        Ok(HubOp::Logs)
    } else if same(name, "stop") {
        Ok(HubOp::Stop)
    } else if same(name, "restart") {
        Ok(HubOp::Restart)
    } else if same(name, "send") {
        Ok(HubOp::Send)
    } else {
        let mut e = "unknown op ".to_string();
        let shown = quote(name);
        e.push_str(&shown);
        e.push_str("; use start, ps, logs, stop, restart or send");
        Err(ToolResult::error(e))
    }
}

// ---------------------------------------------------------------------------
// Starting
// ---------------------------------------------------------------------------

/// The variable that a `KEY=value` names, up to its first equals sign.
pub open spec fn env_pair(entry: Seq<char>) -> Option<(Seq<char>, Seq<char>)> {
    let n = index_of(entry, '=');
    if 0 <= n < entry.len() {
        Some((entry.take(n), entry.skip(n + 1)))
    } else {
        None
    }
}

/// The variables that the first `n` entries name, dropping those with no equals sign.
pub open spec fn env_pairs(entries: Seq<Seq<char>>, n: int) -> Seq<(Seq<char>, Seq<char>)>
    decreases n,
{
    if n <= 0 || n > entries.len() {
        seq![]
    } else {
        match env_pair(entries[n - 1]) {
            Some(pair) => env_pairs(entries, n - 1).push(pair),
            None => env_pairs(entries, n - 1),
        }
    }
}

/// What some pairs hold.
pub open spec fn pair_views(v: Seq<(String, String)>) -> Seq<(Seq<char>, Seq<char>)> {
    Seq::new(v.len(), |i: int| (v[i].0@, v[i].1@))
}

/// The entries of an optional list.
pub open spec fn entries_of(env: Option<Vec<String>>) -> Seq<Seq<char>> {
    match env {
        Some(v) => views(v@),
        None => seq![],
    }
}

fn split_pair(entry: &str) -> (r: Option<(String, String)>)
    ensures
        match r {
            Some(p) => env_pair(entry@) == Some((p.0@, p.1@)),
            None => env_pair(entry@) is None,
        },
{
    let x = chars_of(entry);
    let mut i: usize = 0;
    while i < x.len()
        invariant
            i <= x@.len(),
            x@ == entry@,
            forall|k: int| 0 <= k < i ==> x@[k] != '=',
        decreases x.len() - i,
    {
        if x[i] == '=' {
            proof {
                crate::text::index_of_is(entry@, '=', i as int);
            }
            let key = string_of(&x, 0, i);
            let value = string_of(&x, i + 1, x.len());
            assert(key@ =~= entry@.take(i as int));
            assert(value@ =~= entry@.skip(i + 1));
            return Some((key, value));
        }
        i += 1;
    }
    proof {
        crate::text::index_of_bounds(entry@, '=');
        if 0 <= index_of(entry@, '=') < entry@.len() {
            assert(x@[index_of(entry@, '=')] != '=');
        }
    }
    None
}

/// Turn `["KEY=value", ...]` into pairs, dropping entries with no `=`.
pub fn parse_env(env: &Option<Vec<String>>) -> (out: Vec<(String, String)>)
    ensures
        pair_views(out@) == env_pairs(entries_of(*env), entries_of(*env).len() as int),
{
    let mut out: Vec<(String, String)> = Vec::new();
    let entries = match env {
        Some(v) => v,
        None => {
            assert(pair_views(out@) =~= seq![]);
            return out;
        },
    };
    let ghost model = views(entries@);
    let mut i: usize = 0;
    assert(pair_views(out@) =~= seq![]);
    while i < entries.len()
        invariant
            i <= entries@.len(),
            model == views(entries@),
            pair_views(out@) == env_pairs(model, i as int),
        decreases entries.len() - i,
    {
        assert(model[i as int] == entries@[i as int]@);
        if let Some(pair) = split_pair(&entries[i]) {
            let ghost before = pair_views(out@);
            out.push(pair);
            assert(pair_views(out@) =~= before.push((pair.0@, pair.1@)));
        }
        i += 1;
    }
    out
}

/// What a process is started from, kept so `restart` can repeat it exactly.
#[derive(Debug)]
pub struct Spec {
    pub application: String,
    pub args: Vec<String>,
    pub env: Vec<(String, String)>,
    pub cwd: Option<String>,
}

/// What a [`Spec`] says.
#[verifier::ext_equal]
pub struct SpecView {
    pub application: Seq<char>,
    pub args: Seq<Seq<char>>,
    pub env: Seq<(Seq<char>, Seq<char>)>,
    pub cwd: Option<Seq<char>>,
}

impl View for Spec {
    type V = SpecView;

    open spec fn view(&self) -> SpecView {
        SpecView {
            application: self.application@,
            args: views(self.args@),
            env: pair_views(self.env@),
            cwd: opt_view(self.cwd),
        }
    }
}

/// A list of pairs copied.
fn copy_pairs(v: &Vec<(String, String)>) -> (out: Vec<(String, String)>)
    ensures
        pair_views(out@) == pair_views(v@),
{
    let mut out: Vec<(String, String)> = Vec::new();
    let mut i: usize = 0;
    while i < v.len()
        invariant
            i <= v@.len(),
            out@.len() == i,
            forall|k: int|
                0 <= k < i ==> (#[trigger] out@[k]).0@ == v@[k].0@ && out@[k].1@ == v@[k].1@,
        decreases v.len() - i,
    {
        out.push((v[i].0.clone(), v[i].1.clone()));
        i += 1;
    }
    assert(pair_views(out@) =~= pair_views(v@));
    out
}

impl Spec {
    /// The same again.
    pub fn copy(&self) -> (out: Spec)
        ensures
            out@ == self@,
    {
        let cwd = match &self.cwd {
            Some(cwd) => Some(cwd.clone()),
            None => None,
        };
        Spec {
            application: self.application.clone(),
            args: copy_strings(&self.args),
            env: copy_pairs(&self.env),
            cwd,
        }
    }
}

/// A missing process is reported by name.
pub open spec fn no_process(name: Seq<char>) -> ResultView {
    said("no process named "@ + quoted(name), true)
}

/// What starting comes to: the name and what to run, or why nothing is run.
/// `running` says whether a process of that name runs.
pub open spec fn start_plan(i: HubInput, running: bool) -> Result<
    (Seq<char>, SpecView),
    ResultView,
> {
    match i.name {
        None => Err(said("start needs a name"@, true)),
        Some(name) => if running {
            Err(said("a process named "@ + quoted(name@) + " is already running"@, true))
        } else {
            match i.application {
                None => Err(said("start needs an application to run"@, true)),
                Some(application) => Ok(
                    (
                        name@,
                        SpecView {
                            application: application@,
                            args: entries_of(i.args),
                            env: env_pairs(entries_of(i.env), entries_of(i.env).len() as int),
                            cwd: opt_view(i.cwd),
                        },
                    ),
                ),
            }
        },
    }
}

/// Decide what is started.
pub fn plan_start(i: &HubInput, running: bool) -> (r: Result<(String, Spec), ToolResult>)
    ensures
        match r {
            Ok(p) => start_plan(*i, running) == Ok::<(Seq<char>, SpecView), ResultView>(
                (p.0@, p.1@),
            ),
            Err(e) => start_plan(*i, running) == Err::<(Seq<char>, SpecView), ResultView>(e@),
        },
{
    let name = match &i.name {
        Some(name) => name.clone(),
        None => {
            return Err(ToolResult::error("start needs a name".to_string()));
        },
    };
    if running {
        let mut e = "a process named ".to_string();
        let shown = quote(&name);
        e.push_str(&shown);
        e.push_str(" is already running");
        return Err(ToolResult::error(e));
    }
    let application = match &i.application {
        Some(application) => application.clone(),
        None => {
            return Err(ToolResult::error("start needs an application to run".to_string()));
        },
    };
    let args: Vec<String> = match &i.args {
        Some(args) => copy_strings(args),
        None => {
            let none: Vec<String> = Vec::new();
            assert(views(none@) =~= seq![]);
            none
        },
    };
    let cwd = match &i.cwd {
        Some(cwd) => Some(cwd.clone()),
        None => None,
    };
    Ok((name, Spec { application, args, env: parse_env(&i.env), cwd }))
}

/// What a process that could not be started is reported as.
pub fn unstarted(application: &str, cause: &str) -> (out: String)
    ensures
        out@ == "failed to start "@ + quoted(application@) + ": "@ + cause@,
{
    let mut out = "failed to start ".to_string();
    let shown = quote(application);
    out.push_str(&shown);
    out.push_str(": ");
    out.push_str(cause);
    out
}

/// A process as it is shown: its name, quoted, and its number.
pub open spec fn with_pid(what: Seq<char>, name: Seq<char>, pid: u32) -> Seq<char> {
    what + quoted(name) + " (pid "@ + decimal(pid as nat) + ")"@
}

fn with_pid_text(what: &str, name: &str, pid: u32) -> (out: String)
    ensures
        out@ == with_pid(what@, name@, pid),
{
    let mut out = what.to_string();
    let shown = quote(name);
    out.push_str(&shown);
    out.push_str(" (pid ");
    out.push_str(&number(pid as u64));
    out.push_str(")");
    out
}

/// Answer a start. `seen` says whether the marker that was waited for appeared.
pub fn started(name: &str, pid: u32, ready: &Option<String>, seen: bool) -> (r: ToolResult)
    ensures
        r@ == (match *ready {
            Some(marker) => if seen {
                said(with_pid("Started "@, name@, pid) + "."@, false)
            } else {
                said(
                    with_pid("process "@, name@, pid) + " did not print "@ + quoted(marker@)
                        + " within the timeout"@,
                    true,
                )
            },
            None => said(with_pid("Started "@, name@, pid) + "."@, false),
        }),
{
    if let Some(marker) = ready {
        if !seen {
            let mut out = with_pid_text("process ", name, pid);
            out.push_str(" did not print ");
            let shown = quote(marker);
            out.push_str(&shown);
            out.push_str(" within the timeout");
            return ToolResult::error(out);
        }
    }
    let mut out = with_pid_text("Started ", name, pid);
    out.push_str(".");
    ToolResult::success(out)
}

/// Whether a marker stands in one of the lines.
pub open spec fn announced(lines: Seq<Seq<char>>, marker: Seq<char>) -> bool {
    exists|i: int| 0 <= i < lines.len() && contains(#[trigger] lines[i], marker)
}

/// Whether a marker stands in one of the lines.
pub fn has_marker(lines: &Vec<String>, marker: &str) -> (r: bool)
    ensures
        r == announced(views(lines@), marker@),
{
    let ghost model = views(lines@);
    let mut i: usize = 0;
    while i < lines.len()
        invariant
            i <= lines@.len(),
            model == views(lines@),
            forall|k: int| 0 <= k < i ==> !contains(#[trigger] model[k], marker@),
        decreases lines.len() - i,
    {
        assert(model[i as int] == lines@[i as int]@);
        if has(&lines[i], marker) {
            return true;
        }
        i += 1;
    }
    false
}

/// What a wait for a marker does next.
#[derive(Debug, PartialEq, Eq, Clone, Copy, Structural)]
pub enum MarkerWait {
    Found,
    /// A last look, in case the marker and the exit raced.
    LastLook,
    Again,
}

/// Decide what a wait for a marker does next.
pub fn wait_for_marker(found: bool, overdue: bool, running: bool) -> (w: MarkerWait)
    ensures
        w == (if found {
            MarkerWait::Found
        } else if overdue || !running {
            MarkerWait::LastLook
        } else {
            MarkerWait::Again
        }),
{
    if found {
        MarkerWait::Found
    } else if overdue || !running {
        MarkerWait::LastLook
    } else {
        MarkerWait::Again
    }
}

// ---------------------------------------------------------------------------
// Reading
// ---------------------------------------------------------------------------

/// A supervised process as it is listed.
#[derive(Debug)]
pub struct Listed {
    pub name: String,
    pub running: bool,
    pub pid: Option<u32>,
}

/// One line of the list.
pub open spec fn listed_line(p: Listed) -> Seq<char> {
    p.name@ + "\t"@ + (if p.running {
        "running"@
    } else {
        "exited"@
    }) + "\tpid "@ + (match p.pid {
        Some(n) => decimal(n as nat),
        None => "?"@,
    })
}

/// Answer with the supervised processes and whether each is still running.
pub fn ps_report(all: &Vec<Listed>) -> (r: ToolResult)
    ensures
        r@ == (if all@.len() == 0 {
            said("No supervised processes."@, false)
        } else {
            said(join(Seq::new(all@.len(), |i: int| listed_line(all@[i])), "\n"@), false)
        }),
{
    if all.len() == 0 {
        return ToolResult::success("No supervised processes.".to_string());
    }
    let mut lines: Vec<String> = Vec::new();
    let mut i: usize = 0;
    while i < all.len()
        invariant
            i <= all@.len(),
            lines@.len() == i,
            forall|k: int| 0 <= k < i ==> (#[trigger] lines@[k])@ == listed_line(all@[k]),
        decreases all.len() - i,
    {
        let mut line = all[i].name.clone();
        line.push_str("\t");
        let state = if all[i].running {
            "running"
        } else {
            "exited"
        };
        line.push_str(state);
        line.push_str("\tpid ");
        let pid = match all[i].pid {
            Some(n) => number(n as u64),
            None => "?".to_string(),
        };
        line.push_str(&pid);
        lines.push(line);
        i += 1;
    }
    assert(views(lines@) =~= Seq::new(all@.len(), |i: int| listed_line(all@[i])));
    ToolResult::success(join_with(&lines, "\n"))
}

/// Those of the lines that hold the text; all where there is none to hold.
pub open spec fn matching(lines: Seq<Seq<char>>, grep: Option<Seq<char>>) -> Seq<Seq<char>>
    decreases lines.len(),
{
    if lines.len() == 0 {
        seq![]
    } else {
        let before = matching(lines.drop_last(), grep);
        match grep {
            Some(needle) => if contains(lines.last(), needle) {
                before.push(lines.last())
            } else {
                before
            },
            None => before.push(lines.last()),
        }
    }
}

/// The lines after those that the cursor skips.
pub open spec fn after_cursor(lines: Seq<Seq<char>>, cursor: Option<usize>) -> Seq<Seq<char>> {
    match cursor {
        Some(n) => if n < lines.len() {
            lines.skip(n as int)
        } else {
            seq![]
        },
        None => lines,
    }
}

/// The window of a log: the cursor skips from the front, the text to find keeps
/// only matching lines, then either the first lines or the last are taken. In
/// that order, so a search and a tail read the last matches, which is what a log
/// tail wants.
pub open spec fn window(
    lines: Seq<Seq<char>>,
    head: Option<usize>,
    tail: Option<usize>,
    grep: Option<Seq<char>>,
    cursor: Option<usize>,
) -> Seq<Seq<char>> {
    let matched = matching(after_cursor(lines, cursor), grep);
    match (head, tail) {
        (Some(n), _) => if n < matched.len() {
            matched.take(n as int)
        } else {
            matched
        },
        (None, Some(n)) => if n < matched.len() {
            matched.skip(matched.len() - n)
        } else {
            matched
        },
        (None, None) => matched,
    }
}

fn copy_range(lines: &Vec<String>, from: usize, to: usize) -> (out: Vec<String>)
    requires
        from <= to <= lines@.len(),
    ensures
        views(out@) == views(lines@).subrange(from as int, to as int),
{
    broadcast use views_push;

    let ghost model = views(lines@);
    let mut out: Vec<String> = Vec::new();
    let mut i: usize = from;
    assert(views(out@) =~= model.subrange(from as int, from as int));
    while i < to
        invariant
            from <= i <= to <= lines@.len(),
            model == views(lines@),
            views(out@) == model.subrange(from as int, i as int),
        decreases to - i,
    {
        out.push(lines[i].clone());
        assert(model.subrange(from as int, i + 1) =~= model.subrange(from as int, i as int).push(
            lines@[i as int]@,
        ));
        i += 1;
    }
    out
}

/// The window `logs` returns, applied purely to a snapshot of the lines.
pub fn log_window(
    lines: &Vec<String>,
    head: Option<usize>,
    tail: Option<usize>,
    grep: &Option<String>,
    cursor: Option<usize>,
) -> (out: Vec<String>)
    ensures
        views(out@) == window(views(lines@), head, tail, opt_view(*grep), cursor),
{
    broadcast use views_push;

    let ghost model = views(lines@);
    let ghost rest = after_cursor(model, cursor);
    let start: usize = match cursor {
        Some(n) => if n < lines.len() {
            n
        } else {
            lines.len()
        },
        None => 0,
    };
    assert(rest =~= model.skip(start as int));
    let mut matched: Vec<String> = Vec::new();
    let mut i: usize = start;
    assert(rest.take(0) =~= seq![]);
    assert(views(matched@) =~= seq![]);
    while i < lines.len()
        invariant
            start <= i <= lines@.len(),
            model == views(lines@),
            rest == model.skip(start as int),
            views(matched@) == matching(rest.take(i - start), opt_view(*grep)),
        decreases lines.len() - i,
    {
        assert(rest.take(i - start + 1).drop_last() =~= rest.take(i - start));
        assert(rest.take(i - start + 1).last() == lines@[i as int]@);
        let keep = match grep {
            Some(needle) => has(&lines[i], needle),
            None => true,
        };
        if keep {
            matched.push(lines[i].clone());
        }
        i += 1;
    }
    assert(rest.take(rest.len() as int) =~= rest);
    let ghost found = views(matched@);
    assert(found.len() == matched@.len());
    let total: usize = matched.len();
    if let Some(n) = head {
        if n < total {
            assert(found.subrange(0, n as int) =~= found.take(n as int));
            return copy_range(&matched, 0, n);
        }
        return matched;
    }
    if let Some(n) = tail {
        if n < total {
            assert(found.subrange(total - n, total as int) =~= found.skip(total - n));
            return copy_range(&matched, total - n, total);
        }
    }
    matched
}

/// What reading a log answers; `lines` is none where there is no such process.
pub open spec fn logs_answer(i: HubInput, lines: Option<Seq<Seq<char>>>) -> ResultView {
    match i.name {
        None => said("logs needs a name"@, true),
        Some(name) => match lines {
            None => no_process(name@),
            Some(lines) => {
                let shown = window(lines, i.head, i.lines, opt_view(i.grep), i.cursor);
                if shown.len() == 0 {
                    said("(no matching output)"@, false)
                } else {
                    said(join(shown, "\n"@), false)
                }
            },
        },
    }
}

fn missing(name: &str) -> (r: ToolResult)
    ensures
        r@ == no_process(name@),
{
    let mut out = "no process named ".to_string();
    let shown = quote(name);
    out.push_str(&shown);
    ToolResult::error(out)
}

/// Answer with a window of a process's output.
pub fn logs_report(i: &HubInput, lines: &Option<Vec<String>>) -> (r: ToolResult)
    ensures
        r@ == logs_answer(
            *i,
            match *lines {
                Some(v) => Some(views(v@)),
                None => None,
            },
        ),
{
    let name = match &i.name {
        Some(name) => name,
        None => {
            return ToolResult::error("logs needs a name".to_string());
        },
    };
    let lines = match lines {
        Some(lines) => lines,
        None => {
            return missing(name);
        },
    };
    let shown = log_window(lines, i.head, i.lines, &i.grep, i.cursor);
    assert(views(shown@).len() == shown@.len());
    if shown.len() == 0 {
        ToolResult::success("(no matching output)".to_string())
    } else {
        ToolResult::success(join_with(&shown, "\n"))
    }
}

/// What a process printed last.
#[derive(Debug)]
pub struct LogBuffer {
    lines: Vec<String>,
}

/// The last of the lines, as many as one process keeps.
pub open spec fn kept(lines: Seq<Seq<char>>) -> Seq<Seq<char>> {
    if lines.len() > MAX_LOG_LINES {
        lines.skip(lines.len() - MAX_LOG_LINES)
    } else {
        lines
    }
}

impl LogBuffer {
    /// The lines that are kept.
    pub closed spec fn held(&self) -> Seq<Seq<char>> {
        views(self.lines@)
    }

    /// No more lines are kept than one process may keep.
    pub closed spec fn wf(&self) -> bool {
        self.lines@.len() <= MAX_LOG_LINES
    }

    /// An empty buffer.
    pub fn new() -> (b: LogBuffer)
        ensures
            b.wf(),
            b.held() == Seq::<Seq<char>>::empty(),
    {
        let b = LogBuffer { lines: Vec::new() };
        assert(b.held() =~= Seq::<Seq<char>>::empty());
        b
    }

    /// Keep one more line. Old lines fall off the front.
    pub fn push(&mut self, line: String)
        requires
            old(self).wf(),
        ensures
            final(self).wf(),
            final(self).held() == kept(old(self).held().push(line@)),
    {
        broadcast use views_push;

        self.lines.push(line);
        if self.lines.len() > MAX_LOG_LINES {
            let ghost before = views(self.lines@);
            let _ = self.lines.remove(0);
            assert(views(self.lines@) =~= before.skip(1));
        }
    }

    /// A copy of the lines that are kept.
    pub fn snapshot(&self) -> (out: Vec<String>)
        ensures
            views(out@) == self.held(),
    {
        copy_strings(&self.lines)
    }
}

/// The newest line is always kept, and never more lines than the limit.
pub proof fn the_newest_line_is_kept(lines: Seq<Seq<char>>, line: Seq<char>)
    ensures
        kept(lines.push(line)).len() <= MAX_LOG_LINES,
        kept(lines.push(line)).last() == line,
{
}

/// A tail never shows more lines than it asks for, and what it shows is the end
/// of what matched.
pub proof fn a_tail_is_the_end(
    lines: Seq<Seq<char>>,
    n: usize,
    grep: Option<Seq<char>>,
    cursor: Option<usize>,
)
    ensures
        window(lines, None, Some(n), grep, cursor).len() <= n,
        window(lines, None, Some(n), grep, cursor).is_suffix_of(
            matching(after_cursor(lines, cursor), grep),
        ),
{
    let matched = matching(after_cursor(lines, cursor), grep);
    let shown = window(lines, None, Some(n), grep, cursor);
    assert(shown =~= matched.subrange(
        matched.len() as int - shown.len() as int,
        matched.len() as int,
    ));
}

// ---------------------------------------------------------------------------
// Stopping, restarting, writing
// ---------------------------------------------------------------------------

/// The name an op acts on, or that it needs one.
pub fn required_name(i: &HubInput, op: &str) -> (r: Result<String, ToolResult>)
    ensures
        match (i.name, r) {
            (Some(name), Ok(out)) => out@ == name@,
            (None, Err(e)) => e@ == said(op@ + " needs a name"@, true),
            _ => false,
        },
{
    match &i.name {
        Some(name) => Ok(name.clone()),
        None => {
            let mut e = op.to_string();
            e.push_str(" needs a name");
            Err(ToolResult::error(e))
        },
    }
}

/// Answer a stop. `existed` says whether there was such a process.
pub fn stopped(name: &str, existed: bool) -> (r: ToolResult)
    ensures
        r@ == (if existed {
            said("Stopped "@ + quoted(name@) + "."@, false)
        } else {
            no_process(name@)
        }),
{
    if !existed {
        return missing(name);
    }
    let mut out = "Stopped ".to_string();
    let shown = quote(name);
    out.push_str(&shown);
    out.push_str(".");
    ToolResult::success(out)
}

/// Answer a restart: none where there was no such process, otherwise the new
/// process or why it did not start.
pub fn restarted(name: &str, outcome: &Option<Result<u32, String>>) -> (r: ToolResult)
    ensures
        r@ == (match *outcome {
            None => no_process(name@),
            Some(Ok(pid)) => said(with_pid("Restarted "@, name@, pid) + "."@, false),
            Some(Err(e)) => said(e@, true),
        }),
{
    match outcome {
        None => missing(name),
        Some(Ok(pid)) => {
            let mut out = with_pid_text("Restarted ", name, *pid);
            out.push_str(".");
            ToolResult::success(out)
        },
        Some(Err(e)) => ToolResult::error(e.clone()),
    }
}

/// What is sent to a process.
#[derive(Debug)]
pub enum SendPlan {
    Fail(ToolResult),
    Signal { name: String, signal: String },
    /// A line, with its line feed.
    Write { name: String, payload: String },
}

/// What a [`SendPlan`] says.
#[verifier::ext_equal]
pub enum SendView {
    Fail(ResultView),
    Signal { name: Seq<char>, signal: Seq<char> },
    Write { name: Seq<char>, payload: Seq<char> },
}

impl View for SendPlan {
    type V = SendView;

    open spec fn view(&self) -> SendView {
        match *self {
            SendPlan::Fail(r) => SendView::Fail(r@),
            SendPlan::Signal { name, signal } => SendView::Signal { name: name@, signal: signal@ },
            SendPlan::Write { name, payload } => SendView::Write {
                name: name@,
                payload: payload@,
            },
        }
    }
}

/// What is sent to a process: a signal where one is named, otherwise a line.
pub open spec fn send_plan(i: HubInput) -> SendView {
    match i.name {
        None => SendView::Fail(said("send needs a name"@, true)),
        Some(name) => match i.signal {
            Some(signal) => SendView::Signal { name: name@, signal: signal@ },
            None => match i.input {
                Some(line) => SendView::Write { name: name@, payload: line@ + "\n"@ },
                None => SendView::Fail(
                    said("send needs `input` to write or a `signal` to send"@, true),
                ),
            },
        },
    }
}

/// Decide what is sent to a process.
pub fn plan_send(i: &HubInput) -> (p: SendPlan)
    ensures
        p@ == send_plan(*i),
{
    let name = match &i.name {
        Some(name) => name.clone(),
        None => {
            return SendPlan::Fail(ToolResult::error("send needs a name".to_string()));
        },
    };
    if let Some(signal) = &i.signal {
        return SendPlan::Signal { name, signal: signal.clone() };
    }
    match &i.input {
        Some(line) => {
            let mut payload = line.clone();
            payload.push_str("\n");
            SendPlan::Write { name, payload }
        },
        None => SendPlan::Fail(
            ToolResult::error(
                "send needs `input` to write or a `signal` to send".to_string(),
            ),
        ),
    }
}

/// How writing to a process went.
#[derive(Debug)]
pub enum Written {
    NoProcess,
    NoStdin,
    Done,
    Failed(String),
}

/// Answer a write to a process.
pub fn written(name: &str, how: &Written) -> (r: ToolResult)
    ensures
        r@ == (match *how {
            Written::NoProcess => no_process(name@),
            Written::NoStdin => said("process "@ + quoted(name@) + " has no open stdin"@, true),
            Written::Done => said("Wrote to "@ + quoted(name@) + "."@, false),
            Written::Failed(e) => said("write to "@ + quoted(name@) + " failed: "@ + e@, true),
        }),
{
    let shown = quote(name);
    match how {
        Written::NoProcess => missing(name),
        Written::NoStdin => {
            let mut out = "process ".to_string();
            out.push_str(&shown);
            out.push_str(" has no open stdin");
            ToolResult::error(out)
        },
        Written::Done => {
            let mut out = "Wrote to ".to_string();
            out.push_str(&shown);
            out.push_str(".");
            ToolResult::success(out)
        },
        Written::Failed(e) => {
            let mut out = "write to ".to_string();
            out.push_str(&shown);
            out.push_str(" failed: ");
            out.push_str(e);
            ToolResult::error(out)
        },
    }
}

/// The signals worth sending to a child.
#[derive(Debug, PartialEq, Eq, Clone, Copy, Structural)]
pub enum Signal {
    Term,
    Kill,
    Int,
    Hup,
    Usr1,
    Usr2,
}

/// A character with a lower-case ASCII letter turned into the upper-case one.
pub open spec fn ascii_upper(c: char) -> char {
    if 'a' <= c <= 'z' {
        (c as int - 32) as char
    } else {
        c
    }
}

/// A text with its lower-case ASCII letters turned into upper-case ones.
pub open spec fn ascii_uppered(s: Seq<char>) -> Seq<char> {
    Seq::new(s.len(), |i: int| ascii_upper(s[i]))
}

fn upper_ascii(s: &str) -> (out: String)
    ensures
        out@ == ascii_uppered(s@),
{
    let x = chars_of(s);
    let ghost expected = ascii_uppered(s@);
    let mut out = String::new();
    let mut i: usize = 0;
    assert(expected.take(0) =~= seq![]);
    while i < x.len()
        invariant
            i <= x@.len(),
            x@ == s@,
            expected == ascii_uppered(s@),
            out@ == expected.take(i as int),
        decreases x.len() - i,
    {
        let c: char = x[i];
        let upper: char = if c >= 'a' && c <= 'z' {
            ((c as u32) as u8 - 32u8) as char
        } else {
            c
        };
        out.push(upper);
        assert(expected[i as int] == upper);
        assert(expected.take(i + 1) =~= expected.take(i as int).push(upper));
        i += 1;
    }
    assert(expected.take(expected.len() as int) =~= expected);
    out
}

/// The signal a name stands for, with or without its `SIG`, whatever its case.
pub open spec fn signal_of(name: Seq<char>) -> Option<Signal> {
    let bare = ascii_uppered(unprefixed(name, "SIG"@));
    if bare == "TERM"@ {
        Some(Signal::Term)
    } else if bare == "KILL"@ {
        Some(Signal::Kill)
    } else if bare == "INT"@ {
        Some(Signal::Int)
    } else if bare == "HUP"@ {
        Some(Signal::Hup)
    } else if bare == "USR1"@ {
        Some(Signal::Usr1)
    } else if bare == "USR2"@ {
        Some(Signal::Usr2)
    } else {
        None
    }
}

/// The signal a name stands for, for the handful worth sending to a child.
pub fn signal_from_name(signal: &str) -> (r: Option<Signal>)
    ensures
        r == signal_of(signal@),
{
    proof {
        reveal_strlit("SIG");
    }
    let bare = upper_ascii(&trim_prefixes(signal, "SIG"));
    if same(&bare, "TERM") {
        Some(Signal::Term)
    } else if same(&bare, "KILL") {
        Some(Signal::Kill)
    } else if same(&bare, "INT") {
        Some(Signal::Int)
    } else if same(&bare, "HUP") {
        Some(Signal::Hup)
    } else if same(&bare, "USR1") {
        Some(Signal::Usr1)
    } else if same(&bare, "USR2") {
        Some(Signal::Usr2)
    } else {
        None
    }
}

/// Which signal goes to which process, or why none does. `pid` is that of the
/// process with the name, where there is one; `unix` says whether the machine has
/// signals.
pub open spec fn signal_plan(
    name: Seq<char>,
    signal: Seq<char>,
    pid: Option<u32>,
    unix: bool,
) -> Result<(u32, Signal), ResultView> {
    if !unix {
        Err(said("signals are only supported on unix; use stop instead"@, true))
    } else {
        match (pid, signal_of(signal)) {
            (None, _) => Err(said("no running process named "@ + quoted(name), true)),
            (Some(_), None) => Err(said("unknown signal "@ + quoted(signal), true)),
            (Some(pid), Some(s)) => Ok((pid, s)),
        }
    }
}

/// Decide which signal goes to which process.
pub fn plan_signal(name: &str, signal: &str, pid: Option<u32>, unix: bool) -> (r: Result<
    (u32, Signal),
    ToolResult,
>)
    ensures
        match r {
            Ok(p) => signal_plan(name@, signal@, pid, unix) == Ok::<(u32, Signal), ResultView>(p),
            Err(e) => signal_plan(name@, signal@, pid, unix) == Err::<(u32, Signal), ResultView>(
                e@,
            ),
        },
{
    if !unix {
        return Err(
            ToolResult::error("signals are only supported on unix; use stop instead".to_string()),
        );
    }
    let pid: u32 = match pid {
        Some(pid) => pid,
        None => {
            let mut e = "no running process named ".to_string();
            let shown = quote(name);
            e.push_str(&shown);
            return Err(ToolResult::error(e));
        },
    };
    match signal_from_name(signal) {
        Some(s) => Ok((pid, s)),
        None => {
            let mut e = "unknown signal ".to_string();
            let shown = quote(signal);
            e.push_str(&shown);
            Err(ToolResult::error(e))
        },
    }
}

/// Answer a signal that was sent, or could not be.
pub fn signalled(name: &str, signal: &str, ok: bool) -> (r: ToolResult)
    ensures
        r@ == (if ok {
            said("Sent SIG"@ + signal@ + " to "@ + quoted(name@) + "."@, false)
        } else {
            said("failed to signal "@ + quoted(name@), true)
        }),
{
    let shown = quote(name);
    if ok {
        let mut out = "Sent SIG".to_string();
        out.push_str(signal);
        out.push_str(" to ");
        out.push_str(&shown);
        out.push_str(".");
        ToolResult::success(out)
    } else {
        let mut out = "failed to signal ".to_string();
        out.push_str(&shown);
        ToolResult::error(out)
    }
}

// ---------------------------------------------------------------------------
// The processes
// ---------------------------------------------------------------------------

/// One supervised process: what it was started from, its number where it has one,
/// and the task it is registered as.
#[derive(Debug)]
pub struct Supervised {
    pub spec: Spec,
    pub pid: Option<u32>,
    pub task_id: String,
}

/// What a [`Supervised`] process is.
#[verifier::ext_equal]
pub struct SupervisedView {
    pub spec: SpecView,
    pub pid: Option<u32>,
    pub task_id: Seq<char>,
}

impl View for Supervised {
    type V = SupervisedView;

    open spec fn view(&self) -> SupervisedView {
        SupervisedView { spec: self.spec@, pid: self.pid, task_id: self.task_id@ }
    }
}

impl Supervised {
    /// The same again.
    pub fn copy(&self) -> (out: Supervised)
        ensures
            out@ == self@,
    {
        Supervised { spec: self.spec.copy(), pid: self.pid, task_id: self.task_id.clone() }
    }
}

/// The processes a table holds, by name.
pub uninterp spec fn processes(table: dashmap::DashMap<String, Supervised>) -> Map<
    Seq<char>,
    SupervisedView,
>;

/// `DashMap::new`: a table that holds no process.
#[verifier::external_body]
fn no_processes() -> (r: dashmap::DashMap<String, Supervised>)
    ensures
        processes(r).dom() == Set::<Seq<char>>::empty(),
{
    dashmap::DashMap::new()
}

/// `DashMap::insert`: the name stands for the process, whatever it stood for
/// before.
#[verifier::external_body]
fn enter(table: &mut dashmap::DashMap<String, Supervised>, name: &str, process: Supervised)
    ensures
        processes(*final(table)) == processes(*old(table)).insert(name@, process@),
{
    table.insert(name.to_string(), process);
}

/// `DashMap::get`: the process the name stands for, copied.
#[verifier::external_body]
fn find(table: &dashmap::DashMap<String, Supervised>, name: &str) -> (r: Option<Supervised>)
    ensures
        match r {
            Some(p) => processes(*table).dom().contains(name@) && processes(*table)[name@] == p@,
            None => !processes(*table).dom().contains(name@),
        },
{
    table.get(name).map(|entry| entry.value().copy())
}

/// `DashMap::remove`: the name stands for nothing any more; what it stood for
/// comes back.
#[verifier::external_body]
fn forget(table: &mut dashmap::DashMap<String, Supervised>, name: &str) -> (r: Option<Supervised>)
    ensures
        processes(*final(table)) == processes(*old(table)).remove(name@),
        match r {
            Some(p) => processes(*old(table)).dom().contains(name@)
                && processes(*old(table))[name@] == p@,
            None => !processes(*old(table)).dom().contains(name@),
        },
{
    table.remove(name).map(|(_, process)| process)
}

/// Whether the names are those of a map, each once.
pub open spec fn lists_names(names: Seq<Seq<char>>, map: Map<Seq<char>, SupervisedView>) -> bool {
    &&& forall|i: int| 0 <= i < names.len() ==> map.dom().contains(#[trigger] names[i])
    &&& forall|i: int, j: int|
        0 <= i < j < names.len() ==> #[trigger] names[i] != #[trigger] names[j]
    &&& forall|name: Seq<char>| #[trigger]
        map.dom().contains(name) ==> exists|i: int|
            0 <= i < names.len() && #[trigger] names[i] == name
}

/// `DashMap::iter`: every name, copied, each once. The order is open: it depends
/// on how the names were hashed.
#[verifier::external_body]
fn all_names(table: &dashmap::DashMap<String, Supervised>) -> (r: Vec<String>)
    ensures
        lists_names(views(r@), processes(*table)),
{
    table.iter().map(|entry| entry.key().clone()).collect()
}

/// The supervised processes, by name.
#[derive(Debug)]
pub struct Supervisor {
    table: dashmap::DashMap<String, Supervised>,
}

/// The entry of a process that was started: a number of nought is none.
pub open spec fn started_entry(spec: SpecView, pid: u32, task_id: Seq<char>) -> SupervisedView {
    SupervisedView {
        spec,
        pid: if pid != 0 {
            Some(pid)
        } else {
            None
        },
        task_id,
    }
}

/// The name a process's task is registered under.
pub fn task_name(name: &str) -> (out: String)
    ensures
        out@ == "hub:"@ + name@,
{
    let mut out = "hub:".to_string();
    out.push_str(name);
    out
}

impl Supervisor {
    /// The processes, by name.
    pub closed spec fn held(&self) -> Map<Seq<char>, SupervisedView> {
        processes(self.table)
    }

    /// Nothing is supervised.
    pub fn new() -> (s: Supervisor)
        ensures
            s.held().dom() == Set::<Seq<char>>::empty(),
    {
        Supervisor { table: no_processes() }
    }

    /// Keep a process that was started.
    pub fn started(&mut self, name: &str, spec: Spec, pid: u32, task_id: String)
        ensures
            final(self).held() == old(self).held().insert(
                name@,
                started_entry(spec@, pid, task_id@),
            ),
    {
        let number: Option<u32> = if pid != 0 {
            Some(pid)
        } else {
            None
        };
        enter(&mut self.table, name, Supervised { spec, pid: number, task_id });
    }

    /// The process of a name.
    pub fn process(&self, name: &str) -> (r: Option<Supervised>)
        ensures
            match r {
                Some(p) => self.held().dom().contains(name@) && self.held()[name@] == p@,
                None => !self.held().dom().contains(name@),
            },
    {
        find(&self.table, name)
    }

    /// Drop the process of a name, and give it back to be killed.
    pub fn stop(&mut self, name: &str) -> (r: Option<Supervised>)
        ensures
            final(self).held() == old(self).held().remove(name@),
            match r {
                Some(p) => old(self).held().dom().contains(name@) && old(self).held()[name@] == p@,
                None => !old(self).held().dom().contains(name@),
            },
    {
        forget(&mut self.table, name)
    }

    /// The names of all processes, each once, in no particular order.
    pub fn names(&self) -> (r: Vec<String>)
        ensures
            lists_names(views(r@), self.held()),
    {
        all_names(&self.table)
    }
}

/// A process that is stopped and started again from what is kept of it has the
/// same application, arguments, variables and directory as before, and every
/// other process is left alone.
pub proof fn a_restart_repeats_the_start(
    held: Map<Seq<char>, SupervisedView>,
    name: Seq<char>,
    pid: u32,
    task_id: Seq<char>,
)
    requires
        held.dom().contains(name),
    ensures
        ({
            let after = held.remove(name).insert(name, started_entry(held[name].spec, pid, task_id));
            &&& after.dom() == held.dom()
            &&& after[name].spec == held[name].spec
            &&& forall|other: Seq<char>|
                other != name && held.dom().contains(other) ==> #[trigger] after[other]
                    == held[other]
        }),
{
    let after = held.remove(name).insert(name, started_entry(held[name].spec, pid, task_id));
    assert(after.dom() =~= held.dom());
}

// ---------------------------------------------------------------------------
// What holds of variables, windows and signals
// ---------------------------------------------------------------------------

/// A variable reads as its name and its value, whatever the value holds; a text
/// without an equals sign is no variable.
pub proof fn a_variable_reads_back(name: Seq<char>, value: Seq<char>)
    requires
        !name.contains('='),
    ensures
        env_pair(name + seq!['='] + value) == Some((name, value)),
        env_pair(name) is None,
{
    let entry = name + seq!['='] + value;
    assert forall|j: int| 0 <= j < name.len() implies entry[j] != '=' by {
        assert(entry[j] == name[j]);
    }
    index_of_is(entry, '=', name.len() as int);
    assert(entry.take(name.len() as int) =~= name);
    assert(entry.skip(name.len() + 1int) =~= value);
    index_of_is(name, '=', name.len() as int);
}

/// The variables are those of the entries that hold an equals sign, in order.
pub proof fn every_variable_is_passed_on(entries: Seq<Seq<char>>, n: int)
    requires
        0 <= n <= entries.len(),
    ensures
        env_pairs(entries, n) == entries.take(n).filter(
            |entry: Seq<char>| entry.contains('='),
        ).map_values(|entry: Seq<char>| env_pair(entry)->0),
    decreases n,
{
    let keep = |entry: Seq<char>| entry.contains('=');
    let first = entries.take(n);
    kept_one_more(first, keep);
    if n > 0 {
        every_variable_is_passed_on(entries, n - 1);
        let entry = entries[n - 1];
        assert(first.drop_last() =~= entries.take(n - 1));
        index_of_bounds(entry, '=');
        if entry.contains('=') {
            let k = choose|k: int| 0 <= k < entry.len() && entry[k] == '=';
            assert(index_of(entry, '=') <= k);
        } else {
            if index_of(entry, '=') < entry.len() {
                assert(entry[index_of(entry, '=')] == '=');
            }
        }
    }
    assert(env_pairs(entries, n) =~= first.filter(keep).map_values(
        |entry: Seq<char>| env_pair(entry)->0,
    ));
}

/// Each process is listed on a line of its own, in order: its name, whether it runs,
/// and its number where it is known.
pub proof fn a_listed_process_is_told(p: Listed)
    ensures
        p.running && p.pid is Some ==> listed_line(p) == p.name@ + "\t"@ + "running"@ + "\tpid "@
            + decimal(p.pid->0 as nat),
        !p.running && p.pid is Some ==> listed_line(p) == p.name@ + "\t"@ + "exited"@ + "\tpid "@
            + decimal(p.pid->0 as nat),
        p.pid is None ==> "\tpid ?"@.is_suffix_of(listed_line(p)),
{
    if p.pid is None {
        reveal_strlit("\tpid ");
        reveal_strlit("?");
        reveal_strlit("\tpid ?");
        let line = listed_line(p);
        assert("\tpid ?"@ =~= "\tpid "@ + "?"@);
        assert(line.skip(line.len() - 6) =~= "\tpid ?"@);
    }
}

proof fn matching_is_kept(lines: Seq<Seq<char>>, needle: Seq<char>)
    ensures
        matching(lines, Some(needle)) == lines.filter(
            |line: Seq<char>| contains(line, needle),
        ),
        matching(lines, None) == lines,
    decreases lines.len(),
{
    kept_one_more(lines, |line: Seq<char>| contains(line, needle));
    if lines.len() > 0 {
        matching_is_kept(lines.drop_last(), needle);
        assert(lines.drop_last().push(lines.last()) =~= lines);
    }
    assert(matching(lines, None) =~= lines);
}

/// What a search of a log shows is, in order, those of the lines behind the cursor that
/// hold the text: all of them, the first few, or the last few.
pub proof fn a_window_is_of_what_matches(
    lines: Seq<Seq<char>>,
    needle: Seq<char>,
    cursor: usize,
    n: usize,
    found: Seq<Seq<char>>,
)
    requires
        cursor <= lines.len(),
        found == lines.skip(cursor as int).filter(|line: Seq<char>| contains(line, needle)),
    ensures
        window(lines, None, None, None, None) == lines,
        window(lines, None, None, None, Some(cursor)) == lines.skip(cursor as int),
        window(lines, None, None, Some(needle), Some(cursor)) == found,
        n <= found.len() ==> window(lines, Some(n), None, Some(needle), Some(cursor))
            == found.take(n as int),
        n <= found.len() ==> window(lines, None, Some(n), Some(needle), Some(cursor))
            == found.skip(found.len() - n),
        n > found.len() ==> window(lines, Some(n), None, Some(needle), Some(cursor)) == found,
        n > found.len() ==> window(lines, None, Some(n), Some(needle), Some(cursor)) == found,
{
    let behind = lines.skip(cursor as int);
    assert(after_cursor(lines, Some(cursor)) =~= behind);
    matching_is_kept(behind, needle);
    matching_is_kept(lines, needle);
    assert(found.take(found.len() as int) =~= found);
    assert(found.skip(0) =~= found);
}

/// The lines kept are the last of all that were printed: keeping as they come loses
/// nothing that keeping at the end would not.
pub proof fn keeping_as_they_come(lines: Seq<Seq<char>>, more: Seq<Seq<char>>)
    ensures
        kept(kept(lines) + more) == kept(lines + more),
        kept(lines).is_suffix_of(lines),
        lines.len() <= 5000 ==> kept(lines) == lines,
        lines.len() > 5000 ==> kept(lines).len() == 5000,
{
    assert(kept(kept(lines) + more) =~= kept(lines + more));
    assert(kept(lines) =~= lines.skip(lines.len() - kept(lines).len()));
}

proof fn upper_twice(c: char)
    ensures
        ascii_upper(ascii_upper(c)) == ascii_upper(c),
{
}

/// A signal goes by its name with or without its prefix, and whatever the case of its
/// letters.
pub proof fn a_signal_goes_by_its_name(name: Seq<char>)
    ensures
        signal_of("SIG"@ + name) == signal_of(name),
        !"SIG"@.is_prefix_of(name) && !"SIG"@.is_prefix_of(ascii_uppered(name)) ==> signal_of(
            ascii_uppered(name),
        ) == signal_of(name),
{
    reveal_strlit("SIG");
    let long = "SIG"@ + name;
    assert("SIG"@ =~= long.take(3));
    assert(long.skip(3) =~= name);
    if !"SIG"@.is_prefix_of(name) && !"SIG"@.is_prefix_of(ascii_uppered(name)) {
        assert forall|i: int| 0 <= i < name.len() implies ascii_upper(
            #[trigger] ascii_uppered(name)[i],
        ) == ascii_uppered(name)[i] by {
            upper_twice(name[i]);
        }
        assert(ascii_uppered(ascii_uppered(name)) =~= ascii_uppered(name));
    }
}

/// The six signals worth sending, each under its own name, and no others.
pub proof fn the_signals_have_their_names(name: Seq<char>)
    requires
        !"SIG"@.is_prefix_of(name),
        ascii_uppered(name) == name,
    ensures
        signal_of(name) == Some(Signal::Term) <==> name == "TERM"@,
        signal_of(name) == Some(Signal::Kill) <==> name == "KILL"@,
        signal_of(name) == Some(Signal::Int) <==> name == "INT"@,
        signal_of(name) == Some(Signal::Hup) <==> name == "HUP"@,
        signal_of(name) == Some(Signal::Usr1) <==> name == "USR1"@,
        signal_of(name) == Some(Signal::Usr2) <==> name == "USR2"@,
{
    reveal_strlit("TERM");
    reveal_strlit("KILL");
    reveal_strlit("INT");
    reveal_strlit("HUP");
    reveal_strlit("USR1");
    reveal_strlit("USR2");
    assert("TERM"@[0] == 'T' && "KILL"@[0] == 'K' && "INT"@[0] == 'I' && "HUP"@[0] == 'H'
        && "USR1"@[0] == 'U' && "USR2"@[0] == 'U');
    assert("USR1"@[3] == '1' && "USR2"@[3] == '2');
}

/// Each of the six ops goes by its own name, and no other name is one.
pub proof fn an_op_goes_by_its_name(name: Seq<char>)
    ensures
        op_of(name) == Some(HubOp::Start) <==> name == "start"@,
        op_of(name) == Some(HubOp::Ps) <==> name == "ps"@,
        op_of(name) == Some(HubOp::Logs) <==> name == "logs"@,
        op_of(name) == Some(HubOp::Stop) <==> name == "stop"@,
        op_of(name) == Some(HubOp::Restart) <==> name == "restart"@,
        op_of(name) == Some(HubOp::Send) <==> name == "send"@,
{
    reveal_strlit("start");
    reveal_strlit("ps");
    reveal_strlit("logs");
    reveal_strlit("stop");
    reveal_strlit("restart");
    reveal_strlit("send");
    assert("start"@.len() == 5 && "ps"@.len() == 2 && "logs"@.len() == 4 && "stop"@.len() == 4
        && "restart"@.len() == 7 && "send"@.len() == 4);
    assert("logs"@[0] == 'l' && "stop"@[0] == 's' && "send"@[0] == 's');
    assert("stop"@[1] == 't' && "send"@[1] == 'e');
}

/// A process is started where, and only where, it is named, has an application and does
/// not run already: with its arguments, its variables and its directory.
pub proof fn a_process_is_started_as_asked(i: HubInput, running: bool)
    ensures
        start_plan(i, running) is Ok <==> i.name is Some && i.application is Some && !running,
        start_plan(i, running) is Ok ==> {
            let (name, spec) = start_plan(i, running)->Ok_0;
            &&& name == i.name->0@
            &&& spec.application == i.application->0@
            &&& spec.args == entries_of(i.args)
            &&& spec.cwd == opt_view(i.cwd)
        },
{
}

/// A signal goes before a line; a line is written with a line feed behind it; with
/// neither there is nothing to send.
pub proof fn what_is_sent(i: HubInput)
    ensures
        i.name is Some && i.signal is Some ==> send_plan(i) == (SendView::Signal {
            name: i.name->0@,
            signal: i.signal->0@,
        }),
        i.name is Some && i.signal is None && i.input is Some ==> send_plan(i) == (SendView::Write {
            name: i.name->0@,
            payload: i.input->0@ + seq!['\n'],
        }),
        i.name is None || (i.signal is None && i.input is None) ==> send_plan(i) is Fail,
{
    reveal_strlit("\n");
    assert("\n"@ =~= seq!['\n']);
}

/// A signal is sent to a running process where the machine has signals and it is a known
/// one.
pub proof fn where_a_signal_is_sent(
    name: Seq<char>,
    signal: Seq<char>,
    pid: Option<u32>,
    unix: bool,
)
    ensures
        signal_plan(name, signal, pid, unix) is Ok <==> unix && pid is Some && signal_of(
            signal,
        ) is Some,
        signal_plan(name, signal, pid, unix) is Ok ==> signal_plan(name, signal, pid, unix)->Ok_0
            == (pid->0, signal_of(signal)->0),
{
}

} // verus!
