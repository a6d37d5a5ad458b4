//! Code intelligence via the Language Server Protocol.
//!
//! Navigation, symbols, diagnostics, refactoring, and an escape hatch for a
//! request this tool has no wrapper for. What is asked of a server, and what is
//! made of its answers, is decided here; the talking to servers is not.
use vstd::prelude::*;
use crate::json::{
    integer_json, members_view, no_members, object, put, text, whole, Json, JsonView,
};
use crate::parsing::{json_read, parse_json, read_view, show_value, shown, value_held};
use crate::paths::{join_path, joined};
use crate::text::{
    chars_of, contains, count, decimal, decimal_reads_back, find_last, has, join, join_with,
    last_of, lines, lines_of_joined, lowercase, lowercased, number, opt_view, parse_count, parsed,
    proper_lines, same, starts_with, string_of, views, views_push,
};
use crate::{said, PermissionLevel, ResultView, ToolResult};

verus! {

pub struct LspTool;

/// How many diagnostics one answer carries.
///
/// A file with hundreds of errors says the same thing as a file with fifty,
/// and the rest is context the model pays for.
pub const DIAGNOSTIC_MESSAGE_LIMIT: usize = 50;

/// How many workspace symbols one answer carries.
pub const WORKSPACE_SYMBOL_LIMIT: usize = 200;

/// How many results carry the source line around them.
///
/// Context is what makes a result readable without opening the file, and it is
/// also what makes a long list expensive.
pub const CONTEXT_LIMIT: usize = 20;

impl LspTool {
    pub fn name(&self) -> (out: &'static str)
        ensures
            out@ == "LSP"@,
    {
        "LSP"
    }

    pub fn permission_level(&self) -> (out: PermissionLevel)
        ensures
            out == PermissionLevel::ReadOnly,
    {
        PermissionLevel::ReadOnly
    }

    /// Asks for permission itself, for the path it is about to touch.
    pub fn self_gates(&self) -> (out: bool)
        ensures
            out,
    {
        true
    }

    /// The actions the tool offers.
    pub fn actions(&self) -> (out: Vec<String>)
        ensures
            views(out@) == action_names(),
    {
        broadcast use views_push;

        let mut out: Vec<String> = Vec::new();
        out.push("hover".to_string());
        out.push("definition".to_string());
        out.push("references".to_string());
        out.push("symbols".to_string());
        out.push("diagnostics".to_string());
        out.push("type_definition".to_string());
        out.push("implementation".to_string());
        out.push("rename".to_string());
        out.push("rename_file".to_string());
        out.push("code_actions".to_string());
        out.push("status".to_string());
        out.push("reload".to_string());
        out.push("capabilities".to_string());
        out.push("request".to_string());
        assert(views(out@) =~= action_names());
        out
    }
}

/// The actions the tool offers, in the order they are listed.
pub open spec fn action_names() -> Seq<Seq<char>> {
    seq![
        "hover"@,
        "definition"@,
        "references"@,
        "symbols"@,
        "diagnostics"@,
        "type_definition"@,
        "implementation"@,
        "rename"@,
        "rename_file"@,
        "code_actions"@,
        "status"@,
        "reload"@,
        "capabilities"@,
        "request"@,
    ]
}

/// Whether an action only reads.
pub open spec fn reading(action: Seq<char>) -> bool {
    action == "hover"@ || action == "definition"@ || action == "references"@ || action
        == "symbols"@ || action == "diagnostics"@ || action == "type_definition"@ || action
        == "implementation"@ || action == "status"@ || action == "capabilities"@
}

/// Whether an action only reads. The permission prompt says which it is.
pub fn reads_only(action: &str) -> (r: bool)
    ensures
        r == reading(action@),
{
    same(action, "hover") || same(action, "definition") || same(action, "references") || same(
        action,
        "symbols",
    ) || same(action, "diagnostics") || same(action, "type_definition") || same(
        action,
        "implementation",
    ) || same(action, "status") || same(action, "capabilities")
}

// ---------------------------------------------------------------------------
// What is asked
// ---------------------------------------------------------------------------

/// What a caller asks for.
#[derive(Debug)]
pub struct LspInput {
    pub action: String,
    /// The file as it was given; empty or `*` stands for the whole workspace.
    pub file: String,
    pub line: u32,
    pub column: Option<u32>,
    pub symbol: Option<String>,
    pub query: String,
    pub new_name: String,
    pub apply: Option<bool>,
    pub payload: Option<String>,
}

/// What an [`LspInput`] says.
#[verifier::ext_equal]
pub struct InputView {
    pub action: Seq<char>,
    pub file: Seq<char>,
    pub line: u32,
    pub column: Option<u32>,
    pub symbol: Option<Seq<char>>,
    pub query: Seq<char>,
    pub new_name: Seq<char>,
    pub apply: Option<bool>,
    pub payload: Option<Seq<char>>,
}

impl View for LspInput {
    type V = InputView;

    open spec fn view(&self) -> InputView {
        InputView {
            action: self.action@,
            file: self.file@,
            line: self.line,
            column: self.column,
            symbol: opt_view(self.symbol),
            query: self.query@,
            new_name: self.new_name@,
            apply: self.apply,
            payload: opt_view(self.payload),
        }
    }
}

/// The text of a member, empty where it has none.
pub open spec fn text_or_empty(v: JsonView, key: Seq<char>) -> Seq<char> {
    match v.text_of(key) {
        Some(s) => s,
        None => seq![],
    }
}

/// What the tool's input asks for, given its action.
pub open spec fn input_of(v: JsonView, action: Seq<char>) -> InputView {
    InputView {
        action,
        file: text_or_empty(v, "file"@),
        line: match v.unsigned_of("line"@) {
            Some(n) => n as u32,
            None => 1,
        },
        column: match v.unsigned_of("column"@) {
            Some(n) => Some(n as u32),
            None => None,
        },
        symbol: v.text_of("symbol"@),
        query: text_or_empty(v, "query"@),
        new_name: text_or_empty(v, "new_name"@),
        apply: match v.get("apply"@) {
            Some(b) => b.boolean(),
            None => None,
        },
        payload: v.text_of("payload"@),
    }
}

fn read_text(v: &Json, key: &str) -> (out: String)
    ensures
        out@ == text_or_empty(v@, key@),
{
    match v.text_of(key) {
        Some(s) => s,
        None => String::new(),
    }
}

/// Read the tool's input. Only the action has to be there.
pub fn read_input(v: &Json) -> (r: Result<LspInput, ToolResult>)
    ensures
        match (v@.text_of("action"@), r) {
            (Some(action), Ok(i)) => i@ == input_of(v@, action),
            (None, Err(e)) => e@ == said("'action' is required"@, true),
            _ => false,
        },
{
    let action = match v.text_of("action") {
        Some(a) => a,
        None => {
            return Err(ToolResult::error("'action' is required".to_string()));
        },
    };
    let line: u32 = match v.unsigned_of("line") {
        Some(n) => #[verifier::truncate] (n as u32),
        None => 1,
    };
    let column: Option<u32> = match v.unsigned_of("column") {
        Some(n) => Some(#[verifier::truncate] (n as u32)),
        None => None,
    };
    let apply: Option<bool> = match v.get("apply") {
        Some(b) => b.as_bool(),
        None => None,
    };
    Ok(
        LspInput {
            action,
            file: read_text(v, "file"),
            line,
            column,
            symbol: v.text_of("symbol"),
            query: read_text(v, "query"),
            new_name: read_text(v, "new_name"),
            apply,
            payload: v.text_of("payload"),
        },
    )
}

/// Whether the whole workspace is meant rather than one file.
pub open spec fn whole_workspace(i: InputView) -> bool {
    i.file.len() == 0 || i.file == "*"@
}

/// The path that is meant.
pub open spec fn meant_path(i: InputView, working_dir: Seq<char>) -> Seq<char> {
    if whole_workspace(i) {
        working_dir
    } else {
        joined(working_dir, i.file)
    }
}

impl LspInput {
    /// Whether the whole workspace is meant rather than one file.
    pub fn is_workspace(&self) -> (r: bool)
        ensures
            r == whole_workspace(self@),
    {
        self.file.as_str().is_empty() || same(&self.file, "*")
    }

    /// The path that is meant: the working directory for the whole workspace, an
    /// absolute path as it is, and anything else from the working directory.
    pub fn file_path(&self, working_dir: &str) -> (out: String)
        ensures
            out@ == meant_path(self@, working_dir@),
    {
        if self.is_workspace() {
            working_dir.to_string()
        } else {
            join_path(working_dir, &self.file)
        }
    }

    /// Where a moved file goes.
    pub fn destination(&self, working_dir: &str) -> (out: String)
        ensures
            out@ == joined(working_dir@, self@.new_name),
    {
        join_path(working_dir, &self.new_name)
    }

    /// What the user is asked to allow.
    pub fn permission_text(&self, file_path: &str) -> (out: String)
        ensures
            out@ == "LSP "@ + self.action@ + " "@ + file_path@,
    {
        let mut out = "LSP ".to_string();
        out.push_str(&self.action);
        out.push_str(" ");
        out.push_str(file_path);
        out
    }
}

/// The first thing to do once the call is allowed.
#[derive(Debug)]
pub enum LspPlan {
    /// Answer without asking a server anything.
    Fail(String),
    Status,
    Capabilities,
    Reload,
    WorkspaceSymbols,
    RawRequest,
    RenameFile,
    /// An action on one file.
    OnFile,
}

/// What an [`LspPlan`] says.
#[verifier::ext_equal]
pub enum PlanView {
    Fail(Seq<char>),
    Status,
    Capabilities,
    Reload,
    WorkspaceSymbols,
    RawRequest,
    RenameFile,
    OnFile,
}

impl View for LspPlan {
    type V = PlanView;

    open spec fn view(&self) -> PlanView {
        match *self {
            LspPlan::Fail(e) => PlanView::Fail(e@),
            LspPlan::Status => PlanView::Status,
            LspPlan::Capabilities => PlanView::Capabilities,
            LspPlan::Reload => PlanView::Reload,
            LspPlan::WorkspaceSymbols => PlanView::WorkspaceSymbols,
            LspPlan::RawRequest => PlanView::RawRequest,
            LspPlan::RenameFile => PlanView::RenameFile,
            LspPlan::OnFile => PlanView::OnFile,
        }
    }
}

/// The first thing to do once the call is allowed.
pub open spec fn planned(i: InputView) -> PlanView {
    if i.action == "status"@ {
        PlanView::Status
    } else if i.action == "capabilities"@ {
        PlanView::Capabilities
    } else if i.action == "reload"@ {
        PlanView::Reload
    } else if i.action == "symbols"@ && whole_workspace(i) {
        if i.query.len() == 0 {
            PlanView::Fail(
                "workspace symbols need a `query`; pass a `file` to list one file's symbols"@,
            )
        } else {
            PlanView::WorkspaceSymbols
        }
    } else if i.action == "request"@ {
        if i.query.len() == 0 {
            PlanView::Fail("`request` needs the method name in `query`"@)
        } else {
            PlanView::RawRequest
        }
    } else if i.action == "rename_file"@ {
        if whole_workspace(i) {
            PlanView::Fail("`rename_file` needs the path to move in `file`"@)
        } else if i.new_name.len() == 0 {
            PlanView::Fail("`rename_file` needs the destination path in `new_name`"@)
        } else {
            PlanView::RenameFile
        }
    } else if i.file.len() == 0 {
        PlanView::Fail("`"@ + i.action + "` needs a `file`"@)
    } else {
        PlanView::OnFile
    }
}

/// Decide the first thing to do once the call is allowed.
pub fn plan(i: &LspInput) -> (p: LspPlan)
    ensures
        p@ == planned(i@),
{
    if same(&i.action, "status") {
        LspPlan::Status
    } else if same(&i.action, "capabilities") {
        LspPlan::Capabilities
    } else if same(&i.action, "reload") {
        LspPlan::Reload
    } else if same(&i.action, "symbols") && i.is_workspace() {
        if i.query.as_str().is_empty() {
            LspPlan::Fail(
                "workspace symbols need a `query`; pass a `file` to list one file's symbols".to_string(),
            )
        } else {
            LspPlan::WorkspaceSymbols
        }
    } else if same(&i.action, "request") {
        if i.query.as_str().is_empty() {
            LspPlan::Fail("`request` needs the method name in `query`".to_string())
        } else {
            LspPlan::RawRequest
        }
    } else if same(&i.action, "rename_file") {
        if i.is_workspace() {
            LspPlan::Fail("`rename_file` needs the path to move in `file`".to_string())
        } else if i.new_name.as_str().is_empty() {
            LspPlan::Fail("`rename_file` needs the destination path in `new_name`".to_string())
        } else {
            LspPlan::RenameFile
        }
    } else if i.file.as_str().is_empty() {
        let mut e = "`".to_string();
        e.push_str(&i.action);
        e.push_str("` needs a `file`");
        LspPlan::Fail(e)
    } else {
        LspPlan::OnFile
    }
}

/// Where an action looks for a symbol's places.
#[derive(Debug, PartialEq, Eq, Clone, Copy, Structural)]
pub enum Lookup {
    Definition,
    TypeDefinition,
    Implementation,
    References,
}

/// What to ask the servers of one file.
#[derive(Debug, PartialEq, Eq, Clone, Copy, Structural)]
pub enum FilePlan {
    Hover,
    Locate(Lookup),
    Symbols,
    Rename,
    /// A rename that names no new name.
    UnnamedRename,
    CodeActions,
    Diagnostics,
    Unknown,
}

/// What to ask the servers of one file.
pub open spec fn file_planned(i: InputView) -> FilePlan {
    if i.action == "hover"@ {
        FilePlan::Hover
    } else if i.action == "definition"@ {
        FilePlan::Locate(Lookup::Definition)
    } else if i.action == "type_definition"@ {
        FilePlan::Locate(Lookup::TypeDefinition)
    } else if i.action == "implementation"@ {
        FilePlan::Locate(Lookup::Implementation)
    } else if i.action == "references"@ {
        FilePlan::Locate(Lookup::References)
    } else if i.action == "symbols"@ {
        FilePlan::Symbols
    } else if i.action == "rename"@ {
        if i.new_name.len() == 0 {
            FilePlan::UnnamedRename
        } else {
            FilePlan::Rename
        }
    } else if i.action == "code_actions"@ {
        FilePlan::CodeActions
    } else if i.action == "diagnostics"@ {
        FilePlan::Diagnostics
    } else {
        FilePlan::Unknown
    }
}

/// Decide what to ask the servers of one file.
pub fn plan_file(i: &LspInput) -> (p: FilePlan)
    ensures
        p == file_planned(i@),
{
    if same(&i.action, "hover") {
        FilePlan::Hover
    } else if same(&i.action, "definition") {
        FilePlan::Locate(Lookup::Definition)
    } else if same(&i.action, "type_definition") {
        FilePlan::Locate(Lookup::TypeDefinition)
    } else if same(&i.action, "implementation") {
        FilePlan::Locate(Lookup::Implementation)
    } else if same(&i.action, "references") {
        FilePlan::Locate(Lookup::References)
    } else if same(&i.action, "symbols") {
        FilePlan::Symbols
    } else if same(&i.action, "rename") {
        if i.new_name.as_str().is_empty() {
            FilePlan::UnnamedRename
        } else {
            FilePlan::Rename
        }
    } else if same(&i.action, "code_actions") {
        FilePlan::CodeActions
    } else if same(&i.action, "diagnostics") {
        FilePlan::Diagnostics
    } else {
        FilePlan::Unknown
    }
}

/// Whether a plan has to point at a place in the file.
pub open spec fn points(p: FilePlan) -> bool {
    p is Hover || p is Locate || p is Rename || p is CodeActions
}

/// Whether a plan has to point at a place in the file.
pub fn needs_position(p: FilePlan) -> (r: bool)
    ensures
        r == points(p),
{
    match p {
        FilePlan::Hover => true,
        FilePlan::Locate(_) => true,
        FilePlan::Rename => true,
        FilePlan::CodeActions => true,
        _ => false,
    }
}

/// The servers that a call goes to.
#[derive(Debug, PartialEq, Eq, Clone, Copy, Structural)]
pub enum Addressed {
    /// The first of the workspace that is enabled and no linter.
    WorkspaceServer,
    /// The one that answers for the file.
    PrimaryForFile,
    /// All that know the file.
    ForFile,
    /// All that are enabled.
    Enabled,
}

/// The servers that a call goes to. A raw request goes to one server; what is asked
/// of the whole workspace goes to every enabled server, what is asked of a file to
/// every server that knows it.
pub open spec fn servers_addressed(i: InputView) -> Addressed {
    match planned(i) {
        PlanView::RawRequest => if whole_workspace(i) {
            Addressed::WorkspaceServer
        } else {
            Addressed::PrimaryForFile
        },
        PlanView::OnFile => Addressed::ForFile,
        _ => if whole_workspace(i) {
            Addressed::Enabled
        } else {
            Addressed::ForFile
        },
    }
}

/// Decide the servers that a call goes to.
pub fn addressed(i: &LspInput) -> (a: Addressed)
    ensures
        a == servers_addressed(i@),
{
    let workspace = i.is_workspace();
    match plan(i) {
        LspPlan::RawRequest => if workspace {
            Addressed::WorkspaceServer
        } else {
            Addressed::PrimaryForFile
        },
        LspPlan::OnFile => Addressed::ForFile,
        _ => if workspace {
            Addressed::Enabled
        } else {
            Addressed::ForFile
        },
    }
}

/// Whether the file has to be sent to the server first. Diagnostics send it
/// themselves, as part of waiting for a fresh answer.
pub fn needs_sync(i: &LspInput) -> (r: bool)
    ensures
        r == (i@.action != "diagnostics"@),
{
    !same(&i.action, "diagnostics")
}

/// Every action the tool offers is answered: none of them is taken for an
/// unknown one.
pub proof fn every_action_is_handled(i: InputView)
    requires
        action_names().contains(i.action),
    ensures
        !(planned(i) is OnFile && file_planned(i) is Unknown),
{
    let names = action_names();
    let k = choose|k: int| 0 <= k < names.len() && names[k] == i.action;
    assert(names[k] == i.action);
}

/// An action that is asked for as a read never starts anything that writes, a
/// raw request or a reload.
pub proof fn a_read_starts_no_write(i: InputView)
    requires
        reading(i.action),
    ensures
        !(planned(i) is RawRequest),
        !(planned(i) is RenameFile),
        !(planned(i) is Reload),
        planned(i) is OnFile ==> !(file_planned(i) is Rename) && !(file_planned(i)
            is UnnamedRename) && !(file_planned(i) is CodeActions),
{
    reveal_strlit("hover");
    reveal_strlit("definition");
    reveal_strlit("references");
    reveal_strlit("symbols");
    reveal_strlit("diagnostics");
    reveal_strlit("type_definition");
    reveal_strlit("implementation");
    reveal_strlit("status");
    reveal_strlit("capabilities");
    reveal_strlit("request");
    reveal_strlit("rename_file");
    reveal_strlit("reload");
    reveal_strlit("rename");
    reveal_strlit("code_actions");
    let a = i.action;
    assert(a != "request"@ && a != "rename_file"@ && a != "reload"@ && a != "rename"@ && a
        != "code_actions"@) by {
        if a.len() == 5 {
        } else if a.len() == 6 {
            assert(a == "status"@);
            assert(a[0] == 's');
        } else if a.len() == 7 {
            assert(a == "symbols"@);
            assert(a[0] == 's');
        } else if a.len() == 10 {
        } else if a.len() == 11 {
            assert(a == "diagnostics"@);
            assert(a[0] == 'd');
        } else if a.len() == 12 {
            assert(a == "capabilities"@);
            assert(a[1] == 'a');
        } else {
        }
    }
}

/// What an action nobody offers is answered with.
pub fn unknown_action(i: &LspInput) -> (r: ToolResult)
    ensures
        r@ == said(
            "Unknown action '"@ + i@.action
                + "'. Valid actions: hover, definition, type_definition, implementation, references, symbols, diagnostics, rename, rename_file, code_actions, status, reload, capabilities, request"@,
            true,
        ),
{
    let mut e = "Unknown action '".to_string();
    e.push_str(&i.action);
    e.push_str(
        "'. Valid actions: hover, definition, type_definition, implementation, references, symbols, diagnostics, rename, rename_file, code_actions, status, reload, capabilities, request",
    );
    ToolResult::error(e)
}

/// What a rename without a new name is answered with.
pub fn unnamed_rename() -> (r: ToolResult)
    ensures
        r@ == said("`rename` needs the new name in `new_name`"@, true),
{
    ToolResult::error("`rename` needs the new name in `new_name`".to_string())
}

/// Resolve the column for a position request.
///
/// A caller may give the column, or name the symbol and let the file answer:
/// `found` is what looking the symbol up on its line gave.
pub fn resolve_column(column: Option<u32>, found: Result<u32, String>) -> (r: Result<u32, String>)
    ensures
        r == (match column {
            Some(c) => Ok::<u32, String>(c),
            None => found,
        }),
{
    match column {
        Some(c) => Ok(c),
        None => found,
    }
}

// ---------------------------------------------------------------------------
// Servers
// ---------------------------------------------------------------------------

/// A server that could serve a file, and what it lacks.
#[derive(Debug)]
pub struct Candidate {
    pub name: String,
    pub command: String,
    pub root_markers: Vec<String>,
    pub has_marker: bool,
    pub has_binary: bool,
}

/// Why a server that could serve a file does not.
pub open spec fn reason(c: Candidate) -> Seq<char> {
    if !c.has_marker && !c.has_binary {
        c.name@ + ": no "@ + join(views(c.root_markers@), " or "@)
            + " in this directory, and `"@ + c.command@ + "` is not installed"@
    } else if !c.has_marker {
        c.name@ + ": no "@ + join(views(c.root_markers@), " or "@) + " in this directory"@
    } else if !c.has_binary {
        c.name@ + ": `"@ + c.command@ + "` is not installed"@
    } else {
        c.name@ + ": switched off"@
    }
}

fn reason_text(c: &Candidate) -> (out: String)
    ensures
        out@ == reason(*c),
{
    let mut out = c.name.clone();
    if !c.has_marker {
        out.push_str(": no ");
        out.push_str(&join_with(&c.root_markers, " or "));
        if c.has_binary {
            out.push_str(" in this directory");
        } else {
            out.push_str(" in this directory, and `");
            out.push_str(&c.command);
            out.push_str("` is not installed");
        }
    } else if !c.has_binary {
        out.push_str(": `");
        out.push_str(&c.command);
        out.push_str("` is not installed");
    } else {
        out.push_str(": switched off");
    }
    out
}

/// The reasons, one to a line.
pub open spec fn reason_lines(candidates: Seq<Candidate>) -> Seq<Seq<char>> {
    Seq::new(candidates.len(), |i: int| "  - "@ + reason(candidates[i]))
}

/// Why no server answered for a file.
pub open spec fn no_server(file_path: Seq<char>, candidates: Seq<Candidate>) -> Seq<char> {
    if candidates.len() == 0 {
        "No language server handles '"@ + file_path
            + "'. The bundled catalogue has no entry for this file type. Add one to `lsp_servers` in your settings to serve it."@
    } else {
        "No language server is running for '"@ + file_path
            + "'. The servers that could serve it:\n"@ + join(reason_lines(candidates), "\n"@)
    }
}

/// Explain why no server answered for `file_path`.
///
/// "No server configured" alone left the caller guessing between three very
/// different situations: the language has no catalogue entry, the project does
/// not look like one this server serves, or the binary is not installed. Each
/// needs a different fix, so each is named.
pub fn no_server_message(file_path: &str, candidates: &Vec<Candidate>) -> (out: String)
    ensures
        out@ == no_server(file_path@, candidates@),
{
    broadcast use views_push;

    if candidates.len() == 0 {
        let mut out = "No language server handles '".to_string();
        out.push_str(file_path);
        out.push_str(
            "'. The bundled catalogue has no entry for this file type. Add one to `lsp_servers` in your settings to serve it.",
        );
        return out;
    }
    let mut lines: Vec<String> = Vec::new();
    let mut i: usize = 0;
    assert(views(lines@) =~= reason_lines(candidates@.take(0)));
    while i < candidates.len()
        invariant
            i <= candidates@.len(),
            views(lines@) == reason_lines(candidates@.take(i as int)),
        decreases candidates.len() - i,
    {
        let mut line = "  - ".to_string();
        let cause = reason_text(&candidates[i]);
        line.push_str(&cause);
        let ghost before = views(lines@);
        lines.push(line);
        assert(reason_lines(candidates@.take(i + 1)) =~= before.push(
            "  - "@ + reason(candidates@[i as int]),
        ));
        i += 1;
    }
    assert(candidates@.take(candidates@.len() as int) =~= candidates@);
    let mut out = "No language server is running for '".to_string();
    out.push_str(file_path);
    out.push_str("'. The servers that could serve it:\n");
    out.push_str(&join_with(&lines, "\n"));
    out
}

/// A configured server.
#[derive(Debug)]
pub struct ServerState {
    pub name: String,
    pub command: String,
    pub disabled: bool,
    pub is_linter: bool,
    /// Whether its command was found.
    pub installed: bool,
}

/// What a running server is shown as.
pub open spec fn running_text(r: (String, String)) -> Seq<char> {
    r.0@ + " @ "@ + r.1@
}

/// Whether a running server's text begins with the name.
pub open spec fn is_running(name: Seq<char>, running: Seq<(String, String)>) -> bool {
    exists|i: int|
        0 <= i < running.len() && name.is_prefix_of(running_text(#[trigger] running[i]))
}

/// One line of the status report.
pub open spec fn status_line(s: ServerState, running: Seq<(String, String)>) -> Seq<char> {
    let state = if s.disabled {
        "disabled"@
    } else if is_running(s.name@, running) {
        "running"@
    } else if s.installed {
        "configured, not started"@
    } else {
        "`"@ + s.command@ + "` is not installed"@
    };
    let role = if s.is_linter {
        " (linter)"@
    } else {
        seq![]
    };
    "  "@ + s.name@ + role + ": "@ + state
}

/// The lines of the status report.
pub open spec fn status_lines(
    servers: Seq<ServerState>,
    running: Seq<(String, String)>,
) -> Seq<Seq<char>> {
    seq!["Language servers:"@] + Seq::new(servers.len(), |i: int| status_line(servers[i], running))
}

fn runs(name: &str, running: &Vec<(String, String)>) -> (r: bool)
    ensures
        r == is_running(name@, running@),
{
    let mut i: usize = 0;
    while i < running.len()
        invariant
            i <= running@.len(),
            forall|k: int|
                0 <= k < i ==> !name@.is_prefix_of(running_text(#[trigger] running@[k])),
        decreases running.len() - i,
    {
        let mut shown = running[i].0.clone();
        shown.push_str(" @ ");
        shown.push_str(&running[i].1);
        assert(shown@ == running_text(running@[i as int]));
        if starts_with(&shown, name) {
            return true;
        }
        i += 1;
    }
    false
}

fn status_text(s: &ServerState, running: &Vec<(String, String)>) -> (out: String)
    ensures
        out@ == status_line(*s, running@),
{
    let state = if s.disabled {
        "disabled".to_string()
    } else if runs(&s.name, running) {
        "running".to_string()
    } else if s.installed {
        "configured, not started".to_string()
    } else {
        let mut state = "`".to_string();
        state.push_str(&s.command);
        state.push_str("` is not installed");
        state
    };
    let role = if s.is_linter {
        " (linter)".to_string()
    } else {
        String::new()
    };
    let mut out = "  ".to_string();
    out.push_str(&s.name);
    out.push_str(&role);
    out.push_str(": ");
    out.push_str(&state);
    out
}

/// What the `status` action answers.
pub open spec fn status_answer(
    servers: Seq<ServerState>,
    running: Seq<(String, String)>,
) -> ResultView {
    if servers.len() == 0 {
        said("No language server is configured for this project."@, false)
    } else {
        said(join(status_lines(servers, running), "\n"@), false)
    }
}

/// Answer the `status` action: each configured server, given the running ones
/// by name and root.
pub fn status_report(servers: &Vec<ServerState>, running: &Vec<(String, String)>) -> (r: ToolResult)
    ensures
        r@ == status_answer(servers@, running@),
{
    broadcast use views_push;

    if servers.len() == 0 {
        return ToolResult::success(
            "No language server is configured for this project.".to_string(),
        );
    }
    let mut lines: Vec<String> = Vec::new();
    lines.push("Language servers:".to_string());
    let mut i: usize = 0;
    assert(views(lines@) =~= status_lines(servers@.take(0), running@));
    while i < servers.len()
        invariant
            i <= servers@.len(),
            views(lines@) == status_lines(servers@.take(i as int), running@),
        decreases servers.len() - i,
    {
        let line = status_text(&servers[i], running);
        let ghost before = views(lines@);
        lines.push(line);
        assert(status_lines(servers@.take(i + 1), running@) =~= before.push(
            status_line(servers@[i as int], running@),
        ));
        i += 1;
    }
    assert(servers@.take(servers@.len() as int) =~= servers@);
    ToolResult::success(join_with(&lines, "\n"))
}

/// The names of the servers that are not disabled, in order.
pub open spec fn enabled(servers: Seq<ServerState>) -> Seq<Seq<char>>
    decreases servers.len(),
{
    if servers.len() == 0 {
        seq![]
    } else if servers.last().disabled {
        enabled(servers.drop_last())
    } else {
        enabled(servers.drop_last()).push(servers.last().name@)
    }
}

/// The names of the servers that are not disabled.
pub fn enabled_names(servers: &Vec<ServerState>) -> (out: Vec<String>)
    ensures
        views(out@) == enabled(servers@),
{
    broadcast use views_push;

    let mut out: Vec<String> = Vec::new();
    let mut i: usize = 0;
    assert(servers@.take(0) =~= seq![]);
    assert(views(out@) =~= seq![]);
    while i < servers.len()
        invariant
            i <= servers@.len(),
            views(out@) == enabled(servers@.take(i as int)),
        decreases servers.len() - i,
    {
        assert(servers@.take(i + 1).drop_last() =~= servers@.take(i as int));
        assert(servers@.take(i + 1).last() == servers@[i as int]);
        if !servers[i].disabled {
            out.push(servers[i].name.clone());
        }
        i += 1;
    }
    assert(servers@.take(servers@.len() as int) =~= servers@);
    out
}

/// The first server from `from` on that is neither disabled nor a linter.
pub open spec fn first_usable(servers: Seq<ServerState>, from: int) -> Option<Seq<char>>
    decreases servers.len() - from,
{
    if from < 0 || from >= servers.len() {
        None
    } else if !servers[from].disabled && !servers[from].is_linter {
        Some(servers[from].name@)
    } else {
        first_usable(servers, from + 1)
    }
}

/// The server that a raw request for the workspace goes to.
pub fn workspace_server(servers: &Vec<ServerState>) -> (r: Option<String>)
    ensures
        opt_view(r) == first_usable(servers@, 0),
{
    let mut i: usize = 0;
    while i < servers.len()
        invariant
            i <= servers@.len(),
            first_usable(servers@, 0) == first_usable(servers@, i as int),
        decreases servers.len() - i,
    {
        if !servers[i].disabled && !servers[i].is_linter {
            return Some(servers[i].name.clone());
        }
        i += 1;
    }
    None
}

/// What one server answered, under its name.
#[derive(Debug)]
pub struct Answer {
    pub name: String,
    pub reply: Result<String, String>,
}

/// One section of the capabilities report.
pub open spec fn capability_section(a: Answer) -> Seq<char> {
    match a.reply {
        Ok(text) => a.name@ + ":\n"@ + text@,
        Err(e) => a.name@ + ": "@ + e@,
    }
}

/// One line of the reload report.
pub open spec fn reload_line(a: Answer) -> Seq<char> {
    match a.reply {
        Ok(text) => text@,
        Err(e) => a.name@ + ": "@ + e@,
    }
}

/// What the `capabilities` action answers, given each server's capabilities.
pub fn capabilities_report(answers: &Vec<Answer>) -> (r: ToolResult)
    ensures
        r@ == said(
            join(Seq::new(answers@.len(), |i: int| capability_section(answers@[i])), "\n\n"@),
            false,
        ),
{
    let mut sections: Vec<String> = Vec::new();
    let mut i: usize = 0;
    while i < answers.len()
        invariant
            i <= answers@.len(),
            sections@.len() == i,
            forall|k: int|
                0 <= k < i ==> (#[trigger] sections@[k])@ == capability_section(answers@[k]),
        decreases answers.len() - i,
    {
        let mut section = answers[i].name.clone();
        match &answers[i].reply {
            Ok(text) => {
                section.push_str(":\n");
                section.push_str(text);
            },
            Err(e) => {
                section.push_str(": ");
                section.push_str(e);
            },
        }
        sections.push(section);
        i += 1;
    }
    assert(views(sections@) =~= Seq::new(
        answers@.len(),
        |i: int| capability_section(answers@[i]),
    ));
    ToolResult::success(join_with(&sections, "\n\n"))
}

/// What the `reload` action answers, given how each server came back.
pub fn reload_report(answers: &Vec<Answer>) -> (r: ToolResult)
    ensures
        r@ == said(
            join(Seq::new(answers@.len(), |i: int| reload_line(answers@[i])), "\n"@),
            false,
        ),
{
    let mut lines: Vec<String> = Vec::new();
    let mut i: usize = 0;
    while i < answers.len()
        invariant
            i <= answers@.len(),
            lines@.len() == i,
            forall|k: int| 0 <= k < i ==> (#[trigger] lines@[k])@ == reload_line(answers@[k]),
        decreases answers.len() - i,
    {
        let line = match &answers[i].reply {
            Ok(text) => text.clone(),
            Err(e) => {
                let mut line = answers[i].name.clone();
                line.push_str(": ");
                line.push_str(e);
                line
            },
        };
        lines.push(line);
        i += 1;
    }
    assert(views(lines@) =~= Seq::new(answers@.len(), |i: int| reload_line(answers@[i])));
    ToolResult::success(join_with(&lines, "\n"))
}

// ---------------------------------------------------------------------------
// Workspace symbols and raw requests
// ---------------------------------------------------------------------------

/// A symbol of the workspace.
#[derive(Debug)]
pub struct WorkspaceSymbol {
    pub name: String,
    pub kind: String,
    pub container: Option<String>,
    pub location: String,
}

/// One line of the symbol report.
pub open spec fn symbol_line(s: WorkspaceSymbol) -> Seq<char> {
    let container = match s.container {
        Some(c) => " in "@ + c@,
        None => seq![],
    };
    s.name@ + " ("@ + s.kind@ + ")"@ + container + " @ "@ + s.location@
}

/// The lines of the symbol report.
pub open spec fn symbol_lines(query: Seq<char>, symbols: Seq<WorkspaceSymbol>) -> Seq<Seq<char>> {
    seq!["Found "@ + decimal(symbols.len()) + " symbol(s) matching \""@ + query + "\":"@]
        + Seq::new(symbols.len(), |i: int| symbol_line(symbols[i]))
}

/// What the search for workspace symbols answers.
pub open spec fn symbols_answer(
    query: Seq<char>,
    found: Result<Vec<WorkspaceSymbol>, String>,
) -> ResultView {
    match found {
        Ok(symbols) => if symbols@.len() == 0 {
            said("No symbol matches \""@ + query + "\""@, false)
        } else {
            said(join(symbol_lines(query, symbols@), "\n"@), false)
        },
        Err(e) => said("workspace symbols failed: "@ + e@, true),
    }
}

fn symbol_text(s: &WorkspaceSymbol) -> (out: String)
    ensures
        out@ == symbol_line(*s),
{
    let container = match &s.container {
        Some(c) => {
            let mut text = " in ".to_string();
            text.push_str(c);
            text
        },
        None => String::new(),
    };
    let mut out = s.name.clone();
    out.push_str(" (");
    out.push_str(&s.kind);
    out.push_str(")");
    out.push_str(&container);
    out.push_str(" @ ");
    out.push_str(&s.location);
    out
}

/// Answer a search for workspace symbols.
pub fn workspace_symbols_report(query: &str, found: &Result<Vec<WorkspaceSymbol>, String>) -> (r:
    ToolResult)
    ensures
        r@ == symbols_answer(query@, *found),
{
    let symbols = match found {
        Ok(symbols) => symbols,
        Err(e) => {
            let mut out = "workspace symbols failed: ".to_string();
            out.push_str(e);
            return ToolResult::error(out);
        },
    };
    if symbols.len() == 0 {
        let mut out = "No symbol matches \"".to_string();
        out.push_str(query);
        out.push_str("\"");
        return ToolResult::success(out);
    }
    let mut head = "Found ".to_string();
    let n = count(symbols.len());
    head.push_str(&n);
    head.push_str(" symbol(s) matching \"");
    head.push_str(query);
    head.push_str("\":");
    let mut lines: Vec<String> = Vec::new();
    lines.push(head);
    let mut i: usize = 0;
    while i < symbols.len()
        invariant
            i <= symbols@.len(),
            lines@.len() == i + 1,
            lines@[0]@ == "Found "@ + decimal(symbols@.len()) + " symbol(s) matching \""@ + query@
                + "\":"@,
            forall|k: int| 0 <= k < i ==> (#[trigger] lines@[k + 1])@ == symbol_line(symbols@[k]),
        decreases symbols.len() - i,
    {
        let line = symbol_text(&symbols[i]);
        lines.push(line);
        assert(lines@[i + 1]@ == symbol_line(symbols@[i as int]));
        i += 1;
    }
    proof {
        let expected = symbol_lines(query@, symbols@);
        assert forall|k: int| 0 <= k < lines@.len() implies views(lines@)[k] == expected[k] by {
            if k > 0 {
                assert(lines@[(k - 1) + 1]@ == symbol_line(symbols@[k - 1]));
            }
        }
        assert(views(lines@) =~= expected);
    }
    ToolResult::success(join_with(&lines, "\n"))
}

/// What a raw request carries.
#[derive(Debug, PartialEq, Eq, Clone, Copy, Structural)]
pub enum Params {
    /// The caller's own JSON.
    Payload,
    /// An empty object.
    Empty,
    /// The place in the file.
    Position,
}

/// What a raw request carries.
pub open spec fn params_of(i: InputView) -> Params {
    if i.payload is Some {
        Params::Payload
    } else if whole_workspace(i) {
        Params::Empty
    } else {
        Params::Position
    }
}

/// Decide what a raw request carries.
pub fn request_params(i: &LspInput) -> (p: Params)
    ensures
        p == params_of(i@),
{
    if i.payload.is_some() {
        Params::Payload
    } else if i.is_workspace() {
        Params::Empty
    } else {
        Params::Position
    }
}

/// A position counted from one, counted from zero.
pub open spec fn from_zero(n: u32) -> int {
    if n == 0 {
        0
    } else {
        n - 1
    }
}

/// The parameters that point at a place in a file.
pub open spec fn position_json(uri: Seq<char>, line: u32, column: u32) -> JsonView {
    JsonView::Object(
        seq![
            ("textDocument"@, JsonView::Object(seq![("uri"@, JsonView::Text(uri))])),
            (
                "position"@,
                JsonView::Object(
                    seq![
                        ("line"@, integer_json(from_zero(line))),
                        ("character"@, integer_json(from_zero(column))),
                    ],
                ),
            ),
        ],
    )
}

/// The parameters that point at a place in a file.
pub fn position_params(uri: &str, line: u32, column: u32) -> (out: Json)
    ensures
        out@ == position_json(uri@, line, column),
{
    let mut document = no_members();
    put(&mut document, "uri", text(uri));
    assert(members_view(document@) =~= seq![("uri"@, JsonView::Text(uri@))]);
    let mut position = no_members();
    put(&mut position, "line", whole(line.saturating_sub(1) as u64));
    put(&mut position, "character", whole(column.saturating_sub(1) as u64));
    assert(members_view(position@) =~= seq![
        ("line"@, integer_json(from_zero(line))),
        ("character"@, integer_json(from_zero(column))),
    ]);
    let mut members = no_members();
    put(&mut members, "textDocument", object(document));
    put(&mut members, "position", object(position));
    assert(members_view(members@) =~= position_json(uri@, line, column)->Object_0);
    object(members)
}

/// What a payload that is no JSON is answered with.
pub fn bad_payload(cause: &str) -> (r: ToolResult)
    ensures
        r@ == said("`payload` is not JSON: "@ + cause@, true),
{
    let mut out = "`payload` is not JSON: ".to_string();
    out.push_str(cause);
    ToolResult::error(out)
}

/// The parameters that a payload gives, given what it reads as.
pub open spec fn payload_given(read: Result<JsonView, Seq<char>>) -> Result<JsonView, ResultView> {
    match read {
        Ok(params) => Ok(params),
        Err(cause) => Err(said("`payload` is not JSON: "@ + cause, true)),
    }
}

/// The parameters that a payload gives, given what it reads as.
pub fn payload_from(read: Result<Json, String>) -> (r: Result<Json, ToolResult>)
    ensures
        match r {
            Ok(params) => payload_given(read_view(read)) == Ok::<JsonView, ResultView>(params@),
            Err(answer) => payload_given(read_view(read)) == Err::<JsonView, ResultView>(answer@),
        },
{
    match read {
        Ok(params) => Ok(params),
        Err(cause) => Err(bad_payload(&cause)),
    }
}

/// The parameters that a payload gives, or the answer to one that is no JSON.
pub fn payload_params(payload: &str) -> (r: Result<Json, ToolResult>)
    ensures
        match r {
            Ok(params) => payload_given(json_read(payload@)) == Ok::<JsonView, ResultView>(params@),
            Err(answer) => payload_given(json_read(payload@)) == Err::<JsonView, ResultView>(
                answer@,
            ),
        },
{
    payload_from(parse_json(payload))
}

/// The parameters of a raw request, given where it points.
pub open spec fn raw_params(
    i: InputView,
    uri: Seq<char>,
    column: u32,
) -> Result<JsonView, ResultView> {
    match params_of(i) {
        Params::Payload => payload_given(json_read(i.payload->0)),
        Params::Empty => Ok(JsonView::Object(seq![])),
        Params::Position => Ok(position_json(uri, i.line, column)),
    }
}

/// The parameters of a raw request: the payload where the call brought one, nothing
/// for the whole workspace, else the place that the call points at.
pub fn raw_request_params(i: &LspInput, uri: &str, column: u32) -> (r: Result<Json, ToolResult>)
    ensures
        match r {
            Ok(params) => raw_params(i@, uri@, column) == Ok::<JsonView, ResultView>(params@),
            Err(answer) => raw_params(i@, uri@, column) == Err::<JsonView, ResultView>(answer@),
        },
{
    match &i.payload {
        Some(payload) => payload_params(payload),
        None => {
            if i.is_workspace() {
                let members = no_members();
                assert(members_view(members@) =~= seq![]);
                Ok(object(members))
            } else {
                Ok(position_params(uri, i.line, column))
            }
        },
    }
}

/// What a raw request is answered with, given the server's reply.
pub open spec fn raw_answer(
    server: Seq<char>,
    query: Seq<char>,
    reply: Result<JsonView, Seq<char>>,
) -> ResultView {
    match reply {
        Ok(value) => said(server + " answered "@ + query + ":\n"@ + shown(value), false),
        Err(e) => said(e, true),
    }
}

/// Answer a raw request with the server's reply.
pub fn raw_request_report(
    server: &str,
    query: &str,
    reply: Result<serde_json::Value, String>,
) -> (r: ToolResult)
    ensures
        r@ == raw_answer(
            server@,
            query@,
            match reply {
                Ok(value) => Ok(value_held(value)),
                Err(e) => Err(e@),
            },
        ),
{
    match reply {
        Ok(value) => request_report(server, query, &Ok(show_value(&value))),
        Err(e) => request_report(server, query, &Err(e)),
    }
}

/// Answer a raw request, given the reply's text.
pub fn request_report(server: &str, query: &str, reply: &Result<String, String>) -> (r: ToolResult)
    ensures
        r@ == (match *reply {
            Ok(text) => said(server@ + " answered "@ + query@ + ":\n"@ + text@, false),
            Err(e) => said(e@, true),
        }),
{
    match reply {
        Ok(text) => {
            let mut out = server.to_string();
            out.push_str(" answered ");
            out.push_str(query);
            out.push_str(":\n");
            out.push_str(text);
            ToolResult::success(out)
        },
        Err(e) => ToolResult::error(e.clone()),
    }
}

/// Answer a file rename.
pub fn rename_file_report(report: &Result<Vec<String>, String>) -> (r: ToolResult)
    ensures
        r@ == (match *report {
            Ok(lines) => said(join(views(lines@), "\n"@), false),
            Err(e) => said(e@, true),
        }),
{
    match report {
        Ok(lines) => ToolResult::success(join_with(lines, "\n")),
        Err(e) => ToolResult::error(e.clone()),
    }
}

/// Whether a rename is carried out rather than previewed.
pub fn applies_rename(i: &LspInput) -> (r: bool)
    ensures
        r == (i@.apply != Some(false)),
{
    match i.apply {
        Some(b) => b,
        None => true,
    }
}

// ---------------------------------------------------------------------------
// Places
// ---------------------------------------------------------------------------

/// The file and line of a `path:line:column`, split from the right so that a
/// Windows drive letter stays with the path.
pub open spec fn place(location: Seq<char>) -> Option<(Seq<char>, u32)> {
    match last_of(location, ':') {
        None => None,
        Some(j) => match last_of(location.take(j), ':') {
            None => None,
            Some(i) => match parsed(location.subrange(i + 1, j), u32::MAX as nat) {
                Some(n) => Some((location.take(i), n as u32)),
                None => None,
            },
        },
    }
}

/// What an optional place is.
pub open spec fn place_view(p: Option<(String, u32)>) -> Option<(Seq<char>, u32)> {
    match p {
        Some(p) => Some((p.0@, p.1)),
        None => None,
    }
}

/// The file and line of a `path:line:column`.
pub fn place_of(location: &str) -> (r: Option<(String, u32)>)
    ensures
        place_view(r) == place(location@),
{
    let x = chars_of(location);
    assert(x@.take(x@.len() as int) =~= location@);
    let j: usize = match find_last(&x, ':', x.len()) {
        Some(j) => j,
        None => {
            return None;
        },
    };
    let i: usize = match find_last(&x, ':', j) {
        Some(i) => i,
        None => {
            return None;
        },
    };
    let line = string_of(&x, i + 1, j);
    assert(line@ =~= location@.subrange(i + 1, j as int));
    let n: usize = match parse_count(&line) {
        Some(n) => n,
        None => {
            return None;
        },
    };
    if n > u32::MAX as usize {
        return None;
    }
    let path = string_of(&x, 0, i);
    assert(path@ =~= location@.take(i as int));
    Some((path, n as u32))
}

/// Where to read the lines around each place; none past the limit.
pub fn context_places(locations: &Vec<String>) -> (out: Vec<Option<(String, u32)>>)
    ensures
        out@.len() == (if locations@.len() < CONTEXT_LIMIT {
            locations@.len()
        } else {
            CONTEXT_LIMIT as nat
        }),
        forall|i: int|
            0 <= i < out@.len() ==> place_view(#[trigger] out@[i]) == place(locations@[i]@),
{
    let mut out: Vec<Option<(String, u32)>> = Vec::new();
    let mut i: usize = 0;
    while i < locations.len() && i < CONTEXT_LIMIT
        invariant
            i <= locations@.len(),
            i <= CONTEXT_LIMIT,
            out@.len() == i,
            forall|k: int|
                0 <= k < i ==> place_view(#[trigger] out@[k]) == place(locations@[k]@),
        decreases locations.len() - i,
    {
        let place = place_of(&locations[i]);
        out.push(place);
        i += 1;
    }
    out
}

/// The texts of some lists.
pub open spec fn nested(v: Seq<Vec<String>>) -> Seq<Seq<Seq<char>>> {
    Seq::new(v.len(), |i: int| views(v[i]@))
}

/// The first `n` places, each of the first few with the lines around it.
pub open spec fn place_lines(
    locations: Seq<Seq<char>>,
    contexts: Seq<Seq<Seq<char>>>,
    n: int,
) -> Seq<Seq<char>>
    decreases n,
{
    if n <= 0 || n > locations.len() {
        seq![]
    } else {
        let before = place_lines(locations, contexts, n - 1).push(locations[n - 1]);
        if n - 1 < CONTEXT_LIMIT && place(locations[n - 1]) is Some && n - 1 < contexts.len() {
            before + contexts[n - 1]
        } else {
            before
        }
    }
}

/// A list of places under a label.
pub open spec fn locations_text(
    locations: Seq<Seq<char>>,
    contexts: Seq<Seq<Seq<char>>>,
    label: Seq<char>,
) -> Seq<char> {
    if locations.len() == 0 {
        "No "@ + label + " found"@
    } else {
        let head = "Found "@ + decimal(locations.len()) + " "@ + label + ":"@;
        let body = seq![head] + place_lines(locations, contexts, locations.len() as int);
        let all = if locations.len() > CONTEXT_LIMIT {
            body.push(
                "("@ + decimal(CONTEXT_LIMIT as nat)
                    + " shown with context, the rest as locations only)"@,
            )
        } else {
            body
        };
        join(all, "\n"@)
    }
}

/// Format a list of `path:line:column` results, with context for the first few.
/// `contexts` holds what was read at [`context_places`].
pub fn format_locations(
    locations: &Vec<String>,
    contexts: &Vec<Vec<String>>,
    label: &str,
) -> (out: String)
    ensures
        out@ == locations_text(views(locations@), nested(contexts@), label@),
{
    broadcast use views_push;

    if locations.len() == 0 {
        let mut out = "No ".to_string();
        out.push_str(label);
        out.push_str(" found");
        return out;
    }
    let ghost model = views(locations@);
    let ghost around = nested(contexts@);
    let mut head = "Found ".to_string();
    let n = count(locations.len());
    head.push_str(&n);
    head.push_str(" ");
    head.push_str(label);
    head.push_str(":");
    let ghost title = head@;
    let mut lines: Vec<String> = Vec::new();
    lines.push(head);
    let mut i: usize = 0;
    assert(views(lines@) =~= seq![title] + place_lines(model, around, 0));
    while i < locations.len()
        invariant
            i <= locations@.len(),
            model == views(locations@),
            around == nested(contexts@),
            views(lines@) == seq![title] + place_lines(model, around, i as int),
        decreases locations.len() - i,
    {
        let ghost earlier = views(lines@);
        lines.push(locations[i].clone());
        assert(model[i as int] == locations@[i as int]@);
        let ghost before = place_lines(model, around, i as int).push(model[i as int]);
        assert(earlier.push(model[i as int]) =~= seq![title] + before);
        if i < CONTEXT_LIMIT && i < contexts.len() && place_of(&locations[i]).is_some() {
            let context = &contexts[i];
            let ghost added = views(context@);
            assert(around[i as int] == added);
            let mut k: usize = 0;
            assert(before + added.take(0) =~= before);
            while k < context.len()
                invariant
                    k <= context@.len(),
                    added == views(context@),
                    views(lines@) == seq![title] + (before + added.take(k as int)),
                decreases context.len() - k,
            {
                let ghost old_lines = views(lines@);
                lines.push(context[k].clone());
                assert(added.take(k + 1) =~= added.take(k as int).push(context@[k as int]@));
                assert(old_lines.push(context@[k as int]@) =~= seq![title] + (before + added.take(
                    k + 1,
                )));
                k += 1;
            }
            assert(added.take(added.len() as int) =~= added);
        }
        i += 1;
    }
    if locations.len() > CONTEXT_LIMIT {
        let mut note = "(".to_string();
        let n = count(CONTEXT_LIMIT);
        note.push_str(&n);
        note.push_str(" shown with context, the rest as locations only)");
        lines.push(note);
    }
    join_with(&lines, "\n")
}

/// What the places of a lookup are called.
pub open spec fn label_of(lookup: Lookup) -> Seq<char> {
    match lookup {
        Lookup::Definition => "definition(s)"@,
        Lookup::TypeDefinition => "type definition(s)"@,
        Lookup::Implementation => "implementation(s)"@,
        Lookup::References => "reference(s)"@,
    }
}

/// What the places of a lookup are called.
pub fn lookup_label(lookup: Lookup) -> (out: &'static str)
    ensures
        out@ == label_of(lookup),
{
    match lookup {
        Lookup::Definition => "definition(s)",
        Lookup::TypeDefinition => "type definition(s)",
        Lookup::Implementation => "implementation(s)",
        Lookup::References => "reference(s)",
    }
}

/// What a failed action is answered with.
pub open spec fn failed(action: Seq<char>, cause: Seq<char>) -> ResultView {
    said(action + " failed: "@ + cause, true)
}

fn failure(action: &str, cause: &str) -> (r: ToolResult)
    ensures
        r@ == failed(action@, cause@),
{
    let mut out = action.to_string();
    out.push_str(" failed: ");
    out.push_str(cause);
    ToolResult::error(out)
}

/// Answer a lookup, given what was found and what was read around it.
pub fn lookup_report(
    i: &LspInput,
    lookup: Lookup,
    found: &Result<Vec<String>, String>,
    contexts: &Vec<Vec<String>>,
) -> (r: ToolResult)
    ensures
        r@ == (match *found {
            Ok(locations) => said(
                locations_text(views(locations@), nested(contexts@), label_of(lookup)),
                false,
            ),
            Err(e) => failed(i@.action, e@),
        }),
{
    match found {
        Ok(locations) => ToolResult::success(
            format_locations(locations, contexts, lookup_label(lookup)),
        ),
        Err(e) => failure(&i.action, e),
    }
}

/// A place as it is shown: file, line and column.
pub open spec fn spot(file_path: Seq<char>, line: u32, column: u32) -> Seq<char> {
    file_path + ":"@ + decimal(line as nat) + ":"@ + decimal(column as nat)
}

fn spot_text(file_path: &str, line: u32, column: u32) -> (out: String)
    ensures
        out@ == spot(file_path@, line, column),
{
    let mut out = file_path.to_string();
    out.push_str(":");
    out.push_str(&number(line as u64));
    out.push_str(":");
    out.push_str(&number(column as u64));
    out
}

/// Answer a hover.
pub fn hover_report(
    file_path: &str,
    line: u32,
    column: u32,
    found: &Result<Option<String>, String>,
) -> (r: ToolResult)
    ensures
        r@ == (match *found {
            Ok(Some(text)) => said(text@, false),
            Ok(None) => said("No hover information at "@ + spot(file_path@, line, column), false),
            Err(e) => failed("hover"@, e@),
        }),
{
    match found {
        Ok(Some(text)) => ToolResult::success(text.clone()),
        Ok(None) => {
            let mut out = "No hover information at ".to_string();
            let at = spot_text(file_path, line, column);
            out.push_str(&at);
            ToolResult::success(out)
        },
        Err(e) => failure("hover", e),
    }
}

/// Answer a listing of one file's symbols.
pub fn symbols_report(file_path: &str, found: &Result<Vec<String>, String>) -> (r: ToolResult)
    ensures
        r@ == (match *found {
            Ok(symbols) => if symbols@.len() == 0 {
                said("No symbols found in '"@ + file_path@ + "'."@, false)
            } else {
                said("Symbols in "@ + file_path@ + ":\n"@ + join(views(symbols@), "\n"@), false)
            },
            Err(e) => failed("symbols"@, e@),
        }),
{
    match found {
        Ok(symbols) => {
            if symbols.len() == 0 {
                let mut out = "No symbols found in '".to_string();
                out.push_str(file_path);
                out.push_str("'.");
                return ToolResult::success(out);
            }
            let mut out = "Symbols in ".to_string();
            out.push_str(file_path);
            out.push_str(":\n");
            out.push_str(&join_with(symbols, "\n"));
            ToolResult::success(out)
        },
        Err(e) => failure("symbols", e),
    }
}

// ---------------------------------------------------------------------------
// Renames
// ---------------------------------------------------------------------------

/// What becomes of the edit a rename came back with.
#[derive(Debug)]
pub enum RenameStep {
    /// Answer now.
    Finish(ToolResult),
    /// Apply the edit.
    Apply,
}

/// The lines of a rename preview: each file with its number of edits.
pub open spec fn preview_lines(files: Seq<(String, usize)>) -> Seq<Seq<char>> {
    seq!["Rename preview:"@] + Seq::new(
        files.len(),
        |i: int| files[i].0@ + ": "@ + decimal(files[i].1 as nat) + " edit(s)"@,
    )
}

/// What is answered before a rename's edit is applied; none where it is to be applied.
pub open spec fn rename_answer(
    apply: Option<bool>,
    edit: Result<Vec<(String, usize)>, String>,
) -> Option<ResultView> {
    match edit {
        Err(e) => Some(failed("rename"@, e@)),
        Ok(files) => if files@.len() == 0 {
            Some(said("The rename produced no edits"@, false))
        } else if apply == Some(false) {
            Some(said(join(preview_lines(files@), "\n"@), false))
        } else {
            None
        },
    }
}

/// Decide what becomes of the edit a rename came back with: the files it
/// touches, each with its number of edits.
pub fn rename_step(i: &LspInput, edit: &Result<Vec<(String, usize)>, String>) -> (r: RenameStep)
    ensures
        match (r, rename_answer(i@.apply, *edit)) {
            (RenameStep::Finish(out), Some(expected)) => out@ == expected,
            (RenameStep::Apply, None) => true,
            _ => false,
        },
{
    let files = match edit {
        Ok(files) => files,
        Err(e) => {
            return RenameStep::Finish(failure("rename", e));
        },
    };
    if files.len() == 0 {
        return RenameStep::Finish(
            ToolResult::success("The rename produced no edits".to_string()),
        );
    }
    if applies_rename(i) {
        return RenameStep::Apply;
    }
    let mut lines: Vec<String> = Vec::new();
    lines.push("Rename preview:".to_string());
    let mut k: usize = 0;
    while k < files.len()
        invariant
            k <= files@.len(),
            lines@.len() == k + 1,
            lines@[0]@ == "Rename preview:"@,
            forall|j: int|
                0 <= j < k ==> (#[trigger] lines@[j + 1])@ == files@[j].0@ + ": "@ + decimal(
                    files@[j].1 as nat,
                ) + " edit(s)"@,
        decreases files.len() - k,
    {
        let mut line = files[k].0.clone();
        line.push_str(": ");
        line.push_str(&count(files[k].1));
        line.push_str(" edit(s)");
        lines.push(line);
        assert(lines@[k + 1]@ == line@);
        k += 1;
    }
    proof {
        let expected = preview_lines(files@);
        assert forall|j: int| 0 <= j < lines@.len() implies views(lines@)[j] == expected[j] by {
            if j > 0 {
                assert(lines@[(j - 1) + 1]@ == expected[j]);
            }
        }
        assert(views(lines@) =~= expected);
    }
    RenameStep::Finish(ToolResult::success(join_with(&lines, "\n")))
}

/// The lines of a rename's report.
pub open spec fn renamed_lines(
    new_name: Seq<char>,
    applied: Seq<Seq<char>>,
    left: Seq<Seq<char>>,
) -> Seq<Seq<char>> {
    seq!["Renamed to "@ + new_name + ":"@] + applied + Seq::new(
        left.len(),
        |i: int| "not performed: "@ + left[i],
    )
}

/// Answer a rename whose edit was applied: what was changed, and the file
/// operations that were left undone.
pub fn renamed_report(
    new_name: &str,
    applied: &Result<Vec<String>, String>,
    left: &Vec<String>,
) -> (r: ToolResult)
    ensures
        r@ == (match *applied {
            Ok(lines) => said(
                join(renamed_lines(new_name@, views(lines@), views(left@)), "\n"@),
                false,
            ),
            Err(e) => said("could not apply the rename: "@ + e@, true),
        }),
{
    broadcast use views_push;

    let done = match applied {
        Ok(lines) => lines,
        Err(e) => {
            let mut out = "could not apply the rename: ".to_string();
            out.push_str(e);
            return ToolResult::error(out);
        },
    };
    let mut head = "Renamed to ".to_string();
    head.push_str(new_name);
    head.push_str(":");
    let ghost first = seq![head@];
    let ghost changes = views(done@);
    let mut lines: Vec<String> = Vec::new();
    lines.push(head);
    let mut i: usize = 0;
    assert(views(lines@) =~= first + changes.take(0));
    while i < done.len()
        invariant
            i <= done@.len(),
            changes == views(done@),
            views(lines@) == first + changes.take(i as int),
        decreases done.len() - i,
    {
        let ghost before = views(lines@);
        lines.push(done[i].clone());
        assert(before.push(done@[i as int]@) =~= first + changes.take(i + 1));
        i += 1;
    }
    assert(changes.take(changes.len() as int) =~= changes);
    let ghost undone = Seq::new(left@.len(), |k: int| "not performed: "@ + views(left@)[k]);
    let mut k: usize = 0;
    assert(views(lines@) =~= first + changes + undone.take(0));
    while k < left.len()
        invariant
            k <= left@.len(),
            undone == Seq::new(left@.len(), |k: int| "not performed: "@ + views(left@)[k]),
            views(lines@) == first + changes + undone.take(k as int),
        decreases left.len() - k,
    {
        let mut line = "not performed: ".to_string();
        line.push_str(&left[k]);
        let ghost before = views(lines@);
        lines.push(line);
        assert(undone[k as int] == line@);
        assert(before.push(line@) =~= first + changes + undone.take(k + 1));
        k += 1;
    }
    assert(undone.take(undone.len() as int) =~= undone);
    assert(views(lines@) =~= renamed_lines(new_name@, changes, views(left@)));
    ToolResult::success(join_with(&lines, "\n"))
}

// ---------------------------------------------------------------------------
// Code actions
// ---------------------------------------------------------------------------

/// A code action that a server offers.
#[derive(Debug)]
pub struct CodeAction {
    pub title: Option<String>,
    pub kind: Option<String>,
}

/// Read a code action as the server describes it.
pub fn read_action(v: &Json) -> (a: CodeAction)
    ensures
        opt_view(a.title) == v@.text_of("title"@),
        opt_view(a.kind) == v@.text_of("kind"@),
{
    CodeAction { title: v.text_of("title"), kind: v.text_of("kind") }
}

/// An action's title.
pub open spec fn title_of(a: CodeAction) -> Seq<char> {
    match a.title {
        Some(t) => t@,
        None => "<untitled>"@,
    }
}

/// The actions' titles.
pub open spec fn titles(actions: Seq<CodeAction>) -> Seq<Seq<char>> {
    Seq::new(actions.len(), |i: int| title_of(actions[i]))
}

/// The kind that a listing of actions is narrowed to; none where one is to be applied.
pub fn listing_filter(i: &LspInput) -> (r: Option<String>)
    ensures
        opt_view(r) == (if i@.apply == Some(true) {
            None
        } else {
            Some(i@.query)
        }),
{
    match i.apply {
        Some(true) => None,
        _ => Some(i.query.clone()),
    }
}

/// The first title from `from` on that holds the text, whatever its case.
pub open spec fn first_title(all: Seq<Seq<char>>, wanted: Seq<char>, from: int) -> Option<int>
    decreases all.len() - from,
{
    if from < 0 || from >= all.len() {
        None
    } else if contains(lowercased(all[from]), wanted) {
        Some(from)
    } else {
        first_title(all, wanted, from + 1)
    }
}

/// The action that a query selects: by its index, or by part of its title.
pub open spec fn selected(query: Seq<char>, all: Seq<Seq<char>>) -> Option<int> {
    match parsed(query, usize::MAX as nat) {
        Some(n) => if n < all.len() {
            Some(n as int)
        } else {
            first_title(all, lowercased(query), 0)
        },
        None => first_title(all, lowercased(query), 0),
    }
}

/// The titles of some actions.
pub fn action_titles(actions: &Vec<CodeAction>) -> (out: Vec<String>)
    ensures
        views(out@) == titles(actions@),
{
    let mut out: Vec<String> = Vec::new();
    let mut i: usize = 0;
    while i < actions.len()
        invariant
            i <= actions@.len(),
            out@.len() == i,
            forall|k: int| 0 <= k < i ==> (#[trigger] out@[k])@ == title_of(actions@[k]),
        decreases actions.len() - i,
    {
        out.push(
            match &actions[i].title {
                Some(t) => t.clone(),
                None => "<untitled>".to_string(),
            },
        );
        i += 1;
    }
    assert(views(out@) =~= titles(actions@));
    out
}

fn select(query: &str, all: &Vec<String>) -> (r: Option<usize>)
    ensures
        match r {
            Some(i) => selected(query@, views(all@)) == Some(i as int) && i < all@.len(),
            None => selected(query@, views(all@)) is None,
        },
{
    if let Some(n) = parse_count(query) {
        if n < all.len() {
            return Some(n);
        }
    }
    let wanted = lowercase(query);
    let ghost model = views(all@);
    let mut i: usize = 0;
    while i < all.len()
        invariant
            i <= all@.len(),
            model == views(all@),
            selected(query@, model) == first_title(model, wanted@, i as int),
        decreases all.len() - i,
    {
        assert(model[i as int] == all@[i as int]@);
        if has(&lowercase(&all[i]), &wanted) {
            return Some(i);
        }
        i += 1;
    }
    None
}

/// What becomes of the actions a server offers.
#[derive(Debug)]
pub enum ActionStep {
    /// Answer now.
    Finish(ToolResult),
    /// Apply the action at the index.
    Apply(usize),
}

/// The lines of a listing of actions.
pub open spec fn listing_lines(actions: Seq<CodeAction>) -> Seq<Seq<char>> {
    seq![decimal(actions.len()) + " code action(s):"@] + Seq::new(
        actions.len(),
        |i: int|
            decimal(i as nat) + ": ["@ + (match actions[i].kind {
                Some(k) => k@,
                None => seq![],
            }) + "] "@ + title_of(actions[i]),
    ) + seq![
        "Pass apply=true with query set to the index or part of the title to apply one."@,
    ]
}

/// The lines that say no action was selected.
pub open spec fn unmatched_lines(query: Seq<char>, all: Seq<Seq<char>>) -> Seq<Seq<char>> {
    seq!["No code action matches \""@ + query + "\". Available:"@] + Seq::new(
        all.len(),
        |i: int| decimal(i as nat) + ": "@ + all[i],
    )
}

/// What is answered to the actions a server offers; none where one is to be applied.
pub open spec fn actions_answer(
    i: InputView,
    at: Seq<char>,
    found: Result<Vec<CodeAction>, String>,
) -> Option<ResultView> {
    match found {
        Err(e) => Some(said("code actions failed: "@ + e@, true)),
        Ok(actions) => if actions@.len() == 0 {
            Some(said("No code action at "@ + at, false))
        } else if i.apply != Some(true) {
            Some(said(join(listing_lines(actions@), "\n"@), false))
        } else if i.query.len() == 0 {
            Some(
                said(
                    "applying a code action needs `query`: the index or part of the title"@,
                    true,
                ),
            )
        } else if selected(i.query, titles(actions@)) is None {
            Some(said(join(unmatched_lines(i.query, titles(actions@)), "\n"@), false))
        } else {
            None
        },
    }
}

fn listing_text(actions: &Vec<CodeAction>) -> (out: String)
    ensures
        out@ == join(listing_lines(actions@), "\n"@),
{
    broadcast use views_push;

    let ghost expected = listing_lines(actions@);
    let mut head = count(actions.len());
    head.push_str(" code action(s):");
    let mut lines: Vec<String> = Vec::new();
    lines.push(head);
    let mut i: usize = 0;
    assert(views(lines@) =~= expected.take(1));
    while i < actions.len()
        invariant
            i <= actions@.len(),
            expected == listing_lines(actions@),
            views(lines@) == expected.take(i + 1),
        decreases actions.len() - i,
    {
        let mut line = count(i);
        line.push_str(": [");
        let kind = match &actions[i].kind {
            Some(k) => k.clone(),
            None => String::new(),
        };
        line.push_str(&kind);
        line.push_str("] ");
        let title = match &actions[i].title {
            Some(t) => t.clone(),
            None => "<untitled>".to_string(),
        };
        line.push_str(&title);
        let ghost before = views(lines@);
        lines.push(line);
        assert(expected[i + 1] == line@);
        assert(before.push(line@) =~= expected.take(i + 2));
        i += 1;
    }
    lines.push(
        "Pass apply=true with query set to the index or part of the title to apply one.".to_string(),
    );
    assert(views(lines@) =~= expected);
    join_with(&lines, "\n")
}

fn unmatched_text(query: &str, all: &Vec<String>) -> (out: String)
    ensures
        out@ == join(unmatched_lines(query@, views(all@)), "\n"@),
{
    broadcast use views_push;

    let ghost expected = unmatched_lines(query@, views(all@));
    let mut head = "No code action matches \"".to_string();
    head.push_str(query);
    head.push_str("\". Available:");
    let mut lines: Vec<String> = Vec::new();
    lines.push(head);
    let mut i: usize = 0;
    assert(views(lines@) =~= expected.take(1));
    while i < all.len()
        invariant
            i <= all@.len(),
            expected == unmatched_lines(query@, views(all@)),
            views(lines@) == expected.take(i + 1),
        decreases all.len() - i,
    {
        let mut line = count(i);
        line.push_str(": ");
        line.push_str(&all[i]);
        let ghost before = views(lines@);
        lines.push(line);
        assert(expected[i + 1] == line@);
        assert(before.push(line@) =~= expected.take(i + 2));
        i += 1;
    }
    assert(views(lines@) =~= expected);
    join_with(&lines, "\n")
}

/// Decide what becomes of the actions a server offers at a place.
pub fn action_step(
    i: &LspInput,
    file_path: &str,
    column: u32,
    found: &Result<Vec<CodeAction>, String>,
) -> (r: ActionStep)
    ensures
        match (r, actions_answer(i@, spot(file_path@, i@.line, column), *found)) {
            (ActionStep::Finish(out), Some(expected)) => out@ == expected,
            (ActionStep::Apply(index), None) => (*found matches Ok(actions) && index
                < actions@.len() && selected(i@.query, titles(actions@)) == Some(index as int)),
            _ => false,
        },
{
    let actions = match found {
        Ok(actions) => actions,
        Err(e) => {
            let mut out = "code actions failed: ".to_string();
            out.push_str(e);
            return ActionStep::Finish(ToolResult::error(out));
        },
    };
    if actions.len() == 0 {
        let mut out = "No code action at ".to_string();
        let at = spot_text(file_path, i.line, column);
        out.push_str(&at);
        return ActionStep::Finish(ToolResult::success(out));
    }
    let applies = match i.apply {
        Some(b) => b,
        None => false,
    };
    if !applies {
        return ActionStep::Finish(ToolResult::success(listing_text(actions)));
    }
    if i.query.as_str().is_empty() {
        return ActionStep::Finish(
            ToolResult::error(
                "applying a code action needs `query`: the index or part of the title".to_string(),
            ),
        );
    }
    let all = action_titles(actions);
    match select(&i.query, &all) {
        Some(index) => ActionStep::Apply(index),
        None => ActionStep::Finish(ToolResult::success(unmatched_text(&i.query, &all))),
    }
}

/// Answer a code action that was applied.
pub fn applied_report(title: &str, report: &Result<Vec<String>, String>) -> (r: ToolResult)
    ensures
        r@ == (match *report {
            Ok(lines) => if lines@.len() == 0 {
                said("\""@ + title@ + "\" has no edit and no command to apply"@, false)
            } else {
                said("Applied \""@ + title@ + "\":\n"@ + join(views(lines@), "\n"@), false)
            },
            Err(e) => said("could not apply the action: "@ + e@, true),
        }),
{
    match report {
        Ok(lines) => {
            if lines.len() == 0 {
                let mut out = "\"".to_string();
                out.push_str(title);
                out.push_str("\" has no edit and no command to apply");
                return ToolResult::success(out);
            }
            let mut out = "Applied \"".to_string();
            out.push_str(title);
            out.push_str("\":\n");
            out.push_str(&join_with(lines, "\n"));
            ToolResult::success(out)
        },
        Err(e) => {
            let mut out = "could not apply the action: ".to_string();
            out.push_str(e);
            ToolResult::error(out)
        },
    }
}

// ---------------------------------------------------------------------------
// Diagnostics
// ---------------------------------------------------------------------------

/// How many diagnostics an answer carries.
pub fn shown_diagnostics(total: usize) -> (n: usize)
    ensures
        n == (if total < DIAGNOSTIC_MESSAGE_LIMIT {
            total
        } else {
            DIAGNOSTIC_MESSAGE_LIMIT
        }),
{
    if total < DIAGNOSTIC_MESSAGE_LIMIT {
        total
    } else {
        DIAGNOSTIC_MESSAGE_LIMIT
    }
}

/// Answer a request for diagnostics, given how many there are and the text of
/// those that are shown.
pub fn diagnostics_report(file_path: &str, total: usize, shown: &str) -> (r: ToolResult)
    ensures
        r@ == said(
            if total == 0 {
                "No diagnostics for '"@ + file_path@ + "'."@
            } else if total > DIAGNOSTIC_MESSAGE_LIMIT {
                shown@ + "\n... and "@ + decimal((total - DIAGNOSTIC_MESSAGE_LIMIT) as nat)
                    + " more, hidden to keep the output readable"@
            } else {
                shown@
            },
            false,
        ),
{
    if total == 0 {
        let mut out = "No diagnostics for '".to_string();
        out.push_str(file_path);
        out.push_str("'.");
        return ToolResult::success(out);
    }
    let n: usize = shown_diagnostics(total);
    if total > n {
        let mut out = shown.to_string();
        out.push_str("\n... and ");
        out.push_str(&count(total - n));
        out.push_str(" more, hidden to keep the output readable");
        return ToolResult::success(out);
    }
    ToolResult::success(shown.to_string())
}

/// What a file that could not be sent to its server is answered with. A raw request
/// is answered with the cause alone.
pub fn unsent(i: &LspInput, cause: &str) -> (r: ToolResult)
    ensures
        r@ == said(
            if planned(i@) is RawRequest {
                cause@
            } else {
                "could not send the file to the server: "@ + cause@
            },
            true,
        ),
{
    if let LspPlan::RawRequest = plan(i) {
        return ToolResult::error(cause.to_string());
    }
    let mut out = "could not send the file to the server: ".to_string();
    out.push_str(cause);
    ToolResult::error(out)
}

// ---------------------------------------------------------------------------
// What holds of the answers
// ---------------------------------------------------------------------------

proof fn places_and_what_is_around(
    locations: Seq<Seq<char>>,
    contexts: Seq<Seq<Seq<char>>>,
    around: Seq<Seq<Seq<char>>>,
    n: int,
)
    requires
        0 <= n <= locations.len(),
        around.len() == locations.len(),
        forall|i: int|
            0 <= i < around.len() ==> #[trigger] around[i] == (if i < CONTEXT_LIMIT && i
                < contexts.len() && place(locations[i]) is Some {
                contexts[i]
            } else {
                seq![]
            }),
    ensures
        place_lines(locations, contexts, n) == Seq::new(
            n as nat,
            |i: int| seq![locations[i]] + around[i],
        ).flatten(),
    decreases n,
{
    let parts = Seq::new(n as nat, |i: int| seq![locations[i]] + around[i]);
    if n > 0 {
        let fewer = Seq::new((n - 1) as nat, |i: int| seq![locations[i]] + around[i]);
        places_and_what_is_around(locations, contexts, around, n - 1);
        let part = seq![locations[n - 1]] + around[n - 1];
        fewer.lemma_flatten_push(part);
        assert(parts =~= fewer.push(part));
        assert(place_lines(locations, contexts, n) =~= fewer.flatten() + part);
    } else {
        assert(parts =~= seq![]);
        assert(parts.flatten() =~= seq![]);
    }
}

/// Every place found is a line of the answer, in the order found and as often as
/// found. What was read around one of the first twenty follows it, where it names a
/// line; nothing follows the others. The heading tells how many there are.
pub proof fn every_place_found_is_answered(
    locations: Seq<Seq<char>>,
    contexts: Seq<Seq<Seq<char>>>,
    label: Seq<char>,
    around: Seq<Seq<Seq<char>>>,
    note: Seq<Seq<char>>,
)
    requires
        locations.len() > 0,
        around.len() == locations.len(),
        forall|i: int|
            0 <= i < around.len() ==> #[trigger] around[i] == (if i < 20 && i < contexts.len()
                && place(locations[i]) is Some {
                contexts[i]
            } else {
                seq![]
            }),
        note == (if locations.len() > 20 {
            seq!["(20 shown with context, the rest as locations only)"@]
        } else {
            seq![]
        }),
    ensures
        locations_text(locations, contexts, label) == join(
            seq!["Found "@ + decimal(locations.len()) + " "@ + label + ":"@] + Seq::new(
                locations.len(),
                |i: int| seq![locations[i]] + around[i],
            ).flatten() + note,
            seq!['\n'],
        ),
{
    reveal_strlit("\n");
    assert("\n"@ =~= seq!['\n']);
    let n = locations.len() as int;
    places_and_what_is_around(locations, contexts, around, n);
    let head = "Found "@ + decimal(locations.len()) + " "@ + label + ":"@;
    let body = seq![head] + place_lines(locations, contexts, n);
    if n > 20 {
        reveal_with_fuel(decimal, 3);
        reveal_strlit("(");
        reveal_strlit(" shown with context, the rest as locations only)");
        reveal_strlit("(20 shown with context, the rest as locations only)");
        let last = "("@ + decimal(CONTEXT_LIMIT as nat)
            + " shown with context, the rest as locations only)"@;
        assert(decimal(20) =~= seq!['2', '0']);
        assert(last =~= note[0]);
        assert(body.push(last) =~= body + note);
    } else {
        assert(body =~= body + note);
    }
}

/// With nothing read around them, the lines after the heading are the places found.
pub proof fn bare_places_are_the_answer(locations: Seq<Seq<char>>, label: Seq<char>)
    requires
        0 < locations.len() <= 20,
        proper_lines(locations),
        !label.contains('\n'),
    ensures
        lines(locations_text(locations, seq![], label)).skip(1) == locations,
{
    let n = locations.len() as int;
    let around: Seq<Seq<Seq<char>>> = Seq::new(locations.len(), |i: int| seq![]);
    every_place_found_is_answered(locations, seq![], label, around, seq![]);
    let parts = Seq::new(locations.len(), |i: int| seq![locations[i]] + around[i]);
    singles_flatten(locations, n);
    assert(parts =~= Seq::new(locations.len(), |i: int| seq![locations[i]])) by {
        assert forall|i: int| 0 <= i < n implies parts[i] == seq![locations[i]] by {
            assert(seq![locations[i]] + around[i] =~= seq![locations[i]]);
        }
    }
    assert(locations.take(n) =~= locations);
    reveal_strlit("\n");
    reveal_strlit("Found ");
    reveal_strlit(" ");
    reveal_strlit(":");
    assert("\n"@ =~= seq!['\n']);
    decimal_reads_back(locations.len());
    let head = "Found "@ + decimal(locations.len()) + " "@ + label + ":"@;
    let all = seq![head] + locations;
    assert(seq![head] + parts.flatten() + seq![] =~= all);
    assert(head.last() == ':');
    assert forall|i: int| 0 <= i < head.len() implies head[i] != '\n' by {
        if 6 <= i < 6 + decimal(locations.len()).len() {
            assert(head[i] == decimal(locations.len())[i - 6]);
        } else if i >= 7 + decimal(locations.len()).len() && i < head.len() - 1 {
            assert(head[i] == label[i - 7 - decimal(locations.len()).len()]);
        }
    }
    assert forall|i: int| 0 <= i < all.len() implies !(#[trigger] all[i]).contains('\n') by {
        if i > 0 {
            assert(all[i] == locations[i - 1]);
        }
    }
    assert forall|i: int| 0 <= i < all.len() - 1 implies crate::text::strip_cr(#[trigger] all[i])
        == all[i] by {
        if i > 0 {
            assert(all[i] == locations[i - 1]);
        }
    }
    assert(all.last() == locations.last());
    lines_of_joined(all);
    assert(all.skip(1) =~= locations);
}

proof fn singles_flatten(all: Seq<Seq<char>>, n: int)
    requires
        0 <= n <= all.len(),
    ensures
        Seq::new(n as nat, |i: int| seq![all[i]]).flatten() == all.take(n),
    decreases n,
{
    let parts = Seq::new(n as nat, |i: int| seq![all[i]]);
    if n > 0 {
        let fewer = Seq::new((n - 1) as nat, |i: int| seq![all[i]]);
        singles_flatten(all, n - 1);
        fewer.lemma_flatten_push(seq![all[n - 1]]);
        assert(parts =~= fewer.push(seq![all[n - 1]]));
        assert(all.take(n) =~= all.take(n - 1) + seq![all[n - 1]]);
    } else {
        assert(parts =~= seq![]);
        assert(all.take(0) =~= seq![]);
    }
}

proof fn last_of_is(s: Seq<char>, c: char, at: int)
    requires
        0 <= at < s.len(),
        s[at] == c,
        forall|i: int| at < i < s.len() ==> s[i] != c,
    ensures
        last_of(s, c) == Some(at),
    decreases s.len(),
{
    if s.last() != c {
        last_of_is(s.drop_last(), c, at);
    }
}

/// A place as it is shown reads back as its file and its line, whatever the file is
/// called.
pub proof fn a_shown_place_reads_back(file_path: Seq<char>, line: u32, column: u32)
    ensures
        place(spot(file_path, line, column)) == Some((file_path, line)),
{
    reveal_strlit(":");
    decimal_reads_back(line as nat);
    decimal_reads_back(column as nat);
    let s = spot(file_path, line, column);
    let i = file_path.len() as int;
    let j = i + 1 + decimal(line as nat).len();
    assert forall|k: int| j < k < s.len() implies s[k] != ':' by {
        assert(s[k] == decimal(column as nat)[k - j - 1]);
    }
    last_of_is(s, ':', j);
    let front = s.take(j);
    assert forall|k: int| i < k < front.len() implies front[k] != ':' by {
        assert(front[k] == decimal(line as nat)[k - i - 1]);
    }
    last_of_is(front, ':', i);
    assert(s.subrange(i + 1, j) =~= decimal(line as nat));
    assert(s.take(i) =~= file_path);
    assert(crate::text::unplus(decimal(line as nat)) == decimal(line as nat));
}

/// The servers named for the workspace are those that are not disabled, in order.
pub proof fn the_enabled_are_named(servers: Seq<ServerState>)
    ensures
        enabled(servers) == servers.filter(|s: ServerState| !s.disabled).map_values(
            |s: ServerState| s.name@,
        ),
    decreases servers.len(),
{
    reveal(Seq::filter);
    let kept = servers.filter(|s: ServerState| !s.disabled);
    if servers.len() > 0 {
        the_enabled_are_named(servers.drop_last());
        let fewer = servers.drop_last().filter(|s: ServerState| !s.disabled);
        if !servers.last().disabled {
            assert(kept =~= fewer.push(servers.last()));
        } else {
            assert(kept =~= fewer);
        }
    }
    assert(enabled(servers) =~= kept.map_values(|s: ServerState| s.name@));
}

proof fn first_usable_from(servers: Seq<ServerState>, from: int)
    requires
        0 <= from,
    ensures
        match first_usable(servers, from) {
            Some(name) => exists|k: int|
                from <= k < servers.len() && name == (#[trigger] servers[k]).name@
                    && !servers[k].disabled && !servers[k].is_linter && forall|j: int|
                    from <= j < k ==> (#[trigger] servers[j]).disabled || servers[j].is_linter,
            None => forall|j: int|
                from <= j < servers.len() ==> (#[trigger] servers[j]).disabled
                    || servers[j].is_linter,
        },
    decreases servers.len() - from,
{
    if from < servers.len() {
        if servers[from].disabled || servers[from].is_linter {
            first_usable_from(servers, from + 1);
        } else {
            assert(servers[from].name@ == first_usable(servers, from)->0);
        }
    }
}

/// A raw request for the workspace goes to the first server that is neither disabled
/// nor a linter; to none only where there is no such server.
pub proof fn the_first_usable_server_is_asked(servers: Seq<ServerState>)
    ensures
        match first_usable(servers, 0) {
            Some(name) => exists|k: int|
                0 <= k < servers.len() && name == (#[trigger] servers[k]).name@
                    && !servers[k].disabled && !servers[k].is_linter && forall|j: int|
                    0 <= j < k ==> (#[trigger] servers[j]).disabled || servers[j].is_linter,
            None => forall|j: int|
                0 <= j < servers.len() ==> (#[trigger] servers[j]).disabled
                    || servers[j].is_linter,
        },
{
    first_usable_from(servers, 0);
}

proof fn first_title_from(all: Seq<Seq<char>>, wanted: Seq<char>, from: int)
    requires
        0 <= from,
    ensures
        match first_title(all, wanted, from) {
            Some(k) => from <= k < all.len() && contains(lowercased(all[k]), wanted) && forall|j: int|
                from <= j < k ==> !contains(lowercased(#[trigger] all[j]), wanted),
            None => forall|j: int|
                from <= j < all.len() ==> !contains(lowercased(#[trigger] all[j]), wanted),
        },
    decreases all.len() - from,
{
    if from < all.len() && !contains(lowercased(all[from]), wanted) {
        first_title_from(all, wanted, from + 1);
    }
}

/// An action is selected by its index, and where the query is no index, by the first
/// title that holds it, whatever the case of either; none is where no title does.
pub proof fn an_action_is_selected(query: Seq<char>, all: Seq<Seq<char>>, n: nat)
    ensures
        n < all.len() && all.len() <= usize::MAX ==> selected(decimal(n), all) == Some(n as int),
        parsed(query, usize::MAX as nat) is None ==> match selected(query, all) {
            Some(k) => 0 <= k < all.len() && contains(lowercased(all[k]), lowercased(query))
                && forall|j: int|
                0 <= j < k ==> !contains(lowercased(#[trigger] all[j]), lowercased(query)),
            None => forall|j: int|
                0 <= j < all.len() ==> !contains(lowercased(#[trigger] all[j]), lowercased(query)),
        },
{
    decimal_reads_back(n);
    assert(crate::text::unplus(decimal(n)) == decimal(n));
    first_title_from(all, lowercased(query), 0);
}

/// Each line of a listing of actions begins with the index that selects its action,
/// and ends with the action's title.
pub proof fn a_listed_index_selects_its_action(actions: Seq<CodeAction>, n: int)
    requires
        0 <= n < actions.len(),
        actions.len() <= usize::MAX,
    ensures
        listing_lines(actions).len() == actions.len() + 2,
        (decimal(n as nat) + seq![':']).is_prefix_of(listing_lines(actions)[n + 1]),
        title_of(actions[n]).is_suffix_of(listing_lines(actions)[n + 1]),
        selected(decimal(n as nat), titles(actions)) == Some(n),
{
    reveal_strlit(": [");
    reveal_strlit("] ");
    an_action_is_selected(seq![], titles(actions), n as nat);
    let line = listing_lines(actions)[n + 1];
    let kind = match actions[n].kind {
        Some(k) => k@,
        None => seq![],
    };
    assert(line == decimal(n as nat) + ": ["@ + kind + "] "@ + title_of(actions[n]));
    assert(decimal(n as nat) + seq![':'] =~= line.take(decimal(n as nat).len() + 1int));
    assert(title_of(actions[n]) =~= line.skip(line.len() - title_of(actions[n]).len()));
}

/// Every symbol found has a line of its own in the answer, in the order found, that
/// gives its name, its kind, what holds it and where it stands.
pub proof fn every_symbol_found_is_answered(
    query: Seq<char>,
    found: Result<Vec<WorkspaceSymbol>, String>,
    symbols: Seq<WorkspaceSymbol>,
    held: Seq<Seq<char>>,
)
    requires
        found is Ok,
        symbols == found->Ok_0@,
        symbols.len() > 0,
        held.len() == symbols.len(),
        forall|i: int|
            0 <= i < held.len() ==> #[trigger] held[i] == (match symbols[i].container {
                Some(c) => " in "@ + c@,
                None => seq![],
            }),
    ensures
        symbols_answer(query, found) == said(
            join(
                seq!["Found "@ + decimal(symbols.len()) + " symbol(s) matching \""@ + query + "\":"@]
                    + Seq::new(
                    symbols.len(),
                    |i: int|
                        symbols[i].name@ + " ("@ + symbols[i].kind@ + ")"@ + held[i] + " @ "@
                            + symbols[i].location@,
                ),
                "\n"@,
            ),
            false,
        ),
{
    let expected = Seq::new(
        symbols.len(),
        |i: int|
            symbols[i].name@ + " ("@ + symbols[i].kind@ + ")"@ + held[i] + " @ "@
                + symbols[i].location@,
    );
    assert forall|i: int| 0 <= i < symbols.len() implies symbol_line(symbols[i]) == #[trigger] expected[i] by {
        assert(held[i] == held[i]);
    }
    assert(Seq::new(symbols.len(), |i: int| symbol_line(symbols[i])) =~= expected);
}

/// Every configured server has a line of its own in the status report, in order. One
/// that is disabled is never called running, and one that is called so is running.
pub proof fn every_server_is_reported(
    servers: Seq<ServerState>,
    running: Seq<(String, String)>,
    i: int,
)
    requires
        0 <= i < servers.len(),
    ensures
        status_answer(servers, running) == said(join(status_lines(servers, running), "\n"@), false),
        status_lines(servers, running).len() == servers.len() + 1,
        ({
            let line = status_lines(servers, running)[i + 1];
            let front = "  "@ + servers[i].name@ + (if servers[i].is_linter {
                " (linter)"@
            } else {
                seq![]
            }) + ": "@;
            &&& servers[i].disabled ==> line == front + "disabled"@
            &&& !servers[i].disabled && (exists|k: int|
                0 <= k < running.len() && (#[trigger] running[k]).0@ == servers[i].name@) ==> line
                == front + "running"@
            &&& !servers[i].disabled && !is_running(servers[i].name@, running)
                && servers[i].installed ==> line == front + "configured, not started"@
            &&& !servers[i].disabled && !is_running(servers[i].name@, running)
                && !servers[i].installed ==> line == front + "`"@ + servers[i].command@
                + "` is not installed"@
        }),
{
    let s = servers[i];
    let front = "  "@ + s.name@ + (if s.is_linter {
        " (linter)"@
    } else {
        seq![]
    }) + ": "@;
    assert(front + ("`"@ + s.command@ + "` is not installed"@) =~= front + "`"@ + s.command@
        + "` is not installed"@);
    if exists|k: int| 0 <= k < running.len() && (#[trigger] running[k]).0@ == s.name@ {
        let k = choose|k: int| 0 <= k < running.len() && (#[trigger] running[k]).0@ == s.name@;
        assert(s.name@ =~= running_text(running[k]).take(s.name@.len() as int));
        assert(is_running(s.name@, running));
    }
}

/// Every file of a rename is in its preview, in order, with its number of edits; and
/// of a rename that was made, every change, and then every operation left undone.
pub proof fn a_rename_tells_all(
    files: Seq<(String, usize)>,
    new_name: Seq<char>,
    applied: Seq<Seq<char>>,
    left: Seq<Seq<char>>,
)
    ensures
        preview_lines(files).len() == files.len() + 1,
        forall|i: int|
            0 <= i < files.len() ==> #[trigger] preview_lines(files)[i + 1] == files[i].0@ + ": "@
                + decimal(files[i].1 as nat) + " edit(s)"@,
        renamed_lines(new_name, applied, left).len() == 1 + applied.len() + left.len(),
        renamed_lines(new_name, applied, left)[0] == "Renamed to "@ + new_name + ":"@,
        renamed_lines(new_name, applied, left).subrange(1, 1int + applied.len()) == applied,
        forall|i: int|
            0 <= i < left.len() ==> #[trigger] renamed_lines(new_name, applied, left)[1
                + applied.len() + i] == "not performed: "@ + left[i],
{
    assert(renamed_lines(new_name, applied, left).subrange(1, 1int + applied.len()) =~= applied);
}

/// A position is sent counted from zero: the first line and column are the zeroth,
/// and one further on is one further on.
pub proof fn positions_are_counted_from_zero(n: u32)
    ensures
        from_zero(1) == 0,
        1 <= n < u32::MAX ==> from_zero((n + 1) as u32) == from_zero(n) + 1,
        from_zero(0) == 0,
{
}

/// Where no server answers for a file, each that could is told with its own reason: what
/// is missing of its markers and its program, or that it is switched off.
pub proof fn each_candidate_has_its_reason(file_path: Seq<char>, candidates: Seq<Candidate>, i: int)
    requires
        0 <= i < candidates.len(),
    ensures
        no_server(file_path, candidates) == "No language server is running for '"@ + file_path
            + "'. The servers that could serve it:\n"@ + join(
            Seq::new(candidates.len(), |k: int| "  - "@ + reason(candidates[k])),
            "\n"@,
        ),
        ({
            let c = candidates[i];
            let markers = join(views(c.root_markers@), " or "@);
            &&& c.has_marker && c.has_binary ==> reason(c) == c.name@ + ": switched off"@
            &&& c.has_marker && !c.has_binary ==> reason(c) == c.name@ + ": `"@ + c.command@
                + "` is not installed"@
            &&& !c.has_marker && c.has_binary ==> reason(c) == c.name@ + ": no "@ + markers
                + " in this directory"@
            &&& !c.has_marker && !c.has_binary ==> reason(c) == c.name@ + ": no "@ + markers
                + " in this directory, and `"@ + c.command@ + "` is not installed"@
        }),
{
}

/// What a server answered stands under its name, and why it did not where it did not.
pub proof fn each_answer_stands_under_its_name(a: Answer)
    ensures
        a.reply is Ok ==> capability_section(a) == a.name@ + ":\n"@ + a.reply->Ok_0@,
        a.reply is Err ==> capability_section(a) == a.name@ + ": "@ + a.reply->Err_0@,
        a.reply is Ok ==> reload_line(a) == a.reply->Ok_0@,
        a.reply is Err ==> reload_line(a) == a.name@ + ": "@ + a.reply->Err_0@,
{
}

/// A rename is applied unless it is asked not to be or there is nothing to apply; a
/// failure is always told.
pub proof fn a_rename_is_applied_unless_asked_not_to(
    apply: Option<bool>,
    edit: Result<Vec<(String, usize)>, String>,
)
    ensures
        rename_answer(apply, edit) is None <==> edit is Ok && edit->Ok_0@.len() > 0 && apply != Some(
            false,
        ),
        edit is Err ==> rename_answer(apply, edit) is Some && rename_answer(
            apply,
            edit,
        )->0.is_error,
        edit is Ok && edit->Ok_0@.len() > 0 && apply == Some(false) ==> rename_answer(apply, edit)
            == Some(said(join(preview_lines(edit->Ok_0@), "\n"@), false)),
{
}

/// An action is applied where, and only where, applying is asked for, a query is given
/// and it selects one.
pub proof fn an_action_is_applied_where_one_is_selected(
    i: InputView,
    at: Seq<char>,
    found: Result<Vec<CodeAction>, String>,
)
    ensures
        actions_answer(i, at, found) is None <==> found is Ok && found->Ok_0@.len() > 0 && i.apply
            == Some(true) && i.query.len() > 0 && selected(
            i.query,
            titles(found->Ok_0@),
        ) is Some,
        found is Ok && found->Ok_0@.len() > 0 && i.apply != Some(true) ==> actions_answer(
            i,
            at,
            found,
        ) == Some(said(join(listing_lines(found->Ok_0@), "\n"@), false)),
        found is Err ==> actions_answer(i, at, found) == Some(
            said("code actions failed: "@ + found->Err_0@, true),
        ),
{
}

} // verus!
