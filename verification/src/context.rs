//! What a tool is told of the session it runs in.
use vstd::prelude::*;
use crate::json::{opt_json, Json, JsonView};
use crate::paths::{file_name, file_name_of, join_path, joined, lies_in, path_lies_in};
use crate::text::{
    chars_of, copy_strings, count, decimal, decimal_is_unique, index_of, index_of_is, join,
    join_with, number, opt_view, same, string_of, views,
};

verus! {

// ---------------------------------------------------------------------------
// Plans
// ---------------------------------------------------------------------------

/// What the user decided to do with a plan.
///
/// The two plain approvals do not name a permission mode, because the mode they
/// restore is the one plan mode was entered from and only the front end knows it.
#[derive(Debug, Clone, Copy, PartialEq, Eq, Structural)]
pub enum PlanChoice {
    /// Summarise the conversation, then implement it.
    ApproveAndClearContext,
    /// Implement it now.
    Approve,
    /// Implement it, but ask before each edit.
    ApproveWithManualEdits,
    /// Do not implement it yet; the plan needs more work.
    KeepPlanning,
}

impl PlanChoice {
    /// Whether this answer means the work may start.
    pub fn is_approval(self) -> (r: bool)
        ensures
            r == (self != PlanChoice::KeepPlanning),
    {
        match self {
            PlanChoice::KeepPlanning => false,
            _ => true,
        }
    }
}

/// The user's answer to a plan.
#[derive(Debug)]
pub struct PlanDecision {
    /// The option the user picked.
    pub choice: PlanChoice,
    /// Anything the user typed alongside it, so a rejection reaches the model with
    /// its reason.
    pub note: Option<String>,
}

/// Sent when the session is asked to stop being able to act.
///
/// No reply: the switch takes writing and command execution away, so there is
/// nothing to approve.
#[derive(Debug)]
pub struct EnterPlanModeEvent {
    /// Why the model wants to plan, when it said.
    pub reason: Option<String>,
}

// ---------------------------------------------------------------------------
// Live output
// ---------------------------------------------------------------------------

/// A piece of output a tool produced while it was still running.
#[derive(Debug)]
pub struct ToolOutputChunk {
    /// The id of the call that produced it, so the front end knows which block on
    /// screen the text belongs to.
    pub tool_id: String,
    /// The text as it arrived, undecorated.
    pub text: String,
}

/// Where output goes that a call produces while it is still running.
#[derive(Debug)]
pub struct LiveSink {
    pub tool_id: String,
}

impl LiveSink {
    /// A piece of output, stamped with the call it came from.
    pub fn chunk(&self, text: &str) -> (c: ToolOutputChunk)
        ensures
            c.tool_id@ == self.tool_id@,
            c.text@ == text@,
    {
        ToolOutputChunk { tool_id: self.tool_id.clone(), text: text.to_string() }
    }
}

/// A handle for putting a message into the next turn, so that a background task
/// need not be polled.
pub struct CompletionNotifier<F: Fn(String)> {
    f: std::sync::Arc<F>,
}

impl<F: Fn(String)> CompletionNotifier<F> {
    /// What a message is handed to.
    pub closed spec fn handler(&self) -> F {
        *self.f
    }

    pub fn new(f: F) -> (n: CompletionNotifier<F>)
        ensures
            n.handler() == f,
    {
        CompletionNotifier { f: std::sync::Arc::new(f) }
    }

    /// Hand a message on.
    pub fn notify(&self, msg: String)
        requires
            call_requires(self.handler(), (msg,)),
        ensures
            call_ensures(self.handler(), (msg,), ()),
    {
        let f: &F = &*self.f;
        f(msg)
    }
}

impl<F: Fn(String)> Clone for CompletionNotifier<F> {
    /// Another handle for the same turn.
    fn clone(&self) -> (n: Self)
        ensures
            n.handler() == self.handler(),
    {
        CompletionNotifier { f: self.f.clone() }
    }
}

// ---------------------------------------------------------------------------
// Permission
// ---------------------------------------------------------------------------

/// What is put to the permission handler.
#[derive(Debug)]
pub struct PermissionRequest {
    pub tool_name: String,
    pub description: String,
    pub details: Option<String>,
    pub is_read_only: bool,
    pub path: Option<String>,
    pub working_dir: Option<String>,
    pub allowed_roots: Vec<String>,
    pub context_description: Option<String>,
    /// Whatever the running call was given, so a prompt can show what it is
    /// approving rather than only which tool asked.
    pub input: Option<Json>,
}

/// What a [`PermissionRequest`] says.
#[verifier::ext_equal]
pub struct RequestView {
    pub tool_name: Seq<char>,
    pub description: Seq<char>,
    pub details: Option<Seq<char>>,
    pub is_read_only: bool,
    pub path: Option<Seq<char>>,
    pub working_dir: Option<Seq<char>>,
    pub allowed_roots: Seq<Seq<char>>,
    pub context_description: Option<Seq<char>>,
    pub input: Option<JsonView>,
}

impl View for PermissionRequest {
    type V = RequestView;

    open spec fn view(&self) -> RequestView {
        RequestView {
            tool_name: self.tool_name@,
            description: self.description@,
            details: opt_view(self.details),
            is_read_only: self.is_read_only,
            path: opt_view(self.path),
            working_dir: opt_view(self.working_dir),
            allowed_roots: views(self.allowed_roots@),
            context_description: opt_view(self.context_description),
            input: opt_json(self.input),
        }
    }
}

/// What the permission handler, or the user, answers.
#[derive(Debug)]
pub enum PermissionDecision {
    Allow,
    AllowPermanently,
    Deny,
    DenyPermanently,
    /// The user has to say.
    Ask { reason: String },
}

/// A request that waits for the user.
#[derive(Debug)]
pub struct PendingPermissionRequest {
    pub tool_use_id: String,
    pub request: PermissionRequest,
    pub reason: String,
}

/// What a [`PendingPermissionRequest`] says.
#[verifier::ext_equal]
pub struct PendingView {
    pub tool_use_id: Seq<char>,
    pub request: RequestView,
    pub reason: Seq<char>,
}

impl View for PendingPermissionRequest {
    type V = PendingView;

    open spec fn view(&self) -> PendingView {
        PendingView {
            tool_use_id: self.tool_use_id@,
            request: self.request@,
            reason: self.reason@,
        }
    }
}

/// The requests that wait for the user, the oldest first.
#[derive(Debug)]
pub struct PendingPermissionStore {
    pub queue: Vec<PendingPermissionRequest>,
}

/// What some waiting requests say.
pub open spec fn pending_views(v: Seq<PendingPermissionRequest>) -> Seq<PendingView> {
    Seq::new(v.len(), |i: int| v[i]@)
}

/// How a check went.
#[derive(Debug)]
pub enum Checked {
    Allowed,
    Denied(String),
    /// The user was asked; the answer decides.
    Waiting,
}

/// What a [`Checked`] says.
#[verifier::ext_equal]
pub enum CheckedView {
    Allowed,
    Denied(Seq<char>),
    Waiting,
}

impl View for Checked {
    type V = CheckedView;

    open spec fn view(&self) -> CheckedView {
        match *self {
            Checked::Allowed => CheckedView::Allowed,
            Checked::Denied(e) => CheckedView::Denied(e@),
            Checked::Waiting => CheckedView::Waiting,
        }
    }
}

/// A tool that may not run.
pub open spec fn denied(tool_name: Seq<char>) -> Seq<char> {
    "Permission denied for tool '"@ + tool_name + "'"@
}

/// A tool that may not run, and why.
pub open spec fn denied_because(tool_name: Seq<char>, why: Seq<char>) -> Seq<char> {
    "Permission denied for tool '"@ + tool_name + "': "@ + why
}

fn denied_text(tool_name: &str) -> (out: String)
    ensures
        out@ == denied(tool_name@),
{
    let mut out = "Permission denied for tool '".to_string();
    out.push_str(tool_name);
    out.push_str("'");
    out
}

fn denied_because_text(tool_name: &str, why: &str) -> (out: String)
    ensures
        out@ == denied_because(tool_name@, why@),
{
    let mut out = "Permission denied for tool '".to_string();
    out.push_str(tool_name);
    out.push_str("': ");
    out.push_str(why);
    out
}

/// The id of a request that waits for the user.
pub open spec fn pending_id(session_id: Seq<char>, turn: usize) -> Seq<char> {
    "perm-"@ + session_id + "-"@ + decimal(turn as nat)
}

/// The reason the user is given: the details of the request where it has some,
/// else what the handler said.
pub open spec fn reason_shown(request: RequestView, reason: Seq<char>) -> Seq<char> {
    match request.details {
        Some(d) => d,
        None => reason,
    }
}

/// How a check goes, given what the handler decided, whether the session can ask,
/// and whether there is a queue to ask through.
pub open spec fn settled(
    request: RequestView,
    decision: PermissionDecision,
    non_interactive: bool,
    has_queue: bool,
) -> CheckedView {
    match decision {
        PermissionDecision::Allow | PermissionDecision::AllowPermanently => CheckedView::Allowed,
        PermissionDecision::Ask { reason } => if non_interactive {
            CheckedView::Denied(
                denied_because(request.tool_name, reason_shown(request, reason@)),
            )
        } else if has_queue {
            CheckedView::Waiting
        } else {
            CheckedView::Denied(denied(request.tool_name))
        },
        _ => CheckedView::Denied(denied(request.tool_name)),
    }
}

/// A check whose denial is restated with the details it was asked with.
pub open spec fn restated(
    checked: CheckedView,
    tool_name: Seq<char>,
    details: Seq<char>,
) -> CheckedView {
    match checked {
        CheckedView::Denied(_) => CheckedView::Denied(denied_because(tool_name, details)),
        other => other,
    }
}

fn restate(checked: Checked, tool_name: &str, details: &str) -> (out: Checked)
    ensures
        out@ == restated(checked@, tool_name@, details@),
{
    match checked {
        Checked::Denied(_) => Checked::Denied(denied_because_text(tool_name, details)),
        Checked::Allowed => Checked::Allowed,
        Checked::Waiting => Checked::Waiting,
    }
}

/// What the user's answer to a waiting request comes to; none where the question
/// was dropped.
pub fn answered(answer: &Option<PermissionDecision>) -> (out: Checked)
    ensures
        out@ == (match *answer {
            Some(PermissionDecision::Allow) => CheckedView::Allowed,
            Some(PermissionDecision::AllowPermanently) => CheckedView::Allowed,
            _ => CheckedView::Denied("Permission denied by user"@),
        }),
{
    match answer {
        Some(PermissionDecision::Allow) => Checked::Allowed,
        Some(PermissionDecision::AllowPermanently) => Checked::Allowed,
        _ => Checked::Denied("Permission denied by user".to_string()),
    }
}

/// The same for a check that was asked with details.
pub fn answered_with_details(
    answer: &Option<PermissionDecision>,
    tool_name: &str,
    details: &str,
) -> (out: Checked)
    ensures
        out@ == (match *answer {
            Some(PermissionDecision::Allow) => CheckedView::Allowed,
            Some(PermissionDecision::AllowPermanently) => CheckedView::Allowed,
            _ => CheckedView::Denied(denied_because(tool_name@, details@)),
        }),
{
    restate(answered(answer), tool_name, details)
}

// ---------------------------------------------------------------------------
// The context
// ---------------------------------------------------------------------------

/// The call a context was made for.
#[derive(Debug)]
pub struct ActiveToolCall {
    /// The id from the model's turn.
    pub id: String,
    /// The arguments the model supplied, as they arrived.
    pub input: Json,
    /// Milliseconds this call spent waiting for the user to answer a permission
    /// prompt, which the runner subtracts from the call's measured duration.
    pub permission_wait_ms: u64,
}

impl ActiveToolCall {
    /// Count a wait for the user to this call.
    pub fn waited(&mut self, ms: u64)
        ensures
            final(self).permission_wait_ms == (old(self).permission_wait_ms + ms) % 0x1_0000_0000_0000_0000,
            final(self).id == old(self).id,
            final(self).input == old(self).input,
    {
        self.permission_wait_ms = self.permission_wait_ms.wrapping_add(ms);
    }
}

/// What a client that hosts the session's files can do.
#[derive(Debug, PartialEq, Eq, Clone, Copy, Structural)]
pub struct EditorCapabilities {
    pub read_text_file: bool,
    pub write_text_file: bool,
}

/// Where a file is read from or written to.
#[derive(Debug, PartialEq, Eq, Clone, Copy, Structural)]
pub enum Route {
    /// Through the client, so an unsaved buffer is what is seen and a change lands
    /// in its undo stack.
    Editor,
    Disk,
}

/// Shared context passed to every tool invocation.
#[derive(Debug)]
pub struct ToolContext {
    pub working_dir: String,
    pub session_id: String,
    pub current_turn: usize,
    /// Whether prompts are suppressed.
    pub non_interactive: bool,
    pub workspace_paths: Vec<String>,
    pub additional_dirs: Vec<String>,
    /// Every directory this session can reach, by name, in the order of the names.
    pub roots: Vec<(String, String)>,
    /// Whether the settings ask for output while a tool runs.
    pub live_tool_output: bool,
    /// Whether a front end listens for such output.
    pub has_output_channel: bool,
    /// The call this context was made for.
    pub current_call: Option<ActiveToolCall>,
    /// The client hosting this session's files, when one does.
    pub editor: Option<EditorCapabilities>,
    /// The requests that wait for the user; none where there is no one to ask.
    pub pending_permissions: Option<PendingPermissionStore>,
}

/// The directory of the first root with the name.
pub open spec fn root_from(roots: Seq<(String, String)>, name: Seq<char>, from: int) -> Option<
    Seq<char>,
>
    decreases roots.len() - from,
{
    if from < 0 || from >= roots.len() {
        None
    } else if roots[from].0@ == name {
        Some(roots[from].1@)
    } else {
        root_from(roots, name, from + 1)
    }
}

/// The roots as they are listed.
pub open spec fn root_names(roots: Seq<(String, String)>) -> Seq<Seq<char>> {
    Seq::new(roots.len(), |i: int| "&"@ + roots[i].0@)
}

/// What is said of a root that is not known.
pub open spec fn unknown_root(roots: Seq<(String, String)>, name: Seq<char>) -> Seq<char> {
    "unknown workspace root \"&"@ + name + "\"; known roots: "@ + join(root_names(roots), ", "@)
}

/// The path a tool argument stands for.
///
/// An absolute path is taken as it is, `&name` and `&name/relative` against the
/// named root, and anything else against the working directory.
pub open spec fn resolved(c: ToolContext, path: Seq<char>) -> Result<Seq<char>, Seq<char>> {
    if path.len() > 0 && path[0] == '/' {
        Ok(path)
    } else if path.len() > 0 && path[0] == '&' {
        let rest = path.skip(1);
        let n = index_of(rest, '/');
        let name = rest.take(n);
        let relative = if n < rest.len() {
            rest.skip(n + 1)
        } else {
            seq![]
        };
        match root_from(c.roots@, name, 0) {
            Some(root) => Ok(
                if relative.len() == 0 {
                    root
                } else {
                    joined(root, relative)
                },
            ),
            None => Err(unknown_root(c.roots@, name)),
        }
    } else {
        Ok(joined(c.working_dir@, path))
    }
}

/// Where a request came from and what it is about.
pub open spec fn request_of(
    c: ToolContext,
    tool_name: Seq<char>,
    description: Seq<char>,
    details: Option<Seq<char>>,
    is_read_only: bool,
    path: Option<Seq<char>>,
) -> RequestView {
    RequestView {
        tool_name,
        description,
        details,
        is_read_only,
        path,
        working_dir: Some(c.working_dir@),
        allowed_roots: views(c.workspace_paths@) + views(c.additional_dirs@),
        context_description: None,
        input: match c.current_call {
            Some(call) => Some(call.input@),
            None => None,
        },
    }
}

/// The requests that wait in a context.
pub open spec fn waiting(c: ToolContext) -> Seq<PendingView> {
    match c.pending_permissions {
        Some(store) => pending_views(store.queue@),
        None => seq![],
    }
}

/// The turn after a turn; the last is followed by the first.
pub open spec fn next_turn(turn: usize) -> int {
    if turn == usize::MAX {
        0
    } else {
        turn + 1
    }
}

/// What a check leaves of a context: where the user is asked, one more request
/// waits and the turn moves on; otherwise nothing changes.
pub open spec fn left_by(
    before: ToolContext,
    after: ToolContext,
    request: RequestView,
    decision: PermissionDecision,
) -> bool {
    &&& after.working_dir == before.working_dir
    &&& after.session_id == before.session_id
    &&& after.non_interactive == before.non_interactive
    &&& after.workspace_paths == before.workspace_paths
    &&& after.additional_dirs == before.additional_dirs
    &&& after.roots == before.roots
    &&& after.live_tool_output == before.live_tool_output
    &&& after.has_output_channel == before.has_output_channel
    &&& after.current_call == before.current_call
    &&& after.editor == before.editor
    &&& after.pending_permissions is Some == before.pending_permissions is Some
    &&& if settled(
        request,
        decision,
        before.non_interactive,
        before.pending_permissions is Some,
    ) is Waiting {
        &&& after.current_turn == next_turn(before.current_turn)
        &&& waiting(after) == waiting(before).push(
            PendingView {
                tool_use_id: pending_id(before.session_id@, before.current_turn),
                request,
                reason: reason_shown(request, decision->reason@),
            },
        )
    } else {
        &&& after.current_turn == before.current_turn
        &&& waiting(after) == waiting(before)
    }
}

fn copy_opt(s: &Option<String>) -> (out: Option<String>)
    ensures
        opt_view(out) == opt_view(*s),
{
    match s {
        Some(t) => Some(t.clone()),
        None => None,
    }
}

impl ToolContext {
    /// A sink for output produced while the current call is still running.
    ///
    /// None unless a front end asked for live output, the setting is on, and the
    /// context knows which call it belongs to.
    pub fn live_output_sink(&self) -> (r: Option<LiveSink>)
        ensures
            match r {
                Some(sink) => self.live_tool_output && self.has_output_channel
                    && self.current_call is Some && sink.tool_id@
                    == self.current_call->Some_0.id@,
                None => !self.live_tool_output || !self.has_output_channel
                    || self.current_call is None,
            },
    {
        if !self.live_tool_output || !self.has_output_channel {
            return None;
        }
        match &self.current_call {
            Some(call) => Some(LiveSink { tool_id: call.id.clone() }),
            None => None,
        }
    }

    /// Resolve a tool path argument.
    pub fn resolve_path(&self, path: &str) -> (r: Result<String, String>)
        ensures
            match r {
                Ok(p) => resolved(*self, path@) == Ok::<Seq<char>, Seq<char>>(p@),
                Err(e) => resolved(*self, path@) == Err::<Seq<char>, Seq<char>>(e@),
            },
    {
        let x = chars_of(path);
        if x.len() > 0 && x[0] == '/' {
            return Ok(path.to_string());
        }
        if x.len() == 0 || x[0] != '&' {
            return Ok(join_path(&self.working_dir, path));
        }
        let ghost rest = path@.skip(1);
        let mut i: usize = 1;
        while i < x.len() && x[i] != '/'
            invariant
                1 <= i <= x@.len(),
                x@ == path@,
                rest == path@.skip(1),
                forall|k: int| 0 <= k < i - 1 ==> rest[k] != '/',
            decreases x.len() - i,
        {
            assert(rest[i - 1] == x@[i as int]);
            i += 1;
        }
        proof {
            if i < x.len() {
                assert(rest[i - 1] == '/');
                crate::text::index_of_is(rest, '/', i - 1);
            } else {
                crate::text::index_of_bounds(rest, '/');
                if index_of(rest, '/') < rest.len() {
                    assert(rest[index_of(rest, '/')] != '/');
                }
            }
        }
        let name = string_of(&x, 1, i);
        assert(name@ =~= rest.take(i - 1));
        let relative = if i < x.len() {
            let r = string_of(&x, i + 1, x.len());
            assert(r@ =~= rest.skip(i as int));
            r
        } else {
            String::new()
        };
        match self.root(&name) {
            Some(root) => {
                if relative.as_str().is_empty() {
                    Ok(root)
                } else {
                    Ok(join_path(&root, &relative))
                }
            },
            None => Err(self.unknown(&name)),
        }
    }

    fn root(&self, name: &str) -> (r: Option<String>)
        ensures
            opt_view(r) == root_from(self.roots@, name@, 0),
    {
        let mut i: usize = 0;
        while i < self.roots.len()
            invariant
                i <= self.roots@.len(),
                root_from(self.roots@, name@, 0) == root_from(self.roots@, name@, i as int),
            decreases self.roots.len() - i,
        {
            if same(&self.roots[i].0, name) {
                return Some(self.roots[i].1.clone());
            }
            i += 1;
        }
        None
    }

    fn unknown(&self, name: &str) -> (out: String)
        ensures
            out@ == unknown_root(self.roots@, name@),
    {
        let mut known: Vec<String> = Vec::new();
        let mut i: usize = 0;
        while i < self.roots.len()
            invariant
                i <= self.roots@.len(),
                known@.len() == i,
                forall|k: int| 0 <= k < i ==> (#[trigger] known@[k])@ == "&"@ + self.roots@[k].0@,
            decreases self.roots.len() - i,
        {
            let mut shown = "&".to_string();
            shown.push_str(&self.roots[i].0);
            known.push(shown);
            i += 1;
        }
        assert(views(known@) =~= root_names(self.roots@));
        let mut out = "unknown workspace root \"&".to_string();
        out.push_str(name);
        out.push_str("\"; known roots: ");
        out.push_str(&join_with(&known, ", "));
        out
    }

    /// Where a file the user is working on is read from.
    pub fn read_text(&self) -> (r: Route)
        ensures
            r == (match self.editor {
                Some(e) => if e.read_text_file {
                    Route::Editor
                } else {
                    Route::Disk
                },
                None => Route::Disk,
            }),
    {
        match self.editor {
            Some(e) => if e.read_text_file {
                Route::Editor
            } else {
                Route::Disk
            },
            None => Route::Disk,
        }
    }

    /// Where a file the user is working on is written to. Binary content always
    /// goes to disk: the client's write carries text.
    pub fn write_text(&self, is_text: bool) -> (r: Route)
        ensures
            r == (match self.editor {
                Some(e) => if e.write_text_file && is_text {
                    Route::Editor
                } else {
                    Route::Disk
                },
                None => Route::Disk,
            }),
    {
        match self.editor {
            Some(e) => if e.write_text_file && is_text {
                Route::Editor
            } else {
                Route::Disk
            },
            None => Route::Disk,
        }
    }

    /// The directories a request names as reachable.
    pub fn permission_allowed_roots(&self) -> (out: Vec<String>)
        ensures
            views(out@) == views(self.workspace_paths@) + views(self.additional_dirs@),
    {
        let mut out = copy_strings(&self.workspace_paths);
        let mut more = copy_strings(&self.additional_dirs);
        let ghost a = out@;
        let ghost b = more@;
        out.append(&mut more);
        assert(views(out@) =~= views(a) + views(b));
        out
    }

    /// What is put to the permission handler.
    pub fn build_permission_request(
        &self,
        tool_name: &str,
        description: &str,
        details: &Option<String>,
        is_read_only: bool,
        path: &Option<String>,
    ) -> (r: PermissionRequest)
        ensures
            r@ == request_of(
                *self,
                tool_name@,
                description@,
                opt_view(*details),
                is_read_only,
                opt_view(*path),
            ),
    {
        let input = match &self.current_call {
            Some(call) => Some(call.input.copy()),
            None => None,
        };
        PermissionRequest {
            tool_name: tool_name.to_string(),
            description: description.to_string(),
            details: copy_opt(details),
            is_read_only,
            path: copy_opt(path),
            working_dir: Some(self.working_dir.clone()),
            allowed_roots: self.permission_allowed_roots(),
            context_description: None,
            input,
        }
    }

    /// Act on what the permission handler decided of a request.
    pub fn request_permission_inner(
        &mut self,
        request: PermissionRequest,
        decision: &PermissionDecision,
    ) -> (r: Checked)
        ensures
            r@ == settled(
                request@,
                *decision,
                old(self).non_interactive,
                old(self).pending_permissions is Some,
            ),
            left_by(*old(self), *final(self), request@, *decision),
    {
        let reason = match decision {
            PermissionDecision::Allow => {
                return Checked::Allowed;
            },
            PermissionDecision::AllowPermanently => {
                return Checked::Allowed;
            },
            PermissionDecision::Ask { reason } => reason,
            _ => {
                return Checked::Denied(denied_text(&request.tool_name));
            },
        };
        let why = match &request.details {
            Some(d) => d.clone(),
            None => reason.clone(),
        };
        if self.non_interactive {
            return Checked::Denied(denied_because_text(&request.tool_name, &why));
        }
        let mut store = match self.pending_permissions.take() {
            Some(store) => store,
            None => {
                return Checked::Denied(denied_text(&request.tool_name));
            },
        };
        let mut tool_use_id = "perm-".to_string();
        tool_use_id.push_str(&self.session_id);
        tool_use_id.push_str("-");
        tool_use_id.push_str(&count(self.current_turn));
        self.current_turn = self.current_turn.wrapping_add(1);
        let ghost before = pending_views(store.queue@);
        let pending = PendingPermissionRequest { tool_use_id, request, reason: why };
        let ghost new = pending@;
        store.queue.push(pending);
        assert(pending_views(store.queue@) =~= before.push(new));
        self.pending_permissions = Some(store);
        Checked::Waiting
    }

    /// Check permissions for a tool invocation, given what the handler decided of
    /// its request.
    pub fn check_permission(
        &mut self,
        tool_name: &str,
        description: &str,
        is_read_only: bool,
        decision: &PermissionDecision,
    ) -> (r: Checked)
        ensures
            ({
                let request = request_of(
                    *old(self),
                    tool_name@,
                    description@,
                    None,
                    is_read_only,
                    None,
                );
                &&& r@ == settled(
                    request,
                    *decision,
                    old(self).non_interactive,
                    old(self).pending_permissions is Some,
                )
                &&& left_by(*old(self), *final(self), request, *decision)
            }),
    {
        let request = self.build_permission_request(
            tool_name,
            description,
            &None,
            is_read_only,
            &None,
        );
        self.request_permission_inner(request, decision)
    }

    /// The same for a request about a path.
    pub fn check_permission_for_path(
        &mut self,
        tool_name: &str,
        description: &str,
        path: &str,
        is_read_only: bool,
        decision: &PermissionDecision,
    ) -> (r: Checked)
        ensures
            ({
                let request = request_of(
                    *old(self),
                    tool_name@,
                    description@,
                    None,
                    is_read_only,
                    Some(path@),
                );
                &&& r@ == settled(
                    request,
                    *decision,
                    old(self).non_interactive,
                    old(self).pending_permissions is Some,
                )
                &&& left_by(*old(self), *final(self), request, *decision)
            }),
    {
        let request = self.build_permission_request(
            tool_name,
            description,
            &None,
            is_read_only,
            &Some(path.to_string()),
        );
        self.request_permission_inner(request, decision)
    }

    /// Like `check_permission`, with details (a risk explanation, say) that the
    /// prompt can show. A denial says them too.
    pub fn check_permission_with_details(
        &mut self,
        tool_name: &str,
        description: &str,
        details: &str,
        is_read_only: bool,
        decision: &PermissionDecision,
    ) -> (r: Checked)
        ensures
            ({
                let request = request_of(
                    *old(self),
                    tool_name@,
                    description@,
                    Some(details@),
                    is_read_only,
                    None,
                );
                &&& r@ == restated(
                    settled(
                        request,
                        *decision,
                        old(self).non_interactive,
                        old(self).pending_permissions is Some,
                    ),
                    tool_name@,
                    details@,
                )
                &&& left_by(*old(self), *final(self), request, *decision)
            }),
    {
        let request = self.build_permission_request(
            tool_name,
            description,
            &Some(details.to_string()),
            is_read_only,
            &None,
        );
        let checked = self.request_permission_inner(request, decision);
        restate(checked, tool_name, details)
    }

    /// The same for a request about a path.
    pub fn check_permission_with_details_and_path(
        &mut self,
        tool_name: &str,
        description: &str,
        details: &str,
        path: &str,
        is_read_only: bool,
        decision: &PermissionDecision,
    ) -> (r: Checked)
        ensures
            ({
                let request = request_of(
                    *old(self),
                    tool_name@,
                    description@,
                    Some(details@),
                    is_read_only,
                    Some(path@),
                );
                &&& r@ == restated(
                    settled(
                        request,
                        *decision,
                        old(self).non_interactive,
                        old(self).pending_permissions is Some,
                    ),
                    tool_name@,
                    details@,
                )
                &&& left_by(*old(self), *final(self), request, *decision)
            }),
    {
        let request = self.build_permission_request(
            tool_name,
            description,
            &Some(details.to_string()),
            is_read_only,
            &Some(path.to_string()),
        );
        let checked = self.request_permission_inner(request, decision);
        restate(checked, tool_name, details)
    }

    /// The number of the turn.
    pub fn current_turn_index(&self) -> (n: usize)
        ensures
            n == self.current_turn,
    {
        self.current_turn
    }
}

/// Whether a path lies in one of the directories. All are given with their links
/// resolved.
pub fn path_is_within_workspace(path: &str, roots: &Vec<String>) -> (r: bool)
    ensures
        r == exists|i: int| 0 <= i < roots@.len() && lies_in(path@, (#[trigger] roots@[i])@),
{
    let mut i: usize = 0;
    while i < roots.len()
        invariant
            i <= roots@.len(),
            forall|k: int| 0 <= k < i ==> !lies_in(path@, (#[trigger] roots@[k])@),
        decreases roots.len() - i,
    {
        if path_lies_in(path, &roots[i]) {
            return true;
        }
        i += 1;
    }
    false
}

/// The name of the file that a write goes to first, to be renamed over the
/// destination: a crash mid-write can then never leave that half-written.
pub open spec fn temporary_name(path: Seq<char>, process: u32) -> Seq<char> {
    "."@ + (match file_name(path) {
        Some(name) => name,
        None => "file"@,
    }) + ".mikmik-tmp-"@ + decimal(process as nat)
}

/// The name of the file that an atomic write goes to first.
pub fn write_atomic_name(path: &str, process: u32) -> (out: String)
    ensures
        out@ == temporary_name(path@, process),
{
    let mut out = ".".to_string();
    let name = match file_name_of(path) {
        Some(name) => name,
        None => "file".to_string(),
    };
    out.push_str(&name);
    out.push_str(".mikmik-tmp-");
    out.push_str(&number(process as u64));
    out
}

/// An atomic write never goes to the destination first.
pub proof fn the_destination_is_not_the_temporary(path: Seq<char>, process: u32)
    ensures
        file_name(path) != Some(temporary_name(path, process)),
{
    reveal_strlit(".");
    reveal_strlit(".mikmik-tmp-");
    if file_name(path) is Some {
        let name = file_name(path)->Some_0;
        assert(temporary_name(path, process).len() > name.len());
    }
}

/// Two requests of one session that wait for the user have different ids, unless
/// their turns are the same.
pub proof fn waiting_requests_are_told_apart(session_id: Seq<char>, a: usize, b: usize)
    requires
        a != b,
    ensures
        pending_id(session_id, a) != pending_id(session_id, b),
{
    let head = "perm-"@ + session_id + "-"@;
    let x = decimal(a as nat);
    let y = decimal(b as nat);
    if head + x == head + y {
        assert(x =~= (head + x).skip(head.len() as int));
        assert(y =~= (head + y).skip(head.len() as int));
        decimal_is_unique(a as nat, b as nat);
    }
}

/// A session that cannot ask never waits: what is not allowed is denied.
pub proof fn nobody_is_asked_without_a_prompt(
    request: RequestView,
    decision: PermissionDecision,
    has_queue: bool,
)
    ensures
        !(settled(request, decision, true, has_queue) is Waiting),
{
}

/// Only an answer that allows lets a tool run: a handler that denies, or asks
/// where nobody can be asked, never does.
pub proof fn only_allowing_allows(
    request: RequestView,
    decision: PermissionDecision,
    non_interactive: bool,
    has_queue: bool,
)
    ensures
        settled(request, decision, non_interactive, has_queue) is Allowed <==> (
        decision is Allow || decision is AllowPermanently),
{
}

proof fn root_is(roots: Seq<(String, String)>, name: Seq<char>, from: int, k: int)
    requires
        0 <= from <= k < roots.len(),
        roots[k].0@ == name,
        forall|j: int| 0 <= j < k ==> (#[trigger] roots[j]).0@ != name,
    ensures
        root_from(roots, name, from) == Some(roots[k].1@),
    decreases k - from,
{
    if from < k {
        assert(roots[from].0@ != name);
        root_is(roots, name, from + 1, k);
    }
}

proof fn no_root_is(roots: Seq<(String, String)>, name: Seq<char>, from: int)
    requires
        0 <= from,
        forall|j: int| 0 <= j < roots.len() ==> (#[trigger] roots[j]).0@ != name,
    ensures
        root_from(roots, name, from) is None,
    decreases roots.len() - from,
{
    if from < roots.len() {
        assert(roots[from].0@ != name);
        no_root_is(roots, name, from + 1);
    }
}

/// A path under a named root leads into the first root of that name.
pub proof fn a_rooted_path_leads_into_its_root(
    c: ToolContext,
    name: Seq<char>,
    relative: Seq<char>,
    k: int,
)
    requires
        !name.contains('/'),
        0 <= k < c.roots@.len(),
        c.roots@[k].0@ == name,
        forall|j: int| 0 <= j < k ==> (#[trigger] c.roots@[j]).0@ != name,
    ensures
        resolved(c, seq!['&'] + name) == Ok::<Seq<char>, Seq<char>>(c.roots@[k].1@),
        relative.len() > 0 ==> resolved(c, seq!['&'] + name + seq!['/'] + relative) == Ok::<
            Seq<char>,
            Seq<char>,
        >(joined(c.roots@[k].1@, relative)),
{
    root_is(c.roots@, name, 0, k);
    let bare = seq!['&'] + name;
    assert(bare.skip(1) =~= name);
    index_of_is(name, '/', name.len() as int);
    assert(name.take(name.len() as int) =~= name);
    let path = seq!['&'] + name + seq!['/'] + relative;
    let rest = path.skip(1);
    assert(rest =~= name + seq!['/'] + relative);
    assert forall|j: int| 0 <= j < name.len() implies rest[j] != '/' by {
        assert(rest[j] == name[j]);
    }
    index_of_is(rest, '/', name.len() as int);
    assert(rest.take(name.len() as int) =~= name);
    assert(rest.skip(name.len() + 1int) =~= relative);
}

/// A path under a root that is not there is refused; one that is absolute leads where it
/// says, and any other into the working directory.
pub proof fn a_path_without_a_root(c: ToolContext, name: Seq<char>, path: Seq<char>)
    ensures
        !name.contains('/') && (forall|j: int|
            0 <= j < c.roots@.len() ==> (#[trigger] c.roots@[j]).0@ != name) ==> resolved(
            c,
            seq!['&'] + name,
        ) is Err,
        path.len() > 0 && path[0] == '/' ==> resolved(c, path) == Ok::<Seq<char>, Seq<char>>(path),
        path.len() > 0 && path[0] != '/' && path[0] != '&' ==> resolved(c, path) == Ok::<
            Seq<char>,
            Seq<char>,
        >(joined(c.working_dir@, path)),
{
    if !name.contains('/') && (forall|j: int|
        0 <= j < c.roots@.len() ==> (#[trigger] c.roots@[j]).0@ != name) {
        no_root_is(c.roots@, name, 0);
        let bare = seq!['&'] + name;
        assert(bare.skip(1) =~= name);
        index_of_is(name, '/', name.len() as int);
        assert(name.take(name.len() as int) =~= name);
    }
}

/// The user is asked where, and only where, the handler asks and there is somebody to
/// ask.
pub proof fn the_user_is_asked_where_the_handler_asks(
    request: RequestView,
    decision: PermissionDecision,
    non_interactive: bool,
    has_queue: bool,
)
    ensures
        settled(request, decision, non_interactive, has_queue) is Waiting <==> (decision is Ask
            && !non_interactive && has_queue),
{
}

/// A root that is not there is told with all that are, each under its name, in order.
pub proof fn an_unknown_root_is_told_with_the_known(roots: Seq<(String, String)>, name: Seq<char>)
    ensures
        unknown_root(roots, name) == "unknown workspace root \"&"@ + name
            + "\"; known roots: "@ + join(
            Seq::new(roots.len(), |i: int| "&"@ + roots[i].0@),
            ", "@,
        ),
{
}

} // verus!
