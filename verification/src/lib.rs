//! The decision logic of a coding agent's tool set.
use vstd::prelude::*;
use crate::json::{opt_json, Json, JsonView};

pub mod advise;
pub mod assoc;
pub mod browser;
pub mod brush_background;
pub mod brush_bash;
pub mod computer_script;
pub mod context;
pub mod edit_flow;
pub mod edit_guard;
pub mod encoding;
pub mod file_edit;
pub mod file_read;
pub mod formatter;
pub mod glob_tool;
pub mod globbing;
pub mod goal_tool;
pub mod grep_tool;
pub mod hub;
pub mod image_tools;
pub mod json;
pub mod learn_tool;
pub mod line_endings;
pub mod lsp_after_write;
pub mod lsp_flow;
pub mod lsp_tool;
pub mod memory_append;
pub mod memory_backend;
pub mod memory_guard;
pub mod memory_tool;
pub mod monitor_tool;
pub mod order;
pub mod output_filter;
pub mod parsing;
pub mod paths;
pub mod pattern;
pub mod powershell;
pub mod random;
pub mod roster;
pub mod sessions;
pub mod table;
pub mod text;
pub mod walking;

pub use crate::advise::AdviseTool;
pub use crate::browser::BrowserTool;
pub use crate::computer_script::ComputerScriptTool;
pub use crate::context::{
    ActiveToolCall, CompletionNotifier, EnterPlanModeEvent, PendingPermissionRequest,
    PendingPermissionStore, PlanChoice, PlanDecision, ToolContext, ToolOutputChunk,
};
pub use crate::file_edit::FileEditTool;
pub use crate::file_read::FileReadTool;
pub use crate::glob_tool::GlobTool;
pub use crate::goal_tool::GoalTool;
pub use crate::grep_tool::GrepTool;
pub use crate::hub::HubTool;
pub use crate::image_tools::generate::GenerateImageTool;
pub use crate::image_tools::inspect::InspectImageTool;
pub use crate::learn_tool::LearnTool;
pub use crate::lsp_tool::LspTool;
pub use crate::memory_tool::MemoryTool;
pub use crate::monitor_tool::MonitorTool;
pub use crate::powershell::PowerShellTool;
pub use crate::roster::{
    access_tool_names, all_tools, find_tool, FileWriteTool, OtherTools, PtyBashTool,
};
pub use crate::sessions::{Sessions, ShellState};

verus! {

/// Permission level required by a tool.
#[derive(Debug, Clone, Copy, PartialEq, Eq, Structural)]
pub enum PermissionLevel {
    /// No permission needed (read-only, purely informational).
    NotNeeded,
    /// Read-only access to the filesystem or network.
    ReadOnly,
    /// Write access to the filesystem.
    Write,
    /// Arbitrary command execution.
    Execute,
    /// Potentially dangerous (e.g., bypass sandbox).
    Dangerous,
    /// Unconditionally forbidden — the action must never be executed regardless
    /// of permission mode.
    Forbidden,
}

/// The result of executing a tool.
#[derive(Debug)]
pub struct ToolResult {
    /// Content to send back to the model as the tool result.
    pub content: String,
    /// Whether this invocation was an error.
    pub is_error: bool,
    /// Optional structured metadata (for the TUI to render diffs, etc.).
    pub metadata: Option<Json>,
    /// Wall-clock duration of the tool run in milliseconds. Set by the executor;
    /// absent for synthetic or error results that never ran.
    pub duration_ms: Option<u64>,
}

/// What a [`ToolResult`] says.
#[verifier::ext_equal]
pub struct ResultView {
    pub content: Seq<char>,
    pub is_error: bool,
    pub metadata: Option<JsonView>,
    pub duration_ms: Option<u64>,
}

impl View for ToolResult {
    type V = ResultView;

    open spec fn view(&self) -> ResultView {
        ResultView {
            content: self.content@,
            is_error: self.is_error,
            metadata: opt_json(self.metadata),
            duration_ms: self.duration_ms,
        }
    }
}

/// A result that only says something.
pub open spec fn said(content: Seq<char>, is_error: bool) -> ResultView {
    ResultView { content, is_error, metadata: None, duration_ms: None }
}

impl ToolResult {
    /// A successful result.
    pub fn success(content: String) -> (r: ToolResult)
        ensures
            r@ == said(content@, false),
    {
        ToolResult { content, is_error: false, metadata: None, duration_ms: None }
    }

    /// A failed result.
    pub fn error(content: String) -> (r: ToolResult)
        ensures
            r@ == said(content@, true),
    {
        ToolResult { content, is_error: true, metadata: None, duration_ms: None }
    }

    /// The result with metadata attached.
    pub fn with_metadata(self, meta: Json) -> (r: ToolResult)
        ensures
            r@ == (ResultView { metadata: Some(meta@), ..self@ }),
    {
        ToolResult {
            content: self.content,
            is_error: self.is_error,
            metadata: Some(meta),
            duration_ms: self.duration_ms,
        }
    }
}

} // verus!
