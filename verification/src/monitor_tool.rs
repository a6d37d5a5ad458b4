//! Watching background tasks: listing them, reading one, stopping one.
use vstd::prelude::*;
use crate::text::{
    count, decimal, join, join_with, opt_view, same, views, views_push,
};
use crate::{said, PermissionLevel, ResultView, ToolResult};

verus! {

pub struct MonitorTool;

impl MonitorTool {
    pub fn name(&self) -> (out: &'static str)
        ensures
            out@ == "monitor"@,
    {
        "monitor"
    }

    pub fn permission_level(&self) -> (out: PermissionLevel)
        ensures
            out == PermissionLevel::ReadOnly,
    {
        PermissionLevel::ReadOnly
    }
}

/// What is asked of the tool.
#[derive(Debug, PartialEq, Eq, Clone, Copy, Structural)]
pub enum MonitorAction {
    List,
    Status,
    Output,
    Cancel,
}

/// The action a name stands for; listing where none is named.
pub open spec fn action_of(name: Option<Seq<char>>) -> Option<MonitorAction> {
    match name {
        None => Some(MonitorAction::List),
        Some(name) => if name == "list"@ {
            Some(MonitorAction::List)
        } else if name == "status"@ {
            Some(MonitorAction::Status)
        } else if name == "output"@ {
            Some(MonitorAction::Output)
        } else if name == "cancel"@ {
            Some(MonitorAction::Cancel)
        } else {
            None
        },
    }
}

impl MonitorAction {
    /// The action a name stands for; listing where none is named.
    pub fn parse(name: &Option<String>) -> (r: Option<MonitorAction>)
        ensures
            r == action_of(opt_view(*name)),
    {
        match name {
            None => Some(MonitorAction::List),
            Some(name) => {
                if same(name, "list") {
                    Some(MonitorAction::List)
                } else if same(name, "status") {
                    Some(MonitorAction::Status)
                } else if same(name, "output") {
                    Some(MonitorAction::Output)
                } else if same(name, "cancel") {
                    Some(MonitorAction::Cancel)
                } else {
                    None
                }
            },
        }
    }
}

/// How a task stands.
#[derive(Debug)]
pub enum TaskStatus {
    Running,
    Completed,
    Failed(String),
    Cancelled,
}

/// A background task.
#[derive(Debug)]
pub struct Task {
    pub id: String,
    /// The command it runs.
    pub name: String,
    pub status: TaskStatus,
    /// How the registry itself words the status.
    pub status_text: String,
    pub output: Vec<String>,
    pub pid: Option<u32>,
}

/// How a task stands, in words.
pub open spec fn status_words(s: TaskStatus, completed: Seq<char>) -> Seq<char> {
    match s {
        TaskStatus::Running => "running"@,
        TaskStatus::Completed => completed,
        TaskStatus::Failed(msg) => "failed: "@ + msg@,
        TaskStatus::Cancelled => "cancelled"@,
    }
}

fn words_for(s: &TaskStatus, completed: &str) -> (out: String)
    ensures
        out@ == status_words(*s, completed@),
{
    match s {
        TaskStatus::Running => "running".to_string(),
        TaskStatus::Completed => completed.to_string(),
        TaskStatus::Failed(msg) => {
            let mut out = "failed: ".to_string();
            out.push_str(msg);
            out
        },
        TaskStatus::Cancelled => "cancelled".to_string(),
    }
}

/// One line of the list.
pub open spec fn task_line(t: Task) -> Seq<char> {
    "  "@ + t.id@ + " ["@ + status_words(t.status, "completed"@) + "] "@ + t.name@
}

/// The lines of the list.
pub open spec fn task_lines(tasks: Seq<Task>) -> Seq<Seq<char>> {
    seq!["Background tasks:"@] + Seq::new(tasks.len(), |i: int| task_line(tasks[i]))
}

/// What the list answers.
pub open spec fn list_answer(tasks: Seq<Task>) -> ResultView {
    if tasks.len() == 0 {
        said("No background tasks."@, false)
    } else {
        said(join(task_lines(tasks), "\n"@), false)
    }
}

/// The first task from `from` on with the id.
pub open spec fn task_from(tasks: Seq<Task>, id: Seq<char>, from: int) -> Option<Task>
    decreases tasks.len() - from,
{
    if from < 0 || from >= tasks.len() {
        None
    } else if tasks[from].id@ == id {
        Some(tasks[from])
    } else {
        task_from(tasks, id, from + 1)
    }
}

/// What one task's status answers.
pub open spec fn status_answer(t: Task) -> ResultView {
    said(
        "Task: "@ + t.id@ + "\nStatus: "@ + status_words(t.status, "completed (exit 0)"@)
            + "\nCommand: "@ + t.name@ + "\nOutput lines: "@ + decimal(t.output@.len()),
        false,
    )
}

/// What one task's output answers.
pub open spec fn output_answer(t: Task) -> ResultView {
    let output = join(views(t.output@), "\n"@);
    if output.len() == 0 {
        said("(no output yet)"@, false)
    } else {
        said(output, false)
    }
}

/// What cancelling a task answers.
pub open spec fn cancel_answer(t: Task) -> ResultView {
    if t.status is Running {
        said("Task "@ + t.id@ + " cancelled."@, false)
    } else {
        said(
            "Task "@ + t.id@ + " is not running (status: "@ + t.status_text@ + ")"@,
            true,
        )
    }
}

/// The name of an action, as it is asked for.
pub open spec fn action_name(action: MonitorAction) -> Seq<char> {
    match action {
        MonitorAction::List => "list"@,
        MonitorAction::Status => "status"@,
        MonitorAction::Output => "output"@,
        MonitorAction::Cancel => "cancel"@,
    }
}

/// What the tool answers.
pub open spec fn answer(
    action: MonitorAction,
    task_id: Option<Seq<char>>,
    tasks: Seq<Task>,
) -> ResultView {
    if action == MonitorAction::List {
        list_answer(tasks)
    } else {
        match task_id {
            None => said("task_id required for "@ + action_name(action) + " action"@, true),
            Some(id) => match task_from(tasks, id, 0) {
                None => said("Task "@ + id + " not found"@, true),
                Some(t) => match action {
                    MonitorAction::Status => status_answer(t),
                    MonitorAction::Output => output_answer(t),
                    _ => cancel_answer(t),
                },
            },
        }
    }
}

/// Whether the tool stops a task, and which.
pub open spec fn stopped(
    action: MonitorAction,
    task_id: Option<Seq<char>>,
    tasks: Seq<Task>,
) -> Option<Task> {
    if action == MonitorAction::Cancel && task_id is Some {
        match task_from(tasks, task_id->Some_0, 0) {
            Some(t) => if t.status is Running {
                Some(t)
            } else {
                None
            },
            None => None,
        }
    } else {
        None
    }
}

/// What the tool does: its answer, and the task to stop, by its id and the
/// process it runs as. The whole tree of processes goes, not the recorded one
/// alone: a background command runs under a shell, so the process names the
/// wrapper.
#[derive(Debug)]
pub struct Response {
    pub result: ToolResult,
    pub stop: Option<(String, Option<u32>)>,
}

fn find_task<'a>(tasks: &'a Vec<Task>, id: &str) -> (r: Option<&'a Task>)
    ensures
        match r {
            Some(t) => task_from(tasks@, id@, 0) == Some(*t),
            None => task_from(tasks@, id@, 0) is None,
        },
{
    let mut i: usize = 0;
    while i < tasks.len()
        invariant
            i <= tasks@.len(),
            task_from(tasks@, id@, 0) == task_from(tasks@, id@, i as int),
        decreases tasks.len() - i,
    {
        if same(&tasks[i].id, id) {
            return Some(&tasks[i]);
        }
        i += 1;
    }
    None
}

proof fn task_has_id(tasks: Seq<Task>, id: Seq<char>, from: int)
    ensures
        task_from(tasks, id, from) matches Some(t) ==> t.id@ == id,
    decreases tasks.len() - from,
{
    if 0 <= from < tasks.len() && tasks[from].id@ != id {
        task_has_id(tasks, id, from + 1);
    }
}

fn list_report(tasks: &Vec<Task>) -> (r: ToolResult)
    ensures
        r@ == list_answer(tasks@),
{
    broadcast use views_push;

    if tasks.len() == 0 {
        return ToolResult::success("No background tasks.".to_string());
    }
    let mut lines: Vec<String> = Vec::new();
    lines.push("Background tasks:".to_string());
    let mut i: usize = 0;
    assert(views(lines@) =~= task_lines(tasks@.take(0)));
    while i < tasks.len()
        invariant
            i <= tasks@.len(),
            views(lines@) == task_lines(tasks@.take(i as int)),
        decreases tasks.len() - i,
    {
        let mut line = "  ".to_string();
        line.push_str(&tasks[i].id);
        line.push_str(" [");
        let status = words_for(&tasks[i].status, "completed");
        line.push_str(&status);
        line.push_str("] ");
        line.push_str(&tasks[i].name);
        let ghost before = views(lines@);
        lines.push(line);
        assert(task_lines(tasks@.take(i + 1)) =~= before.push(task_line(tasks@[i as int])));
        i += 1;
    }
    assert(tasks@.take(tasks@.len() as int) =~= tasks@);
    ToolResult::success(join_with(&lines, "\n"))
}

fn status_report(t: &Task) -> (r: ToolResult)
    ensures
        r@ == status_answer(*t),
{
    let mut out = "Task: ".to_string();
    out.push_str(&t.id);
    out.push_str("\nStatus: ");
    let status = words_for(&t.status, "completed (exit 0)");
    out.push_str(&status);
    out.push_str("\nCommand: ");
    out.push_str(&t.name);
    out.push_str("\nOutput lines: ");
    out.push_str(&count(t.output.len()));
    ToolResult::success(out)
}

fn output_report(t: &Task) -> (r: ToolResult)
    ensures
        r@ == output_answer(*t),
{
    let output = join_with(&t.output, "\n");
    if output.as_str().is_empty() {
        ToolResult::success("(no output yet)".to_string())
    } else {
        ToolResult::success(output)
    }
}

fn name_of(action: MonitorAction) -> (out: &'static str)
    ensures
        out@ == action_name(action),
{
    match action {
        MonitorAction::List => "list",
        MonitorAction::Status => "status",
        MonitorAction::Output => "output",
        MonitorAction::Cancel => "cancel",
    }
}

/// Answer an action, given the tasks there are.
pub fn respond(action: MonitorAction, task_id: &Option<String>, tasks: &Vec<Task>) -> (r: Response)
    ensures
        r.result@ == answer(action, opt_view(*task_id), tasks@),
        match r.stop {
            Some(s) => (stopped(action, opt_view(*task_id), tasks@) matches Some(t) && s.0@ == t.id@
                && s.1 == t.pid),
            None => stopped(action, opt_view(*task_id), tasks@) is None,
        },
{
    if action == MonitorAction::List {
        return Response { result: list_report(tasks), stop: None };
    }
    let id = match task_id {
        Some(id) => id,
        None => {
            let mut out = "task_id required for ".to_string();
            out.push_str(name_of(action));
            out.push_str(" action");
            return Response { result: ToolResult::error(out), stop: None };
        },
    };
    proof {
        task_has_id(tasks@, id@, 0);
    }
    let t = match find_task(tasks, id) {
        Some(t) => t,
        None => {
            let mut out = "Task ".to_string();
            out.push_str(id);
            out.push_str(" not found");
            return Response { result: ToolResult::error(out), stop: None };
        },
    };
    match action {
        MonitorAction::Status => Response { result: status_report(t), stop: None },
        MonitorAction::Output => Response { result: output_report(t), stop: None },
        _ => {
            let mut out = "Task ".to_string();
            out.push_str(id);
            if let TaskStatus::Running = t.status {
                out.push_str(" cancelled.");
                return Response {
                    result: ToolResult::success(out),
                    stop: Some((t.id.clone(), t.pid)),
                };
            }
            out.push_str(" is not running (status: ");
            out.push_str(&t.status_text);
            out.push_str(")");
            Response { result: ToolResult::error(out), stop: None }
        },
    }
}

/// Only cancelling stops a task, and only one that runs.
pub proof fn only_a_running_task_is_stopped(
    action: MonitorAction,
    task_id: Option<Seq<char>>,
    tasks: Seq<Task>,
)
    requires
        stopped(action, task_id, tasks) is Some,
    ensures
        action == MonitorAction::Cancel,
        stopped(action, task_id, tasks)->Some_0.status is Running,
        !answer(action, task_id, tasks).is_error,
{
}

proof fn the_first_of_its_name(tasks: Seq<Task>, id: Seq<char>, from: int, k: int)
    requires
        0 <= from <= k < tasks.len(),
        tasks[k].id@ == id,
        forall|j: int| 0 <= j < k ==> (#[trigger] tasks[j]).id@ != id,
    ensures
        task_from(tasks, id, from) == Some(tasks[k]),
    decreases k - from,
{
    if from < k {
        assert(tasks[from].id@ != id);
        the_first_of_its_name(tasks, id, from + 1, k);
    }
}

proof fn none_of_its_name(tasks: Seq<Task>, id: Seq<char>, from: int)
    requires
        0 <= from,
        forall|j: int| 0 <= j < tasks.len() ==> (#[trigger] tasks[j]).id@ != id,
    ensures
        task_from(tasks, id, from) is None,
    decreases tasks.len() - from,
{
    if from < tasks.len() {
        assert(tasks[from].id@ != id);
        none_of_its_name(tasks, id, from + 1);
    }
}

/// An action on a task is answered of the first task with that name: what it is and
/// how it stands, all that it has printed, or that it is stopped, which it is only
/// where it runs.
pub proof fn an_action_is_on_the_named_task(tasks: Seq<Task>, id: Seq<char>, k: int)
    requires
        0 <= k < tasks.len(),
        tasks[k].id@ == id,
        forall|j: int| 0 <= j < k ==> (#[trigger] tasks[j]).id@ != id,
    ensures
        ({
            let t = tasks[k];
            &&& answer(MonitorAction::Status, Some(id), tasks).content == "Task: "@ + id
                + "\nStatus: "@ + status_words(t.status, "completed (exit 0)"@) + "\nCommand: "@
                + t.name@ + "\nOutput lines: "@ + decimal(t.output@.len())
            &&& join(views(t.output@), "\n"@).len() > 0 ==> answer(
                MonitorAction::Output,
                Some(id),
                tasks,
            ).content == join(views(t.output@), "\n"@)
            &&& t.status is Running ==> stopped(MonitorAction::Cancel, Some(id), tasks) == Some(t)
            &&& !(t.status is Running) ==> stopped(MonitorAction::Cancel, Some(id), tasks) is None
                && answer(MonitorAction::Cancel, Some(id), tasks).is_error
            &&& stopped(MonitorAction::Status, Some(id), tasks) is None
            &&& stopped(MonitorAction::Output, Some(id), tasks) is None
        }),
{
    the_first_of_its_name(tasks, id, 0, k);
}

/// A name that no task has is an error, whatever is asked of it, and stops nothing.
pub proof fn an_unknown_task_is_an_error(
    tasks: Seq<Task>,
    id: Seq<char>,
    action: MonitorAction,
)
    requires
        action != MonitorAction::List,
        forall|j: int| 0 <= j < tasks.len() ==> (#[trigger] tasks[j]).id@ != id,
    ensures
        answer(action, Some(id), tasks) == said("Task "@ + id + " not found"@, true),
        stopped(action, Some(id), tasks) is None,
        answer(action, None, tasks).is_error,
{
    none_of_its_name(tasks, id, 0);
}

/// Every task has a line of its own in the list, in order: its name in brackets of how
/// it stands, and what it runs.
pub proof fn every_task_is_listed(tasks: Seq<Task>, i: int)
    requires
        0 <= i < tasks.len(),
    ensures
        answer(MonitorAction::List, None, tasks) == said(join(task_lines(tasks), "\n"@), false),
        task_lines(tasks).len() == tasks.len() + 1,
        tasks[i].status is Running ==> task_lines(tasks)[i + 1] == "  "@ + tasks[i].id@ + " ["@
            + "running"@ + "] "@ + tasks[i].name@,
        tasks[i].status is Completed ==> task_lines(tasks)[i + 1] == "  "@ + tasks[i].id@ + " ["@
            + "completed"@ + "] "@ + tasks[i].name@,
        tasks[i].status is Cancelled ==> task_lines(tasks)[i + 1] == "  "@ + tasks[i].id@ + " ["@
            + "cancelled"@ + "] "@ + tasks[i].name@,
        tasks[i].status matches TaskStatus::Failed(msg) ==> task_lines(tasks)[i + 1] == "  "@
            + tasks[i].id@ + " ["@ + ("failed: "@ + msg@) + "] "@ + tasks[i].name@,
{
}

/// Each action goes by its own name.
pub proof fn an_action_goes_by_its_name(action: MonitorAction)
    ensures
        action_of(Some(action_name(action))) == Some(action),
        action_of(None) == Some(MonitorAction::List),
{
    reveal_strlit("list");
    reveal_strlit("status");
    reveal_strlit("output");
    reveal_strlit("cancel");
    assert("list"@[0] == 'l' && "status"@[0] == 's' && "output"@[0] == 'o' && "cancel"@[0] == 'c');
}

} // verus!
