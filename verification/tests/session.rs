use mikmik_tools::context::{
    answered, answered_with_details, path_is_within_workspace, write_atomic_name, ActiveToolCall,
    Checked, CompletionNotifier, EditorCapabilities, PendingPermissionStore, PermissionDecision,
    PlanChoice, Route, ToolContext,
};
use mikmik_tools::json::Json;
use mikmik_tools::roster::ToolEntry;
use mikmik_tools::sessions::{bundled_policy, BundledUtilities, ShellUtilities};
use mikmik_tools::{
    access_tool_names, all_tools, find_tool, FileEditTool, FileReadTool, FileWriteTool, OtherTools,
    PermissionLevel, PtyBashTool, Sessions, ShellState, ToolResult,
};

fn entry(name: &str, level: PermissionLevel) -> ToolEntry {
    ToolEntry { name: name.to_string(), level }
}

fn others() -> OtherTools {
    OtherTools {
        editing: vec![entry("BatchEdit", PermissionLevel::Write)],
        working: vec![
            entry("WebFetch", PermissionLevel::ReadOnly),
            entry("WebSearch", PermissionLevel::ReadOnly),
            entry("TodoWrite", PermissionLevel::NotNeeded),
            entry("AskUserQuestion", PermissionLevel::Write),
            entry("Skill", PermissionLevel::NotNeeded),
        ],
        teaming: vec![entry("REPL", PermissionLevel::Execute)],
        desktop: vec![entry("computer_script", PermissionLevel::Dangerous)],
    }
}

fn roster() -> Vec<ToolEntry> {
    all_tools(others(), false)
}

fn context() -> ToolContext {
    ToolContext {
        working_dir: "/workspace".to_string(),
        session_id: "test".to_string(),
        current_turn: 0,
        non_interactive: true,
        workspace_paths: Vec::new(),
        additional_dirs: Vec::new(),
        roots: vec![("main".to_string(), "/workspace".to_string())],
        live_tool_output: false,
        has_output_channel: false,
        current_call: None,
        editor: None,
        pending_permissions: None,
    }
}

fn context_with_extra_dir() -> ToolContext {
    let mut ctx = context();
    ctx.additional_dirs = vec!["/elsewhere/docs".to_string()];
    ctx.roots = vec![
        ("docs".to_string(), "/elsewhere/docs".to_string()),
        ("main".to_string(), "/workspace".to_string()),
    ];
    ctx
}

fn ask(reason: &str) -> PermissionDecision {
    PermissionDecision::Ask { reason: reason.to_string() }
}

fn call(id: &str) -> ActiveToolCall {
    ActiveToolCall { id: id.to_string(), input: Json::Null, permission_wait_ms: 0 }
}

#[test]
fn test_all_tools_non_empty() {
    assert!(!roster().is_empty(), "all_tools() must return at least one tool");
}

#[test]
fn test_all_tools_have_unique_names() {
    let mut names = std::collections::HashSet::new();
    for tool in &all_tools(others(), true) {
        assert!(names.insert(tool.name.clone()), "Duplicate tool name: {}", tool.name);
    }
}

#[test]
fn each_tool_has_its_place() {
    let names: Vec<String> = all_tools(others(), true).into_iter().map(|t| t.name).collect();
    assert_eq!(
        names,
        vec![
            "Bash",
            "Read",
            "Edit",
            "Write",
            "BatchEdit",
            "Glob",
            "Grep",
            "WebFetch",
            "WebSearch",
            "TodoWrite",
            "AskUserQuestion",
            "Skill",
            "LSP",
            "REPL",
            "monitor",
            "Goal",
            "browser",
            "generate_image",
            "inspect_image",
            "hub",
            "computer_script",
            "PowerShell",
        ]
    );
}

#[test]
fn a_reader_gets_what_reads() {
    let names = access_tool_names("read-only", &roster()).expect("a restriction");
    assert_eq!(
        names,
        vec![
            "Read",
            "Glob",
            "Grep",
            "WebFetch",
            "WebSearch",
            "TodoWrite",
            "AskUserQuestion",
            "Skill",
            "LSP",
            "monitor",
            "Goal",
            "inspect_image",
        ]
    );
}

#[test]
fn what_a_search_may_use_is_offered() {
    for name in access_tool_names("search-only", &roster()).expect("a restriction") {
        assert!(find_tool(&roster(), &name).is_some(), "{name} is not offered");
    }
}

#[test]
fn test_find_tool_found() {
    let tools = roster();
    let tool = find_tool(&tools, "Bash");
    assert!(tool.is_some(), "Should find the Bash tool");
    assert_eq!(tool.unwrap().name, "Bash");
}

#[test]
fn test_find_tool_not_found() {
    assert!(find_tool(&roster(), "NonExistentTool12345").is_none());
}

#[test]
fn test_find_tool_case_sensitive() {
    assert!(find_tool(&roster(), "bash").is_none());
    assert!(find_tool(&roster(), "Bash").is_some());
}

#[test]
fn test_core_tools_present() {
    let expected = [
        "Bash",
        "Read",
        "Edit",
        "Write",
        "Glob",
        "Grep",
        "WebFetch",
        "WebSearch",
        "TodoWrite",
        "Skill",
    ];
    for name in &expected {
        assert!(
            find_tool(&roster(), name).is_some(),
            "Expected tool '{}' not found in all_tools()",
            name
        );
    }
}

#[test]
fn powershell_is_offered_only_where_it_can_run() {
    assert!(find_tool(&all_tools(others(), true), "PowerShell").is_some());
    assert!(find_tool(&all_tools(others(), false), "PowerShell").is_none());
}

#[test]
fn bash_is_offered_on_every_platform() {
    assert!(find_tool(&roster(), "Bash").is_some());
}

#[test]
fn test_tool_result_success() {
    let r = ToolResult::success("done".to_string());
    assert!(!r.is_error);
    assert_eq!(r.content, "done");
    assert!(r.metadata.is_none());
}

#[test]
fn test_tool_result_error() {
    let r = ToolResult::error("something went wrong".to_string());
    assert!(r.is_error);
    assert_eq!(r.content, "something went wrong");
}

#[test]
fn test_tool_result_with_metadata() {
    let meta = Json::Object(vec![
        ("file".to_string(), Json::Text("foo.rs".to_string())),
        ("lines".to_string(), mikmik_tools::json::whole(10)),
    ]);
    let r = ToolResult::success("ok".to_string()).with_metadata(meta);
    assert!(r.metadata.is_some());
    let meta = r.metadata.unwrap();
    assert_eq!(meta.text_of("file").as_deref(), Some("foo.rs"));
}

#[test]
fn test_resolve_path_absolute() {
    let ctx = context();
    let resolved = ctx.resolve_path("/absolute/path/file.rs");
    assert_eq!(resolved, Ok("/absolute/path/file.rs".to_string()));
}

#[test]
fn test_resolve_path_relative() {
    let ctx = context();
    let resolved = ctx.resolve_path("src/main.rs");
    assert_eq!(resolved, Ok("/workspace/src/main.rs".to_string()));
}

#[test]
fn a_root_path_resolves_against_its_root() {
    let ctx = context_with_extra_dir();
    assert_eq!(
        ctx.resolve_path("&docs/guide.md"),
        Ok("/elsewhere/docs/guide.md".to_string())
    );
    assert_eq!(ctx.resolve_path("&docs"), Ok("/elsewhere/docs".to_string()));
    assert_eq!(
        ctx.resolve_path("&main/src/main.rs"),
        Ok("/workspace/src/main.rs".to_string())
    );
}

#[test]
fn a_mistyped_root_is_rejected_rather_than_joined() {
    let ctx = context_with_extra_dir();
    let error = ctx
        .resolve_path("&doc/guide.md")
        .expect_err("an unknown root must not resolve");
    assert!(error.contains("&doc"), "{error}");
    assert!(error.contains("&main"), "{error}");
    assert!(error.contains("&docs"), "{error}");
}

#[test]
fn test_request_permission_uses_details_for_non_interactive_errors() {
    let mut ctx = context();
    let request = ctx.build_permission_request(
        "PowerShell",
        "[High risk] set execution policy",
        &Some("[High risk] This may modify system-wide security policy.".to_string()),
        false,
        &Some("Set-ExecutionPolicy RemoteSigned".to_string()),
    );

    match ctx.request_permission_inner(request, &ask("generic reason")) {
        Checked::Denied(error) => {
            assert!(error.contains("[High risk] This may modify system-wide security policy."));
            assert!(!error.contains("generic reason"));
        }
        other => panic!("expected a denial, got {other:?}"),
    }
}

#[test]
fn test_request_permission_falls_back_to_handler_reason_without_details() {
    let mut ctx = context();
    let request = ctx.build_permission_request(
        "Bash",
        "run ls",
        &None,
        false,
        &Some("ls -la".to_string()),
    );

    match ctx.request_permission_inner(request, &ask("generic reason")) {
        Checked::Denied(error) => assert!(error.contains("generic reason")),
        other => panic!("expected a denial, got {other:?}"),
    }
}

#[test]
fn an_interactive_session_queues_the_question() {
    let mut ctx = context();
    ctx.non_interactive = false;
    ctx.pending_permissions = Some(PendingPermissionStore { queue: Vec::new() });
    ctx.current_call = Some(call("call-1"));
    let first = ctx.check_permission("Bash", "run ls", false, &ask("why"));
    let second = ctx.check_permission_with_details("Bash", "run ls", "risk", false, &ask("why"));
    assert!(matches!(first, Checked::Waiting));
    assert!(matches!(second, Checked::Waiting));
    assert_eq!(ctx.current_turn_index(), 2);
    let queue = ctx.pending_permissions.expect("a queue").queue;
    assert_eq!(queue.len(), 2);
    assert_eq!(queue[0].tool_use_id, "perm-test-0");
    assert_eq!(queue[1].tool_use_id, "perm-test-1");
    assert_eq!(queue[0].reason, "why");
    assert_eq!(queue[1].reason, "risk");
    assert!(queue[0].request.input.is_some());
}

#[test]
fn a_denial_is_restated_with_its_details() {
    let mut ctx = context();
    let denied = ctx.check_permission_with_details_and_path(
        "PowerShell",
        "d",
        "too risky",
        "cmd",
        false,
        &PermissionDecision::Deny,
    );
    match denied {
        Checked::Denied(e) => {
            assert_eq!(e, "Permission denied for tool 'PowerShell': too risky")
        }
        other => panic!("expected a denial, got {other:?}"),
    }
    match ctx.check_permission_for_path("Bash", "d", "cmd", false, &PermissionDecision::Deny) {
        Checked::Denied(e) => assert_eq!(e, "Permission denied for tool 'Bash'"),
        other => panic!("expected a denial, got {other:?}"),
    }
    assert!(matches!(
        ctx.check_permission("Bash", "d", false, &PermissionDecision::AllowPermanently),
        Checked::Allowed
    ));
}

#[test]
fn the_user_has_the_last_word() {
    assert!(matches!(answered(&Some(PermissionDecision::Allow)), Checked::Allowed));
    match answered(&None) {
        Checked::Denied(e) => assert_eq!(e, "Permission denied by user"),
        other => panic!("expected a denial, got {other:?}"),
    }
    match answered_with_details(&Some(PermissionDecision::Deny), "Bash", "risk") {
        Checked::Denied(e) => assert_eq!(e, "Permission denied for tool 'Bash': risk"),
        other => panic!("expected a denial, got {other:?}"),
    }
}

#[test]
fn test_permission_level_order() {
    assert_ne!(PermissionLevel::NotNeeded, PermissionLevel::ReadOnly);
    assert_ne!(PermissionLevel::Write, PermissionLevel::Execute);
    assert_ne!(PermissionLevel::Execute, PermissionLevel::Dangerous);
}

#[test]
fn test_bash_tool_permission_level() {
    assert_eq!(PtyBashTool.permission_level(), PermissionLevel::Execute);
}

#[test]
fn test_file_read_permission_level() {
    assert_eq!(FileReadTool.permission_level(), PermissionLevel::ReadOnly);
}

#[test]
fn test_file_edit_permission_level() {
    assert_eq!(FileEditTool.permission_level(), PermissionLevel::Write);
}

#[test]
fn test_file_write_permission_level() {
    assert_eq!(FileWriteTool.permission_level(), PermissionLevel::Write);
}

#[test]
fn full_access_is_unrestricted() {
    assert!(access_tool_names("full", &roster()).is_none());
    assert!(access_tool_names("anything-else", &roster()).is_none());
}

#[test]
fn read_only_access_excludes_write_and_execute_tools() {
    let names = access_tool_names("read-only", &roster()).expect("read-only allowlist");
    assert!(names.iter().any(|n| n == "Read"));
    assert!(names.iter().any(|n| n == "AskUserQuestion"));
    assert!(!names.iter().any(|n| n == "Write"));
    assert!(!names.iter().any(|n| n == "Bash"));
}

#[test]
fn search_only_access_is_the_fixed_search_set() {
    let names = access_tool_names("search-only", &roster()).expect("search-only allowlist");
    let mut sorted = names.clone();
    sorted.sort();
    assert_eq!(
        sorted,
        vec!["Glob", "Grep", "Read", "WebFetch", "WebSearch"]
    );
}

#[test]
fn the_sink_stamps_each_chunk_with_the_call_it_came_from() {
    let mut ctx = context();
    ctx.live_tool_output = true;
    ctx.has_output_channel = true;
    ctx.current_call = Some(call("call-1"));
    let sink = ctx.live_output_sink().expect("sink");

    let a = sink.chunk("first");
    assert_eq!(a.tool_id, "call-1");
    assert_eq!(a.text, "first");
    assert_eq!(sink.chunk("second").text, "second");
}

#[test]
fn the_sink_is_absent_unless_every_condition_holds() {
    for (live, channel, with_call) in
        [(false, true, true), (true, true, false), (true, false, true)]
    {
        let mut ctx = context();
        ctx.live_tool_output = live;
        ctx.has_output_channel = channel;
        if with_call {
            ctx.current_call = Some(call("call-1"));
        }
        assert!(ctx.live_output_sink().is_none(), "{live} {channel} {with_call}");
    }
}

#[test]
fn each_setting_reaches_the_shell_as_itself() {
    assert_eq!(bundled_policy(BundledUtilities::Prefer), ShellUtilities::Prefer);
    assert_eq!(bundled_policy(BundledUtilities::Fallback), ShellUtilities::Fallback);
}

#[test]
fn only_keep_planning_is_no_approval() {
    assert!(PlanChoice::Approve.is_approval());
    assert!(PlanChoice::ApproveAndClearContext.is_approval());
    assert!(PlanChoice::ApproveWithManualEdits.is_approval());
    assert!(!PlanChoice::KeepPlanning.is_approval());
}

#[test]
fn a_notification_reaches_its_handler() {
    let seen = std::cell::RefCell::new(Vec::new());
    let notifier = CompletionNotifier::new(|message: String| seen.borrow_mut().push(message));
    notifier.notify("done".to_string());
    let other = notifier.clone();
    other.notify("again".to_string());
    drop(notifier);
    drop(other);
    assert_eq!(seen.into_inner(), vec!["done".to_string(), "again".to_string()]);
}

#[test]
fn a_wait_is_counted_to_its_call() {
    let mut active = call("c");
    active.waited(5);
    active.waited(7);
    assert_eq!(active.permission_wait_ms, 12);
    active.permission_wait_ms = u64::MAX;
    active.waited(2);
    assert_eq!(active.permission_wait_ms, 1);
}

#[test]
fn files_go_through_the_editor_where_it_hosts_them() {
    let mut ctx = context();
    assert_eq!(ctx.read_text(), Route::Disk);
    assert_eq!(ctx.write_text(true), Route::Disk);
    ctx.editor = Some(EditorCapabilities { read_text_file: true, write_text_file: true });
    assert_eq!(ctx.read_text(), Route::Editor);
    assert_eq!(ctx.write_text(true), Route::Editor);
    assert_eq!(ctx.write_text(false), Route::Disk);
}

#[test]
fn a_path_outside_every_root_is_outside_the_workspace() {
    let roots = vec!["/workspace".to_string(), "/elsewhere/docs".to_string()];
    assert!(path_is_within_workspace("/workspace/src/main.rs", &roots));
    assert!(path_is_within_workspace("/elsewhere/docs", &roots));
    assert!(!path_is_within_workspace("/workspace2/x", &roots));
}

#[test]
fn an_atomic_write_goes_beside_its_destination() {
    assert_eq!(write_atomic_name("/d/out.txt", 42), ".out.txt.mikmik-tmp-42");
    assert_eq!(write_atomic_name("/", 42), ".file.mikmik-tmp-42");
}

#[test]
fn a_session_keeps_its_shell_until_it_is_cleared() {
    let mut sessions = Sessions::new();
    assert_eq!(sessions.open_shell("s1"), None);
    assert_eq!(sessions.session_brush_shell("s1", "first"), "first");
    assert_eq!(sessions.session_brush_shell("s1", "second"), "first");
    assert_eq!(sessions.session_brush_shell("s2", "other"), "other");
    assert_eq!(sessions.session_shell_state("s1", "state"), "state");
    assert_eq!(sessions.session_powershell("s1", "ps"), "ps");
    sessions.drop_session_powershell("s1");
    assert_eq!(sessions.open_interpreter("s1"), None);
    assert_eq!(sessions.open_shell("s1").as_deref(), Some("first"));
    sessions.clear_session_shell_state("s1");
    assert_eq!(sessions.open_shell("s1"), None);
    assert_eq!(sessions.open_shell("s2").as_deref(), Some("other"));
    assert_eq!(sessions.session_shell_state("s1", "fresh"), "fresh");
}

#[test]
fn a_new_shell_state_is_empty() {
    let state = ShellState::new();
    assert!(state.cwd.is_none());
    assert!(state.env_vars.get("PATH").is_none());
}
