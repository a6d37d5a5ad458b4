use mikmik_tools::advise::{advise, sent, AdvisorSeverity};
use mikmik_tools::brush_background::{
    can_name, output_line, report as report_background, task_name as background_name, RunOutcome,
};
use mikmik_tools::brush_bash::{drain_step, Capture, DrainStep};
use mikmik_tools::formatter::{command_line, FormatterConfig};
use mikmik_tools::goal_tool::{
    changed, op_complete, op_create, op_get, op_resume, step, Goal, GoalInput, GoalStatus, GoalStep,
};
use mikmik_tools::hub::{
    has_marker, log_window, logs_report, parse_env, plan_send, plan_signal, plan_start, ps_report,
    read_op, required_name, restarted, signal_from_name, signalled, started, stopped,
    task_name as hub_task_name, unstarted, wait_for_marker, written, HubInput, HubOp, HubTool,
    Listed, LogBuffer, MarkerWait, SendPlan, Signal, Spec, Supervisor, Written, MAX_LOG_LINES,
};
use mikmik_tools::image_tools::generate::{
    accept_reply, build_request, compose_prompt, empty_prompt, file_name_from, fresh_file_name,
    generations_body, image_file_name, image_from_body, image_from_response, inline_image, input_image, no_key, resolve_size,
    GenerateInput, ImagePayload, InputSource, DEFAULT_SIZE,
};
use mikmik_tools::image_tools::inspect::{
    build_image_message, check_type, inspected, resolve_model, text_of, ContentBlock,
};
use mikmik_tools::image_tools::media_type_for;
use mikmik_tools::json::{Json, JsonNumber};
use mikmik_tools::lsp_after_write::{
    diagnostics_of, format_problems, formatting, report_after_batch, served, wants_report,
    BatchOutcome, Heading, WriteLog,
};
use mikmik_tools::lsp_flow::{next_phase, Phase, Went};
use mikmik_tools::lsp_tool::{
    action_step, addressed, applied_report, applies_rename, bad_payload, capabilities_report,
    context_places, diagnostics_report, enabled_names, format_locations, hover_report, listing_filter,
    lookup_report, needs_position, needs_sync, no_server_message, payload_from, payload_params,
    place_of, plan, plan_file, position_params, raw_request_params, raw_request_report,
    read_action, read_input, reads_only, reload_report, rename_file_report, rename_step,
    renamed_report, request_params, request_report, resolve_column, status_report, symbols_report,
    unknown_action, unnamed_rename, unsent, workspace_server, workspace_symbols_report, ActionStep,
    Addressed, Answer, Candidate, CodeAction, FilePlan, Lookup, LspInput, LspPlan, LspTool, Params,
    RenameStep, ServerState,
};
use mikmik_tools::monitor_tool::{respond, MonitorAction, MonitorTool, Task, TaskStatus};
use mikmik_tools::parsing::parse_json;
use mikmik_tools::powershell::{
    can_shorten, combine, default_timeout, finished, gate, invocation, risk_explanation,
    risk_label, shorten, timed_out, timeout_ms, unstarted as ps_unstarted, PsGate, PsRiskLevel,
    MAX_OUTPUT_LEN,
};

fn from_value(value: &serde_json::Value) -> Json {
    match value {
        serde_json::Value::Null => Json::Null,
        serde_json::Value::Bool(b) => Json::Bool(*b),
        serde_json::Value::Number(n) => Json::Number(if let Some(u) = n.as_u64() {
            JsonNumber::Positive(u)
        } else if let Some(i) = n.as_i64() {
            JsonNumber::Negative(i)
        } else {
            JsonNumber::Decimal(n.to_string())
        }),
        serde_json::Value::String(s) => Json::Text(s.clone()),
        serde_json::Value::Array(items) => Json::Array(items.iter().map(from_value).collect()),
        serde_json::Value::Object(members) => Json::Object(
            members.iter().map(|(k, v)| (k.clone(), from_value(v))).collect(),
        ),
    }
}

fn json(text: &str) -> Json {
    from_value(&serde_json::from_str::<serde_json::Value>(text).expect("valid JSON"))
}

// ---------------------------------------------------------------------------
// Advice
// ---------------------------------------------------------------------------

#[test]
fn a_note_reaches_the_channel_with_its_severity_and_its_author() {
    let note = advise(
        "  The lock is held across an await.  ",
        &Some("concern".to_string()),
        &Some("Architecture".to_string()),
        true,
    )
    .expect("the note was sent");
    assert_eq!(note.note, "The lock is held across an await.");
    assert_eq!(note.severity, AdvisorSeverity::Concern);
    assert_eq!(note.advisor.as_deref(), Some("Architecture"));
    assert!(!sent(true).is_error);
    assert!(sent(false).is_error);
}

#[test]
fn an_unreadable_severity_reads_as_a_nit() {
    let note = advise("Consider a helper.", &Some("URGENT".to_string()), &None, true)
        .expect("the note was sent");
    assert_eq!(note.severity, AdvisorSeverity::Nit);
}

#[test]
fn a_primary_agent_has_nobody_to_advise() {
    assert!(advise("Something.", &None, &None, false).expect_err("refused").is_error);
}

#[test]
fn an_empty_note_is_refused() {
    assert!(advise("   ", &None, &None, true).expect_err("refused").is_error);
}

// ---------------------------------------------------------------------------
// Goals
// ---------------------------------------------------------------------------

/// A store of one goal.
struct Store {
    goal: Option<Goal>,
}

impl Store {
    fn seeded(objective: &str) -> Store {
        let mut store = Store { goal: None };
        store.create(objective, None);
        store
    }

    fn create(&mut self, objective: &str, token_budget: Option<u64>) {
        self.goal = Some(Goal {
            objective: objective.to_string(),
            status: GoalStatus::Active,
            status_text: "active".to_string(),
            turns_used: 0,
            elapsed: "0s".to_string(),
            budget: token_budget.map(|b| b.to_string()),
            token_budget,
            tokens_used: 0,
        });
    }

    fn carry_out(&mut self, step: GoalStep, input: &GoalInput) -> mikmik_tools::ToolResult {
        let after = match &step {
            GoalStep::Finish(_) => None,
            GoalStep::SetStatus(status) => {
                let status = *status;
                if let Some(goal) = &mut self.goal {
                    goal.status = status;
                }
                None
            }
            GoalStep::Clear => {
                self.goal = None;
                None
            }
            GoalStep::Create { objective, token_budget } => {
                let (objective, budget) = (objective.clone(), *token_budget);
                self.create(&objective, budget);
                None
            }
        };
        changed(step, input, &Ok(after))
    }
}

fn goal_input(op: &str) -> GoalInput {
    GoalInput {
        op: op.to_string(),
        objective: None,
        token_budget: None,
        audit_summary: None,
        evidence: None,
    }
}

#[test]
fn get_reports_no_goal_when_none_is_set() {
    let result = op_get(&None);
    assert!(!result.is_error);
    assert!(result.content.contains("No goal"), "{}", result.content);
}

#[test]
fn create_then_get_reads_back_the_objective() {
    let mut store = Store { goal: None };
    let mut input = goal_input("create");
    input.objective = Some("Migrate to Fastify".to_string());
    input.token_budget = Some(250_000);
    let step = op_create(&store.goal, &input);
    let created = store.carry_out(step, &input);
    assert!(!created.is_error, "{}", created.content);

    let got = op_get(&store.goal);
    assert!(got.content.contains("Migrate to Fastify"), "{}", got.content);
    assert!(got.content.contains("tokens left"), "{}", got.content);
}

#[test]
fn create_is_refused_when_a_goal_already_exists() {
    let mut store = Store::seeded("First");
    let mut input = goal_input("create");
    input.objective = Some("Second".to_string());
    let step = op_create(&store.goal, &input);
    let result = store.carry_out(step, &input);
    assert!(result.is_error, "{}", result.content);
    assert!(result.content.contains("already exists"), "{}", result.content);
}

#[test]
fn complete_needs_an_audit_and_evidence() {
    let mut store = Store::seeded("Do the thing");
    let mut input = goal_input("complete");
    input.audit_summary = Some("  ".to_string());
    input.evidence = Some("tests pass".to_string());
    let step = op_complete(&store.goal, &input);
    let no_audit = store.carry_out(step, &input);
    assert!(no_audit.is_error, "{}", no_audit.content);
    assert!(no_audit.content.contains("audit_summary"), "{}", no_audit.content);
}

#[test]
fn complete_sets_the_status_the_loop_reads() {
    let mut store = Store::seeded("Do the thing");
    let mut input = goal_input("complete");
    input.audit_summary = Some("did it".to_string());
    input.evidence = Some("tests pass".to_string());
    let step = op_complete(&store.goal, &input);
    let done = store.carry_out(step, &input);
    assert!(!done.is_error, "{}", done.content);
    assert_eq!(store.goal.map(|goal| goal.status), Some(GoalStatus::Complete));
}

#[test]
fn resume_reactivates_a_paused_goal() {
    let mut store = Store::seeded("Do the thing");
    if let Some(goal) = &mut store.goal {
        goal.status = GoalStatus::Paused;
    }
    let step = op_resume(&store.goal);
    let resumed = store.carry_out(step, &goal_input("resume"));
    assert!(!resumed.is_error, "{}", resumed.content);
    assert_eq!(store.goal.map(|goal| goal.status), Some(GoalStatus::Active));
}

#[test]
fn drop_removes_the_goal() {
    let mut store = Store::seeded("Do the thing");
    let input = goal_input("drop");
    let next = step(&store.goal, &input);
    let dropped = store.carry_out(next, &input);
    assert!(!dropped.is_error, "{}", dropped.content);
    assert!(store.goal.is_none());
}

#[test]
fn an_unknown_goal_op_is_refused() {
    let input = goal_input("teleport");
    match step(&None, &input) {
        GoalStep::Finish(result) => assert!(result.is_error, "{}", result.content),
        other => panic!("expected a refusal, got {other:?}"),
    }
}

// ---------------------------------------------------------------------------
// Supervised processes
// ---------------------------------------------------------------------------

fn hub_input(op: &str, name: Option<&str>) -> HubInput {
    HubInput {
        op: op.to_string(),
        name: name.map(str::to_string),
        application: None,
        args: None,
        env: None,
        cwd: None,
        ready: None,
        lines: None,
        head: None,
        grep: None,
        cursor: None,
        input: None,
        signal: None,
    }
}

#[test]
fn env_pairs_drop_entries_without_an_equals() {
    let env = vec!["A=1".to_string(), "bad".to_string(), "B=x=y".to_string()];
    let pairs = parse_env(&Some(env));
    assert_eq!(
        pairs,
        vec![
            ("A".to_string(), "1".to_string()),
            ("B".to_string(), "x=y".to_string())
        ]
    );
    assert!(parse_env(&None).is_empty());
}

fn sample() -> Vec<String> {
    (1..=6).map(|n| format!("line {n}")).collect()
}

#[test]
fn tail_returns_the_last_n_lines() {
    assert_eq!(
        log_window(&sample(), None, Some(2), &None, None),
        vec!["line 5".to_string(), "line 6".to_string()]
    );
}

#[test]
fn head_returns_the_first_n_lines() {
    assert_eq!(
        log_window(&sample(), Some(2), None, &None, None),
        vec!["line 1".to_string(), "line 2".to_string()]
    );
}

#[test]
fn grep_keeps_only_matching_lines() {
    let lines = vec![
        "info: start".to_string(),
        "error: boom".to_string(),
        "info: done".to_string(),
    ];
    assert_eq!(
        log_window(&lines, None, None, &Some("error".to_string()), None),
        vec!["error: boom".to_string()]
    );
}

#[test]
fn grep_then_tail_reads_the_last_matches() {
    let lines = vec![
        "hit 1".to_string(),
        "miss".to_string(),
        "hit 2".to_string(),
        "hit 3".to_string(),
    ];
    assert_eq!(
        log_window(&lines, None, Some(2), &Some("hit".to_string()), None),
        vec!["hit 2".to_string(), "hit 3".to_string()]
    );
}

#[test]
fn the_cursor_skips_from_the_front() {
    assert_eq!(
        log_window(&sample(), None, None, &None, Some(4)),
        vec!["line 5".to_string(), "line 6".to_string()]
    );
}

#[test]
fn a_process_is_started_read_and_stopped() {
    let name = "hub-test-proc";
    let mut supervisor = Supervisor::new();
    let mut input = hub_input("start", Some(name));
    input.application = Some("sh".to_string());
    input.args = Some(vec!["-c".to_string(), "echo READY; sleep 30".to_string()]);
    let (named, spec) = plan_start(&input, false).expect("the process starts");
    assert_eq!(named, name);
    assert_eq!(spec.application, "sh");
    supervisor.started(name, spec, 4711, "task-1".to_string());

    let mut logs = LogBuffer::new();
    logs.push("READY".to_string());
    assert!(has_marker(&logs.snapshot(), "READY"), "it printed READY");
    assert_eq!(
        log_window(&logs.snapshot(), None, None, &Some("READY".to_string()), None),
        vec!["READY".to_string()]
    );

    let stopped = supervisor.stop(name).expect("stop reports it stopped it");
    assert_eq!(stopped.pid, Some(4711));
    assert_eq!(stopped.spec.args.len(), 2);
    assert!(supervisor.process(name).is_none(), "it is dropped from the registry");
}

#[test]
fn a_process_number_of_nought_is_none() {
    let mut supervisor = Supervisor::new();
    let spec = Spec { application: "a".to_string(), args: vec![], env: vec![], cwd: None };
    supervisor.started("p", spec, 0, "t".to_string());
    assert_eq!(supervisor.process("p").expect("p").pid, None);
    assert_eq!(supervisor.names(), vec!["p".to_string()]);
}

#[test]
fn old_lines_fall_off_the_front() {
    let mut logs = LogBuffer::new();
    for n in 0..MAX_LOG_LINES + 3 {
        logs.push(n.to_string());
    }
    let kept = logs.snapshot();
    assert_eq!(kept.len(), MAX_LOG_LINES);
    assert_eq!(kept[0], "3");
}

#[test]
fn an_op_is_known_or_named() {
    assert_eq!(read_op("restart").expect("an op"), HubOp::Restart);
    let refused = read_op("fly").expect_err("no op");
    assert_eq!(
        refused.content,
        "unknown op \"fly\"; use start, ps, logs, stop, restart or send"
    );
    assert_eq!(HubTool.name(), "hub");
}

#[test]
fn starting_needs_a_free_name_and_something_to_run() {
    let no_name = plan_start(&hub_input("start", None), false).expect_err("no name");
    assert_eq!(no_name.content, "start needs a name");
    let taken = plan_start(&hub_input("start", Some("web")), true).expect_err("taken");
    assert_eq!(taken.content, "a process named \"web\" is already running");
    let nothing = plan_start(&hub_input("start", Some("web")), false).expect_err("nothing");
    assert_eq!(nothing.content, "start needs an application to run");
    assert_eq!(unstarted("sh", "gone"), "failed to start \"sh\": gone");
}

#[test]
fn answers_name_the_process() {
    assert_eq!(started("web", 7, &None, false).content, "Started \"web\" (pid 7).");
    let late = started("web", 7, &Some("READY".to_string()), false);
    assert_eq!(
        late.content,
        "process \"web\" (pid 7) did not print \"READY\" within the timeout"
    );
    assert!(late.is_error);
    assert_eq!(stopped("web", true).content, "Stopped \"web\".");
    assert_eq!(stopped("web", false).content, "no process named \"web\"");
    assert_eq!(restarted("web", &Some(Ok(8))).content, "Restarted \"web\" (pid 8).");
    assert!(restarted("web", &None).is_error);
    assert!(restarted("web", &Some(Err("x".to_string()))).is_error);
    assert_eq!(hub_task_name("web"), "hub:web");
    assert_eq!(
        required_name(&hub_input("stop", None), "stop").expect_err("no name").content,
        "stop needs a name"
    );
}

#[test]
fn processes_are_listed_with_their_state() {
    assert_eq!(ps_report(&vec![]).content, "No supervised processes.");
    let listed = ps_report(&vec![
        Listed { name: "a".to_string(), running: true, pid: Some(1) },
        Listed { name: "b".to_string(), running: false, pid: None },
    ]);
    assert_eq!(listed.content, "a\trunning\tpid 1\nb\texited\tpid ?");
}

#[test]
fn logs_say_when_nothing_matches() {
    let input = hub_input("logs", Some("web"));
    assert_eq!(logs_report(&input, &None).content, "no process named \"web\"");
    assert_eq!(logs_report(&input, &Some(vec![])).content, "(no matching output)");
    assert_eq!(logs_report(&input, &Some(vec!["x".to_string()])).content, "x");
    assert!(logs_report(&hub_input("logs", None), &None).is_error);
}

#[test]
fn a_signal_goes_before_a_line() {
    let mut input = hub_input("send", Some("web"));
    assert!(matches!(plan_send(&input), SendPlan::Fail(_)));
    input.input = Some("help".to_string());
    match plan_send(&input) {
        SendPlan::Write { name, payload } => {
            assert_eq!(name, "web");
            assert_eq!(payload, "help\n");
        }
        other => panic!("expected a write, got {other:?}"),
    }
    input.signal = Some("TERM".to_string());
    assert!(matches!(plan_send(&input), SendPlan::Signal { .. }));
    assert!(matches!(plan_send(&hub_input("send", None)), SendPlan::Fail(_)));
    assert!(written("web", &Written::NoStdin).is_error);
    assert!(written("web", &Written::NoProcess).is_error);
    assert_eq!(written("web", &Written::Done).content, "Wrote to \"web\".");
    assert_eq!(
        written("web", &Written::Failed("pipe".to_string())).content,
        "write to \"web\" failed: pipe"
    );
}

#[test]
fn a_signal_is_known_with_and_without_its_prefix() {
    assert_eq!(signal_from_name("TERM"), Some(Signal::Term));
    assert_eq!(signal_from_name("SIGHUP"), Some(Signal::Hup));
    assert_eq!(signal_from_name("usr1"), Some(Signal::Usr1));
    assert_eq!(signal_from_name("WINCH"), None);
    assert_eq!(plan_signal("web", "KILL", Some(7), true).expect("sent"), (7, Signal::Kill));
    assert!(plan_signal("web", "KILL", None, true).is_err());
    assert!(plan_signal("web", "WINCH", Some(7), true).is_err());
    assert!(plan_signal("web", "KILL", Some(7), false).is_err());
    assert_eq!(signalled("web", "TERM", true).content, "Sent SIGTERM to \"web\".");
    assert!(signalled("web", "TERM", false).is_error);
    assert_eq!(wait_for_marker(true, true, false), MarkerWait::Found);
    assert_eq!(wait_for_marker(false, false, true), MarkerWait::Again);
    assert_eq!(wait_for_marker(false, false, false), MarkerWait::LastLook);
}

// ---------------------------------------------------------------------------
// Images
// ---------------------------------------------------------------------------

#[test]
fn only_the_given_fields_appear_in_the_prompt() {
    let input = GenerateInput {
        subject: Some("a red fox".to_string()),
        style: Some("watercolour".to_string()),
        scene: Some("  ".to_string()),
        ..Default::default()
    };
    let prompt = compose_prompt(&input);
    assert_eq!(prompt, "Subject: a red fox\nStyle: watercolour");
}

#[test]
fn an_empty_input_composes_an_empty_prompt() {
    assert!(compose_prompt(&GenerateInput::default()).is_empty());
    assert!(empty_prompt().is_error);
    assert!(build_request(&GenerateInput::default(), &None).is_err());
}

#[test]
fn an_explicit_size_wins_over_the_aspect_ratio() {
    assert_eq!(
        resolve_size(&Some("16:9".to_string()), &Some("512x512".to_string())),
        "512x512"
    );
}

#[test]
fn an_aspect_ratio_maps_to_a_size_when_no_size_is_given() {
    assert_eq!(resolve_size(&Some("16:9".to_string()), &None), "1792x1024");
    assert_eq!(resolve_size(&None, &None), DEFAULT_SIZE);
}

#[test]
fn the_generation_body_carries_prompt_size_and_model() {
    let body = generations_body("gpt-image-1", "a fox", "1024x1024");
    assert_eq!(body.text_of("model").as_deref(), Some("gpt-image-1"));
    assert_eq!(body.text_of("prompt").as_deref(), Some("a fox"));
    assert_eq!(body.text_of("size").as_deref(), Some("1024x1024"));
    assert_eq!(body.unsigned_of("n"), Some(1));
}

#[test]
fn a_base64_image_is_read_from_the_response() {
    let response = json(r#"{ "data": [ { "b64_json": "aGk=" } ] }"#);
    match image_from_response(&response, "") {
        Ok(ImagePayload::Base64(data)) => assert_eq!(data, "aGk="),
        _ => panic!("expected a base64 image"),
    }
}

#[test]
fn a_url_image_is_read_from_the_response() {
    let response = json(r#"{ "data": [ { "url": "https://example.com/i.png" } ] }"#);
    match image_from_response(&response, "") {
        Ok(ImagePayload::Url(url)) => assert_eq!(url, "https://example.com/i.png"),
        _ => panic!("expected a url image"),
    }
}

#[test]
fn a_response_with_no_image_is_an_error_not_an_empty_success() {
    let response = json(r#"{ "data": [] }"#);
    assert!(image_from_response(&response, "{}").is_err());
}

#[test]
fn an_inline_image_is_decoded() {
    assert_eq!(inline_image("aGk=").expect("bytes"), b"hi".to_vec());
    assert!(inline_image("not base64!").is_err());
    assert_eq!(
        input_image("/a.png", InputSource::File(Ok(vec![1, 2]))).expect("bytes"),
        vec![1, 2]
    );
    assert!(input_image("/a.png", InputSource::File(Err("gone".to_string()))).is_err());
}

#[test]
fn an_image_is_read_out_of_the_body_of_a_reply() {
    match image_from_body(r#"{"data":[{"b64_json":"aGk="}]}"#) {
        Ok(ImagePayload::Base64(data)) => assert_eq!(data, "aGk="),
        other => panic!("expected an image, got {other:?}"),
    }
    let none = image_from_body(r#"{ "data" : [] }"#).expect_err("no image");
    assert_eq!(none, r#"the provider returned no image: {"data":[]}"#);
    let bad = image_from_body("<html>").expect_err("no JSON");
    assert!(bad.starts_with("the provider's reply was not JSON: "), "{bad}");
}

#[test]
fn image_files_have_their_own_names() {
    assert_eq!(image_file_name("abc"), "mikmik-image-abc.png");
    let a = fresh_file_name().expect("a name");
    assert!(a.starts_with("mikmik-image-") && a.ends_with(".png"), "{a}");
    assert_ne!(a, fresh_file_name().expect("a name"));
    let bytes: Vec<u8> = vec![
        0x46, 0xeb, 0xd0, 0xee, 0x0e, 0x6d, 0xf3, 0xc9, 0x39, 0x0d, 0xcc, 0xc3, 0x5a, 0x91, 0x3f,
        0x3e,
    ];
    assert_eq!(
        file_name_from(Ok(bytes)),
        Ok("mikmik-image-46ebd0ee-0e6d-43c9-b90d-ccc35a913f3e.png".to_string())
    );
    assert_eq!(file_name_from(Err("none".to_string())), Err("no random source: none".to_string()));
    assert!(no_key("openai").is_error);
    assert!(accept_reply(false, "500", "oops").is_err());
    assert_eq!(accept_reply(true, "200", "{}").expect("a body"), "{}");
}

#[test]
fn an_unsupported_image_type_is_refused_before_any_model_call() {
    let error = build_image_message("/t/x.txt", &Ok(b"not an image".to_vec()), "what is this?")
        .expect_err("a .txt is not an image");
    assert!(error.contains("unsupported image type"), "{error}");
    assert!(check_type("/t/x.txt").is_err());
}

#[test]
fn a_supported_image_becomes_an_image_then_text_message() {
    let blocks = build_image_message("/t/x.png", &Ok(b"\x89PNG\r\n".to_vec()), "describe it")
        .expect("a message");
    assert_eq!(blocks.len(), 2);
    match &blocks[0] {
        ContentBlock::Image { media_type, data } => {
            assert_eq!(media_type, "image/png");
            assert_eq!(data, "iVBORw0K");
        }
        other => panic!("expected the image, got {other:?}"),
    }
    match &blocks[1] {
        ContentBlock::Text { text } => assert_eq!(text, "describe it"),
        other => panic!("expected the question as text, got {other:?}"),
    }
    assert!(build_image_message("/t/x.png", &Err("gone".to_string()), "q").is_err());
}

#[test]
fn the_model_falls_back_from_explicit_to_advisor_to_session() {
    let advisor = Some("advisor-vision".to_string());
    assert_eq!(resolve_model(&Some("explicit".to_string()), &advisor, "session"), "explicit");
    assert_eq!(resolve_model(&None, &advisor, "session"), "advisor-vision");
    assert_eq!(resolve_model(&None, &None, "session"), "session");
}

#[test]
fn only_the_text_of_a_reply_is_shown() {
    let reply = vec![
        ContentBlock::Text { text: "a fox".to_string() },
        ContentBlock::Other,
        ContentBlock::Text { text: "in snow".to_string() },
    ];
    let shown = text_of(&reply);
    assert!(shown.contains("a fox") && shown.contains("in snow"), "{shown}");
    assert!(!inspected(&Ok(reply)).is_error);
    assert!(inspected(&Err("down".to_string())).is_error);
}

#[test]
fn a_known_extension_maps_to_its_media_type() {
    assert_eq!(media_type_for("shot.PNG"), Some("image/png"));
    assert_eq!(media_type_for("a/b/photo.jpeg"), Some("image/jpeg"));
}

#[test]
fn an_unknown_extension_is_refused_not_guessed() {
    assert!(media_type_for("notes.txt").is_none());
    assert!(media_type_for("noextension").is_none());
}

// ---------------------------------------------------------------------------
// Language servers
// ---------------------------------------------------------------------------

fn lsp_input(action: &str) -> LspInput {
    LspInput {
        action: action.to_string(),
        file: "a.rs".to_string(),
        line: 1,
        column: None,
        symbol: None,
        query: String::new(),
        new_name: String::new(),
        apply: None,
        payload: None,
    }
}

#[test]
fn a_read_only_action_is_not_treated_as_a_write() {
    assert!(reads_only("hover"));
    assert!(reads_only("diagnostics"));
    assert!(!reads_only("rename"));
    assert!(!reads_only("rename_file"));
    assert!(!reads_only("code_actions"));
    assert!(!reads_only("request"));
}

#[test]
fn every_action_in_the_schema_is_handled() {
    let listed = LspTool.actions();
    assert_eq!(listed.len(), 14, "listed = {listed:?}");
    for action in &listed {
        assert!(
            reads_only(action)
                || ["rename", "rename_file", "code_actions", "reload", "request"]
                    .contains(&action.as_str()),
            "'{action}' is in the schema but is neither read-only nor a known write"
        );
    }
}

#[test]
fn an_empty_location_list_says_so() {
    assert_eq!(
        format_locations(&vec![], &vec![], "definition(s)"),
        "No definition(s) found"
    );
}

#[test]
fn a_location_is_shown_with_the_line_around_it() {
    let locations = vec!["/d/a.rs:2:1".to_string()];
    assert_eq!(context_places(&locations), vec![Some(("/d/a.rs".to_string(), 2))]);
    assert_eq!(place_of("nowhere"), None);
    let text = format_locations(
        &locations,
        &vec![vec!["one".to_string(), "two".to_string(), "three".to_string()]],
        "definition(s)",
    );
    assert!(text.contains("Found 1 definition(s)"), "{text}");
    assert!(text.contains("two"), "the context line is missing: {text}");
}

#[test]
fn a_named_symbol_beats_a_counted_column() {
    assert_eq!(resolve_column(Some(7), Ok(13)), Ok(7));
    assert_eq!(resolve_column(None, Ok(13)), Ok(13));
    // With neither, the lookup answers with the first column that is not blank.
    assert_eq!(resolve_column(None, Ok(1)), Ok(1));
    assert!(resolve_column(None, Err("missing".to_string())).is_err());
}

#[test]
fn a_raw_request_carries_its_payload() {
    let mut raw = lsp_input("request");
    raw.query = "workspace/executeCommand".to_string();
    raw.payload = Some(r#"{"command":"x","arguments":[1,-2,1.5,null,true]}"#.to_string());
    match raw_request_params(&raw, "file:///a.rs", 3) {
        Ok(Json::Object(members)) => {
            assert_eq!(members.len(), 2);
            let arguments = members.iter().find(|m| m.0 == "arguments").expect("arguments");
            match &arguments.1 {
                Json::Array(items) => {
                    assert_eq!(items.len(), 5);
                    assert!(matches!(items[0], Json::Number(JsonNumber::Positive(1))));
                    assert!(matches!(items[1], Json::Number(JsonNumber::Negative(-2))));
                    assert!(
                        matches!(&items[2], Json::Number(JsonNumber::Decimal(d)) if d == "1.5")
                    );
                    assert!(matches!(items[3], Json::Null));
                    assert!(matches!(items[4], Json::Bool(true)));
                }
                other => panic!("expected an array, got {other:?}"),
            }
        }
        other => panic!("expected an object, got {other:?}"),
    }
    raw.payload = Some("{".to_string());
    let answer = raw_request_params(&raw, "file:///a.rs", 3).expect_err("no JSON");
    assert!(answer.is_error);
    assert!(answer.content.starts_with("`payload` is not JSON: "), "{}", answer.content);
    raw.payload = None;
    match raw_request_params(&raw, "file:///a.rs", 3) {
        Ok(params) => assert!(params.get("position").is_some()),
        other => panic!("expected a place, got {other:?}"),
    }
    raw.file = "*".to_string();
    assert!(matches!(raw_request_params(&raw, "", 0), Ok(Json::Object(m)) if m.is_empty()));
    assert!(payload_params("[1]").is_ok());
    assert_eq!(
        payload_from(Err("why".to_string())).expect_err("no JSON").content,
        "`payload` is not JSON: why"
    );
}

#[test]
fn a_raw_reply_is_laid_out() {
    let value = serde_json::Value::Array(vec![serde_json::Value::from(1u64)]);
    let report = raw_request_report("rust", "m", Ok(value));
    assert_eq!(report.content, "rust answered m:\n[\n  1\n]");
    let failed = raw_request_report("rust", "m", Err("down".to_string()));
    assert!(failed.is_error && failed.content == "down");
}

#[test]
fn an_action_is_read_as_the_server_describes_it() {
    let described = parse_json(r#"{"title":"Fix","kind":"quickfix","edit":{}}"#).expect("JSON");
    let action = read_action(&described);
    assert_eq!(action.title.as_deref(), Some("Fix"));
    assert_eq!(action.kind.as_deref(), Some("quickfix"));
    assert!(read_action(&Json::Null).title.is_none());
}

#[test]
fn a_call_goes_to_the_servers_that_it_concerns() {
    assert_eq!(addressed(&lsp_input("hover")), Addressed::ForFile);
    assert_eq!(addressed(&lsp_input("reload")), Addressed::ForFile);
    let mut reload = lsp_input("reload");
    reload.file = "*".to_string();
    assert_eq!(addressed(&reload), Addressed::Enabled);
    let mut raw = lsp_input("request");
    raw.query = "textDocument/hover".to_string();
    assert_eq!(addressed(&raw), Addressed::PrimaryForFile);
    raw.file = String::new();
    assert_eq!(addressed(&raw), Addressed::WorkspaceServer);
}

#[test]
fn an_action_is_planned_by_what_it_needs() {
    assert!(matches!(plan(&lsp_input("status")), LspPlan::Status));
    assert!(matches!(plan(&lsp_input("hover")), LspPlan::OnFile));
    assert_eq!(plan_file(&lsp_input("hover")), FilePlan::Hover);
    assert_eq!(plan_file(&lsp_input("rename")), FilePlan::UnnamedRename);
    assert_eq!(plan_file(&lsp_input("nonsense")), FilePlan::Unknown);
    assert!(unknown_action(&lsp_input("nonsense")).content.contains("nonsense"));
    let mut missing = lsp_input("hover");
    missing.file = String::new();
    assert!(matches!(plan(&missing), LspPlan::Fail(_)));
}

#[test]
fn a_file_is_meant_from_the_working_directory() {
    let mut input = lsp_input("hover");
    assert_eq!(input.file_path("/w"), "/w/a.rs");
    input.file = "/d/b.rs".to_string();
    assert_eq!(input.file_path("/w"), "/d/b.rs");
    input.file = "*".to_string();
    assert!(input.is_workspace());
    assert_eq!(input.file_path("/w"), "/w");
    input.new_name = "c.rs".to_string();
    assert_eq!(input.destination("/w"), "/w/c.rs");
    assert_eq!(input.permission_text("/w"), "LSP hover /w");
}

#[test]
fn a_request_carries_what_it_needs() {
    let mut input = lsp_input("request");
    assert_eq!(request_params(&input), Params::Position);
    input.file = String::new();
    assert_eq!(request_params(&input), Params::Empty);
    input.payload = Some("{}".to_string());
    assert_eq!(request_params(&input), Params::Payload);
    assert_eq!(bad_payload("why").content, "`payload` is not JSON: why");
    assert_eq!(
        request_report("ra", "x/y", &Ok("{}".to_string())).content,
        "ra answered x/y:\n{}"
    );
    assert!(request_report("ra", "x/y", &Err("no".to_string())).is_error);
    assert_eq!(rename_file_report(&Ok(vec!["a".to_string(), "b".to_string()])).content, "a\nb");
    assert!(rename_file_report(&Err("no".to_string())).is_error);
    assert!(applies_rename(&input));
}

#[test]
fn plans_say_what_they_need_first() {
    assert!(needs_position(FilePlan::Hover));
    assert!(!needs_position(FilePlan::Symbols));
    assert!(needs_sync(&lsp_input("hover")));
    assert!(!needs_sync(&lsp_input("diagnostics")));
    assert!(unnamed_rename().is_error);
    assert_eq!(
        unsent(&lsp_input("hover"), "down").content,
        "could not send the file to the server: down"
    );
    let mut raw = lsp_input("request");
    raw.query = "textDocument/hover".to_string();
    assert_eq!(unsent(&raw, "down").content, "down");
    assert_eq!(listing_filter(&lsp_input("code_actions")).as_deref(), Some(""));
}

#[test]
fn disabled_servers_and_linters_are_passed_over() {
    let server = |name: &str, disabled: bool, is_linter: bool| ServerState {
        name: name.to_string(),
        command: name.to_string(),
        disabled,
        is_linter,
        installed: true,
    };
    let servers = vec![server("off", true, false), server("lint", false, true), server("ra", false, false)];
    assert_eq!(enabled_names(&servers), vec!["lint".to_string(), "ra".to_string()]);
    assert_eq!(workspace_server(&servers).as_deref(), Some("ra"));
    let answers = vec![Answer { name: "ra".to_string(), reply: Ok("{}".to_string()) }];
    assert_eq!(capabilities_report(&answers).content, "ra:\n{}");
}

#[test]
fn places_are_reported_under_their_label() {
    let input = lsp_input("references");
    let found = Ok(vec!["/d/a.rs:2:1".to_string()]);
    let report = lookup_report(&input, Lookup::References, &found, &vec![vec![]]);
    assert_eq!(report.content, "Found 1 reference(s):\n/d/a.rs:2:1");
    let failed = lookup_report(&input, Lookup::References, &Err("no".to_string()), &vec![]);
    assert_eq!(failed.content, "references failed: no");
    assert_eq!(
        applied_report("Import", &Ok(vec!["done".to_string()])).content,
        "Applied \"Import\":\ndone"
    );
    assert_eq!(
        applied_report("Import", &Ok(vec![])).content,
        "\"Import\" has no edit and no command to apply"
    );
}

#[test]
fn an_input_is_read_or_refused() {
    let input = read_input(&json(r#"{"action":"hover","file":"a.rs","line":3}"#)).expect("an input");
    assert_eq!(input.action, "hover");
    assert_eq!(input.line, 3);
    assert!(read_input(&json("{}")).is_err());
}

#[test]
fn a_position_counts_from_nought() {
    let params = position_params("file:///a.rs", 3, 5);
    let position = params.get("position").expect("a position");
    assert_eq!(position.unsigned_of("line"), Some(2));
    assert_eq!(position.unsigned_of("character"), Some(4));
}

#[test]
fn a_missing_server_says_what_is_missing() {
    let none = no_server_message("/d/a.xyz", &vec![]);
    assert!(none.contains("a.xyz"), "{none}");
    let unmarked = no_server_message(
        "/d/a.rs",
        &vec![Candidate {
            name: "rust-analyzer".to_string(),
            command: "rust-analyzer".to_string(),
            root_markers: vec!["Cargo.toml".to_string()],
            has_marker: false,
            has_binary: true,
        }],
    );
    assert!(unmarked.contains("Cargo.toml"), "{unmarked}");
}

#[test]
fn reports_say_what_servers_answered() {
    let servers = vec![ServerState {
        name: "ra".to_string(),
        command: "rust-analyzer".to_string(),
        disabled: false,
        is_linter: false,
        installed: true,
    }];
    assert!(status_report(&servers, &vec![]).content.contains("ra"));
    let answers = vec![
        Answer { name: "ra".to_string(), reply: Ok("done".to_string()) },
        Answer { name: "tsc".to_string(), reply: Err("died".to_string()) },
    ];
    let reload = reload_report(&answers);
    assert!(reload.content.contains("died"), "{}", reload.content);
    assert!(hover_report("a.rs", 1, 2, &Ok(None)).content.contains("a.rs"));
    assert!(hover_report("a.rs", 1, 2, &Err("x".to_string())).is_error);
    assert!(symbols_report("a.rs", &Ok(vec!["fn main".to_string()])).content.contains("fn main"));
    assert!(diagnostics_report("a.rs", 0, "").content.contains("a.rs"));
    assert!(workspace_symbols_report("q", &Ok(vec![])).content.contains('q'));
}

#[test]
fn a_rename_is_previewed_or_applied() {
    let mut input = lsp_input("rename");
    input.new_name = "fresh".to_string();
    let edit = Ok(vec![("/d/a.rs".to_string(), 2)]);
    input.apply = Some(false);
    match rename_step(&input, &edit) {
        RenameStep::Finish(result) => assert!(!result.is_error, "{}", result.content),
        other => panic!("expected a preview, got {other:?}"),
    }
    input.apply = Some(true);
    assert!(matches!(rename_step(&input, &edit), RenameStep::Apply));
    assert!(matches!(
        rename_step(&input, &Err("no".to_string())),
        RenameStep::Finish(result) if result.is_error
    ));
    let report = renamed_report("fresh", &Ok(vec!["/d/a.rs".to_string()]), &vec![]);
    assert!(report.content.contains("fresh"), "{}", report.content);
}

#[test]
fn a_code_action_is_listed_or_picked() {
    let found = Ok(vec![CodeAction { title: Some("Import".to_string()), kind: None }]);
    let mut input = lsp_input("code_actions");
    assert!(matches!(action_step(&input, "a.rs", 1, &found), ActionStep::Finish(_)));
    input.apply = Some(true);
    input.query = "Import".to_string();
    assert!(matches!(action_step(&input, "a.rs", 1, &found), ActionStep::Apply(0)));
}

#[test]
fn nothing_is_reported_when_both_switches_are_off() {
    assert!(!wants_report(false, false, 1));
    assert!(wants_report(true, false, 1));
    assert!(report_after_batch(&BatchOutcome {
        formatting: None,
        late: (0, String::new()),
        fresh: (0, String::new()),
        diagnose: false,
    })
    .is_none());
}

#[test]
fn an_empty_batch_reports_nothing() {
    assert!(!wants_report(true, true, 0));
}

#[test]
fn a_file_no_server_handles_is_skipped() {
    assert!(served(&vec!["notes.unknown-extension".to_string()], &vec![false]).is_empty());
    assert_eq!(
        served(&vec!["a".to_string(), "b".to_string()], &vec![false, true]),
        vec!["b".to_string()]
    );
}

#[test]
fn a_batch_reports_formatting_and_problems() {
    assert_eq!(
        formatting(&vec![Ok(true)]).as_deref(),
        Some("Formatted by the language server.")
    );
    assert_eq!(
        formatting(&vec![Ok(true), Ok(true), Err("x".to_string())]).as_deref(),
        Some("Formatted 2 file(s) by the language server.")
    );
    assert_eq!(formatting(&vec![Ok(false)]), None);
    let block = format_problems(Heading::New, 12, "shown");
    assert_eq!(
        block,
        "The language server reports 12 new problem(s):\nshown\n... and 2 more"
    );
    assert_eq!(
        diagnostics_of(&vec!["a".to_string(), "b".to_string(), "a".to_string()], "a"),
        vec![0, 2]
    );
}

#[test]
fn files_written_earlier_are_remembered_once() {
    let mut log = WriteLog::new();
    log.record("a");
    log.record("b");
    log.record("a");
    assert_eq!(log.earlier(&vec!["b".to_string()]), vec!["a".to_string()]);
}

// ---------------------------------------------------------------------------
// Background tasks
// ---------------------------------------------------------------------------

fn task(id: &str, status: TaskStatus) -> Task {
    Task {
        id: id.to_string(),
        name: "bg: x".to_string(),
        status,
        status_text: "running".to_string(),
        output: vec!["line".to_string()],
        pid: Some(7),
    }
}

#[test]
fn monitor_tool_name() {
    assert_eq!(MonitorTool.name(), "monitor");
}

#[test]
fn monitor_list_empty() {
    let result = respond(MonitorAction::List, &None, &vec![]).result;
    assert!(!result.is_error, "{}", result.content);
}

#[test]
fn monitor_status_missing_task_id() {
    let result = respond(MonitorAction::Status, &None, &vec![]).result;
    assert!(result.is_error);
    assert!(result.content.contains("task_id required"));
}

#[test]
fn monitor_output_unknown_task() {
    let id = Some("nonexistent-uuid-1234".to_string());
    let result = respond(MonitorAction::Output, &id, &vec![]).result;
    assert!(result.is_error);
    assert!(result.content.contains("not found"));
}

#[test]
fn monitor_cancel_unknown_task() {
    let id = Some("nonexistent-uuid-5678".to_string());
    let result = respond(MonitorAction::Cancel, &id, &vec![]).result;
    assert!(result.is_error);
    assert!(result.content.contains("not found"));
}

#[test]
fn only_a_running_task_is_stopped() {
    let id = Some("t1".to_string());
    let running = respond(MonitorAction::Cancel, &id, &vec![task("t1", TaskStatus::Running)]);
    assert_eq!(running.stop, Some(("t1".to_string(), Some(7))));
    let done = respond(MonitorAction::Cancel, &id, &vec![task("t1", TaskStatus::Completed)]);
    assert_eq!(done.stop, None);
    assert_eq!(MonitorAction::parse(&Some("cancel".to_string())), Some(MonitorAction::Cancel));
    assert_eq!(MonitorAction::parse(&Some("fly".to_string())), None);
}

#[test]
fn a_failing_background_command_says_what_it_answered() {
    let outcome = Ok(RunOutcome { exit_code: 3, timed_out: false });
    match report_background(false, &outcome, 10_000) {
        Some(TaskStatus::Failed(why)) => assert_eq!(why, "exit code 3"),
        other => panic!("expected a failure, got {other:?}"),
    }
    assert!(matches!(
        report_background(false, &Ok(RunOutcome { exit_code: 0, timed_out: false }), 1),
        Some(TaskStatus::Completed)
    ));
    assert!(matches!(
        report_background(false, &Err("no shell".to_string()), 1),
        Some(TaskStatus::Failed(why)) if why == "no shell"
    ));
}

#[test]
fn a_background_command_that_runs_too_long_is_reported_as_such() {
    let outcome = Ok(RunOutcome { exit_code: 130, timed_out: true });
    match report_background(false, &outcome, 300) {
        Some(TaskStatus::Failed(why)) => assert_eq!(why, "timed out after 300ms"),
        other => panic!("expected a failure, got {other:?}"),
    }
    assert!(report_background(true, &outcome, 300).is_none());
}

#[test]
fn a_task_is_named_by_what_its_command_begins_with() {
    assert_eq!(background_name("ls"), "bg: ls");
    let long = "x".repeat(100);
    assert!(can_name(&long));
    assert_eq!(background_name(&long), format!("bg: {}", "x".repeat(60)));
    assert!(!can_name(&format!("{}é", "x".repeat(59))));
    assert_eq!(output_line("text\r\n"), "text");
    assert_eq!(output_line("a\rb"), "a\rb");
}

#[test]
fn what_a_shell_wrote_is_read_back_as_text() {
    let mut capture = Capture::open();
    assert!(capture.take(b"caf"));
    assert!(capture.take(&[0xe9, b'\n']));
    assert!(!capture.take(b""));
    let ran = capture.finish(1, false);
    assert_eq!(ran.output, "caf\u{fffd}\n");
    assert_eq!(ran.exit_code, 1);
    assert_eq!(drain_step(0, false), DrainStep::Poll);
    assert_eq!(drain_step(0, true), DrainStep::Stop);
    assert_eq!(drain_step(1, true), DrainStep::Read);
    assert_eq!(drain_step(-1, false), DrainStep::Read);
}

#[test]
fn a_formatter_is_found_by_extension() {
    let formatters = vec![
        FormatterConfig {
            command: vec!["off".to_string()],
            extensions: vec![".rs".to_string()],
            disabled: true,
        },
        FormatterConfig {
            command: vec!["rustfmt".to_string(), "$FILE".to_string()],
            extensions: vec![".rs".to_string()],
            disabled: false,
        },
    ];
    assert_eq!(
        command_line(&formatters, "/d/a.rs"),
        Some(vec!["rustfmt".to_string(), "/d/a.rs".to_string()])
    );
    assert_eq!(command_line(&formatters, "/d/a.py"), None);
}

// ---------------------------------------------------------------------------
// PowerShell
// ---------------------------------------------------------------------------

#[test]
fn a_critical_command_is_never_run() {
    match gate(PsRiskLevel::Critical, "format c:", &None, false, false) {
        PsGate::Blocked(result) => {
            assert!(result.is_error);
            assert!(result.content.contains("format c:"), "{}", result.content);
        }
        other => panic!("expected a block, got {other:?}"),
    }
    match gate(PsRiskLevel::High, "cmd", &Some("why".to_string()), false, false) {
        PsGate::Ask { description, details } => {
            assert_eq!(description, "[High risk] why");
            assert_eq!(details, risk_explanation(PsRiskLevel::High, "cmd"));
        }
        other => panic!("expected a question, got {other:?}"),
    }
    assert!(matches!(gate(PsRiskLevel::Medium, "c", &None, false, false), PsGate::Open));
    assert!(matches!(gate(PsRiskLevel::Medium, "c", &None, true, false), PsGate::Ask { .. }));
    match gate(PsRiskLevel::Low, "c", &Some("  ".to_string()), false, true) {
        PsGate::Check { reason } => assert_eq!(reason, "This will execute a PowerShell command."),
        other => panic!("expected a check, got {other:?}"),
    }
    assert_eq!(risk_label(PsRiskLevel::Medium), "Medium");
}

#[test]
fn output_and_errors_are_joined() {
    assert_eq!(combine(&vec![], &vec![]), "(no output)");
    assert_eq!(combine(&vec!["a".to_string()], &vec!["e".to_string()]), "a\nSTDERR:\ne");
    assert_eq!(combine(&vec![], &vec!["e".to_string()]), "STDERR:\ne");
    assert_eq!(finished(0, "fine").content, "fine");
    let failed = finished(-1, "bad");
    assert!(failed.is_error);
    assert_eq!(failed.content, "PowerShell exited with code -1\nbad");
}

#[test]
fn long_output_loses_its_middle() {
    let long = format!("{}{}", "a".repeat(MAX_OUTPUT_LEN), "b".repeat(10));
    assert!(can_shorten(&long));
    let short = shorten(&long);
    assert!(short.contains("... (10 characters truncated) ..."), "no marker");
    assert!(short.ends_with(&"b".repeat(10)));
    let odd = format!("{}é{}", "a".repeat(MAX_OUTPUT_LEN / 2 - 1), "b".repeat(MAX_OUTPUT_LEN));
    assert!(!can_shorten(&odd));
    assert_eq!(shorten("short"), "short");
}

#[test]
fn a_command_has_a_limit() {
    assert_eq!(default_timeout(), 120_000);
    assert_eq!(timeout_ms(5), 5);
    assert_eq!(timeout_ms(u64::MAX), 600_000);
    assert_eq!(timed_out(1500).content, "PowerShell command timed out after 1500ms");
    assert!(ps_unstarted("gone").content.contains("gone"));
    let (exe, args) = invocation(false, "ls");
    assert_eq!(exe, "pwsh");
    assert_eq!(args, vec!["-NoProfile", "-NonInteractive", "-Command", "ls"]);
    assert_eq!(invocation(true, "ls").0, "powershell");
}

fn phases(input: &LspInput, went: &[Went]) -> Vec<Phase> {
    let mut phase = Phase::Permission;
    let mut all = vec![phase];
    for w in went {
        phase = next_phase(input, phase, *w);
        all.push(phase);
    }
    all
}

#[test]
fn a_hover_is_permitted_synced_placed_and_asked() {
    let all = phases(&lsp_input("hover"), &[Went::Well; 6]);
    assert_eq!(
        all,
        vec![
            Phase::Permission,
            Phase::Settings,
            Phase::Servers,
            Phase::Sync,
            Phase::Column,
            Phase::Query,
            Phase::Over,
        ]
    );
}

#[test]
fn a_refused_call_does_nothing() {
    for action in LspTool.actions() {
        let all = phases(&lsp_input(&action), &[Went::Wrong, Went::Well, Went::Open]);
        assert_eq!(all, vec![Phase::Permission, Phase::Over, Phase::Over, Phase::Over]);
    }
}

#[test]
fn diagnostics_send_the_file_themselves() {
    let all = phases(&lsp_input("diagnostics"), &[Went::Well; 4]);
    assert_eq!(
        all,
        vec![Phase::Permission, Phase::Settings, Phase::Servers, Phase::Query, Phase::Over]
    );
}

#[test]
fn no_server_is_explained() {
    let all = phases(
        &lsp_input("definition"),
        &[Went::Well, Went::Well, Went::Wrong, Went::Well],
    );
    assert_eq!(all[3..], [Phase::Explain, Phase::Over]);
}

#[test]
fn a_rename_is_applied_and_a_hover_is_not() {
    let mut rename = lsp_input("rename");
    rename.new_name = "fresh".to_string();
    assert_eq!(next_phase(&rename, Phase::Query, Went::Open), Phase::Apply);
    assert_eq!(next_phase(&rename, Phase::Query, Went::Well), Phase::Over);
    assert_eq!(next_phase(&lsp_input("hover"), Phase::Query, Went::Open), Phase::Over);
    assert_eq!(next_phase(&rename, Phase::Apply, Went::Well), Phase::Over);
    // Without a name there is nothing to ask, but the file has been sent.
    assert_eq!(next_phase(&lsp_input("rename"), Phase::Sync, Went::Well), Phase::Over);
}

#[test]
fn a_move_asks_for_its_destination() {
    let mut moved = lsp_input("rename_file");
    moved.new_name = "elsewhere.rs".to_string();
    let all = phases(&moved, &[Went::Well; 4]);
    assert_eq!(
        all,
        vec![Phase::Permission, Phase::Settings, Phase::Destination, Phase::Query, Phase::Over]
    );
}

#[test]
fn a_raw_request_finds_its_place_before_the_file_is_sent() {
    let mut request = lsp_input("request");
    request.query = "textDocument/foldingRange".to_string();
    let all = phases(&request, &[Went::Well; 5]);
    assert_eq!(all[2..6], [Phase::Servers, Phase::Column, Phase::Sync, Phase::Query]);
    request.payload = Some("{}".to_string());
    let all = phases(&request, &[Went::Well; 5]);
    assert_eq!(all[2..6], [Phase::Servers, Phase::Payload, Phase::Sync, Phase::Query]);
    request.file = "*".to_string();
    let all = phases(&request, &[Went::Well; 4]);
    assert_eq!(all[2..], [Phase::Servers, Phase::Payload, Phase::Query]);
}
