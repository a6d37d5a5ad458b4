use mikmik_tools::computer_script::ax::handles::HandleStore;
use mikmik_tools::computer_script::ax::linux::LinuxBackend;
use mikmik_tools::computer_script::ax::macos::{
    capped_depth, first_present, translate_status, K_AX_ERROR_API_DISABLED, K_AX_ERROR_NO_VALUE,
    K_AX_ERROR_SUCCESS, MAX_DEPTH,
};
use mikmik_tools::computer_script::ax::windows::{read_attribute, Property};
use mikmik_tools::computer_script::ax::{
    find_answer, find_in, ops, owns, query_from, request as ax_request, writing_ops, AxError,
    AxRequest, Bounds, Node, Query,
};
use mikmik_tools::computer_script::host_ops::{
    clipboard_reader, clipboard_writer, cursor_answer, next_step, no_display, number, request,
    screenshot_answer, settle, steps_of, string, writes, Button, DesktopOp, Platform, Step,
};
use mikmik_tools::computer_script::protocol::{FromRunner, ToRunner};
use mikmik_tools::computer_script::{
    accept_runner, answer, connect_token, gate, limit_secs, permission_text, react, report,
    strip_base64, token_from, CallIds, CallOutcome, Carried, ComputerScriptTool, Event, Gate,
    Reaction, DEFAULT_TIMEOUT_SECS, MAX_TIMEOUT_SECS,
};
use mikmik_tools::json::{Json, JsonNumber};
use mikmik_tools::parsing::parse_json;

fn to_value(json: &Json) -> serde_json::Value {
    match json {
        Json::Null => serde_json::Value::Null,
        Json::Bool(b) => serde_json::Value::Bool(*b),
        Json::Number(JsonNumber::Positive(u)) => serde_json::Value::from(*u),
        Json::Number(JsonNumber::Negative(i)) => serde_json::Value::from(*i),
        Json::Number(JsonNumber::Decimal(d)) => {
            serde_json::from_str::<serde_json::Value>(d).expect("a number")
        }
        Json::Text(s) => serde_json::Value::String(s.clone()),
        Json::Array(items) => serde_json::Value::Array(items.iter().map(to_value).collect()),
        Json::Object(members) => serde_json::Value::Object(
            members.iter().map(|(k, v)| (k.clone(), to_value(v))).collect(),
        ),
    }
}

fn json(text: &str) -> Json {
    parse_json(text).expect("valid JSON")
}

fn encoded(json: &Json) -> String {
    to_value(json).to_string()
}

fn node(role: &str, title: &str) -> Node {
    Node {
        handle: format!("h-{title}"),
        role: role.to_string(),
        title: title.to_string(),
        value: String::new(),
        bounds: None,
        children: Vec::new(),
    }
}

fn tree() -> Node {
    Node {
        children: vec![node("AXButton", "Save"), node("AXTextField", "Name")],
        ..node("AXWindow", "Editor")
    }
}

#[test]
fn a_held_element_comes_back_under_its_handle() {
    let mut store: HandleStore<u32> = HandleStore::new();

    let handle = store.hold(42);
    let read = store.with(&handle, |value| *value);

    assert_eq!(read, Ok(42));
}

#[test]
fn an_unknown_handle_is_refused_rather_than_answered() {
    let store: HandleStore<u32> = HandleStore::new();

    let read = store.with("ax-999", |value| *value);

    assert_eq!(read, Err(AxError::UnknownHandle("ax-999".to_string())));
}

#[test]
fn two_elements_never_share_a_handle() {
    let mut store: HandleStore<u32> = HandleStore::new();

    let first = store.hold(1);
    let second = store.hold(2);

    assert_ne!(first, second);
    assert_eq!(store.with(&first, |value| *value), Ok(1));
    assert_eq!(store.with(&second, |value| *value), Ok(2));
}

#[test]
fn clearing_the_store_drops_every_handle() {
    let mut store: HandleStore<u32> = HandleStore::new();
    let handle = store.hold(7);

    store.clear();

    assert!(store.with(&handle, |value| *value).is_err());
}

#[test]
fn a_disabled_api_reads_as_a_permission_error() {
    let error = translate_status(K_AX_ERROR_API_DISABLED).expect_err("disabled is an error");

    assert!(matches!(error, AxError::PermissionDenied(_)), "{}", error.text());
}

#[test]
fn a_missing_value_is_not_an_error_at_the_attribute_layer() {
    assert_eq!(translate_status(K_AX_ERROR_SUCCESS), Ok(()));
    assert_eq!(K_AX_ERROR_NO_VALUE, -25212);
}

#[test]
fn an_unnamed_status_fails_with_its_number() {
    match translate_status(-7) {
        Err(AxError::Failed(why)) => assert!(why.contains("-7"), "{why}"),
        other => panic!("expected a failure, got {other:?}"),
    }
}

#[test]
fn a_query_with_no_field_matches_every_node() {
    let found = find_in(&tree(), &Query::default());

    assert_eq!(found.len(), 3);
}

#[test]
fn a_role_narrows_the_search_to_that_role() {
    let query = Query {
        role: Some("AXButton".to_string()),
        ..Default::default()
    };

    let found = find_in(&tree(), &query);

    assert_eq!(found.len(), 1);
    assert_eq!(found[0].title, "Save");
}

#[test]
fn a_title_matches_without_its_exact_case_or_length() {
    let query = Query {
        title: Some("sav".to_string()),
        ..Default::default()
    };

    let found = find_in(&tree(), &query);

    assert_eq!(found.len(), 1);
    assert_eq!(found[0].title, "Save");
}

#[test]
fn the_limit_caps_what_comes_back() {
    let query = Query {
        limit: 2,
        ..Default::default()
    };

    assert_eq!(find_in(&tree(), &query).len(), 2);
}

#[test]
fn a_refused_permission_does_not_read_as_an_empty_desktop() {
    let denied = AxError::PermissionDenied("Accessibility".to_string());

    assert!(denied.text().contains("not permitted"), "{}", denied.text());
    assert_ne!(denied, AxError::Failed("Accessibility".to_string()));
}

#[test]
fn a_node_reports_its_bounds_only_when_the_platform_gave_some() {
    let without = node("AXButton", "Save").to_json();
    let with = Node {
        bounds: Some(Bounds {
            x: JsonNumber::Decimal("1.0".to_string()),
            y: JsonNumber::Decimal("2.0".to_string()),
            width: JsonNumber::Decimal("3.0".to_string()),
            height: JsonNumber::Decimal("4.0".to_string()),
        }),
        ..node("AXButton", "Save")
    }
    .to_json();

    assert!(without.get("bounds").is_none());
    assert_eq!(to_value(&with)["bounds"]["width"], 3.0);
}

#[test]
fn every_writing_op_is_one_of_the_ops() {
    let all = ops();
    for op in writing_ops() {
        assert!(all.contains(&op), "{op}");
    }
    assert!(owns("ax_set"));
    assert!(!owns("click"));
}

#[test]
fn every_op_that_moves_the_machine_is_named_as_writing() {
    for op in ["move", "click", "type", "key", "scroll", "clipboard_write"] {
        assert!(writes(op), "{op}");
    }
}

#[test]
fn a_reading_op_is_not_named_as_writing() {
    for op in [
        "screenshot",
        "displays",
        "windows",
        "cursor",
        "clipboard_read",
    ] {
        assert!(!writes(op), "{op}");
    }
}

#[test]
fn a_missing_argument_names_itself() {
    let error = number(&json("{}"), "x").expect_err("x is required");

    assert!(error.contains('x'), "{error}");
    let error = string(&json("{}"), "text").expect_err("text is required");
    assert!(error.contains("text"), "{error}");
}

#[test]
fn the_description_promises_exactly_what_the_runner_defines() {
    let description = ComputerScriptTool.description();
    for name in [
        "screenshot",
        "displays",
        "windows",
        "cursor",
        "move",
        "click",
        "doubleClick",
        "drag",
        "type",
        "key",
        "scroll",
        "clipboard",
        "wait",
    ] {
        assert!(
            description.contains(&format!("{name}(")),
            "the description omits {name}()"
        );
    }
    assert!(
        description.contains("print("),
        "the description omits print()"
    );
    for name in ["focused", "tree", "find", "get", "set", "press"] {
        assert!(
            description.contains(&format!("ax.{name}(")),
            "the description omits ax.{name}()"
        );
    }
}

#[test]
fn a_screenshot_is_reported_without_its_payload() {
    let value = json(r#"{"width": 100, "base64": "AAAABBBB"}"#);

    let rendered = encoded(&strip_base64(&value));

    assert!(rendered.contains("8 base64 characters"), "{rendered}");
    assert!(!rendered.contains("AAAABBBB"), "{rendered}");
}

#[test]
fn a_failed_call_reports_what_it_printed_before_it_failed() {
    let result = report(
        &CallOutcome {
            ok: false,
            output: "halfway".to_string(),
            value: Json::Null,
            error: Some("boom".to_string()),
        },
        "",
    );

    assert!(result.is_error);
    assert!(result.content.contains("halfway"), "{}", result.content);
    assert!(result.content.contains("boom"), "{}", result.content);
}

#[test]
fn a_call_that_returns_nothing_still_says_so() {
    let result = report(
        &CallOutcome {
            ok: true,
            output: String::new(),
            value: Json::Null,
            error: None,
        },
        "",
    );

    assert!(!result.is_error);
    assert!(result.content.contains("no output"), "{}", result.content);
}

#[test]
fn an_op_that_outlives_the_call_names_itself_and_not_the_script() {
    match gate(1, "clipboard_read", false, true, 30) {
        Gate::Spent(error) => {
            assert!(error.contains("clipboard_read"), "{error}");
            assert!(!error.contains("the script"), "{error}");
        }
        other => panic!("a spent deadline ends the call, got {other:?}"),
    }
    let error = answer(1, "clipboard_read", 30, Carried::TimedOut)
        .expect_err("an op that outlives the call ends it");
    assert!(error.contains("clipboard_read"), "{error}");
    assert!(!error.contains("the script"), "{error}");
}

#[test]
fn read_only_refuses_a_writing_op_without_reaching_the_desktop() {
    match gate(7, "click", true, true, 30) {
        Gate::Refused(answer) => {
            let encoded = encoded(&answer.to_json());
            assert!(encoded.contains("read_only"), "{encoded}");
            assert!(encoded.contains("\"ok\":false"), "{encoded}");
        }
        other => panic!("a refusal is an answer, got {other:?}"),
    }
}

#[test]
fn read_only_refuses_a_writing_ax_op() {
    match gate(3, "ax_set", true, true, 30) {
        Gate::Refused(answer) => {
            let encoded = encoded(&answer.to_json());
            assert!(encoded.contains("read_only"), "{encoded}");
            assert!(encoded.contains("\"ok\":false"), "{encoded}");
        }
        other => panic!("a refusal is an answer, got {other:?}"),
    }
    assert!(matches!(gate(3, "ax_get", true, false, 30), Gate::Accessibility));
    assert!(matches!(gate(3, "cursor", true, false, 30), Gate::Desktop));
}

#[test]
fn an_unknown_ax_handle_fails_the_op_without_breaking_the_session() {
    let store: HandleStore<u32> = HandleStore::new();
    let handle = match ax_request("ax_get", &json(r#"{"handle": "ax-404", "attribute": "AXValue"}"#))
    {
        Ok(AxRequest::Get { handle, attribute }) => {
            assert_eq!(attribute, "AXValue");
            handle
        }
        other => panic!("expected a get, got {other:?}"),
    };
    let failed: AxError =
        LinuxBackend::on_handle::<u32, Json>(&store, &handle).expect_err("not held");
    assert_eq!(failed, store.with(&handle, |value| *value).expect_err("not held"));
    let answer = answer(9, "ax_get", 30, Carried::Failed(failed.text()))
        .expect("an unknown handle is a caught failure, not a broken session");
    let encoded = encoded(&answer.to_json());
    assert!(encoded.contains("ax-404"), "{encoded}");
    assert!(encoded.contains("\"ok\":false"), "{encoded}");
}

#[test]
fn a_held_handle_is_not_supported_on_linux() {
    let mut store: HandleStore<u32> = HandleStore::new();
    let handle = store.hold(1);
    let failed = LinuxBackend::on_handle::<u32, ()>(&store, &handle).expect_err("unsupported");
    assert!(matches!(failed, AxError::NotSupported(_)));
}

#[test]
fn a_line_of_the_bridge_holds_a_message_or_none() {
    match FromRunner::from_line(" {\"type\":\"hello\",\"token\":\"abc\"}\r\n") {
        Some(FromRunner::Hello { token }) => assert_eq!(token, "abc"),
        other => panic!("expected a hello, got {other:?}"),
    }
    assert!(FromRunner::from_line("node: warning").is_none());
    assert!(FromRunner::from_line("").is_none());
    assert!(FromRunner::from_line("[\"hello\",\"abc\"]").is_none());
    assert!(FromRunner::from_read(Err("odd".to_string())).is_none());
}

#[test]
fn the_token_is_long_and_different_every_time() {
    let first = connect_token().expect("a token");
    let second = connect_token().expect("a token");

    assert_eq!(first.len(), 64);
    assert_ne!(first, second);
}

#[test]
fn a_token_is_the_hexadecimal_of_its_bytes() {
    assert_eq!(token_from(Ok(vec![0, 15, 255])).expect("a token"), "000fff");
    let error = token_from(Err("no entropy".to_string())).expect_err("no token");
    assert!(error.contains("no entropy"), "{error}");
}

#[test]
fn a_host_call_decodes_with_its_arguments() {
    let line = r#"{"type":"host","id":3,"op":"click","args":{"x":10,"y":20}}"#;
    match FromRunner::from_json(&json(line)) {
        Some(FromRunner::Host { id, op, args }) => {
            assert_eq!(id, 3);
            assert_eq!(op, "click");
            assert_eq!(args.unsigned_of("x"), Some(10));
            assert_eq!(args.unsigned_of("y"), Some(20));
        }
        other => panic!("the line should decode: {other:?}"),
    }
}

#[test]
fn a_finished_call_carries_what_it_printed() {
    let line = r#"{"type":"done","id":1,"ok":true,"output":"hello","value":42}"#;
    match FromRunner::from_json(&json(line)) {
        Some(FromRunner::Done { ok, output, value, .. }) => {
            assert!(ok);
            assert_eq!(output, "hello");
            assert_eq!(value.as_u64(), Some(42));
        }
        other => panic!("expected a done, got {other:?}"),
    }
}

#[test]
fn a_line_that_is_no_message_does_not_decode() {
    assert!(FromRunner::from_json(&json(r#"{"type":"nonsense"}"#)).is_none());
    assert!(FromRunner::from_json(&json(r#"{"type":"host","op":"click"}"#)).is_none());
}

#[test]
fn a_refusal_names_its_reason() {
    let json = to_value(&ToRunner::failed(7, "read_only is set".to_string()).to_json());

    assert_eq!(json["type"], "host_result");
    assert_eq!(json["ok"], false);
    assert_eq!(json["error"], "read_only is set");
}

#[test]
fn a_run_message_names_the_read_only_flag_the_runner_reads() {
    let json = to_value(
        &ToRunner::Run {
            id: 1,
            code: "1".to_string(),
            read_only: true,
        }
        .to_json(),
    );

    assert_eq!(json["readOnly"], true);
}

#[test]
fn only_a_runner_with_the_token_is_accepted() {
    let hello = Some(FromRunner::Hello { token: "abc".to_string() });
    assert!(accept_runner(&hello, "abc").is_ok());
    assert!(accept_runner(&hello, "xyz").is_err());
    assert!(accept_runner(&None, "abc").is_err());
}

#[test]
fn a_stale_end_does_not_end_the_call() {
    let stale = FromRunner::Done {
        id: 1,
        ok: true,
        output: String::new(),
        value: Json::Null,
        error: None,
    };
    assert!(matches!(react(2, 30, Event::Line(Some(stale))), Reaction::Wait));
    assert!(matches!(react(2, 30, Event::TimedOut), Reaction::Fail(_)));
    assert!(matches!(react(2, 30, Event::Closed), Reaction::Fail(_)));
    assert!(matches!(react(2, 30, Event::ReadFailed("x".to_string())), Reaction::Fail(_)));
    let end = FromRunner::Done {
        id: 2,
        ok: true,
        output: "out".to_string(),
        value: Json::Null,
        error: None,
    };
    match react(2, 30, Event::Line(Some(end))) {
        Reaction::Finish(outcome) => assert_eq!(outcome.output, "out"),
        other => panic!("expected the end, got {other:?}"),
    }
    let host = FromRunner::Host { id: 5, op: "cursor".to_string(), args: Json::Null };
    assert!(matches!(react(2, 30, Event::Line(Some(host))), Reaction::Answer { id: 5, .. }));
}

#[test]
fn each_call_takes_the_next_id() {
    let mut ids = CallIds::new();
    assert_eq!(ids.take(), 1);
    assert_eq!(ids.take(), 2);
    assert_eq!(ids.take(), 3);
}

#[test]
fn a_call_ends_with_its_own_end_and_every_host_call_is_answered_once() {
    let done = |id: u64, output: &str| FromRunner::Done {
        id,
        ok: true,
        output: output.to_string(),
        value: Json::Null,
        error: None,
    };
    let host = |id: u64| FromRunner::Host { id, op: "cursor".to_string(), args: Json::Null };
    let lines = vec![
        None,
        Some(host(5)),
        Some(done(1, "late")),
        Some(host(6)),
        Some(done(2, "own")),
        Some(host(7)),
    ];
    let mut answered = Vec::new();
    let mut outcome = None;
    for line in lines {
        match react(2, 30, Event::Line(line)) {
            Reaction::Wait => {}
            Reaction::Answer { id, op, .. } => {
                assert!(matches!(gate(id, &op, false, false, 30), Gate::Desktop));
                match answer(id, &op, 30, Carried::Answered(Json::Null)) {
                    Ok(ToRunner::HostResult { id, .. }) => answered.push(id),
                    other => panic!("{other:?}"),
                }
            }
            Reaction::Finish(o) => {
                outcome = Some(o);
                break;
            }
            Reaction::Fail(e) => panic!("{e}"),
        }
    }
    assert_eq!(answered, vec![5, 6]);
    assert_eq!(outcome.expect("an outcome").output, "own");
}

#[test]
fn a_call_has_a_limit_whatever_it_asks_for() {
    assert_eq!(limit_secs(None), DEFAULT_TIMEOUT_SECS);
    assert_eq!(limit_secs(Some(5)), 5);
    assert_eq!(limit_secs(Some(100_000)), MAX_TIMEOUT_SECS);
    assert_ne!(permission_text(true), permission_text(false));
}

#[test]
fn a_drag_presses_moves_and_lets_go() {
    let op = request("drag", &json(r#"{"x1":1,"y1":2,"x2":3,"y2":4}"#)).expect("a drag");
    assert!(matches!(op, DesktopOp::Drag { x1: 1, y1: 2, x2: 3, y2: 4 }));
    let steps = steps_of(&op);
    assert_eq!(
        steps,
        vec![
            Step::MoveTo { x: 1, y: 2 },
            Step::Press,
            Step::DragTo { x: 3, y: 4 },
            Step::Release,
        ]
    );
    assert_eq!(next_step(&op, &vec![]), Some(Step::MoveTo { x: 1, y: 2 }));
    // The button is let go of even where the move failed.
    assert_eq!(
        next_step(&op, &vec![None, None, Some("blocked".to_string())]),
        Some(Step::Release)
    );
    assert_eq!(
        settle(&op, &vec![None, None, Some("blocked".to_string()), None]).expect_err("it failed"),
        "drag failed: blocked"
    );
}

#[test]
fn a_click_needs_its_place_and_defaults_to_the_left_button() {
    let op = request("click", &json(r#"{"x":10,"y":20}"#)).expect("a click");
    assert!(matches!(op, DesktopOp::Click { x: 10, y: 20, button: Button::Left }));
    assert!(request("click", &json(r#"{"x":10}"#)).is_err());
    assert!(request("teleport", &json("{}")).is_err());
}

#[test]
fn a_screenshot_answer_carries_the_encoded_picture() {
    let answer = to_value(&screenshot_answer(2, 1, &[1, 2, 3]));
    assert_eq!(answer["width"], 2);
    assert_eq!(answer["height"], 1);
    assert_eq!(answer["base64"], "AQID");
    let cursor = to_value(&cursor_answer(-3, 4));
    assert_eq!(cursor["x"], -3);
    assert_eq!(cursor["y"], 4);
    assert!(no_display(2).contains('2'));
}

#[test]
fn the_clipboard_goes_through_what_the_machine_has() {
    assert_eq!(clipboard_reader(Platform::Macos, false, false).expect("macos").0, "pbpaste");
    assert_eq!(clipboard_writer(Platform::Macos, false, false).expect("macos").0, "pbcopy");
    assert_eq!(clipboard_reader(Platform::Other, true, true).expect("wayland").0, "wl-paste");
    assert_eq!(clipboard_reader(Platform::Other, false, true).expect("x11").0, "xclip");
    assert!(clipboard_reader(Platform::Other, false, false).is_err());
    assert!(clipboard_writer(Platform::Other, false, false).is_err());
}

#[test]
fn a_search_answer_lists_what_was_found() {
    let answer = to_value(&find_answer(&tree(), &json(r#"{"query":{"role":"AXButton"}}"#)));
    assert!(answer.to_string().contains("Save"), "{answer}");
    let query = query_from(&json(r#"{"role":"AXButton","limit":5}"#));
    assert!(query.limit > 0);
}

#[test]
fn platforms_answer_what_they_can() {
    assert!(matches!(LinuxBackend::unsupported::<u32>(), Err(AxError::NotSupported(_))));
    assert_eq!(capped_depth(100), MAX_DEPTH);
    assert_eq!(capped_depth(3), 3);
    assert_eq!(
        first_present(&vec![String::new(), "title".to_string(), "value".to_string()]),
        "title"
    );
    assert_eq!(read_attribute("title"), Ok(Property::Name));
    assert!(read_attribute("Nonsense").is_err());
}
