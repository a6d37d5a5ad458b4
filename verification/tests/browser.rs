use mikmik_tools::browser::cdp::{
    command_frame, endpoint_from, match_read, match_response, match_text, ws_url_from_version,
    CdpError, CommandIds,
};
use mikmik_tools::browser::{
    attach_params, attached_session, browser_binary, captured_data, close_params, closed_report,
    create_params, created_target, evaluate_params, evaluate_value, no_endpoint, opened_report,
    plan, screenshot_params, screenshot_report, version_url, viewport_params, wait_for_load,
    BrowserFailure, BrowserInput, BrowserTool, Plan, Tabs, Wait, LOAD_POLLS,
};
use mikmik_tools::json::{Json, JsonNumber};
use mikmik_tools::PermissionLevel;

fn from_value(value: &serde_json::Value) -> Json {
    match value {
        serde_json::Value::Null => Json::Null,
        serde_json::Value::Bool(b) => Json::Bool(*b),
        serde_json::Value::Number(n) => Json::Number(if let Some(u) = n.as_u64() {
            JsonNumber::Positive(u)
        } else if let Some(i) = n.as_i64() {
            JsonNumber::Negative(i)
        } else {
            JsonNumber::Decimal(n.to_string())
        }),
        serde_json::Value::String(s) => Json::Text(s.clone()),
        serde_json::Value::Array(items) => Json::Array(items.iter().map(from_value).collect()),
        serde_json::Value::Object(members) => Json::Object(
            members.iter().map(|(k, v)| (k.clone(), from_value(v))).collect(),
        ),
    }
}

fn json(text: &str) -> Json {
    from_value(&serde_json::from_str::<serde_json::Value>(text).expect("valid JSON"))
}

fn input(action: &str) -> BrowserInput {
    BrowserInput {
        action: action.to_string(),
        name: None,
        url: None,
        viewport: None,
        code: None,
        all: false,
    }
}

#[test]
fn a_browser_command_carries_no_session_id() {
    let frame = command_frame(7, "Target.createTarget", json(r#"{ "url": "about:blank" }"#), None);
    assert_eq!(frame.get("id").and_then(|v| v.as_u64()), Some(7));
    assert_eq!(frame.get("method").and_then(|v| v.as_str()), Some("Target.createTarget"));
    assert_eq!(
        frame.get("params").and_then(|v| v.get("url")).and_then(|v| v.as_str()),
        Some("about:blank")
    );
    assert!(frame.get("sessionId").is_none());
}

#[test]
fn a_page_command_carries_the_session_id() {
    let frame = command_frame(9, "Runtime.evaluate", json("{}"), Some("SID-42"));
    assert_eq!(frame.get("sessionId").and_then(|v| v.as_str()), Some("SID-42"));
}

#[test]
fn a_matching_result_is_returned() {
    let frame = json(r#"{ "id": 3, "result": { "targetId": "T1" } }"#);
    let matched = match_response(&frame, 3).expect("id 3 is this command's answer");
    let value = matched.expect("a result, not an error");
    assert_eq!(value.get("targetId").and_then(|v| v.as_str()), Some("T1"));
}

#[test]
fn a_remote_error_is_surfaced_not_swallowed() {
    let frame = json(r#"{ "id": 3, "error": { "code": -32000, "message": "no such target" } }"#);
    let matched = match_response(&frame, 3).expect("id 3 is this command's answer");
    match matched {
        Err(CdpError::Remote { code, message }) => {
            assert_eq!(code, -32000);
            assert_eq!(message, "no such target");
        }
        other => panic!("expected a remote error, got {other:?}"),
    }
}

#[test]
fn an_event_is_not_taken_as_a_response() {
    let event = json(r#"{ "method": "Page.loadEventFired", "params": {} }"#);
    assert!(match_response(&event, 3).is_none());
}

#[test]
fn another_commands_answer_is_skipped() {
    let frame = json(r#"{ "id": 4, "result": {} }"#);
    assert!(match_response(&frame, 3).is_none());
}

#[test]
fn the_ws_url_is_read_from_the_version_body() {
    let body = r#"{"Browser":"Chrome/120","webSocketDebuggerUrl":"ws://127.0.0.1:9222/devtools/browser/abc"}"#;
    assert_eq!(
        ws_url_from_version(body).expect("a ws url"),
        "ws://127.0.0.1:9222/devtools/browser/abc"
    );
}

#[test]
fn a_version_body_without_the_url_is_an_error() {
    let body = r#"{"Browser":"Chrome/120"}"#;
    assert!(ws_url_from_version(body).is_err());
}

#[test]
fn a_version_body_that_is_no_json_is_a_protocol_error() {
    assert!(matches!(ws_url_from_version("<html>"), Err(CdpError::Protocol(_))));
    assert!(matches!(endpoint_from(Err("bad".to_string())), Err(CdpError::Protocol(_))));
    let page = Json::Object(vec![(
        "webSocketDebuggerUrl".to_string(),
        Json::Text("ws://x".to_string()),
    )]);
    assert!(matches!(endpoint_from(Ok(page)), Ok(url) if url == "ws://x"));
    assert!(matches!(endpoint_from(Ok(Json::Null)), Err(CdpError::Protocol(_))));
}

#[test]
fn a_text_that_arrives_is_read_before_it_is_matched() {
    assert!(match_text(r#"{"method":"Page.loaded"}"#, 3).is_none());
    assert!(match_text(r#"{"id":4,"result":{}}"#, 3).is_none());
    match match_text(r#"{"id":3,"result":{"ok":true}}"#, 3) {
        Some(Ok(Json::Object(members))) => assert_eq!(members[0].0, "ok"),
        other => panic!("expected a result, got {other:?}"),
    }
    assert!(matches!(match_text("{", 3), Some(Err(CdpError::Protocol(_)))));
    assert!(matches!(match_read(Err("odd".to_string()), 3), Some(Err(CdpError::Protocol(e))) if e == "odd"));
}

#[test]
fn every_cdp_error_says_what_it_is() {
    assert!(CdpError::Transport("gone".to_string()).text().contains("gone"));
    assert!(CdpError::Protocol("odd".to_string()).text().contains("odd"));
    let remote = CdpError::Remote { code: -32000, message: "no such target".to_string() }.text();
    assert!(remote.contains("-32000") && remote.contains("no such target"), "{remote}");
    assert!(!CdpError::Timeout.text().is_empty());
}

#[test]
fn command_ids_differ() {
    let mut ids = CommandIds::new();
    let a = ids.take();
    let b = ids.take();
    assert_ne!(a, b);
}

#[test]
fn an_unknown_action_is_named_not_ignored() {
    let asked = input("teleport");
    assert_eq!(asked.action, "teleport");
    let error = plan(&asked, &Tabs::new()).expect_err("an unknown action is refused");
    assert!(matches!(error, BrowserFailure::Usage(_)), "{error:?}");
    assert!(error.text().contains("teleport"), "{}", error.text());
}

#[test]
fn a_missing_name_falls_back_to_default() {
    let mut asked = input("run");
    asked.code = Some("1+1".to_string());
    assert!(asked.name.is_none());
    let mut tabs = Tabs::new();
    tabs.remember("default", "T1");
    match plan(&asked, &tabs) {
        Ok(Plan::Run { tab, target_id, code }) => {
            assert_eq!(tab, "default");
            assert_eq!(target_id, "T1");
            assert_eq!(code, "1+1");
        }
        other => panic!("expected a run, got {other:?}"),
    }
}

#[test]
fn run_without_code_is_refused_before_touching_a_browser() {
    let error = plan(&input("run"), &Tabs::new()).expect_err("missing code must be refused");
    assert!(matches!(error, BrowserFailure::Usage(_)), "{error:?}");
}

#[test]
fn a_run_on_an_unknown_tab_is_refused_before_touching_a_browser() {
    let mut asked = input("run");
    asked.name = Some("ghost".to_string());
    asked.code = Some("1+1".to_string());
    let error = plan(&asked, &Tabs::new()).expect_err("an unknown tab must be refused");
    assert!(matches!(error, BrowserFailure::UnknownTab(_)), "{error:?}");
    assert!(error.text().contains("ghost"), "{}", error.text());
}

#[test]
fn a_forgotten_tab_is_unknown_and_the_others_stay() {
    let mut tabs = Tabs::new();
    tabs.remember("a", "T1");
    tabs.remember("b", "T2");
    assert!(tabs.forget("a"));
    assert!(!tabs.forget("a"));
    assert!(tabs.target_for("a").is_err());
    assert_eq!(tabs.target_for("b").expect("b stays"), "T2");
}

#[test]
fn closing_all_lists_every_tab_once() {
    let mut tabs = Tabs::new();
    tabs.remember("a", "T1");
    tabs.remember("b", "T2");
    let mut all = tabs.closing("a", true).expect("all tabs");
    all.sort();
    assert_eq!(
        all,
        vec![("a".to_string(), "T1".to_string()), ("b".to_string(), "T2".to_string())]
    );
    assert_eq!(
        tabs.closing("b", false).expect("one tab"),
        vec![("b".to_string(), "T2".to_string())]
    );
    assert!(tabs.closing("ghost", false).is_err());
}

#[test]
fn replies_are_read_where_the_protocol_puts_them() {
    assert_eq!(created_target(&json(r#"{"targetId":"T9"}"#)).expect("a target"), "T9");
    assert!(created_target(&json("{}")).is_err());
    assert_eq!(attached_session(&json(r#"{"sessionId":"S9"}"#)).expect("a session"), "S9");
    assert!(attached_session(&json("{}")).is_err());
    assert_eq!(captured_data(&json(r#"{"data":"AAAA"}"#)).expect("data"), "AAAA");
    assert!(captured_data(&json("{}")).is_err());
}

#[test]
fn an_exception_in_the_page_is_a_failure_and_a_value_is_the_answer() {
    let value = evaluate_value(&json(r#"{"result":{"value":42}}"#)).expect("a value");
    assert_eq!(value.as_u64(), Some(42));
    let error = evaluate_value(&json(
        r#"{"exceptionDetails":{"text":"Uncaught","exception":{"description":"Error: boom"}},"result":{}}"#,
    ))
    .expect_err("an exception");
    assert!(matches!(error, BrowserFailure::PageException(_)), "{error:?}");
    assert!(error.text().contains("boom"), "{}", error.text());
}

#[test]
fn parameters_carry_what_they_are_given() {
    assert_eq!(create_params("https://a").text_of("url").as_deref(), Some("https://a"));
    assert_eq!(close_params("T1").text_of("targetId").as_deref(), Some("T1"));
    let attach = attach_params("T1");
    assert_eq!(attach.text_of("targetId").as_deref(), Some("T1"));
    assert_eq!(attach.get("flatten").and_then(|v| v.as_bool()), Some(true));
    assert_eq!(evaluate_params("1+1").text_of("expression").as_deref(), Some("1+1"));
    let viewport = viewport_params(800, 600);
    assert_eq!(viewport.unsigned_of("width"), Some(800));
    assert_eq!(viewport.unsigned_of("height"), Some(600));
    assert_eq!(screenshot_params().text_of("format").as_deref(), Some("jpeg"));
}

#[test]
fn reports_name_the_tab() {
    let opened = opened_report("docs", "https://a", &Some(Json::Text("Title".to_string())));
    assert!(opened.contains("docs") && opened.contains("https://a"), "{opened}");
    assert!(opened.contains("Title"), "{opened}");
    assert!(screenshot_report("docs", "AAAA").contains("docs"));
    assert!(closed_report(2).contains('2'));
}

#[test]
fn waiting_for_a_page_ends_when_it_is_complete_or_the_polls_run_out() {
    assert_eq!(wait_for_load(0, &Some(Json::Text("complete".to_string()))), Wait::Over);
    assert_eq!(wait_for_load(0, &Some(Json::Text("loading".to_string()))), Wait::Again);
    assert_eq!(wait_for_load(LOAD_POLLS, &None), Wait::Over);
}

#[test]
fn an_endpoint_is_asked_for_its_version() {
    assert_eq!(version_url("http://127.0.0.1:9222/"), "http://127.0.0.1:9222/json/version");
    assert!(no_endpoint("refused").text().contains("refused"));
}

#[test]
fn a_configured_browser_wins_over_a_found_one() {
    let found = [false, true, false, false];
    assert_eq!(
        browser_binary(&Some("/opt/chrome".to_string()), &found).as_deref(),
        Some("/opt/chrome")
    );
    assert!(browser_binary(&None, &found).is_some());
    assert!(browser_binary(&None, &[false, false, false, false]).is_none());
}

#[test]
fn the_browser_tool_is_dangerous() {
    assert_eq!(BrowserTool.name(), "browser");
    assert_eq!(BrowserTool.permission_level(), PermissionLevel::Dangerous);
}
