//! What the host and the runner say to each other.
//!
//! One JSON object per line, in both directions. The shapes live here rather
//! than inline so a test can build and read them without a socket.
use vstd::prelude::*;
use crate::json::{
    integer_json, members_view, no_members, object, put, text, whole, Json, JsonView,
};
use crate::parsing::{json_read, parse_json, read_view};
use crate::text::{opt_view, same, trim, trimmed};

verus! {

/// A message the runner sends the host.
#[derive(Debug)]
pub enum FromRunner {
    /// First line after connecting, carrying the token this session was
    /// started with. A connection that says anything else first is dropped.
    Hello { token: String },
    /// The running code called a host function.
    Host { id: u64, op: String, args: Json },
    /// The call finished.
    Done { id: u64, ok: bool, output: String, value: Json, error: Option<String> },
}

/// What a [`FromRunner`] says.
#[verifier::ext_equal]
pub enum Incoming {
    Hello { token: Seq<char> },
    Host { id: u64, op: Seq<char>, args: JsonView },
    Done {
        id: u64,
        ok: bool,
        output: Seq<char>,
        value: JsonView,
        error: Option<Seq<char>>,
    },
}

impl View for FromRunner {
    type V = Incoming;

    open spec fn view(&self) -> Incoming {
        match *self {
            FromRunner::Hello { token } => Incoming::Hello { token: token@ },
            FromRunner::Host { id, op, args } => Incoming::Host { id, op: op@, args: args@ },
            FromRunner::Done { id, ok, output, value, error } => Incoming::Done {
                id,
                ok,
                output: output@,
                value: value@,
                error: opt_view(error),
            },
        }
    }
}

/// A message the host sends the runner.
#[derive(Debug)]
pub enum ToRunner {
    /// Run this code.
    Run { id: u64, code: String, read_only: bool },
    /// The answer to one host call.
    HostResult { id: u64, ok: bool, value: Json, error: Option<String> },
}

/// What a [`ToRunner`] says.
#[verifier::ext_equal]
pub enum Outgoing {
    Run { id: u64, code: Seq<char>, read_only: bool },
    HostResult { id: u64, ok: bool, value: JsonView, error: Option<Seq<char>> },
}

impl View for ToRunner {
    type V = Outgoing;

    open spec fn view(&self) -> Outgoing {
        match *self {
            ToRunner::Run { id, code, read_only } => Outgoing::Run { id, code: code@, read_only },
            ToRunner::HostResult { id, ok, value, error } => Outgoing::HostResult {
                id,
                ok,
                value: value@,
                error: opt_view(error),
            },
        }
    }
}

/// A failed answer to host call `id`.
pub open spec fn failed_view(id: u64, error: Seq<char>) -> Outgoing {
    Outgoing::HostResult { id, ok: false, value: JsonView::Null, error: Some(error) }
}

/// A successful answer to host call `id`.
pub open spec fn ok_view(id: u64, value: JsonView) -> Outgoing {
    Outgoing::HostResult { id, ok: true, value, error: None }
}

/// The JSON form of a message to the runner. An absent error is left out.
pub open spec fn outgoing_json(m: Outgoing) -> JsonView {
    match m {
        Outgoing::Run { id, code, read_only } => JsonView::Object(
            seq![
                ("type"@, JsonView::Text("run"@)),
                ("id"@, integer_json(id as int)),
                ("code"@, JsonView::Text(code)),
                ("readOnly"@, JsonView::Bool(read_only)),
            ],
        ),
        Outgoing::HostResult { id, ok, value, error } => {
            let base = seq![
                ("type"@, JsonView::Text("host_result"@)),
                ("id"@, integer_json(id as int)),
                ("ok"@, JsonView::Bool(ok)),
                ("value"@, value),
            ];
            JsonView::Object(
                match error {
                    Some(e) => base.push(("error"@, JsonView::Text(e))),
                    None => base,
                },
            )
        },
    }
}

impl ToRunner {
    /// A successful answer to host call `id`.
    pub fn ok(id: u64, value: Json) -> (m: ToRunner)
        ensures
            m@ == ok_view(id, value@),
    {
        ToRunner::HostResult { id, ok: true, value, error: None }
    }

    /// A refusal or a failure, which the runner turns into a thrown error.
    pub fn failed(id: u64, error: String) -> (m: ToRunner)
        ensures
            m@ == failed_view(id, error@),
    {
        ToRunner::HostResult { id, ok: false, value: Json::Null, error: Some(error) }
    }

    /// The message as it goes over the bridge.
    pub fn to_json(&self) -> (out: Json)
        ensures
            out@ == outgoing_json(self@),
    {
        let mut members = no_members();
        match self {
            ToRunner::Run { id, code, read_only } => {
                put(&mut members, "type", text("run"));
                put(&mut members, "id", whole(*id));
                put(&mut members, "code", text(code));
                put(&mut members, "readOnly", Json::Bool(*read_only));
            },
            ToRunner::HostResult { id, ok, value, error } => {
                put(&mut members, "type", text("host_result"));
                put(&mut members, "id", whole(*id));
                put(&mut members, "ok", Json::Bool(*ok));
                put(&mut members, "value", value.copy());
                if let Some(e) = error {
                    put(&mut members, "error", text(e));
                }
            },
        }
        assert(members_view(members@) =~= outgoing_json(self@)->Object_0);
        object(members)
    }
}

/// A member that may be left out, and is then null.
pub open spec fn or_null(v: Option<JsonView>) -> JsonView {
    match v {
        Some(v) => v,
        None => JsonView::Null,
    }
}

/// Whether a member that may be left out is a text where it is there.
pub open spec fn text_if_any(v: Option<JsonView>) -> bool {
    v matches Some(v) ==> v.text() is Some
}

/// The text of a member that may be left out.
pub open spec fn text_or_empty(v: Option<JsonView>) -> Seq<char> {
    match v {
        Some(v) => match v.text() {
            Some(s) => s,
            None => seq![],
        },
        None => seq![],
    }
}

/// The text of a member that may be left out or null.
pub open spec fn optional_text(v: Option<JsonView>) -> Option<Seq<char>> {
    match v {
        Some(v) => v.text(),
        None => None,
    }
}

/// Whether a value is a boolean member.
pub open spec fn flag_of(v: JsonView, key: Seq<char>) -> Option<bool> {
    match v.get(key) {
        Some(b) => b.boolean(),
        None => None,
    }
}

/// The message that a JSON value holds, where it holds one. A message is an object.
pub open spec fn incoming(v: JsonView) -> Option<Incoming> {
    match v.text_of("type"@) {
        Some(tag) => if tag == "hello"@ {
            match v.text_of("token"@) {
                Some(token) => Some(Incoming::Hello { token }),
                None => None,
            }
        } else if tag == "host"@ {
            match (v.unsigned_of("id"@), v.text_of("op"@)) {
                (Some(id), Some(op)) => Some(
                    Incoming::Host { id, op, args: or_null(v.get("args"@)) },
                ),
                _ => None,
            }
        } else if tag == "done"@ {
            match (v.unsigned_of("id"@), flag_of(v, "ok"@)) {
                (Some(id), Some(ok)) => if text_if_any(v.get("output"@)) && (v.get("error"@)
                    == Some(JsonView::Null) || text_if_any(v.get("error"@))) {
                    Some(
                        Incoming::Done {
                            id,
                            ok,
                            output: text_or_empty(v.get("output"@)),
                            value: or_null(v.get("value"@)),
                            error: optional_text(v.get("error"@)),
                        },
                    )
                } else {
                    None
                },
                _ => None,
            }
        } else {
            None
        },
        None => None,
    }
}

fn copy_or_null(v: Option<&Json>) -> (out: Json)
    ensures
        out@ == or_null(match v {
            Some(v) => Some(v@),
            None => None,
        }),
{
    match v {
        Some(v) => v.copy(),
        None => Json::Null,
    }
}

impl FromRunner {
    /// The message that a JSON value holds, where it holds one.
    pub fn from_json(v: &Json) -> (r: Option<FromRunner>)
        ensures
            match r {
                Some(m) => incoming(v@) == Some(m@),
                None => incoming(v@) is None,
            },
    {
        let tag = match v.text_of("type") {
            Some(tag) => tag,
            None => {
                return None;
            },
        };
        if same(&tag, "hello") {
            return match v.text_of("token") {
                Some(token) => Some(FromRunner::Hello { token }),
                None => None,
            };
        }
        if same(&tag, "host") {
            return match (v.unsigned_of("id"), v.text_of("op")) {
                (Some(id), Some(op)) => Some(
                    FromRunner::Host { id, op, args: copy_or_null(v.get("args")) },
                ),
                _ => None,
            };
        }
        if !same(&tag, "done") {
            return None;
        }
        let id: u64 = match v.unsigned_of("id") {
            Some(id) => id,
            None => {
                return None;
            },
        };
        let ok: bool = match v.get("ok") {
            Some(b) => match b.as_bool() {
                Some(b) => b,
                None => {
                    return None;
                },
            },
            None => {
                return None;
            },
        };
        let output = match v.get("output") {
            Some(o) => match o.as_str() {
                Some(s) => s.to_string(),
                None => {
                    return None;
                },
            },
            None => String::new(),
        };
        let error = match v.get("error") {
            Some(e) => {
                if e.is_null() {
                    None
                } else {
                    match e.as_str() {
                        Some(s) => Some(s.to_string()),
                        None => {
                            return None;
                        },
                    }
                }
            },
            None => None,
        };
        Some(FromRunner::Done { id, ok, output, value: copy_or_null(v.get("value")), error })
    }

    /// The message that a line of the bridge holds, where it holds one, given what
    /// the line reads as.
    pub fn from_read(read: Result<Json, String>) -> (r: Option<FromRunner>)
        ensures
            match r {
                Some(m) => line_message(read_view(read)) == Some(m@),
                None => line_message(read_view(read)) is None,
            },
    {
        match read {
            Ok(v) => FromRunner::from_json(&v),
            Err(_) => None,
        }
    }

    /// The message that a line of the bridge holds, where it holds one. White space
    /// around it does not count.
    pub fn from_line(line: &str) -> (r: Option<FromRunner>)
        ensures
            match r {
                Some(m) => line_message(json_read(trimmed(line@))) == Some(m@),
                None => line_message(json_read(trimmed(line@))) is None,
            },
    {
        FromRunner::from_read(parse_json(&trim(line)))
    }
}

/// The message that a line holds, given what the line reads as.
pub open spec fn line_message(read: Result<JsonView, Seq<char>>) -> Option<Incoming> {
    match read {
        Ok(v) => incoming(v),
        Err(_) => None,
    }
}

/// An answer carries the id it answers, whether it went well, its value, and what went
/// wrong where something did.
pub proof fn an_answer_carries_all(id: u64, ok: bool, value: JsonView, error: Option<Seq<char>>)
    ensures
        ({
            let v = outgoing_json(Outgoing::HostResult { id, ok, value, error });
            &&& v.text_of("type"@) == Some("host_result"@)
            &&& v.unsigned_of("id"@) == Some(id)
            &&& v.get("ok"@) == Some(JsonView::Bool(ok))
            &&& v.get("value"@) == Some(value)
            &&& v.text_of("error"@) == error
        }),
{
    key_names_differ();
    reveal_with_fuel(crate::json::member_from, 7);
}

/// A run carries its id, its code and whether it may only read.
pub proof fn a_run_carries_all(id: u64, code: Seq<char>, read_only: bool)
    ensures
        ({
            let v = outgoing_json(Outgoing::Run { id, code, read_only });
            &&& v.text_of("type"@) == Some("run"@)
            &&& v.unsigned_of("id"@) == Some(id)
            &&& v.text_of("code"@) == Some(code)
            &&& v.get("readOnly"@) == Some(JsonView::Bool(read_only))
        }),
{
    key_names_differ();
    reveal_with_fuel(crate::json::member_from, 7);
}

proof fn key_names_differ()
    ensures
        "type"@ != "id"@ && "type"@ != "ok"@ && "type"@ != "value"@ && "type"@ != "error"@
            && "type"@ != "code"@ && "type"@ != "readOnly"@,
        "id"@ != "ok"@ && "id"@ != "value"@ && "id"@ != "error"@ && "id"@ != "code"@ && "id"@
            != "readOnly"@,
        "ok"@ != "value"@ && "ok"@ != "error"@,
        "value"@ != "error"@,
        "code"@ != "readOnly"@,
{
    reveal_strlit("type");
    reveal_strlit("id");
    reveal_strlit("ok");
    reveal_strlit("value");
    reveal_strlit("error");
    reveal_strlit("code");
    reveal_strlit("readOnly");
    assert("type"@[0] == 't' && "id"@[0] == 'i' && "ok"@[0] == 'o' && "value"@[0] == 'v'
        && "error"@[0] == 'e' && "code"@[0] == 'c' && "readOnly"@[0] == 'r');
}

/// A greeting reads as its token.
pub proof fn a_greeting_is_read(v: JsonView, token: Seq<char>)
    requires
        v.text_of("type"@) == Some("hello"@),
    ensures
        v.text_of("token"@) == Some(token) ==> incoming(v) == Some(Incoming::Hello { token }),
        v.text_of("token"@) is None ==> incoming(v) is None,
{
}

/// A call of the host reads as its id, its op and its arguments, none where there are
/// none.
pub proof fn a_host_call_is_read(v: JsonView, id: u64, op: Seq<char>)
    requires
        v.text_of("type"@) == Some("host"@),
    ensures
        v.unsigned_of("id"@) == Some(id) && v.text_of("op"@) == Some(op) && v.get("args"@) is Some
            ==> incoming(v) == Some(Incoming::Host { id, op, args: v.get("args"@)->0 }),
        v.unsigned_of("id"@) == Some(id) && v.text_of("op"@) == Some(op) && v.get("args"@) is None
            ==> incoming(v) == Some(Incoming::Host { id, op, args: JsonView::Null }),
        v.unsigned_of("id"@) is None || v.text_of("op"@) is None ==> incoming(v) is None,
{
    tag_names_differ();
}

/// The end of a run reads as its id, whether it went well, what it printed, what it came
/// to, and what went wrong.
pub proof fn an_end_is_read(v: JsonView, id: u64, ok: bool, output: Seq<char>, value: JsonView)
    requires
        v.text_of("type"@) == Some("done"@),
        v.unsigned_of("id"@) == Some(id),
        v.get("ok"@) == Some(JsonView::Bool(ok)),
        v.get("output"@) == Some(JsonView::Text(output)),
        v.get("value"@) == Some(value),
    ensures
        v.get("error"@) is None || v.get("error"@) == Some(JsonView::Null) ==> incoming(v) == Some(
            Incoming::Done { id, ok, output, value, error: None },
        ),
        v.get("error"@) is Some && v.get("error"@)->0 is Text ==> incoming(v) == Some(
            Incoming::Done { id, ok, output, value, error: Some(v.get("error"@)->0->Text_0) },
        ),
        v.get("error"@) is Some && v.get("error"@)->0 is Bool ==> incoming(v) is None,
{
    tag_names_differ();
}

/// A message of no known kind is none.
pub proof fn an_unknown_message_is_none(v: JsonView)
    requires
        v.text_of("type"@) != Some("hello"@),
        v.text_of("type"@) != Some("host"@),
        v.text_of("type"@) != Some("done"@),
    ensures
        incoming(v) is None,
{
}

proof fn tag_names_differ()
    ensures
        "hello"@ != "host"@,
        "hello"@ != "done"@,
        "host"@ != "done"@,
{
    reveal_strlit("hello");
    reveal_strlit("host");
    reveal_strlit("done");
    assert("hello"@.len() == 5 && "host"@.len() == 4 && "done"@.len() == 4);
    assert("host"@[0] == 'h' && "done"@[0] == 'd');
}

} // verus!
