//! The framing of the Chrome DevTools Protocol.
//!
//! CDP is request/response over one WebSocket, correlated by an integer `id`,
//! interleaved with unsolicited events that carry a `method` and no `id`. A
//! client sends one command at a time and reads frames until the matching `id`
//! comes back, dropping events and stray ids on the way.
use vstd::prelude::*;
use crate::json::{members_view, object_view, Json, JsonNumber, JsonView, NumberView};
use crate::parsing::{json_read, parse_json, read_view};
use crate::text::{signed, signed_number};

verus! {

/// How long one command waits for its response before giving up, in seconds.
pub const COMMAND_TIMEOUT_SECS: u64 = 30;

/// A CDP failure, kept apart from the tool's own errors so the caller can tell
/// a transport fault from a command the browser refused.
#[derive(Debug)]
pub enum CdpError {
    /// The socket could not be opened or a frame could not be sent or read.
    Transport(String),
    /// A frame arrived that was not the JSON object the protocol requires.
    Protocol(String),
    /// The browser answered the command with an `error` object.
    Remote { code: i64, message: String },
    /// No response came back in time.
    Timeout,
}

/// What a [`CdpError`] says.
#[verifier::ext_equal]
pub enum Fault {
    Transport(Seq<char>),
    Protocol(Seq<char>),
    Remote { code: i64, message: Seq<char> },
    Timeout,
}

impl View for CdpError {
    type V = Fault;

    open spec fn view(&self) -> Fault {
        match *self {
            CdpError::Transport(s) => Fault::Transport(s@),
            CdpError::Protocol(s) => Fault::Protocol(s@),
            CdpError::Remote { code, message } => Fault::Remote { code, message: message@ },
            CdpError::Timeout => Fault::Timeout,
        }
    }
}

/// The text of a fault.
pub open spec fn fault_text(f: Fault) -> Seq<char> {
    match f {
        Fault::Transport(s) => "browser transport error: "@ + s,
        Fault::Protocol(s) => "malformed CDP frame: "@ + s,
        Fault::Remote { code, message } => "browser refused the command: "@ + message + " (code "@
            + signed(code as int) + ")"@,
        Fault::Timeout => "browser did not answer within the timeout"@,
    }
}

impl CdpError {
    /// The error as it is shown.
    pub fn text(&self) -> (out: String)
        ensures
            out@ == fault_text(self@),
    {
        match self {
            CdpError::Transport(s) => {
                let mut out = "browser transport error: ".to_string();
                out.push_str(s);
                out
            },
            CdpError::Protocol(s) => {
                let mut out = "malformed CDP frame: ".to_string();
                out.push_str(s);
                out
            },
            CdpError::Remote { code, message } => {
                let mut out = "browser refused the command: ".to_string();
                out.push_str(message);
                out.push_str(" (code ");
                let n = signed_number(*code);
                out.push_str(&n);
                out.push_str(")");
                out
            },
            CdpError::Timeout => "browser did not answer within the timeout".to_string(),
        }
    }
}

/// The envelope of a command.
pub open spec fn frame(
    id: u64,
    method: Seq<char>,
    params: JsonView,
    session_id: Option<Seq<char>>,
) -> JsonView {
    let head = seq![
        ("id"@, JsonView::Number(NumberView::Positive(id))),
        ("method"@, JsonView::Text(method)),
        ("params"@, params),
    ];
    JsonView::Object(
        match session_id {
            Some(s) => head.push(("sessionId"@, JsonView::Text(s))),
            None => head,
        },
    )
}

/// Build the JSON envelope for one command.
///
/// In flatten mode a page command carries the page's `sessionId` beside the
/// `id`; a browser-level command carries none.
pub fn command_frame(id: u64, method: &str, params: Json, session_id: Option<&str>) -> (out: Json)
    ensures
        out@ == frame(
            id,
            method@,
            params@,
            match session_id {
                Some(s) => Some(s@),
                None => None,
            },
        ),
{
    let ghost given = params@;
    let mut members: Vec<(String, Json)> = Vec::new();
    members.push(("id".to_string(), Json::Number(JsonNumber::Positive(id))));
    members.push(("method".to_string(), Json::Text(method.to_string())));
    members.push(("params".to_string(), params));
    if let Some(s) = session_id {
        members.push(("sessionId".to_string(), Json::Text(s.to_string())));
    }
    proof {
        object_view(members);
        let ghost_frame = frame(
            id,
            method@,
            given,
            match session_id {
                Some(s) => Some(s@),
                None => None,
            },
        );
        assert(members_view(members@) =~= ghost_frame->Object_0);
    }
    Json::Object(members)
}

/// What a frame is to the command that awaits `id`: none where it is not its
/// response, else its result or the error the browser returned for it.
pub open spec fn response(frame: JsonView, id: u64) -> Option<Result<JsonView, Fault>> {
    if frame.unsigned_of("id"@) != Some(id) {
        None
    } else {
        match frame.get("error"@) {
            Some(error) => Some(
                Err(
                    Fault::Remote {
                        code: match error.signed_of("code"@) {
                            Some(n) => n,
                            None => 0,
                        },
                        message: match error.text_of("message"@) {
                            Some(s) => s,
                            None => "unknown error"@,
                        },
                    },
                ),
            ),
            None => Some(
                Ok(
                    match frame.get("result"@) {
                        Some(v) => v,
                        None => JsonView::Null,
                    },
                ),
            ),
        }
    }
}

/// What a result or an error says.
pub open spec fn outcome(r: Result<Json, CdpError>) -> Result<JsonView, Fault> {
    match r {
        Ok(v) => Ok(v@),
        Err(e) => Err(e@),
    }
}

/// Decide what an incoming frame is, relative to the command awaiting `id`.
///
/// `None` means the frame is not this command's response — an event, or another
/// command's answer — and the reader must keep waiting. `Some(Ok)` is the
/// command's result, `Some(Err)` the error the browser returned for it.
pub fn match_response(frame: &Json, id: u64) -> (r: Option<Result<Json, CdpError>>)
    ensures
        match r {
            Some(r) => response(frame@, id) == Some(outcome(r)),
            None => response(frame@, id) is None,
        },
{
    match frame.unsigned_of("id") {
        None => {
            return None;
        },
        Some(n) => {
            if n != id {
                return None;
            }
        },
    }
    if let Some(error) = frame.get("error") {
        let code: i64 = match error.signed_of("code") {
            Some(n) => n,
            None => 0,
        };
        let message = match error.text_of("message") {
            Some(s) => s,
            None => "unknown error".to_string(),
        };
        return Some(Err(CdpError::Remote { code, message }));
    }
    Some(
        Ok(
            match frame.get("result") {
                Some(v) => v.copy(),
                None => Json::Null,
            },
        ),
    )
}

/// What a text that arrived is to the command that awaits `id`, given what it reads
/// as: a text that is no JSON ends the wait.
pub open spec fn arrived(read: Result<JsonView, Seq<char>>, id: u64) -> Option<
    Result<JsonView, Fault>,
> {
    match read {
        Ok(frame) => response(frame, id),
        Err(e) => Some(Err(Fault::Protocol(e))),
    }
}

/// Decide what a text that arrived is, given what it reads as.
pub fn match_read(read: Result<Json, String>, id: u64) -> (r: Option<Result<Json, CdpError>>)
    ensures
        match r {
            Some(r) => arrived(read_view(read), id) == Some(outcome(r)),
            None => arrived(read_view(read), id) is None,
        },
{
    match read {
        Ok(frame) => match_response(&frame, id),
        Err(e) => Some(Err(CdpError::Protocol(e))),
    }
}

/// Decide what a text that arrived is.
pub fn match_text(text: &str, id: u64) -> (r: Option<Result<Json, CdpError>>)
    ensures
        match r {
            Some(r) => arrived(json_read(text@), id) == Some(outcome(r)),
            None => arrived(json_read(text@), id) is None,
        },
{
    match_read(parse_json(text), id)
}

/// What a browser's version page says of its WebSocket, given what it reads as.
pub open spec fn endpoint(read: Result<JsonView, Seq<char>>) -> Result<Seq<char>, Fault> {
    match read {
        Ok(page) => match page.text_of("webSocketDebuggerUrl"@) {
            Some(url) => Ok(url),
            None => Err(Fault::Protocol("/json/version had no webSocketDebuggerUrl"@)),
        },
        Err(e) => Err(Fault::Protocol("/json/version was not JSON: "@ + e)),
    }
}

/// The WebSocket URL, given what the version page reads as.
pub fn endpoint_from(read: Result<Json, String>) -> (r: Result<String, CdpError>)
    ensures
        match r {
            Ok(url) => endpoint(read_view(read)) == Ok::<Seq<char>, Fault>(url@),
            Err(e) => endpoint(read_view(read)) == Err::<Seq<char>, Fault>(e@),
        },
{
    match read {
        Ok(page) => match page.text_of("webSocketDebuggerUrl") {
            Some(url) => Ok(url),
            None => Err(
                CdpError::Protocol("/json/version had no webSocketDebuggerUrl".to_string()),
            ),
        },
        Err(error) => {
            let mut e = "/json/version was not JSON: ".to_string();
            e.push_str(&error);
            Err(CdpError::Protocol(e))
        },
    }
}

/// Read the browser-level WebSocket URL out of a `/json/version` body.
pub fn ws_url_from_version(body: &str) -> (r: Result<String, CdpError>)
    ensures
        match r {
            Ok(url) => endpoint(json_read(body@)) == Ok::<Seq<char>, Fault>(url@),
            Err(e) => endpoint(json_read(body@)) == Err::<Seq<char>, Fault>(e@),
        },
{
    endpoint_from(parse_json(body))
}

/// The ids of a connection's commands: each command is stamped with the next.
#[derive(Debug)]
pub struct CommandIds {
    pub next: u64,
}

impl CommandIds {
    pub fn new() -> (ids: CommandIds)
        ensures
            ids.next == 1,
    {
        CommandIds { next: 1 }
    }

    /// The id of the next command.
    pub fn take(&mut self) -> (id: u64)
        requires
            old(self).next < u64::MAX,
        ensures
            id == old(self).next,
            final(self).next == old(self).next + 1,
    {
        let id: u64 = self.next;
        self.next = id + 1;
        id
    }
}

/// The response to a command is never taken for another's: a frame that answers
/// one id answers no other.
pub proof fn a_frame_answers_one_command(frame: JsonView, a: u64, b: u64)
    requires
        response(frame, a) is Some,
        response(frame, b) is Some,
    ensures
        a == b,
{
}

/// An event carries no id, so no command takes it for its response.
pub proof fn an_event_answers_nothing(frame: JsonView, id: u64)
    requires
        frame.get("id"@) is None,
    ensures
        response(frame, id) is None,
{
}

/// A frame carries its id, its method and its parameters, and its session where it has
/// one.
pub proof fn a_frame_carries_all(
    id: u64,
    method: Seq<char>,
    params: JsonView,
    session_id: Option<Seq<char>>,
)
    ensures
        ({
            let f = frame(id, method, params, session_id);
            &&& f.unsigned_of("id"@) == Some(id)
            &&& f.text_of("method"@) == Some(method)
            &&& f.get("params"@) == Some(params)
            &&& f.text_of("sessionId"@) == session_id
        }),
{
    reveal_with_fuel(crate::json::member_from, 6);
    reveal_strlit("id");
    reveal_strlit("method");
    reveal_strlit("params");
    reveal_strlit("sessionId");
    assert("id"@.len() == 2 && "method"@.len() == 6 && "params"@.len() == 6 && "sessionId"@.len()
        == 9);
    assert("method"@[0] == 'm' && "params"@[0] == 'p');
}

/// The answer to a command is its result; a refusal is told with its code and its
/// message.
pub proof fn an_answer_is_its_result(id: u64, result: JsonView, code: i64, message: Seq<char>)
    requires
        code < 0,
    ensures
        response(
            JsonView::Object(
                seq![
                    ("id"@, JsonView::Number(NumberView::Positive(id))),
                    ("result"@, result),
                ],
            ),
            id,
        ) == Some(Ok::<JsonView, Fault>(result)),
        response(
            JsonView::Object(
                seq![
                    ("id"@, JsonView::Number(NumberView::Positive(id))),
                    (
                        "error"@,
                        JsonView::Object(
                            seq![
                                ("code"@, JsonView::Number(NumberView::Negative(code))),
                                ("message"@, JsonView::Text(message)),
                            ],
                        ),
                    ),
                ],
            ),
            id,
        ) == Some(Err::<JsonView, Fault>(Fault::Remote { code, message })),
{
    reveal_with_fuel(crate::json::member_from, 4);
    reveal_strlit("id");
    reveal_strlit("result");
    reveal_strlit("error");
    reveal_strlit("code");
    reveal_strlit("message");
    assert("id"@.len() == 2 && "result"@.len() == 6 && "error"@.len() == 5 && "code"@.len() == 4
        && "message"@.len() == 7);
}

} // verus!
