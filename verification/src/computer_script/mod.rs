//! A persistent JavaScript session that drives the desktop.
//!
//! The session is a `node` process talking to this side over a loopback
//! socket. A socket rather than the process's own stdin, because the host has
//! to answer host calls *while* the code is still running, and one pipe
//! cannot carry the code in and the answers back without the script blocking
//! on the descriptor the host is writing to.
use vstd::prelude::*;
use crate::computer_script::protocol::{
    failed_view, ok_view, FromRunner, Incoming, Outgoing, ToRunner,
};
use crate::encoding::{hex_of, to_hex};
use crate::json::{array_view, items_view, members_view, object_view, Json, JsonView};
use crate::random::{no_source, random_bytes, without_source};
use crate::text::{
    byte_len, count, decimal, join, join_with, number, opt_view, same, size, views, views_push,
};
use crate::{said, PermissionLevel, ToolResult};

pub mod ax;
pub mod host_ops;
pub mod protocol;

verus! {

/// The tool's name, which is also its permission-rule key.
pub const TOOL_NAME: &'static str = "computer_script";

/// What the tool offers. The runner defines the surface; this quotes it.
pub const DESCRIPTION: &'static str =
    "Run JavaScript against the real desktop in a session that stays alive between calls, so a variable set in one call is still there in the next. Use it when a task needs to look at the screen and act on what it sees within one turn. Top-level await is available. Assign without `let` or `const` to keep a value for the next call. Available: await screenshot() -> {width,height,mime_type,base64}; await displays(); await windows(); await cursor(); await move(x,y); await click(x,y,button?); await doubleClick(x,y); await drag(x1,y1,x2,y2); await type(text); await key('ctrl+c'); await scroll('down',3); await clipboard() / clipboard(text); await wait(ms); print(...) to report a value. The accessibility tree, which names every control the platform draws: await ax.focused(); await ax.tree(pid?,depth?); await ax.find({role,title,value,pid?,limit?}); await ax.get(handle,attr); await ax.set(handle,attr,value); await ax.press(handle). A find or tree returns nodes with an opaque handle you pass back to get, set and press. This tool reads no DOM; use the browser for a page.";

/// How long one call may run when it names no limit of its own.
pub const DEFAULT_TIMEOUT_SECS: u64 = 120;

/// The longest limit a call may ask for.
pub const MAX_TIMEOUT_SECS: u64 = 600;

pub struct ComputerScriptTool;

impl ComputerScriptTool {
    pub fn name(&self) -> (out: &'static str)
        ensures
            out@ == TOOL_NAME@,
    {
        TOOL_NAME
    }

    pub fn description(&self) -> (out: &'static str)
        ensures
            out@ == DESCRIPTION@,
    {
        DESCRIPTION
    }

    pub fn permission_level(&self) -> (out: PermissionLevel)
        ensures
            out == PermissionLevel::Dangerous,
    {
        PermissionLevel::Dangerous
    }

    /// Prompts for itself, like the other desktop tool.
    pub fn self_gates(&self) -> (out: bool)
        ensures
            out,
    {
        true
    }
}

/// How long a call may run: what it asks for, between a second and the maximum.
pub open spec fn limit(timeout: Option<u64>) -> u64 {
    match timeout {
        None => DEFAULT_TIMEOUT_SECS,
        Some(n) => if n < 1 {
            1
        } else if n > MAX_TIMEOUT_SECS {
            MAX_TIMEOUT_SECS
        } else {
            n
        },
    }
}

/// How long a call may run, in seconds.
pub fn limit_secs(timeout: Option<u64>) -> (out: u64)
    ensures
        out == limit(timeout),
        1 <= out <= MAX_TIMEOUT_SECS,
{
    match timeout {
        None => DEFAULT_TIMEOUT_SECS,
        Some(n) => if n < 1 {
            1
        } else if n > MAX_TIMEOUT_SECS {
            MAX_TIMEOUT_SECS
        } else {
            n
        },
    }
}

/// What the user is asked to allow.
pub fn permission_text(read_only: bool) -> (out: &'static str)
    ensures
        out@ == (if read_only {
            "computer_script: read the desktop"@
        } else {
            "computer_script: drive the desktop"@
        }),
{
    if read_only {
        "computer_script: read the desktop"
    } else {
        "computer_script: drive the desktop"
    }
}

// ---------------------------------------------------------------------------
// Connecting
// ---------------------------------------------------------------------------

/// How many random bytes a token is made of.
pub const TOKEN_BYTES: usize = 32;

/// The token that some random bytes make, or why there is none.
pub fn token_from(bytes: Result<Vec<u8>, String>) -> (r: Result<String, String>)
    ensures
        match (bytes, r) {
            (Ok(b), Ok(token)) => token@ == hex_of(b@) && token@.len() == 2 * b@.len(),
            (Err(e), Err(out)) => out@ == no_source(e@),
            _ => false,
        },
{
    match bytes {
        Ok(bytes) => Ok(to_hex(&bytes)),
        Err(e) => Err(without_source(&e)),
    }
}

/// A token the runner has to present, so nothing else on the machine can talk
/// to a listener that drives the desktop.
pub fn connect_token() -> (r: Result<String, String>)
    ensures
        r matches Ok(token) ==> token@.len() == 2 * TOKEN_BYTES && exists|bytes: Seq<u8>|
            bytes.len() == TOKEN_BYTES && token@ == #[trigger] hex_of(bytes),
        r matches Err(e) ==> exists|cause: Seq<char>| e@ == #[trigger] no_source(cause),
{
    token_from(random_bytes(TOKEN_BYTES))
}

/// Whether a first message is the runner's: a hello with the session's token.
pub open spec fn is_runner(first: Option<Incoming>, token: Seq<char>) -> bool {
    first == Some(Incoming::Hello { token })
}

/// Refuse anything that cannot name the token this session was started with.
pub fn accept_runner(first: &Option<FromRunner>, token: &str) -> (r: Result<(), String>)
    ensures
        match r {
            Ok(_) => is_runner(message_view(*first), token@),
            Err(e) => !is_runner(message_view(*first), token@) && e@
                == "something other than the runner connected to the bridge"@,
        },
{
    if let Some(FromRunner::Hello { token: given }) = first {
        if same(given, token) {
            return Ok(());
        }
    }
    Err("something other than the runner connected to the bridge".to_string())
}

/// What a line holds, where it holds a message.
pub open spec fn message_view(m: Option<FromRunner>) -> Option<Incoming> {
    match m {
        Some(m) => Some(m@),
        None => None,
    }
}

// ---------------------------------------------------------------------------
// One call
// ---------------------------------------------------------------------------

/// A finished call.
#[derive(Debug)]
pub struct CallOutcome {
    pub ok: bool,
    pub output: String,
    pub value: Json,
    pub error: Option<String>,
}

/// What a [`CallOutcome`] says.
#[verifier::ext_equal]
pub struct OutcomeView {
    pub ok: bool,
    pub output: Seq<char>,
    pub value: JsonView,
    pub error: Option<Seq<char>>,
}

impl View for CallOutcome {
    type V = OutcomeView;

    open spec fn view(&self) -> OutcomeView {
        OutcomeView {
            ok: self.ok,
            output: self.output@,
            value: self.value@,
            error: opt_view(self.error),
        }
    }
}

/// What reading the bridge gave.
#[derive(Debug)]
pub enum Event {
    /// The call's limit passed first.
    TimedOut,
    /// The read failed.
    ReadFailed(String),
    /// The other side closed.
    Closed,
    /// A line, with the message it holds, if it holds one.
    Line(Option<FromRunner>),
}

/// What to do next.
#[derive(Debug)]
pub enum Reaction {
    /// Read the next line.
    Wait,
    /// Answer a host call and go on.
    Answer { id: u64, op: String, args: Json },
    /// The call is over.
    Finish(CallOutcome),
    /// The call cannot go on.
    Fail(String),
}

/// What a [`Reaction`] says.
#[verifier::ext_equal]
pub enum ReactionView {
    Wait,
    Answer { id: u64, op: Seq<char>, args: JsonView },
    Finish(OutcomeView),
    Fail(Seq<char>),
}

impl View for Reaction {
    type V = ReactionView;

    open spec fn view(&self) -> ReactionView {
        match *self {
            Reaction::Wait => ReactionView::Wait,
            Reaction::Answer { id, op, args } => ReactionView::Answer {
                id,
                op: op@,
                args: args@,
            },
            Reaction::Finish(o) => ReactionView::Finish(o@),
            Reaction::Fail(e) => ReactionView::Fail(e@),
        }
    }
}

/// How the host reacts to what the bridge gave during call `call_id`. A line
/// that holds no message, a late hello, and the end of an earlier call are
/// passed over.
pub open spec fn reaction(call_id: u64, limit_secs: u64, event: Event) -> ReactionView {
    match event {
        Event::TimedOut => ReactionView::Fail(
            "the script did not finish within "@ + decimal(limit_secs as nat) + "s"@,
        ),
        Event::ReadFailed(e) => ReactionView::Fail("bridge read failed: "@ + e@),
        Event::Closed => ReactionView::Fail("the scripting session ended"@),
        Event::Line(m) => match message_view(m) {
            None => ReactionView::Wait,
            Some(Incoming::Hello { .. }) => ReactionView::Wait,
            Some(Incoming::Host { id, op, args }) => ReactionView::Answer { id, op, args },
            Some(Incoming::Done { id, ok, output, value, error }) => if id == call_id {
                ReactionView::Finish(OutcomeView { ok, output, value, error })
            } else {
                ReactionView::Wait
            },
        },
    }
}

/// How the host reacts to what the bridge gave.
pub fn react(call_id: u64, limit_secs: u64, event: Event) -> (r: Reaction)
    ensures
        r@ == reaction(call_id, limit_secs, event),
{
    match event {
        Event::TimedOut => {
            let mut e = "the script did not finish within ".to_string();
            let n = number(limit_secs);
            e.push_str(&n);
            e.push_str("s");
            Reaction::Fail(e)
        },
        Event::ReadFailed(cause) => {
            let mut e = "bridge read failed: ".to_string();
            e.push_str(&cause);
            Reaction::Fail(e)
        },
        Event::Closed => Reaction::Fail("the scripting session ended".to_string()),
        Event::Line(None) => Reaction::Wait,
        Event::Line(Some(m)) => match m {
            FromRunner::Hello { .. } => Reaction::Wait,
            FromRunner::Host { id, op, args } => Reaction::Answer { id, op, args },
            FromRunner::Done { id, ok, output, value, error } => {
                if id == call_id {
                    Reaction::Finish(CallOutcome { ok, output, value, error })
                } else {
                    Reaction::Wait
                }
            },
        },
    }
}

/// The end of an earlier call never ends this one.
pub proof fn a_stale_end_is_passed_over(call_id: u64, limit_secs: u64, m: FromRunner)
    requires
        m@ matches Incoming::Done { id, .. } && id != call_id,
    ensures
        reaction(call_id, limit_secs, Event::Line(Some(m))) == ReactionView::Wait,
{
}

// ---------------------------------------------------------------------------
// Host calls
// ---------------------------------------------------------------------------

/// Whether an op of either family changes the machine.
pub open spec fn is_writing(op: Seq<char>) -> bool {
    if ax::is_op(op) {
        ax::is_writing_op(op)
    } else {
        host_ops::is_writing_op(op)
    }
}

/// What an op that outlived the call is reported as. It names the op, not the script.
pub open spec fn overran(op: Seq<char>, limit_secs: u64) -> Seq<char> {
    "`"@ + op + "` did not answer within the call's "@ + decimal(limit_secs as nat)
        + "s; on macOS that is what an ungranted screen-recording or accessibility permission looks like"@
}

/// What happens to a host call before it is carried out.
#[derive(Debug)]
pub enum Gate {
    /// Answered at once, without touching the desktop.
    Refused(ToRunner),
    /// The call is over.
    Spent(String),
    /// To be carried out against the accessibility tree.
    Accessibility,
    /// To be carried out against the desktop.
    Desktop,
}

/// What a [`Gate`] says.
#[verifier::ext_equal]
pub enum GateView {
    Refused(Outgoing),
    Spent(Seq<char>),
    Accessibility,
    Desktop,
}

impl View for Gate {
    type V = GateView;

    open spec fn view(&self) -> GateView {
        match *self {
            Gate::Refused(m) => GateView::Refused(m@),
            Gate::Spent(e) => GateView::Spent(e@),
            Gate::Accessibility => GateView::Accessibility,
            Gate::Desktop => GateView::Desktop,
        }
    }
}

/// What happens to a host call before it is carried out. `read_only` is
/// enforced first, so a refusal is an answer even when the budget is spent; a
/// spent budget then ends the call, naming the op.
pub open spec fn gated(
    id: u64,
    op: Seq<char>,
    read_only: bool,
    spent: bool,
    limit_secs: u64,
) -> GateView {
    if read_only && is_writing(op) {
        GateView::Refused(failed_view(id, "read_only is set, so "@ + op + " is refused"@))
    } else if spent {
        GateView::Spent(overran(op, limit_secs))
    } else if ax::is_op(op) {
        GateView::Accessibility
    } else {
        GateView::Desktop
    }
}

fn overran_text(op: &str, limit_secs: u64) -> (e: String)
    ensures
        e@ == overran(op@, limit_secs),
{
    let mut e = "`".to_string();
    e.push_str(op);
    e.push_str("` did not answer within the call's ");
    let n = number(limit_secs);
    e.push_str(&n);
    e.push_str(
        "s; on macOS that is what an ungranted screen-recording or accessibility permission looks like",
    );
    e
}

/// What happens to a host call before it is carried out.
pub fn gate(id: u64, op: &str, read_only: bool, spent: bool, limit_secs: u64) -> (g: Gate)
    ensures
        g@ == gated(id, op@, read_only, spent, limit_secs),
{
    let writes = if ax::owns(op) {
        ax::writes(op)
    } else {
        host_ops::writes(op)
    };
    if read_only && writes {
        let mut e = "read_only is set, so ".to_string();
        e.push_str(op);
        e.push_str(" is refused");
        return Gate::Refused(ToRunner::failed(id, e));
    }
    if spent {
        return Gate::Spent(overran_text(op, limit_secs));
    }
    if ax::owns(op) {
        Gate::Accessibility
    } else {
        Gate::Desktop
    }
}

/// How a carried-out op ended.
#[derive(Debug)]
pub enum Carried {
    /// The call's limit passed first.
    TimedOut,
    /// The thread that ran an accessibility op did not finish.
    Lost(String),
    /// It answered.
    Answered(Json),
    /// It failed, which the script can catch.
    Failed(String),
}

/// What a host call is answered with. An error ends the call; a failed op is an
/// answer the script can catch, because the session is still healthy.
pub open spec fn answered(id: u64, op: Seq<char>, limit_secs: u64, carried: Carried) -> Result<
    Outgoing,
    Seq<char>,
> {
    match carried {
        Carried::TimedOut => Err(overran(op, limit_secs)),
        Carried::Lost(e) => Err("the accessibility call did not finish: "@ + e@),
        Carried::Answered(v) => Ok(ok_view(id, v@)),
        Carried::Failed(e) => Ok(failed_view(id, e@)),
    }
}

/// What a host call is answered with.
pub fn answer(id: u64, op: &str, limit_secs: u64, carried: Carried) -> (r: Result<ToRunner, String>)
    ensures
        match r {
            Ok(m) => answered(id, op@, limit_secs, carried) == Ok::<Outgoing, Seq<char>>(m@),
            Err(e) => answered(id, op@, limit_secs, carried) == Err::<Outgoing, Seq<char>>(e@),
        },
{
    match carried {
        Carried::TimedOut => Err(overran_text(op, limit_secs)),
        Carried::Lost(cause) => {
            let mut e = "the accessibility call did not finish: ".to_string();
            e.push_str(&cause);
            Err(e)
        },
        Carried::Answered(v) => Ok(ToRunner::ok(id, v)),
        Carried::Failed(e) => Ok(ToRunner::failed(id, e)),
    }
}

/// With `read_only` set, no op that changes the machine is ever carried out.
pub proof fn read_only_carries_out_no_write(
    id: u64,
    op: Seq<char>,
    spent: bool,
    limit_secs: u64,
)
    requires
        ax::is_writing_op(op) || (host_ops::is_writing_op(op) && !ax::is_op(op)),
    ensures
        gated(id, op, true, spent, limit_secs) is Refused,
{
}

/// An op is only carried out while the call has time left.
pub proof fn nothing_runs_past_the_limit(id: u64, op: Seq<char>, read_only: bool, limit_secs: u64)
    ensures
        gated(id, op, read_only, true, limit_secs) is Refused || gated(
            id,
            op,
            read_only,
            true,
            limit_secs,
        ) is Spent,
{
}

// ---------------------------------------------------------------------------
// A whole call
// ---------------------------------------------------------------------------

/// The ids of a session's calls: each call takes the next.
#[derive(Debug)]
pub struct CallIds {
    pub next: u64,
}

impl CallIds {
    pub fn new() -> (ids: CallIds)
        ensures
            ids.next == 1,
    {
        CallIds { next: 1 }
    }

    /// The id of the next call, one more than that of the call before it.
    pub fn take(&mut self) -> (id: u64)
        requires
            old(self).next < u64::MAX,
        ensures
            id == old(self).next,
            final(self).next == old(self).next + 1,
    {
        let id: u64 = self.next;
        self.next = id + 1;
        id
    }
}

/// One read of the bridge during a call, with what a host call that it gave came
/// to: whether the call's time was spent by then, how the op ended where it was
/// carried out, and why the answer could not be written, if it could not.
#[verifier::ext_equal]
pub struct Turn {
    pub event: Event,
    pub spent: bool,
    pub carried: Carried,
    pub unwritten: Option<Seq<char>>,
}

/// What a host call is answered with, or why the call is over: a refusal or a spent
/// budget first, else what carrying the op out gave.
pub open spec fn replied(
    id: u64,
    op: Seq<char>,
    read_only: bool,
    limit_secs: u64,
    turn: Turn,
) -> Result<Outgoing, Seq<char>> {
    match gated(id, op, read_only, turn.spent, limit_secs) {
        GateView::Refused(m) => Ok(m),
        GateView::Spent(e) => Err(e),
        _ => answered(id, op, limit_secs, turn.carried),
    }
}

/// A call under way: the answers written to the runner, and how the call ended, if
/// it has.
#[verifier::ext_equal]
pub struct CallView {
    pub sent: Seq<Outgoing>,
    pub end: Option<Result<OutcomeView, Seq<char>>>,
}

/// What one turn writes to the runner and whether it ends the call.
pub open spec fn turned(call_id: u64, limit_secs: u64, read_only: bool, turn: Turn) -> CallView {
    match reaction(call_id, limit_secs, turn.event) {
        ReactionView::Wait => CallView { sent: seq![], end: None },
        ReactionView::Finish(o) => CallView { sent: seq![], end: Some(Ok(o)) },
        ReactionView::Fail(e) => CallView { sent: seq![], end: Some(Err(e)) },
        ReactionView::Answer { id, op, args } => match replied(id, op, read_only, limit_secs, turn) {
            Err(e) => CallView { sent: seq![], end: Some(Err(e)) },
            Ok(m) => match turn.unwritten {
                Some(e) => CallView { sent: seq![], end: Some(Err(e)) },
                None => CallView { sent: seq![m], end: None },
            },
        },
    }
}

/// A call after its turns. Nothing is read or written once it has ended.
pub open spec fn call_after(
    call_id: u64,
    limit_secs: u64,
    read_only: bool,
    turns: Seq<Turn>,
) -> CallView
    decreases turns.len(),
{
    if turns.len() == 0 {
        CallView { sent: seq![], end: None }
    } else {
        let before = call_after(call_id, limit_secs, read_only, turns.drop_last());
        if before.end is Some {
            before
        } else {
            let now = turned(call_id, limit_secs, read_only, turns.last());
            CallView { sent: before.sent + now.sent, end: now.end }
        }
    }
}

/// Whether a turn gave the end of call `call_id`, with that outcome.
pub open spec fn is_end_of(call_id: u64, turn: Turn, o: OutcomeView) -> bool {
    turn.event matches Event::Line(m) && message_view(m) == Some(
        Incoming::Done { id: call_id, ok: o.ok, output: o.output, value: o.value, error: o.error },
    )
}

/// The host call that a turn gave, if it gave one.
pub open spec fn host_call(turn: Turn) -> Option<u64> {
    match turn.event {
        Event::Line(m) => match message_view(m) {
            Some(Incoming::Host { id, op, args }) => Some(id),
            _ => None,
        },
        _ => None,
    }
}

/// The ids of the host calls that some turns gave, in order.
pub open spec fn host_calls(turns: Seq<Turn>) -> Seq<u64>
    decreases turns.len(),
{
    if turns.len() == 0 {
        seq![]
    } else {
        match host_call(turns.last()) {
            Some(id) => host_calls(turns.drop_last()).push(id),
            None => host_calls(turns.drop_last()),
        }
    }
}

/// The host calls that some messages answer, in order.
pub open spec fn answers_to(sent: Seq<Outgoing>) -> Seq<u64> {
    Seq::new(sent.len(), |i: int| sent[i]->HostResult_id)
}

/// The answer to a host call carries that call's id, whatever came of the op.
pub proof fn an_answer_names_its_call(
    id: u64,
    op: Seq<char>,
    read_only: bool,
    limit_secs: u64,
    turn: Turn,
)
    ensures
        replied(id, op, read_only, limit_secs, turn) matches Ok(m) ==> m is HostResult
            && m->HostResult_id == id,
{
}

/// While a call goes on, no turn so far was an end, and every host call so far has
/// exactly one answer, in the order in which they came and under their own ids.
pub proof fn every_host_call_is_answered_once(
    call_id: u64,
    limit_secs: u64,
    read_only: bool,
    turns: Seq<Turn>,
)
    requires
        call_after(call_id, limit_secs, read_only, turns).end is None,
    ensures
        forall|j: int|
            0 <= j < turns.len() ==> turned(
                call_id,
                limit_secs,
                read_only,
                #[trigger] turns[j],
            ).end is None,
        answers_to(call_after(call_id, limit_secs, read_only, turns).sent) == host_calls(turns),
        forall|i: int|
            0 <= i < call_after(call_id, limit_secs, read_only, turns).sent.len() ==> (
            #[trigger] call_after(call_id, limit_secs, read_only, turns).sent[i]) is HostResult,
    decreases turns.len(),
{
    if turns.len() > 0 {
        let earlier = turns.drop_last();
        let before = call_after(call_id, limit_secs, read_only, earlier);
        let now = turned(call_id, limit_secs, read_only, turns.last());
        every_host_call_is_answered_once(call_id, limit_secs, read_only, earlier);
        assert forall|j: int| 0 <= j < turns.len() implies turned(
            call_id,
            limit_secs,
            read_only,
            #[trigger] turns[j],
        ).end is None by {
            if j < earlier.len() {
                assert(earlier[j] == turns[j]);
            }
        }
        let after = call_after(call_id, limit_secs, read_only, turns);
        assert(after.sent == before.sent + now.sent);
        assert(answers_to(after.sent) =~= answers_to(before.sent) + answers_to(now.sent));
        match host_call(turns.last()) {
            Some(id) => {
                assert(now.sent.len() == 1);
                assert(answers_to(now.sent) =~= seq![id]);
                assert(host_calls(turns) =~= host_calls(earlier) + seq![id]);
            },
            None => {
                assert(now.sent =~= seq![]);
                assert(answers_to(now.sent) =~= seq![]);
            },
        }
        assert forall|i: int| 0 <= i < after.sent.len() implies (
        #[trigger] after.sent[i]) is HostResult by {
            if i < before.sent.len() {
                assert(before.sent[i] is HostResult);
            }
        }
    }
}

/// A call ends at its first end and not before: there is a turn that ends it in
/// that way, no turn before it is an end, and what was written is what answers the
/// host calls before it.
pub proof fn a_call_ends_at_its_first_end(
    call_id: u64,
    limit_secs: u64,
    read_only: bool,
    turns: Seq<Turn>,
)
    ensures
        (call_after(call_id, limit_secs, read_only, turns).end is Some) == (exists|k: int|
            0 <= k < turns.len() && turned(
                call_id,
                limit_secs,
                read_only,
                #[trigger] turns[k],
            ).end is Some),
        call_after(call_id, limit_secs, read_only, turns).end is Some ==> exists|k: int|
            0 <= k < turns.len() && turned(call_id, limit_secs, read_only, #[trigger] turns[k]).end
                == call_after(call_id, limit_secs, read_only, turns).end && (forall|j: int|
                0 <= j < k ==> turned(
                    call_id,
                    limit_secs,
                    read_only,
                    #[trigger] turns[j],
                ).end is None) && answers_to(call_after(call_id, limit_secs, read_only, turns).sent)
                == host_calls(turns.take(k)),
    decreases turns.len(),
{
    if turns.len() > 0 {
        let earlier = turns.drop_last();
        let last = turns.len() - 1;
        let after = call_after(call_id, limit_secs, read_only, turns);
        assert(forall|j: int| 0 <= j < last ==> #[trigger] turns[j] == earlier[j]);
        a_call_ends_at_its_first_end(call_id, limit_secs, read_only, earlier);
        let before = call_after(call_id, limit_secs, read_only, earlier);
        if before.end is Some {
            let k = choose|k: int|
                0 <= k < earlier.len() && turned(
                    call_id,
                    limit_secs,
                    read_only,
                    #[trigger] earlier[k],
                ).end == before.end && (forall|j: int|
                    0 <= j < k ==> turned(
                        call_id,
                        limit_secs,
                        read_only,
                        #[trigger] earlier[j],
                    ).end is None) && answers_to(before.sent) == host_calls(earlier.take(k));
            assert(turns[k] == earlier[k]);
            assert(turns.take(k) =~= earlier.take(k));
        } else {
            every_host_call_is_answered_once(call_id, limit_secs, read_only, earlier);
            assert(turns[last] == turns.last());
            let now = turned(call_id, limit_secs, read_only, turns[last]);
            if now.end is Some {
                assert(now.sent =~= seq![]);
                assert(after.sent =~= before.sent);
                assert(turns.take(last) =~= earlier);
            } else {
                every_host_call_is_answered_once(call_id, limit_secs, read_only, turns);
            }
        }
    }
}

/// A call's outcome is that of the first end that carries its id: late ends of
/// earlier calls, lines that hold no message and late hellos never decide it, and
/// nothing that fails the call came before it.
pub proof fn a_call_reports_its_own_end(
    call_id: u64,
    limit_secs: u64,
    read_only: bool,
    turns: Seq<Turn>,
    o: OutcomeView,
)
    ensures
        (call_after(call_id, limit_secs, read_only, turns).end == Some(
            Ok::<OutcomeView, Seq<char>>(o),
        )) == (exists|k: int|
            0 <= k < turns.len() && is_end_of(call_id, #[trigger] turns[k], o) && (forall|j: int|
                0 <= j < k ==> turned(
                    call_id,
                    limit_secs,
                    read_only,
                    #[trigger] turns[j],
                ).end is None)),
{
    let after = call_after(call_id, limit_secs, read_only, turns);
    a_call_ends_at_its_first_end(call_id, limit_secs, read_only, turns);
    if after.end == Some(Ok::<OutcomeView, Seq<char>>(o)) {
        let k = choose|k: int|
            0 <= k < turns.len() && turned(call_id, limit_secs, read_only, #[trigger] turns[k]).end
                == after.end && (forall|j: int|
                0 <= j < k ==> turned(
                    call_id,
                    limit_secs,
                    read_only,
                    #[trigger] turns[j],
                ).end is None) && answers_to(after.sent) == host_calls(turns.take(k));
        assert(is_end_of(call_id, turns[k], o));
    }
    if exists|k: int|
        0 <= k < turns.len() && is_end_of(call_id, #[trigger] turns[k], o) && (forall|j: int|
            0 <= j < k ==> turned(call_id, limit_secs, read_only, #[trigger] turns[j]).end is None) {
        let k = choose|k: int|
            0 <= k < turns.len() && is_end_of(call_id, #[trigger] turns[k], o) && (forall|j: int|
                0 <= j < k ==> turned(
                    call_id,
                    limit_secs,
                    read_only,
                    #[trigger] turns[j],
                ).end is None);
        assert(turned(call_id, limit_secs, read_only, turns[k]).end == Some(
            Ok::<OutcomeView, Seq<char>>(o),
        ));
        let first = choose|first: int|
            0 <= first < turns.len() && turned(
                call_id,
                limit_secs,
                read_only,
                #[trigger] turns[first],
            ).end == after.end && (forall|j: int|
                0 <= j < first ==> turned(
                    call_id,
                    limit_secs,
                    read_only,
                    #[trigger] turns[j],
                ).end is None) && answers_to(after.sent) == host_calls(turns.take(first));
        assert(first == k) by {
            if first < k {
                assert(turned(call_id, limit_secs, read_only, turns[first]).end is None);
            }
            if k < first {
                assert(turned(call_id, limit_secs, read_only, turns[k]).end is None);
            }
        }
    }
}

// ---------------------------------------------------------------------------
// Reporting
// ---------------------------------------------------------------------------

/// A value with each base64 payload replaced by a note of its size.
pub open spec fn without_base64(v: JsonView) -> JsonView
    decreases v,
{
    match v {
        JsonView::Object(members) => JsonView::Object(
            Seq::new(
                members.len(),
                |i: int|
                    if 0 <= i < members.len() {
                        (
                            members[i].0,
                            if members[i].0 == "base64"@ {
                                payload_note(members[i].1)
                            } else {
                                without_base64(members[i].1)
                            },
                        )
                    } else {
                        (seq![], JsonView::Null)
                    },
            ),
        ),
        JsonView::Array(items) => JsonView::Array(
            Seq::new(
                items.len(),
                |i: int|
                    if 0 <= i < items.len() {
                        without_base64(items[i])
                    } else {
                        JsonView::Null
                    },
            ),
        ),
        other => other,
    }
}

/// What stands for a payload: its size in bytes, none where it is no text.
pub open spec fn payload_note(v: JsonView) -> JsonView {
    JsonView::Text(
        "<"@ + decimal(
            match v.text() {
                Some(s) => byte_len(s),
                None => 0,
            },
        ) + " base64 characters>"@,
    )
}

fn note_of(v: &Json) -> (out: Json)
    ensures
        out@ == payload_note(v@),
{
    let length: usize = match v.as_str() {
        Some(s) => size(s),
        None => 0,
    };
    let mut s = "<".to_string();
    let n = count(length);
    s.push_str(&n);
    s.push_str(" base64 characters>");
    Json::Text(s)
}

/// A returned value, with a screenshot's payload left out.
///
/// A base64 image is hundreds of kilobytes and the model cannot read it as
/// text; the shape around it is what says the capture worked.
pub fn strip_base64(value: &Json) -> (out: Json)
    ensures
        out@ == without_base64(value@),
    decreases *value,
{
    match value {
        Json::Object(members) => {
            let mut out: Vec<(String, Json)> = Vec::new();
            let mut i: usize = 0;
            let ghost expected = without_base64(value@)->Object_0;
            proof {
                object_view(*members);
            }
            while i < members.len()
                invariant
                    i <= members@.len(),
                    *value == Json::Object(*members),
                    value@ == JsonView::Object(members_view(members@)),
                    expected == without_base64(value@)->Object_0,
                    expected.len() == members@.len(),
                    out@.len() == i,
                    forall|k: int|
                        0 <= k < i ==> (#[trigger] out@[k]).0@ == expected[k].0 && out@[k].1@
                            == expected[k].1,
                decreases members.len() - i,
            {
                assert(decreases_to!(*value => value->Object_0@[i as int].1));
                assert(members_view(members@)[i as int] == (
                    members@[i as int].0@,
                    members@[i as int].1@,
                ));
                let inner = if same(&members[i].0, "base64") {
                    note_of(&members[i].1)
                } else {
                    strip_base64(&members[i].1)
                };
                out.push((members[i].0.clone(), inner));
                i += 1;
            }
            proof {
                object_view(out);
                assert(members_view(out@) =~= expected);
            }
            Json::Object(out)
        },
        Json::Array(items) => {
            let mut out: Vec<Json> = Vec::new();
            let mut i: usize = 0;
            let ghost expected = without_base64(value@)->Array_0;
            proof {
                array_view(*items);
            }
            while i < items.len()
                invariant
                    i <= items@.len(),
                    *value == Json::Array(*items),
                    value@ == JsonView::Array(items_view(items@)),
                    expected == without_base64(value@)->Array_0,
                    expected.len() == items@.len(),
                    out@.len() == i,
                    forall|k: int| 0 <= k < i ==> (#[trigger] out@[k])@ == expected[k],
                decreases items.len() - i,
            {
                assert(decreases_to!(*value => value->Array_0@[i as int]));
                assert(items_view(items@)[i as int] == items@[i as int]@);
                out.push(strip_base64(&items[i]));
                i += 1;
            }
            proof {
                array_view(out);
                assert(items_view(out@) =~= expected);
            }
            Json::Array(out)
        },
        other => other.copy(),
    }
}

/// What a call printed and gave back: the output if there is any, and the value
/// if it is not null.
pub open spec fn report_parts(o: OutcomeView, rendered: Seq<char>) -> Seq<Seq<char>> {
    let printed = if o.output.len() > 0 {
        seq![o.output]
    } else {
        seq![]
    };
    if o.value == JsonView::Null {
        printed
    } else {
        printed.push("=> "@ + rendered)
    }
}

/// What the model reads of a finished call.
pub open spec fn reported(o: OutcomeView, rendered: Seq<char>) -> crate::ResultView {
    let parts = report_parts(o, rendered);
    if o.ok {
        said(
            if parts.len() == 0 {
                "(no output)"@
            } else {
                join(parts, "\n"@)
            },
            false,
        )
    } else {
        let cause = match o.error {
            Some(e) => e,
            None => "the script failed"@,
        };
        said(join(parts.push(cause), "\n"@), true)
    }
}

/// Turn a finished call into what the model reads. `rendered` is the value's
/// text, with its payloads left out; it is only read where the value is not null.
pub fn report(outcome: &CallOutcome, rendered: &str) -> (r: ToolResult)
    ensures
        r@ == reported(outcome@, rendered@),
{
    broadcast use views_push;

    let mut parts: Vec<String> = Vec::new();
    assert(views(parts@) =~= seq![]);
    if !outcome.output.as_str().is_empty() {
        parts.push(outcome.output.clone());
    }
    if !outcome.value.is_null() {
        let mut part = "=> ".to_string();
        part.push_str(rendered);
        parts.push(part);
    }
    assert(views(parts@) =~= report_parts(outcome@, rendered@));
    if outcome.ok {
        if parts.len() == 0 {
            return ToolResult::success("(no output)".to_string());
        }
        ToolResult::success(join_with(&parts, "\n"))
    } else {
        let cause = match &outcome.error {
            Some(e) => e.clone(),
            None => "the script failed".to_string(),
        };
        parts.push(cause);
        ToolResult::error(join_with(&parts, "\n"))
    }
}

/// A call runs for as long as it asks to, from one second to ten minutes.
pub proof fn a_limit_is_within_bounds(timeout: Option<u64>)
    ensures
        1 <= limit(timeout) <= 600,
        timeout is Some && 1 <= timeout->0 <= 600 ==> limit(timeout) == timeout->0,
        timeout is Some && timeout->0 > 600 ==> limit(timeout) == 600,
        timeout == Some(0u64) ==> limit(timeout) == 1,
        timeout is None ==> limit(timeout) == 120,
{
}

/// Of a value that is shown only the base64 payloads are left out: every other member
/// and every item stays, under its name and in its place, and a payload is told by its
/// size.
pub proof fn only_payloads_are_left_out(v: JsonView)
    ensures
        v matches JsonView::Object(members) ==> {
            let shown = without_base64(v)->Object_0;
            &&& without_base64(v) is Object
            &&& shown.len() == members.len()
            &&& forall|i: int|
                0 <= i < members.len() ==> (#[trigger] shown[i]).0 == members[i].0 && (
                members[i].0 != "base64"@ ==> shown[i].1 == without_base64(members[i].1)) && (
                members[i].0 == "base64"@ && members[i].1 is Text ==> shown[i].1 == JsonView::Text(
                    "<"@ + decimal(byte_len(members[i].1->Text_0)) + " base64 characters>"@,
                ))
        },
        v matches JsonView::Array(items) ==> {
            let shown = without_base64(v)->Array_0;
            &&& without_base64(v) is Array
            &&& shown.len() == items.len()
            &&& forall|i: int|
                0 <= i < items.len() ==> #[trigger] shown[i] == without_base64(items[i])
        },
        !(v is Object) && !(v is Array) ==> without_base64(v) == v,
{
}

/// A call is reported with what it printed, then what it came to, then what went wrong
/// where it failed; and it is an error where, and only where, it failed.
pub proof fn a_report_tells_all(o: OutcomeView, rendered: Seq<char>)
    ensures
        reported(o, rendered).is_error == !o.ok,
        o.ok && o.output.len() > 0 && o.value != JsonView::Null ==> reported(o, rendered).content
            == o.output + "\n"@ + ("=> "@ + rendered),
        o.ok && o.output.len() > 0 && o.value == JsonView::Null ==> reported(o, rendered).content
            == o.output,
        o.ok && o.output.len() == 0 && o.value != JsonView::Null ==> reported(o, rendered).content
            == "=> "@ + rendered,
        !o.ok && o.output.len() == 0 && o.value == JsonView::Null ==> reported(o, rendered).content
            == (match o.error {
            Some(e) => e,
            None => "the script failed"@,
        }),
        !o.ok && o.output.len() > 0 && o.value == JsonView::Null && o.error is Some ==> reported(
            o,
            rendered,
        ).content == o.output + "\n"@ + o.error->0,
{
    reveal_with_fuel(join, 4);
    let parts = report_parts(o, rendered);
    let value = "=> "@ + rendered;
    if o.output.len() > 0 && o.value != JsonView::Null {
        assert(parts =~= seq![o.output, value]);
        assert(parts.drop_last() =~= seq![o.output]);
    }
    let cause = match o.error {
        Some(e) => e,
        None => "the script failed"@,
    };
    if o.output.len() == 0 && o.value == JsonView::Null {
        assert(parts.push(cause) =~= seq![cause]);
    }
    if o.output.len() > 0 && o.value == JsonView::Null {
        assert(parts.push(cause) =~= seq![o.output, cause]);
        assert(parts.push(cause).drop_last() =~= seq![o.output]);
    }
    if o.output.len() == 0 && o.value != JsonView::Null {
        assert(parts =~= seq![value]);
    }
}

} // verus!
