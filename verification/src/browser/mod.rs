//! The `browser` tool: drive a real browser over the DevTools Protocol.
//!
//! One browser, many named tabs. A tab is created by name with `open`, scripted
//! with `run`, photographed with `screenshot`, and dropped with `close`. Tabs
//! outlive a single call: the DevTools target stays in the browser after the
//! socket closes, so a name is stored as a target id and every call reconnects
//! and re-attaches by that id. The protocol framing lives in [`cdp`]; here an
//! action becomes the right sequence of commands.
use vstd::prelude::*;
use crate::browser::cdp::{CdpError, Fault};
use crate::json::{
    members_view, object_view, opt_json, Json, JsonNumber, JsonView, NumberView,
};
use crate::table;
use crate::table::lists;
use crate::text::{
    count, decimal, byte_len, opt_view, quote, quoted, same, size, strip_back, trim_back,
};
use crate::PermissionLevel;

pub mod cdp;

verus! {

pub struct BrowserTool;

impl BrowserTool {
    pub fn name(&self) -> (out: &'static str)
        ensures
            out@ == "browser"@,
    {
        "browser"
    }

    /// A live browser session reaches every page it opens, including logged-in
    /// ones, so it sits at the same level as the desktop tools.
    pub fn permission_level(&self) -> (out: PermissionLevel)
        ensures
            out == PermissionLevel::Dangerous,
    {
        PermissionLevel::Dangerous
    }
}

/// A tool-level failure, separate from [`CdpError`] so a usage mistake reads
/// differently from a browser fault.
#[derive(Debug)]
pub enum BrowserFailure {
    Usage(String),
    UnknownTab(String),
    NoBrowser(String),
    Cdp(CdpError),
    PageException(String),
}

/// What a [`BrowserFailure`] says.
#[verifier::ext_equal]
pub enum Failure {
    Usage(Seq<char>),
    UnknownTab(Seq<char>),
    NoBrowser(Seq<char>),
    Cdp(Fault),
    PageException(Seq<char>),
}

impl View for BrowserFailure {
    type V = Failure;

    open spec fn view(&self) -> Failure {
        match *self {
            BrowserFailure::Usage(s) => Failure::Usage(s@),
            BrowserFailure::UnknownTab(s) => Failure::UnknownTab(s@),
            BrowserFailure::NoBrowser(s) => Failure::NoBrowser(s@),
            BrowserFailure::Cdp(e) => Failure::Cdp(e@),
            BrowserFailure::PageException(s) => Failure::PageException(s@),
        }
    }
}

/// The text of a failure.
pub open spec fn failure_text(f: Failure) -> Seq<char> {
    match f {
        Failure::Usage(s) => s,
        Failure::UnknownTab(tab) => "no tab named "@ + quoted(tab) + " is open; open it first"@,
        Failure::NoBrowser(s) => "could not reach a browser: "@ + s,
        Failure::Cdp(e) => cdp::fault_text(e),
        Failure::PageException(s) => "the page raised an exception: "@ + s,
    }
}

impl BrowserFailure {
    /// The failure as it is shown.
    pub fn text(&self) -> (out: String)
        ensures
            out@ == failure_text(self@),
    {
        match self {
            BrowserFailure::Usage(s) => s.clone(),
            BrowserFailure::UnknownTab(tab) => {
                let mut out = "no tab named ".to_string();
                let name = quote(tab);
                out.push_str(&name);
                out.push_str(" is open; open it first");
                out
            },
            BrowserFailure::NoBrowser(s) => {
                let mut out = "could not reach a browser: ".to_string();
                out.push_str(s);
                out
            },
            BrowserFailure::Cdp(e) => e.text(),
            BrowserFailure::PageException(s) => {
                let mut out = "the page raised an exception: ".to_string();
                out.push_str(s);
                out
            },
        }
    }
}

// ---------------------------------------------------------------------------
// Tabs
// ---------------------------------------------------------------------------

/// Named tabs: tab name to CDP target id. The id is stable in the browser
/// regardless of which client is attached.
pub struct Tabs {
    table: dashmap::DashMap<String, String>,
}

impl View for Tabs {
    type V = Map<Seq<char>, Seq<char>>;

    closed spec fn view(&self) -> Map<Seq<char>, Seq<char>> {
        table::contents(self.table)
    }
}

impl Tabs {
    /// No tab is open.
    pub fn new() -> (tabs: Tabs)
        ensures
            tabs@ == Map::<Seq<char>, Seq<char>>::empty(),
    {
        let tabs = Tabs { table: table::empty() };
        assert(tabs@ =~= Map::<Seq<char>, Seq<char>>::empty());
        tabs
    }

    /// Remember a tab by name.
    pub fn remember(&mut self, tab: &str, target_id: &str)
        ensures
            final(self)@ == old(self)@.insert(tab@, target_id@),
    {
        table::insert(&mut self.table, tab, target_id);
    }

    /// Forget a tab.
    pub fn forget(&mut self, tab: &str) -> (known: bool)
        ensures
            final(self)@ == old(self)@.remove(tab@),
            known == old(self)@.dom().contains(tab@),
    {
        table::remove(&mut self.table, tab)
    }

    /// The CDP target id a tab name stands for, or an error naming the tab.
    pub fn target_for(&self, tab: &str) -> (r: Result<String, BrowserFailure>)
        ensures
            match r {
                Ok(id) => self@.dom().contains(tab@) && self@[tab@] == id@,
                Err(e) => !self@.dom().contains(tab@) && e@ == Failure::UnknownTab(tab@),
            },
    {
        match table::get(&self.table, tab) {
            Some(id) => Ok(id),
            None => Err(BrowserFailure::UnknownTab(tab.to_string())),
        }
    }

    /// The tabs that a `close` acts on, with their targets: every one, in no
    /// particular order, or the named one.
    pub fn closing(&self, tab: &str, all: bool) -> (r: Result<Vec<(String, String)>, BrowserFailure>)
        ensures
            match r {
                Ok(v) => if all {
                    lists(v@, self@)
                } else {
                    self@.dom().contains(tab@) && v@.len() == 1 && v@[0].0@ == tab@ && v@[0].1@
                        == self@[tab@]
                },
                Err(e) => !all && !self@.dom().contains(tab@) && e@ == Failure::UnknownTab(tab@),
            },
    {
        if all {
            return Ok(table::pairs(&self.table));
        }
        match self.target_for(tab) {
            Ok(id) => {
                let mut v: Vec<(String, String)> = Vec::new();
                v.push((tab.to_string(), id));
                Ok(v)
            },
            Err(e) => Err(e),
        }
    }
}

/// A tab that was remembered is found under its name, and no other name changes.
pub proof fn a_remembered_tab_is_found(
    tabs: Map<Seq<char>, Seq<char>>,
    tab: Seq<char>,
    target: Seq<char>,
    other: Seq<char>,
)
    ensures
        tabs.insert(tab, target)[tab] == target,
        other != tab ==> (tabs.insert(tab, target).dom().contains(other) <==> tabs.dom().contains(
            other,
        )),
        other != tab && tabs.dom().contains(other) ==> tabs.insert(tab, target)[other]
            == tabs[other],
{
}

// ---------------------------------------------------------------------------
// Actions
// ---------------------------------------------------------------------------

/// What the tool was asked to do.
#[derive(Debug)]
pub struct BrowserInput {
    /// One of open, run, screenshot, close.
    pub action: String,
    /// The tab this action targets. Defaults to "default".
    pub name: Option<String>,
    /// open: the URL to load.
    pub url: Option<String>,
    /// open: the viewport size, width and height in CSS pixels.
    pub viewport: Option<(u32, u32)>,
    /// run: the JavaScript to evaluate in the page, top-level `await` allowed.
    pub code: Option<String>,
    /// close: when true, close every tab instead of the named one.
    pub all: bool,
}

/// What is to be done, once what needs no browser has been settled.
#[derive(Debug)]
pub enum Plan {
    Open { tab: String, url: String, viewport: Option<(u32, u32)> },
    Run { tab: String, target_id: String, code: String },
    Screenshot { tab: String, target_id: String },
    Close { tab: String, all: bool },
}

/// What a [`Plan`] says.
#[verifier::ext_equal]
pub enum PlanView {
    Open { tab: Seq<char>, url: Seq<char>, viewport: Option<(u32, u32)> },
    Run { tab: Seq<char>, target_id: Seq<char>, code: Seq<char> },
    Screenshot { tab: Seq<char>, target_id: Seq<char> },
    Close { tab: Seq<char>, all: bool },
}

impl View for Plan {
    type V = PlanView;

    open spec fn view(&self) -> PlanView {
        match *self {
            Plan::Open { tab, url, viewport } => PlanView::Open { tab: tab@, url: url@, viewport },
            Plan::Run { tab, target_id, code } => PlanView::Run {
                tab: tab@,
                target_id: target_id@,
                code: code@,
            },
            Plan::Screenshot { tab, target_id } => PlanView::Screenshot {
                tab: tab@,
                target_id: target_id@,
            },
            Plan::Close { tab, all } => PlanView::Close { tab: tab@, all },
        }
    }
}

/// The tab an input names.
pub open spec fn tab_of(input: BrowserInput) -> Seq<char> {
    match input.name {
        Some(name) => name@,
        None => "default"@,
    }
}

/// The target of the tab an input names, or the failure that it is not open.
pub open spec fn target(tabs: Map<Seq<char>, Seq<char>>, tab: Seq<char>) -> Result<
    Seq<char>,
    Failure,
> {
    if tabs.dom().contains(tab) {
        Ok(tabs[tab])
    } else {
        Err(Failure::UnknownTab(tab))
    }
}

/// What an input asks for. A usage mistake and a tab that is not open are caught
/// here, before any browser is reached.
pub open spec fn planned(input: BrowserInput, tabs: Map<Seq<char>, Seq<char>>) -> Result<
    PlanView,
    Failure,
> {
    let tab = tab_of(input);
    if input.action@ == "open"@ {
        Ok(
            PlanView::Open {
                tab,
                url: match input.url {
                    Some(url) => url@,
                    None => "about:blank"@,
                },
                viewport: input.viewport,
            },
        )
    } else if input.action@ == "run"@ {
        match input.code {
            None => Err(Failure::Usage("run needs `code`: the JavaScript to evaluate"@)),
            Some(code) => match target(tabs, tab) {
                Ok(target_id) => Ok(PlanView::Run { tab, target_id, code: code@ }),
                Err(e) => Err(e),
            },
        }
    } else if input.action@ == "screenshot"@ {
        match target(tabs, tab) {
            Ok(target_id) => Ok(PlanView::Screenshot { tab, target_id }),
            Err(e) => Err(e),
        }
    } else if input.action@ == "close"@ {
        Ok(PlanView::Close { tab, all: input.all })
    } else {
        Err(
            Failure::Usage(
                "unknown action "@ + quoted(input.action@)
                    + "; use open, run, screenshot or close"@,
            ),
        )
    }
}

/// What an input asks for, or why it cannot be done.
pub fn plan(input: &BrowserInput, tabs: &Tabs) -> (r: Result<Plan, BrowserFailure>)
    ensures
        match r {
            Ok(p) => planned(*input, tabs@) == Ok::<PlanView, Failure>(p@),
            Err(e) => planned(*input, tabs@) == Err::<PlanView, Failure>(e@),
        },
{
    let tab = match &input.name {
        Some(name) => name.clone(),
        None => "default".to_string(),
    };
    if same(&input.action, "open") {
        let url = match &input.url {
            Some(url) => url.clone(),
            None => "about:blank".to_string(),
        };
        Ok(Plan::Open { tab, url, viewport: input.viewport })
    } else if same(&input.action, "run") {
        match &input.code {
            None => Err(
                BrowserFailure::Usage("run needs `code`: the JavaScript to evaluate".to_string()),
            ),
            Some(code) => match tabs.target_for(&tab) {
                Ok(target_id) => Ok(Plan::Run { tab, target_id, code: code.clone() }),
                Err(e) => Err(e),
            },
        }
    } else if same(&input.action, "screenshot") {
        match tabs.target_for(&tab) {
            Ok(target_id) => Ok(Plan::Screenshot { tab, target_id }),
            Err(e) => Err(e),
        }
    } else if same(&input.action, "close") {
        Ok(Plan::Close { tab, all: input.all })
    } else {
        let mut e = "unknown action ".to_string();
        let action = quote(&input.action);
        e.push_str(&action);
        e.push_str("; use open, run, screenshot or close");
        Err(BrowserFailure::Usage(e))
    }
}

// ---------------------------------------------------------------------------
// Commands and replies
// ---------------------------------------------------------------------------

/// A member that a reply must have as a string.
pub open spec fn required_text(reply: JsonView, key: Seq<char>, missing: Seq<char>) -> Result<
    Seq<char>,
    Failure,
> {
    match reply.text_of(key) {
        Some(s) => Ok(s),
        None => Err(Failure::Cdp(Fault::Protocol(missing))),
    }
}

fn require_text(reply: &Json, key: &str, missing: &str) -> (r: Result<String, BrowserFailure>)
    ensures
        match r {
            Ok(s) => required_text(reply@, key@, missing@) == Ok::<Seq<char>, Failure>(s@),
            Err(e) => required_text(reply@, key@, missing@) == Err::<Seq<char>, Failure>(e@),
        },
{
    match reply.text_of(key) {
        Some(s) => Ok(s),
        None => Err(BrowserFailure::Cdp(CdpError::Protocol(missing.to_string()))),
    }
}

/// The target that `Target.createTarget` created.
pub fn created_target(reply: &Json) -> (r: Result<String, BrowserFailure>)
    ensures
        match r {
            Ok(s) => required_text(reply@, "targetId"@, "createTarget returned no targetId"@)
                == Ok::<Seq<char>, Failure>(s@),
            Err(e) => required_text(reply@, "targetId"@, "createTarget returned no targetId"@)
                == Err::<Seq<char>, Failure>(e@),
        },
{
    require_text(reply, "targetId", "createTarget returned no targetId")
}

/// The session that `Target.attachToTarget` opened.
pub fn attached_session(reply: &Json) -> (r: Result<String, BrowserFailure>)
    ensures
        match r {
            Ok(s) => required_text(reply@, "sessionId"@, "attachToTarget returned no sessionId"@)
                == Ok::<Seq<char>, Failure>(s@),
            Err(e) => required_text(reply@, "sessionId"@, "attachToTarget returned no sessionId"@)
                == Err::<Seq<char>, Failure>(e@),
        },
{
    require_text(reply, "sessionId", "attachToTarget returned no sessionId")
}

/// The picture that `Page.captureScreenshot` took, in base64.
pub fn captured_data(reply: &Json) -> (r: Result<String, BrowserFailure>)
    ensures
        match r {
            Ok(s) => required_text(reply@, "data"@, "captureScreenshot returned no data"@) == Ok::<
                Seq<char>,
                Failure,
            >(s@),
            Err(e) => required_text(reply@, "data"@, "captureScreenshot returned no data"@)
                == Err::<Seq<char>, Failure>(e@),
        },
{
    require_text(reply, "data", "captureScreenshot returned no data")
}

/// The text of a page's exception.
pub open spec fn exception_text(details: JsonView) -> Seq<char> {
    let described = match details.get("exception"@) {
        Some(exc) => exc.text_of("description"@),
        None => None,
    };
    match described {
        Some(s) => s,
        None => match details.text_of("text"@) {
            Some(s) => s,
            None => "unknown error"@,
        },
    }
}

/// What an evaluation came to: the value, or the exception the page raised.
pub open spec fn evaluated(reply: JsonView) -> Result<JsonView, Failure> {
    match reply.get("exceptionDetails"@) {
        Some(details) => Err(Failure::PageException(exception_text(details))),
        None => Ok(
            match reply.get("result"@) {
                Some(result) => match result.get("value"@) {
                    Some(v) => v,
                    None => JsonView::Null,
                },
                None => JsonView::Null,
            },
        ),
    }
}

/// What a `Runtime.evaluate` reply says, a page exception turned into an error.
pub fn evaluate_value(reply: &Json) -> (r: Result<Json, BrowserFailure>)
    ensures
        match r {
            Ok(v) => evaluated(reply@) == Ok::<JsonView, Failure>(v@),
            Err(e) => evaluated(reply@) == Err::<JsonView, Failure>(e@),
        },
{
    if let Some(details) = reply.get("exceptionDetails") {
        let described = match details.get("exception") {
            Some(exc) => exc.text_of("description"),
            None => None,
        };
        let text = match described {
            Some(s) => s,
            None => match details.text_of("text") {
                Some(s) => s,
                None => "unknown error".to_string(),
            },
        };
        return Err(BrowserFailure::PageException(text));
    }
    Ok(
        match reply.get("result") {
            Some(result) => match result.get("value") {
                Some(v) => v.copy(),
                None => Json::Null,
            },
            None => Json::Null,
        },
    )
}

/// An object of one string member.
fn text_object(key: &str, value: &str) -> (out: Json)
    ensures
        out@ == JsonView::Object(seq![(key@, JsonView::Text(value@))]),
{
    let mut members: Vec<(String, Json)> = Vec::new();
    members.push((key.to_string(), Json::Text(value.to_string())));
    proof {
        object_view(members);
        assert(members_view(members@) =~= seq![(key@, JsonView::Text(value@))]);
    }
    Json::Object(members)
}

/// The parameters of `Target.createTarget`.
pub fn create_params(url: &str) -> (out: Json)
    ensures
        out@ == JsonView::Object(seq![("url"@, JsonView::Text(url@))]),
{
    text_object("url", url)
}

/// The parameters of `Target.closeTarget`.
pub fn close_params(target_id: &str) -> (out: Json)
    ensures
        out@ == JsonView::Object(seq![("targetId"@, JsonView::Text(target_id@))]),
{
    text_object("targetId", target_id)
}

/// The parameters of `Target.attachToTarget`, in flatten mode.
pub fn attach_params(target_id: &str) -> (out: Json)
    ensures
        out@ == JsonView::Object(
            seq![
                ("targetId"@, JsonView::Text(target_id@)),
                ("flatten"@, JsonView::Bool(true)),
            ],
        ),
{
    let mut members: Vec<(String, Json)> = Vec::new();
    members.push(("targetId".to_string(), Json::Text(target_id.to_string())));
    members.push(("flatten".to_string(), Json::Bool(true)));
    proof {
        object_view(members);
        assert(members_view(members@) =~= seq![
            ("targetId"@, JsonView::Text(target_id@)),
            ("flatten"@, JsonView::Bool(true)),
        ]);
    }
    Json::Object(members)
}

/// The parameters of `Runtime.evaluate`: by value, and awaiting a promise.
pub fn evaluate_params(expression: &str) -> (out: Json)
    ensures
        out@ == JsonView::Object(
            seq![
                ("expression"@, JsonView::Text(expression@)),
                ("awaitPromise"@, JsonView::Bool(true)),
                ("returnByValue"@, JsonView::Bool(true)),
            ],
        ),
{
    let mut members: Vec<(String, Json)> = Vec::new();
    members.push(("expression".to_string(), Json::Text(expression.to_string())));
    members.push(("awaitPromise".to_string(), Json::Bool(true)));
    members.push(("returnByValue".to_string(), Json::Bool(true)));
    proof {
        object_view(members);
        assert(members_view(members@) =~= seq![
            ("expression"@, JsonView::Text(expression@)),
            ("awaitPromise"@, JsonView::Bool(true)),
            ("returnByValue"@, JsonView::Bool(true)),
        ]);
    }
    Json::Object(members)
}

/// The parameters of `Emulation.setDeviceMetricsOverride`.
pub fn viewport_params(width: u32, height: u32) -> (out: Json)
    ensures
        out@ == JsonView::Object(
            seq![
                ("width"@, JsonView::Number(NumberView::Positive(width as u64))),
                ("height"@, JsonView::Number(NumberView::Positive(height as u64))),
                ("deviceScaleFactor"@, JsonView::Number(NumberView::Positive(1))),
                ("mobile"@, JsonView::Bool(false)),
            ],
        ),
{
    let mut members: Vec<(String, Json)> = Vec::new();
    members.push(("width".to_string(), Json::Number(JsonNumber::Positive(width as u64))));
    members.push(("height".to_string(), Json::Number(JsonNumber::Positive(height as u64))));
    members.push(("deviceScaleFactor".to_string(), Json::Number(JsonNumber::Positive(1))));
    members.push(("mobile".to_string(), Json::Bool(false)));
    proof {
        object_view(members);
        assert(members_view(members@) =~= seq![
            ("width"@, JsonView::Number(NumberView::Positive(width as u64))),
            ("height"@, JsonView::Number(NumberView::Positive(height as u64))),
            ("deviceScaleFactor"@, JsonView::Number(NumberView::Positive(1))),
            ("mobile"@, JsonView::Bool(false)),
        ]);
    }
    Json::Object(members)
}

/// The parameters of `Page.captureScreenshot`.
pub fn screenshot_params() -> (out: Json)
    ensures
        out@ == JsonView::Object(
            seq![
                ("format"@, JsonView::Text("jpeg"@)),
                ("quality"@, JsonView::Number(NumberView::Positive(70))),
            ],
        ),
{
    let mut members: Vec<(String, Json)> = Vec::new();
    members.push(("format".to_string(), Json::Text("jpeg".to_string())));
    members.push(("quality".to_string(), Json::Number(JsonNumber::Positive(70))));
    proof {
        object_view(members);
        assert(members_view(members@) =~= seq![
            ("format"@, JsonView::Text("jpeg"@)),
            ("quality"@, JsonView::Number(NumberView::Positive(70))),
        ]);
    }
    Json::Object(members)
}

// ---------------------------------------------------------------------------
// Reports
// ---------------------------------------------------------------------------

/// The report on an opened tab. `title` is what the page answered for its title.
pub fn opened_report(tab: &str, url: &str, title: &Option<Json>) -> (out: String)
    ensures
        out@ == "Opened tab "@ + quoted(tab@) + " at "@ + url@ + " (title: "@ + quoted(
            match opt_json(*title) {
                Some(JsonView::Text(s)) => s,
                _ => Seq::<char>::empty(),
            },
        ) + ")."@,
{
    let mut out = "Opened tab ".to_string();
    let name = quote(tab);
    out.push_str(&name);
    out.push_str(" at ");
    out.push_str(url);
    out.push_str(" (title: ");
    let shown = match title {
        Some(Json::Text(s)) => s.clone(),
        _ => String::new(),
    };
    let shown = quote(&shown);
    out.push_str(&shown);
    out.push_str(").");
    out
}

/// The report on a screenshot, with the picture as a data URI.
pub fn screenshot_report(tab: &str, data: &str) -> (out: String)
    ensures
        out@ == "Screenshot of tab "@ + quoted(tab@) + " ("@ + decimal(byte_len(data@))
            + " bytes base64).\ndata:image/jpeg;base64,"@ + data@,
{
    let mut out = "Screenshot of tab ".to_string();
    let name = quote(tab);
    out.push_str(&name);
    out.push_str(" (");
    let n = count(size(data));
    out.push_str(&n);
    out.push_str(" bytes base64).\ndata:image/jpeg;base64,");
    out.push_str(data);
    out
}

/// The report on closed tabs.
pub fn closed_report(closed: usize) -> (out: String)
    ensures
        out@ == "Closed "@ + decimal(closed as nat) + " tab(s)."@,
{
    let mut out = "Closed ".to_string();
    let n = count(closed);
    out.push_str(&n);
    out.push_str(" tab(s).");
    out
}

// ---------------------------------------------------------------------------
// Reaching a browser
// ---------------------------------------------------------------------------

/// How often the page is asked whether it has finished loading.
pub const LOAD_POLLS: u32 = 20;

/// How often a launched browser's endpoint is tried.
pub const ENDPOINT_POLLS: u32 = 50;

/// What a bounded wait does next.
#[derive(Debug, PartialEq, Eq, Clone, Copy, Structural)]
pub enum Wait {
    /// What was waited for is there, or will not be waited for any longer.
    Over,
    /// Sleep a little and ask again.
    Again,
}

/// Whether to keep waiting for a page, after `polls` polls of its ready state,
/// the last of which answered `ready`. A page that never settles must not hold
/// the call open.
pub fn wait_for_load(polls: u32, ready: &Option<Json>) -> (r: Wait)
    ensures
        r == (if polls >= LOAD_POLLS || opt_json(*ready) == Some(JsonView::Text("complete"@)) {
            Wait::Over
        } else {
            Wait::Again
        }),
{
    if polls >= LOAD_POLLS {
        return Wait::Over;
    }
    match ready {
        Some(Json::Text(s)) => if same(s, "complete") {
            Wait::Over
        } else {
            Wait::Again
        },
        _ => Wait::Again,
    }
}

/// The address of a browser's version page.
pub fn version_url(cdp_url: &str) -> (out: String)
    ensures
        out@ == strip_back(cdp_url@, '/') + "/json/version"@,
{
    let mut out = trim_back(cdp_url, '/');
    out.push_str("/json/version");
    out
}

/// What a launched browser that never answered is reported as, after its last error.
pub fn no_endpoint(last: &str) -> (e: BrowserFailure)
    ensures
        e@ == Failure::NoBrowser("browser did not open its CDP endpoint: "@ + last@),
{
    let mut s = "browser did not open its CDP endpoint: ".to_string();
    s.push_str(last);
    BrowserFailure::NoBrowser(s)
}

/// The name of a browser binary, by its place in the order they are tried in.
pub open spec fn candidate(i: int) -> Seq<char> {
    if i == 0 {
        "google-chrome"@
    } else if i == 1 {
        "chromium"@
    } else if i == 2 {
        "chromium-browser"@
    } else {
        "chrome"@
    }
}

/// The first candidate from `from` on that is on the PATH.
pub open spec fn first_found(found: Seq<bool>, from: int) -> Option<Seq<char>>
    decreases 4 - from,
{
    if from < 0 || from >= 4 {
        None
    } else if from < found.len() && found[from] {
        Some(candidate(from))
    } else {
        first_found(found, from + 1)
    }
}

/// The browser binary to launch: the configured one, or the first of
/// `google-chrome`, `chromium`, `chromium-browser` and `chrome` on the PATH.
/// `found` says of each, in that order, whether it is there.
pub fn browser_binary(configured: &Option<String>, found: &[bool; 4]) -> (r: Option<String>)
    ensures
        opt_view(r) == match configured {
            Some(s) => Some(s@),
            None => first_found(found@, 0),
        },
{
    if let Some(s) = configured {
        return Some(s.clone());
    }
    reveal_with_fuel(first_found, 5);
    if found[0] {
        Some("google-chrome".to_string())
    } else if found[1] {
        Some("chromium".to_string())
    } else if found[2] {
        Some("chromium-browser".to_string())
    } else if found[3] {
        Some("chrome".to_string())
    } else {
        None
    }
}

/// An action on a tab acts on the page that the tab was opened for; a tab that was not
/// opened is refused.
pub proof fn an_action_acts_on_its_tab(input: BrowserInput, tabs: Map<Seq<char>, Seq<char>>)
    ensures
        input.action@ == "run"@ && input.code is Some && tabs.dom().contains(tab_of(input))
            ==> planned(input, tabs) == Ok::<PlanView, Failure>(
            PlanView::Run {
                tab: tab_of(input),
                target_id: tabs[tab_of(input)],
                code: input.code->0@,
            },
        ),
        input.action@ == "screenshot"@ && tabs.dom().contains(tab_of(input)) ==> planned(input, tabs)
            == Ok::<PlanView, Failure>(
            PlanView::Screenshot { tab: tab_of(input), target_id: tabs[tab_of(input)] },
        ),
        (input.action@ == "screenshot"@ || (input.action@ == "run"@ && input.code is Some))
            && !tabs.dom().contains(tab_of(input)) ==> planned(input, tabs) == Err::<
            PlanView,
            Failure,
        >(Failure::UnknownTab(tab_of(input))),
        input.action@ == "open"@ && input.url is Some ==> planned(input, tabs) == Ok::<
            PlanView,
            Failure,
        >(
            PlanView::Open {
                tab: tab_of(input),
                url: input.url->0@,
                viewport: input.viewport,
            },
        ),
        input.action@ == "close"@ ==> planned(input, tabs) == Ok::<PlanView, Failure>(
            PlanView::Close { tab: tab_of(input), all: input.all },
        ),
        input.name is Some ==> tab_of(input) == input.name->0@,
{
    reveal_strlit("open");
    reveal_strlit("run");
    reveal_strlit("screenshot");
    reveal_strlit("close");
    assert("open"@[0] == 'o' && "run"@[0] == 'r' && "screenshot"@[0] == 's' && "close"@[0] == 'c');
}

/// The browser started is the first of the candidates that is there.
pub proof fn the_first_browser_there_is_started(found: Seq<bool>, k: int)
    requires
        found.len() == 4,
    ensures
        0 <= k < 4 && found[k] && (forall|j: int| 0 <= j < k ==> !#[trigger] found[j])
            ==> first_found(found, 0) == Some(candidate(k)),
        (forall|j: int| 0 <= j < 4 ==> !#[trigger] found[j]) ==> first_found(found, 0) is None,
{
    reveal_with_fuel(first_found, 6);
    if k > 0 {
        assert(found[0] || !found[0]);
    }
    if k > 1 {
        assert(found[1] || !found[1]);
    }
    if k > 2 {
        assert(found[2] || !found[2]);
    }
    assert(found[3] || !found[3]);
}

/// An evaluation gives back the value of the page, and what the page raised where it
/// raised something.
pub proof fn an_evaluation_gives_back_the_value(
    value: JsonView,
    raised: Seq<char>,
)
    ensures
        evaluated(
            JsonView::Object(seq![("result"@, JsonView::Object(seq![("value"@, value)]))]),
        ) == Ok::<JsonView, Failure>(value),
        evaluated(
            JsonView::Object(
                seq![
                    (
                        "exceptionDetails"@,
                        JsonView::Object(seq![("text"@, JsonView::Text(raised))]),
                    ),
                ],
            ),
        ) == Err::<JsonView, Failure>(Failure::PageException(raised)),
{
    reveal_with_fuel(crate::json::member_from, 3);
    reveal_strlit("result");
    reveal_strlit("exceptionDetails");
    reveal_strlit("text");
    reveal_strlit("exception");
    assert("result"@.len() == 6 && "exceptionDetails"@.len() == 16);
    assert("text"@.len() == 4 && "exception"@.len() == 9);
}

/// The candidates are four different programs, tried in their order.
pub proof fn the_candidates_in_order()
    ensures
        seq![candidate(0), candidate(1), candidate(2), candidate(3)] == seq![
            "google-chrome"@,
            "chromium"@,
            "chromium-browser"@,
            "chrome"@,
        ],
{
}

} // verus!
